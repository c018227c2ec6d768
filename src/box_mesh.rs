//! The box mesh: eight corners built from six face offsets and twelve
//! triangles, two per face.
//!
//! ```text
//!     4------5
//!    /|     /|
//!   / |    / |
//!  0------1  |
//!  |  7---|--6
//!  | /    | /
//!  |/     |/
//!  3------2
//! ```
use vstd::prelude::*;

use crate::mesh::{is_triangle_list, triangle_is_proper};

verus! {

/// Number of corners of a box.
pub const BOX_VERTEX_COUNT: usize = 8;

/// Number of entries in the index list of a box: twelve triangles of three.
pub const BOX_INDEX_COUNT: usize = 36;

/// The flat coordinate list of the box corners, three entries per corner,
/// in the corner order of the picture above.
pub open spec fn box_vertex_seq<T>(top: T, left: T, front: T, bottom: T, right: T, back: T) -> Seq<T> {
    seq![
        left, top, front,
        right, top, front,
        right, bottom, front,
        left, bottom, front,
        left, top, back,
        right, top, back,
        right, bottom, back,
        left, bottom, back,
    ]
}

/// The triangle list of the box: front, top, right, bottom, left, back, two
/// triangles each, every face split along one of its diagonals and every
/// triangle turning the same way (see [`lemma_box_faces`]).
pub open spec fn box_index_seq() -> Seq<u16> {
    seq![
        0, 1, 2, 0, 2, 3,
        4, 5, 1, 4, 1, 0,
        5, 6, 2, 5, 2, 1,
        6, 7, 2, 7, 3, 2,
        7, 4, 0, 7, 0, 3,
        5, 4, 6, 4, 7, 6,
    ]
}

/// Builds the flat corner coordinate list of the box bounded by the six face
/// offsets: `top`/`bottom` along Y, `left`/`right` along X, `front`/`back`
/// along Z. Equal opposite offsets give a flat box with the same layout.
pub fn box_vertices<T: Copy>(top: T, left: T, front: T, bottom: T, right: T, back: T) -> (r: Vec<T>)
    ensures
        r@ == box_vertex_seq(top, left, front, bottom, right, back),
{
    let r: Vec<T> = vec![
        left, top, front,
        right, top, front,
        right, bottom, front,
        left, bottom, front,
        left, top, back,
        right, top, back,
        right, bottom, back,
        left, bottom, back,
    ];
    assert(r@ =~= box_vertex_seq(top, left, front, bottom, right, back));
    r
}

/// Builds the triangle list of the box over the corners of [`box_vertices`].
pub fn box_indices() -> (r: Vec<u16>)
    ensures
        r@ == box_index_seq(),
        r@.len() == BOX_INDEX_COUNT,
        is_triangle_list(r@, BOX_VERTEX_COUNT as int),
{
    let r: Vec<u16> = vec![
        0, 1, 2, 0, 2, 3,
        4, 5, 1, 4, 1, 0,
        5, 6, 2, 5, 2, 1,
        6, 7, 2, 7, 3, 2,
        7, 4, 0, 7, 0, 3,
        5, 4, 6, 4, 7, 6,
    ];
    assert(r@ =~= box_index_seq());
    proof {
        lemma_box_mesh_shape(0int, 0int, 0int, 0int, 0int, 0int);
    }
    r
}

/// Whatever the six offsets, equal opposite ones included, the box has
/// exactly eight corners of three coordinates and twelve triangles of three
/// indices, every index names one of the eight corners, and no triangle uses
/// a corner twice.
pub proof fn lemma_box_mesh_shape<T>(top: T, left: T, front: T, bottom: T, right: T, back: T)
    ensures
        box_vertex_seq(top, left, front, bottom, right, back).len() == 3 * BOX_VERTEX_COUNT,
        box_index_seq().len() == BOX_INDEX_COUNT,
        BOX_INDEX_COUNT == 3 * 12,
        is_triangle_list(box_index_seq(), BOX_VERTEX_COUNT as int),
{
    let s = box_index_seq();
    assert forall|i: int| 0 <= i < s.len() implies #[trigger] s[i] < BOX_VERTEX_COUNT by {
        assert(0 <= i < 36);
    }
    assert forall|t: int| 0 <= t < s.len() / 3 implies #[trigger] triangle_is_proper(s, t) by {
        assert(0 <= t < 12);
    }
}

/// Corner `i` of a flat corner coordinate list.
pub open spec fn box_corner(v: Seq<int>, i: int) -> (int, int, int) {
    (v[3 * i], v[3 * i + 1], v[3 * i + 2])
}

/// Coordinate `axis` (0 is X, 1 is Y, 2 is Z) of a point.
pub open spec fn coord(p: (int, int, int), axis: int) -> int {
    if axis == 0 {
        p.0
    } else if axis == 1 {
        p.1
    } else {
        p.2
    }
}

/// The axis across face `f`, faces counted front, top, right, bottom, left,
/// back.
pub open spec fn face_axis(f: int) -> int {
    if f == 0 || f == 5 {
        2
    } else if f == 1 || f == 3 {
        1
    } else {
        0
    }
}

/// `1` when face `f` looks along the positive direction of its axis, `-1`
/// when it looks along the negative one.
pub open spec fn face_sign(f: int) -> int {
    if f <= 2 {
        1
    } else {
        -1
    }
}

/// The offset of face `f` along its axis.
pub open spec fn face_offset(f: int, top: int, left: int, front: int, bottom: int, right: int, back: int) -> int {
    if f == 0 {
        front
    } else if f == 1 {
        top
    } else if f == 2 {
        right
    } else if f == 3 {
        bottom
    } else if f == 4 {
        left
    } else {
        back
    }
}

/// Corner `i` appears in triangle `t` of `s`.
pub open spec fn triangle_has(s: Seq<u16>, t: int, i: u16) -> bool {
    s[3 * t] == i || s[3 * t + 1] == i || s[3 * t + 2] == i
}

/// The three corners of triangle `t` all lie in the plane where coordinate
/// `axis` equals `offset`.
pub open spec fn triangle_lies_on(v: Seq<int>, s: Seq<u16>, t: int, axis: int, offset: int) -> bool {
    &&& coord(box_corner(v, s[3 * t] as int), axis) == offset
    &&& coord(box_corner(v, s[3 * t + 1] as int), axis) == offset
    &&& coord(box_corner(v, s[3 * t + 2] as int), axis) == offset
}

/// The normal `(p1 - p0) x (p2 - p0)` of triangle `t` of `s` over corners `v`.
pub open spec fn triangle_normal(v: Seq<int>, s: Seq<u16>, t: int) -> (int, int, int) {
    let p0 = box_corner(v, s[3 * t] as int);
    let p1 = box_corner(v, s[3 * t + 1] as int);
    let p2 = box_corner(v, s[3 * t + 2] as int);
    let a = (p1.0 - p0.0, p1.1 - p0.1, p1.2 - p0.2);
    let b = (p2.0 - p0.0, p2.1 - p0.1, p2.2 - p0.2);
    (a.1 * b.2 - a.2 * b.1, a.2 * b.0 - a.0 * b.2, a.0 * b.1 - a.1 * b.0)
}

/// Two points that differ in exactly two coordinates: opposite corners of an
/// axis-aligned rectangle.
pub open spec fn diagonal_apart(p: (int, int, int), q: (int, int, int)) -> bool {
    (if p.0 != q.0 { 1int } else { 0 }) + (if p.1 != q.1 { 1int } else { 0 }) + (if p.2 != q.2 { 1int } else { 0 }) == 2
}

/// The two triangles of face `f` share a diagonal of the face.
pub open spec fn face_split_along_diagonal(v: Seq<int>, s: Seq<u16>, f: int) -> bool {
    exists|a: u16, b: u16|
        #![trigger triangle_has(s, 2 * f, a), triangle_has(s, 2 * f, b)]
        triangle_has(s, 2 * f, a) && triangle_has(s, 2 * f, b) && triangle_has(s, 2 * f + 1, a)
            && triangle_has(s, 2 * f + 1, b) && diagonal_apart(box_corner(v, a as int), box_corner(v, b as int))
}

proof fn lemma_shared_diagonal(v: Seq<int>, s: Seq<u16>, f: int, a: u16, b: u16)
    requires
        triangle_has(s, 2 * f, a),
        triangle_has(s, 2 * f, b),
        triangle_has(s, 2 * f + 1, a),
        triangle_has(s, 2 * f + 1, b),
        diagonal_apart(box_corner(v, a as int), box_corner(v, b as int)),
    ensures
        face_split_along_diagonal(v, s, f),
{
}

/// For a box of positive extent along every axis (`left < right`,
/// `bottom < top`, `back < front`), the twelve triangles form the six faces:
/// the two triangles of each face lie in that face's plane, they split the
/// face along one shared diagonal so that together they cover it once, and
/// every triangle turns the same way, its normal `(p1 - p0) x (p2 - p0)`
/// pointing into the box.
pub proof fn lemma_box_faces(top: int, left: int, front: int, bottom: int, right: int, back: int)
    requires
        left < right,
        bottom < top,
        back < front,
    ensures
        forall|t: int|
            0 <= t < 12 ==> #[trigger] triangle_lies_on(
                box_vertex_seq(top, left, front, bottom, right, back),
                box_index_seq(),
                t,
                face_axis(t / 2),
                face_offset(t / 2, top, left, front, bottom, right, back),
            ),
        forall|t: int|
            0 <= t < 12 ==> face_sign(t / 2) * coord(
                #[trigger] triangle_normal(box_vertex_seq(top, left, front, bottom, right, back), box_index_seq(), t),
                face_axis(t / 2),
            ) < 0,
        forall|f: int|
            0 <= f < 6 ==> #[trigger] face_split_along_diagonal(
                box_vertex_seq(top, left, front, bottom, right, back),
                box_index_seq(),
                f,
            ),
{
    let v = box_vertex_seq(top, left, front, bottom, right, back);
    let s = box_index_seq();
    assert forall|t: int| 0 <= t < 12 implies #[trigger] triangle_lies_on(
        v,
        s,
        t,
        face_axis(t / 2),
        face_offset(t / 2, top, left, front, bottom, right, back),
    ) by {
        assert(0 <= t < 12);
    }
    assert(coord(triangle_normal(v, s, 0), 2) < 0) by {
        let n = triangle_normal(v, s, 0);
        let p0 = box_corner(v, s[0] as int);
        let p1 = box_corner(v, s[1] as int);
        let p2 = box_corner(v, s[2] as int);
        let (ai, aj, bi, bj) = (p1.0 - p0.0, p1.1 - p0.1, p2.0 - p0.0, p2.1 - p0.1);
        assert(n.2 < 0) by (nonlinear_arith)
            requires
                n.2 == ai * bj - aj * bi,
                ai == right - left,
                aj == 0,
                bi == right - left,
                bj == bottom - top,
                left < right,
                bottom < top,
                back < front,
        ;
    }
    assert(coord(triangle_normal(v, s, 1), 2) < 0) by {
        let n = triangle_normal(v, s, 1);
        let p0 = box_corner(v, s[3] as int);
        let p1 = box_corner(v, s[4] as int);
        let p2 = box_corner(v, s[5] as int);
        let (ai, aj, bi, bj) = (p1.0 - p0.0, p1.1 - p0.1, p2.0 - p0.0, p2.1 - p0.1);
        assert(n.2 < 0) by (nonlinear_arith)
            requires
                n.2 == ai * bj - aj * bi,
                ai == right - left,
                aj == bottom - top,
                bi == 0,
                bj == bottom - top,
                left < right,
                bottom < top,
                back < front,
        ;
    }
    assert(coord(triangle_normal(v, s, 2), 1) < 0) by {
        let n = triangle_normal(v, s, 2);
        let p0 = box_corner(v, s[6] as int);
        let p1 = box_corner(v, s[7] as int);
        let p2 = box_corner(v, s[8] as int);
        let (ai, aj, bi, bj) = (p1.2 - p0.2, p1.0 - p0.0, p2.2 - p0.2, p2.0 - p0.0);
        assert(n.1 < 0) by (nonlinear_arith)
            requires
                n.1 == ai * bj - aj * bi,
                ai == 0,
                aj == right - left,
                bi == front - back,
                bj == right - left,
                left < right,
                bottom < top,
                back < front,
        ;
    }
    assert(coord(triangle_normal(v, s, 3), 1) < 0) by {
        let n = triangle_normal(v, s, 3);
        let p0 = box_corner(v, s[9] as int);
        let p1 = box_corner(v, s[10] as int);
        let p2 = box_corner(v, s[11] as int);
        let (ai, aj, bi, bj) = (p1.2 - p0.2, p1.0 - p0.0, p2.2 - p0.2, p2.0 - p0.0);
        assert(n.1 < 0) by (nonlinear_arith)
            requires
                n.1 == ai * bj - aj * bi,
                ai == front - back,
                aj == right - left,
                bi == front - back,
                bj == 0,
                left < right,
                bottom < top,
                back < front,
        ;
    }
    assert(coord(triangle_normal(v, s, 4), 0) < 0) by {
        let n = triangle_normal(v, s, 4);
        let p0 = box_corner(v, s[12] as int);
        let p1 = box_corner(v, s[13] as int);
        let p2 = box_corner(v, s[14] as int);
        let (ai, aj, bi, bj) = (p1.1 - p0.1, p1.2 - p0.2, p2.1 - p0.1, p2.2 - p0.2);
        assert(n.0 < 0) by (nonlinear_arith)
            requires
                n.0 == ai * bj - aj * bi,
                ai == bottom - top,
                aj == 0,
                bi == bottom - top,
                bj == front - back,
                left < right,
                bottom < top,
                back < front,
        ;
    }
    assert(coord(triangle_normal(v, s, 5), 0) < 0) by {
        let n = triangle_normal(v, s, 5);
        let p0 = box_corner(v, s[15] as int);
        let p1 = box_corner(v, s[16] as int);
        let p2 = box_corner(v, s[17] as int);
        let (ai, aj, bi, bj) = (p1.1 - p0.1, p1.2 - p0.2, p2.1 - p0.1, p2.2 - p0.2);
        assert(n.0 < 0) by (nonlinear_arith)
            requires
                n.0 == ai * bj - aj * bi,
                ai == bottom - top,
                aj == front - back,
                bi == 0,
                bj == front - back,
                left < right,
                bottom < top,
                back < front,
        ;
    }
    assert(coord(triangle_normal(v, s, 6), 1) > 0) by {
        let n = triangle_normal(v, s, 6);
        let p0 = box_corner(v, s[18] as int);
        let p1 = box_corner(v, s[19] as int);
        let p2 = box_corner(v, s[20] as int);
        let (ai, aj, bi, bj) = (p1.2 - p0.2, p1.0 - p0.0, p2.2 - p0.2, p2.0 - p0.0);
        assert(n.1 > 0) by (nonlinear_arith)
            requires
                n.1 == ai * bj - aj * bi,
                ai == 0,
                aj == left - right,
                bi == front - back,
                bj == 0,
                left < right,
                bottom < top,
                back < front,
        ;
    }
    assert(coord(triangle_normal(v, s, 7), 1) > 0) by {
        let n = triangle_normal(v, s, 7);
        let p0 = box_corner(v, s[21] as int);
        let p1 = box_corner(v, s[22] as int);
        let p2 = box_corner(v, s[23] as int);
        let (ai, aj, bi, bj) = (p1.2 - p0.2, p1.0 - p0.0, p2.2 - p0.2, p2.0 - p0.0);
        assert(n.1 > 0) by (nonlinear_arith)
            requires
                n.1 == ai * bj - aj * bi,
                ai == front - back,
                aj == 0,
                bi == front - back,
                bj == right - left,
                left < right,
                bottom < top,
                back < front,
        ;
    }
    assert(coord(triangle_normal(v, s, 8), 0) > 0) by {
        let n = triangle_normal(v, s, 8);
        let p0 = box_corner(v, s[24] as int);
        let p1 = box_corner(v, s[25] as int);
        let p2 = box_corner(v, s[26] as int);
        let (ai, aj, bi, bj) = (p1.1 - p0.1, p1.2 - p0.2, p2.1 - p0.1, p2.2 - p0.2);
        assert(n.0 > 0) by (nonlinear_arith)
            requires
                n.0 == ai * bj - aj * bi,
                ai == top - bottom,
                aj == 0,
                bi == top - bottom,
                bj == front - back,
                left < right,
                bottom < top,
                back < front,
        ;
    }
    assert(coord(triangle_normal(v, s, 9), 0) > 0) by {
        let n = triangle_normal(v, s, 9);
        let p0 = box_corner(v, s[27] as int);
        let p1 = box_corner(v, s[28] as int);
        let p2 = box_corner(v, s[29] as int);
        let (ai, aj, bi, bj) = (p1.1 - p0.1, p1.2 - p0.2, p2.1 - p0.1, p2.2 - p0.2);
        assert(n.0 > 0) by (nonlinear_arith)
            requires
                n.0 == ai * bj - aj * bi,
                ai == top - bottom,
                aj == front - back,
                bi == 0,
                bj == front - back,
                left < right,
                bottom < top,
                back < front,
        ;
    }
    assert(coord(triangle_normal(v, s, 10), 2) > 0) by {
        let n = triangle_normal(v, s, 10);
        let p0 = box_corner(v, s[30] as int);
        let p1 = box_corner(v, s[31] as int);
        let p2 = box_corner(v, s[32] as int);
        let (ai, aj, bi, bj) = (p1.0 - p0.0, p1.1 - p0.1, p2.0 - p0.0, p2.1 - p0.1);
        assert(n.2 > 0) by (nonlinear_arith)
            requires
                n.2 == ai * bj - aj * bi,
                ai == left - right,
                aj == 0,
                bi == 0,
                bj == bottom - top,
                left < right,
                bottom < top,
                back < front,
        ;
    }
    assert(coord(triangle_normal(v, s, 11), 2) > 0) by {
        let n = triangle_normal(v, s, 11);
        let p0 = box_corner(v, s[33] as int);
        let p1 = box_corner(v, s[34] as int);
        let p2 = box_corner(v, s[35] as int);
        let (ai, aj, bi, bj) = (p1.0 - p0.0, p1.1 - p0.1, p2.0 - p0.0, p2.1 - p0.1);
        assert(n.2 > 0) by (nonlinear_arith)
            requires
                n.2 == ai * bj - aj * bi,
                ai == 0,
                aj == bottom - top,
                bi == right - left,
                bj == bottom - top,
                left < right,
                bottom < top,
                back < front,
        ;
    }
    assert forall|t: int| 0 <= t < 12 implies face_sign(t / 2) * coord(
        #[trigger] triangle_normal(v, s, t),
        face_axis(t / 2),
    ) < 0 by {
        assert(0 <= t < 12);
        assert(t / 2 == 0 || t / 2 == 1 || t / 2 == 2 || t / 2 == 3 || t / 2 == 4 || t / 2 == 5);
    }
    lemma_shared_diagonal(v, s, 0, 0, 2);
    lemma_shared_diagonal(v, s, 1, 4, 1);
    lemma_shared_diagonal(v, s, 2, 5, 2);
    lemma_shared_diagonal(v, s, 3, 7, 2);
    lemma_shared_diagonal(v, s, 4, 7, 0);
    lemma_shared_diagonal(v, s, 5, 4, 6);
    assert forall|f: int| 0 <= f < 6 implies #[trigger] face_split_along_diagonal(v, s, f) by {
        assert(0 <= f < 6);
    }
}

} // verus!
