//! The sphere mesh, laid out on a grid of `n` latitude stripes by `n`
//! longitude columns with one angular step of `pi / n`.
//!
//! Each grid sample yields two vertices, the sample itself and its mirror
//! image through the vertical axis, stored next to each other. The
//! longitude keeps counting across stripes: sample `q` (stripe `q / n`,
//! column `q % n`) sits at longitude `q` steps, and at latitude
//! `pi / 2 + (q / n)` steps.
use vstd::prelude::*;
use vstd::arithmetic::div_mod::lemma_fundamental_div_mod_converse;

use crate::mesh::{is_triangle_list, triangle_is_proper};

verus! {

/// Where a vertex of the sphere lies, in whole angular steps of `pi / n`.
///
/// With `step = pi / n` and `r = radius * cos(pi / 2 + stripe * step)`, the
/// vertex is `center + (r * cos(turn * step), radius * sin(pi / 2 + stripe * step), r * sin(turn * step))`,
/// with the X and Z offsets negated when `mirrored` holds.
#[derive(Clone, Copy, Debug, PartialEq, Eq, Structural)]
pub struct SpherePoint {
    pub stripe: u16,
    pub turn: u32,
    pub mirrored: bool,
}

/// Vertex `k` of the sphere of precision `n`: twin `k % 2` of sample `k / 2`.
pub open spec fn sphere_point_at(n: int, k: int) -> SpherePoint {
    SpherePoint { stripe: (k / 2 / n) as u16, turn: (k / 2) as u32, mirrored: k % 2 == 1 }
}

/// All vertices of the sphere of precision `n`, in storage order.
pub open spec fn sphere_point_seq(n: int) -> Seq<SpherePoint> {
    Seq::new((2 * n * n) as nat, |k: int| sphere_point_at(n, k))
}

proof fn lemma_sample_position(n: int, stripe: int, column: int)
    requires
        0 <= column < n,
        0 <= stripe,
    ensures
        (2 * (stripe * n + column)) / 2 == stripe * n + column,
        (2 * (stripe * n + column)) % 2 == 0,
        (2 * (stripe * n + column) + 1) / 2 == stripe * n + column,
        (2 * (stripe * n + column) + 1) % 2 == 1,
        (stripe * n + column) / n == stripe,
{
    lemma_fundamental_div_mod_converse(stripe * n + column, n, stripe, column);
}

/// Lists the `2 * n * n` vertices of the sphere of precision `n`, stripe by
/// stripe, column by column, each sample followed by its mirror image.
pub fn sphere_points(precision: u16) -> (r: Vec<SpherePoint>)
    ensures
        r@ == sphere_point_seq(precision as int),
{
    let ghost n = precision as int;
    let mut r: Vec<SpherePoint> = Vec::new();
    let mut stripe: u16 = 0;
    let mut turn: u32 = 0;
    while stripe < precision
        invariant
            n == precision,
            stripe <= n,
            turn == stripe * n,
            r@.len() == 2 * turn,
            forall|k: int| 0 <= k < r@.len() ==> r@[k] == sphere_point_at(n, k),
        decreases precision - stripe,
    {
        let mut column: u16 = 0;
        while column < precision
            invariant
                n == precision,
                stripe < n,
                column <= n,
                turn == stripe * n + column,
                r@.len() == 2 * turn,
                forall|k: int| 0 <= k < r@.len() ==> r@[k] == sphere_point_at(n, k),
            decreases precision - column,
        {
            proof {
                lemma_sample_position(n, stripe as int, column as int);
                assert(turn + 1 <= n * n) by (nonlinear_arith)
                    requires
                        turn == stripe * n + column,
                        stripe < n,
                        column < n,
                ;
                assert(n * n <= 0xffff_ffff) by (nonlinear_arith)
                    requires
                        0 <= n <= 0xffff,
                ;
            }
            r.push(SpherePoint { stripe, turn, mirrored: false });
            r.push(SpherePoint { stripe, turn, mirrored: true });
            turn = turn + 1;
            column = column + 1;
        }
        assert(turn == (stripe + 1) * n) by (nonlinear_arith)
            requires
                turn == stripe * n + n,
        ;
        stripe = stripe + 1;
    }
    assert(2 * turn == 2 * n * n) by (nonlinear_arith)
        requires
            turn == n * n,
    ;
    assert(r@ =~= sphere_point_seq(n));
    r
}

/// Index of slot `slot` (0 to 11) of the grid cell at stripe `y`, column
/// `s`. With `top_left = 2 * n * y + s`, `top_right = top_left + 2`,
/// `bot_left = 2 * n * (y + 1) + s` and `bot_right = bot_left + 2`, the cell
/// holds the triangles `(top_left, top_right, bot_left)` and
/// `(top_right, bot_left, bot_right)`, then the same two with every index
/// plus one.
pub open spec fn sphere_corner(n: int, y: int, s: int, slot: int) -> int {
    let top_left = 2 * n * y + s;
    let bot_left = 2 * n * (y + 1) + s;
    let corner = slot % 6;
    let base = if corner == 0 {
        top_left
    } else if corner == 1 || corner == 3 {
        top_left + 2
    } else if corner == 2 || corner == 4 {
        bot_left
    } else {
        bot_left + 2
    };
    if slot < 6 {
        base
    } else {
        base + 1
    }
}

/// Entry `k` of the triangle list of the sphere of precision `n`: the cells
/// come stripe by stripe, `n - 1` per stripe, twelve entries each.
pub open spec fn sphere_index_at(n: int, k: int) -> int {
    let cell = k / 12;
    sphere_corner(n, cell / (n - 1), cell % (n - 1), k % 12)
}

/// Number of entries in the triangle list of the sphere of precision `n`.
pub open spec fn sphere_index_count(n: int) -> int {
    12 * (n - 1) * (n - 1)
}

proof fn lemma_cell_position(m: int, y: int, s: int, slot: int)
    requires
        0 <= y,
        0 <= s < m,
        0 <= slot < 12,
    ensures
        (12 * (y * m + s) + slot) / 12 == y * m + s,
        (12 * (y * m + s) + slot) % 12 == slot,
        (y * m + s) / m == y,
        (y * m + s) % m == s,
{
    lemma_fundamental_div_mod_converse(12 * (y * m + s) + slot, 12, y * m + s, slot);
    lemma_fundamental_div_mod_converse(y * m + s, m, y, s);
}

proof fn lemma_cell_of(n: int, k: int)
    requires
        2 <= n,
        0 <= k < sphere_index_count(n),
    ensures
        0 <= (k / 12) / (n - 1) <= n - 2,
        0 <= (k / 12) % (n - 1) <= n - 2,
{
    let m = n - 1;
    let cell = k / 12;
    assert(cell < m * m) by (nonlinear_arith)
        requires
            cell == k / 12,
            0 <= k < 12 * m * m,
    ;
    vstd::arithmetic::div_mod::lemma_fundamental_div_mod(cell, m);
    assert(cell / m < m) by (nonlinear_arith)
        requires
            cell == m * (cell / m) + cell % m,
            0 <= cell % m,
            cell < m * m,
            1 <= m,
    ;
    assert(0 <= cell / m) by (nonlinear_arith)
        requires
            0 <= cell,
            1 <= m,
    ;
}

proof fn lemma_triangle_slots(t: int, j: int)
    requires
        0 <= t,
        0 <= j < 3,
    ensures
        (3 * t + j) / 12 == t / 4,
        (3 * t + j) % 12 == 3 * (t % 4) + j,
{
    lemma_fundamental_div_mod_converse(3 * t + j, 12, t / 4, 3 * (t % 4) + j);
}

/// For every precision `n` from 1 on, the sphere has `2 * n * n` vertices and
/// `12 * (n - 1) * (n - 1)` indices, four triangles per grid cell; every
/// index names one of those vertices and no triangle repeats a vertex.
pub proof fn lemma_sphere_mesh_shape(n: int)
    requires
        1 <= n,
    ensures
        sphere_point_seq(n).len() == 2 * n * n,
        sphere_index_count(n) == 3 * (4 * (n - 1) * (n - 1)),
        forall|k: int|
            0 <= k < sphere_index_count(n) ==> 0 <= #[trigger] sphere_index_at(n, k) < 2 * n * n,
        forall|t: int|
            0 <= t < sphere_index_count(n) / 3 ==> {
                &&& #[trigger] sphere_index_at(n, 3 * t) != sphere_index_at(n, 3 * t + 1)
                &&& sphere_index_at(n, 3 * t) != sphere_index_at(n, 3 * t + 2)
                &&& sphere_index_at(n, 3 * t + 1) != sphere_index_at(n, 3 * t + 2)
            },
{
    assert(sphere_index_count(n) == 3 * (4 * (n - 1) * (n - 1))) by (nonlinear_arith);
    assert forall|k: int| 0 <= k < sphere_index_count(n) implies 0 <= #[trigger] sphere_index_at(n, k) < 2 * n * n by {
        assert(2 <= n) by (nonlinear_arith)
            requires
                1 <= n,
                0 <= k < sphere_index_count(n),
                sphere_index_count(n) == 12 * (n - 1) * (n - 1),
        ;
        lemma_cell_of(n, k);
        let y = (k / 12) / (n - 1);
        let s = (k / 12) % (n - 1);
        assert(2 * n * (y + 1) + s + 3 < 2 * n * n) by (nonlinear_arith)
            requires
                2 <= n,
                0 <= y <= n - 2,
                0 <= s <= n - 2,
        ;
        assert(0 <= 2 * n * y) by (nonlinear_arith)
            requires
                2 <= n,
                0 <= y,
        ;
        assert(2 * n * (y + 1) == 2 * n * y + 2 * n) by (nonlinear_arith);
        assert(sphere_index_at(n, k) == sphere_corner(n, y, s, k % 12));
    }
    assert forall|t: int| 0 <= t < sphere_index_count(n) / 3 implies {
        &&& #[trigger] sphere_index_at(n, 3 * t) != sphere_index_at(n, 3 * t + 1)
        &&& sphere_index_at(n, 3 * t) != sphere_index_at(n, 3 * t + 2)
        &&& sphere_index_at(n, 3 * t + 1) != sphere_index_at(n, 3 * t + 2)
    } by {
        lemma_triangle_slots(t, 0);
        lemma_triangle_slots(t, 1);
        lemma_triangle_slots(t, 2);
        assert(2 <= n) by (nonlinear_arith)
            requires
                1 <= n,
                0 <= t < sphere_index_count(n) / 3,
                sphere_index_count(n) == 12 * (n - 1) * (n - 1),
        ;
        let y = (t / 4) / (n - 1);
        assert(2 * n * (y + 1) == 2 * n * y + 2 * n) by (nonlinear_arith);
    }
}

/// Lists the triangles of the sphere of precision `n`: four per grid cell
/// over the `(n - 1) * (n - 1)` cells, `12 * (n - 1) * (n - 1)` indices.
pub fn sphere_indices(precision: u16) -> (r: Vec<u16>)
    requires
        1 <= precision,
        2 * precision * precision <= 0x1_0000,
    ensures
        r@.len() == sphere_index_count(precision as int),
        forall|k: int| 0 <= k < r@.len() ==> r@[k] as int == sphere_index_at(precision as int, k),
        is_triangle_list(r@, 2 * precision * precision),
{
    let ghost n = precision as int;
    assert(precision <= 256) by (nonlinear_arith)
        requires
            1 <= precision,
            2 * precision * precision <= 0x1_0000,
    ;
    let m: u16 = precision - 1;
    let width: u16 = precision * 2;
    let mut r: Vec<u16> = Vec::new();
    let mut y: u16 = 0;
    while y < m
        invariant
            n == precision,
            m == n - 1,
            width == 2 * n,
            2 * n * n <= 0x1_0000,
            y <= m,
            r@.len() == 12 * (y * m),
            forall|k: int| 0 <= k < r@.len() ==> r@[k] as int == sphere_index_at(n, k),
        decreases m - y,
    {
        let mut s: u16 = 0;
        while s < m
            invariant
                n == precision,
                m == n - 1,
                width == 2 * n,
                2 * n * n <= 0x1_0000,
                y < m,
                s <= m,
                r@.len() == 12 * (y * m + s),
                forall|k: int| 0 <= k < r@.len() ==> r@[k] as int == sphere_index_at(n, k),
            decreases m - s,
        {
            proof {
                assert(2 * n * (y + 1) + s + 3 <= 0xffff) by (nonlinear_arith)
                    requires
                        2 * n * n <= 0x1_0000,
                        y + 2 <= n,
                        s + 2 <= n,
                ;
                assert(width * y + s + width + 3 <= 0xffff && width * y == 2 * n * y
                    && width * y + width == 2 * n * (y + 1)) by (nonlinear_arith)
                    requires
                        width == 2 * n,
                        2 * n * (y + 1) + s + 3 <= 0xffff,
                ;
            }
            let top_left: u16 = width * y + s;
            let top_right: u16 = top_left + 2;
            let bot_left: u16 = top_left + width;
            let bot_right: u16 = bot_left + 2;
            let ghost start = r@.len() as int;
            r.push(top_left);
            r.push(top_right);
            r.push(bot_left);
            r.push(top_right);
            r.push(bot_left);
            r.push(bot_right);
            r.push(top_left + 1);
            r.push(top_right + 1);
            r.push(bot_left + 1);
            r.push(top_right + 1);
            r.push(bot_left + 1);
            r.push(bot_right + 1);
            proof {
                assert forall|k: int| 0 <= k < r@.len() implies r@[k] as int == sphere_index_at(n, k) by {
                    if k >= start {
                        lemma_cell_position(m as int, y as int, s as int, k - start);
                    }
                }
                assert(r@.len() == 12 * (y * m + s + 1));
            }
            s = s + 1;
        }
        assert(12 * (y * m + m) == 12 * ((y + 1) * m)) by (nonlinear_arith);
        y = y + 1;
    }
    assert(12 * (m * m) == 12 * (n - 1) * (n - 1)) by (nonlinear_arith)
        requires
            m == n - 1,
    ;
    proof {
        lemma_sphere_mesh_shape(n);
        assert forall|i: int| 0 <= i < r@.len() implies #[trigger] r@[i] < 2 * n * n by {
            assert(r@[i] as int == sphere_index_at(n, i));
        }
        assert forall|t: int| 0 <= t < r@.len() / 3 implies #[trigger] triangle_is_proper(r@, t) by {
            assert(r@[3 * t] as int == sphere_index_at(n, 3 * t));
            assert(r@[3 * t + 1] as int == sphere_index_at(n, 3 * t + 1));
            assert(r@[3 * t + 2] as int == sphere_index_at(n, 3 * t + 2));
        }
    }
    r
}

} // verus!
