use meshgen::box_mesh::{box_indices, box_vertices, BOX_INDEX_COUNT, BOX_VERTEX_COUNT};

#[test]
fn box_has_eight_corners_and_thirty_six_indices() {
    let vertices = box_vertices(1.0f32, -1.0, 1.0, -1.0, 1.0, -1.0);
    let indices = box_indices();
    assert_eq!(vertices.len(), 3 * 8);
    assert_eq!(vertices.len(), 3 * BOX_VERTEX_COUNT);
    assert_eq!(indices.len(), 36);
    assert_eq!(indices.len(), BOX_INDEX_COUNT);
    assert!(indices.iter().all(|&i| i < 8));
}

#[test]
fn box_corners_follow_the_face_offsets() {
    // top, left, front, bottom, right, back
    let v = box_vertices(2.0f32, -3.0, 5.0, -7.0, 11.0, -13.0);
    let expected: Vec<f32> = vec![
        -3.0, 2.0, 5.0, // 0
        11.0, 2.0, 5.0, // 1
        11.0, -7.0, 5.0, // 2
        -3.0, -7.0, 5.0, // 3
        -3.0, 2.0, -13.0, // 4
        11.0, 2.0, -13.0, // 5
        11.0, -7.0, -13.0, // 6
        -3.0, -7.0, -13.0, // 7
    ];
    assert_eq!(v, expected);
}

#[test]
fn box_triangles_are_listed_face_by_face() {
    let expected: Vec<u16> = vec![
        0, 1, 2, 0, 2, 3, // front
        4, 5, 1, 4, 1, 0, // top
        5, 6, 2, 5, 2, 1, // right
        6, 7, 2, 7, 3, 2, // bottom
        7, 4, 0, 7, 0, 3, // left
        5, 4, 6, 4, 7, 6, // back
    ];
    assert_eq!(box_indices(), expected);
}

#[test]
fn box_triangles_never_repeat_a_corner() {
    let indices = box_indices();
    for t in indices.chunks(3) {
        assert!(t[0] != t[1] && t[0] != t[2] && t[1] != t[2]);
    }
}

#[test]
fn degenerate_box_keeps_its_layout() {
    let v = box_vertices(0.5f32, -1.0, 1.0, 0.5, 1.0, -1.0);
    assert_eq!(v.len(), 24);
    assert_eq!(box_indices().len(), 36);
    for corner in v.chunks(3) {
        assert_eq!(corner[1], 0.5);
    }
}

#[test]
fn fully_flat_box_is_accepted() {
    let v = box_vertices(0i32, 0, 0, 0, 0, 0);
    assert_eq!(v, vec![0i32; 24]);
}

#[test]
fn axis_bars_take_their_offsets() {
    let w = 0.01f32;
    let x_axis = box_vertices(w, w, -w, -w, 1.0, w);
    assert_eq!(&x_axis[3..6], &[1.0, w, -w]);
    assert_eq!(&x_axis[0..3], &[w, w, -w]);
}

fn corner(v: &[i64], i: u16) -> [i64; 3] {
    let i = 3 * i as usize;
    [v[i], v[i + 1], v[i + 2]]
}

fn normal(v: &[i64], t: &[u16]) -> [i64; 3] {
    let (p0, p1, p2) = (corner(v, t[0]), corner(v, t[1]), corner(v, t[2]));
    let a = [p1[0] - p0[0], p1[1] - p0[1], p1[2] - p0[2]];
    let b = [p2[0] - p0[0], p2[1] - p0[1], p2[2] - p0[2]];
    [
        a[1] * b[2] - a[2] * b[1],
        a[2] * b[0] - a[0] * b[2],
        a[0] * b[1] - a[1] * b[0],
    ]
}

#[test]
fn box_triangles_all_turn_inward() {
    // top, left, front, bottom, right, back
    let v = box_vertices(3i64, -1, 4, -2, 5, -6);
    let center2 = [-1 + 5, 3 - 2, 4 - 6];
    let indices = box_indices();
    for t in indices.chunks(3) {
        let n = normal(&v, t);
        let p0 = corner(&v, t[0]);
        // direction from the face towards the centre, doubled to stay integral
        let inward = [center2[0] - 2 * p0[0], center2[1] - 2 * p0[1], center2[2] - 2 * p0[2]];
        let dot = n[0] * inward[0] + n[1] * inward[1] + n[2] * inward[2];
        assert!(dot > 0, "triangle {:?} turns the wrong way", t);
    }
}

#[test]
fn box_faces_share_one_diagonal() {
    let v = box_vertices(1i64, -1, 1, -1, 1, -1);
    let indices = box_indices();
    for face in indices.chunks(6) {
        let (a, b) = (&face[0..3], &face[3..6]);
        let shared: Vec<u16> = a.iter().copied().filter(|i| b.contains(i)).collect();
        assert_eq!(shared.len(), 2);
        let (p, q) = (corner(&v, shared[0]), corner(&v, shared[1]));
        let differing = (0..3).filter(|&k| p[k] != q[k]).count();
        assert_eq!(differing, 2, "face {:?} is not split along a diagonal", face);
    }
}
