use meshgen::sphere::{sphere_indices, sphere_points, SpherePoint};

fn point(stripe: u16, turn: u32, mirrored: bool) -> SpherePoint {
    SpherePoint { stripe, turn, mirrored }
}

#[test]
fn sphere_point_count_is_twice_the_grid() {
    for n in [1u16, 2, 3, 7, 20] {
        let points = sphere_points(n);
        assert_eq!(points.len(), 2 * n as usize * n as usize);
        // three floats per vertex once evaluated
        assert_eq!(3 * points.len(), 2 * 3 * n as usize * n as usize);
    }
}

#[test]
fn sphere_of_no_precision_is_empty() {
    assert!(sphere_points(0).is_empty());
}

#[test]
fn sphere_points_interleave_mirror_twins() {
    let points = sphere_points(2);
    let expected = vec![
        point(0, 0, false),
        point(0, 0, true),
        point(0, 1, false),
        point(0, 1, true),
        point(1, 2, false),
        point(1, 2, true),
        point(1, 3, false),
        point(1, 3, true),
    ];
    assert_eq!(points, expected);
}

#[test]
fn sphere_longitude_keeps_counting_across_stripes() {
    let n = 20u16;
    let points = sphere_points(n);
    for (k, p) in points.iter().enumerate() {
        let sample = (k / 2) as u32;
        assert_eq!(p.turn, sample);
        assert_eq!(p.stripe as u32, sample / n as u32);
        assert_eq!(p.mirrored, k % 2 == 1);
    }
}

#[test]
fn sphere_indices_of_smallest_grid() {
    assert_eq!(sphere_indices(2), vec![0, 2, 4, 2, 4, 6, 1, 3, 5, 3, 5, 7]);
}

#[test]
fn sphere_indices_of_three_by_three_grid() {
    let r = sphere_indices(3);
    assert_eq!(r.len(), 48);
    // stripe 0, column 1
    assert_eq!(&r[12..24], &[1, 3, 7, 3, 7, 9, 2, 4, 8, 4, 8, 10]);
    // stripe 1, column 0
    assert_eq!(&r[24..36], &[6, 8, 12, 8, 12, 14, 7, 9, 13, 9, 13, 15]);
    // stripe 1, column 1
    assert_eq!(&r[36..48], &[7, 9, 13, 9, 13, 15, 8, 10, 14, 10, 14, 16]);
}

#[test]
fn sphere_index_count_and_range() {
    for n in [1u16, 2, 3, 5, 20, 100, 181] {
        let r = sphere_indices(n);
        let m = n as usize - 1;
        assert_eq!(r.len(), 12 * m * m);
        let vertex_count = 2 * n as usize * n as usize;
        assert!(r.iter().all(|&i| (i as usize) < vertex_count));
        assert_eq!(r.len() % 3, 0);
    }
}

#[test]
fn sphere_of_precision_one_has_no_triangles() {
    assert!(sphere_indices(1).is_empty());
    assert_eq!(sphere_points(1).len(), 2);
}

#[test]
fn largest_sphere_reaches_the_top_of_the_index_range() {
    let n = 181u16;
    let r = sphere_indices(n);
    let max = *r.iter().max().unwrap() as usize;
    let n = n as usize;
    assert_eq!(max, 2 * n * n - n + 1);
    assert!(max < sphere_points(181).len());
}

#[test]
fn sphere_triangles_never_repeat_a_vertex() {
    let r = sphere_indices(6);
    for t in r.chunks(3) {
        assert!(t[0] != t[1] && t[0] != t[2] && t[1] != t[2]);
    }
}
