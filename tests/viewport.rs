use meshgen::viewport::canvas_resize;

#[test]
fn resize_not_needed_when_sizes_agree() {
    assert_eq!(canvas_resize(800, 600, 800, 600), None);
}

#[test]
fn resize_to_the_displayed_size() {
    assert_eq!(canvas_resize(1024, 600, 800, 600), Some((1024, 600)));
    assert_eq!(canvas_resize(800, 700, 800, 600), Some((800, 700)));
}

#[test]
fn resize_reads_negative_sizes_as_unsigned() {
    assert_eq!(canvas_resize(-1, 10, 0, 10), Some((u32::MAX, 10)));
}
