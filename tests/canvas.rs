use rtc::canvas::Canvas;

#[test]
fn can_write_pixels_to_canvas() {
    let mut canvas = Canvas::new(10, 20);
    canvas.write_pixel(2, 3, (255, 0, 0));

    assert_eq!(canvas.read_pixel(2, 3), (255, 0, 0));
    assert_eq!(canvas.read_pixel(3, 2), (0, 0, 0));
}

#[test]
fn new_canvas_is_black() {
    let canvas = Canvas::new(4, 3);
    assert_eq!((canvas.width, canvas.height), (4, 3));
    for y in 0..3 {
        for x in 0..4 {
            assert_eq!(canvas.read_pixel(x, y), (0, 0, 0));
        }
    }
}

#[test]
fn writing_a_row_skips_missing_pixels() {
    let mut canvas = Canvas::new(3, 2);
    canvas.write_pixel(1, 1, (9, 9, 9));
    canvas.write_row(1, &vec![Some((1, 2, 3)), None, Some((4, 5, 6))]);

    assert_eq!(canvas.read_pixel(0, 1), (1, 2, 3));
    assert_eq!(canvas.read_pixel(1, 1), (9, 9, 9));
    assert_eq!(canvas.read_pixel(2, 1), (4, 5, 6));
    assert_eq!(canvas.read_pixel(0, 0), (0, 0, 0));
    assert_eq!(canvas.read_pixel(2, 0), (0, 0, 0));
}

#[test]
fn empty_canvas_has_no_pixels() {
    let canvas = Canvas::new(0, 0);
    assert_eq!((canvas.width, canvas.height), (0, 0));
}
