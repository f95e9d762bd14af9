use raycaster::canvas::Canvas;

fn pixel(c: &Canvas, x: usize, y: usize) -> (u8, u8, u8) {
    let i = (c.width as usize * y + x) * 3;
    (c.pixels[i], c.pixels[i + 1], c.pixels[i + 2])
}

fn painted_rows(c: &Canvas, x: usize) -> Vec<usize> {
    (0..c.height as usize).filter(|&y| pixel(c, x, y) != (0, 0, 0)).collect()
}

#[test]
fn new_canvas_is_black_and_sized() {
    let c = Canvas::new(4, 3);
    assert_eq!(c.width, 4);
    assert_eq!(c.height, 3);
    assert_eq!(c.pixels.len(), 36);
    assert!(c.pixels.iter().all(|&b| b == 0));
}

#[test]
fn empty_canvas_has_no_bytes() {
    let c = Canvas::new(0, 5);
    assert!(c.pixels.is_empty());
}

#[test]
fn set_pixel_writes_three_bytes_at_row_major_offset() {
    let mut c = Canvas::new(4, 3);
    c.set_pixel(2, 1, 10, 20, 30);
    assert_eq!(&c.pixels[18..21], &[10, 20, 30]);
    let others: usize = c.pixels.iter().filter(|&&b| b != 0).count();
    assert_eq!(others, 3);
}

#[test]
fn set_pixel_outside_is_clipped() {
    let mut c = Canvas::new(4, 3);
    c.set_pixel(-1, 0, 1, 1, 1);
    c.set_pixel(4, 0, 1, 1, 1);
    c.set_pixel(0, 3, 1, 1, 1);
    c.set_pixel(0, -2, 1, 1, 1);
    assert!(c.pixels.iter().all(|&b| b == 0));
}

#[test]
fn vertical_line_with_empty_range_writes_nothing() {
    let mut c = Canvas::new(4, 6);
    c.draw_vertical_line(1, 3, 3, 9, 9, 9);
    c.draw_vertical_line(1, 4, 2, 9, 9, 9);
    assert!(c.pixels.iter().all(|&b| b == 0));
}

#[test]
fn vertical_line_clips_negative_start_to_row_zero() {
    let mut c = Canvas::new(4, 6);
    c.draw_vertical_line(1, -5, 2, 7, 8, 9);
    assert_eq!(painted_rows(&c, 1), vec![0, 1]);
    assert_eq!(pixel(&c, 1, 0), (7, 8, 9));
}

#[test]
fn vertical_line_clips_end_to_last_row() {
    let mut c = Canvas::new(4, 6);
    c.draw_vertical_line(2, 4, 100, 7, 8, 9);
    assert_eq!(painted_rows(&c, 2), vec![4, 5]);
    assert_eq!(painted_rows(&c, 1), Vec::<usize>::new());
}

#[test]
fn vertical_line_paints_only_its_column() {
    let mut c = Canvas::new(4, 6);
    c.draw_vertical_line(3, 1, 4, 1, 2, 3);
    assert_eq!(painted_rows(&c, 3), vec![1, 2, 3]);
    for x in 0..3 {
        assert!(painted_rows(&c, x).is_empty());
    }
}

#[test]
fn vertical_line_outside_columns_is_clipped() {
    let mut c = Canvas::new(4, 6);
    c.draw_vertical_line(4, 0, 6, 1, 2, 3);
    c.draw_vertical_line(-1, 0, 6, 1, 2, 3);
    assert!(c.pixels.iter().all(|&b| b == 0));
}
