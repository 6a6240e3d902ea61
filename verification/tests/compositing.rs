use birdy::raster::{draw_line, draw_rect_borders, draw_rect_filled};
use birdy::screenshot::{DrawnItem, Screenshot};

const MAGENTA: (u8, u8, u8, u8) = (255, 0, 255, 255);

fn frame(width: usize, height: usize, fill: u8) -> Vec<u8> {
    vec![fill; width * height * 4]
}

fn pixel(buf: &[u8], width: usize, x: usize, y: usize) -> (u8, u8, u8, u8) {
    let i = (y * width + x) * 4;
    (buf[i], buf[i + 1], buf[i + 2], buf[i + 3])
}

#[test]
fn horizontal_line_paints_each_step() {
    let mut buf = frame(6, 3, 0);
    draw_line(&mut buf, 1, 1, 3, 1, 6, MAGENTA);
    assert_eq!(pixel(&buf, 6, 1, 1), MAGENTA);
    assert_eq!(pixel(&buf, 6, 2, 1), MAGENTA);
    assert_eq!(pixel(&buf, 6, 3, 1), MAGENTA);
    assert_eq!(pixel(&buf, 6, 0, 1), (0, 0, 0, 0));
    assert_eq!(pixel(&buf, 6, 4, 1), (0, 0, 0, 0));
    assert_eq!(pixel(&buf, 6, 2, 0), (0, 0, 0, 0));
}

#[test]
fn diagonal_line_steps_along_the_dominant_axis() {
    let mut buf = frame(4, 4, 0);
    draw_line(&mut buf, 0, 0, 2, 2, 4, MAGENTA);
    assert_eq!(pixel(&buf, 4, 0, 0), MAGENTA);
    assert_eq!(pixel(&buf, 4, 1, 1), MAGENTA);
    assert_eq!(pixel(&buf, 4, 2, 2), MAGENTA);
    assert_eq!(pixel(&buf, 4, 1, 0), (0, 0, 0, 0));
    assert_eq!(pixel(&buf, 4, 0, 1), (0, 0, 0, 0));
}

#[test]
fn line_beyond_the_buffer_is_clipped() {
    let mut buf = frame(4, 2, 9);
    let before = buf.clone();
    draw_line(&mut buf, 0, 5, 3, 5, 4, MAGENTA);
    assert_eq!(buf, before);
    draw_line(&mut buf, 0, 0, 9, 0, 4, MAGENTA);
    assert_eq!(buf.len(), before.len());
    assert_eq!(pixel(&buf, 4, 3, 0), MAGENTA);
}

#[test]
fn rect_borders_paint_edges_and_spare_the_interior() {
    let mut buf = frame(5, 5, 0);
    draw_rect_borders(&mut buf, 1, 1, 3, 3, 5, MAGENTA);
    assert_eq!(pixel(&buf, 5, 1, 1), MAGENTA);
    assert_eq!(pixel(&buf, 5, 2, 1), MAGENTA);
    assert_eq!(pixel(&buf, 5, 3, 1), MAGENTA);
    assert_eq!(pixel(&buf, 5, 1, 2), MAGENTA);
    assert_eq!(pixel(&buf, 5, 3, 2), MAGENTA);
    assert_eq!(pixel(&buf, 5, 1, 3), MAGENTA);
    assert_eq!(pixel(&buf, 5, 3, 3), MAGENTA);
    assert_eq!(pixel(&buf, 5, 2, 2), (0, 0, 0, 0));
    assert_eq!(pixel(&buf, 5, 0, 0), (0, 0, 0, 0));
    assert_eq!(pixel(&buf, 5, 4, 4), (0, 0, 0, 0));
}

#[test]
fn rect_filled_paints_the_inclusive_box() {
    let mut buf = frame(5, 5, 0);
    draw_rect_filled(&mut buf, 1, 1, 3, 2, 5, MAGENTA);
    for y in 1..=2 {
        for x in 1..=3 {
            assert_eq!(pixel(&buf, 5, x, y), MAGENTA);
        }
    }
    assert_eq!(pixel(&buf, 5, 0, 1), (0, 0, 0, 0));
    assert_eq!(pixel(&buf, 5, 4, 1), (0, 0, 0, 0));
    assert_eq!(pixel(&buf, 5, 1, 3), (0, 0, 0, 0));
}

#[test]
fn rect_filled_accepts_inverted_corners() {
    let mut buf = frame(5, 5, 0);
    let mut inverted = frame(5, 5, 0);
    draw_rect_filled(&mut buf, 1, 1, 3, 2, 5, MAGENTA);
    draw_rect_filled(&mut inverted, 3, 2, 1, 1, 5, MAGENTA);
    assert_eq!(inverted, buf);
}

#[test]
fn compositing_dims_outside_and_keeps_inside_alpha() {
    let mut s = Screenshot::new(30, 30, frame(30, 30, 200));
    s.p0 = (10, 10);
    s.p1 = (20, 20);
    let mut display = frame(30, 30, 0);
    s.draw(&mut display);
    // (0, 0) lies outside [p0, p1]: alpha dimmed to 100, RGB untouched.
    assert_eq!(pixel(&s.modified_screenshot, 30, 0, 0), (200, 200, 200, 100));
    // (15, 15) lies strictly inside: all channels keep their original value.
    assert_eq!(pixel(&s.modified_screenshot, 30, 15, 15), (200, 200, 200, 200));
    // The boundary is painted in opaque magenta.
    assert_eq!(pixel(&s.modified_screenshot, 30, 10, 10), MAGENTA);
    assert_eq!(pixel(&s.modified_screenshot, 30, 15, 10), MAGENTA);
    // A display buffer of the right size receives the composite verbatim.
    assert_eq!(display, s.modified_screenshot);
}

#[test]
fn compositing_twice_is_byte_identical() {
    let mut s = Screenshot::new(25, 20, frame(25, 20, 64));
    s.p0 = (3, 4);
    s.p1 = (20, 15);
    s.drawn_items.push(DrawnItem::Line((5, 5), (12, 9)));
    s.drawn_items.push(DrawnItem::RectFilled((6, 6), (8, 8)));
    let mut display = frame(25, 20, 0);
    s.draw(&mut display);
    let first = s.modified_screenshot.clone();
    s.draw(&mut display);
    assert_eq!(s.modified_screenshot, first);
}

#[test]
fn compositing_skips_a_mismatched_display_buffer() {
    let mut s = Screenshot::new(10, 10, frame(10, 10, 5));
    let mut display = vec![1u8; 7];
    s.draw(&mut display);
    assert_eq!(display, vec![1u8; 7]);
}

#[test]
fn annotations_are_painted_over_the_dimming() {
    let mut s = Screenshot::new(30, 30, frame(30, 30, 50));
    s.p0 = (10, 10);
    s.p1 = (20, 20);
    // This line lies outside the selection; its pixels must still show the
    // annotation colour, painted after the dimming pass.
    s.drawn_items.push(DrawnItem::Line((2, 2), (5, 2)));
    let mut display = frame(30, 30, 0);
    s.draw(&mut display);
    assert_eq!(pixel(&s.modified_screenshot, 30, 2, 2), MAGENTA);
    assert_eq!(pixel(&s.modified_screenshot, 30, 5, 2), MAGENTA);
    // An untouched outside pixel is dimmed.
    assert_eq!(pixel(&s.modified_screenshot, 30, 2, 4), (50, 50, 50, 100));
}

#[test]
fn in_progress_item_is_painted_last() {
    let mut s = Screenshot::new(12, 12, frame(12, 12, 30));
    s.p0 = (1, 1);
    s.p1 = (11, 11);
    s.drawing_item = Some(DrawnItem::RectFilled((3, 3), (4, 4)));
    let mut display = frame(12, 12, 0);
    s.draw(&mut display);
    assert_eq!(pixel(&s.modified_screenshot, 12, 3, 3), MAGENTA);
    assert_eq!(pixel(&s.modified_screenshot, 12, 4, 4), MAGENTA);
}

#[test]
fn clipped_image_has_the_interior_dimensions() {
    let mut s = Screenshot::new(100, 100, frame(100, 100, 80));
    s.p0 = (10, 10);
    s.p1 = (50, 50);
    let img = s.get_clipped_image().unwrap();
    assert_eq!(img.width, 38);
    assert_eq!(img.height, 38);
    assert_eq!(img.bytes.len(), 38 * 38 * 4);
    assert!(img.bytes.iter().all(|&b| b == 80));
}

#[test]
fn clipped_image_reads_the_working_buffer_interior() {
    let mut s = Screenshot::new(8, 8, frame(8, 8, 1));
    s.p0 = (2, 2);
    s.p1 = (6, 6);
    // Mark the pixel at (3, 3); it is the top-left pixel of the interior.
    let i = (3 * 8 + 3) * 4;
    s.modified_screenshot[i] = 42;
    let img = s.get_clipped_image().unwrap();
    assert_eq!(img.width, 2);
    assert_eq!(img.height, 2);
    assert_eq!(img.bytes[0], 42);
    assert_eq!(img.bytes[1], 1);
}

#[test]
fn clipped_image_refuses_a_degenerate_selection() {
    let mut s = Screenshot::new(20, 20, frame(20, 20, 0));
    s.p0 = (10, 10);
    s.p1 = (12, 12);
    assert!(s.get_clipped_image().is_none());
    s.p1 = (13, 12);
    assert!(s.get_clipped_image().is_none());
    s.p1 = (13, 13);
    assert!(s.get_clipped_image().is_some());
    // An inverted selection has no interior either.
    s.p0 = (15, 15);
    s.p1 = (5, 5);
    assert!(s.get_clipped_image().is_none());
}

#[test]
fn focused_image_is_the_whole_working_buffer() {
    let mut s = Screenshot::new(6, 4, frame(6, 4, 3));
    let mut display = frame(6, 4, 0);
    s.draw(&mut display);
    let img = s.get_focused_image();
    assert_eq!(img.width, 6);
    assert_eq!(img.height, 4);
    assert_eq!(img.bytes, s.modified_screenshot);
}
