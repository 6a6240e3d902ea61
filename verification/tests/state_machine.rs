use birdy::screenshot::{edge_at, DrawMode, DrawnItem, ResizeEdge, Screenshot};

fn frame(width: usize, height: usize, fill: u8) -> Vec<u8> {
    vec![fill; width * height * 4]
}

fn session(width: usize, height: usize, fill: u8) -> Screenshot {
    Screenshot::new(width, height, frame(width, height, fill))
}

#[test]
fn fresh_session_covers_whole_frame() {
    let s = session(40, 30, 7);
    assert_eq!(s.p0, (0, 0));
    assert_eq!(s.p1, (40, 30));
    assert_eq!(s.width, 40);
    assert_eq!(s.height, 30);
    assert!(!s.is_resizing);
    assert_eq!(s.draw_mode, None);
    assert_eq!(s.drawing_item, None);
    assert!(s.drawn_items.is_empty());
    assert_eq!(s.mouse_coordinates, None);
    assert_eq!(s.modified_screenshot, s.original_screenshot);
}

#[test]
fn resize_viewport_discards_session_state() {
    let mut s = session(40, 30, 7);
    s.draw_mode = Some(DrawMode::Line);
    s.drawn_items.push(DrawnItem::Line((1, 1), (2, 2)));
    s.resize_viewport(20, 10, frame(20, 10, 9));
    assert_eq!(s.width, 20);
    assert_eq!(s.height, 10);
    assert_eq!(s.p1, (20, 10));
    assert_eq!(s.draw_mode, None);
    assert!(s.drawn_items.is_empty());
}

#[test]
fn edge_at_reports_each_border_midpoint() {
    let p0 = (100, 100);
    let p1 = (300, 300);
    assert_eq!(edge_at(p0, p1, 200, 100, 10), Some(ResizeEdge::Top));
    assert_eq!(edge_at(p0, p1, 300, 200, 10), Some(ResizeEdge::Right));
    assert_eq!(edge_at(p0, p1, 200, 300, 10), Some(ResizeEdge::Bottom));
    assert_eq!(edge_at(p0, p1, 100, 200, 10), Some(ResizeEdge::Left));
}

#[test]
fn edge_at_excludes_corners_and_far_points() {
    let p0 = (100, 100);
    let p1 = (300, 300);
    assert_eq!(edge_at(p0, p1, 100, 100, 10), None);
    assert_eq!(edge_at(p0, p1, 300, 300, 10), None);
    assert_eq!(edge_at(p0, p1, 200, 200, 10), None);
    assert_eq!(edge_at(p0, p1, 50, 50, 10), None);
}

#[test]
fn edge_at_priority_prefers_top_over_left() {
    // (101, 105) lies in both the top band and the left band; the fixed
    // priority order reports the top edge.
    assert_eq!(edge_at((100, 100), (300, 300), 101, 105, 10), Some(ResizeEdge::Top));
}

#[test]
fn dragging_top_edge_changes_only_p0_y() {
    let mut s = session(400, 300, 0);
    s.p0 = (100, 100);
    s.p1 = (300, 250);
    s.on_mouse_move(200, 100);
    s.on_mouse_pressed();
    assert!(s.is_resizing && s.top_border_resized);
    s.on_mouse_move(210, 120);
    assert_eq!(s.p0, (100, 120));
    assert_eq!(s.p1, (300, 250));
}

#[test]
fn dragging_left_edge_changes_only_p0_x() {
    let mut s = session(400, 300, 0);
    s.p0 = (100, 100);
    s.p1 = (300, 250);
    s.on_mouse_move(100, 180);
    s.on_mouse_pressed();
    assert!(s.is_resizing && s.left_border_resized);
    s.on_mouse_move(80, 190);
    assert_eq!(s.p0, (80, 100));
    assert_eq!(s.p1, (300, 250));
}

#[test]
fn dragging_right_edge_changes_only_p1_x() {
    let mut s = session(400, 300, 0);
    s.p0 = (100, 100);
    s.p1 = (300, 250);
    s.on_mouse_move(300, 180);
    s.on_mouse_pressed();
    assert!(s.is_resizing && s.right_border_resized);
    s.on_mouse_move(320, 190);
    assert_eq!(s.p0, (100, 100));
    assert_eq!(s.p1, (320, 250));
}

#[test]
fn dragging_bottom_edge_changes_only_p1_y() {
    let mut s = session(400, 300, 0);
    s.p0 = (100, 100);
    s.p1 = (300, 250);
    s.on_mouse_move(200, 250);
    s.on_mouse_pressed();
    assert!(s.is_resizing && s.bottom_border_resized);
    s.on_mouse_move(220, 270);
    assert_eq!(s.p0, (100, 100));
    assert_eq!(s.p1, (300, 270));
}

#[test]
fn line_gesture_appends_one_line_and_resets_mode() {
    let mut s = session(400, 300, 0);
    s.p0 = (100, 100);
    s.p1 = (300, 250);
    s.draw_mode = Some(DrawMode::Line);
    s.on_mouse_move(10, 20);
    s.on_mouse_pressed();
    s.on_mouse_move(30, 40);
    s.on_mouse_move(50, 60);
    s.on_mouse_released();
    assert_eq!(s.drawn_items, vec![DrawnItem::Line((10, 20), (50, 60))]);
    assert_eq!(s.draw_mode, None);
    assert_eq!(s.drawing_item, None);
    assert!(!s.is_resizing);
}

#[test]
fn rect_gesture_appends_one_rect() {
    let mut s = session(400, 300, 0);
    s.p0 = (100, 100);
    s.p1 = (300, 250);
    s.draw_mode = Some(DrawMode::RectBorder);
    s.on_mouse_move(10, 20);
    s.on_mouse_pressed();
    s.on_mouse_move(70, 80);
    s.on_mouse_released();
    assert_eq!(s.drawn_items, vec![DrawnItem::RectBorder((10, 20), (70, 80))]);
    assert_eq!(s.draw_mode, None);
}

#[test]
fn press_without_mouse_position_is_a_no_op() {
    let mut s = session(40, 30, 0);
    s.draw_mode = Some(DrawMode::Line);
    s.on_mouse_pressed();
    assert_eq!(s.drawing_item, None);
    assert!(!s.is_resizing);
}

#[test]
fn move_without_drag_or_draw_only_records_position() {
    let mut s = session(40, 30, 0);
    s.on_mouse_move(5, 6);
    assert_eq!(s.mouse_coordinates, Some((5, 6)));
    assert_eq!(s.p0, (0, 0));
    assert_eq!(s.p1, (40, 30));
    assert_eq!(s.drawing_item, None);
}

#[test]
fn mouse_position_is_clamped_to_frame() {
    let mut s = session(40, 30, 0);
    s.on_mouse_move(1000, 2000);
    assert_eq!(s.mouse_coordinates, Some((40, 30)));
}

#[test]
fn release_after_resize_drag_keeps_the_primed_mode() {
    let mut s = session(400, 300, 0);
    s.p0 = (100, 100);
    s.p1 = (300, 250);
    s.draw_mode = Some(DrawMode::Line);
    s.on_mouse_move(200, 100);
    s.on_mouse_pressed();
    assert!(s.is_resizing && s.top_border_resized);
    s.on_mouse_move(200, 130);
    s.on_mouse_released();
    // Nothing was finalized, so the primed mode survives for the next press.
    assert_eq!(s.draw_mode, Some(DrawMode::Line));
    assert!(s.drawn_items.is_empty());
    assert!(!s.is_resizing);
}

#[test]
fn release_with_mismatched_mode_finalizes_nothing() {
    let mut s = session(400, 300, 0);
    s.p0 = (100, 100);
    s.p1 = (300, 250);
    s.draw_mode = Some(DrawMode::Line);
    s.on_mouse_move(10, 20);
    s.on_mouse_pressed();
    // Re-priming another shape mid-gesture leaves a line in progress that
    // the release does not finalize.
    s.draw_mode = Some(DrawMode::RectBorder);
    s.on_mouse_released();
    assert!(s.drawn_items.is_empty());
    assert_eq!(s.drawing_item, Some(DrawnItem::Line((10, 20), (10, 20))));
    assert_eq!(s.draw_mode, Some(DrawMode::RectBorder));
}

#[test]
fn release_clears_resize_flags() {
    let mut s = session(400, 300, 0);
    s.p0 = (100, 100);
    s.p1 = (300, 250);
    s.on_mouse_move(200, 100);
    s.on_mouse_pressed();
    assert!(s.is_resizing);
    s.on_mouse_released();
    assert!(!s.is_resizing && !s.top_border_resized);
    assert!(s.drawn_items.is_empty());
}

#[test]
fn toggle_filling_swaps_rect_border_and_filled() {
    let mut s = session(40, 30, 0);
    s.drawn_items.push(DrawnItem::RectBorder((3, 4), (10, 12)));
    s.toggle_filling_latest();
    assert_eq!(s.drawn_items, vec![DrawnItem::RectFilled((3, 4), (10, 12))]);
    s.toggle_filling_latest();
    assert_eq!(s.drawn_items, vec![DrawnItem::RectBorder((3, 4), (10, 12))]);
}

#[test]
fn toggle_filling_leaves_line_unchanged() {
    let mut s = session(40, 30, 0);
    s.drawn_items.push(DrawnItem::Line((1, 2), (3, 4)));
    s.toggle_filling_latest();
    assert_eq!(s.drawn_items, vec![DrawnItem::Line((1, 2), (3, 4))]);
}

#[test]
fn toggle_filling_on_empty_store_is_a_no_op() {
    let mut s = session(40, 30, 0);
    s.toggle_filling_latest();
    assert!(s.drawn_items.is_empty());
}

#[test]
fn toggle_filling_touches_only_the_latest_item() {
    let mut s = session(40, 30, 0);
    s.drawn_items.push(DrawnItem::RectBorder((1, 1), (2, 2)));
    s.drawn_items.push(DrawnItem::RectBorder((5, 5), (9, 9)));
    s.toggle_filling_latest();
    assert_eq!(
        s.drawn_items,
        vec![
            DrawnItem::RectBorder((1, 1), (2, 2)),
            DrawnItem::RectFilled((5, 5), (9, 9)),
        ]
    );
}

#[test]
fn log_error_formats_the_cause_chain() {
    let lines = birdy::log_error(
        "pixels.render",
        &vec![String::from("surface lost"), String::from("device removed")],
    );
    assert_eq!(
        lines,
        vec![
            String::from("pixels.render() failed: surface lost"),
            String::from("  Caused by: device removed"),
        ]
    );
}
