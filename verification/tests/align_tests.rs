use simple_game::align::{AxisAlign, TextAlignment, resolve_axis};

#[test]
fn start_ignores_canvas_and_measured_size() {
    assert_eq!(resolve_axis(&AxisAlign::Start(10), 100, 300, None), 10);
    assert_eq!(resolve_axis(&AxisAlign::Start(10), 5, 99999, None), 10);
    assert_eq!(resolve_axis(&AxisAlign::Start(-20), 0, 0, None), -20);
}

#[test]
fn window_center_centers_on_the_canvas() {
    // Measured width 100 on a canvas of 300: origin 150 - 50 = 100.
    assert_eq!(resolve_axis(&AxisAlign::WindowCenter, 100, 300, None), 100);
}

#[test]
fn end_zero_puts_the_far_edge_on_the_canvas_edge() {
    // End(0) with measured width W on canvas width C yields C - W.
    assert_eq!(resolve_axis(&AxisAlign::End(0), 120, 1280, None), 1280 - 120);
    assert_eq!(resolve_axis(&AxisAlign::End(16), 120, 1280, None), 1280 - 16 - 120);
}

#[test]
fn center_centers_on_the_coordinate() {
    assert_eq!(resolve_axis(&AxisAlign::Center(100), 30, 400, None), 85);
}

#[test]
fn end_uses_the_explicit_box_when_given() {
    // With a max extent, End measures from the box, not the canvas.
    assert_eq!(resolve_axis(&AxisAlign::End(5), 50, 300, Some(200)), 200 - 5 - 50);
}

#[test]
fn no_clamping_to_the_canvas() {
    // Off-screen origins are intentional (scrolling, animation).
    assert_eq!(resolve_axis(&AxisAlign::Start(-500), 10, 100, None), -500);
    assert_eq!(resolve_axis(&AxisAlign::End(0), 500, 100, None), -400);
}

#[test]
fn resolve_origin_resolves_both_axes() {
    let alignment = TextAlignment::new(AxisAlign::Start(10), AxisAlign::WindowCenter);
    let (x, y) = alignment.resolve_origin(100, 50, 300, 250);
    assert_eq!(x, 10);
    assert_eq!(y, 100);
}

#[test]
fn left_top_is_start_on_both_axes() {
    let alignment = TextAlignment::left_top(7, 9);
    let (x, y) = alignment.resolve_origin(64, 64, 800, 600);
    assert_eq!(x, 7);
    assert_eq!(y, 9);
}

#[test]
fn alignment_defaults_to_zero_origin() {
    let d = TextAlignment::default();
    let (x, y) = d.resolve_origin(10, 10, 800, 600);
    assert_eq!(x, 0);
    assert_eq!(y, 0);
    assert!(matches!(AxisAlign::default(), AxisAlign::Start(0)));
}
