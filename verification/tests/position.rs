use clipboard_manager::position::{compute_popup_position, PopupPin, PopupPositionMode};

fn cursor_bottom(cursor: (i32, i32), popup_size: (i32, i32), screen: (i32, i32, i32, i32)) -> (i32, i32) {
    compute_popup_position(PopupPositionMode::Cursor, PopupPin::Bottom, cursor, None, popup_size, screen)
}

#[test]
fn fits_as_is_when_room_available() {
    let pos = cursor_bottom((100, 100), (200, 300), (0, 0, 1920, 1080));
    assert_eq!(pos, (100, 100));
}

#[test]
fn clamps_when_overflowing_right_edge() {
    let pos = cursor_bottom((1850, 100), (200, 300), (0, 0, 1920, 1080));
    assert_eq!(pos, (1720, 100));
}

#[test]
fn clamps_when_overflowing_bottom_edge() {
    let pos = cursor_bottom((100, 1000), (200, 300), (0, 0, 1920, 1080));
    assert_eq!(pos, (100, 780));
}

#[test]
fn clamps_to_screen_origin_in_top_left_corner() {
    let pos = cursor_bottom((-50, -50), (200, 300), (0, 0, 1920, 1080));
    assert_eq!(pos, (0, 0));
}

#[test]
fn works_on_a_non_primary_monitor_with_negative_origin() {
    // secondary monitor to the left of the primary, virtual-screen coords are negative
    let pos = cursor_bottom((-1800, 100), (200, 300), (-1920, 0, 1920, 1080));
    assert_eq!(pos, (-1800, 100));
}

#[test]
fn cursor_mode_bottom_pin_matches_left_aligned_top_edge() {
    let pos = compute_popup_position(
        PopupPositionMode::Cursor,
        PopupPin::Bottom,
        (500, 500),
        None,
        (200, 300),
        (0, 0, 1920, 1080),
    );
    assert_eq!(pos, (500, 500));
}

#[test]
fn cursor_mode_top_pin_places_popup_above_cursor() {
    let pos = compute_popup_position(
        PopupPositionMode::Cursor,
        PopupPin::Top,
        (500, 500),
        None,
        (200, 300),
        (0, 0, 1920, 1080),
    );
    assert_eq!(pos, (500, 200));
}

#[test]
fn screen_center_mode_centers_popup_on_screen_midpoint() {
    let pos = compute_popup_position(
        PopupPositionMode::ScreenCenter,
        PopupPin::Bottom,
        (0, 0),
        None,
        (200, 300),
        (0, 0, 1920, 1080),
    );
    // screen midpoint is (960, 540); popup centers horizontally there
    assert_eq!(pos, (860, 540));
}

#[test]
fn window_center_mode_uses_foreground_window_bounds() {
    let pos = compute_popup_position(
        PopupPositionMode::WindowCenter,
        PopupPin::Bottom,
        (0, 0),
        Some((100, 100, 800, 600)),
        (200, 300),
        (0, 0, 1920, 1080),
    );
    // window center is (500, 400)
    assert_eq!(pos, (400, 400));
}

#[test]
fn window_center_mode_falls_back_to_screen_center_without_foreground_window() {
    let pos = compute_popup_position(
        PopupPositionMode::WindowCenter,
        PopupPin::Bottom,
        (0, 0),
        None,
        (200, 300),
        (0, 0, 1920, 1080),
    );
    assert_eq!(pos, (860, 540));
}

#[test]
fn bottom_right_mode_right_aligns_into_the_corner() {
    let pos = compute_popup_position(
        PopupPositionMode::BottomRight,
        PopupPin::Top,
        (0, 0),
        None,
        (200, 300),
        (0, 0, 1920, 1080),
    );
    assert_eq!(pos, (1720, 780));
}

#[test]
fn result_is_always_clamped_on_screen() {
    let pos = compute_popup_position(
        PopupPositionMode::Cursor,
        PopupPin::Bottom,
        (-9999, -9999),
        None,
        (200, 300),
        (0, 0, 1920, 1080),
    );
    assert_eq!(pos, (0, 0));
}

#[test]
fn parse_names_every_mode_and_defaults_to_cursor() {
    assert_eq!(PopupPositionMode::parse("window_center"), PopupPositionMode::WindowCenter);
    assert_eq!(PopupPositionMode::parse("screen_center"), PopupPositionMode::ScreenCenter);
    assert_eq!(PopupPositionMode::parse("bottom_right"), PopupPositionMode::BottomRight);
    assert_eq!(PopupPositionMode::parse("cursor"), PopupPositionMode::Cursor);
    assert_eq!(PopupPositionMode::parse("Window_Center"), PopupPositionMode::Cursor);
    assert_eq!(PopupPositionMode::parse(""), PopupPositionMode::Cursor);
}

#[test]
fn pin_parses_top_and_defaults_to_bottom() {
    assert_eq!(PopupPin::parse("top"), PopupPin::Top);
    assert_eq!(PopupPin::parse("bottom"), PopupPin::Bottom);
    assert_eq!(PopupPin::parse("TOP"), PopupPin::Bottom);
}

#[test]
fn center_modes_round_odd_sizes_toward_zero() {
    // odd popup width 201: 201 / 2 == 100; odd screen size 1921 / 2 == 960
    let pos = compute_popup_position(
        PopupPositionMode::ScreenCenter,
        PopupPin::Top,
        (0, 0),
        None,
        (201, 301),
        (0, 0, 1921, 1081),
    );
    assert_eq!(pos, (860, 239));
}

#[test]
fn popup_larger_than_screen_sticks_to_screen_origin() {
    let pos = compute_popup_position(
        PopupPositionMode::BottomRight,
        PopupPin::Bottom,
        (0, 0),
        None,
        (3000, 3000),
        (10, 20, 1920, 1080),
    );
    assert_eq!(pos, (10, 20));
}

#[test]
fn top_pin_sits_one_popup_height_above_bottom_pin() {
    let bottom = compute_popup_position(
        PopupPositionMode::WindowCenter,
        PopupPin::Bottom,
        (0, 0),
        Some((100, 100, 800, 600)),
        (200, 300),
        (0, 0, 1920, 1080),
    );
    let top = compute_popup_position(
        PopupPositionMode::WindowCenter,
        PopupPin::Top,
        (0, 0),
        Some((100, 100, 800, 600)),
        (200, 300),
        (0, 0, 1920, 1080),
    );
    assert_eq!(top, (bottom.0, bottom.1 - 300));
}
