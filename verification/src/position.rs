//! Popup placement: where the history popup appears relative to the cursor,
//! the foreground window or the screen, always kept on-screen.
use vstd::prelude::*;

use crate::text::str_equal;

verus! {

/// The `popup_position` setting: where the popup's anchor point is.
#[derive(Clone, Copy, PartialEq, Eq, Debug, Structural)]
pub enum PopupPositionMode {
    Cursor,
    WindowCenter,
    ScreenCenter,
    BottomRight,
}

/// The `popup_pin` setting: whether the popup renders above ("top") or below
/// ("bottom") its anchor point.
#[derive(Clone, Copy, PartialEq, Eq, Debug, Structural)]
pub enum PopupPin {
    Top,
    Bottom,
}

/// The mode named by a `popup_position` setting value; anything unknown is `Cursor`.
pub open spec fn spec_parse_mode(value: Seq<char>) -> PopupPositionMode {
    if value == "window_center"@ {
        PopupPositionMode::WindowCenter
    } else if value == "screen_center"@ {
        PopupPositionMode::ScreenCenter
    } else if value == "bottom_right"@ {
        PopupPositionMode::BottomRight
    } else {
        PopupPositionMode::Cursor
    }
}

/// The pin named by a `popup_pin` setting value; anything but `"top"` is `Bottom`.
pub open spec fn spec_parse_pin(value: Seq<char>) -> PopupPin {
    if value == "top"@ {
        PopupPin::Top
    } else {
        PopupPin::Bottom
    }
}

impl PopupPositionMode {
    pub fn parse(value: &str) -> (mode: Self)
        ensures
            mode == spec_parse_mode(value@),
    {
        if str_equal(value, "window_center") {
            PopupPositionMode::WindowCenter
        } else if str_equal(value, "screen_center") {
            PopupPositionMode::ScreenCenter
        } else if str_equal(value, "bottom_right") {
            PopupPositionMode::BottomRight
        } else {
            PopupPositionMode::Cursor
        }
    }
}

impl PopupPin {
    pub fn parse(value: &str) -> (pin: Self)
        ensures
            pin == spec_parse_pin(value@),
    {
        if str_equal(value, "top") {
            PopupPin::Top
        } else {
            PopupPin::Bottom
        }
    }
}

/// Rust's `/ 2` on integers: the quotient rounded toward zero.
pub open spec fn half(a: int) -> int {
    if a >= 0 {
        a / 2
    } else {
        -((-a) / 2)
    }
}

pub open spec fn fits_i32(v: int) -> bool {
    i32::MIN <= v <= i32::MAX
}

/// `v` limited to `lo..=hi` (`Ord::clamp`, for `lo <= hi`).
pub open spec fn clamp(v: int, lo: int, hi: int) -> int {
    if v < lo {
        lo
    } else if v > hi {
        hi
    } else {
        v
    }
}

pub open spec fn max(a: int, b: int) -> int {
    if a >= b {
        a
    } else {
        b
    }
}

/// The center of a rectangle `(left, top, width, height)`.
pub open spec fn center(r: (i32, i32, i32, i32)) -> (int, int) {
    (r.0 + half(r.2 as int), r.1 + half(r.3 as int))
}

/// The anchor point of the popup for `mode`, before pin and clamp are applied.
pub open spec fn spec_anchor(
    mode: PopupPositionMode,
    cursor: (i32, i32),
    foreground_window: Option<(i32, i32, i32, i32)>,
    screen: (i32, i32, i32, i32),
) -> (int, int) {
    match mode {
        PopupPositionMode::Cursor => (cursor.0 as int, cursor.1 as int),
        PopupPositionMode::ScreenCenter => center(screen),
        PopupPositionMode::WindowCenter => match foreground_window {
            Some(w) => center(w),
            None => center(screen),
        },
        PopupPositionMode::BottomRight => (screen.0 + screen.2, screen.1 + screen.3),
    }
}

/// The popup's left edge before clamping: left-aligned to the anchor for
/// `Cursor`, right-aligned for `BottomRight`, centered otherwise.
pub open spec fn spec_unclamped_x(mode: PopupPositionMode, ax: int, pw: int) -> int {
    match mode {
        PopupPositionMode::Cursor => ax,
        PopupPositionMode::BottomRight => ax - pw,
        _ => ax - half(pw),
    }
}

/// The popup's top edge before clamping: below the anchor for `Bottom`,
/// above it for `Top`.
pub open spec fn spec_unclamped_y(pin: PopupPin, ay: int, ph: int) -> int {
    match pin {
        PopupPin::Bottom => ay,
        PopupPin::Top => ay - ph,
    }
}

/// The position `compute_popup_position` returns.
pub open spec fn spec_popup_position(
    mode: PopupPositionMode,
    pin: PopupPin,
    cursor: (i32, i32),
    foreground_window: Option<(i32, i32, i32, i32)>,
    popup_size: (i32, i32),
    screen: (i32, i32, i32, i32),
) -> (int, int) {
    let (ax, ay) = spec_anchor(mode, cursor, foreground_window, screen);
    let x = spec_unclamped_x(mode, ax, popup_size.0 as int);
    let y = spec_unclamped_y(pin, ay, popup_size.1 as int);
    (
        clamp(x, screen.0 as int, max(screen.0 + screen.2 - popup_size.0, screen.0 as int)),
        clamp(y, screen.1 as int, max(screen.1 + screen.3 - popup_size.1, screen.1 as int)),
    )
}

/// Every intermediate value of the computation fits in an `i32`, so that no
/// step overflows.
pub open spec fn position_in_range(
    mode: PopupPositionMode,
    pin: PopupPin,
    cursor: (i32, i32),
    foreground_window: Option<(i32, i32, i32, i32)>,
    popup_size: (i32, i32),
    screen: (i32, i32, i32, i32),
) -> bool {
    let (ax, ay) = spec_anchor(mode, cursor, foreground_window, screen);
    &&& fits_i32(ax)
    &&& fits_i32(ay)
    &&& fits_i32(spec_unclamped_x(mode, ax, popup_size.0 as int))
    &&& fits_i32(spec_unclamped_y(pin, ay, popup_size.1 as int))
    &&& fits_i32(screen.0 + screen.2)
    &&& fits_i32(screen.0 + screen.2 - popup_size.0)
    &&& fits_i32(screen.1 + screen.3)
    &&& fits_i32(screen.1 + screen.3 - popup_size.1)
}

fn fits(v: i64) -> (r: bool)
    ensures
        r == fits_i32(v as int),
{
    i32::MIN as i64 <= v && v <= i32::MAX as i64
}

fn half_i64(a: i32) -> (r: i64)
    ensures
        r == half(a as int),
{
    (a / 2) as i64
}

/// Whether `compute_popup_position` can place the popup for these inputs
/// without any intermediate value leaving the `i32` range.
pub fn position_fits(
    mode: PopupPositionMode,
    pin: PopupPin,
    cursor: (i32, i32),
    foreground_window: Option<(i32, i32, i32, i32)>,
    popup_size: (i32, i32),
    screen: (i32, i32, i32, i32),
) -> (r: bool)
    ensures
        r == position_in_range(mode, pin, cursor, foreground_window, popup_size, screen),
{
    let (sx, sy, sw, sh) = screen;
    let (pw, ph) = popup_size;
    let (ax, ay): (i64, i64) = match mode {
        PopupPositionMode::Cursor => (cursor.0 as i64, cursor.1 as i64),
        PopupPositionMode::ScreenCenter => (sx as i64 + half_i64(sw), sy as i64 + half_i64(sh)),
        PopupPositionMode::WindowCenter => match foreground_window {
            Some((wx, wy, ww, wh)) => (wx as i64 + half_i64(ww), wy as i64 + half_i64(wh)),
            None => (sx as i64 + half_i64(sw), sy as i64 + half_i64(sh)),
        },
        PopupPositionMode::BottomRight => (sx as i64 + sw as i64, sy as i64 + sh as i64),
    };
    let x: i64 = match mode {
        PopupPositionMode::Cursor => ax,
        PopupPositionMode::BottomRight => ax - pw as i64,
        _ => ax - half_i64(pw),
    };
    let y: i64 = match pin {
        PopupPin::Bottom => ay,
        PopupPin::Top => ay - ph as i64,
    };
    fits(ax) && fits(ay) && fits(x) && fits(y) && fits(sx as i64 + sw as i64) && fits(
        sx as i64 + sw as i64 - pw as i64,
    ) && fits(sy as i64 + sh as i64) && fits(sy as i64 + sh as i64 - ph as i64)
}

fn half_i32(a: i32) -> (r: i32)
    ensures
        r == half(a as int),
{
    a / 2
}

fn clamp_i32(v: i32, lo: i32, hi: i32) -> (r: i32)
    requires
        lo <= hi,
    ensures
        r == clamp(v as int, lo as int, hi as int),
{
    if v < lo {
        lo
    } else if v > hi {
        hi
    } else {
        v
    }
}

/// Computes the popup's anchor point (before pin/clamp are applied) for a
/// given position mode. `WindowCenter` falls back to the screen center when
/// no foreground window is known.
fn anchor_point(
    mode: PopupPositionMode,
    cursor: (i32, i32),
    foreground_window: Option<(i32, i32, i32, i32)>,
    screen: (i32, i32, i32, i32),
) -> (a: (i32, i32))
    requires
        fits_i32(spec_anchor(mode, cursor, foreground_window, screen).0),
        fits_i32(spec_anchor(mode, cursor, foreground_window, screen).1),
    ensures
        a.0 == spec_anchor(mode, cursor, foreground_window, screen).0,
        a.1 == spec_anchor(mode, cursor, foreground_window, screen).1,
{
    let (sx, sy, sw, sh) = screen;
    match mode {
        PopupPositionMode::Cursor => cursor,
        PopupPositionMode::ScreenCenter => (sx + half_i32(sw), sy + half_i32(sh)),
        PopupPositionMode::WindowCenter => match foreground_window {
            Some((wx, wy, ww, wh)) => (wx + half_i32(ww), wy + half_i32(wh)),
            None => (sx + half_i32(sw), sy + half_i32(sh)),
        },
        PopupPositionMode::BottomRight => (sx + sw, sy + sh),
    }
}

/// Places the popup relative to `mode`'s anchor point, oriented by `pin`
/// (above or below the anchor), then clamps the result so the popup stays
/// on-screen.
pub fn compute_popup_position(
    mode: PopupPositionMode,
    pin: PopupPin,
    cursor: (i32, i32),
    foreground_window: Option<(i32, i32, i32, i32)>,
    popup_size: (i32, i32),
    screen: (i32, i32, i32, i32),
) -> (pos: (i32, i32))
    requires
        position_in_range(mode, pin, cursor, foreground_window, popup_size, screen),
    ensures
        pos.0 == spec_popup_position(mode, pin, cursor, foreground_window, popup_size, screen).0,
        pos.1 == spec_popup_position(mode, pin, cursor, foreground_window, popup_size, screen).1,
{
    let (ax, ay) = anchor_point(mode, cursor, foreground_window, screen);
    let (pw, ph) = popup_size;
    let (sx, sy, sw, sh) = screen;

    let x = match mode {
        PopupPositionMode::Cursor => ax,
        PopupPositionMode::BottomRight => ax - pw,
        _ => ax - half_i32(pw),
    };
    let y = match pin {
        PopupPin::Bottom => ay,
        PopupPin::Top => ay - ph,
    };

    let right = sx + sw - pw;
    let x_max = if right >= sx { right } else { sx };
    let bottom = sy + sh - ph;
    let y_max = if bottom >= sy { bottom } else { sy };

    (clamp_i32(x, sx, x_max), clamp_i32(y, sy, y_max))
}

/// The popup's computed position always lies within the screen: its left
/// and top edges are never before the screen's, and whenever the popup fits
/// on the screen it also ends before the screen's right and bottom edges.
pub proof fn lemma_popup_stays_on_screen(
    mode: PopupPositionMode,
    pin: PopupPin,
    cursor: (i32, i32),
    foreground_window: Option<(i32, i32, i32, i32)>,
    popup_size: (i32, i32),
    screen: (i32, i32, i32, i32),
)
    ensures
        ({
            let p = spec_popup_position(mode, pin, cursor, foreground_window, popup_size, screen);
            &&& screen.0 <= p.0
            &&& screen.1 <= p.1
            &&& popup_size.0 <= screen.2 ==> p.0 + popup_size.0 <= screen.0 + screen.2
            &&& popup_size.1 <= screen.3 ==> p.1 + popup_size.1 <= screen.1 + screen.3
        }),
{
}

/// In `Cursor` mode pinned to the bottom, a popup that fits on the screen at
/// the cursor is placed exactly at the cursor, with its top-left corner there.
pub proof fn lemma_cursor_bottom_keeps_cursor_when_room(
    cursor: (i32, i32),
    foreground_window: Option<(i32, i32, i32, i32)>,
    popup_size: (i32, i32),
    screen: (i32, i32, i32, i32),
)
    requires
        screen.0 <= cursor.0,
        cursor.0 + popup_size.0 <= screen.0 + screen.2,
        screen.1 <= cursor.1,
        cursor.1 + popup_size.1 <= screen.1 + screen.3,
    ensures
        spec_popup_position(
            PopupPositionMode::Cursor,
            PopupPin::Bottom,
            cursor,
            foreground_window,
            popup_size,
            screen,
        ) == (cursor.0 as int, cursor.1 as int),
{
}

/// Pinning to the top places the popup exactly one popup height above where
/// pinning to the bottom would, as long as neither placement needs clamping
/// vertically; the horizontal position does not depend on the pin.
pub proof fn lemma_top_pin_is_bottom_pin_raised(
    mode: PopupPositionMode,
    cursor: (i32, i32),
    foreground_window: Option<(i32, i32, i32, i32)>,
    popup_size: (i32, i32),
    screen: (i32, i32, i32, i32),
)
    requires
        ({
            let ay = spec_anchor(mode, cursor, foreground_window, screen).1;
            &&& 0 <= popup_size.1
            &&& screen.1 <= ay - popup_size.1
            &&& ay <= screen.1 + screen.3 - popup_size.1
        }),
    ensures
        spec_popup_position(mode, PopupPin::Top, cursor, foreground_window, popup_size, screen).1
            == spec_popup_position(mode, PopupPin::Bottom, cursor, foreground_window, popup_size, screen).1
            - popup_size.1,
        spec_popup_position(mode, PopupPin::Top, cursor, foreground_window, popup_size, screen).0
            == spec_popup_position(mode, PopupPin::Bottom, cursor, foreground_window, popup_size, screen).0,
{
}

/// `WindowCenter` without a foreground window anchors where `ScreenCenter`
/// does, whatever window `ScreenCenter` is given, and `Cursor` anchors at the
/// cursor.
pub proof fn lemma_anchor_fallbacks(
    cursor: (i32, i32),
    foreground_window: Option<(i32, i32, i32, i32)>,
    screen: (i32, i32, i32, i32),
)
    ensures
        spec_anchor(PopupPositionMode::WindowCenter, cursor, None, screen) == spec_anchor(
            PopupPositionMode::ScreenCenter,
            cursor,
            foreground_window,
            screen,
        ),
        spec_anchor(PopupPositionMode::Cursor, cursor, foreground_window, screen) == (
        cursor.0 as int, cursor.1 as int),
{
}

/// `moved` is the rectangle `r` moved by `(dx, dy)`, with the same size.
pub open spec fn moved_rect(r: (i32, i32, i32, i32), dx: int, dy: int, moved: (i32, i32, i32, i32)) -> bool {
    moved.0 == r.0 + dx && moved.1 == r.1 + dy && moved.2 == r.2 && moved.3 == r.3
}

/// Placement does not depend on where the monitor is: moving the screen,
/// the cursor and the foreground window by `(dx, dy)` moves the popup by
/// `(dx, dy)`, in every mode and for either pin.
pub proof fn lemma_placement_moves_with_the_screen(
    mode: PopupPositionMode,
    pin: PopupPin,
    cursor: (i32, i32),
    foreground_window: Option<(i32, i32, i32, i32)>,
    popup_size: (i32, i32),
    screen: (i32, i32, i32, i32),
    dx: int,
    dy: int,
    moved_cursor: (i32, i32),
    moved_window: Option<(i32, i32, i32, i32)>,
    moved_screen: (i32, i32, i32, i32),
)
    requires
        moved_cursor.0 == cursor.0 + dx,
        moved_cursor.1 == cursor.1 + dy,
        moved_rect(screen, dx, dy, moved_screen),
        match (foreground_window, moved_window) {
            (Some(w), Some(m)) => moved_rect(w, dx, dy, m),
            (None, None) => true,
            _ => false,
        },
    ensures
        ({
            let p = spec_popup_position(mode, pin, cursor, foreground_window, popup_size, screen);
            let q = spec_popup_position(mode, pin, moved_cursor, moved_window, popup_size, moved_screen);
            q == (p.0 + dx, p.1 + dy)
        }),
{
}

/// The centre modes place the anchor inside the rectangle they centre on:
/// `ScreenCenter` (and `WindowCenter` without a window) between the screen's
/// edges, and `WindowCenter` between the window's.
pub proof fn lemma_center_anchor_inside(
    cursor: (i32, i32),
    foreground_window: Option<(i32, i32, i32, i32)>,
    screen: (i32, i32, i32, i32),
)
    requires
        screen.2 >= 0,
        screen.3 >= 0,
        foreground_window matches Some(w) ==> w.2 >= 0 && w.3 >= 0,
    ensures
        ({
            let a = spec_anchor(PopupPositionMode::ScreenCenter, cursor, foreground_window, screen);
            screen.0 <= a.0 <= screen.0 + screen.2 && screen.1 <= a.1 <= screen.1 + screen.3
        }),
        ({
            let a = spec_anchor(PopupPositionMode::WindowCenter, cursor, foreground_window, screen);
            match foreground_window {
                Some(w) => w.0 <= a.0 <= w.0 + w.2 && w.1 <= a.1 <= w.1 + w.3,
                None => screen.0 <= a.0 <= screen.0 + screen.2 && screen.1 <= a.1 <= screen.1 + screen.3,
            }
        }),
{
}

} // verus!
