//! Layout math for the flip-clock face: box geometry for every screen size,
//! slider value and orientation, and the digit strings shown in the boxes.
//! All arithmetic is on `i32` as in the drawing code; the functions require
//! that no intermediate value leaves the `i32` range.

use vstd::prelude::*;
use vstd::string::*;
use crate::text::{dec, pad2, push_char, push_dec};

verus! {

/// Split-line thickness in pixels (full screen).
pub const SPLIT_WIDTH: i32 = 4;

/// Total flip duration in milliseconds.
pub const FLIP_DURATION_MS: u64 = 600;

#[derive(Debug, Clone, Copy, PartialEq, Eq, Structural)]
pub struct Rect {
    pub x: i32,
    pub y: i32,
    pub w: i32,
    pub h: i32,
}

#[derive(Debug, Clone, Copy, PartialEq, Eq)]
pub struct BoxLayout {
    pub rect: Rect,
    pub text: Rect,
    pub split_y: i32,
    /// Top-left anchor of the AM marker (12h mode, hours box only).
    pub marker_top: Option<(i32, i32)>,
    /// (x, bottom-edge y) anchor of the PM marker; the drawer subtracts the
    /// measured small-text line height.
    pub marker_bottom: Option<(i32, i32)>,
}

#[derive(Debug, Clone, Copy, PartialEq, Eq)]
pub struct Layout {
    pub hours: BoxLayout,
    pub minutes: BoxLayout,
    pub corner_radius: i32,
    pub large_font_px: i32,
    pub small_font_px: i32,
    /// Split-line stroke width in pixels: 1 in the preview, else `SPLIT_WIDTH`.
    pub split_stroke: i32,
}

#[derive(Debug, Clone, Copy, PartialEq, Eq, Structural)]
pub enum Marker {
    Am,
    Pm,
}

// ------------------------------------------------------------------ spec

/// Rust's `/` on signed integers: the quotient rounded toward zero.
pub open spec fn tdiv(a: int, b: int) -> int {
    if a >= 0 {
        a / b
    } else {
        -((-a) / b)
    }
}

pub open spec fn fits(x: int) -> bool {
    i32::MIN <= x <= i32::MAX
}

/// `num / den` rounded to the nearest integer (halves upward).
pub open spec fn round_nearest(num: int, den: int) -> int {
    (2 * num + den) / (2 * den)
}

/// `x / 20` rounded to the nearest integer, halves away from zero.
pub open spec fn round_twentieth(x: int) -> int {
    if x >= 0 {
        (x + 10) / 20
    } else {
        -((-x + 10) / 20)
    }
}

pub open spec fn border_percent_spec(scale: int) -> int {
    tdiv(100 - scale, 4) + 5
}

/// Side of a box when `count` boxes (with 5% separation) share `total`
/// pixels inside a border of `bp` percent per side: the remaining length
/// divided by `1.05 * count - 0.05` (1 or 2.05), rounded to nearest.
pub open spec fn box_size_spec(total: int, bp: int, count: int) -> int {
    let remaining = total - tdiv(total * bp, 100) * 2;
    if count == 1 {
        remaining
    } else {
        round_nearest(20 * remaining, 41)
    }
}

pub open spec fn box_size_fits(total: int, bp: int) -> bool {
    fits(total * bp) && fits(total - tdiv(total * bp, 100) * 2)
}

/// Left/top start so that `count` boxes and their separators are centered.
pub open spec fn offset_spec(total: int, count: int, box_size: int, sep: int) -> int {
    tdiv(total - ((box_size + sep) * count - sep), 2)
}

pub open spec fn offset_fits(total: int, count: int, box_size: int, sep: int) -> bool {
    &&& fits(box_size + sep)
    &&& fits((box_size + sep) * count)
    &&& fits((box_size + sep) * count - sep)
    &&& fits(total - ((box_size + sep) * count - sep))
}

pub open spec fn min(a: int, b: int) -> int {
    if a <= b {
        a
    } else {
        b
    }
}

pub open spec fn box_layout_spec(r: Rect, with_markers: bool, is_preview: bool) -> BoxLayout {
    let diff = tdiv(r.w as int, 10);
    let x_off = tdiv(r.w as int, 100);
    let y_off = tdiv(r.h * 4, 100);
    let left = r.x + tdiv(diff, 2);
    BoxLayout {
        rect: r,
        text: Rect {
            x: (r.x - diff + x_off) as i32,
            y: (r.y + y_off) as i32,
            w: (r.w + diff * 2) as i32,
            h: r.h,
        },
        split_y: (if is_preview {
            r.y + tdiv(r.h as int, 2)
        } else {
            r.y + tdiv(r.h as int, 2) - 2
        }) as i32,
        marker_top: if with_markers {
            Some((left as i32, (r.y + diff) as i32))
        } else {
            None
        },
        marker_bottom: if with_markers {
            Some((left as i32, (r.y + r.h - diff) as i32))
        } else {
            None
        },
    }
}

pub open spec fn box_layout_fits(r: Rect, with_markers: bool, is_preview: bool) -> bool {
    let diff = tdiv(r.w as int, 10);
    &&& fits(r.x - diff)
    &&& fits(r.x - diff + tdiv(r.w as int, 100))
    &&& fits(r.h * 4)
    &&& fits(r.y + tdiv(r.h * 4, 100))
    &&& fits(r.w + diff * 2)
    &&& fits(r.y + tdiv(r.h as int, 2))
    &&& fits(r.y + tdiv(r.h as int, 2) - 2)
    &&& with_markers ==> {
        &&& fits(r.x + tdiv(diff, 2))
        &&& fits(r.y + diff)
        &&& fits(r.y + r.h)
        &&& fits(r.y + r.h - diff)
    }
}

/// The box side and the hours/minutes rectangles.
pub open spec fn face_rects(width: int, height: int, scale: int, vertical: bool) -> (
    int,
    Rect,
    Rect,
) {
    let bp = border_percent_spec(scale);
    if vertical {
        let b = min(box_size_spec(width, bp, 1), box_size_spec(height, bp, 2));
        let sep = round_twentieth(b);
        let x = offset_spec(width, 1, b, 0);
        let y = offset_spec(height, 2, b, sep);
        let hours = Rect { x: x as i32, y: y as i32, w: b as i32, h: b as i32 };
        (b, hours, Rect { y: (y + b + sep) as i32, ..hours })
    } else {
        let b = min(box_size_spec(width, bp, 2), box_size_spec(height, bp, 1));
        let sep = round_twentieth(b);
        let x = offset_spec(width, 2, b, sep);
        let y = offset_spec(height, 1, b, 0);
        let hours = Rect { x: x as i32, y: y as i32, w: b as i32, h: b as i32 };
        (b, hours, Rect { x: (x + b + sep) as i32, ..hours })
    }
}

pub open spec fn face_rects_fit(width: int, height: int, scale: int, vertical: bool) -> bool {
    let bp = border_percent_spec(scale);
    &&& fits(100 - scale)
    &&& box_size_fits(width, bp)
    &&& box_size_fits(height, bp)
    &&& if vertical {
        let b = min(box_size_spec(width, bp, 1), box_size_spec(height, bp, 2));
        let sep = round_twentieth(b);
        &&& offset_fits(width, 1, b, 0)
        &&& offset_fits(height, 2, b, sep)
        &&& fits(offset_spec(height, 2, b, sep) + b)
        &&& fits(offset_spec(height, 2, b, sep) + b + sep)
    } else {
        let b = min(box_size_spec(width, bp, 2), box_size_spec(height, bp, 1));
        let sep = round_twentieth(b);
        &&& offset_fits(width, 2, b, sep)
        &&& offset_fits(height, 1, b, 0)
        &&& fits(offset_spec(width, 2, b, sep) + b)
        &&& fits(offset_spec(width, 2, b, sep) + b + sep)
    }
}

/// The whole face layout.
pub open spec fn layout_spec(
    width: int,
    height: int,
    scale: int,
    is_24h: bool,
    vertical: bool,
    is_preview: bool,
) -> Layout {
    let (b, hours, minutes) = face_rects(width, height, scale, vertical);
    Layout {
        hours: box_layout_spec(hours, !is_24h, is_preview),
        minutes: box_layout_spec(minutes, false, is_preview),
        corner_radius: tdiv(b, 20) as i32,
        large_font_px: tdiv(b * 85, 100) as i32,
        small_font_px: tdiv(b * 9, 100) as i32,
        split_stroke: if is_preview {
            1
        } else {
            SPLIT_WIDTH
        },
    }
}

/// No intermediate value of the layout computation overflows `i32`.
pub open spec fn layout_fits(
    width: int,
    height: int,
    scale: int,
    is_24h: bool,
    vertical: bool,
    is_preview: bool,
) -> bool {
    let (b, hours, minutes) = face_rects(width, height, scale, vertical);
    &&& face_rects_fit(width, height, scale, vertical)
    &&& fits(b * 85)
    &&& box_layout_fits(hours, !is_24h, is_preview)
    &&& box_layout_fits(minutes, false, is_preview)
}

/// Bounds of one box side for a screen length of at most 100 000 pixels.
proof fn lemma_box_size_bounds(total: int, bp: int, count: int)
    requires
        0 <= total <= 100_000,
        -2_500 <= bp <= 2_600,
        count == 1 || count == 2,
    ensures
        box_size_fits(total, bp),
        -6_000_000 <= box_size_spec(total, bp, count) <= 6_000_000,
{
    assert(-250_000_000 <= total * bp <= 260_000_000) by (nonlinear_arith)
        requires
            0 <= total <= 100_000,
            -2_500 <= bp <= 2_600,
    ;
    let q = tdiv(total * bp, 100);
    assert(-2_500_000 <= q <= 2_600_000);
    let rem = total - q * 2;
    assert(-5_300_000 <= rem <= 5_100_000);
    assert(-3_000_000 <= round_nearest(20 * rem, 41) <= 3_000_000) by (nonlinear_arith)
        requires
            -5_300_000 <= rem <= 5_100_000,
            round_nearest(20 * rem, 41) == (40 * rem + 41int) / 82int,
    ;
}

proof fn lemma_box_layout_bounded(r: Rect, with_markers: bool, is_preview: bool)
    requires
        -20_000_000 <= r.x <= 20_000_000,
        -20_000_000 <= r.y <= 20_000_000,
        -6_000_000 <= r.w <= 6_000_000,
        -6_000_000 <= r.h <= 6_000_000,
    ensures
        box_layout_fits(r, with_markers, is_preview),
{
}

proof fn lemma_face_rects_bounded(width: int, height: int, scale: int, vertical: bool)
    requires
        0 <= width <= 100_000,
        0 <= height <= 100_000,
        -10_000 <= scale <= 10_000,
    ensures
        face_rects_fit(width, height, scale, vertical),
        -6_000_000 <= face_rects(width, height, scale, vertical).0 <= 6_000_000,
        -20_000_000 <= face_rects(width, height, scale, vertical).1.x <= 20_000_000,
        -20_000_000 <= face_rects(width, height, scale, vertical).1.y <= 20_000_000,
        -20_000_000 <= face_rects(width, height, scale, vertical).2.x <= 20_000_000,
        -20_000_000 <= face_rects(width, height, scale, vertical).2.y <= 20_000_000,
        face_rects(width, height, scale, vertical).1.w == face_rects(width, height, scale, vertical).0,
        face_rects(width, height, scale, vertical).1.h == face_rects(width, height, scale, vertical).0,
        face_rects(width, height, scale, vertical).2.w == face_rects(width, height, scale, vertical).0,
        face_rects(width, height, scale, vertical).2.h == face_rects(width, height, scale, vertical).0,
{
    let bp = border_percent_spec(scale);
    assert(-2_500 <= bp <= 2_600);
    lemma_box_size_bounds(width, bp, 1);
    lemma_box_size_bounds(width, bp, 2);
    lemma_box_size_bounds(height, bp, 1);
    lemma_box_size_bounds(height, bp, 2);
    let b = if vertical {
        min(box_size_spec(width, bp, 1), box_size_spec(height, bp, 2))
    } else {
        min(box_size_spec(width, bp, 2), box_size_spec(height, bp, 1))
    };
    assert(-6_000_000 <= b <= 6_000_000);
    let sep = round_twentieth(b);
    assert(-300_001 <= sep <= 300_001);
}

/// Any screen of at most 100 000 x 100 000 pixels with a size setting
/// between -10 000 and 10 000 (the slider gives 0 to 100) lays out
/// without overflow.
pub proof fn lemma_screen_layout_fits(
    width: int,
    height: int,
    scale: int,
    is_24h: bool,
    vertical: bool,
    is_preview: bool,
)
    requires
        0 <= width <= 100_000,
        0 <= height <= 100_000,
        -10_000 <= scale <= 10_000,
    ensures
        layout_fits(width, height, scale, is_24h, vertical, is_preview),
{
    lemma_face_rects_bounded(width, height, scale, vertical);
    let (b, hours, minutes) = face_rects(width, height, scale, vertical);
    lemma_box_layout_bounded(hours, !is_24h, is_preview);
    lemma_box_layout_bounded(minutes, false, is_preview);
}

/// A box laid out from its own rectangle: the digit area widened by a
/// tenth of the side on each side (shifted right by 1%) and lowered by 4%
/// of the height; the split line (the fold hinge) across the vertical
/// middle, 2 pixels higher in full screen (half the split width); the AM
/// anchor a tenth of the side below the top edge and the PM anchor a tenth
/// above the bottom edge, both half a tenth in from the left, or none.
pub open spec fn box_from_own_rect(bl: BoxLayout, with_markers: bool, is_preview: bool) -> bool {
    let r = bl.rect;
    let tenth = tdiv(r.w as int, 10);
    &&& bl.text.x == r.x - tenth + tdiv(r.w as int, 100)
    &&& bl.text.y == r.y + tdiv(r.h * 4, 100)
    &&& bl.text.w == r.w + 2 * tenth
    &&& bl.text.h == r.h
    &&& bl.split_y == r.y + tdiv(r.h as int, 2) - (if is_preview { 0int } else { 2int })
    &&& r.h >= 4 ==> r.y <= bl.split_y < r.y + r.h
    &&& if with_markers {
        &&& bl.marker_top == Some(((r.x + tdiv(tenth, 2)) as i32, (r.y + tenth) as i32))
        &&& bl.marker_bottom == Some(((r.x + tdiv(tenth, 2)) as i32, (r.y + r.h - tenth) as i32))
    } else {
        bl.marker_top is None && bl.marker_bottom is None
    }
}

proof fn lemma_box_from_own_rect(r: Rect, with_markers: bool, is_preview: bool)
    requires
        box_layout_fits(r, with_markers, is_preview),
    ensures
        box_layout_spec(r, with_markers, is_preview).rect == r,
        box_from_own_rect(box_layout_spec(r, with_markers, is_preview), with_markers, is_preview),
{
}

/// The face layout: each box (hours, minutes) is laid out from its own
/// rectangle, markers only on the hours box in 12-hour mode; the two boxes
/// are equal squares, the minutes box one side plus a twentieth of a side
/// (rounded) after the hours box, to the right or below; the pair is
/// centered on the window; radius, fonts and split width scale with the
/// side.
pub proof fn lemma_layout_shape(
    width: int,
    height: int,
    scale: int,
    is_24h: bool,
    vertical: bool,
    is_preview: bool,
)
    requires
        layout_fits(width, height, scale, is_24h, vertical, is_preview),
    ensures
        ({
            let l = layout_spec(width, height, scale, is_24h, vertical, is_preview);
            let b = l.hours.rect.w as int;
            let sep = round_twentieth(b);
            &&& box_from_own_rect(l.hours, !is_24h, is_preview)
            &&& box_from_own_rect(l.minutes, false, is_preview)
            &&& l.hours.rect.h == b && l.minutes.rect.w == b && l.minutes.rect.h == b
            &&& vertical ==> {
                &&& l.minutes.rect.x == l.hours.rect.x
                &&& l.minutes.rect.y == l.hours.rect.y + b + sep
                &&& l.hours.rect.x == tdiv(width - b, 2)
                &&& l.hours.rect.y == tdiv(height - (2 * b + sep), 2)
            }
            &&& !vertical ==> {
                &&& l.minutes.rect.y == l.hours.rect.y
                &&& l.minutes.rect.x == l.hours.rect.x + b + sep
                &&& l.hours.rect.x == tdiv(width - (2 * b + sep), 2)
                &&& l.hours.rect.y == tdiv(height - b, 2)
            }
            &&& l.corner_radius == tdiv(b, 20)
            &&& l.large_font_px == tdiv(b * 85, 100)
            &&& l.small_font_px == tdiv(b * 9, 100)
            &&& l.split_stroke == (if is_preview { 1i32 } else { SPLIT_WIDTH })
        }),
{
    let (b, hours, minutes) = face_rects(width, height, scale, vertical);
    lemma_box_from_own_rect(hours, !is_24h, is_preview);
    lemma_box_from_own_rect(minutes, false, is_preview);
    if vertical {
        let sep = round_twentieth(b);
        assert(offset_spec(height, 2, b, sep) == tdiv(height - (2 * b + sep), 2));
        assert(offset_spec(width, 1, b, 0) == tdiv(width - b, 2));
    } else {
        let sep = round_twentieth(b);
        assert(offset_spec(width, 2, b, sep) == tdiv(width - (2 * b + sep), 2));
        assert(offset_spec(height, 1, b, 0) == tdiv(height - b, 2));
    }
}

// ------------------------------------------------------------------ exec

pub fn border_percent(scale_percent: i32) -> (r: i32)
    requires
        fits(100 - scale_percent),
    ensures
        r == border_percent_spec(scale_percent as int),
{
    (100 - scale_percent) / 4 + 5
}

/// `floor(n / 82)`.
fn floor_div_82(n: i64) -> (r: i64)
    requires
        -0x1_0000_0000_0000 <= n <= 0x1_0000_0000_0000,
    ensures
        r == n as int / 82,
{
    if n >= 0 {
        n / 82
    } else {
        let q = (-n + 81) / 82;
        assert(-q == n as int / 82) by (nonlinear_arith)
            requires
                n < 0,
                q == (-n + 81) / 82,
        ;
        -q
    }
}

fn calc_box_size(total: i32, border_percent: i32, box_count: i32) -> (r: i32)
    requires
        box_count == 1 || box_count == 2,
        box_size_fits(total as int, border_percent as int),
    ensures
        r == box_size_spec(total as int, border_percent as int, box_count as int),
{
    let border = total * border_percent / 100;
    let remaining = total - border * 2;
    if box_count == 1 {
        remaining
    } else {
        let q = floor_div_82(40 * (remaining as i64) + 41);
        assert(i32::MIN <= q <= i32::MAX) by (nonlinear_arith)
            requires
                q == (40 * (remaining as int) + 41) / 82,
                i32::MIN <= remaining <= i32::MAX,
        ;
        q as i32
    }
}

fn calc_offset(total: i32, box_count: i32, box_size: i32, separator: i32) -> (r: i32)
    requires
        offset_fits(total as int, box_count as int, box_size as int, separator as int),
    ensures
        r == offset_spec(total as int, box_count as int, box_size as int, separator as int),
{
    let all = (box_size + separator) * box_count - separator;
    (total - all) / 2
}

fn separation(box_size: i32) -> (r: i32)
    ensures
        r == round_twentieth(box_size as int),
{
    if box_size >= 0 {
        ((box_size as i64 + 10) / 20) as i32
    } else {
        let m = (0 - (box_size as i64) + 10) / 20;
        (0 - m) as i32
    }
}

fn box_layout(rect: Rect, with_markers: bool, is_preview: bool) -> (r: BoxLayout)
    requires
        box_layout_fits(rect, with_markers, is_preview),
    ensures
        r == box_layout_spec(rect, with_markers, is_preview),
{
    let diff = rect.w / 10;
    let x_off = rect.w * 1 / 100;
    let y_off = rect.h * 4 / 100;
    let text = Rect { x: rect.x - diff + x_off, y: rect.y + y_off, w: rect.w + diff * 2, h: rect.h };
    let split_y = if is_preview {
        rect.y + rect.h / 2
    } else {
        rect.y + rect.h / 2 - SPLIT_WIDTH / 2
    };
    let (marker_top, marker_bottom) = if with_markers {
        let left = rect.x + diff / 2;
        (Some((left, rect.y + diff)), Some((left, rect.y + rect.h - diff)))
    } else {
        (None, None)
    };
    BoxLayout { rect, text, split_y, marker_top, marker_bottom }
}

fn min_i32(a: i32, b: i32) -> (r: i32)
    ensures
        r == min(a as int, b as int),
{
    if a <= b {
        a
    } else {
        b
    }
}

pub(crate) fn fits128(x: i128) -> (r: bool)
    ensures
        r == fits(x as int),
{
    -0x8000_0000 <= x && x <= 0x7FFF_FFFF
}

/// `tdiv(a, b)` for a positive divisor.
fn tdiv128(a: i128, b: i128) -> (r: i128)
    requires
        0 < b,
        -0x1_0000_0000_0000_0000_0000 <= a <= 0x1_0000_0000_0000_0000_0000,
    ensures
        r == tdiv(a as int, b as int),
{
    if a >= 0 {
        a / b
    } else {
        0 - ((0 - a) / b)
    }
}

/// `a / b` (rounded down) for a positive divisor.
fn floor_div128(a: i128, b: i128) -> (r: i128)
    requires
        0 < b <= 1000,
        -0x1_0000_0000_0000_0000_0000 <= a <= 0x1_0000_0000_0000_0000_0000,
    ensures
        r == a as int / b as int,
{
    if a >= 0 {
        a / b
    } else {
        let q = (0 - a + b - 1) / b;
        assert(-q == a as int / b as int) by (nonlinear_arith)
            requires
                a < 0,
                b > 0,
                q == (-(a as int) + b - 1) / (b as int),
        ;
        0 - q
    }
}

/// Bounds of one box side computed in wide integers.
fn box_size128(total: i128, bp: i128, count: i128) -> (r: i128)
    requires
        count == 1 || count == 2,
        box_size_fits(total as int, bp as int),
    ensures
        r == box_size_spec(total as int, bp as int, count as int),
        fits(r as int),
{
    let rem = total - tdiv128(total * bp, 100) * 2;
    if count == 1 {
        rem
    } else {
        let q = floor_div128(40 * rem + 41, 82);
        assert(i32::MIN <= q <= i32::MAX) by (nonlinear_arith)
            requires
                q == (40 * (rem as int) + 41) / 82,
                i32::MIN <= rem <= i32::MAX,
        ;
        q
    }
}

fn round_twentieth128(x: i128) -> (r: i128)
    requires
        fits(x as int),
    ensures
        r == round_twentieth(x as int),
        fits(r as int),
{
    if x >= 0 {
        (x + 10) / 20
    } else {
        0 - ((0 - x + 10) / 20)
    }
}

/// Whether `face_rects` computes without overflow, and its result then.
fn face_rects_in_range(width: i32, height: i32, scale: i32, vertical: bool) -> (r: (bool, i32, Rect, Rect))
    ensures
        r.0 == face_rects_fit(width as int, height as int, scale as int, vertical),
        r.0 ==> (r.1 as int, r.2, r.3) == face_rects(width as int, height as int, scale as int, vertical),
{
    let w = width as i128;
    let h = height as i128;
    let d = 100 - scale as i128;
    let bp = tdiv128(d, 4) + 5;
    assert(-0x2000_0000_0000_0000 <= w * bp <= 0x2000_0000_0000_0000) by (nonlinear_arith)
        requires
            -0x8000_0000 <= w <= 0x8000_0000,
            -0x4000_0000 <= bp <= 0x4000_0000,
    ;
    assert(-0x2000_0000_0000_0000 <= h * bp <= 0x2000_0000_0000_0000) by (nonlinear_arith)
        requires
            -0x8000_0000 <= h <= 0x8000_0000,
            -0x4000_0000 <= bp <= 0x4000_0000,
    ;
    let zero = Rect { x: 0, y: 0, w: 0, h: 0 };
    if !(fits128(d) && fits128(w * bp) && fits128(w - tdiv128(w * bp, 100) * 2) && fits128(h * bp)
        && fits128(h - tdiv128(h * bp, 100) * 2)) {
        return (false, 0, zero, zero);
    }
    // the boxes run along `along` (two of them) and across `across` (one)
    let (along, across) = if vertical {
        (h, w)
    } else {
        (w, h)
    };
    let s1 = box_size128(across, bp, 1);
    let s2 = box_size128(along, bp, 2);
    let b = if s1 <= s2 {
        s1
    } else {
        s2
    };
    let sep = round_twentieth128(b);
    // offset across: one box, no separator
    let ok_across = fits128(across - b);
    // offset along: two boxes and one separator
    let ok_along = fits128(b + sep) && fits128((b + sep) * 2) && fits128((b + sep) * 2 - sep)
        && fits128(along - ((b + sep) * 2 - sep));
    if !(ok_across && ok_along) {
        return (false, 0, zero, zero);
    }
    let o_across = tdiv128(across - b, 2);
    let o_along = tdiv128(along - ((b + sep) * 2 - sep), 2);
    if !(fits128(o_along + b) && fits128(o_along + b + sep)) {
        return (false, 0, zero, zero);
    }
    let second = o_along + b + sep;
    let bi = b as i32;
    if vertical {
        let hours = Rect { x: o_across as i32, y: o_along as i32, w: bi, h: bi };
        (true, bi, hours, Rect { y: second as i32, ..hours })
    } else {
        let hours = Rect { x: o_along as i32, y: o_across as i32, w: bi, h: bi };
        (true, bi, hours, Rect { x: second as i32, ..hours })
    }
}

fn box_layout_in_range(r: Rect, with_markers: bool, is_preview: bool) -> (ok: bool)
    ensures
        ok == box_layout_fits(r, with_markers, is_preview),
{
    let x = r.x as i128;
    let y = r.y as i128;
    let w = r.w as i128;
    let h = r.h as i128;
    let diff = tdiv128(w, 10);
    let base = fits128(x - diff) && fits128(x - diff + tdiv128(w, 100)) && fits128(h * 4) && fits128(
        y + tdiv128(h * 4, 100),
    ) && fits128(w + diff * 2) && fits128(y + tdiv128(h, 2)) && fits128(y + tdiv128(h, 2) - 2);
    if with_markers {
        base && fits128(x + tdiv128(diff, 2)) && fits128(y + diff) && fits128(y + h) && fits128(
            y + h - diff,
        )
    } else {
        base
    }
}

/// Whether `compute` can run on these inputs: exactly when none of its
/// intermediate values overflows (`layout_fits`).
pub fn layout_in_range(
    width: i32,
    height: i32,
    scale_percent: i32,
    is_24h: bool,
    vertical: bool,
    is_preview: bool,
) -> (r: bool)
    ensures
        r == layout_fits(width as int, height as int, scale_percent as int, is_24h, vertical, is_preview),
{
    let (ok, b, hours, minutes) = face_rects_in_range(width, height, scale_percent, vertical);
    if !ok {
        return false;
    }
    fits128(b as i128 * 85) && box_layout_in_range(hours, !is_24h, is_preview) && box_layout_in_range(
        minutes,
        false,
        is_preview,
    )
}

/// Face layout for a `width` x `height` window, slider `scale_percent`,
/// 12/24h (markers only in 12h, hours box only), side-by-side or stacked
/// boxes, full screen or preview.
pub fn compute(
    width: i32,
    height: i32,
    scale_percent: i32,
    is_24h: bool,
    vertical: bool,
    is_preview: bool,
) -> (l: Layout)
    requires
        layout_fits(
            width as int,
            height as int,
            scale_percent as int,
            is_24h,
            vertical,
            is_preview,
        ),
    ensures
        l == layout_spec(width as int, height as int, scale_percent as int, is_24h, vertical, is_preview),
        // markers only ever on the hours box, and only in 12h mode
        l.minutes.marker_top is None && l.minutes.marker_bottom is None,
        is_24h <==> l.hours.marker_top is None,
        is_24h <==> l.hours.marker_bottom is None,
        // two equal square boxes, side by side or stacked
        l.hours.rect.w == l.hours.rect.h == l.minutes.rect.w == l.minutes.rect.h,
        vertical ==> l.hours.rect.x == l.minutes.rect.x,
        !vertical ==> l.hours.rect.y == l.minutes.rect.y,
        // each box's text, split line and markers come from its own rect
        box_from_own_rect(l.hours, !is_24h, is_preview),
        box_from_own_rect(l.minutes, false, is_preview),
{
    proof {
        lemma_layout_shape(width as int, height as int, scale_percent as int, is_24h, vertical, is_preview);
    }
    let bp = border_percent(scale_percent);
    let (hours_rect, minutes_rect, box_size) = if vertical {
        // One box across, two stacked; separation applied on the Y axis.
        let box_size = min_i32(calc_box_size(width, bp, 1), calc_box_size(height, bp, 2));
        let sep = separation(box_size);
        let start_x = calc_offset(width, 1, box_size, 0);
        let start_y = calc_offset(height, 2, box_size, sep);
        let hours = Rect { x: start_x, y: start_y, w: box_size, h: box_size };
        let minutes = Rect { y: start_y + box_size + sep, ..hours };
        (hours, minutes, box_size)
    } else {
        let box_size = min_i32(calc_box_size(width, bp, 2), calc_box_size(height, bp, 1));
        let sep = separation(box_size);
        let start_x = calc_offset(width, 2, box_size, sep);
        let start_y = calc_offset(height, 1, box_size, 0);
        let hours = Rect { x: start_x, y: start_y, w: box_size, h: box_size };
        let minutes = Rect { x: start_x + box_size + sep, ..hours };
        (hours, minutes, box_size)
    };
    Layout {
        hours: box_layout(hours_rect, !is_24h, is_preview),
        minutes: box_layout(minutes_rect, false, is_preview),
        corner_radius: box_size / 20,
        large_font_px: box_size * 85 / 100,
        small_font_px: box_size * 9 / 100,
        split_stroke: if is_preview {
            1
        } else {
            SPLIT_WIDTH
        },
    }
}

// ------------------------------------------------------------------ digits

/// Hour shown in 12h mode: 12 for midnight and noon.
pub open spec fn hour12(hour: nat) -> nat {
    if hour % 12 == 0 {
        12
    } else {
        hour % 12
    }
}

/// The strings and marker of `format_time`.
pub open spec fn format_time_spec(hour: nat, minute: nat, is_24h: bool) -> (
    Seq<char>,
    Seq<char>,
    Option<Marker>,
) {
    if is_24h {
        (pad2(hour), pad2(minute), None)
    } else {
        (dec(hour12(hour)), pad2(minute), Some(if hour >= 12 { Marker::Pm } else { Marker::Am }))
    }
}

/// Appends `n` zero-padded to at least two digits (`{:02}`).
pub fn push_pad2(out: &mut String, n: u32)
    ensures
        final(out)@ == old(out)@ + pad2(n as nat),
{
    if n < 10 {
        push_char(out, '0');
        push_dec(out, n as u64);
        assert(dec(n as nat) =~= seq![crate::text::digit_char(n as int)]);
        assert(final(out)@ =~= old(out)@ + pad2(n as nat));
    } else {
        push_dec(out, n as u64);
    }
}

/// Hour string, minute string and (12h only) AM/PM marker.
pub fn format_time(hour: u32, minute: u32, is_24h: bool) -> (r: (String, String, Option<Marker>))
    ensures
        r.0@ == format_time_spec(hour as nat, minute as nat, is_24h).0,
        r.1@ == format_time_spec(hour as nat, minute as nat, is_24h).1,
        r.2 == format_time_spec(hour as nat, minute as nat, is_24h).2,
{
    let mut minute_s = String::new();
    push_pad2(&mut minute_s, minute);
    if is_24h {
        let mut hour_s = String::new();
        push_pad2(&mut hour_s, hour);
        (hour_s, minute_s, None)
    } else {
        let h12 = match hour % 12 {
            0 => 12,
            h => h,
        };
        let marker = if hour >= 12 {
            Marker::Pm
        } else {
            Marker::Am
        };
        let mut hour_s = String::new();
        push_dec(&mut hour_s, h12 as u64);
        (hour_s, minute_s, Some(marker))
    }
}

} // verus!
