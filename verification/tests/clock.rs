use flipsaver::clock::{border_percent, compute, format_time, layout_in_range, Marker, Rect};

#[test]
fn border_percent_range() {
    assert_eq!(border_percent(100), 5);
    assert_eq!(border_percent(70), 12);
    assert_eq!(border_percent(0), 30);
}

#[test]
fn layout_1080p_scale70_fullscreen_12h() {
    let l = compute(1920, 1080, 70, false, false, false);
    assert_eq!(l.hours.rect, Rect { x: 230, y: 184, w: 712, h: 712 });
    assert_eq!(l.minutes.rect, Rect { x: 978, y: 184, w: 712, h: 712 });
    assert_eq!(l.corner_radius, 35);
    assert_eq!(l.large_font_px, 605);
    assert_eq!(l.small_font_px, 64);
    assert_eq!(l.hours.text, Rect { x: 166, y: 212, w: 854, h: 712 });
    assert_eq!(l.hours.split_y, 538);
    assert_eq!(l.split_stroke, 4);
    assert_eq!(l.hours.marker_top, Some((265, 255)));
    assert_eq!(l.hours.marker_bottom, Some((265, 825)));
    // markers only ever on the hours box
    assert_eq!(l.minutes.marker_top, None);
    assert_eq!(l.minutes.marker_bottom, None);
}

#[test]
fn layout_24h_has_no_markers() {
    let l = compute(1920, 1080, 70, true, false, false);
    assert_eq!(l.hours.marker_top, None);
    assert_eq!(l.hours.marker_bottom, None);
}

#[test]
fn layout_preview_320x240_scale70() {
    let l = compute(320, 240, 70, false, false, true);
    assert_eq!(l.hours.rect, Rect { x: 38, y: 60, w: 119, h: 119 });
    assert_eq!(l.minutes.rect, Rect { x: 163, y: 60, w: 119, h: 119 });
    // preview split: 1 px hairline at exact box center
    assert_eq!(l.hours.split_y, 119);
    assert_eq!(l.split_stroke, 1);
}

#[test]
fn layout_portrait_1080x1920_scale70_vertical() {
    let l = compute(1080, 1920, 70, false, true, false);
    assert_eq!(l.hours.rect, Rect { x: 184, y: 230, w: 712, h: 712 });
    assert_eq!(l.minutes.rect, Rect { x: 184, y: 978, w: 712, h: 712 });
    assert_eq!(l.corner_radius, 35);
    assert_eq!(l.large_font_px, 605);
    assert_eq!(l.small_font_px, 64);
    assert_eq!(l.hours.text, Rect { x: 120, y: 258, w: 854, h: 712 });
    assert_eq!(l.hours.split_y, 584);
    assert_eq!(l.hours.marker_top, Some((219, 301)));
    assert_eq!(l.hours.marker_bottom, Some((219, 871)));
    // markers only ever on the hours box
    assert_eq!(l.minutes.marker_top, None);
}

#[test]
fn format_12h() {
    assert_eq!(format_time(0, 5, false), ("12".into(), "05".into(), Some(Marker::Am)));
    assert_eq!(format_time(11, 59, false), ("11".into(), "59".into(), Some(Marker::Am)));
    assert_eq!(format_time(12, 0, false), ("12".into(), "00".into(), Some(Marker::Pm)));
    assert_eq!(format_time(13, 7, false), ("1".into(), "07".into(), Some(Marker::Pm)));
}

#[test]
fn format_24h() {
    assert_eq!(format_time(0, 5, true), ("00".into(), "05".into(), None));
    assert_eq!(format_time(23, 5, true), ("23".into(), "05".into(), None));
}

// ---- further cases

/// The box side is the remaining width divided by 2.05, rounded to the
/// nearest integer, checked against the floating-point formula on many sizes.
#[test]
fn box_size_matches_float_rounding() {
    for width in [200, 321, 640, 800, 1023, 1280, 1366, 1440, 1600, 1920, 2560, 3440, 3840, 5120, 7680] {
        for scale in [0, 10, 20, 30, 40, 50, 60, 70, 80, 90, 100] {
            let bp = border_percent(scale);
            let border = width * bp / 100;
            let remaining = (width - border * 2) as f64;
            let parts = (1.0 + 0.05) * 2.0f64 - 0.05;
            let by_w = (remaining / parts).round() as i32;
            let tall = 100_000; // the width decides
            let l = compute(width, tall, scale, true, false, false);
            assert_eq!(l.hours.rect.w, by_w, "width {width} scale {scale}");
            let sep = (by_w as f64 * 0.05).round() as i32;
            assert_eq!(l.minutes.rect.x - l.hours.rect.x - by_w, sep);
        }
    }
}

#[test]
fn separation_rounds_half_away_from_zero() {
    // box 10 wide: separation 0.5 rounds to 1
    let l = compute(10 + 20, 100_000, 100, true, true, false);
    assert!(l.hours.rect.w > 0);
    let b = l.hours.rect.w;
    let sep = l.minutes.rect.y - l.hours.rect.y - b;
    assert_eq!(sep, ((b as f64) * 0.05).round() as i32);
}

#[test]
fn format_large_hour_values() {
    assert_eq!(format_time(100, 7, true).0, "100");
    assert_eq!(format_time(24, 0, false), ("12".into(), "00".into(), Some(Marker::Pm)));
}

#[test]
fn layout_range_check_matches_overflow() {
    assert!(layout_in_range(1920, 1080, 70, false, false, false));
    assert!(layout_in_range(1080, 1920, 150, true, true, true));
    assert!(layout_in_range(0, 0, 0, false, false, false));
    // width * border percent overflows
    assert!(!layout_in_range(i32::MAX, 1080, 70, false, false, false));
    // 100 - scale overflows
    assert!(!layout_in_range(1920, 1080, i32::MIN, false, false, false));
}
