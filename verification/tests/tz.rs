use flipsaver::tz::{
    eq_ignore_ascii_case, filetime_ticks, key_to_string, time_parts, zone_in_dst, zone_key_matches,
    LocalTime,
};

fn key(s: &str) -> [u16; 128] {
    let mut k = [0u16; 128];
    for (i, u) in s.encode_utf16().enumerate() {
        k[i] = u;
    }
    k
}

#[test]
fn key_stops_at_nul() {
    assert_eq!(key_to_string(&key("Tokyo Standard Time")), "Tokyo Standard Time");
    let full = [0x41u16; 128];
    assert_eq!(key_to_string(&full).len(), 128);
}

#[test]
fn unpaired_surrogate_is_replaced() {
    let mut k = key("A");
    k[1] = 0xD800;
    assert_eq!(key_to_string(&k), "A\u{FFFD}");
}

#[test]
fn zone_match_ignores_ascii_case_only() {
    assert!(zone_key_matches(&key("UTC"), "utc"));
    assert!(zone_key_matches(&key("Pacific Standard Time"), "PACIFIC standard time"));
    assert!(!zone_key_matches(&key("UTC"), "UTC+1"));
    assert!(eq_ignore_ascii_case("\u{e9}A", "\u{e9}a"));
    assert!(!eq_ignore_ascii_case("\u{e9}", "\u{c9}"));
}

#[test]
fn date_differs_against_machine_date() {
    let a = LocalTime { year: 2026, month: 7, day: 7, day_of_week: 2, hour: 23, minute: 5 };
    let b = LocalTime { year: 2026, month: 7, day: 8, day_of_week: 3, hour: 8, minute: 5 };
    let t = time_parts(a, b, true);
    assert!(t.date_differs && t.is_dst);
    assert_eq!((t.hour, t.minute, t.weekday), (23, 5, 2));
    let t = time_parts(a, a, false);
    assert!(!t.date_differs);
}

#[test]
fn filetime_halves_join() {
    assert_eq!(filetime_ticks(1, 5), 4_294_967_301);
    assert_eq!(filetime_ticks(u32::MAX, u32::MAX), u64::MAX);
}

#[test]
fn dst_from_applied_bias() {
    let min: u64 = 600_000_000;
    let local: u64 = 133_000_000_000_000_000;
    // Los Angeles: standard bias 480 minutes
    assert!(zone_in_dst(local + 420 * min, local, 480, 0));
    assert!(!zone_in_dst(local + 480 * min, local, 480, 0));
    // Tokyo: local ahead of UTC, bias -540; a stray tick truncates toward zero
    assert!(!zone_in_dst(local - 540 * min - 1, local, -540, 0));
    assert!(zone_in_dst(local - 480 * min, local, -540, 0));
}

#[test]
fn surrogate_pair_joins_and_lone_trail_is_replaced() {
    let units = [0x55u16, 0xD83D, 0xDE00, 0xDC00, 0];
    assert_eq!(key_to_string(&units), "U\u{1F600}\u{FFFD}");
}
