use flipsaver::board::{
    compute_grid, diff_cells, grid_in_range, dst_active, format_row, format_row_upper, row_width, weekday_abbr,
    TimeParts, LABEL_CELLS,
};

fn s(row: &[char]) -> String {
    row.iter().collect()
}

#[test]
fn row_width_reserves_all_fields() {
    assert_eq!(row_width(false), 16 + 1 + (5 + 1 + 2 + 1 + 3 + 1 + 1)); // 31
    assert_eq!(row_width(true), 16 + 1 + (5 + 1 + 3 + 1 + 1)); // 28
}

#[test]
fn format_12h_pm_no_dst_same_date() {
    let t = TimeParts { hour: 15, minute: 7, is_dst: false, date_differs: false, weekday: 3 };
    let row = format_row("Los Angeles", Some(t), false);
    assert_eq!(row.len(), row_width(false));
    assert_eq!(s(&row), "LOS ANGELES       3:07 PM      ");
}

#[test]
fn format_12h_am_dst_and_day_shown() {
    let t = TimeParts { hour: 0, minute: 5, is_dst: true, date_differs: true, weekday: 3 };
    let row = format_row("Tokyo", Some(t), false);
    assert_eq!(s(&row), "TOKYO            12:05 AM WED *");
}

#[test]
fn format_24h_has_no_ampm_column() {
    let t = TimeParts { hour: 9, minute: 4, is_dst: false, date_differs: false, weekday: 1 };
    let row = format_row("London", Some(t), true);
    assert_eq!(row.len(), row_width(true));
    assert_eq!(s(&row), "LONDON           09:04      ");
}

#[test]
fn day_only_shown_when_date_differs() {
    let same = TimeParts { hour: 9, minute: 0, is_dst: false, date_differs: false, weekday: 2 };
    let diff = TimeParts { hour: 9, minute: 0, is_dst: false, date_differs: true, weekday: 2 };
    assert!(!s(&format_row("X", Some(same), true)).contains("TUE"));
    assert!(s(&format_row("X", Some(diff), true)).contains("TUE"));
}

#[test]
fn unresolved_zone_renders_dashes() {
    let row = format_row("Nowhere", None, false);
    assert_eq!(row.len(), row_width(false));
    assert_eq!(s(&row), "NOWHERE          --:--         ");
}

#[test]
fn label_truncates_and_uppercases() {
    let t = TimeParts { hour: 1, minute: 0, is_dst: false, date_differs: false, weekday: 0 };
    let row = format_row("an extremely long name", Some(t), true);
    let label: String = row[..LABEL_CELLS].iter().collect();
    assert_eq!(label, "AN EXTREMELY LON");
}

#[test]
fn dst_active_compares_bias() {
    assert!(dst_active(-420, -480)); // PDT vs PST
    assert!(!dst_active(-480, -480));
}

#[test]
fn diff_cells_reports_changed_indices() {
    let a: Vec<char> = "12:00".chars().collect();
    let b: Vec<char> = "13:01".chars().collect();
    assert_eq!(diff_cells(&a, &b), vec![1, 4]);
    assert!(diff_cells(&a, &a).is_empty());
}

#[test]
fn weekday_abbr_maps_win32_dow() {
    assert_eq!(weekday_abbr(0), "SUN");
    assert_eq!(weekday_abbr(6), "SAT");
}

#[test]
fn grid_fits_and_centers() {
    // 6 cities, 24h (28 cols). scale 100 for an exact check.
    let g = compute_grid(1920, 1080, 100, 6, true);
    assert_eq!(g.cols, 28);
    assert_eq!(g.rows, 6);
    // by_w = 1920/28 = 68; by_h = 1080/8 = 135; min = 68.
    // scale 100 -> border 5% per side -> 90% of the full fit.
    assert_eq!(g.cell, 68 * 90 / 100);
    assert_eq!(g.origin_x, (1920 - 28 * g.cell) / 2);
    assert_eq!(g.origin_y, (1080 - 6 * g.cell) / 2);
}

#[test]
fn grid_scale_shrinks_cell() {
    let full = compute_grid(1920, 1080, 100, 6, true).cell;
    let half = compute_grid(1920, 1080, 50, 6, true).cell;
    assert!(half < full);
    assert!(half > full / 2, "scale curve must not be linear-to-zero");
}

#[test]
fn grid_scale_zero_keeps_clock_floor() {
    // Slider 0 must match the clock's floor: border 30% per side,
    // i.e. cells sized to 40% of the full fit — not 1px.
    let base = 1920 / 28; // horizontal fit wins at 1080p
    let g = compute_grid(1920, 1080, 0, 6, true);
    assert_eq!(g.cell, base * 40 / 100);
}

// ---- further cases

#[test]
fn weekday_out_of_range_is_placeholder() {
    assert_eq!(weekday_abbr(7), "???");
    assert_eq!(weekday_abbr(3), "WED");
}

#[test]
fn diff_cells_stops_at_shorter_row() {
    let a: Vec<char> = "abc".chars().collect();
    let b: Vec<char> = "axcdef".chars().collect();
    assert_eq!(diff_cells(&a, &b), vec![1]);
}

#[test]
fn row_with_upper_label_given() {
    let row = format_row_upper("PARIS", None, true);
    assert_eq!(s(&row), "PARIS            --:--      ");
    // the label is taken as given: lower case stays lower case here
    let row = format_row_upper("paris", None, true);
    assert_eq!(&s(&row)[..5], "paris");
}

#[test]
fn grid_without_cities_still_sizes_one_row() {
    let g = compute_grid(1920, 1080, 100, 0, false);
    assert_eq!(g.rows, 0);
    assert_eq!(g.cols, 31);
    assert_eq!(g.cell, (1920 / 31) * 90 / 100);
    assert_eq!(g.origin_y, (1080 - g.cell) / 2);
}

#[test]
fn grid_cell_never_below_one() {
    let g = compute_grid(10, 10, 0, 6, true);
    assert_eq!(g.cell, 1);
}

#[test]
fn row_12h_noon_and_hour_24() {
    let t = TimeParts { hour: 12, minute: 0, is_dst: false, date_differs: false, weekday: 0 };
    assert_eq!(s(&format_row("a", Some(t), false)), "A                12:00 PM      ");
}

#[test]
fn grid_cell_grows_with_scale_and_always_fits() {
    for &(w, h, n, is_24h) in &[(1920, 1080, 6usize, true), (320, 240, 3, false), (1080, 1920, 0, false)] {
        let mut prev = 0;
        for s in 0..=100 {
            let g = compute_grid(w, h, s, n, is_24h);
            assert!(g.cell >= prev.max(1));
            prev = g.cell;
            let rows = n.max(1) as i32;
            assert!(g.cols as i32 * g.cell <= w);
            assert!((rows + 2) * g.cell <= h);
            assert_eq!(g.origin_x, (w - g.cols as i32 * g.cell) / 2);
        }
    }
    // 1920x1080, 6 cities, 24h: 61/2 < cell at 50 < cell at 100 == 61
    let half = compute_grid(1920, 1080, 50, 6, true).cell;
    assert!(61 / 2 < half && half < 61);
    assert_eq!(compute_grid(1920, 1080, 100, 6, true).cell, 61);
}

#[test]
fn grid_range_check_matches_overflow() {
    assert!(grid_in_range(1920, 1080, 100, 6, true));
    assert!(grid_in_range(1920, 1080, 20_000, 6, false));
    // too many cities for the row count
    assert!(!grid_in_range(1920, 1080, 70, 0x7FFF_FFFE, true));
    // base * frac overflows
    assert!(!grid_in_range(i32::MAX, i32::MAX, -2_000_000_000, 0, true));
}
