use flipsaver::board::TimeParts;
use flipsaver::saver::{
    anim_done, board_fast_tick, board_glyphs, board_tick, clock_fast_tick, clock_prime, clock_tick,
    handle_input, pointer_moved,
    use_board, Input, Anim, CellAnim, CellState, ClockState, UNPRIMED,
};
use flipsaver::settings::Mode;

fn unprimed() -> ClockState {
    ClockState { shown: (UNPRIMED, UNPRIMED), hours_anim: None, minutes_anim: None }
}

#[test]
fn anim_done_after_flip_duration() {
    assert!(!anim_done(1599, 1000));
    assert!(anim_done(1600, 1000));
    // a clock behind the start counts as no time elapsed
    assert!(!anim_done(10, 1000));
}

#[test]
fn first_tick_primes_without_flipping() {
    let mut st = unprimed();
    let a = clock_tick(&mut st, 9, 30, true, 5);
    assert_eq!(st.shown, (9, 30));
    assert!(st.hours_anim.is_none() && st.minutes_anim.is_none());
    assert!(a.invalidate && !a.animate);
}

#[test]
fn minute_change_flips_minutes_only() {
    let mut st = ClockState { shown: (9, 30), hours_anim: None, minutes_anim: None };
    let a = clock_tick(&mut st, 9, 31, true, 77);
    assert_eq!(st.shown, (9, 31));
    assert_eq!(st.minutes_anim, Some(Anim { from: 30, to: 31, start_ms: 77 }));
    assert!(st.hours_anim.is_none());
    assert!(a.invalidate && a.animate);
}

#[test]
fn disabled_flip_snaps() {
    let mut st = ClockState { shown: (9, 59), hours_anim: None, minutes_anim: None };
    let a = clock_tick(&mut st, 10, 0, false, 77);
    assert_eq!(st.shown, (10, 0));
    assert!(st.hours_anim.is_none() && st.minutes_anim.is_none());
    assert!(a.invalidate && !a.animate);
}

#[test]
fn unchanged_time_does_nothing() {
    let mut st = ClockState { shown: (9, 59), hours_anim: None, minutes_anim: None };
    let a = clock_tick(&mut st, 9, 59, true, 77);
    assert!(!a.invalidate && !a.animate);
}

#[test]
fn fast_tick_retires_finished_flips() {
    let mut st = ClockState {
        shown: (10, 0),
        hours_anim: Some(Anim { from: 9, to: 10, start_ms: 0 }),
        minutes_anim: Some(Anim { from: 59, to: 0, start_ms: 500 }),
    };
    assert!(clock_fast_tick(&mut st, 700));
    assert!(st.hours_anim.is_none());
    assert!(st.minutes_anim.is_some());
    assert!(!clock_fast_tick(&mut st, 1100));
    assert!(st.minutes_anim.is_none());
}

fn cells(s: &str) -> Vec<CellState> {
    s.chars().map(|c| CellState { glyph: c, anim: None }).collect()
}

#[test]
fn board_tick_flips_changed_cells() {
    let mut c = cells("12:00");
    let next: Vec<char> = "13:01".chars().collect();
    let a = board_tick(&mut c, &next, true, 42);
    assert!(a.invalidate && a.animate);
    assert_eq!(c[1], CellState { glyph: '3', anim: Some(CellAnim { from: '2', to: '3', start_ms: 42 }) });
    assert_eq!(c[0], CellState { glyph: '1', anim: None });
    assert_eq!(c[4].glyph, '1');
}

#[test]
fn board_tick_settles_without_flip() {
    let mut c = cells("ab");
    let next: Vec<char> = "ax".chars().collect();
    let a = board_tick(&mut c, &next, false, 42);
    assert!(a.invalidate && !a.animate);
    assert_eq!(c[1], CellState { glyph: 'x', anim: None });
    let a = board_tick(&mut c, &next, true, 50);
    assert!(!a.invalidate && !a.animate);
}

#[test]
fn board_fast_tick_retires() {
    let mut c = vec![
        CellState { glyph: 'a', anim: Some(CellAnim { from: 'b', to: 'a', start_ms: 0 }) },
        CellState { glyph: 'c', anim: Some(CellAnim { from: 'd', to: 'c', start_ms: 300 }) },
    ];
    assert!(board_fast_tick(&mut c, 700));
    assert!(c[0].anim.is_none() && c[1].anim.is_some());
    assert!(!board_fast_tick(&mut c, 900));
}

#[test]
fn pointer_quits_only_on_a_different_position() {
    assert_eq!(pointer_moved(None, (5, 5)), (Some((5, 5)), false));
    assert_eq!(pointer_moved(Some((5, 5)), (5, 5)), (Some((5, 5)), false));
    assert_eq!(pointer_moved(Some((5, 5)), (6, 5)), (Some((6, 5)), true));
}

#[test]
fn board_needs_world_mode_and_a_resolved_zone() {
    assert!(use_board(Mode::World, &[false, true]));
    assert!(!use_board(Mode::World, &[false, false]));
    assert!(!use_board(Mode::World, &[]));
    assert!(!use_board(Mode::Clock, &[true]));
}

#[test]
fn board_glyphs_rows_in_order() {
    let t = TimeParts { hour: 9, minute: 4, is_dst: false, date_differs: false, weekday: 1 };
    let zones = vec![("London".to_string(), Some(t)), ("Nowhere".to_string(), None)];
    let g: String = board_glyphs(&zones, 5, true).into_iter().collect();
    assert_eq!(g, "LONDON           09:04      NOWHERE          --:--      ");
    let g = board_glyphs(&zones, 1, true);
    assert_eq!(g.len(), 28);
}

#[test]
fn first_paint_primes_only_an_unprimed_face() {
    let mut st = unprimed();
    clock_prime(&mut st, 9, 41);
    assert_eq!(st.shown, (9, 41));
    assert!(st.hours_anim.is_none() && st.minutes_anim.is_none());
    clock_prime(&mut st, 10, 0);
    assert_eq!(st.shown, (9, 41));
}

#[test]
fn a_started_flip_plays_for_the_full_duration() {
    let mut st = ClockState { shown: (8, 59), hours_anim: None, minutes_anim: None };
    let a = clock_tick(&mut st, 9, 0, true, 10_000);
    assert!(a.animate && a.invalidate);
    let mut early = st;
    assert!(clock_fast_tick(&mut early, 10_599));
    assert!(early.hours_anim.is_some() && early.minutes_anim.is_some());
    assert!(!clock_fast_tick(&mut st, 10_600));
    assert!(st.hours_anim.is_none() && st.minutes_anim.is_none());
}

#[test]
fn fullscreen_quits_on_press_and_moved_pointer_preview_never() {
    // full screen: any key or button press quits, position kept
    assert_eq!(handle_input(false, Some((1, 2)), Input::Press), (Some((1, 2)), true));
    assert_eq!(handle_input(false, None, Input::Press), (None, true));
    // the first reported position is remembered, a different one quits
    assert_eq!(handle_input(false, None, Input::PointerMove(5, 5)), (Some((5, 5)), false));
    assert_eq!(handle_input(false, Some((5, 5)), Input::PointerMove(5, 5)), (Some((5, 5)), false));
    assert_eq!(handle_input(false, Some((5, 5)), Input::PointerMove(6, 5)), (Some((6, 5)), true));
    // preview: nothing quits and nothing is remembered
    assert_eq!(handle_input(true, None, Input::Press), (None, false));
    assert_eq!(handle_input(true, Some((5, 5)), Input::PointerMove(9, 9)), (Some((5, 5)), false));
}
