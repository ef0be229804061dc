//! Per-window decisions of the running screensaver: when to start a flip,
//! when a flip is over, when to quit on pointer movement, and which mode a
//! monitor runs in. The window procedure performs what these return.

use vstd::prelude::*;
use crate::board::{TimeParts, diff_cells, diff_spec, format_row, min_len, row_spec, unicode_upper};
use crate::clock::FLIP_DURATION_MS;
use crate::settings::Mode;

verus! {

/// A box's in-flight flip: old value folding to the new one since `start_ms`.
#[derive(Debug, Clone, Copy, PartialEq, Eq, Structural)]
pub struct Anim {
    pub from: u32,
    pub to: u32,
    pub start_ms: u64,
}

/// A cell's in-flight flip: old glyph folding to the new one since `start_ms`.
#[derive(Debug, Clone, Copy, PartialEq, Eq, Structural)]
pub struct CellAnim {
    pub from: char,
    pub to: char,
    pub start_ms: u64,
}

/// A board cell's settled glyph, with room for an in-flight flip.
#[derive(Debug, Clone, Copy, PartialEq, Eq, Structural)]
pub struct CellState {
    pub glyph: char,
    pub anim: Option<CellAnim>,
}

/// The clock face state of one window. `shown == (UNPRIMED, UNPRIMED)`
/// until the first paint has read the time.
#[derive(Debug, Clone, Copy, PartialEq, Eq)]
pub struct ClockState {
    pub shown: (u32, u32),
    pub hours_anim: Option<Anim>,
    pub minutes_anim: Option<Anim>,
}

/// The not-yet-primed sentinel for `ClockState::shown`.
pub const UNPRIMED: u32 = 61;

/// What the window procedure does after a tick.
#[derive(Debug, Clone, Copy, PartialEq, Eq, Structural)]
pub struct TickAction {
    /// Start (or keep) the fast animation timer.
    pub animate: bool,
    /// Repaint the window.
    pub invalidate: bool,
}

pub open spec fn elapsed(now_ms: u64, start_ms: u64) -> int {
    if now_ms >= start_ms {
        now_ms - start_ms
    } else {
        0
    }
}

/// Whether a flip started at `start_ms` has played out at `now_ms`
/// (`progress = elapsed / FLIP_MS >= 1`; the clock may not go backwards
/// past the start, which counts as no time elapsed).
pub open spec fn done_spec(now_ms: u64, start_ms: u64) -> bool {
    elapsed(now_ms, start_ms) >= FLIP_DURATION_MS
}

pub fn anim_done(now_ms: u64, start_ms: u64) -> (r: bool)
    ensures
        r == done_spec(now_ms, start_ms),
{
    now_ms.saturating_sub(start_ms) >= FLIP_DURATION_MS
}

/// First paint of a clock window: an unprimed face takes the current
/// time without flipping; a primed one is left as it is.
pub fn clock_prime(st: &mut ClockState, hour: u32, minute: u32)
    ensures
        final(st).shown == (if old(st).shown == (UNPRIMED, UNPRIMED) {
            (hour, minute)
        } else {
            old(st).shown
        }),
        final(st).hours_anim == old(st).hours_anim,
        final(st).minutes_anim == old(st).minutes_anim,
{
    if st.shown.0 == UNPRIMED && st.shown.1 == UNPRIMED {
        st.shown = (hour, minute);
    }
}

/// The once-a-second tick of a clock window showing local time `hour:minute`.
pub open spec fn clock_tick_spec(st: ClockState, hour: u32, minute: u32, flip_enabled: bool, now_ms: u64) -> (ClockState, TickAction) {
    let primed = st.shown != (UNPRIMED, UNPRIMED);
    let flip_h = primed && hour != st.shown.0 && flip_enabled;
    let flip_m = primed && minute != st.shown.1 && flip_enabled;
    let changed = (hour, minute) != st.shown;
    (
        ClockState {
            shown: if changed {
                (hour, minute)
            } else {
                st.shown
            },
            hours_anim: if flip_h {
                Some(Anim { from: st.shown.0, to: hour, start_ms: now_ms })
            } else {
                st.hours_anim
            },
            minutes_anim: if flip_m {
                Some(Anim { from: st.shown.1, to: minute, start_ms: now_ms })
            } else {
                st.minutes_anim
            },
        },
        TickAction { animate: changed && (flip_h || flip_m), invalidate: changed },
    )
}

/// A flip that a tick starts goes from the value shown before the tick to
/// the value shown after it, starting at the tick; the face then shows the
/// ticked time.
pub proof fn lemma_tick_flips_old_to_new(st: ClockState, hour: u32, minute: u32, flip_enabled: bool, now_ms: u64)
    ensures
        ({
            let st2 = clock_tick_spec(st, hour, minute, flip_enabled, now_ms).0;
            &&& st2.shown == (hour, minute)
            &&& st2.hours_anim != st.hours_anim ==> st2.hours_anim == Some(
                Anim { from: st.shown.0, to: st2.shown.0, start_ms: now_ms },
            )
            &&& st2.minutes_anim != st.minutes_anim ==> st2.minutes_anim == Some(
                Anim { from: st.shown.1, to: st2.shown.1, start_ms: now_ms },
            )
            &&& st2.hours_anim != st.hours_anim ==> st.shown.0 != hour
            &&& st2.minutes_anim != st.minutes_anim ==> st.shown.1 != minute
        }),
        ({
            let (st2, a) = clock_tick_spec(st, hour, minute, flip_enabled, now_ms);
            let primed = st.shown != (UNPRIMED, UNPRIMED);
            // with flips off, or on the first tick of an unprimed face,
            // nothing flips
            &&& !(flip_enabled && primed) ==> st2.hours_anim == st.hours_anim
                && st2.minutes_anim == st.minutes_anim && !a.animate
            // with flips on, each changed half of a primed face flips
            &&& flip_enabled && primed && st.shown.0 != hour ==> st2.hours_anim != st.hours_anim
                || st.hours_anim == Some(Anim { from: st.shown.0, to: hour, start_ms: now_ms })
            &&& flip_enabled && primed && st.shown.1 != minute ==> st2.minutes_anim != st.minutes_anim
                || st.minutes_anim == Some(Anim { from: st.shown.1, to: minute, start_ms: now_ms })
            // the window repaints exactly when the shown time changes, and
            // runs the frame timer exactly when that change flips
            &&& a.invalidate == (st.shown != (hour, minute))
            &&& a.animate == (a.invalidate && flip_enabled && primed)
        }),
{
}

/// Once-a-second tick of a clock window: a changed hour or minute flips
/// (when flips are on and the face was already primed) and repaints.
pub fn clock_tick(st: &mut ClockState, hour: u32, minute: u32, flip_enabled: bool, now_ms: u64) -> (r: TickAction)
    ensures
        (*final(st), r) == clock_tick_spec(*old(st), hour, minute, flip_enabled, now_ms),
        final(st).shown == (hour, minute),
        final(st).hours_anim != old(st).hours_anim ==> final(st).hours_anim == Some(
            Anim { from: old(st).shown.0, to: hour, start_ms: now_ms },
        ),
        final(st).minutes_anim != old(st).minutes_anim ==> final(st).minutes_anim == Some(
            Anim { from: old(st).shown.1, to: minute, start_ms: now_ms },
        ),
{
    proof {
        lemma_tick_flips_old_to_new(*old(st), hour, minute, flip_enabled, now_ms);
    }
    let primed = !(st.shown.0 == UNPRIMED && st.shown.1 == UNPRIMED);
    let mut started = false;
    if primed && hour != st.shown.0 && flip_enabled {
        st.hours_anim = Some(Anim { from: st.shown.0, to: hour, start_ms: now_ms });
        started = true;
    }
    if primed && minute != st.shown.1 && flip_enabled {
        st.minutes_anim = Some(Anim { from: st.shown.1, to: minute, start_ms: now_ms });
        started = true;
    }
    if hour != st.shown.0 || minute != st.shown.1 {
        st.shown = (hour, minute);
        TickAction { animate: started, invalidate: true }
    } else {
        TickAction { animate: false, invalidate: false }
    }
}

pub open spec fn retire(a: Option<Anim>, now_ms: u64) -> Option<Anim> {
    match a {
        Some(x) => if done_spec(now_ms, x.start_ms) {
            None
        } else {
            a
        },
        None => None,
    }
}

/// Fast tick of a clock window: finished flips are dropped; returns
/// whether any flip is still running (else the fast timer stops).
pub fn clock_fast_tick(st: &mut ClockState, now_ms: u64) -> (active: bool)
    ensures
        final(st).shown == old(st).shown,
        final(st).hours_anim == retire(old(st).hours_anim, now_ms),
        final(st).minutes_anim == retire(old(st).minutes_anim, now_ms),
        active == (final(st).hours_anim is Some || final(st).minutes_anim is Some),
{
    if let Some(a) = st.hours_anim {
        if anim_done(now_ms, a.start_ms) {
            st.hours_anim = None;
        }
    }
    if let Some(a) = st.minutes_anim {
        if anim_done(now_ms, a.start_ms) {
            st.minutes_anim = None;
        }
    }
    st.hours_anim.is_some() || st.minutes_anim.is_some()
}

pub open spec fn glyphs(cells: Seq<CellState>) -> Seq<char> {
    cells.map_values(|c: CellState| c.glyph)
}

/// Cell `i` after a board tick towards `next`.
pub open spec fn cell_after_tick(c: CellState, i: int, next: Seq<char>, n: int, flip_enabled: bool, now_ms: u64) -> CellState {
    if i < n && c.glyph != next[i] {
        CellState {
            glyph: next[i],
            anim: if flip_enabled {
                Some(CellAnim { from: c.glyph, to: next[i], start_ms: now_ms })
            } else {
                c.anim
            },
        }
    } else {
        c
    }
}

/// A board tick settles every compared cell on its new glyph, and a flip it
/// starts goes from the glyph shown before to that new glyph, starting at
/// the tick.
pub proof fn lemma_cell_flips_old_to_new(c: CellState, i: int, next: Seq<char>, n: int, flip_enabled: bool, now_ms: u64)
    requires
        0 <= i < n <= next.len(),
    ensures
        ({
            let c2 = cell_after_tick(c, i, next, n, flip_enabled, now_ms);
            &&& c2.glyph == next[i]
            &&& c2.anim != c.anim ==> c2.anim == Some(
                CellAnim { from: c.glyph, to: c2.glyph, start_ms: now_ms },
            )
            &&& c2.anim != c.anim ==> c.glyph != c2.glyph
            // an unchanged glyph leaves the cell as it was
            &&& c.glyph == next[i] ==> c2 == c
            // a changed glyph flips when flips are on, else snaps
            &&& c.glyph != next[i] && flip_enabled ==> c2.anim == Some(
                CellAnim { from: c.glyph, to: next[i], start_ms: now_ms },
            )
            &&& !flip_enabled ==> c2.anim == c.anim
        }),
{
}

/// Once-a-second tick of a board window: every cell whose glyph differs
/// from `next` settles on the new glyph, flipping to it when flips are on.
pub fn board_tick(cells: &mut Vec<CellState>, next: &Vec<char>, flip_enabled: bool, now_ms: u64) -> (r: TickAction)
    ensures
        final(cells)@.len() == old(cells)@.len(),
        forall|i: int|
            0 <= i < old(cells)@.len() ==> #[trigger] final(cells)@[i] == cell_after_tick(
                old(cells)@[i],
                i,
                next@,
                min_len(old(cells)@.len(), next@.len()),
                flip_enabled,
                now_ms,
            ),
        r.invalidate == (diff_spec(glyphs(old(cells)@), next@, min_len(old(cells)@.len(), next@.len())).len() > 0),
        r.animate == (r.invalidate && flip_enabled),
{
    let mut old_glyphs: Vec<char> = Vec::new();
    let n0 = cells.len();
    let mut i: usize = 0;
    while i < n0
        invariant
            i <= n0 == cells@.len(),
            old_glyphs@ == glyphs(cells@).take(i as int),
        decreases n0 - i,
    {
        old_glyphs.push(cells[i].glyph);
        assert(glyphs(cells@).take(i + 1) =~= glyphs(cells@).take(i as int).push(cells@[i as int].glyph));
        i = i + 1;
    }
    assert(glyphs(cells@).take(n0 as int) =~= glyphs(cells@));
    let changed = diff_cells(old_glyphs.as_slice(), next.as_slice());
    let n = if n0 <= next.len() {
        n0
    } else {
        next.len()
    };
    let ghost before = cells@;
    let mut k: usize = 0;
    while k < n
        invariant
            k <= n,
            n == min_len(before.len(), next@.len()),
            cells@.len() == before.len(),
            forall|j: int|
                0 <= j < before.len() ==> #[trigger] cells@[j] == if j < k {
                    cell_after_tick(before[j], j, next@, n as int, flip_enabled, now_ms)
                } else {
                    before[j]
                },
        decreases n - k,
    {
        let c = cells[k];
        if c.glyph != next[k] {
            let anim = if flip_enabled {
                Some(CellAnim { from: c.glyph, to: next[k], start_ms: now_ms })
            } else {
                c.anim
            };
            cells.set(k, CellState { glyph: next[k], anim });
        }
        k = k + 1;
    }
    let any = changed.len() > 0;
    TickAction { animate: any && flip_enabled, invalidate: any }
}

/// Fast tick of a board window: finished cell flips are dropped; returns
/// whether any flip is still running.
pub fn board_fast_tick(cells: &mut Vec<CellState>, now_ms: u64) -> (active: bool)
    ensures
        final(cells)@.len() == old(cells)@.len(),
        forall|i: int|
            0 <= i < old(cells)@.len() ==> (#[trigger] final(cells)@[i]).glyph == old(cells)@[i].glyph
                && final(cells)@[i].anim == match old(cells)@[i].anim {
                Some(a) => if done_spec(now_ms, a.start_ms) {
                    None
                } else {
                    Some(a)
                },
                None => None,
            },
        active == exists|i: int| 0 <= i < final(cells)@.len() && (#[trigger] final(cells)@[i]).anim is Some,
{
    let ghost before = cells@;
    let n = cells.len();
    let mut any_active = false;
    let mut i: usize = 0;
    while i < n
        invariant
            i <= n == cells@.len() == before.len(),
            forall|j: int|
                i <= j < n ==> #[trigger] cells@[j] == before[j],
            forall|j: int|
                0 <= j < i ==> (#[trigger] cells@[j]).glyph == before[j].glyph && cells@[j].anim
                    == match before[j].anim {
                    Some(a) => if done_spec(now_ms, a.start_ms) {
                        None
                    } else {
                        Some(a)
                    },
                    None => None,
                },
            any_active == exists|j: int| 0 <= j < i && (#[trigger] cells@[j]).anim is Some,
        decreases n - i,
    {
        let ghost prev = cells@;
        let c = cells[i];
        if let Some(a) = c.anim {
            if anim_done(now_ms, a.start_ms) {
                cells.set(i, CellState { glyph: c.glyph, anim: None });
            } else {
                any_active = true;
            }
        }
        proof {
            assert forall|j: int| 0 <= j < i implies #[trigger] cells@[j] == prev[j] by {}
            if any_active {
                if cells@[i as int].anim is Some {
                    assert(0 <= i < i + 1 && cells@[i as int].anim is Some);
                } else {
                    let w = choose|j: int| 0 <= j < i && (#[trigger] prev[j]).anim is Some;
                    assert(cells@[w] == prev[w]);
                }
            } else {
                assert(cells@[i as int].anim is None);
                assert forall|j: int| 0 <= j < i + 1 implies !((#[trigger] cells@[j]).anim is Some) by {
                    if j < i {
                        assert(cells@[j] == prev[j]);
                    }
                }
            }
        }
        i = i + 1;
    }
    any_active
}

/// A flip that a tick starts at `now_ms` plays for exactly
/// `FLIP_DURATION_MS`: a fast tick at `later_ms` retires it exactly when
/// that much time has passed.
pub proof fn lemma_flip_duration(
    st: ClockState,
    hour: u32,
    minute: u32,
    flip_enabled: bool,
    now_ms: u64,
    later_ms: u64,
)
    requires
        now_ms <= later_ms,
    ensures
        ({
            let st2 = clock_tick_spec(st, hour, minute, flip_enabled, now_ms).0;
            &&& st2.hours_anim != st.hours_anim ==> (retire(st2.hours_anim, later_ms) is None
                <==> later_ms - now_ms >= FLIP_DURATION_MS)
            &&& st2.minutes_anim != st.minutes_anim ==> (retire(st2.minutes_anim, later_ms) is None
                <==> later_ms - now_ms >= FLIP_DURATION_MS)
        }),
{
}

/// Full-screen pointer rule: the first reported position is remembered (a
/// synthetic move arrives on window creation), any different later one
/// quits. Returns (remembered position, quit).
pub fn pointer_moved(prev: Option<(i32, i32)>, pt: (i32, i32)) -> (r: (Option<(i32, i32)>, bool))
    ensures
        r.0 == Some(pt),
        r.1 == (match prev {
            Some(p) => p != pt,
            None => false,
        }),
{
    let quit = match prev {
        Some(p) => p.0 != pt.0 || p.1 != pt.1,
        None => false,
    };
    (Some(pt), quit)
}

/// User input that reaches a saver window.
#[derive(Debug, Clone, Copy, PartialEq, Eq, Structural)]
pub enum Input {
    /// The pointer is reported at this client position.
    PointerMove(i32, i32),
    /// A key press (system keys included) or a mouse button press.
    Press,
}

/// What an input does to a saver window with remembered pointer position
/// `mouse`: returns the new remembered position and whether to quit. A
/// preview window ignores input (it closes with its parent). A full-screen
/// window quits on any key or button press, and on a pointer move away
/// from the first position reported (see `pointer_moved`).
pub fn handle_input(is_preview: bool, mouse: Option<(i32, i32)>, input: Input) -> (r: (Option<(i32, i32)>, bool))
    ensures
        is_preview ==> r == (mouse, false),
        !is_preview ==> r == (match input {
            Input::PointerMove(x, y) => (
                Some((x, y)),
                match mouse {
                    Some(p) => p != (x, y),
                    None => false,
                },
            ),
            Input::Press => (mouse, true),
        }),
{
    if is_preview {
        return (mouse, false);
    }
    match input {
        Input::PointerMove(x, y) => pointer_moved(mouse, (x, y)),
        Input::Press => (mouse, true),
    }
}

/// A monitor runs the world board only when set to World and at least
/// one of its zones resolved; otherwise it falls back to the clock.
pub fn use_board(mode: Mode, resolved: &[bool]) -> (r: bool)
    ensures
        r == (mode == Mode::World && exists|i: int| 0 <= i < resolved@.len() && resolved@[i]),
{
    let is_world = match mode {
        Mode::World => true,
        Mode::Clock => false,
    };
    if !is_world {
        return false;
    }
    let mut i: usize = 0;
    while i < resolved.len()
        invariant
            i <= resolved@.len(),
            mode == Mode::World,
            forall|j: int| 0 <= j < i ==> !resolved@[j],
        decreases resolved@.len() - i,
    {
        if resolved[i] {
            assert(resolved@[i as int]);
            return true;
        }
        i = i + 1;
    }
    false
}

/// The board's glyphs, row after row: the first `rows` zones formatted.
pub open spec fn board_glyphs_spec(zones: Seq<(Seq<char>, Option<TimeParts>)>, rows: int, is_24h: bool) -> Seq<char>
    decreases rows,
{
    if rows <= 0 || zones.len() == 0 {
        Seq::empty()
    } else {
        let n = if rows <= zones.len() {
            rows
        } else {
            zones.len() as int
        };
        board_glyphs_spec(zones, n - 1, is_24h) + row_spec(unicode_upper(zones[n - 1].0), zones[n - 1].1, is_24h)
    }
}

/// Row-major glyph grid of a board from its zones' labels and local times
/// (`None`: unresolved zone, shown as `--:--`); at most `rows` rows.
pub fn board_glyphs(zones: &[(String, Option<TimeParts>)], rows: usize, is_24h: bool) -> (r: Vec<char>)
    ensures
        r@ == board_glyphs_spec(zones@.map_values(|z: (String, Option<TimeParts>)| (z.0@, z.1)), rows as int, is_24h),
{
    let ghost zv = zones@.map_values(|z: (String, Option<TimeParts>)| (z.0@, z.1));
    let n = if rows <= zones.len() {
        rows
    } else {
        zones.len()
    };
    let mut cells: Vec<char> = Vec::new();
    let mut i: usize = 0;
    while i < n
        invariant
            i <= n <= zones@.len(),
            n <= rows,
            zv == zones@.map_values(|z: (String, Option<TimeParts>)| (z.0@, z.1)),
            cells@ == board_glyphs_spec(zv, i as int, is_24h),
        decreases n - i,
    {
        let row = format_row(zones[i].0.as_str(), zones[i].1, is_24h);
        let ghost before = cells@;
        let mut k: usize = 0;
        while k < row.len()
            invariant
                k <= row@.len(),
                cells@ == before + row@.take(k as int),
            decreases row@.len() - k,
        {
            cells.push(row[k]);
            assert(row@.take(k + 1) =~= row@.take(k as int).push(row@[k as int]));
            k = k + 1;
        }
        assert(row@.take(row@.len() as int) =~= row@);
        assert(zv[i as int] == (zones@[i as int].0@, zones@[i as int].1));
        i = i + 1;
    }
    proof {
        if rows > zones@.len() {
            assert(board_glyphs_spec(zv, rows as int, is_24h) == board_glyphs_spec(zv, n as int, is_24h)) by {
                if zones@.len() > 0 {
                }
            }
        }
    }
    cells
}

} // verus!
