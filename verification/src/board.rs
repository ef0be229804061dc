//! World-clock board: fixed-width rows of flap cells (city, time, AM/PM,
//! weekday, DST mark) and the grid they are laid out on.

use vstd::prelude::*;
use vstd::string::*;
use crate::clock::{border_percent, border_percent_spec, fits, fits128, tdiv};
use crate::text::{chars_of, dec, pad2, push_char, push_dec, take_upto};
use crate::clock::push_pad2;

verus! {

/// Cells reserved for the city label (left-aligned, uppercase).
pub const LABEL_CELLS: usize = 16;

/// One breathing row top and bottom so the block never touches the edges.
pub const MARGIN_ROWS: i32 = 2;

/// Precomputed inputs for one row. `weekday` is 0=Sun..6=Sat.
#[derive(Debug, Clone, Copy, PartialEq, Eq, Structural)]
pub struct TimeParts {
    pub hour: u32,
    pub minute: u32,
    pub is_dst: bool,
    pub date_differs: bool,
    pub weekday: u8,
}

#[derive(Debug, Clone, Copy, PartialEq, Eq, Structural)]
pub struct Grid {
    pub cols: usize,
    pub rows: usize,
    pub cell: i32,
    pub origin_x: i32,
    pub origin_y: i32,
}

// ------------------------------------------------------------------ spec

pub open spec fn right_block_width_spec(is_24h: bool) -> nat {
    if is_24h {
        5 + 1 + 3 + 1 + 1
    } else {
        5 + 1 + 2 + 1 + 3 + 1 + 1
    }
}

pub open spec fn row_width_spec(is_24h: bool) -> nat {
    LABEL_CELLS as nat + 1 + right_block_width_spec(is_24h)
}

pub open spec fn weekday_spec(dow: u8) -> Seq<char> {
    if dow == 0 {
        "SUN"@
    } else if dow == 1 {
        "MON"@
    } else if dow == 2 {
        "TUE"@
    } else if dow == 3 {
        "WED"@
    } else if dow == 4 {
        "THU"@
    } else if dow == 5 {
        "FRI"@
    } else if dow == 6 {
        "SAT"@
    } else {
        "???"@
    }
}

/// The English name of weekday `d`, upper-cased, in the operating
/// system's numbering (0 = Sunday .. 6 = Saturday).
pub open spec fn day_name(d: int) -> Seq<char> {
    seq!["SUNDAY"@, "MONDAY"@, "TUESDAY"@, "WEDNESDAY"@, "THURSDAY"@, "FRIDAY"@, "SATURDAY"@][d]
}

/// A weekday shows as the first three letters of its name (so 4 is THU
/// and 5 is FRI); a number outside 0..6 shows as `???`.
pub proof fn lemma_weekday_is_day_name(d: u8)
    ensures
        d < 7 ==> weekday_spec(d) == day_name(d as int).take(3),
        d >= 7 ==> weekday_spec(d) == "???"@,
{
    reveal_strlit("SUN");
    reveal_strlit("MON");
    reveal_strlit("TUE");
    reveal_strlit("WED");
    reveal_strlit("THU");
    reveal_strlit("FRI");
    reveal_strlit("SAT");
    reveal_strlit("SUNDAY");
    reveal_strlit("MONDAY");
    reveal_strlit("TUESDAY");
    reveal_strlit("WEDNESDAY");
    reveal_strlit("THURSDAY");
    reveal_strlit("FRIDAY");
    reveal_strlit("SATURDAY");
    if d == 0 {
        assert(day_name(0).take(3) =~= "SUN"@);
    } else if d == 1 {
        assert(day_name(1).take(3) =~= "MON"@);
    } else if d == 2 {
        assert(day_name(2).take(3) =~= "TUE"@);
    } else if d == 3 {
        assert(day_name(3).take(3) =~= "WED"@);
    } else if d == 4 {
        assert(day_name(4).take(3) =~= "THU"@);
    } else if d == 5 {
        assert(day_name(5).take(3) =~= "FRI"@);
    } else if d == 6 {
        assert(day_name(6).take(3) =~= "SAT"@);
    }
}

pub open spec fn spaces(n: nat) -> Seq<char> {
    Seq::new(n, |i: int| ' ')
}

/// `s` cut to `width` characters and padded with spaces to exactly `width`,
/// on the left when `right` (right-justified), else on the right.
pub open spec fn field(s: Seq<char>, width: nat, right: bool) -> Seq<char> {
    let c = take_upto(s, width as int);
    let pad = spaces((width - c.len()) as nat);
    if right {
        pad + c
    } else {
        c + pad
    }
}

/// 12h: `H:MM` (hour 1..12, no leading zero); 24h: `HH:MM`; `None`
/// renders the unresolved-zone placeholder.
pub open spec fn time_field_spec(t: Option<TimeParts>, is_24h: bool) -> Seq<char> {
    match t {
        None => "--:--"@,
        Some(t) => if is_24h {
            pad2(t.hour as nat) + seq![':'] + pad2(t.minute as nat)
        } else {
            dec(if t.hour % 12 == 0 { 12 } else { (t.hour % 12) as nat }) + seq![':'] + pad2(
                t.minute as nat,
            )
        },
    }
}

pub open spec fn ampm_spec(t: Option<TimeParts>) -> Seq<char> {
    match t {
        Some(t) => if t.hour >= 12 {
            "PM"@
        } else {
            "AM"@
        },
        None => Seq::empty(),
    }
}

pub open spec fn day_spec(t: Option<TimeParts>) -> Seq<char> {
    match t {
        Some(t) => if t.date_differs {
            weekday_spec(t.weekday)
        } else {
            Seq::empty()
        },
        None => Seq::empty(),
    }
}

pub open spec fn dst_spec(t: Option<TimeParts>) -> Seq<char> {
    match t {
        Some(t) => if t.is_dst {
            seq!['*']
        } else {
            Seq::empty()
        },
        None => Seq::empty(),
    }
}

/// One full row, given the label already upper-cased.
pub open spec fn row_spec(upper_label: Seq<char>, t: Option<TimeParts>, is_24h: bool) -> Seq<char> {
    let head = field(upper_label, LABEL_CELLS as nat, false) + seq![' '] + field(
        time_field_spec(t, is_24h),
        5,
        true,
    );
    let mid = if is_24h {
        head
    } else {
        head + seq![' '] + field(ampm_spec(t), 2, false)
    };
    mid + seq![' '] + field(day_spec(t), 3, false) + seq![' '] + field(dst_spec(t), 1, false)
}

/// The indices `i < n` at which `a` and `b` differ, ascending.
pub open spec fn diff_spec(a: Seq<char>, b: Seq<char>, n: int) -> Seq<usize>
    decreases n,
{
    if n <= 0 {
        Seq::empty()
    } else if a[n - 1] != b[n - 1] {
        diff_spec(a, b, n - 1).push((n - 1) as usize)
    } else {
        diff_spec(a, b, n - 1)
    }
}

// ------------------------------------------------------------------ exec

fn right_block_width(is_24h: bool) -> (r: usize)
    ensures
        r == right_block_width_spec(is_24h),
{
    if is_24h {
        5 + 1 + 3 + 1 + 1
    } else {
        5 + 1 + 2 + 1 + 3 + 1 + 1
    }
}

/// Total columns in one row: label + gap + right block.
pub fn row_width(is_24h: bool) -> (r: usize)
    ensures
        r == row_width_spec(is_24h),
{
    LABEL_CELLS + 1 + right_block_width(is_24h)
}

pub fn weekday_abbr(dow: u8) -> (r: &'static str)
    ensures
        r@ == weekday_spec(dow),
        dow < 7 ==> r@ == day_name(dow as int).take(3),
{
    proof {
        lemma_weekday_is_day_name(dow);
    }
    match dow {
        0 => "SUN",
        1 => "MON",
        2 => "TUE",
        3 => "WED",
        4 => "THU",
        5 => "FRI",
        6 => "SAT",
        _ => "???",
    }
}

/// A zone is in DST when the actually-applied bias differs from its
/// standard-season bias (both UTC-minus-local minutes).
pub fn dst_active(actual_bias: i32, standard_bias: i32) -> (r: bool)
    ensures
        r == (actual_bias != standard_bias),
{
    actual_bias != standard_bias
}

/// The changed cell indices between two rows (compared up to the shorter
/// length), ascending.
pub fn diff_cells(old: &[char], new: &[char]) -> (r: Vec<usize>)
    ensures
        r@ == diff_spec(old@, new@, min_len(old@.len(), new@.len())),
{
    let n = if old.len() <= new.len() {
        old.len()
    } else {
        new.len()
    };
    let mut r: Vec<usize> = Vec::new();
    let mut i: usize = 0;
    while i < n
        invariant
            i <= n,
            n <= old@.len(),
            n <= new@.len(),
            n == min_len(old@.len(), new@.len()),
            r@ == diff_spec(old@, new@, i as int),
        decreases n - i,
    {
        if old[i] != new[i] {
            r.push(i);
        }
        i = i + 1;
    }
    r
}

pub open spec fn min_len(a: nat, b: nat) -> int {
    if a <= b {
        a as int
    } else {
        b as int
    }
}

fn push_spaces(row: &mut Vec<char>, n: usize)
    ensures
        final(row)@ == old(row)@ + spaces(n as nat),
{
    let mut i: usize = 0;
    while i < n
        invariant
            i <= n,
            row@ == old(row)@ + spaces(i as nat),
        decreases n - i,
    {
        row.push(' ');
        i = i + 1;
        assert(row@ =~= old(row)@ + spaces(i as nat));
    }
}

fn push_str_field(row: &mut Vec<char>, s: &str, width: usize, right: bool)
    ensures
        final(row)@ == old(row)@ + field(s@, width as nat, right),
{
    let all = chars_of(s);
    let len = if all.len() <= width {
        all.len()
    } else {
        width
    };
    let pad = width - len;
    if right {
        push_spaces(row, pad);
    }
    let mut i: usize = 0;
    let ghost base = row@;
    while i < len
        invariant
            i <= len <= all@.len(),
            all@ == s@,
            row@ == base + all@.take(i as int),
        decreases len - i,
    {
        row.push(all[i]);
        assert(all@.take(i + 1) =~= all@.take(i as int).push(all@[i as int]));
        i = i + 1;
    }
    if !right {
        push_spaces(row, pad);
    }
    proof {
        let c = take_upto(s@, width as int);
        assert(all@.take(len as int) =~= c);
    }
    assert(final(row)@ =~= old(row)@ + field(s@, width as nat, right));
}

fn time_field(t: Option<TimeParts>, is_24h: bool) -> (r: String)
    ensures
        r@ == time_field_spec(t, is_24h),
{
    match t {
        None => String::from_str("--:--"),
        Some(t) => {
            let mut out = String::new();
            if is_24h {
                push_pad2(&mut out, t.hour);
            } else {
                let h12 = match t.hour % 12 {
                    0 => 12,
                    h => h,
                };
                push_dec(&mut out, h12 as u64);
            }
            push_char(&mut out, ':');
            push_pad2(&mut out, t.minute);
            out
        },
    }
}

/// `str::to_uppercase`: the full Unicode upper-case mapping of `s`.
pub uninterp spec fn unicode_upper(s: Seq<char>) -> Seq<char>;

/// Calls `str::to_uppercase`; the result is named `unicode_upper` of the
/// argument, and nothing more is stated of it.
#[verifier::external_body]
fn to_uppercase(s: &str) -> (r: String)
    ensures
        r@ == unicode_upper(s@),
{
    s.to_uppercase()
}

/// One full row as fixed-width cells, from a label that is already
/// upper-cased. `time == None` is an unresolved timezone: label +
/// `--:--`, all other fields blank.
pub fn format_row_upper(upper_label: &str, time: Option<TimeParts>, is_24h: bool) -> (r: Vec<char>)
    ensures
        r@ == row_spec(upper_label@, time, is_24h),
        r@.len() == row_width_spec(is_24h),
{
    let mut row: Vec<char> = Vec::new();
    push_str_field(&mut row, upper_label, LABEL_CELLS, false);
    row.push(' ');
    let tf = time_field(time, is_24h);
    push_str_field(&mut row, tf.as_str(), 5, true);
    if !is_24h {
        row.push(' ');
        let ampm = match time {
            Some(t) => if t.hour >= 12 {
                "PM"
            } else {
                "AM"
            },
            None => "",
        };
        push_str_field(&mut row, ampm, 2, false);
    }
    row.push(' ');
    let day = match time {
        Some(t) => if t.date_differs {
            weekday_abbr(t.weekday)
        } else {
            ""
        },
        None => "",
    };
    push_str_field(&mut row, day, 3, false);
    row.push(' ');
    let dst = match time {
        Some(t) => if t.is_dst {
            "*"
        } else {
            ""
        },
        None => "",
    };
    push_str_field(&mut row, dst, 1, false);
    proof {
        reveal_strlit("");
        reveal_strlit("*");
        assert(seq!['*'] =~= "*"@);
        assert(Seq::<char>::empty() =~= ""@);
        assert(row@ =~= row_spec(upper_label@, time, is_24h));
    }
    row
}

/// One full row as fixed-width cells (length == `row_width`). Label left
/// (upper-cased, cut to `LABEL_CELLS`), everything else in the right
/// block; blank fields are spaces so the grid geometry is stable.
pub fn format_row(label: &str, time: Option<TimeParts>, is_24h: bool) -> (r: Vec<char>)
    ensures
        r@ == row_spec(unicode_upper(label@), time, is_24h),
        r@.len() == row_width_spec(is_24h),
{
    let upper = to_uppercase(label);
    format_row_upper(upper.as_str(), time, is_24h)
}

/// The board grid for a `width` x `height` window: the cell side is the
/// smaller of the horizontal fit (one widest row) and the vertical fit
/// (all rows plus margin), scaled through the clock's border curve, at
/// least 1; the block of cells is centered.
pub open spec fn grid_spec(width: int, height: int, scale: int, city_count: nat, is_24h: bool) -> Grid {
    let cols = row_width_spec(is_24h) as int;
    let rows = if city_count >= 1 {
        city_count as int
    } else {
        1
    };
    let by_w = tdiv(width, cols);
    let by_h = tdiv(height, rows + MARGIN_ROWS);
    let fit = if by_w <= by_h {
        by_w
    } else {
        by_h
    };
    let base = if fit >= 1 {
        fit
    } else {
        1
    };
    let frac = 100 - 2 * border_percent_spec(scale);
    let scaled = tdiv(base * frac, 100);
    let cell = if scaled >= 1 {
        scaled
    } else {
        1
    };
    Grid {
        cols: cols as usize,
        rows: city_count as usize,
        cell: cell as i32,
        origin_x: tdiv(width - cols * cell, 2) as i32,
        origin_y: tdiv(height - rows * cell, 2) as i32,
    }
}

/// No intermediate value of `compute_grid` overflows.
pub open spec fn grid_fits(width: int, height: int, scale: int, city_count: nat, is_24h: bool) -> bool {
    let cols = row_width_spec(is_24h) as int;
    let rows = if city_count >= 1 {
        city_count as int
    } else {
        1
    };
    let by_w = tdiv(width, cols);
    let by_h = tdiv(height, rows + MARGIN_ROWS);
    let base = if by_w <= by_h {
        if by_w >= 1 {
            by_w
        } else {
            1
        }
    } else {
        if by_h >= 1 {
            by_h
        } else {
            1
        }
    };
    let frac = 100 - 2 * border_percent_spec(scale);
    let cell = grid_spec(width, height, scale, city_count, is_24h).cell as int;
    &&& city_count + MARGIN_ROWS <= i32::MAX
    &&& fits(100 - scale)
    &&& fits(2 * border_percent_spec(scale))
    &&& fits(frac)
    &&& fits(base * frac)
    &&& fits(cols * cell)
    &&& fits(rows * cell)
    &&& fits(width - cols * cell)
    &&& fits(height - rows * cell)
}

/// Any screen of at most 100 000 x 100 000 pixels, a size setting between
/// -10 000 and 10 000 (the slider gives 0 to 100) and at most 10 000
/// cities lay out without overflow.
pub proof fn lemma_screen_grid_fits(width: int, height: int, scale: int, city_count: nat, is_24h: bool)
    requires
        0 <= width <= 100_000,
        0 <= height <= 100_000,
        -10_000 <= scale <= 10_000,
        city_count <= 10_000,
    ensures
        grid_fits(width, height, scale, city_count, is_24h),
{
    let cols = row_width_spec(is_24h) as int;
    let rows = if city_count >= 1 {
        city_count as int
    } else {
        1
    };
    assert(cols == 28 || cols == 31);
    let by_w = tdiv(width, cols);
    let by_h = tdiv(height, rows + MARGIN_ROWS);
    assert(0 <= by_w <= width);
    assert(0 <= by_h <= height);
    let base = if by_w <= by_h {
        if by_w >= 1 { by_w } else { 1 }
    } else {
        if by_h >= 1 { by_h } else { 1 }
    };
    assert(1 <= base <= 100_000);
    // all rows of cells at base size fit the height, or base is the floor
    assert(rows * base <= 100_000) by (nonlinear_arith)
        requires
            base == (if by_w <= by_h { if by_w >= 1 { by_w } else { 1 } } else { if by_h >= 1 { by_h } else { 1 } }),
            by_h == height / (rows + MARGIN_ROWS),
            1 <= rows <= 10_000,
            0 <= height <= 100_000,
            by_w >= 0,
    ;
    let frac = 100 - 2 * border_percent_spec(scale);
    assert(-5_100 <= frac <= 5_100);
    assert(-510_000_000 <= base * frac <= 510_000_000) by (nonlinear_arith)
        requires
            1 <= base <= 100_000,
            -5_100 <= frac <= 5_100,
    ;
    let cell = grid_spec(width, height, scale, city_count, is_24h).cell as int;
    assert(1 <= cell <= 51 * base) by (nonlinear_arith)
        requires
            cell == (if tdiv(base * frac, 100) >= 1 { tdiv(base * frac, 100) } else { 1 }),
            tdiv(base * frac, 100) * 100 <= base * frac || base * frac < 0,
            1 <= base,
            -5_100 <= frac <= 5_100,
    ;
    assert(0 <= cols * cell <= 31 * 51 * 100_000) by (nonlinear_arith)
        requires
            1 <= cell <= 51 * base,
            base <= 100_000,
            0 < cols <= 31,
    ;
    assert(0 <= rows * cell <= 51 * 100_000) by (nonlinear_arith)
        requires
            1 <= cell <= 51 * base,
            rows * base <= 100_000,
            rows > 0,
    ;
}

/// The cell side of the board at size setting `scale`, with its bounds:
/// at least 1, at most the unscaled fit `base`, where one row of cells
/// fits the width and all rows plus margin fit the height.
proof fn lemma_grid_cell(width: int, height: int, scale: int, city_count: nat, is_24h: bool) -> (base: int)
    requires
        0 <= scale <= 100,
        row_width_spec(is_24h) <= width <= i32::MAX,
        (if city_count >= 1 { city_count as int } else { 1 }) + MARGIN_ROWS <= height <= i32::MAX,
    ensures
        base == (if width / (row_width_spec(is_24h) as int) <= height / ((if city_count >= 1 {
            city_count as int
        } else {
            1
        }) + MARGIN_ROWS) {
            width / (row_width_spec(is_24h) as int)
        } else {
            height / ((if city_count >= 1 { city_count as int } else { 1 }) + MARGIN_ROWS)
        }),
        1 <= grid_spec(width, height, scale, city_count, is_24h).cell <= base,
        row_width_spec(is_24h) * base <= width,
        ((if city_count >= 1 { city_count as int } else { 1 }) + MARGIN_ROWS) * base <= height,
        grid_spec(width, height, scale, city_count, is_24h).cell as int == (if (base * (100 - 2
            * border_percent_spec(scale))) / 100 >= 1 {
            (base * (100 - 2 * border_percent_spec(scale))) / 100
        } else {
            1
        }),
{
    let cols = row_width_spec(is_24h) as int;
    let rows = if city_count >= 1 { city_count as int } else { 1 };
    let by_w = width / cols;
    let by_h = height / (rows + MARGIN_ROWS);
    assert(1 <= by_w && cols * by_w <= width) by (nonlinear_arith)
        requires
            by_w == width / cols,
            0 < cols <= width,
    ;
    assert(1 <= by_h && (rows + MARGIN_ROWS) * by_h <= height) by (nonlinear_arith)
        requires
            by_h == height / (rows + MARGIN_ROWS),
            0 < rows + MARGIN_ROWS <= height,
    ;
    let base = if by_w <= by_h { by_w } else { by_h };
    assert(cols * base <= cols * by_w) by (nonlinear_arith)
        requires
            base <= by_w,
            cols > 0,
    ;
    assert((rows + MARGIN_ROWS) * base <= (rows + MARGIN_ROWS) * by_h) by (nonlinear_arith)
        requires
            base <= by_h,
            rows + MARGIN_ROWS > 0,
    ;
    let frac = 100 - 2 * border_percent_spec(scale);
    assert(40 <= frac <= 90);
    assert((base * frac) / 100 <= base) by (nonlinear_arith)
        requires
            base >= 1,
            frac <= 90,
    ;
    base
}

/// Raising the size setting never shrinks the board's cells. At any
/// setting from 0 to 100, on a screen where one row of cells and all rows
/// plus the margin fit, the block of cells fits and is centered.
pub proof fn lemma_grid_monotone(width: int, height: int, s1: int, s2: int, city_count: nat, is_24h: bool)
    requires
        0 <= s1 <= s2 <= 100,
        row_width_spec(is_24h) <= width <= i32::MAX,
        (if city_count >= 1 { city_count as int } else { 1 }) + MARGIN_ROWS <= height <= i32::MAX,
    ensures
        ({
            let g1 = grid_spec(width, height, s1, city_count, is_24h);
            let g2 = grid_spec(width, height, s2, city_count, is_24h);
            let rows = if city_count >= 1 { city_count as int } else { 1 };
            &&& 1 <= g1.cell <= g2.cell
            &&& g2.cols == row_width_spec(is_24h)
            &&& g2.rows == city_count
            &&& g2.cols * g2.cell <= width
            &&& (rows + MARGIN_ROWS) * g2.cell <= height
            &&& g2.origin_x == tdiv(width - g2.cols * g2.cell, 2)
            &&& g2.origin_y == tdiv(height - rows * g2.cell, 2)
        }),
{
    let base = lemma_grid_cell(width, height, s1, city_count, is_24h);
    let base2 = lemma_grid_cell(width, height, s2, city_count, is_24h);
    assert(base == base2);
    let cols = row_width_spec(is_24h) as int;
    let rows = if city_count >= 1 { city_count as int } else { 1 };
    let f1 = 100 - 2 * border_percent_spec(s1);
    let f2 = 100 - 2 * border_percent_spec(s2);
    assert(tdiv(100 - s2, 4) <= tdiv(100 - s1, 4)) by (nonlinear_arith)
        requires
            0 <= 100 - s2 <= 100 - s1,
            tdiv(100 - s2, 4) == (100 - s2) / 4,
            tdiv(100 - s1, 4) == (100 - s1) / 4,
    ;
    assert(f1 <= f2);
    assert((base * f1) / 100 <= (base * f2) / 100) by (nonlinear_arith)
        requires
            base >= 1,
            0 <= f1 <= f2,
    ;
    let g2 = grid_spec(width, height, s2, city_count, is_24h);
    let c = g2.cell as int;
    assert(cols * c <= cols * base) by (nonlinear_arith)
        requires
            c <= base,
            cols > 0,
    ;
    assert(rows * c <= (rows + MARGIN_ROWS) * c <= (rows + MARGIN_ROWS) * base) by (nonlinear_arith)
        requires
            1 <= c <= base,
            rows > 0,
            MARGIN_ROWS > 0,
    ;
}

/// Whether `compute_grid` can run on these inputs: exactly when none of
/// its intermediate values overflows (`grid_fits`).
#[verifier::rlimit(50)]
pub fn grid_in_range(width: i32, height: i32, scale_percent: i32, city_count: usize, is_24h: bool) -> (r: bool)
    ensures
        r == grid_fits(width as int, height as int, scale_percent as int, city_count as nat, is_24h),
{
    if city_count > 0x7FFF_FFFD {
        return false;
    }
    let cols: i128 = row_width(is_24h) as i128;
    let rows: i128 = if city_count >= 1 {
        city_count as i128
    } else {
        1
    };
    let w: i128 = width as i128;
    let h: i128 = height as i128;
    let by_w: i128 = w / cols;
    let by_h: i128 = h / (rows + 2);
    let fit: i128 = if by_w <= by_h {
        by_w
    } else {
        by_h
    };
    let base: i128 = if fit >= 1 {
        fit
    } else {
        1
    };
    assert(1 <= base <= 0x8000_0000);
    let d: i128 = 100 - scale_percent as i128;
    let bp: i128 = d / 4 + 5;
    let frac: i128 = 100 - 2 * bp;
    assert(-0x2_0000_0000 <= frac <= 0x2_0000_0000);
    assert(-0x1_0000_0000_0000_0000 <= base * frac <= 0x1_0000_0000_0000_0000) by (nonlinear_arith)
        requires
            1 <= base <= 0x8000_0000,
            -0x2_0000_0000 <= frac <= 0x2_0000_0000,
    ;
    let bf: i128 = base * frac;
    if !(fits128(d) && fits128(2 * bp) && fits128(frac) && fits128(bf)) {
        return false;
    }
    let scaled: i128 = bf / 100;
    let cell: i128 = if scaled >= 1 {
        scaled
    } else {
        1
    };
    assert(1 <= cell <= 0x8000_0000);
    assert(0 <= cols * cell <= 31 * 0x8000_0000) by (nonlinear_arith)
        requires
            1 <= cell <= 0x8000_0000,
            0 < cols <= 31,
    ;
    assert(0 <= rows * cell <= 0x8000_0000 * 0x8000_0000) by (nonlinear_arith)
        requires
            1 <= cell <= 0x8000_0000,
            1 <= rows <= 0x8000_0000,
    ;
    fits128(cols * cell) && fits128(rows * cell) && fits128(w - cols * cell) && fits128(h - rows * cell)
}

pub fn compute_grid(width: i32, height: i32, scale_percent: i32, city_count: usize, is_24h: bool) -> (g: Grid)
    requires
        grid_fits(width as int, height as int, scale_percent as int, city_count as nat, is_24h),
    ensures
        g == grid_spec(width as int, height as int, scale_percent as int, city_count as nat, is_24h),
        g.cols == row_width_spec(is_24h),
        g.rows == city_count,
        g.cell >= 1,
{
    let cols = row_width(is_24h) as i32;
    let rows: i32 = if city_count >= 1 {
        city_count as i32
    } else {
        1
    };
    let by_w = width / cols;
    let by_h = height / (rows + MARGIN_ROWS);
    let fit = if by_w <= by_h {
        by_w
    } else {
        by_h
    };
    let base = if fit >= 1 {
        fit
    } else {
        1
    };
    let frac = 100 - 2 * border_percent(scale_percent);
    let scaled = base * frac / 100;
    let cell = if scaled >= 1 {
        scaled
    } else {
        1
    };
    let grid_w = cols * cell;
    let grid_h = rows * cell;
    Grid {
        cols: cols as usize,
        rows: city_count,
        cell,
        origin_x: (width - grid_w) / 2,
        origin_y: (height - grid_h) / 2,
    }
}

} // verus!
