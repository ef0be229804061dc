//! The `Settings.ini` text format: a lenient line-based reader and the
//! writer whose output the reader gives back unchanged.

use vstd::prelude::*;
use vstd::string::*;
use crate::board::LABEL_CELLS;
use crate::screen_map::{ScreenMap, keys_sorted, map_get, map_set};
use crate::settings::{
    DEFAULT_BOARD_SCALE, DEFAULT_SCALE, Mode, Orientation, ScreenSettings, Settings, SettingsView,
    clocks_view, default_settings_spec,
};
use crate::text::{
    chars_of, int_dec, is_trimmed, is_ws, parse_i32, parse_i32_range, push_char, push_i32,
    string_of_range, take_upto, trim, trim_range,
};

verus! {

// ------------------------------------------------------------------ reading

/// Index of the first `c` in `t`, or `t.len()` when there is none.
pub open spec fn find_char(t: Seq<char>, c: char) -> int
    decreases t.len(),
{
    if t.len() == 0 {
        0
    } else if t[0] == c {
        0
    } else {
        1 + find_char(t.drop_first(), c)
    }
}

/// The lines of `t`, split at each `\n`; a final `\n` opens no further
/// line. (`str::lines` also drops a `\r` before each `\n`; every line is
/// trimmed before use, which removes that `\r` in any case.)
pub open spec fn split_lines(t: Seq<char>) -> Seq<Seq<char>>
    decreases t.len(),
{
    if t.len() == 0 {
        Seq::empty()
    } else {
        let i = find_char(t, '\n');
        if 0 <= i < t.len() {
            seq![t.take(i)] + split_lines(t.skip(i + 1))
        } else {
            seq![t]
        }
    }
}

/// Reader state between lines.
pub struct ParseState {
    pub s: SettingsView,
    pub section: Seq<char>,
    /// Whether a `[WorldClocks]` header has already dropped the preloaded cities.
    pub cleared: bool,
}

/// The integer in `v` (surrounding whitespace allowed), or `d`.
pub open spec fn int_or(v: Seq<char>, d: i32) -> i32 {
    match parse_i32(trim(v)) {
        Some(x) => x,
        None => d,
    }
}

pub open spec fn apply_general(s: SettingsView, key: Seq<char>, value: Seq<char>) -> SettingsView {
    if key == "Display24Hr"@ {
        SettingsView { display_24hr: parse_i32(trim(value)) == Some(1i32), ..s }
    } else if key == "Scale"@ {
        SettingsView { scale: int_or(value, DEFAULT_SCALE), ..s }
    } else if key == "BoardScale"@ {
        SettingsView { board_scale: int_or(value, DEFAULT_BOARD_SCALE), ..s }
    } else if key == "FlipAnimation"@ {
        SettingsView {
            flip_animation: match parse_i32(trim(value)) {
                Some(x) => x != 0,
                None => true,
            },
            ..s
        }
    } else {
        s
    }
}

/// A key of a `[Screen name]` section: the entry is created on first
/// sight, even for an unknown key.
pub open spec fn apply_screen(s: SettingsView, name: Seq<char>, key: Seq<char>, value: Seq<char>) -> SettingsView {
    let cur = match map_get(s.screens, name) {
        Some(e) => e,
        None => ScreenSettings::default_spec(),
    };
    let e = if key == "Orientation"@ {
        ScreenSettings { orientation: Orientation::from_ini_spec(int_or(value, 0) as int), ..cur }
    } else if key == "Mode"@ {
        ScreenSettings { mode: Mode::from_ini_spec(int_or(value, 0) as int), ..cur }
    } else {
        cur
    };
    SettingsView { screens: map_set(s.screens, name, e), ..s }
}

pub open spec fn apply_clock(s: SettingsView, key: Seq<char>, value: Seq<char>) -> SettingsView {
    SettingsView {
        world_clocks: s.world_clocks.push(
            (take_upto(trim(key), LABEL_CELLS as int), trim(value)),
        ),
        ..s
    }
}

pub open spec fn is_screen_section(sec: Seq<char>) -> bool {
    sec.len() >= 7 && sec.take(7) == "Screen "@
}

pub open spec fn apply_kv(st: ParseState, key: Seq<char>, value: Seq<char>) -> ParseState {
    if st.section == "General"@ {
        ParseState { s: apply_general(st.s, key, value), ..st }
    } else if is_screen_section(st.section) {
        ParseState { s: apply_screen(st.s, st.section.skip(7), key, value), ..st }
    } else if st.section == "WorldClocks"@ {
        ParseState { s: apply_clock(st.s, key, value), ..st }
    } else {
        st
    }
}

pub open spec fn is_header(line: Seq<char>) -> bool {
    line.len() > 0 && line[0] == '[' && line.last() == ']'
}

/// A `[sec]` header line; the first `[WorldClocks]` drops the preloaded
/// cities, so that a present-but-empty section means "no cities".
pub open spec fn open_section(st: ParseState, sec: Seq<char>) -> ParseState {
    if sec == "WorldClocks"@ && !st.cleared {
        ParseState {
            s: SettingsView { world_clocks: Seq::empty(), ..st.s },
            section: sec,
            cleared: true,
        }
    } else {
        ParseState { section: sec, ..st }
    }
}

/// One line: blank lines are skipped, `[name]` opens a section, a line
/// without `=` is a comment, anything else is `key=value`.
pub open spec fn parse_line(st: ParseState, raw: Seq<char>) -> ParseState {
    let line = trim(raw);
    if line.len() == 0 {
        st
    } else if is_header(line) {
        open_section(st, line.subrange(1, line.len() - 1))
    } else {
        let e = find_char(line, '=');
        if e < line.len() {
            apply_kv(st, line.take(e), line.skip(e + 1))
        } else {
            st
        }
    }
}

pub open spec fn parse_lines(st: ParseState, ls: Seq<Seq<char>>) -> ParseState
    decreases ls.len(),
{
    if ls.len() == 0 {
        st
    } else {
        parse_lines(parse_line(st, ls[0]), ls.drop_first())
    }
}

pub open spec fn state(s: SettingsView, section: Seq<char>, cleared: bool) -> ParseState {
    ParseState { s, section, cleared }
}

pub open spec fn initial_state() -> ParseState {
    ParseState { s: default_settings_spec(), section: Seq::empty(), cleared: false }
}

/// The settings that `text` describes.
pub open spec fn parse_ini(text: Seq<char>) -> SettingsView {
    parse_lines(initial_state(), split_lines(text)).s
}

// ------------------------------------------------------------ reading lemmas

pub proof fn lemma_find_char(t: Seq<char>, c: char)
    ensures
        0 <= find_char(t, c) <= t.len(),
        find_char(t, c) < t.len() ==> t[find_char(t, c)] == c,
        forall|k: int| 0 <= k < find_char(t, c) ==> #[trigger] t[k] != c,
    decreases t.len(),
{
    if t.len() > 0 && t[0] != c {
        lemma_find_char(t.drop_first(), c);
        assert forall|k: int| 0 <= k < find_char(t, c) implies #[trigger] t[k] != c by {
            if k > 0 {
                assert(t[k] == t.drop_first()[k - 1]);
            }
        }
    }
}

pub proof fn lemma_find_char_at(t: Seq<char>, c: char, j: int)
    requires
        0 <= j <= t.len(),
        forall|k: int| 0 <= k < j ==> #[trigger] t[k] != c,
        j < t.len() ==> t[j] == c,
    ensures
        find_char(t, c) == j,
    decreases t.len(),
{
    if j > 0 {
        assert forall|k: int| 0 <= k < j - 1 implies #[trigger] t.drop_first()[k] != c by {
            assert(t.drop_first()[k] == t[k + 1]);
        }
        lemma_find_char_at(t.drop_first(), c, j - 1);
    }
}

pub proof fn lemma_parse_lines_cons(st: ParseState, l: Seq<char>, ls: Seq<Seq<char>>)
    ensures
        parse_lines(st, seq![l] + ls) == parse_lines(parse_line(st, l), ls),
{
    assert((seq![l] + ls).drop_first() =~= ls);
}

// ------------------------------------------------------------ exec reading

/// Whether `t[lo..hi]` spells `lit`.
fn range_eq_str(t: &Vec<char>, lo: usize, hi: usize, lit: &str) -> (r: bool)
    requires
        lo <= hi <= t.len(),
    ensures
        r == (t@.subrange(lo as int, hi as int) == lit@),
{
    let l = chars_of(lit);
    if hi - lo != l.len() {
        return false;
    }
    let mut i: usize = 0;
    while i < l.len()
        invariant
            lo <= hi <= t.len(),
            hi - lo == l.len(),
            l@ == lit@,
            i <= l.len(),
            forall|k: int| 0 <= k < i ==> t@[lo + k] == l@[k],
        decreases l.len() - i,
    {
        if t[lo + i] != l[i] {
            assert(t@.subrange(lo as int, hi as int)[i as int] != lit@[i as int]);
            return false;
        }
        i = i + 1;
    }
    assert(t@.subrange(lo as int, hi as int) =~= lit@);
    true
}

fn vec_of_range(t: &Vec<char>, lo: usize, hi: usize) -> (r: Vec<char>)
    requires
        lo <= hi <= t.len(),
    ensures
        r@ == t@.subrange(lo as int, hi as int),
{
    let mut r: Vec<char> = Vec::new();
    let mut i = lo;
    while i < hi
        invariant
            lo <= i <= hi <= t.len(),
            r@ == t@.subrange(lo as int, i as int),
        decreases hi - i,
    {
        r.push(t[i]);
        assert(t@.subrange(lo as int, i + 1) =~= t@.subrange(lo as int, i as int).push(t@[i as int]));
        i = i + 1;
    }
    r
}

fn parse_int_or(t: &Vec<char>, lo: usize, hi: usize, d: i32) -> (r: i32)
    requires
        lo <= hi <= t.len(),
    ensures
        r == int_or(t@.subrange(lo as int, hi as int), d),
{
    let (a, b) = trim_range(t, lo, hi);
    match parse_i32_range(t, a, b) {
        Some(x) => x,
        None => d,
    }
}

fn apply_kv_exec(
    s: &mut Settings,
    section: &Vec<char>,
    t: &Vec<char>,
    klo: usize,
    khi: usize,
    vlo: usize,
    vhi: usize,
)
    requires
        klo <= khi <= t.len(),
        vlo <= vhi <= t.len(),
    ensures
        state(final(s)@, section@, false) == apply_kv(
            state(old(s)@, section@, false),
            t@.subrange(klo as int, khi as int),
            t@.subrange(vlo as int, vhi as int),
        ),
{
    let ghost key = t@.subrange(klo as int, khi as int);
    let ghost value = t@.subrange(vlo as int, vhi as int);
    let ghost st = ParseState { s: old(s)@, section: section@, cleared: false };
    let slen = section.len();
    if range_eq_str(section, 0, slen, "General") {
        assert(section@.subrange(0, slen as int) =~= section@);
        if range_eq_str(t, klo, khi, "Display24Hr") {
            let (a, b) = trim_range(t, vlo, vhi);
            s.display_24hr = match parse_i32_range(t, a, b) {
                Some(x) => x == 1,
                None => false,
            };
        } else if range_eq_str(t, klo, khi, "Scale") {
            s.scale = parse_int_or(t, vlo, vhi, DEFAULT_SCALE);
        } else if range_eq_str(t, klo, khi, "BoardScale") {
            s.board_scale = parse_int_or(t, vlo, vhi, DEFAULT_BOARD_SCALE);
        } else if range_eq_str(t, klo, khi, "FlipAnimation") {
            let (a, b) = trim_range(t, vlo, vhi);
            s.flip_animation = match parse_i32_range(t, a, b) {
                Some(x) => x != 0,
                None => true,
            };
        }
        return;
    }
    assert(section@.subrange(0, slen as int) =~= section@);
    if slen >= 7 && range_eq_str(section, 0, 7, "Screen ") {
        assert(section@.subrange(0, 7) =~= section@.take(7));
        let name = string_of_range(section, 7, slen);
        assert(name@ =~= section@.skip(7));
        let cur = match s.screens.get(name.as_str()) {
            Some(e) => e,
            None => ScreenSettings::default(),
        };
        let e = if range_eq_str(t, klo, khi, "Orientation") {
            ScreenSettings { orientation: Orientation::from_ini(parse_int_or(t, vlo, vhi, 0)), ..cur }
        } else if range_eq_str(t, klo, khi, "Mode") {
            ScreenSettings { mode: Mode::from_ini(parse_int_or(t, vlo, vhi, 0)), ..cur }
        } else {
            cur
        };
        s.screens.insert(name, e);
        return;
    }
    proof {
        if slen >= 7 {
            assert(section@.subrange(0, 7) =~= section@.take(7));
        }
    }
    if range_eq_str(section, 0, slen, "WorldClocks") {
        let (a, b) = trim_range(t, klo, khi);
        let lhi = if b - a <= LABEL_CELLS {
            b
        } else {
            a + LABEL_CELLS
        };
        assert(t@.subrange(a as int, lhi as int) =~= take_upto(trim(key), LABEL_CELLS as int));
        let label = string_of_range(t, a, lhi);
        let (p, q) = trim_range(t, vlo, vhi);
        let zone = string_of_range(t, p, q);
        let ghost before = s.world_clocks@;
        s.world_clocks.push((label, zone));
        assert(clocks_view(s.world_clocks@) =~= clocks_view(before).push(
            (take_upto(trim(key), LABEL_CELLS as int), trim(value)),
        ));
    }
}

/// Applies one raw line `t[lo..hi]`.
fn apply_line(
    s: &mut Settings,
    section: &mut Vec<char>,
    cleared: &mut bool,
    t: &Vec<char>,
    lo: usize,
    hi: usize,
)
    requires
        lo <= hi <= t.len(),
    ensures
        state(final(s)@, final(section)@, *final(cleared)) == parse_line(
            state(old(s)@, old(section)@, *old(cleared)),
            t@.subrange(lo as int, hi as int),
        ),
{
    let ghost raw = t@.subrange(lo as int, hi as int);
    let (a, b) = trim_range(t, lo, hi);
    let ghost line = t@.subrange(a as int, b as int);
    if a == b {
        return;
    }
    assert(line[0] == t@[a as int]);
    assert(line.last() == t@[b - 1]);
    if t[a] == '[' && t[b - 1] == ']' {
        let sec = vec_of_range(t, a + 1, b - 1);
        assert(sec@ =~= line.subrange(1, line.len() - 1));
        let slen = sec.len();
        let is_wc = range_eq_str(&sec, 0, slen, "WorldClocks");
        assert(sec@.subrange(0, slen as int) =~= sec@);
        if is_wc && !*cleared {
            s.world_clocks = Vec::new();
            *cleared = true;
            assert(clocks_view(s.world_clocks@) =~= Seq::<(Seq<char>, Seq<char>)>::empty());
        }
        *section = sec;
        return;
    }
    let mut e = a;
    while e < b && t[e] != '='
        invariant
            a <= e <= b <= t.len(),
            forall|k: int| a <= k < e ==> t@[k] != '=',
        decreases b - e,
    {
        e = e + 1;
    }
    proof {
        assert forall|k: int| 0 <= k < e - a implies #[trigger] line[k] != '=' by {
            assert(line[k] == t@[a + k]);
        }
        if e < b {
            assert(line[e - a] == t@[e as int]);
        }
        lemma_find_char_at(line, '=', e - a);
    }
    if e == b {
        return;
    }
    assert(line.take(e - a) =~= t@.subrange(a as int, e as int));
    assert(line.skip(e - a + 1) =~= t@.subrange(e + 1, b as int));
    let ghost st = ParseState { s: s@, section: section@, cleared: *cleared };
    let c = *cleared;
    apply_kv_exec(s, section, t, a, e, e + 1, b);
    proof {
        let k = t@.subrange(a as int, e as int);
        let v = t@.subrange(e + 1, b as int);
        let r0 = apply_kv(ParseState { s: st.s, section: st.section, cleared: false }, k, v);
        let r1 = apply_kv(st, k, v);
        assert(r1 == ParseState { cleared: c, ..r0 });
    }
}

impl Settings {
    /// Reads settings text. Unknown sections and keys, comment lines
    /// (no `=`) and unparseable values are tolerated; what is absent keeps
    /// its default.
    pub fn from_ini_text(text: &str) -> (r: Settings)
        ensures
            r@ == parse_ini(text@),
            keys_sorted(r@.screens),
    {
        let t = chars_of(text);
        let mut s = Settings::default();
        let mut section: Vec<char> = Vec::new();
        let mut cleared = false;
        let n = t.len();
        let mut pos: usize = 0;
        assert(t@.skip(0) =~= t@);
        assert(section@ =~= Seq::<char>::empty());
        while pos < n
            invariant
                pos <= n == t.len(),
                t@ == text@,
                parse_ini(text@) == parse_lines(
                    state(s@, section@, cleared),
                    split_lines(t@.skip(pos as int)),
                ).s,
            decreases n - pos,
        {
            let mut j = pos;
            while j < n && t[j] != '\n'
                invariant
                    pos <= j <= n == t.len(),
                    forall|k: int| pos <= k < j ==> t@[k] != '\n',
                decreases n - j,
            {
                j = j + 1;
            }
            proof {
                let rest = t@.skip(pos as int);
                assert forall|k: int| 0 <= k < j - pos implies #[trigger] rest[k] != '\n' by {
                    assert(rest[k] == t@[pos + k]);
                }
                if j < n {
                    assert(rest[j - pos] == t@[j as int]);
                }
                lemma_find_char_at(rest, '\n', j - pos);
                if j < n {
                    assert(rest.take(j - pos) =~= t@.subrange(pos as int, j as int));
                    assert(rest.skip(j - pos + 1) =~= t@.skip(j + 1));
                    lemma_parse_lines_cons(
                        state(s@, section@, cleared),
                        t@.subrange(pos as int, j as int),
                        split_lines(t@.skip(j + 1)),
                    );
                } else {
                    assert(rest =~= t@.subrange(pos as int, j as int));
                    assert(t@.skip(n as int) =~= Seq::<char>::empty());
                    let l = t@.subrange(pos as int, j as int);
                    assert(split_lines(rest) =~= seq![l] + split_lines(t@.skip(n as int)));
                    lemma_parse_lines_cons(
                        state(s@, section@, cleared),
                        l,
                        split_lines(t@.skip(n as int)),
                    );
                }
            }
            apply_line(&mut s, &mut section, &mut cleared, &t, pos, j);
            pos = if j < n {
                j + 1
            } else {
                n
            };
        }
        assert(t@.skip(n as int) =~= Seq::<char>::empty());
        let _ = s.screens.len();
        s
    }
}

// ------------------------------------------------------------------ writing

pub open spec fn crlf() -> Seq<char> {
    seq!['\r', '\n']
}

pub open spec fn flag_dec(b: bool) -> Seq<char> {
    int_dec(if b { 1 } else { 0 })
}

pub open spec fn general_text(s: SettingsView) -> Seq<char> {
    "[General]"@ + crlf() + "Display24Hr="@ + flag_dec(s.display_24hr) + crlf() + "Scale="@
        + int_dec(s.scale as int) + crlf() + "BoardScale="@ + int_dec(s.board_scale as int)
        + crlf() + "FlipAnimation="@ + flag_dec(s.flip_animation) + crlf() + crlf()
}

/// The section of one monitor; monitors left at Auto + Clock are omitted.
pub open spec fn screen_text(name: Seq<char>, sc: ScreenSettings) -> Seq<char> {
    if sc == ScreenSettings::default_spec() {
        Seq::empty()
    } else {
        "[Screen "@ + name + seq![']'] + crlf() + "Orientation="@ + int_dec(
            sc.orientation.to_ini_spec() as int,
        ) + crlf() + "Mode="@ + int_dec(sc.mode.to_ini_spec() as int) + crlf() + crlf()
    }
}

pub open spec fn screens_text(m: Seq<(Seq<char>, ScreenSettings)>) -> Seq<char>
    decreases m.len(),
{
    if m.len() == 0 {
        Seq::empty()
    } else {
        screens_text(m.drop_last()) + screen_text(m.last().0, m.last().1)
    }
}

pub open spec fn clocks_text(c: Seq<(Seq<char>, Seq<char>)>) -> Seq<char>
    decreases c.len(),
{
    if c.len() == 0 {
        Seq::empty()
    } else {
        clocks_text(c.drop_last()) + c.last().0 + seq!['='] + c.last().1 + crlf()
    }
}

/// The text that `to_ini_text` writes.
pub open spec fn ini_text(s: SettingsView) -> Seq<char> {
    general_text(s) + screens_text(s.screens) + "[WorldClocks]"@ + crlf() + clocks_text(
        s.world_clocks,
    ) + crlf()
}

fn push_crlf(out: &mut String)
    ensures
        final(out)@ == old(out)@ + crlf(),
{
    push_char(out, '\r');
    push_char(out, '\n');
    assert(final(out)@ =~= old(out)@ + crlf());
}

fn push_flag(out: &mut String, b: bool)
    ensures
        final(out)@ == old(out)@ + flag_dec(b),
{
    push_i32(out, if b { 1 } else { 0 });
}

impl Settings {
    /// Writes the settings as INI text (CRLF line ends). `[General]` and
    /// `[WorldClocks]` are always written; a `[Screen name]` section only
    /// for a monitor with a non-default setting.
    pub fn to_ini_text(&self) -> (r: String)
        ensures
            r@ == ini_text(self@),
            keys_sorted(self@.screens),
    {
        let mut out = String::new();
        out.append("[General]");
        push_crlf(&mut out);
        out.append("Display24Hr=");
        push_flag(&mut out, self.display_24hr);
        push_crlf(&mut out);
        out.append("Scale=");
        push_i32(&mut out, self.scale);
        push_crlf(&mut out);
        out.append("BoardScale=");
        push_i32(&mut out, self.board_scale);
        push_crlf(&mut out);
        out.append("FlipAnimation=");
        push_flag(&mut out, self.flip_animation);
        push_crlf(&mut out);
        push_crlf(&mut out);
        let ghost head = out@;
        assert(head =~= general_text(self@));
        let n = self.screens.len();
        let mut i: usize = 0;
        while i < n
            invariant
                i <= n == self@.screens.len(),
                out@ == head + screens_text(self@.screens.take(i as int)),
            decreases n - i,
        {
            let name = self.screens.name_at(i);
            let sc = self.screens.value_at(i);
            let ghost before = out@;
            if !(sc.orientation == Orientation::Auto && sc.mode == Mode::Clock) {
                out.append("[Screen ");
                out.append(name.as_str());
                push_char(&mut out, ']');
                push_crlf(&mut out);
                out.append("Orientation=");
                push_i32(&mut out, sc.orientation.to_ini());
                push_crlf(&mut out);
                out.append("Mode=");
                push_i32(&mut out, sc.mode.to_ini());
                push_crlf(&mut out);
                push_crlf(&mut out);
            }
            proof {
                let m = self@.screens;
                assert(m.take(i + 1).drop_last() =~= m.take(i as int));
                assert(m.take(i + 1).last() == m[i as int]);
                assert(out@ =~= before + screen_text(m[i as int].0, m[i as int].1));
            }
            i = i + 1;
        }
        assert(self@.screens.take(n as int) =~= self@.screens);
        out.append("[WorldClocks]");
        push_crlf(&mut out);
        let ghost mid = out@;
        let k = self.world_clocks.len();
        let mut j: usize = 0;
        while j < k
            invariant
                j <= k == self.world_clocks@.len(),
                out@ == mid + clocks_text(self@.world_clocks.take(j as int)),
            decreases k - j,
        {
            let ghost before = out@;
            out.append(self.world_clocks[j].0.as_str());
            push_char(&mut out, '=');
            out.append(self.world_clocks[j].1.as_str());
            push_crlf(&mut out);
            proof {
                let c = self@.world_clocks;
                assert(c.take(j + 1).drop_last() =~= c.take(j as int));
                assert(c.take(j + 1).last() == c[j as int]);
                assert(out@ =~= before + c[j as int].0 + seq!['='] + c[j as int].1 + crlf());
            }
            j = j + 1;
        }
        assert(self@.world_clocks.take(k as int) =~= self@.world_clocks);
        push_crlf(&mut out);
        assert(out@ =~= ini_text(self@));
        out
    }
}

} // verus!
