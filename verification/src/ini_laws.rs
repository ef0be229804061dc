//! What the INI reader gives back of the writer's text.

use vstd::prelude::*;
use crate::board::LABEL_CELLS;
use crate::ini::{
    ParseState, apply_kv, clocks_text, crlf, find_char, flag_dec, general_text, ini_text,
    initial_state, int_or, lemma_find_char, lemma_find_char_at, lemma_parse_lines_cons,
    open_section, parse_ini, parse_line, parse_lines, screen_text, screens_text, split_lines,
};
use crate::screen_map::{keys_sorted, lemma_map_set_append, lemma_map_set_last, str_lt};
use crate::settings::{
    DEFAULT_BOARD_SCALE, DEFAULT_SCALE, Mode, Orientation, ScreenSettings, SettingsView,
    default_settings_spec,
};
use crate::text::{
    int_dec, is_trimmed, is_ws, lemma_int_dec_clean, lemma_parse_int_dec, parse_i32, take_upto, trim,
    trim_end, trim_start,
};

verus! {

pub open spec fn no_char(s: Seq<char>, c: char) -> bool {
    forall|i: int| 0 <= i < s.len() ==> #[trigger] s[i] != c
}

/// A monitor entry that the writer emits and the reader restores.
pub open spec fn screen_entry_ok(name: Seq<char>, sc: ScreenSettings) -> bool {
    no_char(name, '\n') && sc != ScreenSettings::default_spec()
}

/// A city entry that the writer emits and the reader restores: one line,
/// an `=`-free label within the cell budget, no surrounding whitespace,
/// and not mistakable for a section header.
pub open spec fn clock_entry_ok(label: Seq<char>, zone: Seq<char>) -> bool {
    &&& no_char(label, '\n')
    &&& no_char(label, '=')
    &&& is_trimmed(label)
    &&& label.len() <= LABEL_CELLS
    &&& no_char(zone, '\n')
    &&& is_trimmed(zone)
    &&& !(label.len() > 0 && label[0] == '[' && zone.len() > 0 && zone.last() == ']')
}

/// Settings that survive a write followed by a read.
pub open spec fn ini_round_trips(s: SettingsView) -> bool {
    &&& keys_sorted(s.screens)
    &&& forall|i: int|
        0 <= i < s.screens.len() ==> screen_entry_ok(#[trigger] s.screens[i].0, s.screens[i].1)
    &&& forall|i: int|
        0 <= i < s.world_clocks.len() ==> clock_entry_ok(
            #[trigger] s.world_clocks[i].0,
            s.world_clocks[i].1,
        )
}

// ------------------------------------------------------------- line splitting

proof fn lemma_find_char_le(t: Seq<char>, c: char, k: int)
    requires
        0 <= k < t.len(),
        t[k] == c,
    ensures
        find_char(t, c) <= k,
{
    lemma_find_char(t, c);
}

proof fn lemma_split_concat(x: Seq<char>, y: Seq<char>)
    requires
        x.len() == 0 || x.last() == '\n',
    ensures
        split_lines(x + y) == split_lines(x) + split_lines(y),
    decreases x.len(),
{
    if x.len() == 0 {
        assert(x + y =~= y);
        assert(split_lines(x) =~= Seq::<Seq<char>>::empty());
        assert(split_lines(x) + split_lines(y) =~= split_lines(y));
    } else {
        let i = find_char(x, '\n');
        lemma_find_char(x, '\n');
        lemma_find_char_le(x, '\n', x.len() - 1);
        let xy = x + y;
        assert forall|k: int| 0 <= k < i implies #[trigger] xy[k] != '\n' by {
            assert(xy[k] == x[k]);
        }
        assert(xy[i] == x[i]);
        lemma_find_char_at(xy, '\n', i);
        assert(xy.take(i) =~= x.take(i));
        let r = x.skip(i + 1);
        assert(xy.skip(i + 1) =~= r + y);
        if r.len() > 0 {
            assert(r.last() == x.last());
        }
        lemma_split_concat(r, y);
        assert(split_lines(xy) =~= split_lines(x) + split_lines(y));
    }
}

/// A `\n`-free line followed by `\n` starts the line list.
proof fn lemma_split_cons(l: Seq<char>, rest: Seq<char>)
    requires
        no_char(l, '\n'),
    ensures
        split_lines(l + seq!['\n'] + rest) == seq![l] + split_lines(rest),
{
    let t = l + seq!['\n'] + rest;
    assert forall|k: int| 0 <= k < l.len() implies #[trigger] t[k] != '\n' by {
        assert(t[k] == l[k]);
    }
    assert(t[l.len() as int] == '\n');
    lemma_find_char_at(t, '\n', l.len() as int);
    assert(t.take(l.len() as int) =~= l);
    assert(t.skip(l.len() as int + 1) =~= rest);
}

proof fn lemma_parse_lines_concat(st: ParseState, a: Seq<Seq<char>>, b: Seq<Seq<char>>)
    ensures
        parse_lines(st, a + b) == parse_lines(parse_lines(st, a), b),
    decreases a.len(),
{
    if a.len() == 0 {
        assert(a + b =~= b);
    } else {
        assert((a + b).drop_first() =~= a.drop_first() + b);
        assert((a + b)[0] == a[0]);
        lemma_parse_lines_concat(parse_line(st, a[0]), a.drop_first(), b);
    }
}

// ------------------------------------------------------------- single lines

proof fn lemma_trim_cr(x: Seq<char>)
    requires
        x.len() > 0,
        !is_ws(x[0]),
        !is_ws(x.last()),
    ensures
        trim(x + seq!['\r']) == x,
{
    let y = x + seq!['\r'];
    assert(y[0] == x[0]);
    assert(trim_start(y) == y);
    assert(y.drop_last() =~= x);
    assert(is_ws(y.last()));
    assert(trim_end(y) == trim_end(x));
}

proof fn lemma_blank_line(st: ParseState)
    ensures
        parse_line(st, seq!['\r']) == st,
{
    let y = seq!['\r'];
    assert(is_ws(y[0]));
    let e = Seq::<char>::empty();
    assert(y.drop_first() =~= e);
    assert(trim_start(e) == e);
    assert(trim_start(y) == trim_start(y.drop_first()));
    assert(trim_end(e) == e);
}

proof fn lemma_kv_line(st: ParseState, k: Seq<char>, v: Seq<char>)
    requires
        no_char(k, '='),
        k.len() > 0 ==> !is_ws(k[0]),
        v.len() > 0 ==> !is_ws(v.last()),
        !(k.len() > 0 && k[0] == '[' && v.len() > 0 && v.last() == ']'),
    ensures
        parse_line(st, k + seq!['='] + v + seq!['\r']) == apply_kv(st, k, v),
{
    let x = k + seq!['='] + v;
    assert(x + seq!['\r'] =~= k + seq!['='] + v + seq!['\r']);
    assert(x[k.len() as int] == '=');
    if k.len() > 0 {
        assert(x[0] == k[0]);
    }
    if v.len() > 0 {
        assert(x.last() == v.last());
    }
    assert(!is_ws('='));
    lemma_trim_cr(x);
    assert forall|j: int| 0 <= j < k.len() implies #[trigger] x[j] != '=' by {
        assert(x[j] == k[j]);
    }
    lemma_find_char_at(x, '=', k.len() as int);
    assert(x.take(k.len() as int) =~= k);
    assert(x.skip(k.len() as int + 1) =~= v);
}

proof fn lemma_header_line(st: ParseState, sec: Seq<char>)
    ensures
        parse_line(st, seq!['['] + sec + seq![']'] + seq!['\r']) == open_section(st, sec),
{
    let x = seq!['['] + sec + seq![']'];
    assert(x + seq!['\r'] =~= seq!['['] + sec + seq![']'] + seq!['\r']);
    assert(x[0] == '[');
    assert(x.last() == ']');
    assert(!is_ws('[') && !is_ws(']'));
    lemma_trim_cr(x);
    assert(x.subrange(1, x.len() - 1) =~= sec);
}

// ------------------------------------------------------------- literals

proof fn lemma_literals()
    ensures
        "[General]"@ == seq!['['] + "General"@ + seq![']'],
        "[WorldClocks]"@ == seq!['['] + "WorldClocks"@ + seq![']'],
        "[Screen "@ == seq!['['] + "Screen "@,
        "Display24Hr="@ == "Display24Hr"@ + seq!['='],
        "Scale="@ == "Scale"@ + seq!['='],
        "BoardScale="@ == "BoardScale"@ + seq!['='],
        "FlipAnimation="@ == "FlipAnimation"@ + seq!['='],
        "Orientation="@ == "Orientation"@ + seq!['='],
        "Mode="@ == "Mode"@ + seq!['='],
        key_ok("Display24Hr"@),
        key_ok("Scale"@),
        key_ok("BoardScale"@),
        key_ok("FlipAnimation"@),
        key_ok("Orientation"@),
        key_ok("Mode"@),
        "General"@ != "WorldClocks"@,
        "Scale"@ != "Display24Hr"@,
        "BoardScale"@ != "Display24Hr"@,
        "BoardScale"@ != "Scale"@,
        "FlipAnimation"@ != "Display24Hr"@,
        "FlipAnimation"@ != "Scale"@,
        "FlipAnimation"@ != "BoardScale"@,
        "Mode"@ != "Orientation"@,
        "General"@.len() == 7 && "General"@[0] == 'G',
        "WorldClocks"@.len() == 11 && "WorldClocks"@[0] == 'W',
        "Screen "@.len() == 7 && "Screen "@[0] == 'S',
        no_char("General"@, '\n'),
        no_char("WorldClocks"@, '\n'),
        no_char("Screen "@, '\n'),
{
    reveal_strlit("[General]");
    reveal_strlit("General");
    reveal_strlit("[WorldClocks]");
    reveal_strlit("WorldClocks");
    reveal_strlit("[Screen ");
    reveal_strlit("Screen ");
    reveal_strlit("Display24Hr=");
    reveal_strlit("Display24Hr");
    reveal_strlit("Scale=");
    reveal_strlit("Scale");
    reveal_strlit("BoardScale=");
    reveal_strlit("BoardScale");
    reveal_strlit("FlipAnimation=");
    reveal_strlit("FlipAnimation");
    reveal_strlit("Orientation=");
    reveal_strlit("Orientation");
    reveal_strlit("Mode=");
    reveal_strlit("Mode");
    assert("[General]"@ =~= seq!['['] + "General"@ + seq![']']);
    assert("[WorldClocks]"@ =~= seq!['['] + "WorldClocks"@ + seq![']']);
    assert("[Screen "@ =~= seq!['['] + "Screen "@);
    assert("Display24Hr="@ =~= "Display24Hr"@ + seq!['=']);
    assert("Scale="@ =~= "Scale"@ + seq!['=']);
    assert("BoardScale="@ =~= "BoardScale"@ + seq!['=']);
    assert("FlipAnimation="@ =~= "FlipAnimation"@ + seq!['=']);
    assert("Orientation="@ =~= "Orientation"@ + seq!['=']);
    assert("Mode="@ =~= "Mode"@ + seq!['=']);
    assert("BoardScale"@[0] != "Scale"@[0]);
    assert("FlipAnimation"@[0] != "Scale"@[0]);
}

/// A key literal: one line, no `=`, starting with a letter.
pub open spec fn key_ok(k: Seq<char>) -> bool {
    &&& no_char(k, '=')
    &&& no_char(k, '\n')
    &&& k.len() > 0
    &&& !is_ws(k[0])
    &&& k[0] != '['
}

proof fn lemma_flag_dec(b: bool)
    ensures
        parse_i32(trim(flag_dec(b))) == Some(if b { 1i32 } else { 0i32 }),
        value_ok(flag_dec(b)),
{
    lemma_value_dec(if b { 1int } else { 0int });
}

/// A written number: one line, no surrounding whitespace.
pub open spec fn value_ok(v: Seq<char>) -> bool {
    &&& no_char(v, '\n')
    &&& v.len() > 0
    &&& !is_ws(v.last())
}

proof fn lemma_value_dec(x: int)
    requires
        i32::MIN <= x <= i32::MAX,
    ensures
        parse_i32(trim(int_dec(x))) == Some(x as i32),
        value_ok(int_dec(x)),
        int_or(int_dec(x), 0) == x,
        int_or(int_dec(x), DEFAULT_SCALE) == x,
        int_or(int_dec(x), DEFAULT_BOARD_SCALE) == x,
{
    lemma_int_dec_clean(x);
    lemma_parse_int_dec(x);
    assert(trim(int_dec(x)) == int_dec(x));
}

/// A `key=value` line followed by its `\n`.
proof fn lemma_kv_step(st: ParseState, k: Seq<char>, v: Seq<char>, rest: Seq<char>)
    requires
        no_char(k, '\n'),
        no_char(v, '\n'),
        no_char(k, '='),
        k.len() > 0 ==> !is_ws(k[0]),
        v.len() > 0 ==> !is_ws(v.last()),
        !(k.len() > 0 && k[0] == '[' && v.len() > 0 && v.last() == ']'),
    ensures
        parse_lines(st, split_lines(k + seq!['='] + v + crlf() + rest)) == parse_lines(
            apply_kv(st, k, v),
            split_lines(rest),
        ),
{
    let l = k + seq!['='] + v + seq!['\r'];
    assert(k + seq!['='] + v + crlf() + rest =~= l + seq!['\n'] + rest);
    assert forall|i: int| 0 <= i < l.len() implies #[trigger] l[i] != '\n' by {
        if i < k.len() {
            assert(l[i] == k[i]);
        } else if k.len() < i < k.len() + 1 + v.len() {
            assert(l[i] == v[i - k.len() - 1]);
        }
    }
    lemma_split_cons(l, rest);
    lemma_parse_lines_cons(st, l, split_lines(rest));
    lemma_kv_line(st, k, v);
}

/// A `[sec]` line followed by its `\n`.
proof fn lemma_header_step(st: ParseState, sec: Seq<char>, rest: Seq<char>)
    requires
        no_char(sec, '\n'),
    ensures
        parse_lines(st, split_lines(seq!['['] + sec + seq![']'] + crlf() + rest)) == parse_lines(
            open_section(st, sec),
            split_lines(rest),
        ),
{
    let l = seq!['['] + sec + seq![']'] + seq!['\r'];
    assert(seq!['['] + sec + seq![']'] + crlf() + rest =~= l + seq!['\n'] + rest);
    assert forall|i: int| 0 <= i < l.len() implies #[trigger] l[i] != '\n' by {
        if 0 < i <= sec.len() {
            assert(l[i] == sec[i - 1]);
        }
    }
    lemma_split_cons(l, rest);
    lemma_parse_lines_cons(st, l, split_lines(rest));
    lemma_header_line(st, sec);
}

/// An empty line (`\r\n`).
proof fn lemma_blank_step(st: ParseState, rest: Seq<char>)
    ensures
        parse_lines(st, split_lines(crlf() + rest)) == parse_lines(st, split_lines(rest)),
{
    let l = seq!['\r'];
    assert(crlf() + rest =~= l + seq!['\n'] + rest);
    lemma_split_cons(l, rest);
    lemma_parse_lines_cons(st, l, split_lines(rest));
    lemma_blank_line(st);
}

// ------------------------------------------------------------- sections

/// State after the `[General]` section of a written file.
pub open spec fn after_general(s: SettingsView) -> ParseState {
    ParseState {
        s: SettingsView {
            display_24hr: s.display_24hr,
            scale: s.scale,
            board_scale: s.board_scale,
            flip_animation: s.flip_animation,
            ..default_settings_spec()
        },
        section: "General"@,
        cleared: false,
    }
}

#[verifier::rlimit(60)]
proof fn lemma_general(s: SettingsView, rest: Seq<char>)
    ensures
        parse_lines(initial_state(), split_lines(general_text(s) + rest)) == parse_lines(
            after_general(s),
            split_lines(rest),
        ),
{
    lemma_literals();
    let eq = seq!['='];
    let d1 = flag_dec(s.display_24hr);
    let d2 = int_dec(s.scale as int);
    let d3 = int_dec(s.board_scale as int);
    let d4 = flag_dec(s.flip_animation);
    lemma_flag_dec(s.display_24hr);
    lemma_value_dec(s.scale as int);
    lemma_value_dec(s.board_scale as int);
    lemma_flag_dec(s.flip_animation);
    let r5 = crlf() + rest;
    let r4 = "FlipAnimation"@ + eq + d4 + crlf() + r5;
    let r3 = "BoardScale"@ + eq + d3 + crlf() + r4;
    let r2 = "Scale"@ + eq + d2 + crlf() + r3;
    let r1 = "Display24Hr"@ + eq + d1 + crlf() + r2;
    assert(general_text(s) + rest =~= seq!['['] + "General"@ + seq![']'] + crlf() + r1);
    let st0 = initial_state();
    lemma_header_step(st0, "General"@, r1);
    let st1 = open_section(st0, "General"@);
    assert(st1 == ParseState { section: "General"@, ..st0 });
    lemma_kv_step(st1, "Display24Hr"@, d1, r2);
    let st2 = apply_kv(st1, "Display24Hr"@, d1);
    assert(st2.s.display_24hr == s.display_24hr);
    lemma_kv_step(st2, "Scale"@, d2, r3);
    let st3 = apply_kv(st2, "Scale"@, d2);
    lemma_kv_step(st3, "BoardScale"@, d3, r4);
    let st4 = apply_kv(st3, "BoardScale"@, d3);
    lemma_kv_step(st4, "FlipAnimation"@, d4, r5);
    let st5 = apply_kv(st4, "FlipAnimation"@, d4);
    lemma_blank_step(st5, rest);
    assert(st5 == after_general(s));
}

/// State after the sections of the monitors in `m`.
pub open spec fn after_screens(st: ParseState, m: Seq<(Seq<char>, ScreenSettings)>) -> ParseState {
    ParseState {
        s: SettingsView { screens: m, ..st.s },
        section: if m.len() == 0 {
            st.section
        } else {
            "Screen "@ + m.last().0
        },
        cleared: st.cleared,
    }
}

proof fn lemma_from_to_ini(sc: ScreenSettings)
    ensures
        Orientation::from_ini_spec(sc.orientation.to_ini_spec() as int) == sc.orientation,
        Mode::from_ini_spec(sc.mode.to_ini_spec() as int) == sc.mode,
        i32::MIN <= sc.orientation.to_ini_spec() <= i32::MAX,
{
}

#[verifier::rlimit(60)]
proof fn lemma_screens(st: ParseState, m: Seq<(Seq<char>, ScreenSettings)>, rest: Seq<char>)
    requires
        st.s.screens == Seq::<(Seq<char>, ScreenSettings)>::empty(),
        keys_sorted(m),
        forall|i: int| 0 <= i < m.len() ==> screen_entry_ok(#[trigger] m[i].0, m[i].1),
    ensures
        parse_lines(st, split_lines(screens_text(m) + rest)) == parse_lines(
            after_screens(st, m),
            split_lines(rest),
        ),
    decreases m.len(),
{
    if m.len() == 0 {
        assert(screens_text(m) + rest =~= rest);
        assert(m =~= st.s.screens);
        assert(after_screens(st, m).s == st.s);
        assert(after_screens(st, m) == st);
    } else {
        let m1 = m.drop_last();
        let x = m.last();
        let name = x.0;
        let sc = x.1;
        assert(screen_entry_ok(m[m.len() - 1].0, m[m.len() - 1].1));
        assert forall|i: int| 0 <= i < m1.len() implies screen_entry_ok(#[trigger] m1[i].0, m1[i].1) by {
            assert(m1[i] == m[i]);
        }
        assert(keys_sorted(m1)) by {
            assert forall|i: int, j: int| 0 <= i < j < m1.len() implies str_lt(#[trigger] m1[i].0, #[trigger] m1[j].0) by {
                assert(m1[i] == m[i] && m1[j] == m[j]);
            }
        }
        let chunk_rest = screen_text(name, sc) + rest;
        assert(screens_text(m) + rest =~= screens_text(m1) + chunk_rest);
        lemma_screens(st, m1, chunk_rest);
        let st1 = after_screens(st, m1);
        // the chunk of the last monitor
        lemma_literals();
        let eq = seq!['='];
        let sec = "Screen "@ + name;
        let d1 = int_dec(sc.orientation.to_ini_spec() as int);
        let d2 = int_dec(sc.mode.to_ini_spec() as int);
        lemma_value_dec(sc.orientation.to_ini_spec() as int);
        lemma_value_dec(sc.mode.to_ini_spec() as int);
        lemma_from_to_ini(sc);
        let r3 = crlf() + rest;
        let r2 = "Mode"@ + eq + d2 + crlf() + r3;
        let r1 = "Orientation"@ + eq + d1 + crlf() + r2;
        assert(chunk_rest =~= seq!['['] + sec + seq![']'] + crlf() + r1);
        assert(no_char(sec, '\n')) by {
            assert forall|i: int| 0 <= i < sec.len() implies #[trigger] sec[i] != '\n' by {
                if i < 7 {
                    assert(sec[i] == "Screen "@[i]);
                } else {
                    assert(sec[i] == name[i - 7]);
                }
            }
        }
        lemma_header_step(st1, sec, r1);
        assert(sec[0] == 'S');
        assert(sec != "WorldClocks"@);
        let st2 = open_section(st1, sec);
        assert(st2 == ParseState { section: sec, ..st1 });
        assert(sec != "General"@);
        assert(sec.take(7) =~= "Screen "@);
        assert(sec.skip(7) =~= name);
        assert forall|j: int| 0 <= j < m1.len() implies str_lt(#[trigger] m1[j].0, name) by {
            assert(m1[j] == m[j]);
        }
        lemma_map_set_append(m1, name, ScreenSettings { orientation: sc.orientation, mode: Mode::Clock });
        lemma_kv_step(st2, "Orientation"@, d1, r2);
        let e1 = ScreenSettings { orientation: sc.orientation, mode: Mode::Clock };
        let st3 = apply_kv(st2, "Orientation"@, d1);
        assert(st3.s.screens == m1.push((name, e1)));
        lemma_map_set_last(m1, name, e1, sc);
        lemma_kv_step(st3, "Mode"@, d2, r3);
        let st4 = apply_kv(st3, "Mode"@, d2);
        assert(st4.s.screens == m1.push((name, sc)));
        assert(m1.push((name, sc)) =~= m);
        lemma_blank_step(st4, rest);
        assert(st4 == after_screens(st, m));
    }
}

/// State after the city lines `c` of the `[WorldClocks]` section.
pub open spec fn after_clocks(st: ParseState, c: Seq<(Seq<char>, Seq<char>)>) -> ParseState {
    ParseState { s: SettingsView { world_clocks: st.s.world_clocks + c, ..st.s }, ..st }
}

proof fn lemma_clock_line(st: ParseState, label: Seq<char>, zone: Seq<char>)
    requires
        st.section == "WorldClocks"@,
        clock_entry_ok(label, zone),
    ensures
        apply_kv(st, label, zone) == after_clocks(st, seq![(label, zone)]),
{
    lemma_literals();
    assert(st.section != "General"@);
    assert(st.section.take(7)[0] == 'W');
    assert(st.section.take(7) != "Screen "@);
    assert(trim(label) == label);
    assert(trim(zone) == zone);
    assert(take_upto(label, LABEL_CELLS as int) == label);
    assert(st.s.world_clocks.push((label, zone)) =~= st.s.world_clocks + seq![(label, zone)]);
}

#[verifier::rlimit(30)]
proof fn lemma_clocks(st: ParseState, c: Seq<(Seq<char>, Seq<char>)>, rest: Seq<char>)
    requires
        st.section == "WorldClocks"@,
        forall|i: int| 0 <= i < c.len() ==> clock_entry_ok(#[trigger] c[i].0, c[i].1),
    ensures
        parse_lines(st, split_lines(clocks_text(c) + rest)) == parse_lines(
            after_clocks(st, c),
            split_lines(rest),
        ),
    decreases c.len(),
{
    if c.len() == 0 {
        assert(clocks_text(c) + rest =~= rest);
        assert(st.s.world_clocks + c =~= st.s.world_clocks);
        assert(after_clocks(st, c).s == st.s);
        assert(after_clocks(st, c) == st);
    } else {
        let c1 = c.drop_last();
        let label = c.last().0;
        let zone = c.last().1;
        assert(clock_entry_ok(c[c.len() - 1].0, c[c.len() - 1].1));
        assert forall|i: int| 0 <= i < c1.len() implies clock_entry_ok(#[trigger] c1[i].0, c1[i].1) by {
            assert(c1[i] == c[i]);
        }
        let line_rest = label + seq!['='] + zone + crlf() + rest;
        assert(clocks_text(c) + rest =~= clocks_text(c1) + line_rest);
        lemma_clocks(st, c1, line_rest);
        let st1 = after_clocks(st, c1);
        lemma_kv_step(st1, label, zone, rest);
        lemma_clock_line(st1, label, zone);
        assert((st.s.world_clocks + c1) + seq![(label, zone)] =~= st.s.world_clocks + c);
    }
}

/// Writing settings and reading the text back gives the same settings,
/// for every settings value whose monitor names and city entries fit the
/// line format (see `ini_round_trips`).
pub proof fn lemma_ini_round_trip(s: SettingsView)
    requires
        ini_round_trips(s),
    ensures
        parse_ini(ini_text(s)) == s,
{
    lemma_literals();
    let m = s.screens;
    let c = s.world_clocks;
    let r4 = crlf();
    let r3 = clocks_text(c) + r4;
    let r2 = "[WorldClocks]"@ + crlf() + r3;
    let r1 = screens_text(m) + r2;
    assert(ini_text(s) =~= general_text(s) + r1);
    lemma_general(s, r1);
    let st1 = after_general(s);
    lemma_screens(st1, m, r2);
    let st2 = after_screens(st1, m);
    assert(r2 =~= seq!['['] + "WorldClocks"@ + seq![']'] + crlf() + r3);
    lemma_header_step(st2, "WorldClocks"@, r3);
    let st3 = open_section(st2, "WorldClocks"@);
    assert(st3.s.world_clocks == Seq::<(Seq<char>, Seq<char>)>::empty());
    lemma_clocks(st3, c, r4);
    let st4 = after_clocks(st3, c);
    assert(r4 =~= crlf() + Seq::<char>::empty());
    lemma_blank_step(st4, Seq::<char>::empty());
    assert(split_lines(Seq::<char>::empty()) =~= Seq::<Seq<char>>::empty());
    assert(st3.s.world_clocks + c =~= c);
    assert(st4.s == s);
}


/// The default settings (six preloaded cities, no monitor entries) come
/// back unchanged from their own text.
pub proof fn lemma_default_round_trip()
    ensures
        parse_ini(ini_text(default_settings_spec())) == default_settings_spec(),
{
    reveal_strlit("Los Angeles");
    reveal_strlit("Pacific Standard Time");
    reveal_strlit("New York");
    reveal_strlit("Eastern Standard Time");
    reveal_strlit("London");
    reveal_strlit("GMT Standard Time");
    reveal_strlit("Dubai");
    reveal_strlit("Arabian Standard Time");
    reveal_strlit("Tokyo");
    reveal_strlit("Tokyo Standard Time");
    reveal_strlit("Sydney");
    reveal_strlit("AUS Eastern Standard Time");
    let d = default_settings_spec();
    let c = d.world_clocks;
    assert forall|i: int| 0 <= i < c.len() implies clock_entry_ok(#[trigger] c[i].0, c[i].1) by {
        assert(0 <= i < 6);
    }
    lemma_ini_round_trip(d);
}

/// Every city label fits the board's label cells.
pub open spec fn labels_fit(s: SettingsView) -> bool {
    forall|i: int| 0 <= i < s.world_clocks.len() ==> (#[trigger] s.world_clocks[i]).0.len() <= LABEL_CELLS
}

proof fn lemma_default_labels_fit()
    ensures
        labels_fit(default_settings_spec()),
{
    reveal_strlit("Los Angeles");
    reveal_strlit("New York");
    reveal_strlit("London");
    reveal_strlit("Dubai");
    reveal_strlit("Tokyo");
    reveal_strlit("Sydney");
    let c = default_settings_spec().world_clocks;
    assert forall|i: int| 0 <= i < c.len() implies (#[trigger] c[i]).0.len() <= LABEL_CELLS by {
        assert(0 <= i < 6);
    }
}

proof fn lemma_parse_lines_labels_fit(st: ParseState, ls: Seq<Seq<char>>)
    requires
        labels_fit(st.s),
    ensures
        labels_fit(parse_lines(st, ls).s),
    decreases ls.len(),
{
    if ls.len() > 0 {
        let st1 = parse_line(st, ls[0]);
        let c = st1.s.world_clocks;
        assert forall|i: int| 0 <= i < c.len() implies (#[trigger] c[i]).0.len() <= LABEL_CELLS by {
            if i < st.s.world_clocks.len() && c[i] == st.s.world_clocks[i] {
            } else {
                let line = trim(ls[0]);
                let e = find_char(line, '=');
                let k = trim(line.take(e));
                if k.len() > LABEL_CELLS {
                    assert(k.take(LABEL_CELLS as int).len() == LABEL_CELLS);
                }
            }
        }
        lemma_parse_lines_labels_fit(st1, ls.drop_first());
    }
}

/// Whatever the text, every city label read from it fits the board's
/// label cells, so the reader and the board never disagree on width.
pub proof fn lemma_parsed_labels_fit(text: Seq<char>)
    ensures
        labels_fit(parse_ini(text)),
{
    lemma_default_labels_fit();
    lemma_parse_lines_labels_fit(initial_state(), split_lines(text));
}

} // verus!
