//! The settings dialog: its in-memory dialog template (the `DLGTEMPLATE`
//! word stream) and the mapping between settings and the dialog controls.

use vstd::prelude::*;
use vstd::string::*;
use crate::screen_map::{keys_sorted, lemma_map_get_set, lemma_map_set_sorted, map_get, map_set};
use crate::settings::{Orientation, ScreenSettings, Settings};
use crate::text::{dec, int_dec, push_char, push_dec, push_i32};

verus! {

// Win32 style bits and control ids used by the template.
pub const DS_SETFONT: u32 = 0x40;
pub const DS_MODALFRAME: u32 = 0x80;
pub const WS_POPUP: u32 = 0x8000_0000;
pub const WS_CAPTION: u32 = 0x00C0_0000;
pub const WS_SYSMENU: u32 = 0x0008_0000;
pub const WS_CHILD: u32 = 0x4000_0000;
pub const WS_VISIBLE: u32 = 0x1000_0000;
pub const WS_TABSTOP: u32 = 0x0001_0000;
pub const WS_GROUP: u32 = 0x0002_0000;
pub const BS_AUTORADIOBUTTON: u32 = 9;
pub const BS_DEFPUSHBUTTON: u32 = 1;
pub const BS_PUSHBUTTON: u32 = 0;
pub const TBS_AUTOTICKS: u32 = 1;
pub const TBS_HORZ: u32 = 0;
pub const IDOK: u16 = 1;
pub const IDCANCEL: u16 = 2;
pub const IDC_12H: u16 = 101;
pub const IDC_24H: u16 = 102;
pub const IDC_SCALE: u16 = 103;
/// Predefined window-class atoms.
pub const ATOM_BUTTON: u16 = 0x0080;
pub const ATOM_STATIC: u16 = 0x0082;

// ------------------------------------------------------------------ words

/// UTF-16 code units of one character.
pub open spec fn utf16_char(c: char) -> Seq<u16> {
    let u = c as u32;
    if u < 0x10000 {
        seq![u as u16]
    } else {
        let v = u - 0x10000;
        seq![(0xD800 + v / 1024) as u16, (0xDC00 + v % 1024) as u16]
    }
}

/// `str::encode_utf16`.
pub open spec fn utf16(s: Seq<char>) -> Seq<u16>
    decreases s.len(),
{
    if s.len() == 0 {
        Seq::empty()
    } else {
        utf16(s.drop_last()) + utf16_char(s.last())
    }
}

/// A DWORD as two words, low first.
pub open spec fn dword_words(d: u32) -> Seq<u16> {
    seq![(d % 0x10000) as u16, (d / 0x10000) as u16]
}

/// A NUL-terminated UTF-16 string.
pub open spec fn wstr_words(s: Seq<char>) -> Seq<u16> {
    utf16(s).push(0)
}

/// Pads to a DWORD boundary.
pub open spec fn align_words(w: Seq<u16>) -> Seq<u16> {
    if w.len() % 2 == 1 {
        w.push(0)
    } else {
        w
    }
}

pub open spec fn dialog_style() -> u32 {
    DS_SETFONT | DS_MODALFRAME | WS_POPUP | WS_CAPTION | WS_SYSMENU
}

/// The `DLGTEMPLATE` header with its menu, class, title and font.
pub open spec fn header_words(title: Seq<char>, cx: i16, cy: i16, item_count: u16) -> Seq<u16> {
    dword_words(dialog_style()) + dword_words(0) + seq![item_count, 0, 0, cx as u16, cy as u16, 0, 0]
        + wstr_words(title) + seq![8u16] + wstr_words("MS Shell Dlg"@)
}

/// An item's `DLGITEMTEMPLATE`, appended after alignment.
pub open spec fn item_header_words(w: Seq<u16>, style: u32, x: i16, y: i16, cx: i16, cy: i16, id: u16) -> Seq<u16> {
    align_words(w) + dword_words(style | WS_CHILD | WS_VISIBLE) + dword_words(0) + seq![
        x as u16,
        y as u16,
        cx as u16,
        cy as u16,
        id,
    ]
}

/// An item of a predefined class (by atom).
pub open spec fn item_atom_words(w: Seq<u16>, style: u32, x: i16, y: i16, cx: i16, cy: i16, id: u16, atom: u16, text: Seq<char>) -> Seq<u16> {
    item_header_words(w, style, x, y, cx, cy, id) + seq![0xFFFFu16, atom] + wstr_words(text) + seq![0u16]
}

/// An item of a class given by name.
pub open spec fn item_class_words(w: Seq<u16>, style: u32, x: i16, y: i16, cx: i16, cy: i16, id: u16, class: Seq<char>, text: Seq<char>) -> Seq<u16> {
    item_header_words(w, style, x, y, cx, cy, id) + wstr_words(class) + wstr_words(text) + seq![0u16]
}

struct DlgBuilder {
    words: Vec<u16>,
}

impl DlgBuilder {
    fn word(&mut self, w: u16)
        ensures
            final(self).words@ == old(self).words@.push(w),
    {
        self.words.push(w);
    }

    fn dword(&mut self, d: u32)
        ensures
            final(self).words@ == old(self).words@ + dword_words(d),
    {
        self.word((d & 0xFFFF) as u16);
        self.word((d >> 16) as u16);
        assert((d & 0xFFFF) == d % 0x10000) by (bit_vector);
        assert((d >> 16) == d / 0x10000) by (bit_vector);
        assert(final(self).words@ =~= old(self).words@ + dword_words(d));
    }

    fn utf16_of(&mut self, c: char)
        ensures
            final(self).words@ == old(self).words@ + utf16_char(c),
    {
        let u = c as u32;
        if u < 0x10000 {
            self.word(u as u16);
        } else {
            let v = u - 0x10000;
            assert(v / 1024 < 1024) by {
                vstd::utf8::char_is_scalar(c);
            }
            self.word((0xD800 + v / 1024) as u16);
            self.word((0xDC00 + v % 1024) as u16);
        }
        assert(final(self).words@ =~= old(self).words@ + utf16_char(c));
    }

    fn wstr(&mut self, s: &str)
        ensures
            final(self).words@ == old(self).words@ + wstr_words(s@),
    {
        let ghost base = self.words@;
        for c in it: s.chars()
            invariant
                it.seq() == s@,
                self.words@ == base + utf16(s@.take(it.index() as int)),
        {
            let ghost k = it.index();
            self.utf16_of(c);
            proof {
                assert(s@.take(k + 1).drop_last() =~= s@.take(k as int));
                assert(s@.take(k + 1).last() == c);
                assert(self.words@ =~= base + utf16(s@.take(k + 1)));
            }
        }
        assert(s@.take(s@.len() as int) =~= s@);
        self.word(0);
        assert(self.words@ =~= base + wstr_words(s@));
    }

    fn align_dword(&mut self)
        ensures
            final(self).words@ == align_words(old(self).words@),
    {
        if self.words.len() % 2 == 1 {
            self.word(0);
        }
    }

    fn new(title: &str, cx: i16, cy: i16, item_count: u16) -> (b: DlgBuilder)
        ensures
            b.words@ == header_words(title@, cx, cy, item_count),
    {
        let mut b = DlgBuilder { words: Vec::new() };
        let style: u32 = DS_SETFONT | DS_MODALFRAME | WS_POPUP | WS_CAPTION | WS_SYSMENU;
        b.dword(style);
        b.dword(0);  // extended style
        b.word(item_count);
        b.word(0);  // x
        b.word(0);  // y
        b.word(cx as u16);
        b.word(cy as u16);
        b.word(0);  // no menu
        b.word(0);  // default dialog class
        b.wstr(title);
        b.word(8);  // font point size (DS_SETFONT)
        b.wstr("MS Shell Dlg");
        assert(b.words@ =~= header_words(title@, cx, cy, item_count));
        b
    }

    fn item_header(&mut self, style: u32, x: i16, y: i16, cx: i16, cy: i16, id: u16)
        ensures
            final(self).words@ == item_header_words(old(self).words@, style, x, y, cx, cy, id),
    {
        let ghost w0 = self.words@;
        self.align_dword();
        self.dword(style | WS_CHILD | WS_VISIBLE);
        self.dword(0);  // extended style
        self.word(x as u16);
        self.word(y as u16);
        self.word(cx as u16);
        self.word(cy as u16);
        self.word(id);
        assert(self.words@ =~= item_header_words(w0, style, x, y, cx, cy, id));
    }

    fn item_atom(&mut self, style: u32, x: i16, y: i16, cx: i16, cy: i16, id: u16, atom: u16, text: &str)
        ensures
            final(self).words@ == item_atom_words(old(self).words@, style, x, y, cx, cy, id, atom, text@),
    {
        let ghost w0 = self.words@;
        self.item_header(style, x, y, cx, cy, id);
        self.word(0xFFFF);
        self.word(atom);
        self.wstr(text);
        self.word(0);  // no creation data
        assert(self.words@ =~= item_atom_words(w0, style, x, y, cx, cy, id, atom, text@));
    }

    fn item_class(&mut self, style: u32, x: i16, y: i16, cx: i16, cy: i16, id: u16, class: &str, text: &str)
        ensures
            final(self).words@ == item_class_words(old(self).words@, style, x, y, cx, cy, id, class@, text@),
    {
        let ghost w0 = self.words@;
        self.item_header(style, x, y, cx, cy, id);
        self.wstr(class);
        self.wstr(text);
        self.word(0);
        assert(self.words@ =~= item_class_words(w0, style, x, y, cx, cy, id, class@, text@));
    }
}

// ------------------------------------------------------------------ template

/// Caption of a monitor's row: `Screen N (WxH):`.
pub open spec fn monitor_label(row: nat, w: i32, h: i32) -> Seq<char> {
    "Screen "@ + dec(row + 1) + " ("@ + int_dec(w as int) + seq!['x'] + int_dec(h as int) + "):"@
}

/// The four controls of a monitor row: caption + Auto/Horizontal/Vertical
/// radios. Each row's first radio starts a group, so the rows are
/// independent radio groups.
pub open spec fn row_words(w: Seq<u16>, row: nat, mw: i32, mh: i32) -> Seq<u16> {
    let y = (64 + row * 14) as i16;
    let base = (200 + row * 4) as u16;
    let w1 = item_atom_words(w, 0, 7, (y + 1) as i16, 100, 8, 0, ATOM_STATIC, monitor_label(row, mw, mh));
    let w2 = item_atom_words(w1, BS_AUTORADIOBUTTON | WS_TABSTOP | WS_GROUP, 110, y, 38, 10, base, ATOM_BUTTON, "Auto"@);
    let w3 = item_atom_words(w2, BS_AUTORADIOBUTTON, 150, y, 52, 10, (base + 1) as u16, ATOM_BUTTON, "Horizontal"@);
    item_atom_words(w3, BS_AUTORADIOBUTTON, 205, y, 45, 10, (base + 2) as u16, ATOM_BUTTON, "Vertical"@)
}

pub open spec fn rows_words(w: Seq<u16>, monitors: Seq<(i32, i32)>) -> Seq<u16>
    decreases monitors.len(),
{
    if monitors.len() == 0 {
        w
    } else {
        row_words(
            rows_words(w, monitors.drop_last()),
            (monitors.len() - 1) as nat,
            monitors.last().0,
            monitors.last().1,
        )
    }
}

/// The whole dialog template for the given font name and monitor sizes.
pub open spec fn template_spec(font_name: Seq<char>, monitors: Seq<(i32, i32)>) -> Seq<u16> {
    let rows = monitors.len();
    let w0 = header_words("FlipSaver Settings"@, 260, (92 + rows * 14) as i16, (9 + rows * 4) as u16);
    let w1 = item_atom_words(w0, 0, 7, 9, 45, 8, 0, ATOM_STATIC, "Time format:"@);
    let w2 = item_atom_words(w1, BS_AUTORADIOBUTTON | WS_TABSTOP | WS_GROUP, 60, 7, 45, 10, IDC_12H, ATOM_BUTTON, "12 hour"@);
    let w3 = item_atom_words(w2, BS_AUTORADIOBUTTON, 115, 7, 45, 10, IDC_24H, ATOM_BUTTON, "24 hour"@);
    let w4 = item_atom_words(w3, 0, 7, 32, 45, 8, 0, ATOM_STATIC, "Size:"@);
    let w5 = item_class_words(w4, (TBS_AUTOTICKS | TBS_HORZ) | WS_TABSTOP | WS_GROUP, 58, 29, 110, 15, IDC_SCALE, "msctls_trackbar32"@, ""@);
    let w6 = item_atom_words(w5, 0, 7, 52, 45, 8, 0, ATOM_STATIC, "Font:"@);
    let w7 = item_atom_words(w6, 0, 60, 52, 108, 8, 0, ATOM_STATIC, font_name);
    let w8 = rows_words(w7, monitors);
    let by = (71 + rows * 14) as i16;
    let w9 = item_atom_words(w8, BS_DEFPUSHBUTTON | WS_TABSTOP | WS_GROUP, 63, by, 50, 14, IDOK, ATOM_BUTTON, "OK"@);
    item_atom_words(w9, BS_PUSHBUTTON | WS_TABSTOP, 118, by, 50, 14, IDCANCEL, ATOM_BUTTON, "Cancel"@)
}

fn monitor_label_string(row: usize, w: i32, h: i32) -> (s: String)
    requires
        row < 0x8000,
    ensures
        s@ == monitor_label(row as nat, w, h),
{
    let mut s = String::new();
    s.append("Screen ");
    push_dec(&mut s, (row + 1) as u64);
    s.append(" (");
    push_i32(&mut s, w);
    push_char(&mut s, 'x');
    push_i32(&mut s, h);
    s.append("):");
    assert(s@ =~= monitor_label(row as nat, w, h));
    s
}

/// The dialog template: time format radios, size slider, font name, one
/// row of orientation radios per monitor (given by its width and height),
/// OK and Cancel. Fewer than 2334 monitors keep the dialog height in range.
pub fn build_template(font_name: &str, monitors: &[(i32, i32)]) -> (r: Vec<u16>)
    requires
        92 + monitors@.len() * 14 <= i16::MAX,
    ensures
        r@ == template_spec(font_name@, monitors@),
{
    let row_h: i16 = 14;
    let rows = monitors.len();
    let item_count = (9 + rows * 4) as u16;
    let cy = 92 + rows as i16 * row_h;
    let mut b = DlgBuilder::new("FlipSaver Settings", 260, cy, item_count);
    b.item_atom(0, 7, 9, 45, 8, 0, ATOM_STATIC, "Time format:");
    b.item_atom(BS_AUTORADIOBUTTON | WS_TABSTOP | WS_GROUP, 60, 7, 45, 10, IDC_12H, ATOM_BUTTON, "12 hour");
    b.item_atom(BS_AUTORADIOBUTTON, 115, 7, 45, 10, IDC_24H, ATOM_BUTTON, "24 hour");
    b.item_atom(0, 7, 32, 45, 8, 0, ATOM_STATIC, "Size:");
    b.item_class((TBS_AUTOTICKS | TBS_HORZ) | WS_TABSTOP | WS_GROUP, 58, 29, 110, 15, IDC_SCALE, "msctls_trackbar32", "");
    b.item_atom(0, 7, 52, 45, 8, 0, ATOM_STATIC, "Font:");
    b.item_atom(0, 60, 52, 108, 8, 0, ATOM_STATIC, font_name);
    let ghost w7 = b.words@;
    let mut row: usize = 0;
    while row < rows
        invariant
            row <= rows == monitors@.len(),
            92 + rows * 14 <= i16::MAX,
            row_h == 14,
            b.words@ == rows_words(w7, monitors@.take(row as int)),
        decreases rows - row,
    {
        let (mw, mh) = monitors[row];
        let y = 64 + row as i16 * row_h;
        let base = 200 + row as u16 * 4;
        let label = monitor_label_string(row, mw, mh);
        b.item_atom(0, 7, y + 1, 100, 8, 0, ATOM_STATIC, label.as_str());
        b.item_atom(BS_AUTORADIOBUTTON | WS_TABSTOP | WS_GROUP, 110, y, 38, 10, base, ATOM_BUTTON, "Auto");
        b.item_atom(BS_AUTORADIOBUTTON, 150, y, 52, 10, base + 1, ATOM_BUTTON, "Horizontal");
        b.item_atom(BS_AUTORADIOBUTTON, 205, y, 45, 10, base + 2, ATOM_BUTTON, "Vertical");
        proof {
            let m = monitors@.take(row + 1);
            assert(m.drop_last() =~= monitors@.take(row as int));
            assert(m.last() == monitors@[row as int]);
        }
        row = row + 1;
    }
    assert(monitors@.take(rows as int) =~= monitors@);
    let by = 71 + rows as i16 * row_h;
    b.item_atom(BS_DEFPUSHBUTTON | WS_TABSTOP | WS_GROUP, 63, by, 50, 14, IDOK, ATOM_BUTTON, "OK");
    b.item_atom(BS_PUSHBUTTON | WS_TABSTOP, 118, by, 50, 14, IDCANCEL, ATOM_BUTTON, "Cancel");
    b.words
}

// ------------------------------------------------------------------ controls

/// Control id of the first (Auto) radio of monitor row `row`.
pub open spec fn radio_base_spec(row: int) -> int {
    200 + row * 4
}

/// Radio checked for an orientation, relative to its row's first radio.
pub open spec fn radio_offset(o: Orientation) -> int {
    match o {
        Orientation::Auto => 0,
        Orientation::Horizontal => 1,
        Orientation::Vertical => 2,
    }
}

/// The orientation a row's radios select: Horizontal or Vertical when that
/// radio is checked, else Auto.
pub open spec fn orientation_of_radios(horizontal: bool, vertical: bool) -> Orientation {
    if horizontal {
        Orientation::Horizontal
    } else if vertical {
        Orientation::Vertical
    } else {
        Orientation::Auto
    }
}

/// The radio checked for an orientation is one of its row's three radios
/// (Auto, Horizontal, Vertical, from the row's first id) and reads back as
/// that orientation.
pub proof fn lemma_radio_reads_back(o: Orientation, base: int)
    ensures
        base <= base + radio_offset(o) <= base + 2,
        orientation_of_radios(base + radio_offset(o) == base + 1, base + radio_offset(o) == base + 2) == o,
{
}

pub open spec fn stored_orientation(s: Seq<(Seq<char>, ScreenSettings)>, device: Seq<char>) -> Orientation {
    match map_get(s, device) {
        Some(e) => e.orientation,
        None => Orientation::Auto,
    }
}

/// Initial control state: 24h radio, slider position (scale / 10) and the
/// checked radio id of each monitor row (absent monitors show Auto).
pub fn dialog_initial_state(settings: &Settings, devices: &[String]) -> (r: (bool, i32, Vec<i32>))
    requires
        4 * devices@.len() + 196 <= i32::MAX,
    ensures
        r.0 == settings.display_24hr,
        r.1 == crate::clock::tdiv(settings.scale as int, 10),
        r.2@.len() == devices@.len(),
        forall|i: int| 0 <= i < devices@.len() ==> #[trigger] r.2@[i] == radio_base_spec(i) + radio_offset(stored_orientation(settings@.screens, devices@[i]@)),
        forall|i: int|
            0 <= i < devices@.len() ==> radio_base_spec(i) <= #[trigger] r.2@[i] <= radio_base_spec(i) + 2
                && orientation_of_radios(r.2@[i] == radio_base_spec(i) + 1, r.2@[i] == radio_base_spec(i) + 2)
                == stored_orientation(settings@.screens, devices@[i]@),
{
    let mut checked: Vec<i32> = Vec::new();
    let mut row: usize = 0;
    while row < devices.len()
        invariant
            row <= devices@.len(),
            4 * devices@.len() + 196 <= i32::MAX,
            checked@.len() == row,
            forall|i: int| 0 <= i < row ==> #[trigger] checked@[i] == radio_base_spec(i) + radio_offset(stored_orientation(settings@.screens, devices@[i]@)),
        decreases devices@.len() - row,
    {
        let base = 200 + row as i32 * 4;
        let orient = match settings.screens.get(devices[row].as_str()) {
            Some(e) => e.orientation,
            None => Orientation::Auto,
        };
        let off = match orient {
            Orientation::Auto => 0,
            Orientation::Horizontal => 1,
            Orientation::Vertical => 2,
        };
        checked.push(base + off);
        row = row + 1;
    }
    proof {
        assert forall|i: int| 0 <= i < devices@.len() implies radio_base_spec(i) <= #[trigger] checked@[i]
            <= radio_base_spec(i) + 2 && orientation_of_radios(
            checked@[i] == radio_base_spec(i) + 1,
            checked@[i] == radio_base_spec(i) + 2,
        ) == stored_orientation(settings@.screens, devices@[i]@) by {
            lemma_radio_reads_back(stored_orientation(settings@.screens, devices@[i]@), radio_base_spec(i));
        }
    }
    (settings.display_24hr, settings.scale / 10, checked)
}

/// A row's orientation from its Horizontal and Vertical radio states.
pub fn orientation_from_radios(horizontal: bool, vertical: bool) -> (r: Orientation)
    ensures
        r == (if horizontal {
            Orientation::Horizontal
        } else if vertical {
            Orientation::Vertical
        } else {
            Orientation::Auto
        }),
        r == orientation_of_radios(horizontal, vertical),
{
    if horizontal {
        Orientation::Horizontal
    } else if vertical {
        Orientation::Vertical
    } else {
        Orientation::Auto
    }
}

/// Monitor entries after the dialog's choices: each chosen monitor gets
/// its orientation, keeping its mode; monitors not shown are untouched.
pub open spec fn apply_choices(m: Seq<(Seq<char>, ScreenSettings)>, choices: Seq<(Seq<char>, Orientation)>) -> Seq<(Seq<char>, ScreenSettings)>
    decreases choices.len(),
{
    if choices.len() == 0 {
        m
    } else {
        let prev = apply_choices(m, choices.drop_last());
        let (dev, o) = choices.last();
        let cur = match map_get(prev, dev) {
            Some(e) => e,
            None => ScreenSettings::default_spec(),
        };
        map_set(prev, dev, ScreenSettings { orientation: o, ..cur })
    }
}

/// The mode a monitor keeps through the dialog (the dialog sets only
/// orientations).
pub open spec fn kept_mode(m: Seq<(Seq<char>, ScreenSettings)>, dev: Seq<char>) -> crate::settings::Mode {
    match map_get(m, dev) {
        Some(e) => e.mode,
        None => crate::settings::Mode::Clock,
    }
}

/// What the dialog does to the monitor entries: the map stays ordered; a
/// monitor that was not shown reads as before; a shown monitor reads as
/// its last chosen orientation with its mode kept.
pub proof fn lemma_apply_choices(
    m: Seq<(Seq<char>, ScreenSettings)>,
    choices: Seq<(Seq<char>, Orientation)>,
    dev: Seq<char>,
)
    requires
        keys_sorted(m),
    ensures
        keys_sorted(apply_choices(m, choices)),
        (forall|i: int| 0 <= i < choices.len() ==> (#[trigger] choices[i]).0 != dev) ==> map_get(
            apply_choices(m, choices),
            dev,
        ) == map_get(m, dev),
        choices.len() > 0 && choices.last().0 == dev ==> map_get(apply_choices(m, choices), dev)
            == Some(ScreenSettings { orientation: choices.last().1, mode: kept_mode(m, dev) }),
    decreases choices.len(),
{
    if choices.len() > 0 {
        let init = choices.drop_last();
        lemma_apply_choices(m, init, dev);
        let prev = apply_choices(m, init);
        let (d, o) = choices.last();
        let cur = match map_get(prev, d) {
            Some(e) => e,
            None => ScreenSettings::default_spec(),
        };
        lemma_map_set_sorted(prev, d, ScreenSettings { orientation: o, ..cur });
        lemma_map_get_set(prev, d, ScreenSettings { orientation: o, ..cur }, dev);
        if d == dev {
            // the mode read before this choice is the kept one
            lemma_apply_choices_mode(m, init, dev);
        } else {
            assert forall|i: int| 0 <= i < init.len() implies (#[trigger] init[i]).0 == choices[i].0 by {}
        }
    }
}

proof fn lemma_apply_choices_mode(
    m: Seq<(Seq<char>, ScreenSettings)>,
    choices: Seq<(Seq<char>, Orientation)>,
    dev: Seq<char>,
)
    requires
        keys_sorted(m),
    ensures
        (match map_get(apply_choices(m, choices), dev) {
            Some(e) => e.mode,
            None => crate::settings::Mode::Clock,
        }) == kept_mode(m, dev),
        map_get(apply_choices(m, choices), dev) is None ==> map_get(m, dev) is None,
    decreases choices.len(),
{
    if choices.len() > 0 {
        let init = choices.drop_last();
        lemma_apply_choices_mode(m, init, dev);
        lemma_apply_choices(m, init, dev);
        let prev = apply_choices(m, init);
        let (d, o) = choices.last();
        let cur = match map_get(prev, d) {
            Some(e) => e,
            None => ScreenSettings::default_spec(),
        };
        lemma_map_get_set(prev, d, ScreenSettings { orientation: o, ..cur }, dev);
    }
}

/// OK pressed: the 24h radio, the slider (stored times ten) and each
/// shown monitor's orientation go into the settings.
pub fn apply_dialog(settings: &mut Settings, is_24h: bool, slider_pos: i32, choices: &[(String, Orientation)])
    requires
        i32::MIN <= slider_pos * 10 <= i32::MAX,
    ensures
        final(settings).display_24hr == is_24h,
        final(settings).scale == slider_pos * 10,
        final(settings).board_scale == old(settings).board_scale,
        final(settings).flip_animation == old(settings).flip_animation,
        final(settings).world_clocks == old(settings).world_clocks,
        final(settings)@.screens == apply_choices(old(settings)@.screens, choices@.map_values(|c: (String, Orientation)| (c.0@, c.1))),
{
    settings.display_24hr = is_24h;
    settings.scale = slider_pos * 10;
    let ghost cv = choices@.map_values(|c: (String, Orientation)| (c.0@, c.1));
    let ghost m0 = settings@.screens;
    let mut i: usize = 0;
    while i < choices.len()
        invariant
            i <= choices@.len(),
            cv == choices@.map_values(|c: (String, Orientation)| (c.0@, c.1)),
            settings.display_24hr == is_24h,
            settings.scale == slider_pos * 10,
            settings.board_scale == old(settings).board_scale,
            settings.flip_animation == old(settings).flip_animation,
            settings.world_clocks == old(settings).world_clocks,
            settings@.screens == apply_choices(m0, cv.take(i as int)),
        decreases choices@.len() - i,
    {
        let dev = &choices[i].0;
        let o = choices[i].1;
        let cur = match settings.screens.get(dev.as_str()) {
            Some(e) => e,
            None => ScreenSettings::default(),
        };
        settings.screens.insert(dev.clone(), ScreenSettings { orientation: o, ..cur });
        proof {
            assert(cv.take(i + 1).drop_last() =~= cv.take(i as int));
            assert(cv.take(i + 1).last() == cv[i as int]);
        }
        i = i + 1;
    }
    assert(cv.take(choices@.len() as int) =~= cv);
}

} // verus!
