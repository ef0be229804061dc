use flipsaver::dialog::{apply_dialog, build_template, dialog_initial_state, orientation_from_radios};
use flipsaver::settings::{Mode, Orientation, ScreenSettings, Settings};

fn wide(s: &str) -> Vec<u16> {
    let mut v: Vec<u16> = s.encode_utf16().collect();
    v.push(0);
    v
}

#[test]
fn template_header() {
    let w = build_template("Oswald", &[]);
    // style DS_SETFONT|DS_MODALFRAME|WS_POPUP|WS_CAPTION|WS_SYSMENU, low word first
    let style: u32 = 0x40 | 0x80 | 0x8000_0000 | 0x00C0_0000 | 0x0008_0000;
    assert_eq!(w[0], (style & 0xFFFF) as u16);
    assert_eq!(w[1], (style >> 16) as u16);
    assert_eq!(&w[2..4], &[0, 0]);
    assert_eq!(w[4], 9); // items
    assert_eq!(&w[5..9], &[0, 0, 260, 92]);
    assert_eq!(&w[9..11], &[0, 0]);
    let title = wide("FlipSaver Settings");
    assert_eq!(&w[11..11 + title.len()], title.as_slice());
    assert_eq!(w[11 + title.len()], 8);
    let font = wide("MS Shell Dlg");
    let at = 12 + title.len();
    assert_eq!(&w[at..at + font.len()], font.as_slice());
}

#[test]
fn template_grows_with_monitors() {
    let none = build_template("Oswald", &[]);
    let two = build_template("Oswald", &[(1920, 1080), (-1, 7)]);
    assert!(two.len() > none.len());
    assert_eq!(two[4], 9 + 2 * 4);
    assert_eq!(two[8], (92 + 2 * 14) as u16);
    let label = wide("Screen 2 (-1x7):");
    assert!(two.windows(label.len()).any(|x| x == label.as_slice()));
    let font = wide("Oswald");
    assert!(two.windows(font.len()).any(|x| x == font.as_slice()));
}

#[test]
fn template_items_are_dword_aligned() {
    // every item header starts at an even word offset; the OK button's
    // style dword (default push button, tab stop, group, child, visible)
    // is present on such an offset
    let w = build_template("X", &[(800, 600)]);
    let ok_style: u32 = 1 | 0x0001_0000 | 0x0002_0000 | 0x4000_0000 | 0x1000_0000;
    let lo = (ok_style & 0xFFFF) as u16;
    let hi = (ok_style >> 16) as u16;
    assert!((0..w.len() - 1).any(|i| i % 2 == 0 && w[i] == lo && w[i + 1] == hi));
}

#[test]
fn surrogate_pairs_in_font_name() {
    let w = build_template("\u{1F600}", &[]);
    assert!(w.windows(2).any(|x| x == [0xD83D, 0xDE00]));
}

#[test]
fn initial_state_reflects_settings() {
    let mut s = Settings::default();
    s.display_24hr = true;
    s.scale = 70;
    s.screens.insert("B".into(), ScreenSettings { orientation: Orientation::Vertical, mode: Mode::Clock });
    let devices = vec!["A".to_string(), "B".to_string()];
    let (is24, pos, checked) = dialog_initial_state(&s, &devices);
    assert!(is24);
    assert_eq!(pos, 7);
    assert_eq!(checked, vec![200, 204 + 2]);
}

#[test]
fn apply_keeps_mode_and_other_monitors() {
    let mut s = Settings::default();
    s.screens.insert("B".into(), ScreenSettings { orientation: Orientation::Vertical, mode: Mode::World });
    s.screens.insert("Z".into(), ScreenSettings { orientation: Orientation::Vertical, mode: Mode::Clock });
    let choices = vec![("B".to_string(), Orientation::Horizontal), ("A".to_string(), Orientation::Auto)];
    apply_dialog(&mut s, true, 4, &choices);
    assert!(s.display_24hr);
    assert_eq!(s.scale, 40);
    assert_eq!(s.screens.get("B"), Some(ScreenSettings { orientation: Orientation::Horizontal, mode: Mode::World }));
    assert_eq!(s.screens.get("A"), Some(ScreenSettings { orientation: Orientation::Auto, mode: Mode::Clock }));
    assert_eq!(s.screens.get("Z").map(|e| e.orientation), Some(Orientation::Vertical));
}

#[test]
fn radios_to_orientation() {
    assert_eq!(orientation_from_radios(true, false), Orientation::Horizontal);
    assert_eq!(orientation_from_radios(false, true), Orientation::Vertical);
    assert_eq!(orientation_from_radios(false, false), Orientation::Auto);
}

#[test]
fn last_choice_for_a_monitor_wins() {
    let mut s = Settings::default();
    s.screens.insert("D".into(), ScreenSettings { orientation: Orientation::Auto, mode: Mode::World });
    let choices = vec![("D".to_string(), Orientation::Vertical), ("D".to_string(), Orientation::Horizontal)];
    apply_dialog(&mut s, false, 7, &choices);
    assert_eq!(s.scale, 70);
    assert_eq!(s.screens.get("D"), Some(ScreenSettings { orientation: Orientation::Horizontal, mode: Mode::World }));
    assert_eq!(s.screens.len(), 1);
}
