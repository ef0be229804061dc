use flipsaver::screen_map::ScreenMap;
use flipsaver::settings::{default_world_clocks, Mode, Orientation, ScreenSettings, Settings};

#[test]
fn board_scale_defaults_to_100() {
    assert_eq!(Settings::default().board_scale, 100);
    // absent key (pre-existing INIs) -> 100
    assert_eq!(Settings::from_ini_text("[General]\nScale=70\n").board_scale, 100);
    // garbage -> 100
    assert_eq!(Settings::from_ini_text("[General]\nBoardScale=abc\n").board_scale, 100);
}

#[test]
fn board_scale_round_trips() {
    let mut s = Settings::default();
    s.board_scale = 40;
    assert_eq!(Settings::from_ini_text(&s.to_ini_text()).board_scale, 40);
    assert!(s.to_ini_text().contains("BoardScale=40"));
}

#[test]
fn flip_animation_defaults_on() {
    assert!(Settings::default().flip_animation);
    // absent key -> on
    assert!(Settings::from_ini_text("[General]\nScale=70\n").flip_animation);
    // garbage -> on
    assert!(Settings::from_ini_text("[General]\nFlipAnimation=yes\n").flip_animation);
}

#[test]
fn flip_animation_explicit_zero_disables() {
    assert!(!Settings::from_ini_text("[General]\nFlipAnimation=0\n").flip_animation);
    assert!(Settings::from_ini_text("[General]\nFlipAnimation=1\n").flip_animation);
}

#[test]
fn flip_animation_round_trips() {
    let mut s = Settings::default();
    s.flip_animation = false;
    assert!(!Settings::from_ini_text(&s.to_ini_text()).flip_animation);
    assert!(s.to_ini_text().contains("FlipAnimation=0"));
}

#[test]
fn parses_both_keys() {
    let s = Settings::from_ini_text("[General]\r\nDisplay24Hr=1\r\nScale=40\r\n");
    assert!(s.display_24hr);
    assert_eq!(s.scale, 40);
}

#[test]
fn lines_without_equals_are_skipped() {
    let s = Settings::from_ini_text("[General]\nthis is a comment\nScale=30\n");
    assert_eq!(s.scale, 30);
}

#[test]
fn garbage_values_fall_back_to_defaults() {
    let s = Settings::from_ini_text("[General]\nDisplay24Hr=yes\nScale=abc\n");
    assert!(!s.display_24hr);
    assert_eq!(s.scale, 70);
}

#[test]
fn keys_outside_general_are_ignored() {
    let s = Settings::from_ini_text("[Other]\nScale=10\n");
    assert_eq!(s.scale, 70);
}

#[test]
fn display24hr_only_1_is_true() {
    assert!(!Settings::from_ini_text("[General]\nDisplay24Hr=2\n").display_24hr);
    assert!(!Settings::from_ini_text("[General]\nDisplay24Hr=0\n").display_24hr);
}

#[test]
fn round_trip() {
    let s = Settings {
        display_24hr: true,
        scale: 90,
        board_scale: 100,
        flip_animation: true,
        screens: ScreenMap::new(),
        world_clocks: Vec::new(),
    };
    assert_eq!(Settings::from_ini_text(&s.to_ini_text()), s);
}

#[test]
fn full_default_settings_round_trip() {
    // The most common real file: everything default, including the
    // preloaded city list through the always-emitted [WorldClocks]
    // header and its clear-on-first-header rule.
    let s = Settings::default();
    assert_eq!(Settings::from_ini_text(&s.to_ini_text()), s);
}

#[test]
fn parses_screen_section() {
    let s = Settings::from_ini_text("[General]\nScale=70\n[Screen DISPLAY1]\nOrientation=2\n");
    assert_eq!(s.screens.get("DISPLAY1").map(|c| c.orientation), Some(Orientation::Vertical));
    assert_eq!(s.screens.get("DISPLAY1").map(|c| c.mode), Some(Mode::Clock));
}

#[test]
fn screen_garbage_orientation_is_auto() {
    let s = Settings::from_ini_text("[Screen DISPLAY1]\nOrientation=abc\n");
    assert_eq!(s.screens.get("DISPLAY1").map(|c| c.orientation), Some(Orientation::Auto));
    let s = Settings::from_ini_text("[Screen DISPLAY1]\nOrientation=9\n");
    assert_eq!(s.screens.get("DISPLAY1").map(|c| c.orientation), Some(Orientation::Auto));
}

#[test]
fn effective_orientation_explicit_wins() {
    let mut s = Settings::default();
    s.screens.insert("DISPLAY1".into(), ScreenSettings { orientation: Orientation::Vertical, mode: Mode::Clock });
    assert!(s.effective_orientation("DISPLAY1", 1920, 1080));
    s.screens.insert("DISPLAY1".into(), ScreenSettings { orientation: Orientation::Horizontal, mode: Mode::Clock });
    assert!(!s.effective_orientation("DISPLAY1", 1080, 1920));
}

#[test]
fn effective_orientation_auto_by_aspect() {
    let s = Settings::default();
    assert!(s.effective_orientation("DISPLAY1", 1080, 1920));
    assert!(!s.effective_orientation("DISPLAY1", 1920, 1080));
    // square is horizontal: the rule is strictly height > width
    assert!(!s.effective_orientation("DISPLAY1", 1000, 1000));
}

#[test]
fn screen_section_omitted_only_when_auto_and_clock() {
    let mut s = Settings::default();
    s.screens.insert("DISPLAY1".into(), ScreenSettings { orientation: Orientation::Auto, mode: Mode::Clock });
    s.screens.insert("DISPLAY2".into(), ScreenSettings { orientation: Orientation::Vertical, mode: Mode::Clock });
    s.screens.insert("DISPLAY3".into(), ScreenSettings { orientation: Orientation::Auto, mode: Mode::World });
    let text = s.to_ini_text();
    assert!(!text.contains("[Screen DISPLAY1]"));
    assert!(text.contains("[Screen DISPLAY2]\r\nOrientation=2\r\nMode=0"));
    assert!(text.contains("[Screen DISPLAY3]\r\nOrientation=0\r\nMode=1"));
}

#[test]
fn screen_round_trip_preserves_explicit() {
    let mut s = Settings {
        display_24hr: true,
        scale: 40,
        board_scale: 100,
        flip_animation: true,
        screens: ScreenMap::new(),
        world_clocks: Vec::new(),
    };
    s.screens.insert("DISPLAY1".into(), ScreenSettings { orientation: Orientation::Horizontal, mode: Mode::Clock });
    s.screens.insert("DISPLAY9".into(), ScreenSettings { orientation: Orientation::Auto, mode: Mode::World });
    assert_eq!(Settings::from_ini_text(&s.to_ini_text()), s);
}

#[test]
fn mode_parses_and_defaults_to_clock() {
    let s = Settings::from_ini_text("[Screen D1]\nMode=1\n");
    assert_eq!(s.screens.get("D1").map(|c| c.mode), Some(Mode::World));
    // unknown mode value -> clock
    let s = Settings::from_ini_text("[Screen D1]\nMode=7\n");
    assert_eq!(s.screens.get("D1").map(|c| c.mode), Some(Mode::Clock));
    // orientation present, mode absent -> clock
    let s = Settings::from_ini_text("[Screen D1]\nOrientation=1\n");
    assert_eq!(s.screens.get("D1").map(|c| c.mode), Some(Mode::Clock));
}

#[test]
fn absent_worldclocks_section_keeps_defaults() {
    let s = Settings::from_ini_text("[General]\nScale=70\n");
    assert_eq!(s.world_clocks.len(), 6);
}

#[test]
fn present_empty_worldclocks_section_means_none() {
    let s = Settings::from_ini_text("[General]\nScale=70\n[WorldClocks]\n");
    assert!(s.world_clocks.is_empty());
}

#[test]
fn worldclocks_preserve_order_and_truncate_labels() {
    let s = Settings::from_ini_text(
        "[WorldClocks]\nParis=Romance Standard Time\nAn Extremely Long City Name=UTC\n",
    );
    assert_eq!(s.world_clocks.len(), 2);
    assert_eq!(s.world_clocks[0], ("Paris".to_string(), "Romance Standard Time".to_string()));
    // 16-char cap
    assert_eq!(s.world_clocks[1].0, "An Extremely Lon");
    assert_eq!(s.world_clocks[1].1, "UTC");
}

#[test]
fn worldclocks_round_trip() {
    let mut s = Settings::default();
    s.world_clocks = vec![
        ("Reykjavik".to_string(), "Greenwich Standard Time".to_string()),
        ("Kolkata".to_string(), "India Standard Time".to_string()),
    ];
    assert_eq!(Settings::from_ini_text(&s.to_ini_text()).world_clocks, s.world_clocks);
}

#[test]
fn screen_mode_resolves_with_clock_default() {
    let mut s = Settings::default();
    assert_eq!(s.screen_mode("MISSING"), Mode::Clock);
    s.screens.insert("D1".into(), ScreenSettings { orientation: Orientation::Auto, mode: Mode::World });
    assert_eq!(s.screen_mode("D1"), Mode::World);
}

// ---- further cases

#[test]
fn orientation_and_mode_ini_codes() {
    assert_eq!(Orientation::from_ini(1), Orientation::Horizontal);
    assert_eq!(Orientation::from_ini(2), Orientation::Vertical);
    assert_eq!(Orientation::from_ini(0), Orientation::Auto);
    assert_eq!(Orientation::from_ini(-1), Orientation::Auto);
    assert_eq!(Orientation::Vertical.to_ini(), 2);
    assert_eq!(Orientation::Auto.to_ini(), 0);
    assert_eq!(Mode::from_ini(1), Mode::World);
    assert_eq!(Mode::from_ini(2), Mode::Clock);
    assert_eq!(Mode::World.to_ini(), 1);
}

#[test]
fn exact_written_text() {
    let mut s = Settings::default();
    s.world_clocks = vec![("Paris".to_string(), "Romance Standard Time".to_string())];
    s.scale = -5;
    s.screens.insert("B".into(), ScreenSettings { orientation: Orientation::Vertical, mode: Mode::World });
    s.screens.insert("A".into(), ScreenSettings { orientation: Orientation::Horizontal, mode: Mode::Clock });
    assert_eq!(
        s.to_ini_text(),
        "[General]\r\nDisplay24Hr=0\r\nScale=-5\r\nBoardScale=100\r\nFlipAnimation=1\r\n\r\n\
         [Screen A]\r\nOrientation=1\r\nMode=0\r\n\r\n\
         [Screen B]\r\nOrientation=2\r\nMode=1\r\n\r\n\
         [WorldClocks]\r\nParis=Romance Standard Time\r\n\r\n"
    );
}

#[test]
fn screens_iterate_in_name_order() {
    let mut m = ScreenMap::new();
    let e = ScreenSettings { orientation: Orientation::Vertical, mode: Mode::Clock };
    m.insert("b".into(), e);
    m.insert("a".into(), e);
    m.insert("c".into(), e);
    m.insert("a".into(), ScreenSettings { orientation: Orientation::Auto, mode: Mode::World });
    assert_eq!(m.len(), 3);
    assert_eq!(m.name_at(0), "a");
    assert_eq!(m.name_at(1), "b");
    assert_eq!(m.name_at(2), "c");
    assert_eq!(m.value_at(0).mode, Mode::World);
    assert_eq!(m.get("zz"), None);
}

#[test]
fn values_tolerate_whitespace_and_signs() {
    let s = Settings::from_ini_text("[General]\nScale =  40 \nScale=  -3\t\nBoardScale=+12\n");
    // "Scale " (with a space) is not the Scale key
    assert_eq!(s.scale, -3);
    assert_eq!(s.board_scale, 12);
    let s = Settings::from_ini_text("[General]\nScale=99999999999\n");
    assert_eq!(s.scale, 70);
}

#[test]
fn unknown_screen_key_still_creates_entry() {
    let s = Settings::from_ini_text("[Screen X]\nfoo=bar\n");
    assert_eq!(s.screens.get("X"), Some(ScreenSettings { orientation: Orientation::Auto, mode: Mode::Clock }));
}

#[test]
fn second_worldclocks_section_appends() {
    let s = Settings::from_ini_text("[WorldClocks]\nA=1\n[General]\n[WorldClocks]\nB=2\n");
    assert_eq!(s.world_clocks, vec![("A".to_string(), "1".to_string()), ("B".to_string(), "2".to_string())]);
}

#[test]
fn default_city_list() {
    let c = default_world_clocks();
    assert_eq!(c.len(), 6);
    assert_eq!(c[0], ("Los Angeles".to_string(), "Pacific Standard Time".to_string()));
    assert_eq!(c[5], ("Sydney".to_string(), "AUS Eastern Standard Time".to_string()));
}

#[test]
fn map_reads_back_the_last_write_only_for_its_key() {
    let mut m = ScreenMap::new();
    let v = ScreenSettings { orientation: Orientation::Vertical, mode: Mode::Clock };
    let w = ScreenSettings { orientation: Orientation::Horizontal, mode: Mode::World };
    m.insert("DISPLAY2".into(), v);
    m.insert("DISPLAY1".into(), v);
    m.insert("DISPLAY2".into(), w);
    assert_eq!(m.get("DISPLAY2"), Some(w));
    assert_eq!(m.get("DISPLAY1"), Some(v));
    assert_eq!(m.get("DISPLAY3"), None);
}

#[test]
fn ini_codes_read_back_as_written() {
    for o in [Orientation::Auto, Orientation::Horizontal, Orientation::Vertical] {
        assert_eq!(Orientation::from_ini(o.to_ini()), o);
    }
    for m in [Mode::Clock, Mode::World] {
        assert_eq!(Mode::from_ini(m.to_ini()), m);
    }
}

#[test]
fn every_parsed_label_fits_the_board() {
    let s = Settings::from_ini_text(
        "[WorldClocks]\n   A Label That Is Far Too Long For The Board   =UTC\nX=Y\n[WorldClocks]\nAnother Very Long Label Indeed=Z\n",
    );
    assert_eq!(s.world_clocks.len(), 3);
    assert!(s.world_clocks.iter().all(|(l, _)| l.chars().count() <= 16));
    assert_eq!(s.world_clocks[0].0, "A Label That Is ");
    assert_eq!(s.world_clocks[2].0, "Another Very Lon");
}
