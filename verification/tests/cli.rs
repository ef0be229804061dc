use flipsaver::cli::{parse_args, Mode};

fn p(args: &[&str]) -> Mode {
    parse_args(&args.iter().map(|s| s.to_string()).collect::<Vec<_>>())
}

#[test]
fn no_args_is_config() { assert_eq!(p(&[]), Mode::Config); }
#[test]
fn s_fullscreen() { assert_eq!(p(&["/s"]), Mode::Screensaver); }
#[test]
fn s_uppercase() { assert_eq!(p(&["/S"]), Mode::Screensaver); }
#[test]
fn c_config() { assert_eq!(p(&["/c"]), Mode::Config); }
#[test]
fn c_with_hwnd_is_config() { assert_eq!(p(&["/c:12345"]), Mode::Config); }
#[test]
fn p_space_form() { assert_eq!(p(&["/p", "1234"]), Mode::Preview(Some(1234))); }
#[test]
fn p_colon_form() { assert_eq!(p(&["/p:1234"]), Mode::Preview(Some(1234))); }
#[test]
fn p_uppercase_colon() { assert_eq!(p(&["/P:1234"]), Mode::Preview(Some(1234))); }
#[test]
fn p_any_separator_char() { assert_eq!(p(&["/p_1234"]), Mode::Preview(Some(1234))); }
#[test]
fn p_missing_hwnd() { assert_eq!(p(&["/p"]), Mode::Preview(None)); }
#[test]
fn p_garbage_hwnd() { assert_eq!(p(&["/p", "abc"]), Mode::Preview(None)); }
#[test]
fn p_bare_separator() { assert_eq!(p(&["/p:"]), Mode::Preview(None)); }
#[test]
fn unknown_arg_is_config() { assert_eq!(p(&["/foo"]), Mode::Config); }
#[test]
fn version_flag() {
    assert_eq!(p(&["--version"]), Mode::Version);
    assert_eq!(p(&["-V"]), Mode::Version);
}

// ---- further cases

#[test]
fn surrounding_whitespace_of_switch_is_ignored() {
    assert_eq!(p(&["  /s  "]), Mode::Screensaver);
    assert_eq!(p(&[" /p: 42 "]), Mode::Preview(Some(42)));
}

#[test]
fn next_argument_is_not_trimmed() {
    assert_eq!(p(&["/p", " 1234"]), Mode::Preview(None));
}

#[test]
fn negative_and_signed_handles() {
    assert_eq!(p(&["/p", "-5"]), Mode::Preview(Some(-5)));
    assert_eq!(p(&["/p", "+7"]), Mode::Preview(Some(7)));
    assert_eq!(p(&["/p", "99999999999999999999"]), Mode::Preview(None));
}

#[test]
fn version_is_case_sensitive() {
    assert_eq!(p(&["--VERSION"]), Mode::Config);
}

#[test]
fn switch_cut_inside_a_multibyte_character_opens_settings() {
    // "/é": byte 2 falls inside 'é'
    assert_eq!(p(&["/\u{e9}"]), Mode::Config);
    assert_eq!(p(&["/\u{e9}x"]), Mode::Config);
    // "/pé": byte 3 falls inside 'é'
    assert_eq!(p(&["/p\u{e9}"]), Mode::Config);
    assert_eq!(p(&["/s\u{e9}"]), Mode::Config);
    // a multi-byte character after the separator is only a bad handle
    assert_eq!(p(&["/p:\u{e9}"]), Mode::Preview(None));
}
