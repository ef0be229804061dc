//! User settings: the model, its defaults and the per-monitor lookups.
//! The INI text format lives in `ini`.

use vstd::prelude::*;
use vstd::string::*;
use crate::screen_map::{ScreenMap, map_get};
use crate::text::chars_of;

verus! {

pub const DEFAULT_SCALE: i32 = 70;

pub const DEFAULT_BOARD_SCALE: i32 = 100;

/// Per-monitor clock orientation.
#[derive(Debug, Clone, Copy, PartialEq, Eq, Structural)]
pub enum Orientation {
    Auto,
    Horizontal,
    Vertical,
}

impl Orientation {
    pub open spec fn from_ini_spec(v: int) -> Orientation {
        if v == 1 {
            Orientation::Horizontal
        } else if v == 2 {
            Orientation::Vertical
        } else {
            Orientation::Auto
        }
    }

    pub open spec fn to_ini_spec(self) -> i32 {
        match self {
            Orientation::Auto => 0,
            Orientation::Horizontal => 1,
            Orientation::Vertical => 2,
        }
    }

    /// Anything outside {1,2} is Auto — consistent with the lenient parser.
    pub fn from_ini(v: i32) -> (r: Orientation)
        ensures
            r == Orientation::from_ini_spec(v as int),
    {
        match v {
            1 => Orientation::Horizontal,
            2 => Orientation::Vertical,
            _ => Orientation::Auto,
        }
    }

    pub fn to_ini(self) -> (r: i32)
        ensures
            r == self.to_ini_spec(),
    {
        match self {
            Orientation::Auto => 0,
            Orientation::Horizontal => 1,
            Orientation::Vertical => 2,
        }
    }
}

/// What a monitor shows: the flip clock or the world-clock board.
#[derive(Debug, Clone, Copy, PartialEq, Eq, Structural)]
pub enum Mode {
    Clock,
    World,
}

impl Mode {
    pub open spec fn from_ini_spec(v: int) -> Mode {
        if v == 1 {
            Mode::World
        } else {
            Mode::Clock
        }
    }

    pub open spec fn to_ini_spec(self) -> i32 {
        match self {
            Mode::Clock => 0,
            Mode::World => 1,
        }
    }

    /// Anything other than 1 is Clock — lenient, like Orientation::from_ini.
    pub fn from_ini(v: i32) -> (r: Mode)
        ensures
            r == Mode::from_ini_spec(v as int),
    {
        match v {
            1 => Mode::World,
            _ => Mode::Clock,
        }
    }

    pub fn to_ini(self) -> (r: i32)
        ensures
            r == self.to_ini_spec(),
    {
        match self {
            Mode::Clock => 0,
            Mode::World => 1,
        }
    }
}

/// An orientation written to the INI reads back as itself.
pub proof fn lemma_orientation_ini_inverse(o: Orientation)
    ensures
        Orientation::from_ini_spec(o.to_ini_spec() as int) == o,
{
}

/// A display mode written to the INI reads back as itself.
pub proof fn lemma_mode_ini_inverse(m: Mode)
    ensures
        Mode::from_ini_spec(m.to_ini_spec() as int) == m,
{
}

/// Settings of one monitor.
#[derive(Debug, Clone, Copy, PartialEq, Eq, Structural)]
pub struct ScreenSettings {
    pub orientation: Orientation,
    pub mode: Mode,
}

impl ScreenSettings {
    pub open spec fn default_spec() -> ScreenSettings {
        ScreenSettings { orientation: Orientation::Auto, mode: Mode::Clock }
    }
}

impl Default for ScreenSettings {
    fn default() -> (r: ScreenSettings)
        ensures
            r == ScreenSettings::default_spec(),
    {
        ScreenSettings { orientation: Orientation::Auto, mode: Mode::Clock }
    }
}

/// The whole settings file.
#[derive(Debug, Clone, PartialEq, Eq)]
pub struct Settings {
    pub display_24hr: bool,
    /// 0..=100, the size slider value times ten.
    pub scale: i32,
    /// World-board size, same encoding as `scale`.
    pub board_scale: i32,
    pub flip_animation: bool,
    pub screens: ScreenMap,
    /// City label -> Windows time-zone key, in display order.
    pub world_clocks: Vec<(String, String)>,
}

/// The mathematical content of a `Settings`.
pub struct SettingsView {
    pub display_24hr: bool,
    pub scale: i32,
    pub board_scale: i32,
    pub flip_animation: bool,
    pub screens: Seq<(Seq<char>, ScreenSettings)>,
    pub world_clocks: Seq<(Seq<char>, Seq<char>)>,
}

pub open spec fn clocks_view(v: Seq<(String, String)>) -> Seq<(Seq<char>, Seq<char>)> {
    v.map_values(|p: (String, String)| (p.0@, p.1@))
}

impl View for Settings {
    type V = SettingsView;

    open spec fn view(&self) -> SettingsView {
        SettingsView {
            display_24hr: self.display_24hr,
            scale: self.scale,
            board_scale: self.board_scale,
            flip_animation: self.flip_animation,
            screens: self.screens@,
            world_clocks: clocks_view(self.world_clocks@),
        }
    }
}

/// The six cities preloaded before any `[WorldClocks]` section is read.
pub open spec fn default_world_clocks_spec() -> Seq<(Seq<char>, Seq<char>)> {
    seq![
        ("Los Angeles"@, "Pacific Standard Time"@),
        ("New York"@, "Eastern Standard Time"@),
        ("London"@, "GMT Standard Time"@),
        ("Dubai"@, "Arabian Standard Time"@),
        ("Tokyo"@, "Tokyo Standard Time"@),
        ("Sydney"@, "AUS Eastern Standard Time"@),
    ]
}

pub open spec fn default_settings_spec() -> SettingsView {
    SettingsView {
        display_24hr: false,
        scale: DEFAULT_SCALE,
        board_scale: DEFAULT_BOARD_SCALE,
        flip_animation: true,
        screens: Seq::empty(),
        world_clocks: default_world_clocks_spec(),
    }
}

fn city(c: &str, z: &str) -> (r: (String, String))
    ensures
        r.0@ == c@,
        r.1@ == z@,
{
    (String::from_str(c), String::from_str(z))
}

pub fn default_world_clocks() -> (r: Vec<(String, String)>)
    ensures
        clocks_view(r@) == default_world_clocks_spec(),
{
    let mut v: Vec<(String, String)> = Vec::new();
    v.push(city("Los Angeles", "Pacific Standard Time"));
    v.push(city("New York", "Eastern Standard Time"));
    v.push(city("London", "GMT Standard Time"));
    v.push(city("Dubai", "Arabian Standard Time"));
    v.push(city("Tokyo", "Tokyo Standard Time"));
    v.push(city("Sydney", "AUS Eastern Standard Time"));
    assert(clocks_view(v@) =~= default_world_clocks_spec());
    v
}

impl Default for Settings {
    fn default() -> (r: Settings)
        ensures
            r@ == default_settings_spec(),
    {
        Settings {
            display_24hr: false,
            scale: DEFAULT_SCALE,
            board_scale: DEFAULT_BOARD_SCALE,
            flip_animation: true,
            screens: ScreenMap::new(),
            world_clocks: default_world_clocks(),
        }
    }
}

/// Whether a monitor of the given size draws the vertical clock layout.
pub open spec fn effective_orientation_spec(
    screens: Seq<(Seq<char>, ScreenSettings)>,
    device: Seq<char>,
    width: int,
    height: int,
) -> bool {
    match map_get(screens, device) {
        Some(sc) => match sc.orientation {
            Orientation::Horizontal => false,
            Orientation::Vertical => true,
            Orientation::Auto => height > width,
        },
        None => height > width,
    }
}

/// An explicit Horizontal or Vertical setting wins over the aspect; a
/// monitor set to Auto resolves exactly as a monitor with no entry, and
/// that is by its aspect: taller than wide gives the vertical layout.
pub proof fn lemma_orientation_resolution(
    screens: Seq<(Seq<char>, ScreenSettings)>,
    device: Seq<char>,
    width: int,
    height: int,
)
    ensures
        effective_orientation_spec(Seq::empty(), device, width, height) == (height > width),
        ({
            let r = effective_orientation_spec(screens, device, width, height);
            match map_get(screens, device) {
                Some(sc) => match sc.orientation {
                    Orientation::Horizontal => !r,
                    Orientation::Vertical => r,
                    Orientation::Auto => r == effective_orientation_spec(Seq::empty(), device, width, height),
                },
                None => r == effective_orientation_spec(Seq::empty(), device, width, height),
            }
        }),
{
}

impl Settings {
    /// Single orientation resolution point. Explicit setting wins; Auto or
    /// an absent monitor falls back to aspect (portrait → vertical).
    /// Returns `true` for vertical.
    pub fn effective_orientation(&self, device: &str, width: i32, height: i32) -> (r: bool)
        ensures
            r == effective_orientation_spec(self@.screens, device@, width as int, height as int),
            (match map_get(self@.screens, device@) {
                Some(sc) => sc.orientation == Orientation::Auto,
                None => true,
            }) ==> r == (height > width),
    {
        proof {
            lemma_orientation_resolution(self@.screens, device@, width as int, height as int);
        }
        match self.screens.get(device) {
            Some(sc) => match sc.orientation {
                Orientation::Horizontal => false,
                Orientation::Vertical => true,
                Orientation::Auto => height > width,
            },
            None => height > width,
        }
    }

    /// Configured display mode for a monitor; absent -> Clock.
    pub fn screen_mode(&self, device: &str) -> (r: Mode)
        ensures
            r == (match map_get(self@.screens, device@) {
                Some(sc) => sc.mode,
                None => Mode::Clock,
            }),
    {
        match self.screens.get(device) {
            Some(sc) => sc.mode,
            None => Mode::Clock,
        }
    }
}

} // verus!
