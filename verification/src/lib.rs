//! Verified core of the flip-clock screensaver: layout arithmetic, text
//! formatting, the INI settings format and the per-window state decisions.

pub mod text;
pub mod screen_map;
pub mod settings;
pub mod board;
pub mod clock;
pub mod cli;
pub mod saver;
pub mod dialog;
pub mod tz;
pub mod fontsel;
pub mod ini;
pub mod ini_laws;
