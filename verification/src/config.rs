//! User settings: their defaults, how a loaded file is judged, and which
//! settings may be saved.

use vstd::prelude::*;
use std::path::PathBuf;
use crate::paths::{join_path_buf, joined_path, path_from_text, path_of_text, path_text, path_to_text};

verus! {

/// Current schema version of the settings file.
pub const CONFIG_VERSION: u32 = 3;

/// The user's settings, as stored in `config.json`.
#[derive(Debug, Clone, PartialEq)]
pub struct Config {
    pub version: u32,
    pub save_location: String,
    pub default_format: String,
    pub theme: String,
    pub compression: bool,
    pub sound_notification: bool,
    pub file_naming_pattern: String,
    pub seen_onboarding: bool,
}

/// The version assumed for a settings file that names none.
pub fn default_config_version() -> (v: u32)
    ensures
        v == 2,
{
    2
}

/// Sound notifications are on unless the file says otherwise.
pub fn default_sound_notification() -> (b: bool)
    ensures
        b,
{
    true
}

/// The naming pattern assumed for a settings file that names none.
pub fn default_file_naming_pattern() -> (s: String)
    ensures
        s@ == "{title}"@,
{
    "{title}".to_string()
}

/// `dirs::download_dir`: the user's download directory, which depends on
/// the platform and the environment; nothing is claimed of it.
pub assume_specification[ dirs::download_dir ]() -> (r: Option<PathBuf>);

/// `dirs::config_dir`: the user's configuration directory, which depends on
/// the platform and the environment; nothing is claimed of it.
pub assume_specification[ dirs::config_dir ]() -> (r: Option<PathBuf>);

/// The save location for a download directory: its text, or `.`.
pub open spec fn save_location_text(download_dir: Option<PathBuf>) -> Seq<char> {
    match download_dir {
        Some(p) => path_text(p),
        None => "."@,
    }
}

/// The settings file for a configuration directory (`.` where there is
/// none): `{dir}/anyflipdl/config.json`.
pub open spec fn settings_path(config_dir: Option<PathBuf>) -> PathBuf {
    let base = match config_dir {
        Some(p) => p,
        None => path_of_text("."@),
    };
    joined_path(joined_path(base, "anyflipdl"@), "config.json"@)
}

/// The default settings, with the given save location.
pub open spec fn is_default_with(c: Config, save_location: Seq<char>) -> bool {
    &&& c.version == CONFIG_VERSION
    &&& c.save_location@ == save_location
    &&& c.default_format@ == "pdf"@
    &&& c.theme@ == "light"@
    &&& !c.compression
    &&& c.sound_notification
    &&& c.file_naming_pattern@ == "{title}"@
    &&& !c.seen_onboarding
}

/// What reading the settings file gave.
#[derive(Debug, Clone)]
pub enum ConfigSource {
    /// There is no settings file.
    Missing,
    /// The file exists but could not be read.
    Unreadable,
    /// The file was read but is not valid settings JSON.
    Corrupt,
    /// The file was read and parsed.
    Parsed(Config),
}

/// What to use after reading the settings file.
#[derive(Debug, Clone)]
pub enum LoadOutcome {
    /// Use the settings read from the file.
    Loaded(Config),
    /// Use the defaults; `persist` says whether to write them to the file.
    Defaults { persist: bool },
}

impl Config {
    /// The default settings with the given save location.
    pub fn defaults_with(save_location: String) -> (c: Config)
        ensures
            is_default_with(c, save_location@),
    {
        Config {
            version: CONFIG_VERSION,
            save_location,
            default_format: "pdf".to_string(),
            theme: "light".to_string(),
            compression: false,
            sound_notification: true,
            file_naming_pattern: "{title}".to_string(),
            seen_onboarding: false,
        }
    }

    /// The save location given the user's download directory (as found):
    /// that directory as text, or `.` where there is none.
    pub fn save_location_from(download_dir: Option<PathBuf>) -> (s: String)
        ensures
            s@ == save_location_text(download_dir),
    {
        match download_dir {
            Some(p) => path_to_text(&p),
            None => ".".to_string(),
        }
    }

    /// The default save location: the user's download directory as text, or
    /// `.` where there is none.
    pub fn default_save_location() -> (s: String)
        ensures
            exists|dir: Option<PathBuf>| s@ == #[trigger] save_location_text(dir),
    {
        let dir = dirs::download_dir();
        let s = Self::save_location_from(dir);
        assert(s@ == save_location_text(dir));
        s
    }

    /// The settings file given the user's configuration directory (as
    /// found): `{config_dir}/anyflipdl/config.json`, with `.` in place of a
    /// configuration directory that cannot be found.
    pub fn path_from(config_dir: Option<PathBuf>) -> (r: PathBuf)
        ensures
            r == settings_path(config_dir),
    {
        let base = match config_dir {
            Some(p) => p,
            None => path_from_text("."),
        };
        let dir = join_path_buf(&base, "anyflipdl");
        join_path_buf(&dir, "config.json")
    }

    /// The settings file: `{config_dir}/anyflipdl/config.json`, with `.` in
    /// place of a configuration directory that cannot be found.
    pub fn path() -> (r: PathBuf)
        ensures
            exists|dir: Option<PathBuf>| r == #[trigger] settings_path(dir),
    {
        let dir = dirs::config_dir();
        let r = Self::path_from(dir);
        assert(r == settings_path(dir));
        r
    }

    /// Judges what reading the settings file gave: a missing file, or one of
    /// another schema version, is replaced by defaults that are written back;
    /// an unreadable or corrupt file is left alone and defaults are used.
    pub fn load_outcome(source: ConfigSource) -> (o: LoadOutcome)
        ensures
            match source {
                ConfigSource::Missing => o == LoadOutcome::Defaults { persist: true },
                ConfigSource::Unreadable => o == LoadOutcome::Defaults { persist: false },
                ConfigSource::Corrupt => o == LoadOutcome::Defaults { persist: false },
                ConfigSource::Parsed(c) => if c.version == CONFIG_VERSION {
                    o == LoadOutcome::Loaded(c)
                } else {
                    o == LoadOutcome::Defaults { persist: true }
                },
            },
    {
        match source {
            ConfigSource::Missing => LoadOutcome::Defaults { persist: true },
            ConfigSource::Unreadable => LoadOutcome::Defaults { persist: false },
            ConfigSource::Corrupt => LoadOutcome::Defaults { persist: false },
            ConfigSource::Parsed(c) => {
                if c.version == CONFIG_VERSION {
                    LoadOutcome::Loaded(c)
                } else {
                    LoadOutcome::Defaults { persist: true }
                }
            },
        }
    }
}

impl Default for Config {
    /// Version 3, PDF, light theme, no compression, sound on, `{title}`
    /// naming, onboarding not seen, saving to the download directory.
    fn default() -> (c: Config)
        ensures
            c.version == CONFIG_VERSION,
            c.default_format@ == "pdf"@,
            c.theme@ == "light"@,
            !c.compression,
            c.sound_notification,
            c.file_naming_pattern@ == "{title}"@,
            !c.seen_onboarding,
            exists|dir: Option<PathBuf>| c.save_location@ == #[trigger] save_location_text(dir),
    {
        let loc = Config::default_save_location();
        let ghost dir = choose|dir: Option<PathBuf>| loc@ == #[trigger] save_location_text(dir);
        let c = Config::defaults_with(loc);
        assert(c.save_location@ == save_location_text(dir));
        c
    }
}

} // verus!
