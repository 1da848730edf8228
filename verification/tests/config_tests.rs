use anyflipdl::commands::check_settings;
use anyflipdl::config::{
    default_config_version, default_file_naming_pattern, default_sound_notification, Config,
    ConfigSource, LoadOutcome, CONFIG_VERSION,
};
use anyflipdl::update_checker::APP_VERSION;

fn make_settings(format: &str, theme: &str, save_location: &str) -> Config {
    Config {
        version: 2,
        save_location: save_location.to_string(),
        default_format: format.to_string(),
        theme: theme.to_string(),
        compression: false,
        sound_notification: true,
        file_naming_pattern: "{title}".to_string(),
        seen_onboarding: false,
    }
}

#[test]
fn config_version_is_three() {
    assert_eq!(CONFIG_VERSION, 3);
}

#[test]
fn default_file_naming_pattern_is_title() {
    let config = Config::default();
    assert_eq!(config.file_naming_pattern, "{title}");
}

#[test]
fn default_seen_onboarding_is_false() {
    let config = Config::default();
    assert!(!config.seen_onboarding);
}

#[test]
fn default_save_location_is_downloads() {
    let config = Config::default();
    let expected = dirs::download_dir()
        .map(|p| p.to_string_lossy().to_string())
        .unwrap_or_else(|| ".".to_string());
    assert_eq!(config.save_location, expected);
}

#[test]
fn cargo_pkg_version_is_valid() {
    let version = APP_VERSION;
    assert!(!version.is_empty(), "the package version should not be empty");
    assert!(version.contains('.'), "the package version should be semver: {}", version);
}

#[test]
fn serde_defaults_of_missing_fields() {
    assert_eq!(default_config_version(), 2);
    assert!(default_sound_notification());
    assert_eq!(default_file_naming_pattern(), "{title}");
}

#[test]
fn defaults_are_pdf_light_and_quiet() {
    let c = Config::defaults_with("/dl".to_string());
    assert_eq!(c.version, 3);
    assert_eq!(c.save_location, "/dl");
    assert_eq!(c.default_format, "pdf");
    assert_eq!(c.theme, "light");
    assert!(!c.compression);
    assert!(c.sound_notification);
}

#[test]
fn loading_keeps_only_the_current_version() {
    let current = Config::defaults_with("/x".to_string());
    match Config::load_outcome(ConfigSource::Parsed(current.clone())) {
        LoadOutcome::Loaded(c) => assert_eq!(c, current),
        other => panic!("unexpected {:?}", other),
    }
    let old = make_settings("pdf", "light", "/x");
    assert!(matches!(
        Config::load_outcome(ConfigSource::Parsed(old)),
        LoadOutcome::Defaults { persist: true }
    ));
    assert!(matches!(Config::load_outcome(ConfigSource::Missing), LoadOutcome::Defaults { persist: true }));
    assert!(matches!(Config::load_outcome(ConfigSource::Corrupt), LoadOutcome::Defaults { persist: false }));
    assert!(matches!(Config::load_outcome(ConfigSource::Unreadable), LoadOutcome::Defaults { persist: false }));
}

#[test]
fn save_settings_valid_format_pdf() {
    assert!(check_settings(&make_settings("pdf", "light", "/tmp")).is_ok());
}

#[test]
fn save_settings_valid_format_epub() {
    assert!(check_settings(&make_settings("epub", "light", "/tmp")).is_ok());
}

#[test]
fn save_settings_invalid_format() {
    let result = check_settings(&make_settings("docx", "light", "/tmp"));
    assert!(result.is_err());
    assert!(result.unwrap_err().to_string().contains("Invalid format"));
}

#[test]
fn save_settings_valid_theme_light() {
    assert!(check_settings(&make_settings("pdf", "light", "/tmp")).is_ok());
}

#[test]
fn save_settings_valid_theme_dark() {
    assert!(check_settings(&make_settings("pdf", "dark", "/tmp")).is_ok());
}

#[test]
fn save_settings_invalid_theme() {
    let result = check_settings(&make_settings("pdf", "rainbow", "/tmp"));
    assert!(result.is_err());
    assert!(result.unwrap_err().to_string().contains("Invalid theme"));
}

#[test]
fn save_settings_empty_location() {
    let result = check_settings(&make_settings("pdf", "light", ""));
    assert!(result.is_err());
    assert!(result.unwrap_err().to_string().contains("Save location cannot be empty"));
}

#[test]
fn settings_messages_are_exact() {
    assert_eq!(
        check_settings(&make_settings("docx", "light", "/tmp")).unwrap_err().to_string(),
        "Settings error: Invalid format 'docx': must be 'pdf' or 'epub'"
    );
    assert_eq!(
        check_settings(&make_settings("pdf", "rainbow", "/tmp")).unwrap_err().to_string(),
        "Settings error: Invalid theme 'rainbow': must be 'light' or 'dark'"
    );
    assert_eq!(
        check_settings(&make_settings("pdf", "light", "")).unwrap_err().to_string(),
        "Invalid URL: Save location cannot be empty"
    );
}

#[test]
fn settings_path_and_save_location_from_found_directories() {
    assert_eq!(Config::save_location_from(None), ".");
    assert_eq!(Config::save_location_from(Some(std::path::PathBuf::from("/home/a/Downloads"))), "/home/a/Downloads");
    assert_eq!(Config::path_from(None), std::path::PathBuf::from("./anyflipdl/config.json"));
    assert_eq!(
        Config::path_from(Some(std::path::PathBuf::from("/home/a/.config"))),
        std::path::PathBuf::from("/home/a/.config/anyflipdl/config.json")
    );
}
