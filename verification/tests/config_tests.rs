use std::path::PathBuf;
use x_viz::config::{
    default_fetch_count, default_theme, language_for_locale, language_of_locale, region_for_locale,
    region_of_locale, first_launch_config, config_dir, config_file_path, default_storage_path, dir_under,
    storage_dir_under,
    AppConfig,
};

#[test]
fn test_default_config() {
    let cfg = AppConfig::default();
    assert_eq!(cfg.region, "en-US");
    assert_eq!(cfg.retention_days, 30);
    assert_eq!(cfg.resolution, "UHD");
    assert!(!cfg.auto_start);
}

#[test]
fn default_values() {
    assert_eq!(default_fetch_count(), 1);
    assert_eq!(default_theme(), "auto");
    let cfg = AppConfig::default();
    assert_eq!(cfg.update_interval, "daily");
    assert_eq!(cfg.fetch_count, 1);
    assert!(!cfg.silent_start);
    assert_eq!(cfg.theme, "auto");
}

fn region(locale: &str) -> String {
    region_for_locale(locale, &locale.to_lowercase())
}

#[test]
fn regions_of_known_locales() {
    assert_eq!(region("zh-Hans-CN"), "zh-CN");
    assert_eq!(region("zh-CN"), "zh-CN");
    assert_eq!(region("zh-Hant-TW"), "zh-TW");
    assert_eq!(region("zh-HK"), "zh-TW");
    assert_eq!(region("ja-JP"), "ja-JP");
    assert_eq!(region("de-AT"), "de-DE");
    assert_eq!(region("fr-CA"), "fr-FR");
    assert_eq!(region("en-GB"), "en-GB");
    assert_eq!(region("en-AU"), "en-AU");
    assert_eq!(region("en-IN"), "en-IN");
    assert_eq!(region("en-CA"), "en-US");
}

#[test]
fn regions_of_other_locales() {
    assert_eq!(region("pt-BR"), "pt-BR");
    assert_eq!(region("es-419"), "es-41");
    assert_eq!(region("C"), "en-US");
    assert_eq!(region("pt_BR"), "en-US");
}

#[test]
fn languages() {
    assert_eq!(language_for_locale(Some("zh-hans-cn")), "zh-CN");
    assert_eq!(language_for_locale(Some("en-us")), "en-US");
    assert_eq!(language_for_locale(None), "en-US");
}

#[test]
fn locales_are_matched_in_lower_case() {
    assert_eq!(region_of_locale("ZH-HANS-CN"), Some("zh-CN".to_string()));
    assert_eq!(region_of_locale("EN-GB"), Some("en-GB".to_string()));
    assert_eq!(region_of_locale("pt-BR"), Some("pt-BR".to_string()));
    assert_eq!(language_of_locale("ZH-TW"), "zh-CN");
    assert_eq!(language_of_locale("de-DE"), "en-US");
}

#[test]
fn region_fallback_that_would_cut_a_character() {
    // "xx-" then a three-byte character: byte 5 falls inside it.
    assert_eq!(region_of_locale("xx-\u{20ac}"), None);
    // A known pattern is found before the fallback is needed.
    assert_eq!(region_of_locale("ja-\u{20ac}"), Some("ja-JP".to_string()));
    // The fallback keeps a whole character.
    assert_eq!(region_of_locale("xx-\u{e9}y"), Some("xx-\u{e9}".to_string()));
}

#[test]
fn first_launch_configuration_is_silent() {
    let cfg = AppConfig::default();
    let first = first_launch_config(cfg.clone());
    assert!(first.silent_start);
    assert_eq!(first.region, cfg.region);
    assert_eq!(first.storage_path, cfg.storage_path);
    assert_eq!(first.retention_days, cfg.retention_days);
    assert_eq!(first.theme, cfg.theme);
}

#[test]
fn configuration_paths_end_with_their_names() {
    assert!(config_dir().ends_with("com.ruis.x-viz"));
    assert!(config_file_path().ends_with("com.ruis.x-viz/config.json"));
    assert!(default_storage_path().ends_with("x-viz"));
    assert!(AppConfig::default().storage_path.ends_with("x-viz"));
}

#[test]
fn directories_fall_back_in_order() {
    assert_eq!(
        dir_under(Some(PathBuf::from("/Users/u/Library/Application Support")), "com.ruis.x-viz"),
        PathBuf::from("/Users/u/Library/Application Support/com.ruis.x-viz")
    );
    assert_eq!(dir_under(None, "com.ruis.x-viz"), PathBuf::from("./com.ruis.x-viz"));
    assert_eq!(
        storage_dir_under(Some(PathBuf::from("/home/u/Pictures")), Some(PathBuf::from("/home/u"))),
        PathBuf::from("/home/u/Pictures/x-viz")
    );
    assert_eq!(storage_dir_under(None, Some(PathBuf::from("/home/u"))), PathBuf::from("/home/u/x-viz"));
    assert_eq!(storage_dir_under(None, None), PathBuf::from("./x-viz"));
}
