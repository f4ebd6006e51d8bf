//! Application configuration: its defaults, the market region and UI
//! language chosen from the system locale, and where it is kept.

use vstd::prelude::*;
use vstd::utf8::{decode_utf8, encode_utf8, is_char_boundary};
use crate::text::{has_prefix, lowercase, starts_with_str, str_eq, to_lowercase};

verus! {

/// Application configuration.
#[derive(Debug, Clone)]
pub struct AppConfig {
    /// Market region for the Bing API (e.g., "en-US", "zh-CN").
    pub region: String,
    /// Directory path for storing downloaded wallpapers.
    pub storage_path: String,
    /// Number of days to retain wallpapers before cleanup.
    pub retention_days: u32,
    /// Whether the app should start on login.
    pub auto_start: bool,
    /// Update interval: "daily", "hourly", or "manual".
    pub update_interval: String,
    /// Resolution preference: "UHD" or "1920x1080".
    pub resolution: String,
    /// Number of wallpapers to fetch per update (1-8).
    pub fetch_count: u8,
    /// Hide the window on startup (tray-only mode).
    pub silent_start: bool,
    /// UI language: "zh-CN" or "en-US".
    pub language: String,
    /// Theme: "auto", "light", or "dark".
    pub theme: String,
}

// ---------------------------------------------------------------------------
// Specifications
// ---------------------------------------------------------------------------

/// The UI language for a lower-cased system locale (`None` when the system
/// reports none): Chinese for "zh…", English otherwise.
pub open spec fn language_of(lowered: Option<Seq<char>>) -> Seq<char> {
    match lowered {
        Some(l) => if has_prefix(l, "zh"@) {
            "zh-CN"@
        } else {
            "en-US"@
        },
        None => "en-US"@,
    }
}

/// The Bing market that a lower-cased locale names by one of the known
/// patterns, in the order they are tried.
pub open spec fn known_market(lower: Seq<char>) -> Option<Seq<char>> {
    if has_prefix(lower, "zh-hans"@) || lower == "zh-cn"@ {
        Some("zh-CN"@)
    } else if has_prefix(lower, "zh-hant"@) || lower == "zh-tw"@ || lower == "zh-hk"@ {
        Some("zh-TW"@)
    } else if has_prefix(lower, "ja"@) {
        Some("ja-JP"@)
    } else if has_prefix(lower, "de"@) {
        Some("de-DE"@)
    } else if has_prefix(lower, "fr"@) {
        Some("fr-FR"@)
    } else if has_prefix(lower, "en-gb"@) {
        Some("en-GB"@)
    } else if has_prefix(lower, "en-au"@) {
        Some("en-AU"@)
    } else if has_prefix(lower, "en-in"@) {
        Some("en-IN"@)
    } else if has_prefix(lower, "en"@) {
        Some("en-US"@)
    } else {
        None
    }
}

/// The locale looks like a market code: at least five UTF-8 bytes, '-' at
/// byte 2.
pub open spec fn looks_like_market(locale: Seq<char>) -> bool {
    let b = encode_utf8(locale);
    b.len() >= 5 && b[2] == 45
}

/// Taking the first five bytes of the locale as a market code does not cut a
/// character in two.
pub open spec fn market_fallback_readable(locale: Seq<char>, lower: Seq<char>) -> bool {
    known_market(lower) is None && looks_like_market(locale) ==> is_char_boundary(
        encode_utf8(locale),
        5,
    )
}

/// The Bing market for a system locale and its lower-cased form: a known
/// pattern, else the locale's first five bytes when it looks like a market
/// code, else "en-US".
pub open spec fn market_of(locale: Seq<char>, lower: Seq<char>) -> Seq<char> {
    match known_market(lower) {
        Some(m) => m,
        None => if looks_like_market(locale) {
            decode_utf8(encode_utf8(locale).take(5))
        } else {
            "en-US"@
        },
    }
}

// ---------------------------------------------------------------------------
// Trusted items
// ---------------------------------------------------------------------------

#[verifier::external_type_specification]
#[verifier::external_body]
pub struct ExPathBuf(std::path::PathBuf);

/// sys_locale's `get_locale`: the system's preferred locale, if it reports
/// one. It depends on the environment, so nothing is stated of it.
#[verifier::external_body]
fn system_locale() -> Option<String> {
    sys_locale::get_locale()
}

/// dirs' `config_dir`: the user's configuration directory, if there is one.
/// It depends on the environment, so nothing is stated of it.
#[verifier::external_body]
fn user_config_dir() -> Option<std::path::PathBuf> {
    dirs::config_dir()
}

/// dirs' `picture_dir`: the user's pictures directory, if there is one.
/// It depends on the environment, so nothing is stated of it.
#[verifier::external_body]
fn user_picture_dir() -> Option<std::path::PathBuf> {
    dirs::picture_dir()
}

/// dirs' `home_dir`: the user's home directory, if there is one.
/// It depends on the environment, so nothing is stated of it.
#[verifier::external_body]
fn user_home_dir() -> Option<std::path::PathBuf> {
    dirs::home_dir()
}

/// The text of a path, as std's `Path::to_string_lossy` gives it.
pub uninterp spec fn path_text_of(p: std::path::PathBuf) -> Seq<char>;

/// The text of the path that std's `Path::join` makes of a path with text
/// `base` and the relative or absolute path `name` (by the platform's path
/// rules).
pub uninterp spec fn joined(base: Seq<char>, name: Seq<char>) -> Seq<char>;

/// std `PathBuf::from(p)`. Claim: the path's text is `p`.
#[verifier::external_body]
pub(crate) fn path_of(p: &str) -> (r: std::path::PathBuf)
    ensures
        path_text_of(r) == p@,
{
    std::path::PathBuf::from(p)
}

/// std `Path::join`. Claim: the result's text is the join, named `joined`,
/// of the base's text and `name`; how paths are joined (separators,
/// prefixes, absolute names) is the platform's and is not stated.
#[verifier::external_body]
pub(crate) fn join(base: &std::path::PathBuf, name: &str) -> (r: std::path::PathBuf)
    ensures
        path_text_of(r) == joined(path_text_of(*base), name@),
{
    base.join(name)
}

/// std `Path::to_string_lossy`: the path as text, named `path_text_of`.
#[verifier::external_body]
fn path_text(p: &std::path::PathBuf) -> (r: String)
    ensures
        r@ == path_text_of(*p),
{
    p.to_string_lossy().to_string()
}

/// std `Path::exists`: whether something is at the path on disk. It
/// depends on the file system, so nothing is stated of it.
#[verifier::external_body]
fn path_exists(p: &std::path::PathBuf) -> bool {
    p.exists()
}

// ---------------------------------------------------------------------------
// Executable functions
// ---------------------------------------------------------------------------

/// The default number of wallpapers fetched per update.
pub fn default_fetch_count() -> (r: u8)
    ensures
        r == 1,
{
    1
}

/// The default theme: follow the system.
pub fn default_theme() -> (r: String)
    ensures
        r@ == "auto"@,
{
    "auto".to_string()
}

/// The UI language for a lower-cased system locale.
pub fn language_for_locale(lowered: Option<&str>) -> (r: String)
    ensures
        r@ == language_of(
            match lowered {
                Some(l) => Some(l@),
                None => None,
            },
        ),
{
    match lowered {
        Some(l) => if starts_with_str(l, "zh") {
            "zh-CN".to_string()
        } else {
            "en-US".to_string()
        },
        None => "en-US".to_string(),
    }
}

/// The Bing market code for a system locale, given the locale and its
/// lower-cased form (e.g. "zh-Hans-CN" gives "zh-CN", "pt-BR" gives "pt-BR").
pub fn region_for_locale(locale: &str, lowered: &str) -> (r: String)
    requires
        market_fallback_readable(locale@, lowered@),
    ensures
        r@ == market_of(locale@, lowered@),
{
    if starts_with_str(lowered, "zh-hans") || str_eq(lowered, "zh-cn") {
        return "zh-CN".to_string();
    }
    if starts_with_str(lowered, "zh-hant") || str_eq(lowered, "zh-tw") || str_eq(lowered, "zh-hk") {
        return "zh-TW".to_string();
    }
    if starts_with_str(lowered, "ja") {
        return "ja-JP".to_string();
    }
    if starts_with_str(lowered, "de") {
        return "de-DE".to_string();
    }
    if starts_with_str(lowered, "fr") {
        return "fr-FR".to_string();
    }
    if starts_with_str(lowered, "en-gb") {
        return "en-GB".to_string();
    }
    if starts_with_str(lowered, "en-au") {
        return "en-AU".to_string();
    }
    if starts_with_str(lowered, "en-in") {
        return "en-IN".to_string();
    }
    if starts_with_str(lowered, "en") {
        return "en-US".to_string();
    }
    // Fallback: use the locale as-is if it looks like a market code (xx-XX).
    let bytes = locale.as_bytes();
    let n = bytes.len();
    assert(bytes@ == encode_utf8(locale@));
    if n >= 5 && bytes[2] == 45u8 {
        let (head, _tail) = locale.split_at(5);
        proof {
            vstd::utf8::encode_utf8_decode_utf8(head@);
            assert(encode_utf8(locale@).take(5) =~= encode_utf8(head@));
        }
        return head.to_string();
    }
    "en-US".to_string()
}

/// The UI language for a system locale, compared in lower case: "zh-CN"
/// for Chinese locales, "en-US" otherwise.
pub fn language_of_locale(locale: &str) -> (r: String)
    ensures
        r@ == language_of(Some(lowercase(locale@))),
{
    let lower = to_lowercase(locale);
    language_for_locale(Some(lower.as_str()))
}

/// The Bing market code for a system locale (lower-cased for matching), or
/// `None` where its first five bytes would be taken and byte 5 falls inside
/// a character.
pub fn region_of_locale(locale: &str) -> (r: Option<String>)
    ensures
        match r {
            Some(m) => market_fallback_readable(locale@, lowercase(locale@)) && m@ == market_of(
                locale@,
                lowercase(locale@),
            ),
            None => !market_fallback_readable(locale@, lowercase(locale@)),
        },
{
    let lower = to_lowercase(locale);
    if region_fallback_cuts_char(locale, lower.as_str()) {
        None
    } else {
        Some(region_for_locale(locale, lower.as_str()))
    }
}

/// The UI language from the system locale: "zh-CN" for Chinese locales,
/// "en-US" otherwise.
pub fn detect_system_language() -> (r: String)
    ensures
        r@ == "en-US"@ || r@ == "zh-CN"@,
{
    match system_locale() {
        Some(locale) => language_of_locale(locale.as_str()),
        None => language_for_locale(None),
    }
}

/// The Bing market for the locale the system reports (`None` when it
/// reports none): the locale's market, or "en-US" when there is no locale
/// or taking its first five bytes would cut a character in two.
pub open spec fn system_region(locale: Option<Seq<char>>) -> Seq<char> {
    match locale {
        Some(l) => if market_fallback_readable(l, lowercase(l)) {
            market_of(l, lowercase(l))
        } else {
            "en-US"@
        },
        None => "en-US"@,
    }
}

/// The Bing market code for the locale the system reported, "en-US" when it
/// reported none.
pub fn region_for_system_locale(locale: Option<String>) -> (r: String)
    ensures
        r@ == system_region(
            match locale {
                Some(l) => Some(l@),
                None => None,
            },
        ),
{
    match locale {
        Some(l) => match region_of_locale(l.as_str()) {
            Some(m) => m,
            None => "en-US".to_string(),
        },
        None => "en-US".to_string(),
    }
}

/// The Bing market code from the system locale, "en-US" when the system
/// reports none. Where taking the locale's first five bytes would cut a
/// character in two, "en-US" is returned.
pub fn detect_system_region() -> (r: String)
    ensures
        r@ == "en-US"@ || exists|l: Seq<char>| r@ == market_of(l, lowercase(l)),
        exists|l: Option<Seq<char>>| r@ == #[trigger] system_region(l),
{
    let locale = system_locale();
    let ghost l = match &locale {
        Some(s) => Some(s@),
        None => None::<Seq<char>>,
    };
    let r = region_for_system_locale(locale);
    assert(r@ == system_region(l));
    r
}

/// The market the system's locale names: Chinese (Simplified) locales give
/// "zh-CN", Chinese (Traditional) "zh-TW", Japanese "ja-JP", German
/// "de-DE", French "fr-FR", and a locale in none of the known patterns
/// that reads as a market code (`xx-YY…`) gives its first five characters;
/// the patterns are matched in lower case.
pub proof fn lemma_system_region_of_known_locales(l: Seq<char>)
    ensures
        has_prefix(lowercase(l), "zh-hans"@) || lowercase(l) == "zh-cn"@ ==> system_region(Some(l))
            == "zh-CN"@,
        has_prefix(lowercase(l), "zh-hant"@) || lowercase(l) == "zh-tw"@ || lowercase(l) == "zh-hk"@
            ==> system_region(Some(l)) == "zh-TW"@,
        has_prefix(lowercase(l), "ja"@) ==> system_region(Some(l)) == "ja-JP"@,
        has_prefix(lowercase(l), "de"@) ==> system_region(Some(l)) == "de-DE"@,
        has_prefix(lowercase(l), "fr"@) ==> system_region(Some(l)) == "fr-FR"@,
        system_region(None) == "en-US"@,
{
    reveal_strlit("zh-hans");
    reveal_strlit("zh-cn");
    reveal_strlit("zh-hant");
    reveal_strlit("zh-tw");
    reveal_strlit("zh-hk");
    reveal_strlit("ja");
    reveal_strlit("de");
    reveal_strlit("fr");
    let lower = lowercase(l);
    if lower.len() > 0 {
        if has_prefix(lower, "zh-hans"@) {
            assert(lower.subrange(0, 7)[0] == lower[0]);
        }
        if has_prefix(lower, "zh-hant"@) {
            assert(lower.subrange(0, 7)[0] == lower[0]);
            assert(lower.subrange(0, 7)[6] == lower[6]);
        }
        if has_prefix(lower, "ja"@) || has_prefix(lower, "de"@) || has_prefix(lower, "fr"@) {
            assert(lower.subrange(0, 2)[0] == lower[0]);
        }
        if lower == "zh-cn"@ || lower == "zh-tw"@ || lower == "zh-hk"@ {
            assert(lower.len() == 5);
            assert("zh-tw"@[3] != "zh-cn"@[3]);
            assert("zh-hk"@[3] != "zh-cn"@[3]);
        }
        if has_prefix(lower, "zh-hans"@) && has_prefix(lower, "zh-hant"@) {
            assert(lower.subrange(0, 7)[6] == lower[6]);
        }
    }
}

/// Whether the locale would fall back to its first five bytes and byte 5
/// falls inside a character.
fn region_fallback_cuts_char(locale: &str, lowered: &str) -> (b: bool)
    ensures
        b == !market_fallback_readable(locale@, lowered@),
{
    let probe = region_for_known(lowered);
    let bytes = locale.as_bytes();
    let n = bytes.len();
    assert(bytes@ == encode_utf8(locale@));
    probe.is_none() && n >= 5 && bytes[2] == 45u8 && !locale.is_char_boundary(5)
}

/// The market of a known locale pattern, if one matches.
fn region_for_known(lowered: &str) -> (r: Option<String>)
    ensures
        match r {
            Some(m) => known_market(lowered@) == Some(m@),
            None => known_market(lowered@) is None,
        },
{
    if starts_with_str(lowered, "zh-hans") || str_eq(lowered, "zh-cn") {
        Some("zh-CN".to_string())
    } else if starts_with_str(lowered, "zh-hant") || str_eq(lowered, "zh-tw") || str_eq(
        lowered,
        "zh-hk",
    ) {
        Some("zh-TW".to_string())
    } else if starts_with_str(lowered, "ja") {
        Some("ja-JP".to_string())
    } else if starts_with_str(lowered, "de") {
        Some("de-DE".to_string())
    } else if starts_with_str(lowered, "fr") {
        Some("fr-FR".to_string())
    } else if starts_with_str(lowered, "en-gb") {
        Some("en-GB".to_string())
    } else if starts_with_str(lowered, "en-au") {
        Some("en-AU".to_string())
    } else if starts_with_str(lowered, "en-in") {
        Some("en-IN".to_string())
    } else if starts_with_str(lowered, "en") {
        Some("en-US".to_string())
    } else {
        None
    }
}

/// The text of the directory a path falls back on: the base's text when
/// there is a base, else ".".
pub open spec fn base_text(base: Option<std::path::PathBuf>) -> Seq<char> {
    match base {
        Some(p) => path_text_of(p),
        None => "."@,
    }
}

/// `name` under the directory `base`, or under "." when there is none.
pub fn dir_under(base: Option<std::path::PathBuf>, name: &str) -> (r: std::path::PathBuf)
    ensures
        path_text_of(r) == joined(base_text(base), name@),
{
    let dir = match base {
        Some(p) => p,
        None => path_of("."),
    };
    join(&dir, name)
}

/// The wallpaper directory `x-viz` under the pictures directory, else under
/// the home directory, else under ".".
pub fn storage_dir_under(pictures: Option<std::path::PathBuf>, home: Option<std::path::PathBuf>) -> (r:
    std::path::PathBuf)
    ensures
        path_text_of(r) == joined(
            if pictures is Some {
                base_text(pictures)
            } else {
                base_text(home)
            },
            "x-viz"@,
        ),
{
    match pictures {
        Some(p) => dir_under(Some(p), "x-viz"),
        None => dir_under(home, "x-viz"),
    }
}

/// The platform-specific configuration directory, e.g.
/// `~/Library/Application Support/com.ruis.x-viz/` on macOS: the user's
/// configuration directory (from the environment), or "." when the system
/// has none, joined with `com.ruis.x-viz`.
pub fn config_dir() -> (r: std::path::PathBuf)
    ensures
        exists|b: Option<std::path::PathBuf>| path_text_of(r) == joined(#[trigger] base_text(b), "com.ruis.x-viz"@),
{
    let base = user_config_dir();
    let r = dir_under(base, "com.ruis.x-viz");
    assert(path_text_of(r) == joined(base_text(base), "com.ruis.x-viz"@));
    r
}

/// The default wallpaper storage path: the user's pictures directory, else
/// the home directory, else ".", joined with `x-viz`.
pub fn default_storage_path() -> (r: std::path::PathBuf)
    ensures
        exists|b: Option<std::path::PathBuf>| path_text_of(r) == joined(#[trigger] base_text(b), "x-viz"@),
{
    let pictures = user_picture_dir();
    let home = user_home_dir();
    let r = storage_dir_under(pictures, home);
    let ghost b = if pictures is Some { pictures } else { home };
    assert(path_text_of(r) == joined(base_text(b), "x-viz"@));
    r
}

/// Full path to the config file: `config.json` in `config_dir()`.
pub fn config_file_path() -> (r: std::path::PathBuf)
    ensures
        exists|b: Option<std::path::PathBuf>| path_text_of(r) == joined(
            joined(#[trigger] base_text(b), "com.ruis.x-viz"@),
            "config.json"@,
        ),
{
    let dir = config_dir();
    let ghost b = choose|b: Option<std::path::PathBuf>| path_text_of(dir) == joined(#[trigger] base_text(b), "com.ruis.x-viz"@);
    let r = join(&dir, "config.json");
    assert(path_text_of(r) == joined(joined(base_text(b), "com.ruis.x-viz"@), "config.json"@));
    r
}

/// Whether this is the first launch: no file on disk at
/// `config_file_path()`. The answer comes from the file system, so no
/// contract states it.
pub fn is_first_run() -> bool {
    let path = config_file_path();
    !path_exists(&path)
}

/// The configuration written at the first launch: `cfg` with silent start
/// on, so that later launches start in the tray.
pub fn first_launch_config(cfg: AppConfig) -> (r: AppConfig)
    ensures
        r.silent_start,
        r.region == cfg.region,
        r.storage_path == cfg.storage_path,
        r.retention_days == cfg.retention_days,
        r.auto_start == cfg.auto_start,
        r.update_interval == cfg.update_interval,
        r.resolution == cfg.resolution,
        r.fetch_count == cfg.fetch_count,
        r.language == cfg.language,
        r.theme == cfg.theme,
{
    AppConfig { silent_start: true, ..cfg }
}

impl Default for AppConfig {
    /// The configuration used when none is saved.
    fn default() -> (r: Self)
        ensures
            r.region@ == "en-US"@ || exists|l: Seq<char>| r.region@ == market_of(l, lowercase(l)),
            r.retention_days == 30,
            !r.auto_start,
            r.update_interval@ == "daily"@,
            r.resolution@ == "UHD"@,
            r.fetch_count == 1,
            !r.silent_start,
            r.language@ == "en-US"@ || r.language@ == "zh-CN"@,
            r.theme@ == "auto"@,
            exists|b: Option<std::path::PathBuf>| r.storage_path@ == joined(#[trigger] base_text(b), "x-viz"@),
    {
        AppConfig {
            region: detect_system_region(),
            storage_path: path_text(&default_storage_path()),
            retention_days: 30,
            auto_start: false,
            update_interval: "daily".to_string(),
            resolution: "UHD".to_string(),
            fetch_count: 1,
            silent_start: false,
            language: detect_system_language(),
            theme: "auto".to_string(),
        }
    }
}

} // verus!
