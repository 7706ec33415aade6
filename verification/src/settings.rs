//! The application settings record and its documented defaults.
use vstd::prelude::*;
use vstd::string::*;

verus! {

/// Every user-facing setting, with plain defaults. The download path is
/// left empty here; the surrounding program fills in a platform directory
/// before use.
pub struct AppSettings {
    pub theme: String,
    pub language: String,
    pub download_path: String,
    pub notifications: bool,
    pub close_to_tray: bool,
    pub auto_launch: bool,
    pub auto_start_download: bool,
    pub embed_thumbnail: bool,
    pub embed_metadata: bool,
    pub browser_cookies: String,
    pub ytdlp_flags: String,
    pub config_file: String,
}

impl Default for AppSettings {
    /// The documented defaults: system theme, English, notifications on,
    /// embedding on, no cookies, no extra flags.
    fn default() -> (r: AppSettings)
        ensures
            r.theme@ == "system"@,
            r.language@ == "en"@,
            r.download_path@.len() == 0,
            r.notifications == true,
            r.close_to_tray == false,
            r.auto_launch == false,
            r.auto_start_download == true,
            r.embed_thumbnail == true,
            r.embed_metadata == true,
            r.browser_cookies@ == "none"@,
            r.ytdlp_flags@.len() == 0,
            r.config_file@.len() == 0,
    {
        AppSettings {
            theme: String::from_str("system"),
            language: String::from_str("en"),
            download_path: String::new(),
            notifications: true,
            close_to_tray: false,
            auto_launch: false,
            auto_start_download: true,
            embed_thumbnail: true,
            embed_metadata: true,
            browser_cookies: String::from_str("none"),
            ytdlp_flags: String::new(),
            config_file: String::new(),
        }
    }
}

} // verus!
