//! Settings read from `config.toml`.
use vstd::prelude::*;

verus! {

/// Where the Qonto API and its consent page live.
pub struct QontoConfig {
    pub oauth_base: String,
    pub api_base: String,
    pub redirect_uri: String,
    pub redirect_port: u16,
    pub scope: String,
}

/// Where the Google APIs and the consent page live, and which mails to list.
pub struct GoogleConfig {
    pub auth_base: String,
    pub token_url: String,
    pub api_base: String,
    pub redirect_uri: String,
    pub redirect_port: u16,
    pub scope: String,
    pub mail_query: String,
    pub max_results: u32,
}

/// Local files and the refresh period.
pub struct AppConfig {
    pub token_store: String,
    pub google_token_store: String,
    pub cache_db: String,
    pub pdf_dir: String,
    pub auto_refresh_secs: u64,
}

/// All settings.
pub struct Config {
    pub qonto: QontoConfig,
    pub google: GoogleConfig,
    pub app: AppConfig,
}

} // verus!
