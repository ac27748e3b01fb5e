//! The state that the exporter serves requests with.
use vstd::prelude::*;
use crate::auth::basic_auth::BasicAuth;
use crate::config::Config;

verus! {

/// What requests are served with: the authentication of the configured
/// users and the scrape timeout.
pub struct AppConfig {
    pub basic_auth: BasicAuth,
    pub scrape_timeout_seconds: u64,
}

impl AppConfig {
    /// The serving state of a configuration, with an empty credential cache
    /// under a fresh random key; fails where the system's random source does.
    pub fn new(config: Config) -> (r: Result<AppConfig, getrandom::Error>)
        ensures
            match r {
                Ok(app) => app.basic_auth.credentials@ == config.basic_auth_users@
                    && app.basic_auth.hashed_credential_cache@ == Set::<Seq<char>>::empty()
                    && app.basic_auth.cache_sound()
                    && app.scrape_timeout_seconds == config.scrape_configs.scrape_timeout_seconds,
                Err(_) => true,
            },
    {
        let scrape_timeout_seconds = config.scrape_configs.scrape_timeout_seconds;
        match BasicAuth::new(config.basic_auth_users) {
            Ok(basic_auth) => Ok(AppConfig { basic_auth, scrape_timeout_seconds }),
            Err(e) => Err(e),
        }
    }
}

} // verus!
