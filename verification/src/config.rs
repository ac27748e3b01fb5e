//! The exporter's configuration: scrape settings and basic-auth users, with
//! the defaults that apply where the configuration file is silent.
pub mod parser;

use vstd::prelude::*;
use crate::string_map::StringMap;

verus! {

/// How units are scraped.
pub struct ScrapeConfigs {
    pub pool_max_idle_per_host: usize,
    pub tcp_keepalive_seconds: u64,
    pub scrape_timeout_seconds: u64,
    pub connect_timeout_seconds: u64,
    pub pool_idle_timeout_seconds: u64,
}

impl ScrapeConfigs {
    /// Idle connections kept per unit when the file names none.
    pub fn default_pool_max_idle_per_host() -> (r: usize)
        ensures
            r == 2,
    {
        2
    }

    /// TCP keep-alive interval when the file names none.
    pub fn default_tcp_keepalive_seconds() -> (r: u64)
        ensures
            r == 10,
    {
        10
    }

    /// Scrape timeout when the file names none.
    pub fn default_scrape_timeout_seconds() -> (r: u64)
        ensures
            r == 10,
    {
        10
    }

    /// Connect timeout when the file names none.
    pub fn default_connect_timeout_seconds() -> (r: u64)
        ensures
            r == 2,
    {
        2
    }

    /// Idle connection timeout when the file names none.
    pub fn default_pool_idle_timeout_seconds() -> (r: u64)
        ensures
            r == 30,
    {
        30
    }
}

/// The exporter's configuration.
pub struct Config {
    pub scrape_configs: ScrapeConfigs,
    /// Bcrypt password hashes by user name.
    pub basic_auth_users: StringMap,
}

impl Config {
    /// The users when the file names none: nobody, so that no request is
    /// asked to authenticate.
    pub fn default_basic_auth_users() -> (r: StringMap)
        ensures
            r@ == Map::<Seq<char>, Seq<char>>::empty(),
    {
        StringMap::new()
    }

    /// The scrape settings when the file has no `scrape_configs` section:
    /// each setting at its own default.
    pub fn default_scrape_configs() -> (r: ScrapeConfigs)
        ensures
            r.pool_max_idle_per_host == 2,
            r.tcp_keepalive_seconds == 10,
            r.scrape_timeout_seconds == 10,
            r.connect_timeout_seconds == 2,
            r.pool_idle_timeout_seconds == 30,
    {
        ScrapeConfigs {
            pool_max_idle_per_host: 2,
            tcp_keepalive_seconds: 10,
            scrape_timeout_seconds: 10,
            connect_timeout_seconds: 2,
            pool_idle_timeout_seconds: 30,
        }
    }
}

/// The HTTP client settings that the scrape settings give.
pub struct ClientSettings {
    pub tcp_keepalive_seconds: u64,
    pub pool_max_idle_per_host: usize,
    pub pool_idle_timeout_seconds: u64,
    pub connect_timeout_seconds: u64,
    pub timeout_seconds: u64,
}

impl ScrapeConfigs {
    /// The HTTP client settings for scraping: the keep-alive interval is the
    /// connect timeout, the request timeout is the scrape timeout.
    pub fn client_settings(&self) -> (s: ClientSettings)
        ensures
            s.tcp_keepalive_seconds == self.connect_timeout_seconds,
            s.pool_max_idle_per_host == self.pool_max_idle_per_host,
            s.pool_idle_timeout_seconds == self.pool_idle_timeout_seconds,
            s.connect_timeout_seconds == self.connect_timeout_seconds,
            s.timeout_seconds == self.scrape_timeout_seconds,
    {
        ClientSettings {
            tcp_keepalive_seconds: self.connect_timeout_seconds,
            pool_max_idle_per_host: self.pool_max_idle_per_host,
            pool_idle_timeout_seconds: self.pool_idle_timeout_seconds,
            connect_timeout_seconds: self.connect_timeout_seconds,
            timeout_seconds: self.scrape_timeout_seconds,
        }
    }
}

} // verus!
