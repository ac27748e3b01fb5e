use pdu_exporter::auth::basic_auth::BasicAuth;
use pdu_exporter::config::Config;
use pdu_exporter::exporter::AppConfig;
use pdu_exporter::config::ScrapeConfigs;
use pdu_exporter::string_map::StringMap;

fn users(pairs: &[(&str, &str)]) -> StringMap {
    let mut m = StringMap::new();
    for (u, p) in pairs {
        m.insert(u.to_string(), bcrypt::hash(p, 4).unwrap());
    }
    m
}

#[test]
fn basic_header_is_decoded() {
    let c = BasicAuth::is_valid_basic_auth_header("Basic dXNlcjpwYXNz").unwrap();
    assert_eq!(c.encoded, "dXNlcjpwYXNz");
    assert_eq!(c.decoded, "user:pass");
    let c = BasicAuth::is_valid_basic_auth_header("Basic?YTpi").unwrap();
    assert_eq!(c.decoded, "a:b");
}

#[test]
fn malformed_headers_carry_no_credential() {
    assert!(BasicAuth::is_valid_basic_auth_header("Basic ").is_none());
    assert!(BasicAuth::is_valid_basic_auth_header("Bearer dXNlcjpwYXNz").is_none());
    assert!(BasicAuth::is_valid_basic_auth_header("Basic !!!!").is_none());
    assert!(BasicAuth::is_valid_basic_auth_header("Basic dXNlcjpwYXN").is_none());
    assert!(BasicAuth::is_valid_basic_auth_header("Basic /w==").is_none());
}

#[test]
fn user_and_password_split_at_the_first_colon() {
    let auth = BasicAuth::with_key(StringMap::new(), [0u8; 32]);
    assert_eq!(
        auth.parse_user_pass(&"me:pa:ss".to_string()),
        Some(("me".to_string(), "pa:ss".to_string()))
    );
    assert_eq!(auth.parse_user_pass(&"nocolon".to_string()), None);
}

#[test]
fn credential_hash_is_keyed_blake3_in_hex() {
    let key = [7u8; 32];
    let h = BasicAuth::hash_credential(&key, "dXNlcjpwYXNz");
    assert_eq!(h, blake3::keyed_hash(&key, b"dXNlcjpwYXNz").to_hex().to_string());
    assert_eq!(h.len(), 64);
    assert_ne!(h, BasicAuth::hash_credential(&[8u8; 32], "dXNlcjpwYXNz"));
}

#[test]
fn verify_checks_the_password_and_caches_a_match() {
    let mut auth = BasicAuth::with_key(users(&[("user", "pass")]), [1u8; 32]);
    let good = BasicAuth::is_valid_basic_auth_header("Basic dXNlcjpwYXNz").unwrap();
    let entry = BasicAuth::hash_credential(&[1u8; 32], "dXNlcjpwYXNz");
    assert!(auth.verify(&good));
    assert!(auth.hashed_credential_cache.contains(&entry));
    let wrong = BasicAuth::is_valid_basic_auth_header("Basic dXNlcjp3cm9uZw==").unwrap();
    assert!(!auth.verify(&wrong));
    let unknown = BasicAuth::is_valid_basic_auth_header("Basic b3RoZXI6cGFzcw==").unwrap();
    assert!(!auth.verify(&unknown));
    assert!(!auth.hashed_credential_cache.contains(&BasicAuth::hash_credential(&[1u8; 32], "b3RoZXI6cGFzcw==")));
}

#[test]
fn verify_rejects_an_unreadable_hash() {
    let mut m = StringMap::new();
    m.insert("user".to_string(), "not a bcrypt hash".to_string());
    let mut auth = BasicAuth::with_key(m, [1u8; 32]);
    let c = BasicAuth::is_valid_basic_auth_header("Basic dXNlcjpwYXNz").unwrap();
    assert!(!auth.verify(&c));
}

#[test]
fn authorize_follows_the_middleware_rules() {
    let mut open = BasicAuth::with_key(StringMap::new(), [2u8; 32]);
    assert!(open.authorize(None));
    assert!(open.authorize(Some("garbage")));
    assert!(open.authorize(Some("Basic\u{e9}x")));

    let mut auth = BasicAuth::with_key(users(&[("user", "pass")]), [3u8; 32]);
    assert!(!auth.authorize(None));
    assert!(!auth.authorize(Some("Bearer x")));
    assert!(!auth.authorize(Some("Basic dXNlcjp3cm9uZw==")));
    assert!(auth.authorize(Some("Basic dXNlcjpwYXNz")));
    assert!(auth.authorize(Some("Basic dXNlcjpwYXNz")));
    assert!(auth.hashed_credential_cache.contains(&BasicAuth::hash_credential(&[3u8; 32], "dXNlcjpwYXNz")));
}

#[test]
fn app_config_takes_users_and_timeout() {
    let config = Config {
        scrape_configs: ScrapeConfigs {
            pool_max_idle_per_host: 2,
            tcp_keepalive_seconds: 10,
            scrape_timeout_seconds: 12,
            connect_timeout_seconds: 2,
            pool_idle_timeout_seconds: 30,
        },
        basic_auth_users: users(&[("a", "b")]),
    };
    let app = AppConfig::new(config).unwrap();
    assert_eq!(app.scrape_timeout_seconds, 12);
    assert!(app.basic_auth.credentials.get("a").is_some());
    let fresh = BasicAuth::new(StringMap::new()).unwrap();
    assert!(fresh.credentials.is_empty());
}
