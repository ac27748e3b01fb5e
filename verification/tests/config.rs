use pdu_exporter::config::parser::{load_config, parse_args, PduExporterConfig, YamlValue};
use pdu_exporter::config::{Config, ScrapeConfigs};
use pdu_exporter::string_map::StringMap;

fn s(x: &str) -> YamlValue {
    YamlValue::Str(x.to_string())
}

fn map(entries: Vec<(YamlValue, YamlValue)>) -> YamlValue {
    YamlValue::Mapping(entries)
}

fn document(timeout: YamlValue, users: Option<YamlValue>) -> YamlValue {
    let mut entries = vec![(s("scrape_configs"), map(vec![(s("scrape_timeout"), timeout)]))];
    if let Some(u) = users {
        entries.push((s("basic_auth_users"), u));
    }
    map(entries)
}

#[test]
fn defaults_match_the_documented_values() {
    assert_eq!(ScrapeConfigs::default_pool_max_idle_per_host(), 2);
    assert_eq!(ScrapeConfigs::default_tcp_keepalive_seconds(), 10);
    assert_eq!(ScrapeConfigs::default_scrape_timeout_seconds(), 10);
    assert_eq!(ScrapeConfigs::default_connect_timeout_seconds(), 2);
    assert_eq!(ScrapeConfigs::default_pool_idle_timeout_seconds(), 30);
    let d = Config::default_scrape_configs();
    assert_eq!(
        (d.pool_max_idle_per_host, d.tcp_keepalive_seconds, d.scrape_timeout_seconds, d.connect_timeout_seconds, d.pool_idle_timeout_seconds),
        (2, 10, 10, 2, 30)
    );
    assert!(Config::default_basic_auth_users().is_empty());
}

#[test]
fn client_settings_use_the_connect_timeout_for_keepalive() {
    let c = ScrapeConfigs {
        pool_max_idle_per_host: 4,
        tcp_keepalive_seconds: 99,
        scrape_timeout_seconds: 15,
        connect_timeout_seconds: 3,
        pool_idle_timeout_seconds: 60,
    };
    let st = c.client_settings();
    assert_eq!(st.tcp_keepalive_seconds, 3);
    assert_eq!(st.timeout_seconds, 15);
    assert_eq!(st.pool_max_idle_per_host, 4);
    assert_eq!(st.pool_idle_timeout_seconds, 60);
    assert_eq!(st.connect_timeout_seconds, 3);
}

#[test]
fn string_map_replaces_and_reads_back() {
    let mut m = StringMap::new();
    assert!(m.is_empty());
    m.insert("a".to_string(), "1".to_string());
    m.insert("b".to_string(), "2".to_string());
    m.insert("a".to_string(), "3".to_string());
    assert!(!m.is_empty());
    assert_eq!(m.get("a").map(|v| v.as_str()), Some("3"));
    assert_eq!(m.get("b").map(|v| v.as_str()), Some("2"));
    assert_eq!(m.get("c"), None);
}

#[test]
fn parse_seconds_reads_a_number_followed_by_s() {
    assert_eq!(PduExporterConfig::parse_seconds("10s"), Some(10));
    assert_eq!(PduExporterConfig::parse_seconds("10ss"), Some(10));
    assert_eq!(PduExporterConfig::parse_seconds("+5s"), Some(5));
    assert_eq!(PduExporterConfig::parse_seconds("10"), None);
    assert_eq!(PduExporterConfig::parse_seconds("s"), None);
    assert_eq!(PduExporterConfig::parse_seconds(""), None);
    assert_eq!(PduExporterConfig::parse_seconds("1.5s"), None);
}

#[test]
fn parse_yaml_reads_timeout_and_users() {
    let users = map(vec![(s("admin"), s("$2b$hash")), (YamlValue::Tagged(Box::new(s("ops"))), s("$2b$other"))]);
    let c = PduExporterConfig::parse_document(&document(s("15s"), Some(users))).unwrap();
    assert_eq!(c.scrape_configs.scrape_timeout, 15);
    assert_eq!(c.basic_auth_users.credentials.get("admin").map(|v| v.as_str()), Some("$2b$hash"));
    assert_eq!(c.basic_auth_users.credentials.get("ops").map(|v| v.as_str()), Some("$2b$other"));
}

#[test]
fn parse_yaml_ignores_users_that_are_not_a_mapping() {
    let c = PduExporterConfig::parse_document(&document(s("3s"), Some(YamlValue::Other))).unwrap();
    assert_eq!(c.scrape_configs.scrape_timeout, 3);
    assert!(c.basic_auth_users.credentials.is_empty());
    let c = PduExporterConfig::parse_document(&document(s("3s"), None)).unwrap();
    assert!(c.basic_auth_users.credentials.is_empty());
}

#[test]
fn parse_yaml_reports_each_missing_piece() {
    let err = |y: YamlValue| PduExporterConfig::parse_document(&y).err().unwrap();
    assert_eq!(err(map(vec![])), "scrape_configs section is required");
    assert_eq!(err(YamlValue::Other), "scrape_configs section is required");
    assert_eq!(
        err(map(vec![(s("scrape_configs"), map(vec![]))])),
        "scrape_timeout is required in scrape_configs"
    );
    assert_eq!(err(document(YamlValue::Other, None)), "scrape_timeout must be a string");
    assert_eq!(err(document(s("ten"), None)), "Invalid scrape_timeout value: ten");
    let tagged = YamlValue::Tagged(Box::new(document(YamlValue::Tagged(Box::new(s("4s"))), None)));
    assert_eq!(PduExporterConfig::parse_document(&tagged).unwrap().scrape_configs.scrape_timeout, 4);
}

#[test]
fn parse_args_reads_key_value_options_after_the_program() {
    let args: Vec<String> = ["--x=1", "--config.file=a.yml", "plain", "--config.file=b=c.yml"]
        .iter()
        .map(|a| a.to_string())
        .collect();
    let opts = parse_args(&args);
    assert_eq!(opts.get("--x"), None);
    assert_eq!(opts.get("--config.file").map(|v| v.as_str()), Some("b=c.yml"));
    assert!(parse_args(&Vec::new()).is_empty());
}

#[test]
fn parse_yaml_reads_text() {
    let text = "scrape_configs:\n  scrape_timeout: 20s\nbasic_auth_users:\n  admin: \"$2b$04$x\"\n";
    let c = PduExporterConfig::parse_yaml(text).unwrap();
    assert_eq!(c.scrape_configs.scrape_timeout, 20);
    assert_eq!(c.basic_auth_users.credentials.get("admin").map(|v| v.as_str()), Some("$2b$04$x"));
    let e = PduExporterConfig::parse_yaml("other: 1\n").err().unwrap();
    assert_eq!(e, "scrape_configs section is required");
    let e = PduExporterConfig::parse_yaml("a: [").err().unwrap();
    assert_eq!(e, serde_yaml::from_str::<serde_yaml::Value>("a: [").unwrap_err().to_string());
}

#[test]
fn parse_yaml_checked_refuses_users_that_are_not_strings() {
    let bad = "scrape_configs:\n  scrape_timeout: 5s\nbasic_auth_users:\n  admin: 12\n";
    assert!(PduExporterConfig::parse_yaml_checked(bad).is_none());
    let bad_but_broken = "scrape_configs: {}\nbasic_auth_users:\n  admin: 12\n";
    assert_eq!(
        PduExporterConfig::parse_yaml_checked(bad_but_broken).unwrap().err().unwrap(),
        "scrape_timeout is required in scrape_configs"
    );
    let good = "scrape_configs:\n  scrape_timeout: 5s\n";
    assert_eq!(PduExporterConfig::parse_yaml_checked(good).unwrap().unwrap().scrape_configs.scrape_timeout, 5);
}

#[test]
fn load_config_reads_the_named_file() {
    let args: Vec<String> = vec!["prog".to_string(), "--config.file=conf.yml".to_string()];
    let c = load_config(&args, |path: &str| {
        assert_eq!(path, "conf.yml");
        Ok("scrape_configs:\n  scrape_timeout: 7s\n".to_string())
    })
    .unwrap();
    assert_eq!(c.scrape_configs.scrape_timeout, 7);
    let e = load_config(&args, |_: &str| Err("no such file".to_string())).err().unwrap();
    assert_eq!(e, "no such file");
    let none: Vec<String> = vec!["prog".to_string()];
    let e = load_config(&none, |_: &str| Ok(String::new())).err().unwrap();
    assert_eq!(e, "Missing required argument: --config.file");
}
