use archdoc::cache::{cache_age_fits_u64, cache_age_seconds, is_stale, seconds_between, CacheManager, Timestamp};
use archdoc::config::Config;
use archdoc::errors::ArchDocError;

fn ts(secs: i64, nanos: u32) -> Timestamp {
    Timestamp { secs, nanos }
}

#[test]
fn cache_manager_takes_directory_from_config() {
    let mut c = Config::default();
    c.caching.cache_dir = "/tmp/some-cache".to_string();
    c.caching.enabled = false;
    let cm = CacheManager::new(c);
    assert_eq!(cm.cache_dir(), "/tmp/some-cache");
    assert!(!cm.caching_enabled());
}

#[test]
fn cache_age_units() {
    let cm = CacheManager::new(Config::default());
    assert_eq!(cm.parse_duration("24h").unwrap(), 86400);
    assert_eq!(cm.parse_duration("7d").unwrap(), 604800);
    assert_eq!(cm.parse_duration("15m").unwrap(), 900);
    assert_eq!(cm.parse_duration("45s").unwrap(), 45);
    assert_eq!(cm.parse_duration("+5s").unwrap(), 5);
    assert_eq!(cm.parse_duration("2w").unwrap(), 1_209_600);
    assert_eq!(cm.parse_duration("").unwrap(), 0);
}

#[test]
fn cache_age_errors() {
    let cm = CacheManager::new(Config::default());
    match cm.parse_duration("3y") {
        Err(ArchDocError::AnalysisError(m)) => assert_eq!(m, "Unknown duration unit: y"),
        _ => panic!("expected an analysis error"),
    }
    match cm.parse_duration("x") {
        Err(ArchDocError::AnalysisError(m)) => assert_eq!(m, "Invalid duration format: x"),
        _ => panic!("expected an analysis error"),
    }
    match cm.parse_duration("1.5h") {
        Err(ArchDocError::AnalysisError(m)) => assert_eq!(m, "Invalid duration format: 1.5h"),
        _ => panic!("expected an analysis error"),
    }
    match cm.parse_duration("99999999999999999999s") {
        Err(e) => assert_eq!(e.to_string(), "Analysis error: Invalid duration format: 99999999999999999999s"),
        _ => panic!("expected an analysis error"),
    }
}

#[test]
fn cache_key_is_hex_json() {
    let cm = CacheManager::new(Config::default());
    let k1 = cm.get_cache_key("src/a.py");
    let k2 = cm.get_cache_key("src/a.py");
    let k3 = cm.get_cache_key("src/b.py");
    assert_eq!(k1, k2);
    assert_ne!(k1, k3);
    assert!(k1.ends_with(".json"));
    let stem = &k1[..k1.len() - 5];
    assert!(!stem.is_empty());
    assert!(stem.chars().all(|c| c.is_ascii_hexdigit() && !c.is_ascii_uppercase()));
}

#[test]
fn whole_seconds_round_toward_zero() {
    assert_eq!(seconds_between(ts(100, 0), ts(40, 500_000_000)), 59);
    assert_eq!(seconds_between(ts(40, 500_000_000), ts(100, 0)), -59);
    assert_eq!(seconds_between(ts(10, 0), ts(10, 0)), 0);
    assert_eq!(seconds_between(ts(11, 999_999_999), ts(10, 0)), 1);
}

#[test]
fn expiry_follows_max_age() {
    let cm = CacheManager::new(Config::default());
    assert_eq!(cm.is_expired(ts(86_400, 0), ts(0, 0)).unwrap(), false);
    assert_eq!(cm.is_expired(ts(86_401, 0), ts(0, 0)).unwrap(), true);
    let mut c = Config::default();
    c.caching.max_cache_age = "bad".to_string();
    let cm2 = CacheManager::new(c);
    assert!(cm2.is_expired(ts(1, 0), ts(0, 0)).is_err());
}

#[test]
fn staleness_compares_modification_times() {
    assert!(is_stale(ts(5, 1), ts(5, 0)));
    assert!(is_stale(ts(6, 0), ts(5, 999)));
    assert!(!is_stale(ts(5, 0), ts(5, 0)));
    assert!(!is_stale(ts(4, 999), ts(5, 0)));
}

#[test]
fn cache_and_config_read_ages_alike() {
    let cm = CacheManager::new(Config::default());
    for text in ["1w", "24h", "7d", "30m", "45s", "0s", "18446744073709551615s"] {
        assert_eq!(cm.parse_duration(text).unwrap(), archdoc::config::parse_duration(text).unwrap());
    }
    assert_eq!(cm.parse_duration("1w").unwrap(), 604_800);
}

#[test]
fn cache_age_fit_check() {
    assert!(cache_age_fits_u64("24h"));
    assert!(cache_age_fits_u64("not an age"));
    assert!(cache_age_fits_u64("18446744073709551615s"));
    assert!(!cache_age_fits_u64("18446744073709551615m"));
    assert_eq!(cache_age_seconds("18446744073709551615m").unwrap(), 18446744073709551615u128 * 60);
    assert_eq!(cache_age_seconds("2w").unwrap(), 1_209_600);
    assert_eq!(cache_age_seconds("5x").unwrap_err(), "Unknown duration unit: x");
}
