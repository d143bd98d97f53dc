use var_gen::settings::{parse_bool, parse_u64, Settings, DEFAULT_CACHE_TTL};

fn some(s: &str) -> Option<String> {
    Some(s.to_string())
}

#[test]
fn numbers_parse_like_std() {
    for s in ["0", "42", "+7", "007", "18446744073709551615", "18446744073709551616", "", "+", "-1", " 1", "1a", "99999999999999999999"] {
        assert_eq!(parse_u64(s), s.parse::<u64>().ok(), "{:?}", s);
    }
    assert_eq!(parse_u64("86400"), Some(86400));
}

#[test]
fn flags_parse_like_std() {
    for s in ["true", "false", "True", "", "1", "true "] {
        assert_eq!(parse_bool(s), s.parse::<bool>().ok(), "{:?}", s);
    }
}

#[test]
fn missing_settings_take_defaults() {
    let s = Settings::from_stored(None, None, None, None, None, None);
    assert_eq!(s.default_style, "snake");
    assert_eq!(s.model, "qwen-tiny");
    assert!(s.cache_enabled);
    assert_eq!(s.cache_ttl_secs, DEFAULT_CACHE_TTL);
    assert_eq!(s.api_key, None);
    assert_eq!(s.mapping_config_path, None);
}

#[test]
fn stored_settings_are_read() {
    let s = Settings::from_stored(some("camel"), some("SECRET-REDACTED"), some("xinghuo-lite"), some("false"), some("60"), some("/tmp/m.json"));
    assert_eq!(s.default_style, "camel");
    assert_eq!(s.api_key, some("SECRET-REDACTED"));
    assert_eq!(s.model, "xinghuo-lite");
    assert!(!s.cache_enabled);
    assert_eq!(s.cache_ttl_secs, 60);
    assert_eq!(s.mapping_config_path, some("/tmp/m.json"));
}

#[test]
fn unreadable_or_cleared_settings_fall_back() {
    let s = Settings::from_stored(None, some(""), None, some("yes"), some("a day"), some(""));
    assert!(s.cache_enabled);
    assert_eq!(s.cache_ttl_secs, 86400);
    assert_eq!(s.api_key, None);
    assert_eq!(s.mapping_config_path, None);
}
