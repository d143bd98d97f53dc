use var_gen::history::{decimal_string, HistoryEntry};
use var_gen::style::NamingStyle;
use var_gen::defaults::{load_default_chinese_to_english_map, load_default_stop_words};
use var_gen::vocabulary::{document_format, DocumentFormat, MappingConfig, MappingConfigManager, WordMap};

#[test]
fn test_mapping_config_default() {
    let config = MappingConfig::default();
    assert_eq!(config.version, "1.0");
    assert!(config.description.is_some());
    assert!(config.get_mapping("获取").is_some());
    assert_eq!(config.get_mapping("获取").unwrap(), "get");
}

#[test]
fn test_mapping_config_manager() {
    let config_path = "/tmp/var_gen_vocabulary/mapping.json";
    let manager = MappingConfigManager::new(config_path, None);
    assert!(manager.created_default());
    assert_eq!(manager.config_path(), config_path);
    assert_eq!(manager.config().version, "1.0");
    assert_eq!(manager.save(), DocumentFormat::Json);
}

#[test]
fn manager_keeps_stored_document() {
    let mut stored = MappingConfig::default();
    stored.version = "2.0".to_string();
    let mut manager = MappingConfigManager::new("vocab.toml", Some(stored));
    assert!(!manager.created_default());
    assert_eq!(manager.config().version, "2.0");
    assert_eq!(manager.save(), DocumentFormat::Toml);
    let mut reloaded = MappingConfig::default();
    reloaded.version = "3.0".to_string();
    manager.reload(reloaded);
    assert_eq!(manager.config().version, "3.0");
    manager.config_mut().add_mapping("订单".to_string(), "order".to_string());
    assert_eq!(manager.config().get_mapping("订单").map(|s| s.as_str()), Some("order"));
    assert_eq!(manager.config_path(), "vocab.toml");
}

#[test]
fn document_format_follows_extension() {
    assert_eq!(document_format("a/b/mapping.json"), DocumentFormat::Json);
    assert_eq!(document_format("mapping.json/"), DocumentFormat::Json);
    assert_eq!(document_format("a/.json"), DocumentFormat::Toml);
    assert_eq!(document_format("mapping.toml"), DocumentFormat::Toml);
    assert_eq!(document_format("mapping"), DocumentFormat::Toml);
    assert_eq!(document_format(""), DocumentFormat::Toml);
}

#[test]
fn default_tables_hold_expected_entries() {
    let builtin = load_default_chinese_to_english_map();
    assert_eq!(builtin.get("设置").map(|s| s.as_str()), Some("settings"));
    assert_eq!(builtin.get("类").map(|s| s.as_str()), Some("class"));
    assert_eq!(builtin.get("用户名").map(|s| s.as_str()), Some("username"));
    assert_eq!(builtin.get("不存在"), None);
    let config = MappingConfig::default();
    assert_eq!(config.get_mapping("类").map(|s| s.as_str()), Some("type"));
    assert_eq!(config.mappings().len(), 67);
    assert_eq!(builtin.len(), 67);
    let stops = load_default_stop_words();
    assert_eq!(stops.len(), 83);
    assert_eq!(stops[0], "的");
    assert_eq!(stops[82], "now");
    assert!(config.is_stop_word("the"));
    assert!(config.is_stop_word("的"));
    assert!(!config.is_stop_word("user"));
}

#[test]
fn word_map_insert_get_remove() {
    let mut m = WordMap::new();
    assert_eq!(m.len(), 0);
    m.insert("a".to_string(), "1".to_string());
    m.insert("b".to_string(), "2".to_string());
    m.insert("a".to_string(), "3".to_string());
    assert_eq!(m.len(), 2);
    assert_eq!(m.get("a").map(|s| s.as_str()), Some("3"));
    assert_eq!(m.entries()[0].0, "a");
    assert_eq!(m.remove("a"), Some("3".to_string()));
    assert_eq!(m.remove("a"), None);
    assert_eq!(m.get("a"), None);
    assert_eq!(m.len(), 1);
}

#[test]
fn mapping_edits_and_merge() {
    let mut config = MappingConfig::default();
    config.add_mapping("订单".to_string(), "order".to_string());
    assert_eq!(config.get_mapping("订单").map(|s| s.as_str()), Some("order"));
    assert_eq!(config.remove_mapping("订单"), Some("order".to_string()));
    assert_eq!(config.get_mapping("订单"), None);

    let mut base = MappingConfig::default();
    base.stop_words = vec!["a".to_string(), "b".to_string(), "a".to_string()];
    let mut other = MappingConfig::default();
    other.mappings = WordMap::new();
    other.mappings.insert("获取".to_string(), "fetch".to_string());
    other.mappings.insert("订单".to_string(), "order".to_string());
    other.stop_words = vec!["b".to_string(), "c".to_string()];
    base.merge(other);
    assert_eq!(base.get_mapping("获取").map(|s| s.as_str()), Some("fetch"));
    assert_eq!(base.get_mapping("订单").map(|s| s.as_str()), Some("order"));
    assert_eq!(base.get_mapping("用户").map(|s| s.as_str()), Some("user"));
    assert_eq!(base.stop_words(), &["a".to_string(), "b".to_string(), "c".to_string()][..]);
    assert_eq!(base.version, "1.0");
}

#[test]
fn history_keys_sort_by_timestamp() {
    assert_eq!(decimal_string(0), "0");
    assert_eq!(decimal_string(1700000000), "1700000000");
    assert_eq!(decimal_string(u64::MAX), "18446744073709551615");
    let e = HistoryEntry::new("user name", NamingStyle::Snake, "user_name", 42);
    assert_eq!(e.key(), "42:下划线命名法 (snake_case):user_name");
    assert_eq!(e.description, "user name");
}

#[test]
fn menu_positions_map_to_styles() {
    assert_eq!(NamingStyle::from_menu_index(0), NamingStyle::Snake);
    assert_eq!(NamingStyle::from_menu_index(1), NamingStyle::Camel);
    assert_eq!(NamingStyle::from_menu_index(5), NamingStyle::LowerCamel);
    assert_eq!(NamingStyle::from_menu_index(9), NamingStyle::Snake);
}
