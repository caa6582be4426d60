use vcp_plugins::storage::PluginStorage;
use vcp_plugins::state::PluginError;

#[test]
fn round_trip() {
    let mut s = PluginStorage::new();
    s.set("p", "k", "\"v1\"".to_string()).unwrap();
    assert_eq!(s.get("p", "k"), Some("\"v1\"".to_string()));
    s.set("p", "k", "42".to_string()).unwrap();
    assert_eq!(s.get("p", "k"), Some("42".to_string()));
    assert_eq!(s.get("p", "missing"), None);
}

#[test]
fn isolation_between_plugins() {
    let mut s = PluginStorage::new();
    s.set("plugin1", "key", "\"value1\"".to_string()).unwrap();
    s.set("plugin2", "key", "\"value2\"".to_string()).unwrap();
    assert_eq!(s.get("plugin1", "key"), Some("\"value1\"".to_string()));
    assert_eq!(s.get("plugin2", "key"), Some("\"value2\"".to_string()));
    s.clear("plugin1");
    assert_eq!(s.get("plugin1", "key"), None);
    assert_eq!(s.get("plugin2", "key"), Some("\"value2\"".to_string()));
}

#[test]
fn empty_key_is_refused() {
    let mut s = PluginStorage::new();
    assert!(matches!(s.set("p", "", "\"value\"".to_string()), Err(PluginError::PermissionDenied(_))));
    assert_eq!(s.size("p"), 0);
}

#[test]
fn delete_keys_has_size() {
    let mut s = PluginStorage::new();
    s.set("p", "key1", "\"value1\"".to_string()).unwrap();
    s.set("p", "key2", "\"value2\"".to_string()).unwrap();
    s.set("q", "key3", "1".to_string()).unwrap();
    let mut keys = s.keys("p");
    keys.sort();
    assert_eq!(keys, vec!["key1".to_string(), "key2".to_string()]);
    assert_eq!(s.size("p"), 2);
    assert!(s.has("p", "key1"));
    assert!(s.delete("p", "key1"));
    assert!(!s.delete("p", "key1"));
    assert!(!s.has("p", "key1"));
    assert_eq!(s.size("p"), 1);
    assert_eq!(s.size("q"), 1);
}
