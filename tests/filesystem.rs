use vcp_plugins::filesystem::{
    entry_relative_path, has_parent_dir_component, listed_entries, log_operation, operation_permission,
    relative_path, validate_path,
};
use vcp_plugins::permission::{PermissionManager, PermissionType};
use vcp_plugins::state::PluginError;

const ROOT: &str = "/data/app";

#[test]
fn test_path_validation_rejects_parent_dir() {
    let mut pm = PermissionManager::new(ROOT.to_string());
    let result = validate_path(&mut pm, "test-plugin", "../secret.txt", ROOT, "/data/secret.txt", false);
    assert!(result.is_err());
}

#[test]
fn test_path_validation_rejects_absolute_path() {
    let mut pm = PermissionManager::new(ROOT.to_string());
    let result = validate_path(&mut pm, "test-plugin", "/etc/passwd", ROOT, "/etc/passwd", false);
    assert!(result.is_err());
}

#[test]
fn traversal_is_denied_and_audited() {
    let mut pm = PermissionManager::new(ROOT.to_string());
    pm.grant_permission("p", PermissionType::FilesystemRead, "*".to_string()).unwrap();
    let _ = pm.take_audit_entries();
    match validate_path(&mut pm, "p", "../outside.txt", ROOT, "/data/outside.txt", false) {
        Err(PluginError::PermissionDenied(msg)) => assert!(msg.contains("traversal")),
        other => panic!("unexpected {:?}", other),
    }
    let entries = pm.take_audit_entries();
    assert_eq!(entries.len(), 1);
    assert!(!entries[0].result);
}

#[test]
fn scoped_read_is_confined() {
    let mut pm = PermissionManager::new(ROOT.to_string());
    pm.grant_permission("hello", PermissionType::FilesystemRead, "AppData/public/*".to_string()).unwrap();
    let ok = validate_path(&mut pm, "hello", "public/greeting.txt", ROOT, "/data/app/public/greeting.txt", false);
    assert_eq!(ok.unwrap(), "/data/app/public/greeting.txt");
    assert!(matches!(
        validate_path(&mut pm, "hello", "private/x", ROOT, "/data/app/private/x", false),
        Err(PluginError::PermissionDenied(_))
    ));
    // A symlink that resolves outside AppData.
    assert!(matches!(
        validate_path(&mut pm, "hello", "public/link", ROOT, "/etc/shadow", false),
        Err(PluginError::PermissionDenied(_))
    ));
    // A sibling directory that shares the prefix is outside.
    assert!(validate_path(&mut pm, "hello", "public/a", ROOT, "/data/app2/public/a", false).is_err());
    // Writing needs its own grant.
    assert!(validate_path(&mut pm, "hello", "public/greeting.txt", ROOT, "/data/app/public/greeting.txt", true).is_err());
}

#[test]
fn parent_components() {
    assert!(has_parent_dir_component(".."));
    assert!(has_parent_dir_component("a/../b"));
    assert!(has_parent_dir_component("a/.."));
    assert!(!has_parent_dir_component("a/..b"));
    assert!(!has_parent_dir_component("..a/b"));
    assert!(!has_parent_dir_component("a/b.."));
}

#[test]
fn operations_log_under_their_capability() {
    assert_eq!(operation_permission("write"), PermissionType::FilesystemWrite);
    assert_eq!(operation_permission("delete"), PermissionType::FilesystemWrite);
    assert_eq!(operation_permission("read"), PermissionType::FilesystemRead);
    assert_eq!(operation_permission("mkdir"), PermissionType::FilesystemRead);
    let mut pm = PermissionManager::new(ROOT.to_string());
    log_operation(&mut pm, "p", "delete", "/data/app/x", true, None);
    let entries = pm.take_audit_entries();
    assert_eq!(entries[0].permission_type, "filesystem.write");
    assert_eq!(entries[0].action, "delete");
}

#[test]
fn listing_filters_names_by_glob() {
    let names: Vec<String> = ["a.txt", "b.md", "c.txt", "dir"].iter().map(|s| s.to_string()).collect();
    assert_eq!(listed_entries(&names, None).unwrap(), vec![0, 1, 2, 3]);
    assert_eq!(listed_entries(&names, Some("*.txt")).unwrap(), vec![0, 2]);
    assert!(listed_entries(&names, Some("nothing")).unwrap().is_empty());
    assert!(matches!(listed_entries(&names, Some("[")), Err(PluginError::FileSystemError(_))));
}

#[test]
fn listed_paths_are_appdata_relative() {
    assert_eq!(relative_path("/data/app", "/data/app/public"), "public");
    assert_eq!(relative_path("/data/app", "/data/app"), "");
    assert_eq!(entry_relative_path("public", "a.txt"), "public/a.txt");
    assert_eq!(entry_relative_path("", "a.txt"), "a.txt");
}
