use vcp_plugins::permission::{
    is_valid_domain_pattern, PermissionManager, PermissionType, PluginPermission, RateLimiter,
};
use vcp_plugins::state::PluginError;

#[test]
fn permission_names_round_trip() {
    let all = [
        PermissionType::FilesystemRead,
        PermissionType::FilesystemWrite,
        PermissionType::NetworkRequest,
        PermissionType::StorageRead,
        PermissionType::StorageWrite,
        PermissionType::SystemNotify,
        PermissionType::UiRegisterCommand,
        PermissionType::UiRegisterView,
    ];
    for t in all.iter() {
        assert_eq!(PermissionType::from_str(t.as_str()), Some(*t));
    }
    assert_eq!(PermissionType::from_str("filesystem.execute"), None);
    assert_eq!(PermissionType::NetworkRequest.as_str(), "network.request");
}

fn record(t: PermissionType, scope: &str) -> PluginPermission {
    PluginPermission {
        plugin_id: "p".to_string(),
        permission_type: t,
        resource_scope: scope.to_string(),
        granted: false,
        granted_at: None,
        granted_by: None,
        expires_at: None,
    }
}

#[test]
fn scope_validation() {
    assert!(record(PermissionType::FilesystemRead, "AppData/x/*").validate_scope().is_ok());
    assert!(record(PermissionType::FilesystemWrite, "*").validate_scope().is_ok());
    assert!(matches!(
        record(PermissionType::FilesystemRead, "/etc/*").validate_scope(),
        Err(PluginError::PermissionDenied(_))
    ));
    assert!(record(PermissionType::NetworkRequest, "*.example.com").validate_scope().is_ok());
    assert!(record(PermissionType::NetworkRequest, "api.example.com").validate_scope().is_ok());
    assert!(record(PermissionType::NetworkRequest, "api.*.com").validate_scope().is_err());
    assert!(record(PermissionType::NetworkRequest, "localhost").validate_scope().is_err());
    assert!(record(PermissionType::StorageRead, "anything").validate_scope().is_ok());
    assert!(record(PermissionType::StorageRead, "").validate_scope().is_err());
    assert!(is_valid_domain_pattern("*.a.b"));
    assert!(!is_valid_domain_pattern("*.com"));
    assert!(!is_valid_domain_pattern("a b.com"));
}

#[test]
fn grant_has_revoke() {
    let mut pm = PermissionManager::new("/tmp/app".to_string());
    assert!(!pm.has_permission("p", "filesystem.read:AppData/public/a.txt"));
    pm.grant_permission("p", PermissionType::FilesystemRead, "AppData/public/*".to_string()).unwrap();
    assert!(pm.has_permission("p", "filesystem.read:AppData/public/a.txt"));
    assert!(pm.has_permission("p", "filesystem.read:AppData/public/*"));
    assert!(!pm.has_permission("p", "filesystem.read:AppData/private/a.txt"));
    assert!(!pm.has_permission("q", "filesystem.read:AppData/public/a.txt"));
    assert!(!pm.has_permission("p", "filesystem.write:AppData/public/a.txt"));
    assert!(!pm.has_permission("p", "bogus:AppData/public/a.txt"));
    assert_eq!(pm.permissions().len(), 1);

    pm.revoke_permission("p", &PermissionType::FilesystemRead).unwrap();
    assert!(!pm.has_permission("p", "filesystem.read:AppData/public/a.txt"));
    assert!(pm.permissions().is_empty());
}

#[test]
fn request_follows_auto_approve() {
    let mut approving = PermissionManager::with_auto_approve("/tmp/app".to_string(), true);
    assert!(approving.request_permission("p", "storage.read").is_ok());
    assert!(approving.has_permission("p", "storage.read"));
    assert!(matches!(approving.request_permission("p", "nope.read"), Err(PluginError::PermissionDenied(_))));
    assert!(matches!(
        approving.request_permission("p", "filesystem.read:/etc"),
        Err(PluginError::PermissionDenied(_))
    ));

    let mut denying = PermissionManager::with_auto_approve("/tmp/app".to_string(), false);
    assert!(matches!(denying.request_permission("p", "storage.read"), Err(PluginError::PermissionDenied(_))));
    assert!(denying.permissions().is_empty());
}

#[test]
fn filesystem_and_network_validation() {
    let mut pm = PermissionManager::new("/tmp/app".to_string());
    pm.grant_permission("p", PermissionType::FilesystemRead, "AppData/public/*".to_string()).unwrap();
    pm.grant_permission("p", PermissionType::FilesystemWrite, "AppData/out.txt".to_string()).unwrap();
    assert!(pm.validate_filesystem_permission("p", "public/greeting.txt", false));
    assert!(pm.validate_filesystem_permission("p", "public\\greeting.txt", false));
    assert!(!pm.validate_filesystem_permission("p", "private/x", false));
    assert!(pm.validate_filesystem_permission("p", "out.txt", true));
    assert!(!pm.validate_filesystem_permission("p", "out.txt.bak", true));

    pm.grant_permission("p", PermissionType::NetworkRequest, "api.example.com".to_string()).unwrap();
    assert!(pm.validate_network_permission("p", "api.example.com"));
    assert!(!pm.validate_network_permission("p", "www.example.com"));

    let entries = pm.take_audit_entries();
    assert!(entries.iter().any(|e| e.action == "grant" && e.result));
    assert!(entries.iter().any(|e| e.action == "validate" && !e.result));
    assert!(pm.take_audit_entries().is_empty());
}

#[test]
fn revoke_all_forgets_plugin() {
    let mut pm = PermissionManager::new("/tmp/app".to_string());
    pm.grant_permission("p", PermissionType::StorageRead, "*".to_string()).unwrap();
    pm.grant_permission("q", PermissionType::StorageRead, "*".to_string()).unwrap();
    assert!(pm.check_rate_limit_at("p", 0));
    pm.revoke_all_permissions("p").unwrap();
    assert!(pm.permissions().iter().all(|r| r.plugin_id != "p"));
    assert!(pm.has_permission("q", "storage.read"));
    assert_eq!(pm.get_app_data_dir(), "/tmp/app");
}

#[test]
fn token_bucket_arithmetic() {
    let mut l = RateLimiter::new(100, 0);
    for _ in 0..100 {
        assert!(l.try_acquire(0));
    }
    assert!(!l.try_acquire(0));
    assert!(!l.try_acquire(599));
    assert!(l.try_acquire(600));
    l.refill_tokens(60_600 * 10);
    assert_eq!(l.tokens, 100);
}

#[test]
fn granted_scopes_hold_themselves() {
    let mut pm = PermissionManager::with_auto_approve("/tmp/app".to_string(), true);
    pm.request_permission("p", "storage.read:a\\b").unwrap();
    assert!(pm.has_permission("p", "storage.read:a\\b"));
    pm.grant_permission("p", PermissionType::FilesystemRead, "AppData/docs\\sub\\*".to_string()).unwrap();
    assert!(pm.has_permission("p", "filesystem.read:AppData/docs/sub/x.txt"));
    assert!(pm.has_permission("p", "filesystem.read:AppData/docs\\sub\\*"));
}

#[test]
fn other_scopes_match_literally() {
    let mut pm = PermissionManager::new("/tmp/app".to_string());
    pm.grant_permission("p", PermissionType::StorageRead, "a/b".to_string()).unwrap();
    pm.grant_permission("p", PermissionType::StorageWrite, "x/*".to_string()).unwrap();
    assert!(pm.has_permission("p", "storage.read:a/b"));
    assert!(!pm.has_permission("p", "storage.read:a\\b"));
    assert!(!pm.has_permission("p", "storage.write:x/y"));
    assert!(pm.has_permission("p", "storage.write:x/*"));
}

#[test]
fn wildcard_hosts_may_not_hold_spaces() {
    assert!(!is_valid_domain_pattern("*.a b.com"));
    assert!(record(PermissionType::NetworkRequest, "*.a b.com").validate_scope().is_err());
}
