use vcp_plugins::manifest::{Command, PluginManifest};
use vcp_plugins::registry::PluginManager;
use vcp_plugins::state::{PluginError, PluginState};

fn manifest(name: &str, deps: &[&str]) -> PluginManifest {
    let mut m = PluginManifest::default();
    m.name = name.to_string();
    m.version = "1.0.0".to_string();
    m.display_name = name.to_string();
    m.description = "d".to_string();
    m.author = "a".to_string();
    m.dependencies = deps.iter().map(|d| (d.to_string(), "^1.0.0".to_string())).collect();
    m
}

#[test]
fn install_and_run() {
    let mut pm = PluginManager::new("/data/app".to_string());
    let mut m = manifest("hello", &[]);
    m.permissions = vec!["filesystem.read:AppData/public/*".to_string()];
    m.contributes.commands.push(Command {
        identifier: "hello.greet".to_string(),
        title: "Greet".to_string(),
        description: None,
    });
    let id = pm.install_plugin(m).unwrap();
    assert_eq!(id, "hello");
    assert_eq!(pm.get_plugin_state("hello"), Some(PluginState::Installed));
    assert_eq!(pm.install_path_for("hello"), "/data/app/plugins/hello");
    pm.grant_permission("hello", "filesystem.read:AppData/public/*").unwrap();
    pm.activate_plugin("hello").unwrap();
    assert_eq!(pm.get_plugin_state("hello"), Some(PluginState::Running));
    assert!(pm.permission_manager().has_permission("hello", "filesystem.read:AppData/public/greeting.txt"));

    pm.deactivate_plugin("hello").unwrap();
    assert_eq!(pm.get_plugin_state("hello"), Some(PluginState::Deactivated));
    assert!(pm.deactivate_plugin("hello").is_err());
    pm.activate_plugin("hello").unwrap();
    assert_eq!(pm.get_plugin_state("hello"), Some(PluginState::Running));
}

#[test]
fn invalid_manifest_is_not_installed() {
    let mut pm = PluginManager::new("/data/app".to_string());
    let mut m = manifest("hello", &[]);
    m.version = "one".to_string();
    assert!(matches!(pm.install_plugin(m), Err(PluginError::ManifestValidation(_))));
    assert!(pm.list_plugins().is_empty());
}

#[test]
fn denied_permission_rolls_back() {
    let mut pm = PluginManager::with_auto_approve("/data/app".to_string(), false);
    let mut m = manifest("hello", &[]);
    m.permissions = vec!["network.request:api.example.com".to_string()];
    pm.install_plugin(m).unwrap();
    assert!(matches!(pm.activate_plugin_with_rollback("hello"), Err(PluginError::ActivationError(_))));
    assert_eq!(pm.get_plugin_state("hello"), Some(PluginState::Installed));
    pm.grant_permission("hello", "network.request:api.example.com").unwrap();
    assert!(pm.activate_plugin_with_rollback("hello").is_ok());
    assert_eq!(pm.get_plugin_state("hello"), Some(PluginState::Running));
    assert!(matches!(pm.activate_plugin("missing"), Err(PluginError::NotFound(_))));
}

#[test]
fn grant_permission_parses_type_and_scope() {
    let mut pm = PluginManager::new("/data/app".to_string());
    assert!(matches!(pm.grant_permission("p", "disk.read:x"), Err(PluginError::PermissionDenied(_))));
    assert!(matches!(pm.grant_permission("p", "filesystem.read:/etc"), Err(PluginError::PermissionDenied(_))));
    pm.grant_permission("p", "storage.read").unwrap();
    assert!(pm.permission_manager().has_permission("p", "storage.read:anything"));
}

#[test]
fn uninstall_removes_plugin_and_permissions() {
    let mut pm = PluginManager::new("/data/app".to_string());
    pm.install_plugin(manifest("hello", &[])).unwrap();
    pm.install_plugin(manifest("other", &[])).unwrap();
    pm.grant_permission("hello", "storage.read").unwrap();
    pm.activate_plugin("hello").unwrap();
    pm.uninstall_plugin("hello").unwrap();
    assert!(pm.list_plugins().iter().all(|m| m.id != "hello"));
    assert_eq!(pm.list_plugins().len(), 1);
    assert!(pm.permission_manager().permissions().iter().all(|r| r.plugin_id != "hello"));
    assert!(matches!(pm.uninstall_plugin("hello"), Err(PluginError::NotFound(_))));
}

#[test]
fn cycle_detection() {
    let mut pm = PluginManager::new("/data/app".to_string());
    pm.install_plugin(manifest("A", &["B"])).unwrap();
    pm.install_plugin(manifest("B", &["C"])).unwrap();
    pm.install_plugin(manifest("C", &["A"])).unwrap();
    match pm.resolve_dependencies("A") {
        Err(PluginError::DependencyError(msg)) => assert!(msg.contains("Circular dependency")),
        other => panic!("unexpected {:?}", other),
    }
    assert!(matches!(
        pm.resolve_plugin_dependencies(&["A".to_string()]),
        Err(PluginError::DependencyResolution(_))
    ));
}

#[test]
fn dependencies_come_first() {
    let mut pm = PluginManager::new("/data/app".to_string());
    pm.install_plugin(manifest("app", &["ui", "core"])).unwrap();
    pm.install_plugin(manifest("ui", &["core"])).unwrap();
    pm.install_plugin(manifest("core", &[])).unwrap();
    pm.install_plugin(manifest("unrelated", &[])).unwrap();
    let order = pm.resolve_dependencies("app").unwrap();
    assert_eq!(order, vec!["core".to_string(), "ui".to_string(), "app".to_string()]);
    let order = pm.resolve_plugin_dependencies(&["ui".to_string(), "unrelated".to_string()]).unwrap();
    assert_eq!(order, vec!["core".to_string(), "ui".to_string(), "unrelated".to_string()]);
}

#[test]
fn missing_dependency() {
    let mut pm = PluginManager::new("/data/app".to_string());
    pm.install_plugin(manifest("app", &["ghost"])).unwrap();
    assert!(matches!(pm.resolve_dependencies("app"), Err(PluginError::NotFound(_))));
    assert!(matches!(pm.resolve_dependencies("nothing"), Err(PluginError::NotFound(_))));
    let order = pm.resolve_plugin_dependencies(&["app".to_string()]).unwrap();
    assert_eq!(order, vec!["ghost".to_string(), "app".to_string()]);
}

#[test]
fn grant_keeps_scope_after_first_colon() {
    let mut pm = PluginManager::new("/data/app".to_string());
    pm.grant_permission("p", "storage.read:a:b").unwrap();
    assert!(pm.permission_manager().has_permission("p", "storage.read:a:b"));
    assert!(!pm.permission_manager().has_permission("p", "storage.read:a"));
}

#[test]
fn deactivating_an_idle_plugin_names_the_states() {
    let mut pm = PluginManager::new("/data/app".to_string());
    pm.install_plugin(manifest("hello", &[])).unwrap();
    match pm.deactivate_plugin("hello") {
        Err(PluginError::InvalidStateTransition { from, to }) => {
            assert_eq!(from, PluginState::Installed);
            assert_eq!(to, PluginState::Deactivated);
        }
        other => panic!("unexpected {:?}", other),
    }
    pm.activate_plugin("hello").unwrap();
    assert!(pm.activate_plugin("hello").is_err());
    assert_eq!(pm.get_plugin_state("hello"), Some(PluginState::Running));
}
