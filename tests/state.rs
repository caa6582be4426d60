use vcp_plugins::manifest::PluginManifest;
use vcp_plugins::registry::PluginRegistry;
use vcp_plugins::state::{PluginError, PluginMetadata, PluginState};
use vcp_plugins::state::PluginState::{Activated, Deactivated, Installed, Loaded, Running, Uninstalled};

#[test]
fn test_state_transitions() {
    assert!(Uninstalled.can_transition_to(&Installed));
    assert!(Installed.can_transition_to(&Loaded));
    assert!(Loaded.can_transition_to(&Activated));
    assert!(Activated.can_transition_to(&Running));
    assert!(Running.can_transition_to(&Deactivated));
    assert!(Deactivated.can_transition_to(&Installed));
    assert!(Installed.can_transition_to(&Uninstalled));

    assert!(!Uninstalled.can_transition_to(&Running));
    assert!(!Running.can_transition_to(&Installed));
    assert!(!Loaded.can_transition_to(&Deactivated));
}

#[test]
fn every_transition_matches_the_table() {
    let all = [Uninstalled, Installed, Loaded, Activated, Running, Deactivated];
    let legal = [
        (Uninstalled, Installed),
        (Installed, Loaded),
        (Installed, Uninstalled),
        (Loaded, Activated),
        (Activated, Running),
        (Running, Deactivated),
        (Deactivated, Activated),
        (Deactivated, Installed),
        (Deactivated, Uninstalled),
    ];
    for from in all.iter() {
        for to in all.iter() {
            assert_eq!(from.can_transition_to(to), legal.contains(&(*from, *to)));
        }
    }
}

fn test_metadata() -> PluginMetadata {
    PluginMetadata {
        id: "test-plugin".to_string(),
        name: "Test Plugin".to_string(),
        display_name: "Test Plugin".to_string(),
        version: "1.0.0".to_string(),
        description: "A test plugin".to_string(),
        author: "Test Author".to_string(),
        plugin_type: "synchronous".to_string(),
        install_path: "/tmp/test".to_string(),
        state: PluginState::Installed,
        created_at: "2024-01-01T00:00:00+00:00".to_string(),
        updated_at: "2024-01-01T00:00:00+00:00".to_string(),
    }
}

#[test]
fn test_plugin_registry() {
    let mut registry = PluginRegistry::new();
    let metadata = test_metadata();
    let manifest = PluginManifest::default();

    assert!(registry.register(metadata.clone(), manifest).is_ok());
    assert!(registry.get_metadata("test-plugin").is_some());
}

#[test]
fn test_state_transition_validation() {
    let mut registry = PluginRegistry::new();
    let metadata = test_metadata();
    let manifest = PluginManifest::default();
    registry.register(metadata, manifest).unwrap();

    assert!(registry.update_state("test-plugin", PluginState::Loaded).is_ok());
    assert!(registry.update_state("test-plugin", PluginState::Activated).is_ok());
    assert!(registry.update_state("test-plugin", PluginState::Running).is_ok());

    assert!(registry.update_state("test-plugin", PluginState::Installed).is_err());
}

#[test]
fn illegal_move_reports_both_states() {
    let mut registry = PluginRegistry::new();
    registry.register(test_metadata(), PluginManifest::default()).unwrap();
    match registry.update_state("test-plugin", PluginState::Running) {
        Err(PluginError::InvalidStateTransition { from, to }) => {
            assert_eq!(from, PluginState::Installed);
            assert_eq!(to, PluginState::Running);
        }
        other => panic!("unexpected {:?}", other),
    }
    assert_eq!(registry.get_metadata("test-plugin").unwrap().state, PluginState::Installed);
    assert!(matches!(
        registry.update_state("missing", PluginState::Loaded),
        Err(PluginError::NotFound(_))
    ));
}

#[test]
fn remove_drops_plugin_and_activation_order() {
    let mut registry = PluginRegistry::new();
    registry.register(test_metadata(), PluginManifest::default()).unwrap();
    registry.add_to_activation_order("test-plugin".to_string());
    let (m, _) = registry.remove("test-plugin").unwrap();
    assert_eq!(m.id, "test-plugin");
    assert!(registry.get_metadata("test-plugin").is_none());
    assert!(registry.list_plugins().is_empty());
    assert!(matches!(registry.remove("test-plugin"), Err(PluginError::NotFound(_))));
}
