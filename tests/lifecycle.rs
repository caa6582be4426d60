use vcp_plugins::lifecycle::{LifecycleManager, ResourceTracker, ResourceType};
use vcp_plugins::manifest::{Command, PluginManifest, View, ViewLocation};

#[test]
fn test_resource_tracker() {
    let mut tracker = ResourceTracker::new();
    let plugin_id = "test-plugin";

    tracker.track(plugin_id, ResourceType::Command("test.run".to_string()));
    tracker.track(plugin_id, ResourceType::Timer(123));

    assert_eq!(tracker.resource_count(plugin_id), 2);

    let removed = tracker.untrack(plugin_id, &ResourceType::Timer(123));
    assert!(removed);
    assert_eq!(tracker.resource_count(plugin_id), 1);

    let resources = tracker.clear_plugin_resources(plugin_id);
    assert_eq!(resources.len(), 1);
    assert_eq!(tracker.resource_count(plugin_id), 0);
}

#[test]
fn test_resource_tracker_multiple_plugins() {
    let mut tracker = ResourceTracker::new();

    tracker.track("plugin1", ResourceType::Command("cmd1".to_string()));
    tracker.track("plugin1", ResourceType::View("view1".to_string()));
    tracker.track("plugin2", ResourceType::Timer(456));

    assert_eq!(tracker.resource_count("plugin1"), 2);
    assert_eq!(tracker.resource_count("plugin2"), 1);

    tracker.clear_plugin_resources("plugin1");
    assert_eq!(tracker.resource_count("plugin1"), 0);
    assert_eq!(tracker.resource_count("plugin2"), 1);
}

#[test]
fn tracking_a_resource_twice_keeps_one() {
    let mut tracker = ResourceTracker::new();
    tracker.track("p", ResourceType::HttpRequest("r1".to_string()));
    tracker.track("p", ResourceType::HttpRequest("r1".to_string()));
    assert_eq!(tracker.resource_count("p"), 1);
    assert!(!tracker.untrack("p", &ResourceType::HttpRequest("r2".to_string())));
    assert!(!tracker.untrack("other", &ResourceType::HttpRequest("r1".to_string())));
    assert_eq!(tracker.get_resources("p").len(), 1);
    assert_eq!(tracker.get_resources("nobody").len(), 0);
}

#[test]
fn event_listeners_differ_by_listener() {
    let mut tracker = ResourceTracker::new();
    tracker.track(
        "p",
        ResourceType::EventListener { event_name: "e".to_string(), listener_id: "1".to_string() },
    );
    tracker.track(
        "p",
        ResourceType::EventListener { event_name: "e".to_string(), listener_id: "2".to_string() },
    );
    assert_eq!(tracker.resource_count("p"), 2);
}

fn manifest_with_contributions() -> PluginManifest {
    let mut m = PluginManifest::default();
    m.name = "hello".to_string();
    m.contributes.commands.push(Command {
        identifier: "hello.run".to_string(),
        title: "Run".to_string(),
        description: None,
    });
    m.contributes.views.push(View {
        identifier: "hello.panel".to_string(),
        title: "Panel".to_string(),
        description: None,
        location: ViewLocation::Panel,
    });
    m
}

#[test]
fn activate_hook_tracks_contributions_and_deactivate_releases_them() {
    let mut lm = LifecycleManager::new();
    let m = manifest_with_contributions();
    assert!(lm.execute_activate_hook("hello", "/tmp/hello", &m).is_ok());
    assert_eq!(lm.get_resource_count("hello"), 2);
    let resources = lm.resource_tracker().get_resources("hello");
    assert!(resources.contains(&ResourceType::Command("hello.run".to_string())));
    assert!(resources.contains(&ResourceType::View("hello.panel".to_string())));
    lm.track_resource("hello", ResourceType::FileHandle("a.txt".to_string()));
    assert_eq!(lm.get_resource_count("hello"), 3);
    assert!(lm.untrack_resource("hello", &ResourceType::FileHandle("a.txt".to_string())));
    assert!(lm.execute_deactivate_hook("hello", "/tmp/hello", &m).is_ok());
    assert_eq!(lm.get_resource_count("hello"), 0);
}

#[test]
fn defaults_track_nothing() {
    assert_eq!(ResourceTracker::default().resource_count("x"), 0);
    assert_eq!(LifecycleManager::default().get_resource_count("x"), 0);
}
