use vcp_plugins::manifest::{
    is_valid_version, is_valid_version_range, ActivationEvent, Command, Event, Keybinding,
    ManifestParser, PluginManifest,
};
use vcp_plugins::state::PluginError;

fn hello_manifest() -> PluginManifest {
    let mut m = PluginManifest::default();
    m.name = "hello".to_string();
    m.version = "1.0.0".to_string();
    m.display_name = "H".to_string();
    m.description = "d".to_string();
    m.author = "a".to_string();
    m.permissions = vec!["filesystem.read:AppData/public/*".to_string()];
    m
}

#[test]
fn versions() {
    assert!(is_valid_version("1.0.0"));
    assert!(is_valid_version("10.20.30"));
    assert!(!is_valid_version("1.0"));
    assert!(!is_valid_version("1.0.0.0"));
    assert!(!is_valid_version("1.a.0"));
    assert!(!is_valid_version("1..0"));
    assert!(!is_valid_version("4294967296.0.0"));
    assert!(is_valid_version("4294967295.0.0"));
}

#[test]
fn version_ranges() {
    for r in ["1.0.0", "^1.0.0", "~1.2.3", ">=1.0.0", ">1.0.0", "<2.0.0", "=1.0.0"] {
        assert!(is_valid_version_range(r), "{}", r);
    }
    for r in ["^^1.0.0", "*", "latest", ">=1.0", ""] {
        assert!(!is_valid_version_range(r), "{}", r);
    }
}

#[test]
fn activation_events() {
    assert!(matches!(ActivationEvent::from_str("onCommand:hello.run"), Ok(ActivationEvent::OnCommand(c)) if c == "hello.run"));
    assert!(matches!(ActivationEvent::from_str("onStartupFinished"), Ok(ActivationEvent::OnStartupFinished)));
    assert!(matches!(ActivationEvent::from_str("onFileOpen:*.md"), Ok(ActivationEvent::OnFileOpen(p)) if p == "*.md"));
    assert!(matches!(ActivationEvent::from_str("onLanguage:rust"), Ok(ActivationEvent::OnLanguage(_))));
    assert!(matches!(ActivationEvent::from_str("onView:a.b"), Ok(ActivationEvent::OnView(_))));
    assert!(matches!(ActivationEvent::from_str("onCommand"), Err(PluginError::ManifestError(_))));
    assert!(matches!(ActivationEvent::from_str("onSomething:x"), Err(PluginError::ManifestError(_))));
}

#[test]
fn contribution_identifiers() {
    let ok = Command { identifier: "hello.run".to_string(), title: "Run".to_string(), description: None };
    assert!(ok.validate().is_ok());
    let no_dot = Command { identifier: "run".to_string(), title: "Run".to_string(), description: None };
    assert!(no_dot.validate().is_err());
    let bad_char = Event { identifier: "hello.r_n".to_string(), description: None };
    assert!(bad_char.validate().is_err());
    let unicode = Event { identifier: "hello.é".to_string(), description: None };
    assert!(unicode.validate().is_err());
    let kb = Keybinding { command: "hello.run".to_string(), key: "".to_string(), when: None };
    assert!(kb.validate().is_err());
}

#[test]
fn manifest_validation() {
    let parser = ManifestParser::new();
    let m = hello_manifest();
    assert!(m.validate().is_ok());
    assert!(parser.parse_and_validate(m).is_ok());

    let mut bad = hello_manifest();
    bad.version = "1.0".to_string();
    assert!(matches!(bad.validate(), Err(PluginError::ManifestValidation(_))));

    let mut bad = hello_manifest();
    bad.plugin_type = "daemon".to_string();
    assert!(matches!(parser.parse_and_validate(bad), Err(PluginError::ManifestValidation(_))));

    let mut bad = hello_manifest();
    bad.name = "hello world".to_string();
    assert!(bad.validate().is_err());

    let mut bad = hello_manifest();
    bad.activation_events = vec!["onNothing".to_string()];
    assert!(matches!(bad.validate(), Err(PluginError::ManifestValidation(_))));

    let mut bad = hello_manifest();
    bad.dependencies = vec![("other".to_string(), "latest".to_string())];
    assert!(bad.validate().is_err());

    let mut good = hello_manifest();
    good.dependencies = vec![("other".to_string(), "^1.2.0".to_string())];
    good.plugin_type = "messagePreprocessor".to_string();
    assert!(good.validate().is_ok());

    let mut bad = hello_manifest();
    bad.description = String::new();
    assert!(bad.validate().is_err());
}

#[test]
fn defaults() {
    let m = PluginManifest::default();
    assert_eq!(m.plugin_type, "synchronous");
    assert_eq!(m.main, "index.js");
    assert_eq!(vcp_plugins::manifest::default_main(), "index.js");
    assert_eq!(vcp_plugins::manifest::default_plugin_type(), "synchronous");
}
