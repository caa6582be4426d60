//! Plugin lifecycle states, the plugin error type and installed-plugin metadata.
use vstd::prelude::*;

verus! {

/// Where a plugin stands in its lifecycle.
#[derive(Debug, Clone, Copy, PartialEq, Eq, Hash, Structural)]
pub enum PluginState {
    /// Package not installed.
    Uninstalled,
    /// Package extracted to disk, not loaded.
    Installed,
    /// Manifest parsed and validated, ready to activate.
    Loaded,
    /// Activate hook called, initializing.
    Activated,
    /// Fully running.
    Running,
    /// Deactivate hook called.
    Deactivated,
}

/// The table of legal lifecycle moves.
pub open spec fn legal_transition(from: PluginState, to: PluginState) -> bool {
    match (from, to) {
        (PluginState::Uninstalled, PluginState::Installed) => true,
        (PluginState::Installed, PluginState::Loaded) => true,
        (PluginState::Installed, PluginState::Uninstalled) => true,
        (PluginState::Loaded, PluginState::Activated) => true,
        (PluginState::Activated, PluginState::Running) => true,
        (PluginState::Running, PluginState::Deactivated) => true,
        (PluginState::Deactivated, PluginState::Activated) => true,
        (PluginState::Deactivated, PluginState::Installed) => true,
        (PluginState::Deactivated, PluginState::Uninstalled) => true,
        _ => false,
    }
}

impl PluginState {
    /// Whether the move from `self` to `target` is one of the legal lifecycle moves.
    pub fn can_transition_to(&self, target: &PluginState) -> (r: bool)
        ensures
            r == legal_transition(*self, *target),
    {
        match (*self, *target) {
            (PluginState::Uninstalled, PluginState::Installed) => true,
            (PluginState::Installed, PluginState::Loaded) => true,
            (PluginState::Installed, PluginState::Uninstalled) => true,
            (PluginState::Loaded, PluginState::Activated) => true,
            (PluginState::Activated, PluginState::Running) => true,
            (PluginState::Running, PluginState::Deactivated) => true,
            (PluginState::Deactivated, PluginState::Activated) => true,
            (PluginState::Deactivated, PluginState::Installed) => true,
            (PluginState::Deactivated, PluginState::Uninstalled) => true,
            _ => false,
        }
    }
}

/// Errors of the plugin runtime; each kind is distinguishable by its variant.
#[derive(Debug, Clone)]
pub enum PluginError {
    NotFound(String),
    InvalidStateTransition { from: PluginState, to: PluginState },
    ManifestError(String),
    ManifestValidation(String),
    PermissionDenied(String),
    DependencyError(String),
    DependencyResolution(String),
    ActivationError(String),
    IoError(String),
    ZipError(String),
    HookError(String),
    FileSystemError(String),
}

pub type PluginId = String;

pub type PluginResult<T> = Result<T, PluginError>;

/// Metadata of an installed plugin.
#[derive(Debug, Clone)]
pub struct PluginMetadata {
    pub id: PluginId,
    pub name: String,
    pub display_name: String,
    pub version: String,
    pub description: String,
    pub author: String,
    pub plugin_type: String,
    pub install_path: String,
    pub state: PluginState,
    pub created_at: String,
    pub updated_at: String,
}

impl PluginMetadata {
    /// A copy with equal fields.
    pub fn duplicate(&self) -> (r: Self)
        ensures
            r.id@ == self.id@,
            r.name@ == self.name@,
            r.display_name@ == self.display_name@,
            r.version@ == self.version@,
            r.description@ == self.description@,
            r.author@ == self.author@,
            r.plugin_type@ == self.plugin_type@,
            r.install_path@ == self.install_path@,
            r.state == self.state,
            r.created_at@ == self.created_at@,
            r.updated_at@ == self.updated_at@,
    {
        PluginMetadata {
            id: String::from_str(self.id.as_str()),
            name: String::from_str(self.name.as_str()),
            display_name: String::from_str(self.display_name.as_str()),
            version: String::from_str(self.version.as_str()),
            description: String::from_str(self.description.as_str()),
            author: String::from_str(self.author.as_str()),
            plugin_type: String::from_str(self.plugin_type.as_str()),
            install_path: String::from_str(self.install_path.as_str()),
            state: self.state,
            created_at: String::from_str(self.created_at.as_str()),
            updated_at: String::from_str(self.updated_at.as_str()),
        }
    }
}

} // verus!
