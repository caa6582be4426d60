//! The registry of installed plugins and the manager that drives installation,
//! activation with rollback, deactivation, uninstallation and dependency order.
use vstd::prelude::*;
use crate::state::{legal_transition, PluginError, PluginId, PluginMetadata, PluginResult, PluginState};
use crate::manifest::PluginManifest;
use crate::text::{owned, str_eq};
use crate::clock::now_rfc3339;
use crate::lifecycle::{activation_resources, LifecycleManager};
use crate::manifest::{before_first, ManifestParser};
use crate::permission::{
    holds_permission, permission_type_named, requested_scope, valid_scope, grant_appended,
    PermissionManager, PermissionType,
};
use crate::text::{has_prefix, joined};

verus! {

/// An installed plugin: its metadata and its manifest.
pub struct RegisteredPlugin {
    pub metadata: PluginMetadata,
    pub manifest: PluginManifest,
}

/// All installed plugins, one per id, and the order in which they were activated.
pub struct PluginRegistry {
    plugins: Vec<RegisteredPlugin>,
    activation_order: Vec<PluginId>,
}

impl PluginRegistry {
    /// The installed plugins, in installation order.
    pub closed spec fn entries(&self) -> Seq<RegisteredPlugin> {
        self.plugins@
    }

    /// The ids of activated plugins, in activation order.
    pub closed spec fn order(&self) -> Seq<Seq<char>> {
        self.activation_order@.map_values(|s: String| s@)
    }

    /// Ids are unique.
    pub open spec fn wf(&self) -> bool {
        forall|i: int, j: int|
            0 <= i < self.entries().len() && 0 <= j < self.entries().len() && i != j
                ==> self.entries()[i].metadata.id@ != self.entries()[j].metadata.id@
    }

    pub open spec fn contains(&self, id: Seq<char>) -> bool {
        exists|i: int| 0 <= i < self.entries().len() && self.entries()[i].metadata.id@ == id
    }

    /// The plugin registered under `id`.
    pub open spec fn entry(&self, id: Seq<char>) -> RegisteredPlugin {
        self.entries()[choose|i: int|
            0 <= i < self.entries().len() && self.entries()[i].metadata.id@ == id]
    }

    /// The state of the plugin registered under `id`.
    pub open spec fn state_of(&self, id: Seq<char>) -> PluginState {
        self.entry(id).metadata.state
    }

    /// Every other plugin is as it was in `old`.
    pub open spec fn others_unchanged(&self, old: &Self, id: Seq<char>) -> bool {
        &&& forall|k: Seq<char>| k != id ==> (#[trigger] self.contains(k) <==> old.contains(k))
        &&& forall|k: Seq<char>| k != id && old.contains(k) ==> #[trigger] self.entry(k) == old.entry(k)
    }

    pub proof fn lemma_entry_at(&self, i: int)
        requires
            self.wf(),
            0 <= i < self.entries().len(),
        ensures
            self.contains(self.entries()[i].metadata.id@),
            self.entry(self.entries()[i].metadata.id@) == self.entries()[i],
    {
        let id = self.entries()[i].metadata.id@;
        let j = choose|j: int| 0 <= j < self.entries().len() && self.entries()[j].metadata.id@ == id;
        assert(j == i);
    }

    /// After replacing entry `i` by one with the same id, only that id's entry changed.
    proof fn lemma_replaced(&self, old: &Self, i: int)
        requires
            old.wf(),
            0 <= i < old.entries().len(),
            self.entries().len() == old.entries().len(),
            forall|a: int| 0 <= a < old.entries().len() && a != i ==> self.entries()[a] == old.entries()[a],
            self.entries()[i].metadata.id@ == old.entries()[i].metadata.id@,
        ensures
            self.wf(),
            self.contains(old.entries()[i].metadata.id@),
            self.entry(old.entries()[i].metadata.id@) == self.entries()[i],
            self.others_unchanged(old, old.entries()[i].metadata.id@),
    {
        let id = old.entries()[i].metadata.id@;
        assert forall|a: int, b: int|
            0 <= a < self.entries().len() && 0 <= b < self.entries().len() && a != b
            implies self.entries()[a].metadata.id@ != self.entries()[b].metadata.id@ by {
            assert(self.entries()[a].metadata.id@ == old.entries()[a].metadata.id@);
            assert(self.entries()[b].metadata.id@ == old.entries()[b].metadata.id@);
        }
        self.lemma_entry_at(i);
        assert forall|k: Seq<char>| k != id implies (#[trigger] self.contains(k) <==> old.contains(k)) by {
            if self.contains(k) {
                let j = choose|j: int| 0 <= j < self.entries().len() && self.entries()[j].metadata.id@ == k;
                assert(old.entries()[j].metadata.id@ == k);
            }
            if old.contains(k) {
                let j = choose|j: int| 0 <= j < old.entries().len() && old.entries()[j].metadata.id@ == k;
                assert(self.entries()[j].metadata.id@ == k);
            }
        }
        assert forall|k: Seq<char>| k != id && old.contains(k) implies #[trigger] self.entry(k) == old.entry(k) by {
            let j = choose|j: int| 0 <= j < old.entries().len() && old.entries()[j].metadata.id@ == k;
            old.lemma_entry_at(j);
            self.lemma_entry_at(j);
        }
    }

    pub fn new() -> (r: Self)
        ensures
            r.wf(),
            r.entries().len() == 0,
            r.order().len() == 0,
    {
        PluginRegistry { plugins: Vec::new(), activation_order: Vec::new() }
    }

    fn find(&self, plugin_id: &str) -> (r: Option<usize>)
        requires
            self.wf(),
        ensures
            r is None <==> !self.contains(plugin_id@),
            r matches Some(i) ==> i < self.entries().len() && self.entries()[i as int].metadata.id@
                == plugin_id@ && self.entry(plugin_id@) == self.entries()[i as int],
    {
        let mut i: usize = 0;
        while i < self.plugins.len()
            invariant
                self.wf(),
                0 <= i <= self.plugins@.len(),
                forall|j: int| 0 <= j < i ==> self.plugins@[j].metadata.id@ != plugin_id@,
            decreases self.plugins@.len() - i,
        {
            if str_eq(self.plugins[i].metadata.id.as_str(), plugin_id) {
                proof {
                    self.lemma_entry_at(i as int);
                }
                return Some(i);
            }
            i = i + 1;
        }
        None
    }

    /// Registers a plugin under `metadata.id`, replacing an earlier registration.
    pub fn register(&mut self, metadata: PluginMetadata, manifest: PluginManifest) -> (r: PluginResult<()>)
        requires
            old(self).wf(),
        ensures
            final(self).wf(),
            r is Ok,
            final(self).contains(metadata.id@),
            final(self).entry(metadata.id@).metadata == metadata,
            final(self).entry(metadata.id@).manifest == manifest,
            final(self).others_unchanged(old(self), metadata.id@),
            final(self).order() == old(self).order(),
    {
        let ghost old_self = *self;
        let ghost id = metadata.id@;
        match self.find(metadata.id.as_str()) {
            Some(i) => {
                let _ = self.plugins.remove(i);
                self.plugins.insert(i, RegisteredPlugin { metadata, manifest });
                proof {
                    let ol = old_self.plugins@;
                    ol.remove_ensures(i as int);
                    assert forall|a: int| 0 <= a < ol.len() && a != i implies #[trigger] self.plugins@[a] == ol[a] by {
                        if a < i {
                            assert(self.plugins@[a] == ol.remove(i as int)[a]);
                        } else {
                            assert(self.plugins@[a] == ol.remove(i as int)[a - 1]);
                        }
                    }
                    self.lemma_replaced(&old_self, i as int);
                }
            },
            None => {
                self.plugins.push(RegisteredPlugin { metadata, manifest });
                proof {
                    let n = old_self.plugins@.len();
                    assert forall|a: int, b: int|
                        0 <= a < self.entries().len() && 0 <= b < self.entries().len() && a != b
                        implies self.entries()[a].metadata.id@ != self.entries()[b].metadata.id@ by {
                        if a < n {
                            assert(self.entries()[a] == old_self.entries()[a]);
                        }
                        if b < n {
                            assert(self.entries()[b] == old_self.entries()[b]);
                        }
                    }
                    self.lemma_entry_at(n as int);
                    assert forall|k: Seq<char>| k != id implies (#[trigger] self.contains(k) <==> old_self.contains(k)) by {
                        if self.contains(k) {
                            let j = choose|j: int| 0 <= j < self.entries().len() && self.entries()[j].metadata.id@ == k;
                            assert(j < n);
                            assert(old_self.entries()[j] == self.entries()[j]);
                        }
                        if old_self.contains(k) {
                            let j = choose|j: int| 0 <= j < old_self.entries().len() && old_self.entries()[j].metadata.id@ == k;
                            assert(self.entries()[j] == old_self.entries()[j]);
                        }
                    }
                    assert forall|k: Seq<char>| k != id && old_self.contains(k) implies #[trigger] self.entry(k) == old_self.entry(k) by {
                        let j = choose|j: int| 0 <= j < old_self.entries().len() && old_self.entries()[j].metadata.id@ == k;
                        old_self.lemma_entry_at(j);
                        assert(self.entries()[j] == old_self.entries()[j]);
                        self.lemma_entry_at(j);
                    }
                }
            },
        }
        Ok(())
    }

    /// The metadata of the plugin registered under `plugin_id`.
    pub fn get_metadata(&self, plugin_id: &str) -> (r: Option<&PluginMetadata>)
        requires
            self.wf(),
        ensures
            r is Some <==> self.contains(plugin_id@),
            r matches Some(m) ==> *m == self.entry(plugin_id@).metadata,
    {
        match self.find(plugin_id) {
            Some(i) => Some(&self.plugins[i].metadata),
            None => None,
        }
    }

    /// The manifest of the plugin registered under `plugin_id`.
    pub fn get_manifest(&self, plugin_id: &str) -> (r: Option<&PluginManifest>)
        requires
            self.wf(),
        ensures
            r is Some <==> self.contains(plugin_id@),
            r matches Some(m) ==> *m == self.entry(plugin_id@).manifest,
    {
        match self.find(plugin_id) {
            Some(i) => Some(&self.plugins[i].manifest),
            None => None,
        }
    }

    /// Sets the plugin's state to `new_state` and stamps the change, whatever the
    /// state was.
    fn force_state(&mut self, plugin_id: &str, new_state: PluginState)
        requires
            old(self).wf(),
        ensures
            final(self).wf(),
            final(self).order() == old(self).order(),
            forall|k: Seq<char>| (#[trigger] final(self).contains(k)) <==> old(self).contains(k),
            old(self).contains(plugin_id@) ==> final(self).state_of(plugin_id@) == new_state
                && final(self).entry(plugin_id@).manifest == old(self).entry(plugin_id@).manifest
                && final(self).entry(plugin_id@).metadata.install_path == old(self).entry(
                plugin_id@,
            ).metadata.install_path,
            final(self).others_unchanged(old(self), plugin_id@),
            !old(self).contains(plugin_id@) ==> final(self).entries() == old(self).entries(),
    {
        let ghost old_self = *self;
        match self.find(plugin_id) {
            None => {},
            Some(i) => {
                let mut entry = self.plugins.remove(i);
                entry.metadata.state = new_state;
                entry.metadata.updated_at = now_rfc3339();
                self.plugins.insert(i, entry);
                proof {
                    let ol = old_self.plugins@;
                    ol.remove_ensures(i as int);
                    assert forall|a: int| 0 <= a < ol.len() && a != i implies #[trigger] self.plugins@[a] == ol[a] by {
                        if a < i {
                            assert(self.plugins@[a] == ol.remove(i as int)[a]);
                        } else {
                            assert(self.plugins@[a] == ol.remove(i as int)[a - 1]);
                        }
                    }
                    self.lemma_replaced(&old_self, i as int);
                    assert forall|k: Seq<char>| (#[trigger] self.contains(k)) <==> old_self.contains(k) by {
                        if k == plugin_id@ {
                            old_self.lemma_entry_at(i as int);
                        }
                    }
                }
            },
        }
    }

    /// Moves the plugin to `new_state` when the lifecycle allows that move.
    pub fn update_state(&mut self, plugin_id: &str, new_state: PluginState) -> (r: PluginResult<()>)
        requires
            old(self).wf(),
        ensures
            final(self).wf(),
            !old(self).contains(plugin_id@) ==> r matches Err(PluginError::NotFound(_)),
            old(self).contains(plugin_id@) && !legal_transition(old(self).state_of(plugin_id@), new_state)
                ==> r == Err::<(), PluginError>(PluginError::InvalidStateTransition {
                    from: old(self).state_of(plugin_id@),
                    to: new_state,
                }),
            r is Ok <==> old(self).contains(plugin_id@) && legal_transition(old(self).state_of(plugin_id@), new_state),
            r is Ok ==> final(self).state_of(plugin_id@) == new_state
                && final(self).entry(plugin_id@).manifest == old(self).entry(plugin_id@).manifest
                && final(self).entry(plugin_id@).metadata.install_path == old(self).entry(plugin_id@).metadata.install_path,
            r is Err ==> final(self).entries() == old(self).entries(),
            forall|k: Seq<char>| (#[trigger] final(self).contains(k)) <==> old(self).contains(k),
            final(self).others_unchanged(old(self), plugin_id@),
            final(self).order() == old(self).order(),
    {
        let from = match self.get_metadata(plugin_id) {
            Some(m) => m.state,
            None => return Err(PluginError::NotFound(owned(plugin_id))),
        };
        if !from.can_transition_to(&new_state) {
            return Err(PluginError::InvalidStateTransition { from, to: new_state });
        }
        self.force_state(plugin_id, new_state);
        Ok(())
    }

    /// Unregisters the plugin, handing back its metadata and manifest, and drops it from
    /// the activation order.
    pub fn remove(&mut self, plugin_id: &str) -> (r: PluginResult<(PluginMetadata, PluginManifest)>)
        requires
            old(self).wf(),
        ensures
            final(self).wf(),
            r is Ok <==> old(self).contains(plugin_id@),
            r matches Err(e) ==> e is NotFound,
            r matches Ok((m, mf)) ==> m == old(self).entry(plugin_id@).metadata && mf == old(
                self,
            ).entry(plugin_id@).manifest,
            !final(self).contains(plugin_id@),
            final(self).others_unchanged(old(self), plugin_id@),
            !final(self).order().contains(plugin_id@),
            r is Err ==> final(self).entries() == old(self).entries(),
    {
        let ghost old_self = *self;
        let i = match self.find(plugin_id) {
            Some(i) => i,
            None => {
                self.drop_from_order(plugin_id);
                return Err(PluginError::NotFound(owned(plugin_id)));
            },
        };
        let entry = self.plugins.remove(i);
        proof {
            let ol = old_self.plugins@;
            ol.remove_ensures(i as int);
            assert forall|a: int, b: int|
                0 <= a < self.entries().len() && 0 <= b < self.entries().len() && a != b
                implies self.entries()[a].metadata.id@ != self.entries()[b].metadata.id@ by {
                let aa = if a < i { a } else { a + 1 };
                let bb = if b < i { b } else { b + 1 };
                assert(self.entries()[a] == ol[aa]);
                assert(self.entries()[b] == ol[bb]);
            }
            if self.contains(plugin_id@) {
                let j = choose|j: int| 0 <= j < self.entries().len() && self.entries()[j].metadata.id@ == plugin_id@;
                let jj = if j < i { j } else { j + 1 };
                assert(self.entries()[j] == ol[jj]);
            }
            assert forall|k: Seq<char>| k != plugin_id@ implies (#[trigger] self.contains(k) <==> old_self.contains(k)) by {
                if self.contains(k) {
                    let j = choose|j: int| 0 <= j < self.entries().len() && self.entries()[j].metadata.id@ == k;
                    let jj = if j < i { j } else { j + 1 };
                    assert(self.entries()[j] == ol[jj]);
                }
                if old_self.contains(k) {
                    let j = choose|j: int| 0 <= j < ol.len() && ol[j].metadata.id@ == k;
                    assert(j != i);
                    let jj = if j < i { j } else { j - 1 };
                    assert(self.entries()[jj] == ol[j]);
                }
            }
            assert forall|k: Seq<char>| k != plugin_id@ && old_self.contains(k) implies #[trigger] self.entry(k) == old_self.entry(k) by {
                let j = choose|j: int| 0 <= j < ol.len() && ol[j].metadata.id@ == k;
                assert(j != i);
                let jj = if j < i { j } else { j - 1 };
                assert(self.entries()[jj] == ol[j]);
                old_self.lemma_entry_at(j);
                self.lemma_entry_at(jj);
            }
        }
        let ghost mid = *self;
        self.drop_from_order(plugin_id);
        proof {
            assert forall|k: Seq<char>| #[trigger] self.contains(k) == mid.contains(k) by {
                if self.contains(k) {
                    let j = choose|j: int| 0 <= j < self.entries().len() && self.entries()[j].metadata.id@ == k;
                    assert(mid.entries()[j].metadata.id@ == k);
                }
                if mid.contains(k) {
                    let j = choose|j: int| 0 <= j < mid.entries().len() && mid.entries()[j].metadata.id@ == k;
                    assert(self.entries()[j].metadata.id@ == k);
                }
            }
            assert forall|k: Seq<char>| #[trigger] self.entry(k) == mid.entry(k) by {
            }
        }
        Ok((entry.metadata, entry.manifest))
    }

    /// Removes `plugin_id` from the activation order.
    fn drop_from_order(&mut self, plugin_id: &str)
        requires
            old(self).wf(),
        ensures
            final(self).wf(),
            final(self).entries() == old(self).entries(),
            !final(self).order().contains(plugin_id@),
    {
        let mut i: usize = 0;
        while i < self.activation_order.len()
            invariant
                self.wf(),
                self.entries() == old(self).entries(),
                0 <= i <= self.activation_order@.len(),
                forall|j: int| 0 <= j < i ==> self.activation_order@[j]@ != plugin_id@,
            decreases self.activation_order@.len() - i,
        {
            if str_eq(self.activation_order[i].as_str(), plugin_id) {
                let ghost before = self.activation_order@;
                self.activation_order.remove(i);
                proof {
                    before.remove_ensures(i as int);
                }
            } else {
                i = i + 1;
            }
        }
        proof {
            if self.order().contains(plugin_id@) {
                let j = choose|j: int| 0 <= j < self.order().len() && self.order()[j] == plugin_id@;
                assert(self.activation_order@[j]@ == plugin_id@);
            }
        }
    }

    /// The metadata of every installed plugin, in installation order.
    pub fn list_plugins(&self) -> (r: Vec<&PluginMetadata>)
        ensures
            r@.len() == self.entries().len(),
            forall|i: int| 0 <= i < r@.len() ==> *(#[trigger] r@[i]) == self.entries()[i].metadata,
    {
        let mut r: Vec<&PluginMetadata> = Vec::new();
        let mut i: usize = 0;
        while i < self.plugins.len()
            invariant
                0 <= i <= self.plugins@.len(),
                r@.len() == i,
                forall|j: int| 0 <= j < i ==> *(#[trigger] r@[j]) == self.entries()[j].metadata,
            decreases self.plugins@.len() - i,
        {
            r.push(&self.plugins[i].metadata);
            i = i + 1;
        }
        r
    }

    /// Appends `plugin_id` to the activation order unless it is there.
    pub fn add_to_activation_order(&mut self, plugin_id: PluginId)
        requires
            old(self).wf(),
        ensures
            final(self).wf(),
            final(self).entries() == old(self).entries(),
            final(self).order() == if old(self).order().contains(plugin_id@) {
                old(self).order()
            } else {
                old(self).order().push(plugin_id@)
            },
    {
        let mut i: usize = 0;
        while i < self.activation_order.len()
            invariant
                self.wf(),
                *self == *old(self),
                0 <= i <= self.activation_order@.len(),
                forall|j: int| 0 <= j < i ==> self.activation_order@[j]@ != plugin_id@,
            decreases self.activation_order@.len() - i,
        {
            if str_eq(self.activation_order[i].as_str(), plugin_id.as_str()) {
                assert(self.order()[i as int] == plugin_id@);
                return;
            }
            i = i + 1;
        }
        proof {
            if self.order().contains(plugin_id@) {
                let j = choose|j: int| 0 <= j < self.order().len() && self.order()[j] == plugin_id@;
                assert(self.activation_order@[j]@ == plugin_id@);
            }
        }
        let ghost before = self.activation_order@;
        self.activation_order.push(plugin_id);
        assert(self.order() =~= before.map_values(|s: String| s@).push(self.activation_order@.last()@));
    }
}

/// The permission string `perm` from a manifest is already held by plugin `id`.
pub open spec fn permission_ready(pm: PermissionManager, id: Seq<char>, perm: Seq<char>) -> bool {
    match permission_type_named(before_first(perm, ':')) {
        Some(t) => holds_permission(pm.grants(), id, t, requested_scope(perm)),
        None => false,
    }
}

/// Plugin `id` holds the permission string `perm`: it is matched by a grant, or a
/// record grants exactly its type and scope.
pub open spec fn permission_held(pm: PermissionManager, id: Seq<char>, perm: Seq<char>) -> bool {
    permission_ready(pm, id, perm) || exists|k: int|
        0 <= k < pm.grants().len() && (#[trigger] pm.grants()[k]).plugin_id@ == id && Some(
            pm.grants()[k].permission_type,
        ) == permission_type_named(before_first(perm, ':')) && pm.grants()[k].resource_scope@
            == requested_scope(perm) && pm.grants()[k].granted
}

/// Requesting the permission string `perm` would be approved.
pub open spec fn permission_requestable(pm: PermissionManager, perm: Seq<char>) -> bool {
    pm.auto_approves() && match permission_type_named(before_first(perm, ':')) {
        Some(t) => valid_scope(t, requested_scope(perm)),
        None => false,
    }
}

/// A grant that stays in a longer list of grants stays effective.
proof fn lemma_holds_permission_grows(
    g1: Seq<crate::permission::PluginPermission>,
    g2: Seq<crate::permission::PluginPermission>,
    id: Seq<char>,
    t: PermissionType,
    scope: Seq<char>,
)
    requires
        g1.len() <= g2.len(),
        g2.subrange(0, g1.len() as int) == g1,
        holds_permission(g1, id, t, scope),
    ensures
        holds_permission(g2, id, t, scope),
{
    let i = choose|i: int|
        0 <= i < g1.len() && (#[trigger] g1[i]).plugin_id@ == id && g1[i].permission_type == t
            && g1[i].granted && (g1[i].resource_scope@ == "*"@
            || crate::permission::permission_scope_matches(t, scope, g1[i].resource_scope@));
    assert(g2[i] == g2.subrange(0, g1.len() as int)[i]);
}

/// Drives plugins through their lifecycle over the registry, the permission store and
/// the lifecycle hooks.
pub struct PluginManager {
    registry: PluginRegistry,
    permission_manager: PermissionManager,
    lifecycle_manager: LifecycleManager,
    manifest_parser: ManifestParser,
    plugins_dir: String,
}

impl PluginManager {
    pub closed spec fn reg(&self) -> PluginRegistry {
        self.registry
    }

    pub closed spec fn perms(&self) -> PermissionManager {
        self.permission_manager
    }

    pub closed spec fn life(&self) -> LifecycleManager {
        self.lifecycle_manager
    }

    pub closed spec fn plugins_root(&self) -> Seq<char> {
        self.plugins_dir@
    }

    pub open spec fn wf(&self) -> bool {
        self.reg().wf() && self.perms().wf() && self.life().wf()
    }

    pub fn new(app_data_dir: String) -> (r: Self)
        ensures
            r.wf(),
            r.reg().entries().len() == 0,
            r.perms().auto_approves(),
            r.perms().grants().len() == 0,
            r.plugins_root() == app_data_dir@ + "/plugins"@,
    {
        Self::with_auto_approve(app_data_dir, true)
    }

    /// A manager over `app_data_dir` whose permission requests are approved exactly when
    /// `auto_approve` holds.
    pub fn with_auto_approve(app_data_dir: String, auto_approve: bool) -> (r: Self)
        ensures
            r.wf(),
            r.reg().entries().len() == 0,
            r.perms().auto_approves() == auto_approve,
            r.perms().grants().len() == 0,
            r.plugins_root() == app_data_dir@ + "/plugins"@,
    {
        Self::with_permissions(app_data_dir, auto_approve, Vec::new())
    }

    /// A manager over `app_data_dir` whose permission store starts with `records`, as
    /// the host restores them after a restart.
    pub fn with_permissions(
        app_data_dir: String,
        auto_approve: bool,
        records: Vec<crate::permission::PluginPermission>,
    ) -> (r: Self)
        ensures
            r.wf(),
            r.reg().entries().len() == 0,
            r.perms().auto_approves() == auto_approve,
            r.perms().grants() == records@,
            r.plugins_root() == app_data_dir@ + "/plugins"@,
    {
        let plugins_dir = joined(app_data_dir.as_str(), "/plugins");
        PluginManager {
            registry: PluginRegistry::new(),
            permission_manager: PermissionManager::with_permissions(app_data_dir, auto_approve, records),
            lifecycle_manager: LifecycleManager::new(),
            manifest_parser: ManifestParser::new(),
            plugins_dir,
        }
    }

    /// The directory a plugin is installed in: `<plugins>/<plugin_id>`.
    pub fn install_path_for(&self, plugin_id: &str) -> (r: String)
        ensures
            r@ == self.plugins_root() + "/"@ + plugin_id@,
    {
        joined(joined(self.plugins_dir.as_str(), "/").as_str(), plugin_id)
    }

    /// Registers an unpacked plugin from its decoded manifest: the manifest must be valid;
    /// the plugin's id is its name and it starts `Installed`, replacing an earlier
    /// installation under that id.
    pub fn install_plugin(&mut self, manifest: PluginManifest) -> (r: PluginResult<PluginId>)
        requires
            old(self).wf(),
        ensures
            final(self).wf(),
            r is Ok <==> manifest.valid(),
            r matches Err(e) ==> e is ManifestValidation && final(self).reg().entries() == old(
                self,
            ).reg().entries(),
            r matches Ok(id) ==> id@ == manifest.name@ && final(self).reg().contains(id@)
                && final(self).reg().state_of(id@) == PluginState::Installed && final(self).reg().entry(
                id@,
            ).manifest == manifest && final(self).reg().entry(id@).metadata.install_path@
                == final(self).plugins_root() + "/"@ + id@ && final(self).reg().others_unchanged(
                &old(self).reg(),
                id@,
            ),
            final(self).perms() == old(self).perms(),
            final(self).life() == old(self).life(),
    {
        let manifest = self.manifest_parser.parse_and_validate(manifest)?;
        let plugin_id = owned(manifest.name.as_str());
        let install_path = self.install_path_for(plugin_id.as_str());
        let created = now_rfc3339();
        let metadata = PluginMetadata {
            id: owned(plugin_id.as_str()),
            name: owned(manifest.name.as_str()),
            display_name: owned(manifest.display_name.as_str()),
            version: owned(manifest.version.as_str()),
            description: owned(manifest.description.as_str()),
            author: owned(manifest.author.as_str()),
            plugin_type: owned(manifest.plugin_type.as_str()),
            install_path,
            state: PluginState::Installed,
            created_at: owned(created.as_str()),
            updated_at: created,
        };
        self.registry.register(metadata, manifest)?;
        Ok(plugin_id)
    }

    /// Every installed plugin's metadata.
    pub fn list_plugins(&self) -> (r: Vec<PluginMetadata>)
        ensures
            r@.len() == self.reg().entries().len(),
            forall|i: int|
                0 <= i < r@.len() ==> (#[trigger] r@[i]).id@ == self.reg().entries()[i].metadata.id@
                    && r@[i].state == self.reg().entries()[i].metadata.state,
    {
        let all = self.registry.list_plugins();
        let mut r: Vec<PluginMetadata> = Vec::new();
        let mut i: usize = 0;
        while i < all.len()
            invariant
                0 <= i <= all@.len(),
                all@.len() == self.reg().entries().len(),
                forall|j: int| 0 <= j < all@.len() ==> *(#[trigger] all@[j]) == self.reg().entries()[j].metadata,
                r@.len() == i,
                forall|j: int|
                    0 <= j < i ==> (#[trigger] r@[j]).id@ == self.reg().entries()[j].metadata.id@
                        && r@[j].state == self.reg().entries()[j].metadata.state,
            decreases all@.len() - i,
        {
            r.push(all[i].duplicate());
            i = i + 1;
        }
        r
    }

    /// The plugin's state, if it is installed.
    pub fn get_plugin_state(&self, plugin_id: &str) -> (r: Option<PluginState>)
        requires
            self.wf(),
        ensures
            r is Some <==> self.reg().contains(plugin_id@),
            r matches Some(s) ==> s == self.reg().state_of(plugin_id@),
    {
        match self.registry.get_metadata(plugin_id) {
            Some(m) => Some(m.state),
            None => None,
        }
    }

    /// Hands over the audit entries of the permission store, oldest first.
    pub fn take_audit_entries(&mut self) -> (r: Vec<crate::audit::AuditLogEntry>)
        requires
            old(self).wf(),
        ensures
            final(self).wf(),
            r@ == old(self).perms().pending_audit(),
            final(self).perms().pending_audit().len() == 0,
            final(self).perms().grants() == old(self).perms().grants(),
            final(self).reg() == old(self).reg(),
            final(self).life() == old(self).life(),
    {
        self.permission_manager.take_audit_entries()
    }

    /// The permission store.
    pub fn permission_manager(&self) -> (r: &PermissionManager)
        ensures
            *r == self.perms(),
    {
        &self.permission_manager
    }

    /// Grants `type[:scope]` to the plugin; the scope is all text after the first `:`,
    /// or `*`.
    pub fn grant_permission(&mut self, plugin_id: &str, permission: &str) -> (r: PluginResult<()>)
        requires
            old(self).wf(),
        ensures
            final(self).wf(),
            ({
                let kind = before_first(permission@, ':');
                let scope = requested_scope(permission@);
                &&& r is Ok <==> (permission_type_named(kind) is Some && valid_scope(
                    permission_type_named(kind)->0,
                    scope,
                ))
                &&& r is Ok ==> grant_appended(
                    old(self).perms().grants(),
                    final(self).perms().grants(),
                    plugin_id@,
                    permission_type_named(kind)->0,
                    scope,
                )
                &&& r is Ok ==> holds_permission(
                    final(self).perms().grants(),
                    plugin_id@,
                    permission_type_named(kind)->0,
                    scope,
                )
            }),
            r matches Err(e) ==> e is PermissionDenied,
            r is Err ==> final(self).perms().grants() == old(self).perms().grants(),
            final(self).reg() == old(self).reg(),
            final(self).life() == old(self).life(),
            final(self).perms().auto_approves() == old(self).perms().auto_approves(),
    {
        let (kind, scope) = crate::permission::split_permission(permission);
        let permission_type = match PermissionType::from_str(kind.as_str()) {
            Some(t) => t,
            None => {
                return Err(PluginError::PermissionDenied(joined("Unknown permission type: ", kind.as_str())));
            },
        };
        self.permission_manager.grant_permission(plugin_id, permission_type, scope)
    }
}

/// Obtains every permission the manifest declares: one already held is kept, any
/// other is requested; a refusal stops activation.
fn acquire_permissions(pm: &mut PermissionManager, plugin_id: &str, manifest: &PluginManifest) -> (r: PluginResult<()>)
    requires
        old(pm).wf(),
    ensures
        final(pm).wf(),
        final(pm).auto_approves() == old(pm).auto_approves(),
        final(pm).grants().len() >= old(pm).grants().len(),
        final(pm).grants().subrange(0, old(pm).grants().len() as int)
            == old(pm).grants(),
        r is Ok ==> forall|i: int|
            0 <= i < manifest.permissions@.len() ==> permission_held(
                *final(pm),
                plugin_id@,
                (#[trigger] manifest.permissions@[i])@,
            ),
        (forall|i: int|
            0 <= i < manifest.permissions@.len() ==> permission_ready(
                *old(pm),
                plugin_id@,
                (#[trigger] manifest.permissions@[i])@,
            ) || permission_requestable(*old(pm), manifest.permissions@[i]@)) ==> r is Ok,
        r matches Err(e) ==> e is ActivationError,
{
    let perms = &manifest.permissions;
    let mut i: usize = 0;
    while i < perms.len()
        invariant
            pm.wf(),
            0 <= i <= perms@.len(),
            perms == &manifest.permissions,
            pm.auto_approves() == old(pm).auto_approves(),
            pm.grants().len() >= old(pm).grants().len(),
            pm.grants().subrange(0, old(pm).grants().len() as int)
                == old(pm).grants(),
            forall|j: int|
                0 <= j < i ==> permission_held(*pm, plugin_id@, (#[trigger] perms@[j])@),
        decreases perms@.len() - i,
    {
        let ghost before = *pm;
        let perm = perms[i].as_str();
        if !pm.has_permission(plugin_id, perm) {
            proof {
                let p = perms@[i as int]@;
                let g0 = old(pm).grants();
                if permission_ready(*old(pm), plugin_id@, p) {
                    lemma_holds_permission_grows(
                        g0,
                        before.grants(),
                        plugin_id@,
                        permission_type_named(before_first(p, ':'))->0,
                        requested_scope(p),
                    );
                }
            }
            match pm.request_permission(plugin_id, perm) {
                Ok(()) => {},
                Err(_) => {
                    return Err(
                        PluginError::ActivationError(
                            joined("Permission request refused: ", perm),
                        ),
                    );
                },
            }
        }
        proof {
            let g_before = before.grants();
            let g_now = pm.grants();
            if g_now != g_before {
                assert(g_now.subrange(0, g_before.len() as int) == g_before);
                assert(g_now.subrange(0, old(pm).grants().len() as int) =~= g_now.subrange(
                    0,
                    g_before.len() as int,
                ).subrange(0, old(pm).grants().len() as int));
                assert forall|j: int| 0 <= j < i implies permission_held(
                    *pm,
                    plugin_id@,
                    (#[trigger] perms@[j])@,
                ) by {
                    let p = perms@[j]@;
                    if permission_ready(before, plugin_id@, p) {
                        lemma_holds_permission_grows(
                            g_before,
                            g_now,
                            plugin_id@,
                            permission_type_named(before_first(p, ':'))->0,
                            requested_scope(p),
                        );
                    } else {
                        let k = choose|k: int|
                            0 <= k < g_before.len() && (#[trigger] g_before[k]).plugin_id@
                                == plugin_id@ && Some(g_before[k].permission_type)
                                == permission_type_named(before_first(p, ':'))
                                && g_before[k].resource_scope@ == requested_scope(p)
                                && g_before[k].granted;
                        assert(g_now[k] == g_now.subrange(0, g_before.len() as int)[k]);
                    }
                }
                let k = g_before.len() as int;
                assert(g_now[k] == g_now.last());
            }
        }
        i = i + 1;
    }
    Ok(())
}

impl PluginManager {
    /// Activates an installed or deactivated plugin: obtains the permissions its manifest
    /// declares, moves it through `Loaded` (from `Installed`) to `Activated`, runs the
    /// activate hook, and leaves it `Running`, last in the activation order.
    pub fn activate_plugin(&mut self, plugin_id: &str) -> (r: PluginResult<()>)
        requires
            old(self).wf(),
        ensures
            final(self).wf(),
            !old(self).reg().contains(plugin_id@) ==> r matches Err(PluginError::NotFound(_)),
            r is Ok ==> old(self).reg().contains(plugin_id@) && (old(self).reg().state_of(plugin_id@)
                == PluginState::Installed || old(self).reg().state_of(plugin_id@)
                == PluginState::Deactivated) && final(self).reg().contains(plugin_id@)
                && final(self).reg().state_of(plugin_id@) == PluginState::Running
                && final(self).reg().order().contains(plugin_id@),
            r is Ok ==> forall|i: int|
                0 <= i < old(self).reg().entry(plugin_id@).manifest.permissions@.len()
                    ==> permission_held(
                    final(self).perms(),
                    plugin_id@,
                    (#[trigger] old(self).reg().entry(plugin_id@).manifest.permissions@[i])@,
                ),
            r is Ok ==> final(self).life().tracker().resources_of(plugin_id@).to_set() == old(
                self,
            ).life().tracker().resources_of(plugin_id@).to_set().union(
                activation_resources(old(self).reg().entry(plugin_id@).manifest),
            ),
            old(self).reg().contains(plugin_id@) && old(self).reg().state_of(plugin_id@)
                != PluginState::Installed && old(self).reg().state_of(plugin_id@)
                != PluginState::Deactivated ==> r is Err && final(self).reg().entries() == old(
                self,
            ).reg().entries(),
            old(self).reg().contains(plugin_id@) && (old(self).reg().state_of(plugin_id@)
                == PluginState::Installed || old(self).reg().state_of(plugin_id@)
                == PluginState::Deactivated) && (forall|i: int|
                0 <= i < old(self).reg().entry(plugin_id@).manifest.permissions@.len() ==> (
                permission_ready(
                    old(self).perms(),
                    plugin_id@,
                    (#[trigger] old(self).reg().entry(plugin_id@).manifest.permissions@[i])@,
                ) || permission_requestable(
                    old(self).perms(),
                    old(self).reg().entry(plugin_id@).manifest.permissions@[i]@,
                ))) ==> r is Ok,
            forall|k: Seq<char>| (#[trigger] final(self).reg().contains(k)) <==> old(self).reg().contains(k),
            final(self).reg().others_unchanged(&old(self).reg(), plugin_id@),
            final(self).perms().auto_approves() == old(self).perms().auto_approves(),
    {
        let manifest = match self.registry.get_manifest(plugin_id) {
            Some(m) => m,
            None => return Err(PluginError::NotFound(owned(plugin_id))),
        };
        acquire_permissions(&mut self.permission_manager, plugin_id, manifest)?;
        let current = match self.registry.get_metadata(plugin_id) {
            Some(m) => m.state,
            None => return Err(PluginError::NotFound(owned(plugin_id))),
        };
        if current != PluginState::Deactivated {
            self.registry.update_state(plugin_id, PluginState::Loaded)?;
        }
        self.registry.update_state(plugin_id, PluginState::Activated)?;
        let install_path = match self.registry.get_metadata(plugin_id) {
            Some(m) => owned(m.install_path.as_str()),
            None => return Err(PluginError::NotFound(owned(plugin_id))),
        };
        match self.registry.get_manifest(plugin_id) {
            Some(m) => self.lifecycle_manager.execute_activate_hook(plugin_id, install_path.as_str(), m)?,
            None => return Err(PluginError::NotFound(owned(plugin_id))),
        }
        self.registry.update_state(plugin_id, PluginState::Running)?;
        let ghost before_add = self.reg();
        self.registry.add_to_activation_order(owned(plugin_id));
        proof {
            assert(self.reg().entries() == before_add.entries());
            assert forall|k: Seq<char>| #[trigger] self.reg().contains(k) == before_add.contains(k) by {
                if self.reg().contains(k) {
                    let j = choose|j: int| 0 <= j < self.reg().entries().len() && self.reg().entries()[j].metadata.id@ == k;
                    assert(before_add.entries()[j].metadata.id@ == k);
                }
                if before_add.contains(k) {
                    let j = choose|j: int| 0 <= j < before_add.entries().len() && before_add.entries()[j].metadata.id@ == k;
                    assert(self.reg().entries()[j].metadata.id@ == k);
                }
            }
            assert forall|k: Seq<char>| #[trigger] self.reg().entry(k) == before_add.entry(k) by {}

            let o = self.reg().order();
            if !o.contains(plugin_id@) {
                assert(o.last() == plugin_id@);
                assert(o[o.len() - 1] == plugin_id@);
            }
        }
        Ok(())
    }
}

impl PluginManager {
    /// Deactivates a running plugin: it becomes `Deactivated` and the deactivate hook
    /// releases every resource it holds.
    pub fn deactivate_plugin(&mut self, plugin_id: &str) -> (r: PluginResult<()>)
        requires
            old(self).wf(),
        ensures
            final(self).wf(),
            r is Ok <==> old(self).reg().contains(plugin_id@) && old(self).reg().state_of(plugin_id@)
                == PluginState::Running,
            !old(self).reg().contains(plugin_id@) ==> r matches Err(PluginError::NotFound(_)),
            old(self).reg().contains(plugin_id@) && old(self).reg().state_of(plugin_id@)
                != PluginState::Running ==> r == Err::<(), PluginError>(
                PluginError::InvalidStateTransition {
                    from: old(self).reg().state_of(plugin_id@),
                    to: PluginState::Deactivated,
                },
            ),
            r is Ok ==> final(self).reg().state_of(plugin_id@) == PluginState::Deactivated
                && final(self).life().tracker().view() == old(self).life().tracker().view().remove(
                plugin_id@,
            ),
            r is Err ==> final(self).reg().entries() == old(self).reg().entries(),
            forall|k: Seq<char>| (#[trigger] final(self).reg().contains(k)) <==> old(self).reg().contains(k),
            final(self).reg().others_unchanged(&old(self).reg(), plugin_id@),
            final(self).reg().contains(plugin_id@) ==> final(self).reg().entry(plugin_id@).manifest
                == old(self).reg().entry(plugin_id@).manifest,
            final(self).perms() == old(self).perms(),
    {
        if self.registry.get_manifest(plugin_id).is_none() {
            return Err(PluginError::NotFound(owned(plugin_id)));
        }
        self.registry.update_state(plugin_id, PluginState::Deactivated)?;
        let install_path = match self.registry.get_metadata(plugin_id) {
            Some(m) => owned(m.install_path.as_str()),
            None => return Err(PluginError::NotFound(owned(plugin_id))),
        };
        match self.registry.get_manifest(plugin_id) {
            Some(m) => self.lifecycle_manager.execute_deactivate_hook(plugin_id, install_path.as_str(), m)?,
            None => return Err(PluginError::NotFound(owned(plugin_id))),
        }
        Ok(())
    }

    /// Activates the plugin; when that fails, deactivates it as far as possible, puts it
    /// back to `Installed` and reports the original error.
    pub fn activate_plugin_with_rollback(&mut self, plugin_id: &str) -> (r: PluginResult<()>)
        requires
            old(self).wf(),
        ensures
            final(self).wf(),
            !old(self).reg().contains(plugin_id@) ==> r matches Err(PluginError::NotFound(_)),
            r is Ok ==> final(self).reg().state_of(plugin_id@) == PluginState::Running,
            r is Err && old(self).reg().contains(plugin_id@) ==> final(self).reg().contains(plugin_id@)
                && final(self).reg().state_of(plugin_id@) == PluginState::Installed,
            old(self).reg().contains(plugin_id@) && (old(self).reg().state_of(plugin_id@)
                == PluginState::Installed || old(self).reg().state_of(plugin_id@)
                == PluginState::Deactivated) && (forall|i: int|
                0 <= i < old(self).reg().entry(plugin_id@).manifest.permissions@.len() ==> (
                permission_ready(
                    old(self).perms(),
                    plugin_id@,
                    (#[trigger] old(self).reg().entry(plugin_id@).manifest.permissions@[i])@,
                ) || permission_requestable(
                    old(self).perms(),
                    old(self).reg().entry(plugin_id@).manifest.permissions@[i]@,
                ))) ==> r is Ok,
            forall|k: Seq<char>| (#[trigger] final(self).reg().contains(k)) <==> old(self).reg().contains(k),
            final(self).reg().others_unchanged(&old(self).reg(), plugin_id@),
    {
        match self.activate_plugin(plugin_id) {
            Ok(()) => Ok(()),
            Err(e) => {
                let _ = self.deactivate_plugin(plugin_id);
                self.registry.force_state(plugin_id, PluginState::Installed);
                Err(e)
            },
        }
    }

    /// Uninstalls the plugin: a running plugin is deactivated first; then it leaves the
    /// registry and every permission record of it is revoked. The host removes its
    /// install directory.
    pub fn uninstall_plugin(&mut self, plugin_id: &str) -> (r: PluginResult<()>)
        requires
            old(self).wf(),
        ensures
            final(self).wf(),
            r is Ok <==> old(self).reg().contains(plugin_id@),
            r matches Err(e) ==> e is NotFound,
            !final(self).reg().contains(plugin_id@),
            final(self).reg().others_unchanged(&old(self).reg(), plugin_id@),
            r is Ok ==> forall|i: int|
                0 <= i < final(self).perms().grants().len() ==> (
                #[trigger] final(self).perms().grants()[i]).plugin_id@ != plugin_id@,
            r is Ok ==> final(self).perms().limiter_for(plugin_id@) is None,
    {
        let state = match self.registry.get_metadata(plugin_id) {
            Some(m) => m.state,
            None => return Err(PluginError::NotFound(owned(plugin_id))),
        };
        if state == PluginState::Running {
            self.deactivate_plugin(plugin_id)?;
        }
        let _removed = self.registry.remove(plugin_id)?;
        self.permission_manager.revoke_all_permissions(plugin_id)?;
        Ok(())
    }
}

/// The dependencies the manifest of `id` names, in declaration order; none for an id
/// that is not installed.
pub open spec fn deps_of(reg: PluginRegistry, id: Seq<char>) -> Seq<Seq<char>> {
    if reg.contains(id) {
        reg.entry(id).manifest.dependencies@.map_values(|d: (String, String)| d.0@)
    } else {
        Seq::empty()
    }
}

/// A walk along dependency edges.
pub open spec fn is_walk(reg: PluginRegistry, w: Seq<Seq<char>>) -> bool {
    w.len() >= 1 && forall|k: int| 0 <= k < w.len() - 1 ==> #[trigger] deps_of(reg, w[k]).contains(w[k + 1])
}

/// `x` is reachable from one of `roots` along dependency edges.
pub open spec fn reachable(reg: PluginRegistry, roots: Seq<Seq<char>>, x: Seq<char>) -> bool {
    exists|w: Seq<Seq<char>>| #[trigger] is_walk(reg, w) && roots.contains(w[0]) && w.last() == x
}

/// Some walk from one of `roots` returns to a plugin it has passed: the reachable
/// dependency graph has a cycle.
pub open spec fn reachable_cycle(reg: PluginRegistry, roots: Seq<Seq<char>>) -> bool {
    exists|w: Seq<Seq<char>>, k: int|
        #![trigger is_walk(reg, w), w[k]]
        is_walk(reg, w) && roots.contains(w[0]) && 0 <= k < w.len() - 1 && w[k] == w.last()
}

/// Every plugin in `order` comes after all of its dependencies.
pub open spec fn deps_first(reg: PluginRegistry, order: Seq<Seq<char>>) -> bool {
    forall|i: int, d: Seq<char>|
        0 <= i < order.len() && #[trigger] deps_of(reg, order[i]).contains(d) ==> exists|j: int|
            0 <= j < i && order[j] == d
}

/// `order` is a dependency order of exactly the plugins reachable from `roots`.
pub open spec fn resolution_of(reg: PluginRegistry, roots: Seq<Seq<char>>, order: Seq<Seq<char>>) -> bool {
    &&& order.no_duplicates()
    &&& deps_first(reg, order)
    &&& forall|x: Seq<char>| order.contains(x) <==> reachable(reg, roots, x)
}

/// The views of a list of ids.
pub open spec fn id_views(v: Seq<String>) -> Seq<Seq<char>> {
    v.map_values(|s: String| s@)
}

/// The state of a depth-first visit: `order` holds finished plugins after their
/// dependencies, `path` the chain of plugins being visited.
pub open spec fn dfs_state(
    reg: PluginRegistry,
    roots: Seq<Seq<char>>,
    path: Seq<Seq<char>>,
    order: Seq<Seq<char>>,
) -> bool {
    &&& order.no_duplicates()
    &&& deps_first(reg, order)
    &&& forall|x: Seq<char>| #[trigger] order.contains(x) ==> reachable(reg, roots, x)
    &&& path.no_duplicates()
    &&& forall|i: int| 0 <= i < path.len() ==> !order.contains(#[trigger] path[i])
    &&& forall|i: int| 0 <= i < path.len() ==> reg.contains(#[trigger] path[i])
    &&& path.len() > 0 ==> is_walk(reg, path) && roots.contains(path[0])
}

proof fn lemma_registered_path_len(reg: PluginRegistry, path: Seq<Seq<char>>)
    requires
        reg.wf(),
        path.no_duplicates(),
        forall|i: int| 0 <= i < path.len() ==> reg.contains(#[trigger] path[i]),
    ensures
        path.len() <= reg.entries().len(),
{
    let ids = reg.entries().map_values(|e: RegisteredPlugin| e.metadata.id@);
    path.unique_seq_to_set();
    ids.lemma_cardinality_of_set();
    assert forall|x: Seq<char>| path.to_set().contains(x) implies ids.to_set().contains(x) by {
        let i = choose|i: int| 0 <= i < path.len() && path[i] == x;
        assert(reg.contains(path[i]));
        let j = choose|j: int| 0 <= j < reg.entries().len() && reg.entries()[j].metadata.id@ == x;
        assert(ids[j] == x);
    }
    vstd::set_lib::lemma_len_subset(path.to_set(), ids.to_set());
}

/// Walks along a dependency order stay inside it, each step to an earlier place.
proof fn lemma_walk_in_order(reg: PluginRegistry, order: Seq<Seq<char>>, w: Seq<Seq<char>>, n: int)
    requires
        deps_first(reg, order),
        is_walk(reg, w),
        order.contains(w[0]),
        0 <= n < w.len(),
    ensures
        order.contains(w[n]),
    decreases n,
{
    if n > 0 {
        lemma_walk_in_order(reg, order, w, n - 1);
        let i = choose|i: int| 0 <= i < order.len() && order[i] == w[n - 1];
        let k = n - 1;
        assert(deps_of(reg, w[k]).contains(w[k + 1]));
        assert(k + 1 == n);
        assert(deps_of(reg, order[i]).contains(w[n]));
        let j = choose|j: int| 0 <= j < i && order[j] == w[n];
    }
}

/// A dependency order of every plugin reachable from `roots` leaves no cycle reachable.
pub proof fn lemma_resolution_acyclic(reg: PluginRegistry, roots: Seq<Seq<char>>, order: Seq<Seq<char>>)
    requires
        resolution_of(reg, roots, order),
    ensures
        !reachable_cycle(reg, roots),
{
    if reachable_cycle(reg, roots) {
        let (w, k) = choose|w: Seq<Seq<char>>, k: int|
            #![trigger is_walk(reg, w), w[k]]
            is_walk(reg, w) && roots.contains(w[0]) && 0 <= k < w.len() - 1 && w[k] == w.last();
        assert(reachable(reg, roots, w[0])) by {
            let w0 = seq![w[0]];
            assert(is_walk(reg, w0));
        }
        // positions strictly decrease along the walk
        let pos = |x: Seq<char>| choose|i: int| 0 <= i < order.len() && order[i] == x;
        assert forall|m: int| 0 <= m < w.len() implies order.contains(#[trigger] w[m]) by {
            lemma_walk_in_order(reg, order, w, m);
        }
        assert forall|m: int| k <= m < w.len() - 1 implies pos(w[m + 1]) < #[trigger] pos(w[m]) by {
            assert(order.contains(w[m]));
            assert(order.contains(w[m + 1]));
            let i = pos(w[m]);
            assert(deps_of(reg, order[i]).contains(w[m + 1]));
            let j = choose|j: int| 0 <= j < i && order[j] == w[m + 1];
            assert(pos(w[m + 1]) == j) by {
                let jj = pos(w[m + 1]);
                if jj != j {
                    assert(order[jj] == order[j]);
                }
            }
        }
        lemma_strictly_decreasing(w, pos, k, w.len() - 1);
    }
}

proof fn lemma_strictly_decreasing(w: Seq<Seq<char>>, pos: spec_fn(Seq<char>) -> int, a: int, b: int)
    requires
        0 <= a < b < w.len(),
        forall|m: int| a <= m < b ==> pos(w[m + 1]) < #[trigger] pos(w[m]),
    ensures
        pos(w[b]) < pos(w[a]),
    decreases b - a,
{
    if b - a > 1 {
        lemma_strictly_decreasing(w, pos, a, b - 1);
        assert(pos(w[b]) < pos(w[b - 1]));
    }
}

proof fn lemma_extend_walk(reg: PluginRegistry, roots: Seq<Seq<char>>, path: Seq<Seq<char>>, x: Seq<char>)
    requires
        path.len() > 0 ==> is_walk(reg, path) && roots.contains(path[0]) && deps_of(reg, path.last()).contains(x),
        path.len() == 0 ==> roots.contains(x),
    ensures
        is_walk(reg, path.push(x)),
        roots.contains(path.push(x)[0]),
        reachable(reg, roots, x),
{
    let w = path.push(x);
    assert forall|k: int| 0 <= k < w.len() - 1 implies #[trigger] deps_of(reg, w[k]).contains(w[k + 1]) by {
        if k < path.len() - 1 {
            assert(w[k] == path[k]);
            assert(w[k + 1] == path[k + 1]);
        } else {
            assert(w[k] == path.last());
        }
    }
    assert(w.last() == x);
    assert(is_walk(reg, w) && roots.contains(w[0]) && w.last() == x);
}

/// Whether `id` is among `v`.
fn contains_id(v: &Vec<String>, id: &str) -> (r: bool)
    ensures
        r == id_views(v@).contains(id@),
{
    let mut i: usize = 0;
    while i < v.len()
        invariant
            0 <= i <= v@.len(),
            forall|j: int| 0 <= j < i ==> v@[j]@ != id@,
        decreases v@.len() - i,
    {
        if str_eq(v[i].as_str(), id) {
            assert(id_views(v@)[i as int] == id@);
            return true;
        }
        i = i + 1;
    }
    proof {
        if id_views(v@).contains(id@) {
            let j = choose|j: int| 0 <= j < id_views(v@).len() && id_views(v@)[j] == id@;
            assert(v@[j]@ == id@);
        }
    }
    false
}

/// How the message of a dependency cycle begins.
pub const CYCLE_MESSAGE: &'static str = "Circular dependency detected involving plugin: ";

/// Visits `plugin_id` depth first: its dependencies are finished before it is appended
/// to `order`; meeting a plugin of `path` again is a cycle. With `strict`, a plugin that
/// is not installed is an error, otherwise it has no dependencies.
fn visit_dependency(
    reg: &PluginRegistry,
    plugin_id: &str,
    strict: bool,
    roots: Ghost<Seq<Seq<char>>>,
    path: &mut Vec<String>,
    order: &mut Vec<String>,
) -> (r: PluginResult<()>)
    requires
        reg.wf(),
        dfs_state(*reg, roots@, id_views(old(path)@), id_views(old(order)@)),
        old(path)@.len() > 0 ==> deps_of(*reg, id_views(old(path)@).last()).contains(plugin_id@),
        old(path)@.len() == 0 ==> roots@.contains(plugin_id@),
    ensures
        r is Ok ==> dfs_state(*reg, roots@, id_views(final(path)@), id_views(final(order)@))
            && id_views(final(path)@) == id_views(old(path)@) && id_views(final(order)@).contains(
            plugin_id@,
        ) && final(order)@.len() >= old(order)@.len() && id_views(final(order)@).subrange(
            0,
            old(order)@.len() as int,
        ) == id_views(old(order)@),
        r matches Err(PluginError::NotFound(_)) ==> strict && exists|x: Seq<char>|
            reachable(*reg, roots@, x) && !reg.contains(x),
        r matches Err(PluginError::DependencyError(_)) ==> strict && reachable_cycle(*reg, roots@),
        r matches Err(PluginError::DependencyResolution(_)) ==> !strict && reachable_cycle(
            *reg,
            roots@,
        ),
        r matches Err(PluginError::DependencyError(m)) ==> has_prefix(m@, CYCLE_MESSAGE@),
        r matches Err(PluginError::DependencyResolution(m)) ==> has_prefix(m@, CYCLE_MESSAGE@),
        r matches Err(e) ==> e is NotFound || e is DependencyError || e is DependencyResolution,
        r is Ok && !id_views(old(order)@).contains(plugin_id@) ==> id_views(final(order)@).last()
            == plugin_id@,
    decreases reg.entries().len() - path@.len(),
{
    let ghost path_before = id_views(path@);
    let ghost o0 = id_views(order@);
    if contains_id(order, plugin_id) {
        assert(id_views(order@).subrange(0, order@.len() as int) =~= id_views(order@));
        return Ok(());
    }
    if contains_id(path, plugin_id) {
        proof {
            let k = choose|k: int| 0 <= k < path_before.len() && path_before[k] == plugin_id@;
            lemma_extend_walk(*reg, roots@, path_before, plugin_id@);
            let w = path_before.push(plugin_id@);
            assert(w[k] == w.last());
            assert(is_walk(*reg, w) && roots@.contains(w[0]) && 0 <= k < w.len() - 1 && w[k] == w.last());
        }
        let msg = joined(CYCLE_MESSAGE, plugin_id);
        assert(msg@.subrange(0, CYCLE_MESSAGE@.len() as int) =~= CYCLE_MESSAGE@);
        if strict {
            return Err(PluginError::DependencyError(msg));
        } else {
            return Err(PluginError::DependencyResolution(msg));
        }
    }
    proof {
        lemma_extend_walk(*reg, roots@, path_before, plugin_id@);
    }
    match reg.get_manifest(plugin_id) {
        None => {
            if strict {
                return Err(PluginError::NotFound(owned(plugin_id)));
            }
            order.push(owned(plugin_id));
            proof {
                let o1 = id_views(order@);
                assert(o1 =~= o0.push(plugin_id@));
                assert(deps_of(*reg, plugin_id@) =~= Seq::<Seq<char>>::empty());
                assert forall|i: int, d: Seq<char>|
                    0 <= i < o1.len() && #[trigger] deps_of(*reg, o1[i]).contains(d) implies exists|j: int|
                        0 <= j < i && o1[j] == d by {
                    if i < o0.len() {
                        assert(o1[i] == o0[i]);
                        let j = choose|j: int| 0 <= j < i && o0[j] == d;
                        assert(o1[j] == d);
                    }
                }
                assert forall|x: Seq<char>| #[trigger] o1.contains(x) implies reachable(*reg, roots@, x) by {
                    if x != plugin_id@ {
                        let j = choose|j: int| 0 <= j < o1.len() && o1[j] == x;
                        assert(o0[j] == x);
                        assert(o0.contains(x));
                    }
                }
                assert forall|i: int| 0 <= i < path_before.len() implies !o1.contains(#[trigger] path_before[i]) by {
                    if o1.contains(path_before[i]) {
                        let j = choose|j: int| 0 <= j < o1.len() && o1[j] == path_before[i];
                        if j < o0.len() {
                            assert(o0[j] == path_before[i]);
                        }
                    }
                }
                assert(o1.subrange(0, o0.len() as int) =~= o0);
                assert(o1.no_duplicates());
                assert(dfs_state(*reg, roots@, path_before, o1));
                assert(o1[o0.len() as int] == plugin_id@);
                assert(o1.contains(plugin_id@));
            }
            Ok(())
        },
        Some(manifest) => {
            path.push(owned(plugin_id));
            proof {
                let path_after = id_views(path@);
                assert(path_after =~= path_before.push(plugin_id@));
                lemma_registered_path_len(*reg, path_after);
            }
            let deps = &manifest.dependencies;
            let mut j: usize = 0;
            while j < deps.len()
                invariant
                    reg.wf(),
                    *manifest == reg.entry(plugin_id@).manifest,
                    reg.contains(plugin_id@),
                    deps == &manifest.dependencies,
                    0 <= j <= deps@.len(),
                    id_views(path@) == path_before.push(plugin_id@),
                    path_before.len() < reg.entries().len() + 1,
                    dfs_state(*reg, roots@, id_views(path@), id_views(order@)),
                    order@.len() >= o0.len(),
                    id_views(order@).subrange(0, o0.len() as int) == o0,
                    o0 == id_views(old(order)@),
                    path_before == id_views(old(path)@),
                    forall|m: int| 0 <= m < j ==> id_views(order@).contains(#[trigger] deps@[m].0@),
                    reachable(*reg, roots@, plugin_id@),
                    !path_before.contains(plugin_id@),
                    path@.len() == path_before.len() + 1,
                    path@.len() <= reg.entries().len(),
                decreases deps@.len() - j,
            {
                let ghost ob = id_views(order@);
                proof {
                    let dv = deps_of(*reg, plugin_id@);
                    assert(dv[j as int] == deps@[j as int].0@);
                    assert(id_views(path@).last() == plugin_id@);
                }
                visit_dependency(reg, deps[j].0.as_str(), strict, roots, path, order)?;
                proof {
                    let oa = id_views(order@);
                    assert(oa.subrange(0, o0.len() as int) =~= oa.subrange(0, ob.len() as int).subrange(0, o0.len() as int));
                    assert forall|m: int| 0 <= m < j + 1 implies oa.contains(#[trigger] deps@[m].0@) by {
                        if m < j {
                            let q = choose|q: int| 0 <= q < ob.len() && ob[q] == deps@[m].0@;
                            assert(oa[q] == oa.subrange(0, ob.len() as int)[q]);
                        }
                    }
                }
                j = j + 1;
            }
            let ghost pb = path@;
            let _ = path.pop();
            proof {
                assert(path@ =~= pb.drop_last());
                assert(id_views(pb) == path_before.push(plugin_id@));
                assert forall|i: int| 0 <= i < path_before.len() implies #[trigger] id_views(path@)[i] == path_before[i] by {
                    assert(path@[i] == pb[i]);
                    assert(id_views(pb)[i] == path_before.push(plugin_id@)[i]);
                }
            }
            let ghost ob = id_views(order@);
            order.push(owned(plugin_id));
            proof {
                let path_after = id_views(path@);
                assert(path_after =~= path_before);
                let o1 = id_views(order@);
                assert(o1 =~= ob.push(plugin_id@));
                let pf = path_before.push(plugin_id@);
                assert(!ob.contains(plugin_id@)) by {
                    assert(pf[path_before.len() as int] == plugin_id@);
                }
                assert forall|i: int, d: Seq<char>|
                    0 <= i < o1.len() && #[trigger] deps_of(*reg, o1[i]).contains(d) implies exists|q: int|
                        0 <= q < i && o1[q] == d by {
                    if i < ob.len() {
                        assert(o1[i] == ob[i]);
                        let q = choose|q: int| 0 <= q < i && ob[q] == d;
                        assert(o1[q] == d);
                    } else {
                        let dv = deps_of(*reg, plugin_id@);
                        let m = choose|m: int| 0 <= m < dv.len() && dv[m] == d;
                        assert(dv[m] == deps@[m].0@);
                        assert(ob.contains(deps@[m].0@));
                        let q = choose|q: int| 0 <= q < ob.len() && ob[q] == d;
                        assert(o1[q] == d);
                    }
                }
                assert forall|x: Seq<char>| #[trigger] o1.contains(x) implies reachable(*reg, roots@, x) by {
                    if x != plugin_id@ {
                        let q = choose|q: int| 0 <= q < o1.len() && o1[q] == x;
                        assert(ob[q] == x);
                        assert(ob.contains(x));
                    }
                }
                assert forall|i: int| 0 <= i < path_before.len() implies !o1.contains(#[trigger] path_before[i]) by {
                    assert(pf[i] == path_before[i]);
                    assert(!ob.contains(pf[i]));
                }
                assert(o1.subrange(0, o0.len() as int) =~= ob.subrange(0, o0.len() as int));
                assert forall|a: int, b: int| 0 <= a < o1.len() && 0 <= b < o1.len() && a != b implies o1[a] != o1[b] by {
                    if a < ob.len() && b < ob.len() {
                    } else if a < ob.len() {
                        assert(ob.contains(o1[a]));
                    } else {
                        assert(ob.contains(o1[b]));
                    }
                }
                assert(o1[ob.len() as int] == plugin_id@);
                assert(dfs_state(*reg, roots@, path_before, o1));
            }
            Ok(())
        },
    }
}

/// When `order` holds the roots and every dependency of its members before them, it
/// holds every reachable plugin.
proof fn lemma_closed_order_complete(reg: PluginRegistry, roots: Seq<Seq<char>>, order: Seq<Seq<char>>)
    requires
        deps_first(reg, order),
        forall|i: int| 0 <= i < roots.len() ==> order.contains(#[trigger] roots[i]),
    ensures
        forall|x: Seq<char>| reachable(reg, roots, x) ==> #[trigger] order.contains(x),
{
    assert forall|x: Seq<char>| reachable(reg, roots, x) implies #[trigger] order.contains(x) by {
        let w = choose|w: Seq<Seq<char>>| #[trigger] is_walk(reg, w) && roots.contains(w[0]) && w.last() == x;
        let i = choose|i: int| 0 <= i < roots.len() && roots[i] == w[0];
        assert(order.contains(roots[i]));
        lemma_walk_in_order(reg, order, w, w.len() - 1);
    }
}

impl PluginManager {
    /// The plugins `plugin_id` depends on, directly or not, and itself, each once and
    /// after its dependencies. A dependency that is not installed is an error, and so
    /// is a cycle.
    pub fn resolve_dependencies(&self, plugin_id: &str) -> (r: PluginResult<Vec<PluginId>>)
        requires
            self.wf(),
        ensures
            !self.reg().contains(plugin_id@) ==> r matches Err(PluginError::NotFound(_)),
            r matches Ok(order) ==> resolution_of(self.reg(), seq![plugin_id@], id_views(order@)),
            r is Ok ==> !reachable_cycle(self.reg(), seq![plugin_id@]),
            reachable_cycle(self.reg(), seq![plugin_id@]) ==> r is Err,
            r matches Err(PluginError::DependencyError(_)) ==> reachable_cycle(
                self.reg(),
                seq![plugin_id@],
            ),
            r matches Err(PluginError::DependencyError(m)) ==> has_prefix(m@, CYCLE_MESSAGE@),
            r matches Ok(order) ==> id_views(order@).last() == plugin_id@,
            r matches Err(PluginError::NotFound(_)) ==> exists|x: Seq<char>|
                reachable(self.reg(), seq![plugin_id@], x) && !self.reg().contains(x),
            r matches Err(e) ==> e is NotFound || e is DependencyError,
    {
        let ghost roots = seq![plugin_id@];
        if self.registry.get_manifest(plugin_id).is_none() {
            proof {
                assert(roots[0] == plugin_id@);
                lemma_extend_walk(self.reg(), roots, Seq::empty(), plugin_id@);
            }
            return Err(PluginError::NotFound(owned(plugin_id)));
        }
        let mut order: Vec<PluginId> = Vec::new();
        let mut path: Vec<PluginId> = Vec::new();
        proof {
            assert(id_views(order@) =~= Seq::<Seq<char>>::empty());
            assert(id_views(path@) =~= Seq::<Seq<char>>::empty());
            assert(roots[0] == plugin_id@);
        }
        let r = visit_dependency(&self.registry, plugin_id, true, Ghost(roots), &mut path, &mut order);
        match r {
            Ok(()) => {
                proof {
                    let o = id_views(order@);
                    lemma_closed_order_complete(self.reg(), roots, o);
                    lemma_resolution_acyclic(self.reg(), roots, o);
                }
                Ok(order)
            },
            Err(e) => Err(e),
        }
    }

    /// The given plugins and everything they depend on, each once and after its
    /// dependencies; a plugin that is not installed has no dependencies. A cycle is an
    /// error.
    pub fn resolve_plugin_dependencies(&self, plugin_ids: &[String]) -> (r: PluginResult<Vec<PluginId>>)
        requires
            self.wf(),
        ensures
            r matches Ok(order) ==> resolution_of(self.reg(), id_views(plugin_ids@), id_views(order@)),
            r is Ok <==> !reachable_cycle(self.reg(), id_views(plugin_ids@)),
            r matches Err(e) ==> e is DependencyResolution,
            r matches Err(PluginError::DependencyResolution(m)) ==> has_prefix(m@, CYCLE_MESSAGE@),
    {
        let ghost roots = id_views(plugin_ids@);
        let mut order: Vec<PluginId> = Vec::new();
        let mut path: Vec<PluginId> = Vec::new();
        proof {
            assert(id_views(order@) =~= Seq::<Seq<char>>::empty());
            assert(id_views(path@) =~= Seq::<Seq<char>>::empty());
        }
        let mut i: usize = 0;
        while i < plugin_ids.len()
            invariant
                self.wf(),
                roots == id_views(plugin_ids@),
                0 <= i <= plugin_ids@.len(),
                id_views(path@) == Seq::<Seq<char>>::empty(),
                dfs_state(self.reg(), roots, id_views(path@), id_views(order@)),
                forall|m: int| 0 <= m < i ==> id_views(order@).contains(#[trigger] roots[m]),
            decreases plugin_ids@.len() - i,
        {
            let ghost ob = id_views(order@);
            proof {
                assert(roots[i as int] == plugin_ids@[i as int]@);
            }
            match visit_dependency(&self.registry, plugin_ids[i].as_str(), false, Ghost(roots), &mut path, &mut order) {
                Ok(()) => {},
                Err(e) => {
                    return Err(e);
                },
            }
            proof {
                let oa = id_views(order@);
                assert forall|m: int| 0 <= m < i + 1 implies oa.contains(#[trigger] roots[m]) by {
                    if m < i {
                        let q = choose|q: int| 0 <= q < ob.len() && ob[q] == roots[m];
                        assert(oa[q] == oa.subrange(0, ob.len() as int)[q]);
                    }
                }
            }
            i = i + 1;
        }
        proof {
            let o = id_views(order@);
            lemma_closed_order_complete(self.reg(), roots, o);
            lemma_resolution_acyclic(self.reg(), roots, o);
        }
        Ok(order)
    }
}

/// Once a plugin is uninstalled, no listed plugin has its id: the list of plugins is the
/// registry's entries, and none of them is under an id the registry does not contain.
pub proof fn lemma_uninstalled_not_listed(m: PluginManager, id: Seq<char>)
    requires
        !m.reg().contains(id),
    ensures
        forall|i: int| 0 <= i < m.reg().entries().len() ==> (#[trigger] m.reg().entries()[i]).metadata.id@ != id,
{
}

} // verus!
