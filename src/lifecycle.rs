//! Activation and deactivation hooks, and the per-plugin set of resources that
//! deactivation must tear down.
use vstd::prelude::*;
use crate::manifest::PluginManifest;
use crate::state::{PluginId, PluginResult};
use crate::text::{owned, str_eq};

verus! {

/// The hooks a plugin implements.
pub trait PluginLifecycle {
    /// Called on activation: the plugin registers its commands, views and other
    /// contributions.
    fn activate(&mut self, context: &PluginContext) -> PluginResult<()>;

    /// Called on deactivation: the plugin releases what it registered.
    fn deactivate(&mut self) -> PluginResult<()>;
}

/// What a plugin is handed when it is activated.
pub struct PluginContext {
    pub plugin_id: PluginId,
    pub install_path: String,
    pub manifest: PluginManifest,
}

impl PluginContext {
    pub fn new(plugin_id: PluginId, install_path: String, manifest: PluginManifest) -> (r: Self)
        ensures
            r.plugin_id == plugin_id,
            r.install_path == install_path,
            r.manifest == manifest,
    {
        PluginContext { plugin_id, install_path, manifest }
    }
}

/// A resource that must be released when its plugin is deactivated.
#[derive(Debug)]
pub enum ResourceType {
    FileHandle(String),
    EventListener { event_name: String, listener_id: String },
    Timer(u64),
    HttpRequest(String),
    Command(String),
    View(String),
}

/// The mathematical value of a [`ResourceType`].
pub ghost enum ResourceView {
    FileHandle(Seq<char>),
    EventListener { event_name: Seq<char>, listener_id: Seq<char> },
    Timer(u64),
    HttpRequest(Seq<char>),
    Command(Seq<char>),
    View(Seq<char>),
}

impl vstd::view::View for ResourceType {
    type V = ResourceView;

    open spec fn view(&self) -> ResourceView {
        match self {
            ResourceType::FileHandle(p) => ResourceView::FileHandle(p@),
            ResourceType::EventListener { event_name, listener_id } => ResourceView::EventListener {
                event_name: event_name@,
                listener_id: listener_id@,
            },
            ResourceType::Timer(t) => ResourceView::Timer(*t),
            ResourceType::HttpRequest(r) => ResourceView::HttpRequest(r@),
            ResourceType::Command(c) => ResourceView::Command(c@),
            ResourceType::View(v) => ResourceView::View(v@),
        }
    }
}

impl PartialEq for ResourceType {
    fn eq(&self, other: &ResourceType) -> (r: bool)
        ensures
            r == (self@ == other@),
    {
        match (self, other) {
            (ResourceType::FileHandle(a), ResourceType::FileHandle(b)) => str_eq(a, b),
            (
                ResourceType::EventListener { event_name: a, listener_id: b },
                ResourceType::EventListener { event_name: c, listener_id: d },
            ) => str_eq(a, c) && str_eq(b, d),
            (ResourceType::Timer(a), ResourceType::Timer(b)) => *a == *b,
            (ResourceType::HttpRequest(a), ResourceType::HttpRequest(b)) => str_eq(a, b),
            (ResourceType::Command(a), ResourceType::Command(b)) => str_eq(a, b),
            (ResourceType::View(a), ResourceType::View(b)) => str_eq(a, b),
            _ => false,
        }
    }
}

impl vstd::std_specs::cmp::PartialEqSpecImpl for ResourceType {
    open spec fn obeys_eq_spec() -> bool {
        true
    }

    open spec fn eq_spec(&self, other: &ResourceType) -> bool {
        self@ == other@
    }
}

impl ResourceType {
    /// A copy with the same value.
    pub fn duplicate(&self) -> (r: ResourceType)
        ensures
            r@ == self@,
    {
        match self {
            ResourceType::FileHandle(p) => ResourceType::FileHandle(owned(p)),
            ResourceType::EventListener { event_name, listener_id } => ResourceType::EventListener {
                event_name: owned(event_name),
                listener_id: owned(listener_id),
            },
            ResourceType::Timer(t) => ResourceType::Timer(*t),
            ResourceType::HttpRequest(r) => ResourceType::HttpRequest(owned(r)),
            ResourceType::Command(c) => ResourceType::Command(owned(c)),
            ResourceType::View(v) => ResourceType::View(owned(v)),
        }
    }
}

/// The values of a sequence of resources.
pub open spec fn resource_views(s: Seq<ResourceType>) -> Seq<ResourceView> {
    s.map_values(|r: ResourceType| r@)
}

/// The resources tracked for one plugin.
pub struct PluginResources {
    pub plugin_id: PluginId,
    pub items: Vec<ResourceType>,
}

/// Resources grouped by plugin, each plugin's without repeats.
pub struct ResourceTracker {
    entries: Vec<PluginResources>,
}

impl ResourceTracker {
    /// Plugin ids are unique and no plugin holds a resource twice.
    pub closed spec fn wf(&self) -> bool {
        &&& forall|i: int, j: int|
            0 <= i < self.entries@.len() && 0 <= j < self.entries@.len() && i != j
                ==> self.entries@[i].plugin_id@ != self.entries@[j].plugin_id@
        &&& forall|i: int|
            0 <= i < self.entries@.len() ==> resource_views(
                (#[trigger] self.entries@[i]).items@,
            ).no_duplicates()
    }

    /// Each plugin that has an entry, with its resources in tracking order.
    pub closed spec fn view(&self) -> Map<Seq<char>, Seq<ResourceView>> {
        Map::new(
            |k: Seq<char>|
                exists|i: int| 0 <= i < self.entries@.len() && self.entries@[i].plugin_id@ == k,
            |k: Seq<char>|
                resource_views(
                    self.entries@[choose|i: int|
                        0 <= i < self.entries@.len() && self.entries@[i].plugin_id@ == k].items@,
                ),
        )
    }

    /// The resources of `id`: none where it has no entry.
    pub open spec fn resources_of(&self, id: Seq<char>) -> Seq<ResourceView> {
        if self.view().contains_key(id) {
            self.view()[id]
        } else {
            Seq::empty()
        }
    }

    proof fn lemma_entry(&self, i: int)
        requires
            self.wf(),
            0 <= i < self.entries@.len(),
        ensures
            self.view().contains_key(self.entries@[i].plugin_id@),
            self.view()[self.entries@[i].plugin_id@] == resource_views(self.entries@[i].items@),
    {
        let k = self.entries@[i].plugin_id@;
        assert(self.view().contains_key(k));
        let j = choose|j: int| 0 <= j < self.entries@.len() && self.entries@[j].plugin_id@ == k;
        assert(j == i);
    }

    pub fn new() -> (r: Self)
        ensures
            r.wf(),
            r.view() == Map::<Seq<char>, Seq<ResourceView>>::empty(),
    {
        let r = ResourceTracker { entries: Vec::new() };
        assert(r.view() =~= Map::<Seq<char>, Seq<ResourceView>>::empty());
        r
    }

    fn find(&self, plugin_id: &str) -> (r: Option<usize>)
        requires
            self.wf(),
        ensures
            r is None <==> !self.view().contains_key(plugin_id@),
            r matches Some(i) ==> i < self.entries@.len() && self.entries@[i as int].plugin_id@
                == plugin_id@,
    {
        let mut i: usize = 0;
        while i < self.entries.len()
            invariant
                0 <= i <= self.entries@.len(),
                forall|j: int| 0 <= j < i ==> self.entries@[j].plugin_id@ != plugin_id@,
            decreases self.entries@.len() - i,
        {
            if str_eq(self.entries[i].plugin_id.as_str(), plugin_id) {
                return Some(i);
            }
            i = i + 1;
        }
        None
    }

    /// Adds `resource` to the plugin's set; a resource already there is kept once.
    pub fn track(&mut self, plugin_id: &str, resource: ResourceType)
        requires
            old(self).wf(),
        ensures
            final(self).wf(),
            final(self).view() == old(self).view().insert(
                plugin_id@,
                if old(self).resources_of(plugin_id@).contains(resource@) {
                    old(self).resources_of(plugin_id@)
                } else {
                    old(self).resources_of(plugin_id@).push(resource@)
                },
            ),
    {
        let ghost old_self = *self;
        match self.find(plugin_id) {
            None => {
                let mut items: Vec<ResourceType> = Vec::new();
                items.push(resource);
                self.entries.push(PluginResources { plugin_id: owned(plugin_id), items });
                proof {
                    assert(resource_views(self.entries@.last().items@) =~= seq![resource@]);
                    assert(old_self.resources_of(plugin_id@) =~= Seq::<ResourceView>::empty());
                    self.lemma_entry(self.entries@.len() - 1);
                    assert forall|k: Seq<char>| #[trigger]
                        self.view().contains_key(k) <==> old_self.view().insert(
                            plugin_id@,
                            seq![resource@],
                        ).contains_key(k) by {
                        if self.view().contains_key(k) && k != plugin_id@ {
                            let j = choose|j: int|
                                0 <= j < self.entries@.len() && self.entries@[j].plugin_id@ == k;
                            assert(old_self.entries@[j].plugin_id@ == k);
                        }
                        if old_self.view().contains_key(k) {
                            let j = choose|j: int|
                                0 <= j < old_self.entries@.len() && old_self.entries@[j].plugin_id@
                                    == k;
                            assert(self.entries@[j].plugin_id@ == k);
                        }
                    }
                    assert forall|k: Seq<char>| #[trigger]
                        self.view().contains_key(k) && k != plugin_id@ implies self.view()[k]
                        == old_self.view()[k] by {
                        let j = choose|j: int|
                            0 <= j < self.entries@.len() && self.entries@[j].plugin_id@ == k;
                        self.lemma_entry(j);
                        old_self.lemma_entry(j);
                    }
                    assert(self.view() =~= old_self.view().insert(plugin_id@, seq![resource@]));
                }
            },
            Some(i) => {
                let mut present = false;
                let mut j: usize = 0;
                let n = self.entries[i].items.len();
                while j < n
                    invariant
                        i < self.entries@.len(),
                        n == self.entries@[i as int].items@.len(),
                        0 <= j <= n,
                        present == exists|m: int|
                            0 <= m < j && self.entries@[i as int].items@[m]@ == resource@,
                    decreases n - j,
                {
                    if self.entries[i].items[j] == resource {
                        present = true;
                    }
                    j = j + 1;
                }
                proof {
                    old_self.lemma_entry(i as int);
                    let rv = resource_views(old_self.entries@[i as int].items@);
                    if present {
                        let m = choose|m: int|
                            0 <= m < n && old_self.entries@[i as int].items@[m]@ == resource@;
                        assert(rv[m] == resource@);
                    }
                    if rv.contains(resource@) {
                        let m = choose|m: int| 0 <= m < rv.len() && rv[m] == resource@;
                        assert(old_self.entries@[i as int].items@[m]@ == resource@);
                    }
                }
                if !present {
                    let mut entry = self.entries.remove(i);
                    entry.items.push(resource);
                    self.entries.insert(i, entry);
                    proof {
                        let rv = resource_views(old_self.entries@[i as int].items@);
                        assert(resource_views(self.entries@[i as int].items@) =~= rv.push(
                            resource@,
                        ));
                        assert forall|a: int, b: int|
                            0 <= a < self.entries@.len() && 0 <= b < self.entries@.len() && a
                                != b implies self.entries@[a].plugin_id@
                            != self.entries@[b].plugin_id@ by {
                            assert(self.entries@[a].plugin_id@ == old_self.entries@[a].plugin_id@);
                            assert(self.entries@[b].plugin_id@ == old_self.entries@[b].plugin_id@);
                        }
                        assert forall|a: int| 0 <= a < self.entries@.len() implies resource_views(
                            (#[trigger] self.entries@[a]).items@,
                        ).no_duplicates() by {
                            if a != i {
                                assert(self.entries@[a] == old_self.entries@[a]);
                            }
                        }
                    }
                }
                proof {
                    self.lemma_entry(i as int);
                    assert forall|k: Seq<char>| #[trigger]
                        self.view().contains_key(k) <==> old_self.view().contains_key(k) by {
                        if self.view().contains_key(k) {
                            let j = choose|j: int|
                                0 <= j < self.entries@.len() && self.entries@[j].plugin_id@ == k;
                            assert(old_self.entries@[j].plugin_id@ == k);
                        }
                        if old_self.view().contains_key(k) {
                            let j = choose|j: int|
                                0 <= j < old_self.entries@.len() && old_self.entries@[j].plugin_id@
                                    == k;
                            assert(self.entries@[j].plugin_id@ == k);
                        }
                    }
                    assert forall|k: Seq<char>| #[trigger]
                        self.view().contains_key(k) && k != plugin_id@ implies self.view()[k]
                        == old_self.view()[k] by {
                        let j = choose|j: int|
                            0 <= j < self.entries@.len() && self.entries@[j].plugin_id@ == k;
                        self.lemma_entry(j);
                        old_self.lemma_entry(j);
                        assert(self.entries@[j] == old_self.entries@[j]);
                    }
                    assert(self.view() =~= old_self.view().insert(
                        plugin_id@,
                        if old_self.resources_of(plugin_id@).contains(resource@) {
                            old_self.resources_of(plugin_id@)
                        } else {
                            old_self.resources_of(plugin_id@).push(resource@)
                        },
                    ));
                }
            },
        }
    }

    proof fn lemma_replace(old_t: &Self, new_t: &Self, i: int)
        requires
            old_t.wf(),
            new_t.wf(),
            0 <= i < old_t.entries@.len(),
            new_t.entries@.len() == old_t.entries@.len(),
            forall|a: int| 0 <= a < old_t.entries@.len() && a != i ==> new_t.entries@[a] == old_t.entries@[a],
            new_t.entries@[i].plugin_id@ == old_t.entries@[i].plugin_id@,
        ensures
            new_t.view() == old_t.view().insert(
                old_t.entries@[i].plugin_id@,
                resource_views(new_t.entries@[i].items@),
            ),
    {
        let id = old_t.entries@[i].plugin_id@;
        new_t.lemma_entry(i);
        assert forall|k: Seq<char>| #[trigger]
            new_t.view().contains_key(k) <==> old_t.view().contains_key(k) by {
            if new_t.view().contains_key(k) {
                let j = choose|j: int| 0 <= j < new_t.entries@.len() && new_t.entries@[j].plugin_id@ == k;
                assert(old_t.entries@[j].plugin_id@ == k);
            }
            if old_t.view().contains_key(k) {
                let j = choose|j: int| 0 <= j < old_t.entries@.len() && old_t.entries@[j].plugin_id@ == k;
                assert(new_t.entries@[j].plugin_id@ == k);
            }
        }
        assert forall|k: Seq<char>| #[trigger]
            new_t.view().contains_key(k) && k != id implies new_t.view()[k] == old_t.view()[k] by {
            let j = choose|j: int| 0 <= j < new_t.entries@.len() && new_t.entries@[j].plugin_id@ == k;
            new_t.lemma_entry(j);
            old_t.lemma_entry(j);
        }
        old_t.lemma_entry(i);
        assert(new_t.view() =~= old_t.view().insert(id, resource_views(new_t.entries@[i].items@)));
    }

    /// Removes `resource` from the plugin's set; tells whether it was there.
    pub fn untrack(&mut self, plugin_id: &str, resource: &ResourceType) -> (r: bool)
        requires
            old(self).wf(),
        ensures
            final(self).wf(),
            r == old(self).resources_of(plugin_id@).contains(resource@),
            r ==> exists|j: int|
                0 <= j < old(self).resources_of(plugin_id@).len()
                    && old(self).resources_of(plugin_id@)[j] == resource@
                    && final(self).view() == old(self).view().insert(
                    plugin_id@,
                    old(self).resources_of(plugin_id@).remove(j),
                ),
            !r ==> final(self).view() == old(self).view(),
    {
        let ghost old_self = *self;
        match self.find(plugin_id) {
            None => false,
            Some(i) => {
                proof {
                    old_self.lemma_entry(i as int);
                }
                let n = self.entries[i].items.len();
                let mut j: usize = 0;
                while j < n
                    invariant
                        *self == old_self,
                        old_self == *old(self),
                        old_self.wf(),
                        self.entries@[i as int].plugin_id@ == plugin_id@,
                        i < self.entries@.len(),
                        n == self.entries@[i as int].items@.len(),
                        0 <= j <= n,
                        forall|m: int| 0 <= m < j ==> self.entries@[i as int].items@[m]@ != resource@,
                    decreases n - j,
                {
                    if self.entries[i].items[j] == *resource {
                        let mut entry = self.entries.remove(i);
                        proof {
                            old_self.entries@.remove_ensures(i as int);
                        }
                        let ghost removed = self.entries@;
                        assert(entry == old_self.entries@[i as int]);
                        let _ = entry.items.remove(j);
                        let ghost id_kept = entry.plugin_id;
                        assert(id_kept == old_self.entries@[i as int].plugin_id);
                        self.entries.insert(i, entry);
                        assert(self.entries@ == removed.insert(i as int, entry));
                        proof {
                            let rv = resource_views(old_self.entries@[i as int].items@);
                            let oi = old_self.entries@[i as int].items@;
                            let ni = self.entries@[i as int].items@;
                            oi.remove_ensures(j as int);
                            rv.remove_ensures(j as int);
                            old_self.entries@.remove_ensures(i as int);
                            assert(ni == oi.remove(j as int));
                            assert(resource_views(ni) =~= rv.remove(j as int));
                            assert forall|a: int| 0 <= a < self.entries@.len() && a != i implies
                                #[trigger] self.entries@[a] == old_self.entries@[a] by {
                            }
                            assert(self.entries@[i as int].plugin_id == old_self.entries@[i as int].plugin_id);
                            assert forall|a: int, b: int|
                                0 <= a < self.entries@.len() && 0 <= b < self.entries@.len() && a != b
                                implies self.entries@[a].plugin_id@ != self.entries@[b].plugin_id@ by {
                                assert(self.entries@[a].plugin_id@ == old_self.entries@[a].plugin_id@);
                                assert(self.entries@[b].plugin_id@ == old_self.entries@[b].plugin_id@);
                            }
                            assert forall|a: int| 0 <= a < self.entries@.len() implies resource_views(
                                (#[trigger] self.entries@[a]).items@,
                            ).no_duplicates() by {
                                if a != i {
                                    assert(self.entries@[a] == old_self.entries@[a]);
                                } else {
                                    let nv = rv.remove(j as int);
                                    assert(nv.len() == ni.len());
                                    assert forall|x: int, y: int| 0 <= x < nv.len() && 0 <= y < nv.len() && x != y
                                        implies nv[x] != nv[y] by {
                                        let xx = if x < j { x } else { x + 1 };
                                        let yy = if y < j { y } else { y + 1 };
                                        assert(nv[x] == rv[xx]);
                                        assert(nv[y] == rv[yy]);
                                        assert(xx != yy);
                                    }
                                }
                            }
                            Self::lemma_replace(&old_self, self, i as int);
                            old_self.lemma_entry(i as int);
                            assert(old_self.resources_of(plugin_id@) == rv);
                            assert(rv[j as int] == resource@);
                            assert(rv.contains(resource@));
                        }
                        return true;
                    }
                    j = j + 1;
                }
                proof {
                    let rv = resource_views(old_self.entries@[i as int].items@);
                    old_self.lemma_entry(i as int);
                    if rv.contains(resource@) {
                        let m = choose|m: int| 0 <= m < rv.len() && rv[m] == resource@;
                        assert(old_self.entries@[i as int].items@[m]@ == resource@);
                    }
                }
                false
            },
        }
    }

    /// Copies of the plugin's resources, in tracking order.
    pub fn get_resources(&self, plugin_id: &str) -> (r: Vec<ResourceType>)
        requires
            self.wf(),
        ensures
            resource_views(r@) == self.resources_of(plugin_id@),
    {
        match self.find(plugin_id) {
            None => {
                let r: Vec<ResourceType> = Vec::new();
                assert(resource_views(r@) =~= Seq::<ResourceView>::empty());
                r
            },
            Some(i) => {
                proof {
                    self.lemma_entry(i as int);
                }
                let items = &self.entries[i].items;
                let mut r: Vec<ResourceType> = Vec::new();
                let mut j: usize = 0;
                while j < items.len()
                    invariant
                        0 <= j <= items@.len(),
                        resource_views(r@) =~= resource_views(items@).subrange(0, j as int),
                    decreases items@.len() - j,
                {
                    let d = items[j].duplicate();
                    let ghost before = r@;
                    r.push(d);
                    proof {
                        assert(r@ == before.push(d));
                        assert(resource_views(r@) =~= resource_views(before).push(d@));
                        assert(resource_views(items@).subrange(0, j + 1) =~= resource_views(items@).subrange(0, j as int).push(items@[j as int]@));
                    }
                    j = j + 1;
                }
                assert(resource_views(items@).subrange(0, items@.len() as int) =~= resource_views(items@));
                r
            },
        }
    }

    /// Drops the plugin's entry and hands back what it held.
    pub fn clear_plugin_resources(&mut self, plugin_id: &str) -> (r: Vec<ResourceType>)
        requires
            old(self).wf(),
        ensures
            final(self).wf(),
            resource_views(r@) == old(self).resources_of(plugin_id@),
            final(self).view() == old(self).view().remove(plugin_id@),
    {
        let ghost old_self = *self;
        match self.find(plugin_id) {
            None => {
                let r: Vec<ResourceType> = Vec::new();
                assert(resource_views(r@) =~= Seq::<ResourceView>::empty());
                assert(self.view() =~= old_self.view().remove(plugin_id@));
                r
            },
            Some(i) => {
                proof {
                    old_self.lemma_entry(i as int);
                }
                let entry = self.entries.remove(i);
                proof {
                    assert forall|a: int, b: int|
                        0 <= a < self.entries@.len() && 0 <= b < self.entries@.len() && a != b
                        implies self.entries@[a].plugin_id@ != self.entries@[b].plugin_id@ by {
                        let aa = if a < i { a } else { a + 1 };
                        let bb = if b < i { b } else { b + 1 };
                        assert(self.entries@[a] == old_self.entries@[aa]);
                        assert(self.entries@[b] == old_self.entries@[bb]);
                    }
                    assert forall|a: int| 0 <= a < self.entries@.len() implies resource_views(
                        (#[trigger] self.entries@[a]).items@,
                    ).no_duplicates() by {
                        let aa = if a < i { a } else { a + 1 };
                        assert(self.entries@[a] == old_self.entries@[aa]);
                    }
                    assert forall|k: Seq<char>| #[trigger]
                        self.view().contains_key(k) <==> old_self.view().remove(plugin_id@).contains_key(k) by {
                        if self.view().contains_key(k) {
                            let j = choose|j: int| 0 <= j < self.entries@.len() && self.entries@[j].plugin_id@ == k;
                            let jj = if j < i { j } else { j + 1 };
                            assert(self.entries@[j] == old_self.entries@[jj]);
                            assert(jj != i);
                        }
                        if old_self.view().contains_key(k) && k != plugin_id@ {
                            let j = choose|j: int| 0 <= j < old_self.entries@.len() && old_self.entries@[j].plugin_id@ == k;
                            assert(j != i);
                            let jj = if j < i { j } else { j - 1 };
                            assert(self.entries@[jj] == old_self.entries@[j]);
                        }
                    }
                    assert forall|k: Seq<char>| #[trigger]
                        self.view().contains_key(k) implies self.view()[k] == old_self.view()[k] by {
                        let j = choose|j: int| 0 <= j < self.entries@.len() && self.entries@[j].plugin_id@ == k;
                        let jj = if j < i { j } else { j + 1 };
                        assert(self.entries@[j] == old_self.entries@[jj]);
                        self.lemma_entry(j);
                        old_self.lemma_entry(jj);
                    }
                    assert(self.view() =~= old_self.view().remove(plugin_id@));
                }
                entry.items
            },
        }
    }

    /// How many resources the plugin holds.
    pub fn resource_count(&self, plugin_id: &str) -> (r: usize)
        requires
            self.wf(),
        ensures
            r == self.resources_of(plugin_id@).len(),
    {
        match self.find(plugin_id) {
            None => 0,
            Some(i) => {
                proof {
                    self.lemma_entry(i as int);
                }
                self.entries[i].items.len()
            },
        }
    }
}

impl Default for ResourceTracker {
    /// An empty tracker.
    fn default() -> (r: Self)
        ensures
            r.wf(),
            r.view() == Map::<Seq<char>, Seq<ResourceView>>::empty(),
    {
        ResourceTracker::new()
    }
}

/// The resources that activating a plugin with manifest `m` registers: one per
/// contributed command and one per contributed view.
pub open spec fn activation_resources(m: PluginManifest) -> Set<ResourceView> {
    Set::new(
        |r: ResourceView|
            (exists|i: int|
                0 <= i < m.contributes.commands@.len() && r == ResourceView::Command(
                    m.contributes.commands@[i].identifier@,
                )) || (exists|i: int|
                0 <= i < m.contributes.views@.len() && r == ResourceView::View(
                    m.contributes.views@[i].identifier@,
                )),
    )
}

/// Runs activation and deactivation hooks and keeps the resources they register.
pub struct LifecycleManager {
    resource_tracker: ResourceTracker,
}

impl LifecycleManager {
    pub open spec fn wf(&self) -> bool {
        self.tracker().wf()
    }

    pub closed spec fn tracker(&self) -> ResourceTracker {
        self.resource_tracker
    }

    pub fn new() -> (r: Self)
        ensures
            r.wf(),
            r.tracker().view() == Map::<Seq<char>, Seq<ResourceView>>::empty(),
    {
        LifecycleManager { resource_tracker: ResourceTracker::new() }
    }

    /// Registers a resource for each contributed command and view of the manifest.
    pub fn execute_activate_hook(
        &mut self,
        plugin_id: &str,
        install_path: &str,
        manifest: &PluginManifest,
    ) -> (r: PluginResult<()>)
        requires
            old(self).wf(),
        ensures
            final(self).wf(),
            r is Ok,
            final(self).tracker().view().dom() == old(self).tracker().view().dom().union(
                if activation_resources(*manifest).is_empty() {
                    Set::<Seq<char>>::empty()
                } else {
                    set![plugin_id@]
                },
            ),
            final(self).tracker().resources_of(plugin_id@).to_set() == old(self).tracker().resources_of(
                plugin_id@,
            ).to_set().union(activation_resources(*manifest)),
            forall|k: Seq<char>|
                k != plugin_id@ ==> #[trigger] final(self).tracker().view().contains_key(k)
                    == old(self).tracker().view().contains_key(k)
                    && final(self).tracker().resources_of(k) == old(self).tracker().resources_of(k),
    {
        let ghost old_self = *self;
        let ghost id = plugin_id@;
        let commands = &manifest.contributes.commands;
        let views = &manifest.contributes.views;
        let ghost cmd_set = Set::new(
            |r: ResourceView|
                exists|i: int|
                    0 <= i < commands@.len() && r == ResourceView::Command(
                        commands@[i].identifier@,
                    ),
        );
        let mut i: usize = 0;
        while i < commands.len()
            invariant
                self.wf(),
                id == plugin_id@,
                0 <= i <= commands@.len(),
                self.tracker().resources_of(id).to_set() == old_self.tracker().resources_of(
                    id,
                ).to_set().union(
                    Set::new(
                        |r: ResourceView|
                            exists|m: int|
                                0 <= m < i && r == ResourceView::Command(
                                    commands@[m].identifier@,
                                ),
                    ),
                ),
                self.tracker().view().dom() == old_self.tracker().view().dom().union(
                    if i == 0 { Set::<Seq<char>>::empty() } else { set![id] },
                ),
                forall|k: Seq<char>|
                    k != id ==> #[trigger] self.tracker().view().contains_key(k)
                        == old_self.tracker().view().contains_key(k)
                        && self.tracker().resources_of(k) == old_self.tracker().resources_of(k),
            decreases commands@.len() - i,
        {
            let ghost before = *self;
            let res = ResourceType::Command(owned(commands[i].identifier.as_str()));
            self.resource_tracker.track(plugin_id, res);
            proof {
                let prev = before.tracker().resources_of(id);
                let rv = ResourceView::Command(commands@[i as int].identifier@);
                assert(self.tracker().resources_of(id) == if prev.contains(rv) { prev } else { prev.push(rv) });
                if !prev.contains(rv) {
                    prev.lemma_push_to_set_commute(rv);
                }
                assert(self.tracker().resources_of(id).to_set() == prev.to_set().insert(rv));
                assert(self.tracker().resources_of(id).to_set() =~= old_self.tracker().resources_of(
                    id,
                ).to_set().union(
                    Set::new(
                        |r: ResourceView|
                            exists|m: int|
                                0 <= m < i + 1 && r == ResourceView::Command(
                                    commands@[m].identifier@,
                                ),
                    ),
                ));
                assert(self.tracker().view().dom() =~= old_self.tracker().view().dom().union(set![id]));
            }
            i = i + 1;
        }
        let mut i: usize = 0;
        while i < views.len()
            invariant
                self.wf(),
                id == plugin_id@,
                0 <= i <= views@.len(),
                commands == &manifest.contributes.commands,
                cmd_set == Set::new(
                    |r: ResourceView|
                        exists|i: int|
                            0 <= i < commands@.len() && r == ResourceView::Command(
                                commands@[i].identifier@,
                            ),
                ),
                self.tracker().resources_of(id).to_set() == old_self.tracker().resources_of(
                    id,
                ).to_set().union(cmd_set).union(
                    Set::new(
                        |r: ResourceView|
                            exists|m: int|
                                0 <= m < i && r == ResourceView::View(views@[m].identifier@),
                    ),
                ),
                self.tracker().view().dom() == old_self.tracker().view().dom().union(
                    if commands@.len() == 0 && i == 0 { Set::<Seq<char>>::empty() } else { set![id] },
                ),
                forall|k: Seq<char>|
                    k != id ==> #[trigger] self.tracker().view().contains_key(k)
                        == old_self.tracker().view().contains_key(k)
                        && self.tracker().resources_of(k) == old_self.tracker().resources_of(k),
            decreases views@.len() - i,
        {
            let ghost before = *self;
            let res = ResourceType::View(owned(views[i].identifier.as_str()));
            self.resource_tracker.track(plugin_id, res);
            proof {
                let prev = before.tracker().resources_of(id);
                let rv = ResourceView::View(views@[i as int].identifier@);
                if !prev.contains(rv) {
                    prev.lemma_push_to_set_commute(rv);
                }
                assert(self.tracker().resources_of(id).to_set() == prev.to_set().insert(rv));
                assert(self.tracker().resources_of(id).to_set() =~= old_self.tracker().resources_of(
                    id,
                ).to_set().union(cmd_set).union(
                    Set::new(
                        |r: ResourceView|
                            exists|m: int|
                                0 <= m < i + 1 && r == ResourceView::View(views@[m].identifier@),
                    ),
                ));
                assert(self.tracker().view().dom() =~= old_self.tracker().view().dom().union(set![id]));
            }
            i = i + 1;
        }
        proof {
            let acts = activation_resources(*manifest);
            let vset = Set::new(
                |r: ResourceView|
                    exists|m: int|
                        0 <= m < views@.len() && r == ResourceView::View(views@[m].identifier@),
            );
            assert(acts =~= cmd_set.union(vset));
            assert(self.tracker().resources_of(id).to_set() =~= old_self.tracker().resources_of(
                id,
            ).to_set().union(acts));
            if commands@.len() > 0 {
                assert(acts.contains(ResourceView::Command(commands@[0].identifier@)));
            }
            if views@.len() > 0 {
                assert(acts.contains(ResourceView::View(views@[0].identifier@)));
            }
            if acts.is_empty() {
                if commands@.len() > 0 {
                    assert(cmd_set.contains(ResourceView::Command(commands@[0].identifier@)));
                }
                if views@.len() > 0 {
                    assert(vset.contains(ResourceView::View(views@[0].identifier@)));
                }
            } else {
                let w = acts.choose();
                assert(acts.contains(w));
            }
            assert(self.tracker().view().dom() =~= old_self.tracker().view().dom().union(
                if acts.is_empty() { Set::<Seq<char>>::empty() } else { set![id] },
            ));
        }
        Ok(())
    }

    /// Tears down every resource the plugin holds and forgets them.
    pub fn execute_deactivate_hook(
        &mut self,
        plugin_id: &str,
        install_path: &str,
        manifest: &PluginManifest,
    ) -> (r: PluginResult<()>)
        requires
            old(self).wf(),
        ensures
            final(self).wf(),
            r is Ok,
            final(self).tracker().view() == old(self).tracker().view().remove(plugin_id@),
    {
        let _released = self.resource_tracker.clear_plugin_resources(plugin_id);
        Ok(())
    }

    /// The tracker of resources per plugin.
    pub fn resource_tracker(&self) -> (r: &ResourceTracker)
        ensures
            *r == self.tracker(),
    {
        &self.resource_tracker
    }

    /// Tracks a resource on behalf of a plugin API.
    pub fn track_resource(&mut self, plugin_id: &str, resource: ResourceType)
        requires
            old(self).wf(),
        ensures
            final(self).wf(),
            final(self).tracker().view() == old(self).tracker().view().insert(
                plugin_id@,
                if old(self).tracker().resources_of(plugin_id@).contains(resource@) {
                    old(self).tracker().resources_of(plugin_id@)
                } else {
                    old(self).tracker().resources_of(plugin_id@).push(resource@)
                },
            ),
    {
        self.resource_tracker.track(plugin_id, resource)
    }

    /// Stops tracking a resource; tells whether it was tracked.
    pub fn untrack_resource(&mut self, plugin_id: &str, resource: &ResourceType) -> (r: bool)
        requires
            old(self).wf(),
        ensures
            final(self).wf(),
            r == old(self).tracker().resources_of(plugin_id@).contains(resource@),
            r ==> exists|j: int|
                0 <= j < old(self).tracker().resources_of(plugin_id@).len()
                    && old(self).tracker().resources_of(plugin_id@)[j] == resource@
                    && final(self).tracker().view() == old(self).tracker().view().insert(
                    plugin_id@,
                    old(self).tracker().resources_of(plugin_id@).remove(j),
                ),
            !r ==> final(self).tracker().view() == old(self).tracker().view(),
    {
        self.resource_tracker.untrack(plugin_id, resource)
    }

    /// How many resources the plugin holds.
    pub fn get_resource_count(&self, plugin_id: &str) -> (r: usize)
        requires
            self.wf(),
        ensures
            r == self.tracker().resources_of(plugin_id@).len(),
    {
        self.resource_tracker.resource_count(plugin_id)
    }
}

impl Default for LifecycleManager {
    /// A manager tracking nothing.
    fn default() -> (r: Self)
        ensures
            r.wf(),
            r.tracker().view() == Map::<Seq<char>, Seq<ResourceView>>::empty(),
    {
        LifecycleManager::new()
    }
}

} // verus!
