//! Per-plugin key/value storage: each plugin has a namespace of its own, keys are
//! non-empty, and values are kept in their encoded (JSON) form. Loading and writing the
//! per-plugin file is the host's part.
use vstd::prelude::*;
use crate::state::{PluginError, PluginResult};
use crate::text::{owned, str_eq};

verus! {

/// The views of a list of keys.
pub open spec fn key_views(v: Seq<String>) -> Seq<Seq<char>> {
    v.map_values(|k: String| k@)
}

/// One stored value.
pub struct StorageRecord {
    pub plugin_id: String,
    pub key: String,
    /// The value in its encoded form.
    pub value: String,
}

/// Values by plugin and key.
pub struct PluginStorage {
    records: Vec<StorageRecord>,
}

impl PluginStorage {
    /// Each plugin and key is held once.
    pub closed spec fn wf(&self) -> bool {
        forall|i: int, j: int|
            0 <= i < self.records@.len() && 0 <= j < self.records@.len() && i != j ==> (
            self.records@[i].plugin_id@, self.records@[i].key@) != (self.records@[j].plugin_id@,
            self.records@[j].key@)
    }

    /// The stored value of each plugin and key.
    pub closed spec fn view(&self) -> Map<(Seq<char>, Seq<char>), Seq<char>> {
        Map::new(
            |pk: (Seq<char>, Seq<char>)|
                exists|i: int|
                    0 <= i < self.records@.len() && (self.records@[i].plugin_id@, self.records@[i].key@)
                        == pk,
            |pk: (Seq<char>, Seq<char>)|
                self.records@[choose|i: int|
                    0 <= i < self.records@.len() && (self.records@[i].plugin_id@,
                    self.records@[i].key@) == pk].value@,
        )
    }

    /// The value stored under `key` for plugin `id`.
    pub open spec fn lookup(&self, id: Seq<char>, key: Seq<char>) -> Option<Seq<char>> {
        if self.view().contains_key((id, key)) {
            Some(self.view()[(id, key)])
        } else {
            None
        }
    }

    /// The keys plugin `id` holds.
    pub open spec fn keys_of(&self, id: Seq<char>) -> Set<Seq<char>> {
        Set::new(|k: Seq<char>| self.view().contains_key((id, k)))
    }

    proof fn lemma_at(&self, i: int)
        requires
            self.wf(),
            0 <= i < self.records@.len(),
        ensures
            self.view().contains_key((self.records@[i].plugin_id@, self.records@[i].key@)),
            self.view()[(self.records@[i].plugin_id@, self.records@[i].key@)] == self.records@[i].value@,
    {
        let pk = (self.records@[i].plugin_id@, self.records@[i].key@);
        assert(self.view().contains_key(pk));
        let j = choose|j: int|
            0 <= j < self.records@.len() && (self.records@[j].plugin_id@, self.records@[j].key@) == pk;
        assert(j == i);
    }

    pub fn new() -> (r: Self)
        ensures
            r.wf(),
            r.view() == Map::<(Seq<char>, Seq<char>), Seq<char>>::empty(),
    {
        let r = PluginStorage { records: Vec::new() };
        assert(r.view() =~= Map::<(Seq<char>, Seq<char>), Seq<char>>::empty());
        r
    }

    fn find(&self, plugin_id: &str, key: &str) -> (r: Option<usize>)
        requires
            self.wf(),
        ensures
            r is None <==> !self.view().contains_key((plugin_id@, key@)),
            r matches Some(i) ==> i < self.records@.len() && self.records@[i as int].plugin_id@
                == plugin_id@ && self.records@[i as int].key@ == key@,
    {
        let mut i: usize = 0;
        while i < self.records.len()
            invariant
                0 <= i <= self.records@.len(),
                forall|j: int|
                    0 <= j < i ==> (self.records@[j].plugin_id@, self.records@[j].key@) != (plugin_id@,
                    key@),
            decreases self.records@.len() - i,
        {
            if str_eq(self.records[i].plugin_id.as_str(), plugin_id) && str_eq(
                self.records[i].key.as_str(),
                key,
            ) {
                return Some(i);
            }
            i = i + 1;
        }
        None
    }

    /// Stores the encoded `value` under `key` for the plugin; an empty key is refused.
    pub fn set(&mut self, plugin_id: &str, key: &str, value: String) -> (r: PluginResult<()>)
        requires
            old(self).wf(),
        ensures
            final(self).wf(),
            r is Ok <==> key@.len() > 0,
            r matches Err(e) ==> e is PermissionDenied,
            r matches Err(PluginError::PermissionDenied(m)) ==> m@ == "Storage key cannot be empty"@,
            r is Ok ==> final(self).view() == old(self).view().insert((plugin_id@, key@), value@),
            r is Err ==> final(self).view() == old(self).view(),
    {
        if key.unicode_len() == 0 {
            return Err(PluginError::PermissionDenied(owned("Storage key cannot be empty")));
        }
        let ghost old_self = *self;
        let ghost pk = (plugin_id@, key@);
        let record = StorageRecord { plugin_id: owned(plugin_id), key: owned(key), value };
        match self.find(plugin_id, key) {
            Some(i) => {
                let _ = self.records.remove(i);
                self.records.insert(i, record);
                proof {
                    let ol = old_self.records@;
                    ol.remove_ensures(i as int);
                    assert forall|a: int| 0 <= a < ol.len() && a != i implies #[trigger] self.records@[a] == ol[a] by {
                        if a < i {
                            assert(self.records@[a] == ol.remove(i as int)[a]);
                        } else {
                            assert(self.records@[a] == ol.remove(i as int)[a - 1]);
                        }
                    }
                    assert forall|a: int, b: int|
                        0 <= a < self.records@.len() && 0 <= b < self.records@.len() && a != b
                        implies (self.records@[a].plugin_id@, self.records@[a].key@) != (self.records@[b].plugin_id@, self.records@[b].key@) by {
                        if a != i { assert(self.records@[a] == ol[a]); }
                        if b != i { assert(self.records@[b] == ol[b]); }
                    }
                    self.lemma_at(i as int);
                    assert forall|q: (Seq<char>, Seq<char>)| #[trigger] self.view().contains_key(q) <==> old_self.view().insert(pk, value@).contains_key(q) by {
                        if self.view().contains_key(q) && q != pk {
                            let j = choose|j: int| 0 <= j < self.records@.len() && (self.records@[j].plugin_id@, self.records@[j].key@) == q;
                            assert(j != i);
                            assert(ol[j] == self.records@[j]);
                        }
                        if old_self.view().contains_key(q) && q != pk {
                            let j = choose|j: int| 0 <= j < ol.len() && (ol[j].plugin_id@, ol[j].key@) == q;
                            assert(j != i);
                            assert(ol[j] == self.records@[j]);
                        }
                    }
                    assert forall|q: (Seq<char>, Seq<char>)| self.view().contains_key(q) && q != pk implies #[trigger] self.view()[q] == old_self.view()[q] by {
                        let j = choose|j: int| 0 <= j < self.records@.len() && (self.records@[j].plugin_id@, self.records@[j].key@) == q;
                        assert(j != i);
                        assert(ol[j] == self.records@[j]);
                        self.lemma_at(j);
                        old_self.lemma_at(j);
                    }
                    assert(self.view() =~= old_self.view().insert(pk, value@));
                }
            },
            None => {
                self.records.push(record);
                proof {
                    let ol = old_self.records@;
                    let n = ol.len();
                    assert forall|a: int| 0 <= a < n implies #[trigger] self.records@[a] == ol[a] by {}
                    assert forall|a: int, b: int|
                        0 <= a < self.records@.len() && 0 <= b < self.records@.len() && a != b
                        implies (self.records@[a].plugin_id@, self.records@[a].key@) != (self.records@[b].plugin_id@, self.records@[b].key@) by {
                        if a < n && b == n {
                            if (ol[a].plugin_id@, ol[a].key@) == pk {
                                old_self.lemma_at(a);
                            }
                        }
                        if b < n && a == n {
                            if (ol[b].plugin_id@, ol[b].key@) == pk {
                                old_self.lemma_at(b);
                            }
                        }
                    }
                    self.lemma_at(n as int);
                    assert forall|q: (Seq<char>, Seq<char>)| #[trigger] self.view().contains_key(q) <==> old_self.view().insert(pk, value@).contains_key(q) by {
                        if self.view().contains_key(q) && q != pk {
                            let j = choose|j: int| 0 <= j < self.records@.len() && (self.records@[j].plugin_id@, self.records@[j].key@) == q;
                            assert(j < n);
                        }
                        if old_self.view().contains_key(q) {
                            let j = choose|j: int| 0 <= j < ol.len() && (ol[j].plugin_id@, ol[j].key@) == q;
                            assert(self.records@[j] == ol[j]);
                        }
                    }
                    assert forall|q: (Seq<char>, Seq<char>)| self.view().contains_key(q) && q != pk implies #[trigger] self.view()[q] == old_self.view()[q] by {
                        let j = choose|j: int| 0 <= j < self.records@.len() && (self.records@[j].plugin_id@, self.records@[j].key@) == q;
                        assert(j < n);
                        self.lemma_at(j);
                        old_self.lemma_at(j);
                    }
                    assert(self.view() =~= old_self.view().insert(pk, value@));
                }
            },
        }
        Ok(())
    }

    /// The encoded value stored under `key` for the plugin.
    pub fn get(&self, plugin_id: &str, key: &str) -> (r: Option<String>)
        requires
            self.wf(),
        ensures
            r is Some <==> self.lookup(plugin_id@, key@) is Some,
            r matches Some(v) ==> self.lookup(plugin_id@, key@) == Some(v@),
    {
        match self.find(plugin_id, key) {
            Some(i) => {
                proof {
                    self.lemma_at(i as int);
                }
                Some(owned(self.records[i].value.as_str()))
            },
            None => None,
        }
    }

    /// Whether the plugin holds `key`.
    pub fn has(&self, plugin_id: &str, key: &str) -> (r: bool)
        requires
            self.wf(),
        ensures
            r == self.view().contains_key((plugin_id@, key@)),
    {
        self.find(plugin_id, key).is_some()
    }

    proof fn lemma_removed(&self, old: &Self, i: int)
        requires
            old.wf(),
            0 <= i < old.records@.len(),
            self.records@ == old.records@.remove(i),
        ensures
            self.wf(),
            self.view() == old.view().remove((old.records@[i].plugin_id@, old.records@[i].key@)),
    {
        let ol = old.records@;
        ol.remove_ensures(i);
        let pk = (ol[i].plugin_id@, ol[i].key@);
        assert forall|a: int, b: int|
            0 <= a < self.records@.len() && 0 <= b < self.records@.len() && a != b
            implies (self.records@[a].plugin_id@, self.records@[a].key@) != (self.records@[b].plugin_id@, self.records@[b].key@) by {
            let aa = if a < i { a } else { a + 1 };
            let bb = if b < i { b } else { b + 1 };
            assert(self.records@[a] == ol[aa]);
            assert(self.records@[b] == ol[bb]);
        }
        assert forall|q: (Seq<char>, Seq<char>)| #[trigger] self.view().contains_key(q) <==> old.view().remove(pk).contains_key(q) by {
            if self.view().contains_key(q) {
                let j = choose|j: int| 0 <= j < self.records@.len() && (self.records@[j].plugin_id@, self.records@[j].key@) == q;
                let jj = if j < i { j } else { j + 1 };
                assert(self.records@[j] == ol[jj]);
                assert(jj != i);
            }
            if old.view().contains_key(q) && q != pk {
                let j = choose|j: int| 0 <= j < ol.len() && (ol[j].plugin_id@, ol[j].key@) == q;
                assert(j != i);
                let jj = if j < i { j } else { j - 1 };
                assert(self.records@[jj] == ol[j]);
            }
        }
        assert forall|q: (Seq<char>, Seq<char>)| #[trigger] self.view().contains_key(q) implies self.view()[q] == old.view()[q] by {
            let j = choose|j: int| 0 <= j < self.records@.len() && (self.records@[j].plugin_id@, self.records@[j].key@) == q;
            let jj = if j < i { j } else { j + 1 };
            assert(self.records@[j] == ol[jj]);
            self.lemma_at(j);
            old.lemma_at(jj);
        }
        assert(self.view() =~= old.view().remove(pk));
    }

    /// Deletes `key` from the plugin's storage; tells whether it was there.
    pub fn delete(&mut self, plugin_id: &str, key: &str) -> (r: bool)
        requires
            old(self).wf(),
        ensures
            final(self).wf(),
            r == old(self).view().contains_key((plugin_id@, key@)),
            final(self).view() == old(self).view().remove((plugin_id@, key@)),
    {
        let ghost old_self = *self;
        match self.find(plugin_id, key) {
            Some(i) => {
                let _ = self.records.remove(i);
                proof {
                    self.lemma_removed(&old_self, i as int);
                }
                true
            },
            None => {
                assert(self.view() =~= old_self.view().remove((plugin_id@, key@)));
                false
            },
        }
    }

    fn find_plugin_record(&self, plugin_id: &str) -> (r: Option<usize>)
        ensures
            r is None ==> forall|j: int| 0 <= j < self.records@.len() ==> self.records@[j].plugin_id@ != plugin_id@,
            r matches Some(i) ==> i < self.records@.len() && self.records@[i as int].plugin_id@ == plugin_id@,
    {
        let mut i: usize = 0;
        while i < self.records.len()
            invariant
                0 <= i <= self.records@.len(),
                forall|j: int| 0 <= j < i ==> self.records@[j].plugin_id@ != plugin_id@,
            decreases self.records@.len() - i,
        {
            if str_eq(self.records[i].plugin_id.as_str(), plugin_id) {
                return Some(i);
            }
            i = i + 1;
        }
        None
    }

    /// Removes every value of the plugin.
    pub fn clear(&mut self, plugin_id: &str)
        requires
            old(self).wf(),
        ensures
            final(self).wf(),
            forall|q: (Seq<char>, Seq<char>)|
                #[trigger] final(self).view().contains_key(q) <==> old(self).view().contains_key(q) && q.0 != plugin_id@,
            forall|q: (Seq<char>, Seq<char>)|
                #[trigger] final(self).view().contains_key(q) ==> final(self).view()[q] == old(self).view()[q],
    {
        let ghost old_self = *self;
        let mut done = false;
        while !done
            invariant
                self.wf(),
                old_self == *old(self),
                forall|q: (Seq<char>, Seq<char>)|
                    #[trigger] self.view().contains_key(q) ==> old_self.view().contains_key(q)
                        && self.view()[q] == old_self.view()[q],
                forall|q: (Seq<char>, Seq<char>)|
                    old_self.view().contains_key(q) && q.0 != plugin_id@ ==> #[trigger] self.view().contains_key(q),
                done ==> forall|j: int| 0 <= j < self.records@.len() ==> self.records@[j].plugin_id@ != plugin_id@,
            decreases self.records@.len() + if done { 0int } else { 1int },
        {
            match self.find_plugin_record(plugin_id) {
                Some(i) => {
                    let ghost before = *self;
                    let _ = self.records.remove(i);
                    proof {
                        self.lemma_removed(&before, i as int);
                    }
                },
                None => {
                    done = true;
                },
            }
        }
        proof {
            assert forall|q: (Seq<char>, Seq<char>)| #[trigger] self.view().contains_key(q) implies q.0 != plugin_id@ by {
                let j = choose|j: int| 0 <= j < self.records@.len() && (self.records@[j].plugin_id@, self.records@[j].key@) == q;
            }
        }
    }

    /// The plugin's keys, each once.
    pub fn keys(&self, plugin_id: &str) -> (r: Vec<String>)
        requires
            self.wf(),
        ensures
            key_views(r@).no_duplicates(),
            key_views(r@).to_set() == self.keys_of(plugin_id@),
    {
        let mut r: Vec<String> = Vec::new();
        let mut i: usize = 0;
        while i < self.records.len()
            invariant
                self.wf(),
                0 <= i <= self.records@.len(),
                key_views(r@).no_duplicates(),
                forall|k: Seq<char>| #[trigger] key_views(r@).contains(k) <==> exists|j: int|
                    0 <= j < i && self.records@[j].plugin_id@ == plugin_id@ && self.records@[j].key@ == k,
            decreases self.records@.len() - i,
        {
            if str_eq(self.records[i].plugin_id.as_str(), plugin_id) {
                let ghost before = key_views(r@);
                let k = owned(self.records[i].key.as_str());
                proof {
                    if before.contains(k@) {
                        let j = choose|j: int|
                            0 <= j < i && self.records@[j].plugin_id@ == plugin_id@ && self.records@[j].key@ == k@;
                        assert(j != i);
                    }
                }
                r.push(k);
                proof {
                    let after = key_views(r@);
                    assert(after =~= before.push(k@));
                    assert forall|kk: Seq<char>| #[trigger] after.contains(kk) <==> exists|j: int|
                        0 <= j < i + 1 && self.records@[j].plugin_id@ == plugin_id@ && self.records@[j].key@ == kk by {
                        if after.contains(kk) && kk != k@ {
                            let q = choose|q: int| 0 <= q < after.len() && after[q] == kk;
                            assert(before[q] == kk);
                            assert(before.contains(kk));
                        }
                        if kk == k@ {
                            assert(after[before.len() as int] == kk);
                        }
                        if (exists|j: int| 0 <= j < i + 1 && self.records@[j].plugin_id@ == plugin_id@ && self.records@[j].key@ == kk) {
                            let j = choose|j: int| 0 <= j < i + 1 && self.records@[j].plugin_id@ == plugin_id@ && self.records@[j].key@ == kk;
                            if j < i {
                                assert(before.contains(kk));
                                let q = choose|q: int| 0 <= q < before.len() && before[q] == kk;
                                assert(after[q] == kk);
                            } else {
                                assert(after[before.len() as int] == kk);
                            }
                        }
                    }
                }
            }
            i = i + 1;
        }
        proof {
            let rv = key_views(r@);
            assert forall|k: Seq<char>| #[trigger] rv.to_set().contains(k) <==> self.keys_of(plugin_id@).contains(k) by {
                if rv.contains(k) {
                    let j = choose|j: int| 0 <= j < self.records@.len() && self.records@[j].plugin_id@ == plugin_id@ && self.records@[j].key@ == k;
                    self.lemma_at(j);
                }
                if self.view().contains_key((plugin_id@, k)) {
                    let j = choose|j: int| 0 <= j < self.records@.len() && (self.records@[j].plugin_id@, self.records@[j].key@) == (plugin_id@, k);
                    assert(self.records@[j].plugin_id@ == plugin_id@ && self.records@[j].key@ == k);
                }
            }
            assert(rv.to_set() =~= self.keys_of(plugin_id@));
        }
        r
    }

    /// How many keys the plugin holds.
    pub fn size(&self, plugin_id: &str) -> (r: usize)
        requires
            self.wf(),
        ensures
            r == self.keys_of(plugin_id@).len(),
    {
        let k = self.keys(plugin_id);
        proof {
            key_views(k@).unique_seq_to_set();
        }
        k.len()
    }
}

/// Storing `v` under a non-empty key makes it what a read of that key returns.
pub proof fn lemma_set_then_get(before: PluginStorage, after: PluginStorage, id: Seq<char>, key: Seq<char>, v: Seq<char>)
    requires
        key.len() > 0,
        after.view() == before.view().insert((id, key), v),
    ensures
        after.lookup(id, key) == Some(v),
{
}

/// Writing, deleting or clearing under one plugin leaves every read under another
/// plugin as it was.
pub proof fn lemma_storage_isolation(before: PluginStorage, after: PluginStorage, writer: Seq<char>, reader: Seq<char>, key: Seq<char>)
    requires
        writer != reader,
        forall|q: (Seq<char>, Seq<char>)| q.0 != writer ==> (#[trigger] after.view().contains_key(q) <==> before.view().contains_key(q)),
        forall|q: (Seq<char>, Seq<char>)| q.0 != writer && after.view().contains_key(q) ==> #[trigger] after.view()[q] == before.view()[q],
    ensures
        after.lookup(reader, key) == before.lookup(reader, key),
{
    assert(after.view().contains_key((reader, key)) == before.view().contains_key((reader, key)));
}

} // verus!
