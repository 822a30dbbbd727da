//! Short-lived cache of mod.io answers. Entries expire five minutes after
//! they were fetched; times are milliseconds on a clock the caller reads.
use vstd::prelude::*;
use std::collections::HashMap;

use crate::modio_api::{ModObject, Modfile};
use crate::text::{opt_view, own};

verus! {

broadcast use vstd::std_specs::hash::group_hash_axioms;

/// How long a cached answer stays valid, in milliseconds.
pub const CACHE_TTL_MS: u64 = 300000;

/// A cached value and when it was fetched.
pub struct Timed<T> {
    pub value: T,
    pub fetched_at: u64,
}

/// Time elapsed since `fetched_at`; a clock that went back counts as none.
pub open spec fn elapsed(fetched_at: u64, now: u64) -> int {
    if now >= fetched_at {
        now - fetched_at
    } else {
        0
    }
}

impl<T> Timed<T> {
    pub fn new(value: T, now: u64) -> (r: Timed<T>)
        ensures
            r.value == value,
            r.fetched_at == now,
    {
        Timed { value, fetched_at: now }
    }

    pub open spec fn valid_at(&self, now: u64) -> bool {
        elapsed(self.fetched_at, now) < CACHE_TTL_MS
    }

    /// Fetched less than five minutes before `now`.
    pub fn is_valid(&self, now: u64) -> (r: bool)
        ensures
            r == self.valid_at(now),
    {
        now.saturating_sub(self.fetched_at) < CACHE_TTL_MS
    }
}

/// The valid entry for `key`, if any.
pub open spec fn fresh<T>(m: Map<u64, Timed<T>>, key: u64, now: u64) -> Option<T> {
    if m.contains_key(key) && m[key].valid_at(now) {
        Some(m[key].value)
    } else {
        None
    }
}

/// What the app remembers of mod.io: mods that are gone, failed dependency
/// fetches, dependency lists, latest file ids, file lists, mods, and the
/// user's subscriptions.
pub struct ApiCache {
    pub unavailable_mods: HashMap<u64, Timed<()>>,
    pub failed_dependency_fetches: HashMap<u64, Timed<()>>,
    pub dependencies: HashMap<u64, Timed<Vec<u64>>>,
    pub latest_file_ids: HashMap<u64, Timed<u64>>,
    pub mod_files: HashMap<u64, Timed<Vec<Modfile>>>,
    pub mods: HashMap<u64, Timed<ModObject>>,
    pub subscribed_mod_ids: Option<Timed<Vec<u64>>>,
}

/// Ids in ascending order (duplicates kept).
pub open spec fn sorted_ids(s: Seq<u64>) -> bool {
    forall|i: int, j: int| 0 <= i < j < s.len() ==> s[i] <= s[j]
}

/// `sort_unstable` of ids: the same ids, ascending.
pub fn sort_ids(ids: Vec<u64>) -> (r: Vec<u64>)
    ensures
        sorted_ids(r@),
        r@.to_multiset() == ids@.to_multiset(),
{
    broadcast use vstd::seq_lib::group_to_multiset_ensures;

    let ghost orig = ids@;
    let mut src = ids;
    let mut out: Vec<u64> = Vec::new();
    while src.len() > 0
        invariant
            sorted_ids(out@),
            out@.to_multiset().add(src@.to_multiset()) == orig.to_multiset(),
        decreases src.len(),
    {
        let ghost s0 = src@;
        let x = src.remove(0);
        let mut k: usize = 0;
        while k < out.len() && out[k] <= x
            invariant
                k <= out.len(),
                forall|j: int| 0 <= j < k ==> out@[j] <= x,
            decreases out.len() - k,
        {
            k = k + 1;
        }
        let ghost before = out@;
        out.insert(k, x);
        proof {
            before.insert_ensures(k as int, x);
            vstd::seq_lib::to_multiset_insert(before, k as int, x);
            vstd::seq_lib::to_multiset_remove(s0, 0);
            assert(s0[0] == x);
            assert(s0.contains(x));
            vstd::seq_lib::to_multiset_contains(s0, x);
            assert forall|a: int, b: int| 0 <= a < b < out@.len() implies out@[a] <= out@[b] by {
                if b < k {
                } else if b == k {
                } else if a < k {
                    assert(out@[b] == before[b - 1]);
                    if k < before.len() {
                        assert(before[k as int] > x);
                        assert(before[k as int] <= before[b - 1]);
                    }
                } else if a == k {
                    assert(out@[b] == before[b - 1]);
                    assert(before[k as int] > x);
                    assert(before[k as int] <= before[b - 1]);
                } else {
                    assert(out@[a] == before[a - 1]);
                    assert(out@[b] == before[b - 1]);
                }
            }
            assert(out@.to_multiset().add(src@.to_multiset()) =~= before.to_multiset().add(
                s0.to_multiset(),
            ));
        }
    }
    assert(src@.to_multiset() =~= vstd::multiset::Multiset::empty());
    assert(out@.to_multiset().add(src@.to_multiset()) =~= out@.to_multiset());
    out
}

impl ApiCache {
    pub fn new() -> (r: ApiCache)
        ensures
            r.is_empty(),
    {
        ApiCache {
            unavailable_mods: HashMap::new(),
            failed_dependency_fetches: HashMap::new(),
            dependencies: HashMap::new(),
            latest_file_ids: HashMap::new(),
            mod_files: HashMap::new(),
            mods: HashMap::new(),
            subscribed_mod_ids: None,
        }
    }

    pub open spec fn is_empty(&self) -> bool {
        &&& self.unavailable_mods@ == Map::<u64, Timed<()>>::empty()
        &&& self.failed_dependency_fetches@ == Map::<u64, Timed<()>>::empty()
        &&& self.dependencies@ == Map::<u64, Timed<Vec<u64>>>::empty()
        &&& self.latest_file_ids@ == Map::<u64, Timed<u64>>::empty()
        &&& self.mod_files@ == Map::<u64, Timed<Vec<Modfile>>>::empty()
        &&& self.mods@ == Map::<u64, Timed<ModObject>>::empty()
        &&& self.subscribed_mod_ids is None
    }

    /// Forgets everything (on logout).
    pub fn clear(&mut self)
        ensures
            final(self).is_empty(),
    {
        self.unavailable_mods.clear();
        self.failed_dependency_fetches.clear();
        self.dependencies.clear();
        self.latest_file_ids.clear();
        self.mod_files.clear();
        self.mods.clear();
        self.subscribed_mod_ids = None;
    }

    pub fn is_mod_unavailable(&self, mod_id: u64, now: u64) -> (r: bool)
        ensures
            r == fresh(self.unavailable_mods@, mod_id, now) is Some,
    {
        match self.unavailable_mods.get(&mod_id) {
            Some(entry) => entry.is_valid(now),
            None => false,
        }
    }

    pub fn mark_mod_unavailable(&mut self, mod_id: u64, now: u64)
        ensures
            final(self).unavailable_mods@ == old(self).unavailable_mods@.insert(
                mod_id,
                Timed { value: (), fetched_at: now },
            ),
            final(self).failed_dependency_fetches@ == old(self).failed_dependency_fetches@,
            final(self).dependencies@ == old(self).dependencies@,
            final(self).latest_file_ids@ == old(self).latest_file_ids@,
            final(self).mod_files@ == old(self).mod_files@,
            final(self).mods@ == old(self).mods@,
            final(self).subscribed_mod_ids == old(self).subscribed_mod_ids,
    {
        self.unavailable_mods.insert(mod_id, Timed::new((), now));
    }

    pub fn is_dependency_fetch_failed(&self, mod_id: u64, now: u64) -> (r: bool)
        ensures
            r == fresh(self.failed_dependency_fetches@, mod_id, now) is Some,
    {
        match self.failed_dependency_fetches.get(&mod_id) {
            Some(entry) => entry.is_valid(now),
            None => false,
        }
    }

    pub fn mark_dependency_fetch_failed(&mut self, mod_id: u64, now: u64)
        ensures
            final(self).failed_dependency_fetches@ == old(self).failed_dependency_fetches@.insert(
                mod_id,
                Timed { value: (), fetched_at: now },
            ),
            final(self).unavailable_mods@ == old(self).unavailable_mods@,
            final(self).dependencies@ == old(self).dependencies@,
            final(self).latest_file_ids@ == old(self).latest_file_ids@,
            final(self).mod_files@ == old(self).mod_files@,
            final(self).mods@ == old(self).mods@,
            final(self).subscribed_mod_ids == old(self).subscribed_mod_ids,
    {
        self.failed_dependency_fetches.insert(mod_id, Timed::new((), now));
    }

    /// Forgets what is known of one mod (after installing it), except its
    /// dependencies and the subscriptions.
    pub fn invalidate_mod(&mut self, mod_id: u64)
        ensures
            final(self).unavailable_mods@ == old(self).unavailable_mods@.remove(mod_id),
            final(self).failed_dependency_fetches@ == old(self).failed_dependency_fetches@.remove(
                mod_id,
            ),
            final(self).latest_file_ids@ == old(self).latest_file_ids@.remove(mod_id),
            final(self).mod_files@ == old(self).mod_files@.remove(mod_id),
            final(self).mods@ == old(self).mods@.remove(mod_id),
            final(self).dependencies@ == old(self).dependencies@,
            final(self).subscribed_mod_ids == old(self).subscribed_mod_ids,
    {
        self.unavailable_mods.remove(&mod_id);
        self.failed_dependency_fetches.remove(&mod_id);
        self.latest_file_ids.remove(&mod_id);
        self.mod_files.remove(&mod_id);
        self.mods.remove(&mod_id);
    }

    /// The cached mod, while fresh.
    pub fn get_mod(&self, mod_id: u64, now: u64) -> (r: Option<&ModObject>)
        ensures
            match r {
                Some(m) => fresh(self.mods@, mod_id, now) == Some(*m),
                None => fresh(self.mods@, mod_id, now) is None,
            },
    {
        match self.mods.get(&mod_id) {
            Some(entry) => if entry.is_valid(now) {
                Some(&entry.value)
            } else {
                None
            },
            None => None,
        }
    }

    /// Caches a mod. A list answer carries no description, so a fresh cached
    /// description is kept when the new object has none (or an empty one).
    pub fn store_mod(&mut self, mod_: ModObject, now: u64)
        ensures
            final(self).mods@.contains_key(mod_.id),
            final(self).mods@[mod_.id].fetched_at == now,
            final(self).mods@ == old(self).mods@.insert(mod_.id, final(self).mods@[mod_.id]),
            ({
                let stored = final(self).mods@[mod_.id].value;
                let keep_old = fresh(old(self).mods@, mod_.id, now) is Some && match mod_.description {
                    Some(d) => d@.len() == 0,
                    None => true,
                };
                &&& stored.id == mod_.id
                &&& stored.name == mod_.name
                &&& stored.modfile == mod_.modfile
                &&& stored.tags == mod_.tags
                &&& stored.stats == mod_.stats
                &&& stored.dependencies == mod_.dependencies
                &&& stored.date_updated == mod_.date_updated
                &&& opt_view(stored.description) == (if keep_old {
                    opt_view(old(self).mods@[mod_.id].value.description)
                } else {
                    opt_view(mod_.description)
                })
            }),
            final(self).unavailable_mods@ == old(self).unavailable_mods@,
            final(self).failed_dependency_fetches@ == old(self).failed_dependency_fetches@,
            final(self).dependencies@ == old(self).dependencies@,
            final(self).latest_file_ids@ == old(self).latest_file_ids@,
            final(self).mod_files@ == old(self).mod_files@,
            final(self).subscribed_mod_ids == old(self).subscribed_mod_ids,
    {
        let mod_id = mod_.id;
        let mut merged = mod_;
        let missing = match &merged.description {
            Some(d) => d.as_str().is_empty(),
            None => true,
        };
        if missing {
            match self.mods.get(&mod_id) {
                Some(entry) => {
                    if entry.is_valid(now) {
                        merged.description = match &entry.value.description {
                            Some(d) => Some(own(d.as_str())),
                            None => None,
                        };
                    }
                },
                None => {},
            }
        }
        self.mods.insert(mod_id, Timed::new(merged, now));
    }

    /// The cached file list of a mod, while fresh.
    pub fn get_mod_files(&self, mod_id: u64, now: u64) -> (r: Option<&Vec<Modfile>>)
        ensures
            match r {
                Some(f) => fresh(self.mod_files@, mod_id, now) == Some(*f),
                None => fresh(self.mod_files@, mod_id, now) is None,
            },
    {
        match self.mod_files.get(&mod_id) {
            Some(entry) => if entry.is_valid(now) {
                Some(&entry.value)
            } else {
                None
            },
            None => None,
        }
    }

    pub fn store_mod_files(&mut self, mod_id: u64, files: Vec<Modfile>, now: u64)
        ensures
            final(self).mod_files@ == old(self).mod_files@.insert(
                mod_id,
                Timed { value: files, fetched_at: now },
            ),
            final(self).unavailable_mods@ == old(self).unavailable_mods@,
            final(self).failed_dependency_fetches@ == old(self).failed_dependency_fetches@,
            final(self).dependencies@ == old(self).dependencies@,
            final(self).latest_file_ids@ == old(self).latest_file_ids@,
            final(self).mods@ == old(self).mods@,
            final(self).subscribed_mod_ids == old(self).subscribed_mod_ids,
    {
        self.mod_files.insert(mod_id, Timed::new(files, now));
    }

    pub fn get_latest_file_id(&self, mod_id: u64, now: u64) -> (r: Option<u64>)
        ensures
            r == fresh(self.latest_file_ids@, mod_id, now),
    {
        match self.latest_file_ids.get(&mod_id) {
            Some(entry) => if entry.is_valid(now) {
                Some(entry.value)
            } else {
                None
            },
            None => None,
        }
    }

    pub fn store_latest_file_id(&mut self, mod_id: u64, file_id: u64, now: u64)
        ensures
            final(self).latest_file_ids@ == old(self).latest_file_ids@.insert(
                mod_id,
                Timed { value: file_id, fetched_at: now },
            ),
            final(self).unavailable_mods@ == old(self).unavailable_mods@,
            final(self).failed_dependency_fetches@ == old(self).failed_dependency_fetches@,
            final(self).dependencies@ == old(self).dependencies@,
            final(self).mod_files@ == old(self).mod_files@,
            final(self).mods@ == old(self).mods@,
            final(self).subscribed_mod_ids == old(self).subscribed_mod_ids,
    {
        self.latest_file_ids.insert(mod_id, Timed::new(file_id, now));
    }

    pub fn get_dependencies(&self, mod_id: u64, now: u64) -> (r: Option<Vec<u64>>)
        ensures
            match r {
                Some(d) => fresh(self.dependencies@, mod_id, now) matches Some(v) && d@ == v@,
                None => fresh(self.dependencies@, mod_id, now) is None,
            },
    {
        match self.dependencies.get(&mod_id) {
            Some(entry) => if entry.is_valid(now) {
                Some(copy_ids(&entry.value))
            } else {
                None
            },
            None => None,
        }
    }

    pub fn store_dependencies(&mut self, mod_id: u64, dependencies: Vec<u64>, now: u64)
        ensures
            final(self).dependencies@ == old(self).dependencies@.insert(
                mod_id,
                Timed { value: dependencies, fetched_at: now },
            ),
            final(self).unavailable_mods@ == old(self).unavailable_mods@,
            final(self).failed_dependency_fetches@ == old(self).failed_dependency_fetches@,
            final(self).latest_file_ids@ == old(self).latest_file_ids@,
            final(self).mod_files@ == old(self).mod_files@,
            final(self).mods@ == old(self).mods@,
            final(self).subscribed_mod_ids == old(self).subscribed_mod_ids,
    {
        self.dependencies.insert(mod_id, Timed::new(dependencies, now));
    }

    pub open spec fn fresh_subscriptions(&self, now: u64) -> Option<Seq<u64>> {
        match self.subscribed_mod_ids {
            Some(t) => if t.valid_at(now) {
                Some(t.value@)
            } else {
                None
            },
            None => None,
        }
    }

    pub fn get_subscribed_mod_ids(&self, now: u64) -> (r: Option<Vec<u64>>)
        ensures
            match r {
                Some(v) => self.fresh_subscriptions(now) == Some(v@),
                None => self.fresh_subscriptions(now) is None,
            },
    {
        match &self.subscribed_mod_ids {
            Some(entry) => if entry.is_valid(now) {
                Some(copy_ids(&entry.value))
            } else {
                None
            },
            None => None,
        }
    }

    pub fn store_subscribed_mod_ids(&mut self, mod_ids: Vec<u64>, now: u64)
        ensures
            final(self).subscribed_mod_ids == Some(Timed { value: mod_ids, fetched_at: now }),
            final(self).unavailable_mods@ == old(self).unavailable_mods@,
            final(self).failed_dependency_fetches@ == old(self).failed_dependency_fetches@,
            final(self).dependencies@ == old(self).dependencies@,
            final(self).latest_file_ids@ == old(self).latest_file_ids@,
            final(self).mod_files@ == old(self).mod_files@,
            final(self).mods@ == old(self).mods@,
    {
        self.subscribed_mod_ids = Some(Timed::new(mod_ids, now));
    }

    /// Records a new subscription in the cached list (an expired list counts
    /// as empty); the list is stored again, sorted, only when the id was new.
    pub fn add_subscribed_mod_id(&mut self, mod_id: u64, now: u64)
        ensures
            ({
                let ids = match old(self).fresh_subscriptions(now) {
                    Some(v) => v,
                    None => Seq::empty(),
                };
                if ids.contains(mod_id) {
                    final(self).subscribed_mod_ids == old(self).subscribed_mod_ids
                } else {
                    final(self).subscribed_mod_ids matches Some(t) && t.fetched_at == now
                        && sorted_ids(t.value@) && t.value@.to_multiset() == ids.push(
                        mod_id,
                    ).to_multiset()
                }
            }),
            final(self).unavailable_mods@ == old(self).unavailable_mods@,
            final(self).failed_dependency_fetches@ == old(self).failed_dependency_fetches@,
            final(self).dependencies@ == old(self).dependencies@,
            final(self).latest_file_ids@ == old(self).latest_file_ids@,
            final(self).mod_files@ == old(self).mod_files@,
            final(self).mods@ == old(self).mods@,
    {
        let mut ids = match self.get_subscribed_mod_ids(now) {
            Some(v) => v,
            None => Vec::new(),
        };
        if !contains_id(&ids, mod_id) {
            ids.push(mod_id);
            let sorted = sort_ids(ids);
            self.store_subscribed_mod_ids(sorted, now);
        }
    }

    /// Drops an unsubscribed mod from the fresh cached list, if it is there.
    pub fn remove_subscribed_mod_id(&mut self, mod_id: u64, now: u64)
        ensures
            match old(self).fresh_subscriptions(now) {
                Some(ids) => if ids.contains(mod_id) {
                    final(self).subscribed_mod_ids matches Some(t) && t.fetched_at == now && exists|i: int|
                        0 <= i < ids.len() && ids[i] == mod_id && t.value@ == ids.remove(i)
                } else {
                    final(self).subscribed_mod_ids == old(self).subscribed_mod_ids
                },
                None => final(self).subscribed_mod_ids == old(self).subscribed_mod_ids,
            },
            final(self).unavailable_mods@ == old(self).unavailable_mods@,
            final(self).failed_dependency_fetches@ == old(self).failed_dependency_fetches@,
            final(self).dependencies@ == old(self).dependencies@,
            final(self).latest_file_ids@ == old(self).latest_file_ids@,
            final(self).mod_files@ == old(self).mod_files@,
            final(self).mods@ == old(self).mods@,
    {
        let mut ids = match self.get_subscribed_mod_ids(now) {
            Some(v) => v,
            None => return ,
        };
        match position_of_id(&ids, mod_id) {
            Some(i) => {
                ids.remove(i);
                self.store_subscribed_mod_ids(ids, now);
            },
            None => {},
        }
    }
}

fn copy_ids(v: &Vec<u64>) -> (r: Vec<u64>)
    ensures
        r@ == v@,
{
    let mut r: Vec<u64> = Vec::new();
    let mut i: usize = 0;
    while i < v.len()
        invariant
            i <= v.len(),
            r@ == v@.take(i as int),
        decreases v.len() - i,
    {
        r.push(v[i]);
        i = i + 1;
        assert(r@ =~= v@.take(i as int));
    }
    assert(v@.take(i as int) =~= v@);
    r
}

fn position_of_id(v: &Vec<u64>, x: u64) -> (r: Option<usize>)
    ensures
        r matches Some(i) ==> i < v@.len() && v@[i as int] == x,
        r is None ==> !v@.contains(x),
{
    let mut i: usize = 0;
    while i < v.len()
        invariant
            i <= v.len(),
            forall|j: int| 0 <= j < i ==> v@[j] != x,
        decreases v.len() - i,
    {
        if v[i] == x {
            return Some(i);
        }
        i = i + 1;
    }
    None
}

fn contains_id(v: &Vec<u64>, x: u64) -> (r: bool)
    ensures
        r == v@.contains(x),
{
    let mut i: usize = 0;
    while i < v.len()
        invariant
            i <= v.len(),
            forall|j: int| 0 <= j < i ==> v@[j] != x,
        decreases v.len() - i,
    {
        if v[i] == x {
            assert(v@[i as int] == x);
            return true;
        }
        i = i + 1;
    }
    false
}


/// A value cached at `stored_at` is what a read returns until five minutes
/// have passed.
pub proof fn lemma_read_after_store<T>(
    m: Map<u64, Timed<T>>,
    key: u64,
    value: T,
    stored_at: u64,
    read_at: u64,
)
    requires
        stored_at <= read_at,
        read_at - stored_at < CACHE_TTL_MS,
    ensures
        fresh(m.insert(key, Timed { value, fetched_at: stored_at }), key, read_at) == Some(value),
{
}

/// Five minutes after it was cached, a value is no longer returned.
pub proof fn lemma_expires<T>(m: Map<u64, Timed<T>>, key: u64, value: T, stored_at: u64, read_at: u64)
    requires
        stored_at <= read_at,
        read_at - stored_at >= CACHE_TTL_MS,
    ensures
        fresh(m.insert(key, Timed { value, fetched_at: stored_at }), key, read_at) is None,
{
}

/// Caching one mod's entry leaves the other mods' entries as they were.
pub proof fn lemma_store_keeps_others<T>(
    m: Map<u64, Timed<T>>,
    key: u64,
    other: u64,
    value: T,
    stored_at: u64,
    read_at: u64,
)
    requires
        key != other,
    ensures
        fresh(m.insert(key, Timed { value, fetched_at: stored_at }), other, read_at) == fresh(
            m,
            other,
            read_at,
        ),
{
}

/// After a mod is invalidated nothing is returned for it.
pub proof fn lemma_nothing_after_invalidate<T>(m: Map<u64, Timed<T>>, key: u64, read_at: u64)
    ensures
        fresh(m.remove(key), key, read_at) is None,
{
}

} // verus!
