//! The state merger and its store abstraction.
//!
//! The external state store is consumed through the narrow `StateStore`
//! capability: one keyed write per merge. The merger keeps a per-invocation
//! cache from address to field map, merges one field into the map for a
//! given address, serializes the map canonically, and delegates the write.
//! The cache is never populated from the store: a merge never observes
//! fields committed at an address unless an earlier merge within the same
//! invocation already cached that address.

use vstd::prelude::*;
use vstd::string::StringExecFns;
use crate::codec::map_bytes;
use crate::errors::ApplyError;
use crate::field_map::FieldMap;
use crate::order::{str_cmp, KeyOrder};

verus! {

/// The capability set through which state is persisted. The write log
/// records every accepted write, oldest first; a failed write leaves the
/// log unchanged (the write primitive is atomic per key).
pub trait StateStore {
    /// The writes the store has accepted, oldest first.
    spec fn log(&self) -> Seq<(Seq<char>, Seq<u8>)>;

    /// Persists `data` as the new state entry at `address`.
    fn set_state_entry(&mut self, address: String, data: Vec<u8>) -> (r: Result<(), String>)
        ensures
            r is Ok ==> final(self).log() == old(self).log().push((address@, data@)),
            r is Err ==> final(self).log() == old(self).log(),
    ;
}

/// An in-memory store that records every write and never fails; the fake
/// against which the merger is exercised.
pub struct InMemoryStore {
    /// Every accepted write, oldest first.
    pub writes: Vec<(String, Vec<u8>)>,
}

impl InMemoryStore {
    /// A store with no writes yet.
    pub fn new() -> (r: InMemoryStore)
        ensures
            r.log() == Seq::<(Seq<char>, Seq<u8>)>::empty(),
    {
        let r = InMemoryStore { writes: Vec::new() };
        proof {
            assert(r.log() =~= Seq::<(Seq<char>, Seq<u8>)>::empty());
        }
        r
    }
}

impl StateStore for InMemoryStore {
    open spec fn log(&self) -> Seq<(Seq<char>, Seq<u8>)> {
        self.writes@.map_values(|w: (String, Vec<u8>)| (w.0@, w.1@))
    }

    fn set_state_entry(&mut self, address: String, data: Vec<u8>) -> (r: Result<(), String>) {
        let ghost before = self.log();
        self.writes.push((address, data));
        proof {
            assert(self.log() =~= before.push((self.writes@.last().0@, self.writes@.last().1@)));
        }
        Ok(())
    }
}

/// Replacement-or-append on an association sequence of cached field maps:
/// the entry under an equal key is replaced in place, a new key goes last.
pub open spec fn cache_set(
    s: Seq<(Seq<char>, Seq<(Seq<char>, Seq<char>)>)>,
    k: Seq<char>,
    m: Seq<(Seq<char>, Seq<char>)>,
) -> Seq<(Seq<char>, Seq<(Seq<char>, Seq<char>)>)>
    decreases s.len(),
{
    if s.len() == 0 {
        seq![(k, m)]
    } else if s[0].0 == k {
        seq![(k, m)] + s.drop_first()
    } else {
        seq![s[0]] + cache_set(s.drop_first(), k, m)
    }
}

/// The per-invocation cache of address to field map, with the merge
/// operation over an injected store.
pub struct State {
    cache: Vec<(String, FieldMap)>,
}

impl State {
    /// The cache as an association sequence from address to field-map
    /// entries, in insertion order.
    pub closed spec fn cache_view(&self) -> Seq<(Seq<char>, Seq<(Seq<char>, Seq<char>)>)> {
        self.cache@.map_values(|e: (String, FieldMap)| (e.0@, e.1.view_entries()))
    }

    /// Every cached field map is sorted and holds exactly the one field this
    /// core ever writes: the entry keyed by its own address.
    pub closed spec fn wf(&self) -> bool {
        forall|i: int|
            0 <= i < self.cache@.len() ==> (#[trigger] self.cache@[i]).1.wf()
                && self.cache@[i].1.view_entries().len() == 1
                && self.cache@[i].1.view_entries()[0].0 == self.cache@[i].0@
    }

    /// A fresh cache for one invocation.
    pub fn new() -> (r: State)
        ensures
            r.wf(),
            r.cache_view() == Seq::<(Seq<char>, Seq<(Seq<char>, Seq<char>)>)>::empty(),
    {
        let r = State { cache: Vec::new() };
        proof {
            assert(r.cache_view() =~= Seq::<(Seq<char>, Seq<(Seq<char>, Seq<char>)>)>::empty());
        }
        r
    }

    /// The index of the cache entry for `name`, if one exists.
    fn find_idx(&self, name: &str) -> (r: Option<usize>)
        ensures
            match r {
                Some(i) => i < self.cache_view().len() && self.cache_view()[i as int].0 == name@,
                None => forall|j: int|
                    0 <= j < self.cache_view().len() ==> (#[trigger] self.cache_view()[j]).0
                        != name@,
            },
            r matches Some(i) ==> forall|j: int|
                0 <= j < i ==> (#[trigger] self.cache_view()[j]).0 != name@,
    {
        let mut i: usize = 0;
        while i < self.cache.len()
            invariant
                i <= self.cache@.len(),
                self.cache_view().len() == self.cache@.len(),
                forall|j: int|
                    0 <= j < i ==> (#[trigger] self.cache_view()[j]).0 != name@,
            decreases self.cache@.len() - i,
        {
            let o = str_cmp(self.cache[i].0.as_str(), name);
            proof {
                assert(self.cache_view()[i as int].0 == self.cache@[i as int].0@);
            }
            if matches!(o, KeyOrder::Equal) {
                return Some(i);
            }
            i = i + 1;
        }
        None
    }

    /// The cached field map for `name`, if this invocation has built one.
    pub fn cached(&self, name: &str) -> (r: Option<&FieldMap>)
        ensures
            match r {
                Some(fm) => exists|i: int|
                    0 <= i < self.cache_view().len() && #[trigger] self.cache_view()[i] == (
                        name@,
                        fm.view_entries(),
                    ),
                None => forall|j: int|
                    0 <= j < self.cache_view().len() ==> (#[trigger] self.cache_view()[j]).0
                        != name@,
            },
    {
        match self.find_idx(name) {
            Some(i) => {
                let fm = &self.cache[i].1;
                proof {
                    assert(self.cache_view()[i as int] == (name@, fm.view_entries()));
                }
                Some(fm)
            },
            None => None,
        }
    }

    /// Merges one field into the state entry at `address`: the working map
    /// is the cached map for that address (or empty), the pair
    /// `(address, value)` is inserted, the map is encoded canonically, the
    /// cache entry is stored back, and the bytes are handed to the store
    /// under the key `address`. A store failure is an internal fault; the
    /// cache is updated either way.
    pub fn set<S: StateStore>(&mut self, store: &mut S, name: &str, value: &str) -> (r: Result<
        (),
        ApplyError,
    >)
        requires
            old(self).wf(),
        ensures
            final(self).wf(),
            final(self).cache_view() == cache_set(
                old(self).cache_view(),
                name@,
                seq![(name@, value@)],
            ),
            match r {
                Ok(()) => final(store).log() == old(store).log().push(
                    (name@, map_bytes(seq![(name@, value@)])),
                ),
                Err(e) => e is InternalError && final(store).log() == old(store).log(),
            },
    {
        let ghost cv = self.cache_view();
        let found = self.find_idx(name);
        let mut working: FieldMap = match found {
            Some(i) => self.cache[i].1.duplicate(),
            None => FieldMap::new(),
        };
        proof {
            if let Some(i) = found {
                assert(cv[i as int] == (self.cache@[i as int].0@, self.cache@[
                    i as int].1.view_entries()));
                assert(working.view_entries().len() == 1);
                assert(working.view_entries()[0].0 == name@);
            }
        }
        working.insert(String::from_str(name), String::from_str(value));
        proof {
            // in both cases the working map is now the singleton (name, value)
            assert(working.view_entries() =~= seq![(name@, value@)]);
        }
        let packed = working.encode();
        // store the cache entry for any later merge in this invocation
        match found {
            Some(i) => {
                self.cache.remove(i);
                self.cache.insert(i, (String::from_str(name), working));
                proof {
                    lemma_cache_set_found(cv, i as int, name@, seq![(name@, value@)]);
                    assert(self.cache_view() =~= cv.update(
                        i as int,
                        (name@, seq![(name@, value@)]),
                    ));
                }
            },
            None => {
                self.cache.push((String::from_str(name), working));
                proof {
                    lemma_cache_set_fresh(cv, name@, seq![(name@, value@)]);
                    assert(self.cache_view() =~= cv.push((name@, seq![(name@, value@)])));
                }
            },
        }
        let addr = String::from_str(name);
        match store.set_state_entry(addr, packed) {
            Ok(()) => Ok(()),
            Err(msg) => Err(ApplyError::InternalError(msg)),
        }
    }
}

proof fn lemma_cache_set_found(
    s: Seq<(Seq<char>, Seq<(Seq<char>, Seq<char>)>)>,
    i: int,
    k: Seq<char>,
    m: Seq<(Seq<char>, Seq<char>)>,
)
    requires
        0 <= i < s.len(),
        s[i].0 == k,
        forall|j: int| 0 <= j < i ==> (#[trigger] s[j]).0 != k,
    ensures
        cache_set(s, k, m) == s.update(i, (k, m)),
    decreases i,
{
    if i == 0 {
        assert(cache_set(s, k, m) =~= s.update(0, (k, m)));
    } else {
        assert(s[0].0 != k);
        let d = s.drop_first();
        assert(d[i - 1].0 == k);
        assert(forall|j: int| 0 <= j < i - 1 ==> (#[trigger] d[j]).0 != k);
        lemma_cache_set_found(d, i - 1, k, m);
        assert(cache_set(s, k, m) == seq![s[0]] + d.update(i - 1, (k, m)));
        assert(seq![s[0]] + d.update(i - 1, (k, m)) =~= s.update(i, (k, m)));
    }
}

proof fn lemma_cache_set_fresh(
    s: Seq<(Seq<char>, Seq<(Seq<char>, Seq<char>)>)>,
    k: Seq<char>,
    m: Seq<(Seq<char>, Seq<char>)>,
)
    requires
        forall|j: int| 0 <= j < s.len() ==> (#[trigger] s[j]).0 != k,
    ensures
        cache_set(s, k, m) == s.push((k, m)),
    decreases s.len(),
{
    if s.len() == 0 {
        assert(cache_set(s, k, m) =~= s.push((k, m)));
    } else {
        assert(s[0].0 != k);
        let d = s.drop_first();
        assert(forall|j: int| 0 <= j < d.len() ==> (#[trigger] d[j]).0 != k);
        lemma_cache_set_fresh(d, k, m);
        assert(cache_set(s, k, m) == seq![s[0]] + d.push((k, m)));
        assert(seq![s[0]] + d.push((k, m)) =~= s.push((k, m)));
    }
}

} // verus!
