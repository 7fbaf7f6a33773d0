//! The capability configuration store: an immutable-after-startup snapshot
//! mapping (logical name, capability kind) to the configuration of a backend.
use vstd::prelude::*;
use crate::resource::Resource;

verus! {

/// The configuration a backend needs to construct itself for one logical name.
#[derive(Clone, Debug)]
pub struct BasicState {
    /// The provider identity configured for the name.
    pub implementor: Resource,
    /// How the backend's own configuration is supplied (for example `"env_vars"`).
    pub config_type: String,
    /// Where the backend's own configuration file lives.
    pub config_toml_file_path: String,
}

/// One entry of the store.
#[derive(Clone, Debug)]
pub struct StoreEntry {
    pub name: String,
    pub kind: String,
    pub state: BasicState,
}

/// A map from (name, capability kind) to configuration, unique per key.
#[derive(Clone, Debug)]
pub struct CapabilityStore {
    entries: Vec<StoreEntry>,
}

/// Whether entry `e` is stored under the key (`name`, `kind`).
pub open spec fn keyed(e: StoreEntry, name: Seq<char>, kind: Seq<char>) -> bool {
    e.name@ == name && e.kind@ == kind
}

impl CapabilityStore {
    pub closed spec fn entries(self) -> Seq<StoreEntry> {
        self.entries@
    }

    /// No two entries share a key.
    pub open spec fn wf(self) -> bool {
        forall|i: int, j: int|
            0 <= i < self.entries().len() && 0 <= j < self.entries().len()
                && #[trigger] self.entries()[i].name@ == #[trigger] self.entries()[j].name@
                && self.entries()[i].kind@ == self.entries()[j].kind@ ==> i == j
    }

    pub open spec fn has(self, name: Seq<char>, kind: Seq<char>) -> bool {
        exists|i: int| 0 <= i < self.entries().len() && keyed(#[trigger] self.entries()[i], name, kind)
    }

    /// The configuration stored under (`name`, `kind`), if any.
    pub open spec fn lookup(self, name: Seq<char>, kind: Seq<char>) -> Option<BasicState> {
        if self.has(name, kind) {
            Some(
                self.entries()[choose|i: int|
                    0 <= i < self.entries().len() && keyed(#[trigger] self.entries()[i], name, kind)].state,
            )
        } else {
            None
        }
    }

    /// An empty store.
    pub fn new() -> (r: Self)
        ensures
            r.wf(),
            forall|n: Seq<char>, k: Seq<char>| r.lookup(n, k).is_none(),
    {
        CapabilityStore { entries: Vec::new() }
    }

    /// The position of the entry under (`name`, `kind`), if any.
    fn position(&self, name: &String, kind: &String) -> (r: Option<usize>)
        requires
            self.wf(),
        ensures
            match r {
                Some(i) => i < self.entries().len() && keyed(self.entries()[i as int], name@, kind@),
                None => !self.has(name@, kind@),
            },
    {
        let mut i: usize = 0;
        while i < self.entries.len()
            invariant
                i <= self.entries@.len(),
                forall|j: int| 0 <= j < i ==> !keyed(#[trigger] self.entries@[j], name@, kind@),
            decreases self.entries@.len() - i,
        {
            let e = &self.entries[i];
            if e.name == *name && e.kind == *kind {
                return Some(i);
            }
            i = i + 1;
        }
        None
    }

    /// Adds the configuration for (`name`, `kind`); refused, leaving the store
    /// unchanged, where that key already has one.
    pub fn add(&mut self, name: String, kind: String, state: BasicState) -> (added: bool)
        requires
            old(self).wf(),
        ensures
            final(self).wf(),
            added == !old(self).has(name@, kind@),
            forall|n: Seq<char>, k: Seq<char>|
                #[trigger] final(self).lookup(n, k) == if added && n == name@ && k == kind@ {
                    Some(state)
                } else {
                    old(self).lookup(n, k)
                },
    {
        if self.position(&name, &kind).is_some() {
            return false;
        }
        let ghost pre = self.entries@;
        let ghost e = StoreEntry { name, kind, state };
        self.entries.push(StoreEntry { name, kind, state });
        assert(self.entries@ == pre.push(e));
        assert forall|n: Seq<char>, k: Seq<char>|
            #[trigger] self.lookup(n, k) == if n == e.name@ && k == e.kind@ {
                Some(e.state)
            } else {
                old(self).lookup(n, k)
            } by {
            if n == e.name@ && k == e.kind@ {
                assert(keyed(self.entries()[pre.len() as int], n, k));
                let c = choose|i: int| 0 <= i < self.entries().len() && keyed(#[trigger] self.entries()[i], n, k);
                assert(c == pre.len());
            } else if old(self).has(n, k) {
                let c0 = choose|i: int| 0 <= i < pre.len() && keyed(#[trigger] pre[i], n, k);
                assert(keyed(self.entries()[c0], n, k));
                let c = choose|i: int| 0 <= i < self.entries().len() && keyed(#[trigger] self.entries()[i], n, k);
                assert(c == c0);
            } else {
                assert forall|i: int| 0 <= i < self.entries().len() implies !keyed(#[trigger] self.entries()[i], n, k) by {
                    if i < pre.len() {
                        assert(pre[i] == self.entries()[i]);
                    }
                }
            }
        }
        true
    }

    /// The configuration stored under (`name`, `kind`), if any.
    pub fn get(&self, name: &String, kind: &String) -> (r: Option<&BasicState>)
        requires
            self.wf(),
        ensures
            match r {
                Some(s) => self.lookup(name@, kind@) == Some(*s),
                None => self.lookup(name@, kind@).is_none(),
            },
    {
        match self.position(name, kind) {
            Some(i) => Some(&self.entries[i].state),
            None => None,
        }
    }
}

} // verus!
