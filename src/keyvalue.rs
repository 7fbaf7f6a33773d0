//! The front door: opening a named key-value resource, and the operations on
//! the session handle that `open` returns.
use vstd::prelude::*;
use crate::error::KeyvalueError;
use crate::implementors::{KeyvalueImplementor, get_outcome, lists_keys};
use crate::resource::{EnabledBackends, KeyvalueImplementors, Resource, identity_of, resolve};
use crate::store::{BasicState, CapabilityStore};

verus! {

/// A session handle: names the front door that issued it and the backend
/// instance that every open of one logical name shares.
#[derive(Clone, Copy, Debug, PartialEq, Eq, Structural)]
pub struct KeyvalueInner {
    owner: u64,
    slot: usize,
}

impl KeyvalueInner {
    pub closed spec fn owner(self) -> u64 {
        self.owner
    }

    pub closed spec fn slot(self) -> int {
        self.slot as int
    }
}

/// A constructed backend and the logical name it was opened under.
struct Instance<B> {
    name: String,
    backend: B,
}

/// The capability kind under which key-value configuration is stored.
pub open spec fn keyvalue_kind() -> Seq<char> {
    "keyvalue"@
}

/// The position of the instance opened under `n`, if there is one.
pub open spec fn live_slot(names: Seq<Seq<char>>, n: Seq<char>) -> Option<int> {
    if exists|i: int| 0 <= i < names.len() && names[i] == n {
        Some(choose|i: int| 0 <= i < names.len() && names[i] == n)
    } else {
        None
    }
}

/// The instances' data after storing `v` under `k` at `i`.
pub open spec fn set_in(d: Seq<Map<Seq<char>, Seq<u8>>>, i: int, k: Seq<char>, v: Seq<u8>) -> Seq<Map<Seq<char>, Seq<u8>>> {
    d.update(i, d[i].insert(k, v))
}

/// The instances' data after removing `k` at `i`.
pub open spec fn delete_in(d: Seq<Map<Seq<char>, Seq<u8>>>, i: int, k: Seq<char>) -> Seq<Map<Seq<char>, Seq<u8>>> {
    d.update(i, d[i].remove(k))
}

/// The key-value capability of one host: an owner id that its handles carry,
/// the provider identity it was set up with, the configuration snapshot, the
/// enabled backend kinds, and the backend instances opened so far, one per
/// logical name.
pub struct Keyvalue<B: KeyvalueImplementor> {
    owner: u64,
    implementor: Resource,
    capability_store: CapabilityStore,
    enabled: EnabledBackends,
    instances: Vec<Instance<B>>,
}

impl<B: KeyvalueImplementor> Keyvalue<B> {
    pub closed spec fn owner(self) -> u64 {
        self.owner
    }

    pub closed spec fn resource(self) -> Resource {
        self.implementor
    }

    pub closed spec fn store(self) -> CapabilityStore {
        self.capability_store
    }

    pub closed spec fn enabled(self) -> EnabledBackends {
        self.enabled
    }

    /// The logical names opened so far, by instance position.
    pub closed spec fn names(self) -> Seq<Seq<char>> {
        self.instances@.map_values(|x: Instance<B>| x.name@)
    }

    /// The data each instance holds, by instance position.
    pub closed spec fn data(self) -> Seq<Map<Seq<char>, Seq<u8>>> {
        self.instances@.map_values(|x: Instance<B>| x.backend.contents())
    }

    /// What each instance was built from, by instance position.
    pub closed spec fn origins(self) -> Seq<(KeyvalueImplementors, BasicState, Seq<char>)> {
        self.instances@.map_values(|x: Instance<B>| x.backend.origin())
    }

    /// The configuration that opening `name` uses: the entry under the name
    /// itself, else the entry under the provider identity's string.
    pub open spec fn config_for(self, name: Seq<char>) -> Option<BasicState> {
        match self.store().lookup(name, keyvalue_kind()) {
            Some(s) => Some(s),
            None => self.store().lookup(identity_of(self.resource()), keyvalue_kind()),
        }
    }

    /// Whether opening `n` finds a configuration that resolves to an enabled kind.
    pub open spec fn resolvable(self, n: Seq<char>) -> bool {
        &&& self.config_for(n) is Some
        &&& resolve(self.config_for(n)->Some_0.implementor, self.enabled()) is Some
    }

    /// What a backend opened under `n` is built from: the resolved kind, the
    /// configuration found for `n`, and `n` itself.
    pub open spec fn origin_for(self, n: Seq<char>) -> (KeyvalueImplementors, BasicState, Seq<char>) {
        (resolve(self.config_for(n)->Some_0.implementor, self.enabled())->Some_0, self.config_for(n)->Some_0, n)
    }

    pub closed spec fn wf(self) -> bool {
        &&& self.capability_store.wf()
        &&& forall|i: int, j: int|
            0 <= i < self.instances@.len() && 0 <= j < self.instances@.len()
                && #[trigger] self.instances@[i].name@ == #[trigger] self.instances@[j].name@ ==> i == j
        &&& forall|i: int| 0 <= i < self.instances@.len() ==> #[trigger] self.instances@[i].backend.wf()
        &&& forall|i: int| 0 <= i < self.instances@.len() ==> self.resolvable(#[trigger] self.instances@[i].name@)
            && self.instances@[i].backend.origin() == self.origin_for(self.instances@[i].name@)
    }

    /// What a well-formed front door keeps: one data map and one origin per
    /// opened name, and every opened name was found in the configuration and
    /// built from it.
    pub proof fn lemma_wf(self)
        requires
            self.wf(),
        ensures
            self.data().len() == self.names().len(),
            self.origins().len() == self.names().len(),
            forall|i: int| 0 <= i < self.names().len() ==> self.resolvable(#[trigger] self.names()[i])
                && self.origins()[i] == self.origin_for(self.names()[i]),
            forall|n: Seq<char>| #[trigger] live_slot(self.names(), n) is Some ==> self.resolvable(n),
    {
        assert forall|i: int| 0 <= i < self.names().len() implies self.resolvable(#[trigger] self.names()[i])
            && self.origins()[i] == self.origin_for(self.names()[i]) by {
            assert(self.names()[i] == self.instances@[i].name@);
        }
        assert forall|n: Seq<char>| #[trigger] live_slot(self.names(), n) is Some implies self.resolvable(n) by {
            let i = choose|i: int| 0 <= i < self.names().len() && self.names()[i] == n;
            assert(self.names()[i] == self.instances@[i].name@);
        }
    }

    /// `post` is `pre` with the backend at `i` replaced by one of the same
    /// origin that meets its invariant.
    proof fn lemma_replaced(pre: Self, post: Self, i: int)
        requires
            pre.wf(),
            0 <= i < pre.instances@.len(),
            post.owner == pre.owner,
            post.implementor == pre.implementor,
            post.capability_store == pre.capability_store,
            post.enabled == pre.enabled,
            post.instances@ == pre.instances@.update(i, post.instances@[i]),
            post.instances@[i].name@ == pre.instances@[i].name@,
            post.instances@[i].backend.wf(),
            post.instances@[i].backend.origin() == pre.instances@[i].backend.origin(),
        ensures
            post.wf(),
            post.names() == pre.names(),
            post.origins() == pre.origins(),
            post.data() == pre.data().update(i, post.instances@[i].backend.contents()),
    {
        assert forall|a: int| 0 <= a < post.instances@.len() && a != i implies #[trigger] post.instances@[a]
            == pre.instances@[a] by {}
        assert forall|a: int, b: int|
            0 <= a < post.instances@.len() && 0 <= b < post.instances@.len()
                && #[trigger] post.instances@[a].name@ == #[trigger] post.instances@[b].name@ implies a == b by {
            assert(pre.instances@[a].name@ == post.instances@[a].name@);
            assert(pre.instances@[b].name@ == post.instances@[b].name@);
        }
        assert forall|a: int| 0 <= a < post.instances@.len() implies #[trigger] post.instances@[a].backend.wf() by {}
        assert forall|a: int| 0 <= a < post.instances@.len() implies post.resolvable(#[trigger] post.instances@[a].name@)
            && post.instances@[a].backend.origin() == post.origin_for(post.instances@[a].name@) by {
            assert(pre.resolvable(pre.instances@[a].name@));
        }
        assert(post.names() =~= pre.names());
        assert(post.origins() =~= pre.origins());
        assert(post.data() =~= pre.data().update(i, post.instances@[i].backend.contents()));
    }

    /// Whether `h` was issued by this front door and names one of its instances.
    pub open spec fn valid(self, h: KeyvalueInner) -> bool {
        h.owner() == self.owner() && 0 <= h.slot() < self.names().len()
    }

    /// A capability with no instance opened yet, whose handles carry `owner`.
    /// Every store built by `CapabilityStore::new` and `CapabilityStore::add`
    /// meets `wf`.
    pub fn new(implementor: Resource, keyvalue_store: CapabilityStore, enabled: EnabledBackends, owner: u64) -> (r: Self)
        requires
            keyvalue_store.wf(),
        ensures
            r.wf(),
            r.owner() == owner,
            r.resource() == implementor,
            r.store() == keyvalue_store,
            r.enabled() == enabled,
            r.names().len() == 0,
            r.data().len() == 0,
    {
        Keyvalue { owner, implementor, capability_store: keyvalue_store, enabled, instances: Vec::new() }
    }

    fn find(&self, name: &String) -> (r: Option<usize>)
        requires
            self.wf(),
        ensures
            match r {
                Some(i) => live_slot(self.names(), name@) == Some(i as int),
                None => live_slot(self.names(), name@).is_none(),
            },
    {
        let mut i: usize = 0;
        while i < self.instances.len()
            invariant
                self.wf(),
                i <= self.instances@.len(),
                forall|j: int| 0 <= j < i ==> #[trigger] self.instances@[j].name@ != name@,
            decreases self.instances@.len() - i,
        {
            if self.instances[i].name == *name {
                proof {
                    assert(self.names()[i as int] == name@);
                    assert(self.names().len() == self.instances@.len());
                    let c = choose|c: int| 0 <= c < self.names().len() && self.names()[c] == name@;
                    assert(self.names()[c] == self.instances@[c].name@);
                    assert(self.instances@[c].name@ == self.instances@[i as int].name@);
                    assert(0 <= c < self.instances@.len());
                    assert(c == i);
                }
                return Some(i);
            }
            i = i + 1;
        }
        proof {
            assert forall|j: int| 0 <= j < self.names().len() implies self.names()[j] != name@ by {
                assert(self.names()[j] == self.instances@[j].name@);
            }
        }
        None
    }
    /// Opens the key-value resource `name`. A name opened before gets the handle
    /// of its live instance. Otherwise its configuration is looked up (under the
    /// name, else under the provider identity's string), resolved to an enabled
    /// backend kind, and a new backend instance is constructed for it from that
    /// kind, that configuration and the name.
    pub fn keyvalue_open(&mut self, name: &String) -> (r: Result<KeyvalueInner, KeyvalueError>)
        requires
            old(self).wf(),
        ensures
            final(self).wf(),
            final(self).owner() == old(self).owner(),
            final(self).resource() == old(self).resource(),
            final(self).store() == old(self).store(),
            final(self).enabled() == old(self).enabled(),
            old(self).config_for(name@) is None ==> r matches Err(KeyvalueError::NotFound),
            match r {
                Ok(h) => final(self).valid(h) && live_slot(final(self).names(), name@) == Some(h.slot()),
                Err(_) => final(self).names() == old(self).names() && final(self).data() == old(self).data()
                    && final(self).origins() == old(self).origins(),
            },
            match live_slot(old(self).names(), name@) {
                Some(i) => (r matches Ok(h) && h.slot() == i)
                    && final(self).names() == old(self).names() && final(self).data() == old(self).data()
                    && final(self).origins() == old(self).origins(),
                None => match old(self).config_for(name@) {
                    None => r matches Err(KeyvalueError::NotFound),
                    Some(st) => match resolve(st.implementor, old(self).enabled()) {
                        None => r matches Err(KeyvalueError::UnsupportedResource),
                        Some(k) => match r {
                            Ok(h) => h.slot() == old(self).names().len()
                                && final(self).names() == old(self).names().push(name@)
                                && final(self).data().drop_last() == old(self).data()
                                && final(self).origins() == old(self).origins().push((k, st, name@)),
                            Err(e) => e is BackendConstructionError,
                        },
                    },
                },
            },
    {
        proof {
            self.lemma_wf();
        }
        if let Some(i) = self.find(name) {
            return Ok(KeyvalueInner { owner: self.owner, slot: i });
        }
        let kind = "keyvalue".to_owned();
        let s = self.implementor.identity();
        let state = match self.capability_store.get(name, &kind) {
            Some(st) => st,
            None => match self.capability_store.get(&s, &kind) {
                Some(st) => st,
                None => return Err(KeyvalueError::NotFound),
            },
        };
        let k = match KeyvalueImplementors::from_resource(state.implementor, &self.enabled) {
            Some(k) => k,
            None => return Err(KeyvalueError::UnsupportedResource),
        };
        let backend = match B::construct(k, state, name) {
            Ok(b) => b,
            Err(e) => return Err(e),
        };
        let ghost pre = *self;
        let slot = self.instances.len();
        self.instances.push(Instance { name: name.clone(), backend });
        proof {
            assert(self.names() =~= pre.names().push(name@));
            assert(self.data().drop_last() =~= pre.data());
            assert(self.origins() =~= pre.origins().push((k, *state, name@)));
            assert(self.names()[slot as int] == name@);
            let c = choose|c: int| 0 <= c < self.names().len() && self.names()[c] == name@;
            if c < slot {
                assert(pre.names()[c] == name@);
            }
            assert(self.instances@ == pre.instances@.push(self.instances@[slot as int]));
            assert forall|a: int, b: int|
                0 <= a < self.instances@.len() && 0 <= b < self.instances@.len()
                    && #[trigger] self.instances@[a].name@ == #[trigger] self.instances@[b].name@ implies a == b by {
                if a < slot {
                    assert(pre.names()[a] == self.instances@[a].name@);
                }
                if b < slot {
                    assert(pre.names()[b] == self.instances@[b].name@);
                }
            }
            assert forall|a: int| 0 <= a < self.instances@.len() implies #[trigger] self.instances@[a].backend.wf()
                && self.resolvable(self.instances@[a].name@)
                && self.instances@[a].backend.origin() == self.origin_for(self.instances@[a].name@) by {
                if a < slot {
                    assert(self.instances@[a] == pre.instances@[a]);
                    assert(pre.resolvable(pre.instances@[a].name@));
                }
            }
        }
        Ok(KeyvalueInner { owner: self.owner, slot })
    }

    /// The value stored under `key` through handle `h`.
    pub fn keyvalue_get(&self, h: &KeyvalueInner, key: &String) -> (r: Result<Vec<u8>, KeyvalueError>)
        requires
            self.wf(),
        ensures
            self.valid(*h) ==> get_outcome(self.data()[h.slot()], key@, r),
            !self.valid(*h) ==> r matches Err(KeyvalueError::NotFound),
    {
        proof {
            self.lemma_wf();
        }
        if h.owner != self.owner || h.slot >= self.instances.len() {
            return Err(KeyvalueError::NotFound);
        }
        self.instances[h.slot].backend.get(key)
    }

    /// Every key stored through handle `h`, once each.
    pub fn keyvalue_keys(&self, h: &KeyvalueInner) -> (r: Result<Vec<String>, KeyvalueError>)
        requires
            self.wf(),
        ensures
            self.valid(*h) ==> match r {
                Ok(ks) => lists_keys(ks@, self.data()[h.slot()]),
                Err(e) => e is BackendError,
            },
            !self.valid(*h) ==> r matches Err(KeyvalueError::NotFound),
    {
        proof {
            self.lemma_wf();
        }
        if h.owner != self.owner || h.slot >= self.instances.len() {
            return Err(KeyvalueError::NotFound);
        }
        self.instances[h.slot].backend.keys()
    }

    /// Stores `value` under `key` through handle `h`.
    pub fn keyvalue_set(&mut self, h: &KeyvalueInner, key: &String, value: &Vec<u8>) -> (r: Result<(), KeyvalueError>)
        requires
            old(self).wf(),
        ensures
            final(self).wf(),
            final(self).owner() == old(self).owner(),
            final(self).resource() == old(self).resource(),
            final(self).store() == old(self).store(),
            final(self).enabled() == old(self).enabled(),
            final(self).names() == old(self).names(),
            final(self).origins() == old(self).origins(),
            match r {
                Ok(_) => old(self).valid(*h) && final(self).data() == set_in(old(self).data(), h.slot(), key@, value@),
                Err(e) => final(self).data() == old(self).data()
                    && (old(self).valid(*h) ==> e is BackendError)
                    && (!old(self).valid(*h) ==> e is NotFound),
            },
    {
        proof {
            self.lemma_wf();
        }
        if h.owner != self.owner || h.slot >= self.instances.len() {
            return Err(KeyvalueError::NotFound);
        }
        let ghost pre = *self;
        let r = self.instances[h.slot].backend.set(key, value);
        proof {
            Self::lemma_replaced(pre, *self, h.slot());
            if r is Ok {
                assert(self.data() =~= set_in(pre.data(), h.slot(), key@, value@));
            } else {
                assert(self.data() =~= pre.data());
            }
        }
        r
    }

    /// Removes `key` through handle `h`; a key that is not there is no error.
    pub fn keyvalue_delete(&mut self, h: &KeyvalueInner, key: &String) -> (r: Result<(), KeyvalueError>)
        requires
            old(self).wf(),
        ensures
            final(self).wf(),
            final(self).owner() == old(self).owner(),
            final(self).resource() == old(self).resource(),
            final(self).store() == old(self).store(),
            final(self).enabled() == old(self).enabled(),
            final(self).names() == old(self).names(),
            final(self).origins() == old(self).origins(),
            match r {
                Ok(_) => old(self).valid(*h) && final(self).data() == delete_in(old(self).data(), h.slot(), key@),
                Err(e) => final(self).data() == old(self).data()
                    && (old(self).valid(*h) ==> e is BackendError)
                    && (!old(self).valid(*h) ==> e is NotFound),
            },
    {
        proof {
            self.lemma_wf();
        }
        if h.owner != self.owner || h.slot >= self.instances.len() {
            return Err(KeyvalueError::NotFound);
        }
        let ghost pre = *self;
        let r = self.instances[h.slot].backend.delete(key);
        proof {
            Self::lemma_replaced(pre, *self, h.slot());
            if r is Ok {
                assert(self.data() =~= delete_in(pre.data(), h.slot(), key@));
            } else {
                assert(self.data() =~= pre.data());
            }
        }
        r
    }
}

} // verus!
