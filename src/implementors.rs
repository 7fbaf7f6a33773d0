//! The interface every key-value backend satisfies, and an in-process backend
//! that keeps its data in memory.
use vstd::prelude::*;
use crate::error::KeyvalueError;
use crate::resource::KeyvalueImplementors;
use crate::store::BasicState;

verus! {

/// What a `get` may return from a backend holding `m`: the stored value, `NotFound`
/// exactly where the key is absent, or a backend failure.
pub open spec fn get_outcome(m: Map<Seq<char>, Seq<u8>>, k: Seq<char>, r: Result<Vec<u8>, KeyvalueError>) -> bool {
    match r {
        Ok(v) => m.contains_key(k) && m[k] == v@,
        Err(KeyvalueError::NotFound) => !m.contains_key(k),
        Err(KeyvalueError::BackendError(_)) => true,
        Err(_) => false,
    }
}

/// `ks` lists each key of `m` once, and nothing else.
pub open spec fn lists_keys(ks: Seq<String>, m: Map<Seq<char>, Seq<u8>>) -> bool {
    &&& forall|k: Seq<char>| m.contains_key(k) <==> exists|i: int| 0 <= i < ks.len() && #[trigger] ks[i]@ == k
    &&& forall|i: int, j: int| 0 <= i < ks.len() && 0 <= j < ks.len() && #[trigger] ks[i]@ == #[trigger] ks[j]@ ==> i == j
}

/// A key-value backend: a map from string keys to byte values.
pub trait KeyvalueImplementor: Sized {
    /// The data the backend holds.
    spec fn contents(&self) -> Map<Seq<char>, Seq<u8>>;

    /// The backend's internal invariant.
    spec fn wf(&self) -> bool;

    /// What the backend was built from: its kind, its configuration and the
    /// logical name it serves.
    spec fn origin(&self) -> (KeyvalueImplementors, BasicState, Seq<char>);

    /// Builds the backend of kind `kind` for the logical name `name` from its configuration.
    fn construct(kind: KeyvalueImplementors, state: &BasicState, name: &String) -> (r: Result<Self, KeyvalueError>)
        ensures
            match r {
                Ok(b) => b.wf() && b.origin() == (kind, *state, name@),
                Err(e) => e is BackendConstructionError,
            },
    ;

    /// The value stored under `key`.
    fn get(&self, key: &String) -> (r: Result<Vec<u8>, KeyvalueError>)
        requires
            self.wf(),
        ensures
            get_outcome(self.contents(), key@, r),
    ;

    /// Stores `value` under `key`.
    fn set(&mut self, key: &String, value: &Vec<u8>) -> (r: Result<(), KeyvalueError>)
        requires
            old(self).wf(),
        ensures
            final(self).wf(),
            final(self).origin() == old(self).origin(),
            match r {
                Ok(_) => final(self).contents() == old(self).contents().insert(key@, value@),
                Err(e) => e is BackendError && final(self).contents() == old(self).contents(),
            },
    ;

    /// Every key stored.
    fn keys(&self) -> (r: Result<Vec<String>, KeyvalueError>)
        requires
            self.wf(),
        ensures
            match r {
                Ok(ks) => lists_keys(ks@, self.contents()),
                Err(e) => e is BackendError,
            },
    ;

    /// Removes `key`; a key that is not there is no error.
    fn delete(&mut self, key: &String) -> (r: Result<(), KeyvalueError>)
        requires
            old(self).wf(),
        ensures
            final(self).wf(),
            final(self).origin() == old(self).origin(),
            match r {
                Ok(_) => final(self).contents() == old(self).contents().remove(key@),
                Err(e) => e is BackendError && final(self).contents() == old(self).contents(),
            },
    ;
}

/// A copy of the bytes of `v`.
fn copy_bytes(v: &Vec<u8>) -> (r: Vec<u8>)
    ensures
        r@ == v@,
{
    let mut r: Vec<u8> = Vec::new();
    let mut i: usize = 0;
    while i < v.len()
        invariant
            i <= v@.len(),
            r@ == v@.subrange(0, i as int),
        decreases v@.len() - i,
    {
        r.push(v[i]);
        i = i + 1;
        assert(r@ =~= v@.subrange(0, i as int));
    }
    assert(r@ =~= v@);
    r
}

/// A backend that keeps its data in this process's memory.
pub struct MemoryImplementor {
    entries: Vec<(String, Vec<u8>)>,
    built_from: Ghost<(KeyvalueImplementors, BasicState, Seq<char>)>,
}

impl MemoryImplementor {
    pub closed spec fn entries(self) -> Seq<(String, Vec<u8>)> {
        self.entries@
    }

    pub closed spec fn source(self) -> (KeyvalueImplementors, BasicState, Seq<char>) {
        self.built_from@
    }

    /// No key is stored twice.
    pub open spec fn unique(self) -> bool {
        forall|i: int, j: int|
            0 <= i < self.entries().len() && 0 <= j < self.entries().len()
                && #[trigger] self.entries()[i].0@ == #[trigger] self.entries()[j].0@ ==> i == j
    }

    pub open spec fn holds(self, k: Seq<char>) -> bool {
        exists|i: int| 0 <= i < self.entries().len() && #[trigger] self.entries()[i].0@ == k
    }

    pub open spec fn data(self) -> Map<Seq<char>, Seq<u8>> {
        Map::new(
            |k: Seq<char>| self.holds(k),
            |k: Seq<char>|
                self.entries()[choose|i: int| 0 <= i < self.entries().len() && #[trigger] self.entries()[i].0@ == k].1@,
        )
    }

    proof fn lemma_at(self, i: int)
        requires
            self.unique(),
            0 <= i < self.entries().len(),
        ensures
            self.data().contains_key(self.entries()[i].0@),
            self.data()[self.entries()[i].0@] == self.entries()[i].1@,
    {
        let k = self.entries()[i].0@;
        assert(self.holds(k));
        let c = choose|j: int| 0 <= j < self.entries().len() && #[trigger] self.entries()[j].0@ == k;
        assert(c == i);
    }

    /// An empty store serving `name`, as backend kind `kind` configured by `state`.
    pub fn new(kind: KeyvalueImplementors, state: &BasicState, name: &String) -> (r: Self)
        ensures
            r.unique(),
            r.data() == Map::<Seq<char>, Seq<u8>>::empty(),
            r.source() == (kind, *state, name@),
    {
        let r = MemoryImplementor { entries: Vec::new(), built_from: Ghost((kind, *state, name@)) };
        assert(r.data() =~= Map::<Seq<char>, Seq<u8>>::empty());
        r
    }

    fn position(&self, key: &String) -> (r: Option<usize>)
        ensures
            match r {
                Some(i) => i < self.entries().len() && self.entries()[i as int].0@ == key@,
                None => !self.holds(key@),
            },
    {
        let mut i: usize = 0;
        while i < self.entries.len()
            invariant
                i <= self.entries@.len(),
                forall|j: int| 0 <= j < i ==> #[trigger] self.entries@[j].0@ != key@,
            decreases self.entries@.len() - i,
        {
            if self.entries[i].0 == *key {
                return Some(i);
            }
            i = i + 1;
        }
        None
    }

    /// The value stored under `key`, or `NotFound`.
    pub fn lookup(&self, key: &String) -> (r: Result<Vec<u8>, KeyvalueError>)
        requires
            self.unique(),
        ensures
            match r {
                Ok(v) => self.data().contains_key(key@) && self.data()[key@] == v@,
                Err(e) => e is NotFound && !self.data().contains_key(key@),
            },
    {
        match self.position(key) {
            Some(i) => {
                proof { self.lemma_at(i as int); }
                Ok(copy_bytes(&self.entries[i].1))
            },
            None => Err(KeyvalueError::NotFound),
        }
    }

    /// Stores `value` under `key`, replacing what was there.
    pub fn store(&mut self, key: &String, value: &Vec<u8>)
        requires
            old(self).unique(),
        ensures
            final(self).unique(),
            final(self).source() == old(self).source(),
            final(self).data() == old(self).data().insert(key@, value@),
    {
        let ghost pre = *self;
        let v = copy_bytes(value);
        let k = key.clone();
        match self.position(key) {
            Some(i) => {
                self.entries.set(i, (k, v));
                assert(self.unique()) by {
                    assert forall|a: int, b: int|
                        0 <= a < self.entries().len() && 0 <= b < self.entries().len()
                            && #[trigger] self.entries()[a].0@ == #[trigger] self.entries()[b].0@ implies a == b by {
                        assert(self.entries()[a].0@ == pre.entries()[a].0@);
                        assert(self.entries()[b].0@ == pre.entries()[b].0@);
                    }
                }
                assert forall|q: Seq<char>| #![auto] self.holds(q) == pre.data().insert(key@, value@).contains_key(q) by {
                    if self.holds(q) {
                        let j = choose|j: int| 0 <= j < self.entries().len() && #[trigger] self.entries()[j].0@ == q;
                        assert(pre.entries()[j].0@ == q);
                    }
                    if pre.holds(q) {
                        let j = choose|j: int| 0 <= j < pre.entries().len() && #[trigger] pre.entries()[j].0@ == q;
                        assert(self.entries()[j].0@ == q);
                    }
                    assert(self.entries()[i as int].0@ == key@);
                }
                assert forall|q: Seq<char>| #![auto] self.holds(q) implies self.data()[q] == pre.data().insert(key@, value@)[q] by {
                    let j = choose|j: int| 0 <= j < self.entries().len() && #[trigger] self.entries()[j].0@ == q;
                    self.lemma_at(j);
                    if q != key@ {
                        pre.lemma_at(j);
                    }
                }
            },
            None => {
                self.entries.push((k, v));
                assert(self.entries() == pre.entries().push((k, v)));
                assert forall|q: Seq<char>| #![auto] self.holds(q) == pre.data().insert(key@, value@).contains_key(q) by {
                    if self.holds(q) {
                        let j = choose|j: int| 0 <= j < self.entries().len() && #[trigger] self.entries()[j].0@ == q;
                        if j < pre.entries().len() {
                            assert(pre.entries()[j].0@ == q);
                        }
                    }
                    if pre.holds(q) {
                        let j = choose|j: int| 0 <= j < pre.entries().len() && #[trigger] pre.entries()[j].0@ == q;
                        assert(self.entries()[j].0@ == q);
                    }
                    assert(self.entries()[pre.entries().len() as int].0@ == key@);
                }
                assert forall|q: Seq<char>| #![auto] self.holds(q) implies self.data()[q] == pre.data().insert(key@, value@)[q] by {
                    let j = choose|j: int| 0 <= j < self.entries().len() && #[trigger] self.entries()[j].0@ == q;
                    self.lemma_at(j);
                    if j < pre.entries().len() {
                        pre.lemma_at(j);
                    }
                }
            },
        }
        assert(self.data() =~= pre.data().insert(key@, value@));
    }

    /// Removes `key`, if it is there.
    pub fn remove(&mut self, key: &String)
        requires
            old(self).unique(),
        ensures
            final(self).unique(),
            final(self).source() == old(self).source(),
            final(self).data() == old(self).data().remove(key@),
    {
        let ghost pre = *self;
        match self.position(key) {
            Some(i) => {
                self.entries.remove(i);
                assert(self.entries() == pre.entries().remove(i as int));
                assert forall|a: int| 0 <= a < self.entries().len() implies #[trigger] self.entries()[a]
                    == pre.entries()[if a < i { a } else { a + 1 }] by {}
                assert(self.unique()) by {
                    assert forall|a: int, b: int|
                        0 <= a < self.entries().len() && 0 <= b < self.entries().len()
                            && #[trigger] self.entries()[a].0@ == #[trigger] self.entries()[b].0@ implies a == b by {
                        let a2 = if a < i { a } else { a + 1 };
                        let b2 = if b < i { b } else { b + 1 };
                        assert(pre.entries()[a2].0@ == pre.entries()[b2].0@);
                    }
                }
                assert forall|q: Seq<char>| #![auto] self.holds(q) == pre.data().remove(key@).contains_key(q) by {
                    if self.holds(q) {
                        let j = choose|j: int| 0 <= j < self.entries().len() && #[trigger] self.entries()[j].0@ == q;
                        let j2 = if j < i { j } else { j + 1 };
                        assert(pre.entries()[j2].0@ == q);
                        assert(j2 != i);
                    }
                    if pre.holds(q) && q != key@ {
                        let j = choose|j: int| 0 <= j < pre.entries().len() && #[trigger] pre.entries()[j].0@ == q;
                        assert(j != i);
                        let j2 = if j < i { j } else { j - 1 };
                        assert(self.entries()[j2].0@ == q);
                    }
                }
                assert forall|q: Seq<char>| #![auto] self.holds(q) implies self.data()[q] == pre.data().remove(key@)[q] by {
                    let j = choose|j: int| 0 <= j < self.entries().len() && #[trigger] self.entries()[j].0@ == q;
                    self.lemma_at(j);
                    let j2 = if j < i { j } else { j + 1 };
                    pre.lemma_at(j2);
                }
            },
            None => {
                assert forall|q: Seq<char>| #![auto] pre.data().remove(key@).contains_key(q) == pre.data().contains_key(q) by {}
            },
        }
        assert(self.data() =~= pre.data().remove(key@));
    }

    /// Every key stored, once each.
    pub fn key_list(&self) -> (r: Vec<String>)
        requires
            self.unique(),
        ensures
            lists_keys(r@, self.data()),
    {
        let mut r: Vec<String> = Vec::new();
        let mut i: usize = 0;
        while i < self.entries.len()
            invariant
                i <= self.entries@.len(),
                r@.len() == i,
                forall|j: int| 0 <= j < i ==> #[trigger] r@[j]@ == self.entries@[j].0@,
            decreases self.entries@.len() - i,
        {
            r.push(self.entries[i].0.clone());
            i = i + 1;
        }
        assert forall|k: Seq<char>| self.data().contains_key(k) <==> exists|j: int| 0 <= j < r@.len() && #[trigger] r@[j]@ == k by {
            if self.holds(k) {
                let j = choose|j: int| 0 <= j < self.entries().len() && #[trigger] self.entries()[j].0@ == k;
                assert(r@[j]@ == k);
            }
            if exists|j: int| 0 <= j < r@.len() && #[trigger] r@[j]@ == k {
                let j = choose|j: int| 0 <= j < r@.len() && #[trigger] r@[j]@ == k;
                assert(self.entries()[j].0@ == k);
            }
        }
        assert forall|a: int, b: int| 0 <= a < r@.len() && 0 <= b < r@.len() && #[trigger] r@[a]@ == #[trigger] r@[b]@ implies a == b by {
            assert(self.entries()[a].0@ == self.entries()[b].0@);
        }
        r
    }
}

impl KeyvalueImplementor for MemoryImplementor {
    open spec fn contents(&self) -> Map<Seq<char>, Seq<u8>> {
        self.data()
    }

    open spec fn wf(&self) -> bool {
        self.unique()
    }

    open spec fn origin(&self) -> (KeyvalueImplementors, BasicState, Seq<char>) {
        self.source()
    }

    /// An in-memory backend starts empty, whatever its configuration.
    fn construct(kind: KeyvalueImplementors, state: &BasicState, name: &String) -> (r: Result<Self, KeyvalueError>) {
        Ok(MemoryImplementor::new(kind, state, name))
    }

    fn get(&self, key: &String) -> (r: Result<Vec<u8>, KeyvalueError>) {
        self.lookup(key)
    }

    fn set(&mut self, key: &String, value: &Vec<u8>) -> (r: Result<(), KeyvalueError>) {
        self.store(key, value);
        Ok(())
    }

    fn keys(&self) -> (r: Result<Vec<String>, KeyvalueError>) {
        Ok(self.key_list())
    }

    fn delete(&mut self, key: &String) -> (r: Result<(), KeyvalueError>) {
        self.remove(key);
        Ok(())
    }
}

} // verus!
