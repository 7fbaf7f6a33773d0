//! What holds across calls of the front door, stated over the models that the
//! operations' contracts use.
use vstd::prelude::*;
use crate::error::KeyvalueError;
use crate::implementors::{get_outcome, lists_keys};
use crate::keyvalue::{delete_in, live_slot, set_in};

verus! {

/// After `set(h, k, v)` succeeds, a `get(h, k)` that succeeds returns exactly `v`,
/// and it never reports the key missing.
pub proof fn set_then_get(
    d: Seq<Map<Seq<char>, Seq<u8>>>,
    i: int,
    k: Seq<char>,
    v: Seq<u8>,
    r: Result<Vec<u8>, KeyvalueError>,
)
    requires
        0 <= i < d.len(),
        get_outcome(set_in(d, i, k, v)[i], k, r),
    ensures
        r is Ok ==> r->Ok_0@ == v,
        !(r matches Err(KeyvalueError::NotFound)),
{
}

/// After `delete(h, k)` succeeds, `get(h, k)` finds nothing, whether or not the
/// key was there: it reports `NotFound` unless the backend itself fails.
pub proof fn delete_then_get(
    d: Seq<Map<Seq<char>, Seq<u8>>>,
    i: int,
    k: Seq<char>,
    r: Result<Vec<u8>, KeyvalueError>,
)
    requires
        0 <= i < d.len(),
        get_outcome(delete_in(d, i, k)[i], k, r),
    ensures
        r matches Err(KeyvalueError::NotFound) || r matches Err(KeyvalueError::BackendError(_)),
{
}

/// Deleting a key that was never set changes nothing.
pub proof fn delete_absent_is_noop(d: Seq<Map<Seq<char>, Seq<u8>>>, i: int, k: Seq<char>)
    requires
        0 <= i < d.len(),
        !d[i].contains_key(k),
    ensures
        delete_in(d, i, k) == d,
{
    assert(d[i].remove(k) =~= d[i]);
    assert(delete_in(d, i, k) =~= d);
}

/// Two handles opened under one name reach the same instance: a value set
/// through the first is what a successful get through the second returns.
pub proof fn reopen_shares_instance(
    names: Seq<Seq<char>>,
    d: Seq<Map<Seq<char>, Seq<u8>>>,
    n: Seq<char>,
    i1: int,
    i2: int,
    k: Seq<char>,
    v: Seq<u8>,
    r: Result<Vec<u8>, KeyvalueError>,
)
    requires
        names.len() == d.len(),
        live_slot(names, n) == Some(i1),
        live_slot(names, n) == Some(i2),
        0 <= i1 < d.len(),
        get_outcome(set_in(d, i1, k, v)[i2], k, r),
    ensures
        i1 == i2,
        r is Ok ==> r->Ok_0@ == v,
        !(r matches Err(KeyvalueError::NotFound)),
{
}

/// After setting keys `a`, `b` and `c` on a fresh instance, with no delete
/// between, the listed keys are exactly `{a, b, c}`.
pub proof fn keys_after_sets(
    a: Seq<char>,
    b: Seq<char>,
    c: Seq<char>,
    va: Seq<u8>,
    vb: Seq<u8>,
    vc: Seq<u8>,
    ks: Seq<String>,
)
    requires
        lists_keys(ks, Map::<Seq<char>, Seq<u8>>::empty().insert(a, va).insert(b, vb).insert(c, vc)),
    ensures
        ks.map_values(|s: String| s@).to_set() == set![a, b, c],
{
    let m = Map::<Seq<char>, Seq<u8>>::empty().insert(a, va).insert(b, vb).insert(c, vc);
    let vs = ks.map_values(|s: String| s@);
    assert forall|x: Seq<char>| vs.to_set().contains(x) <==> set![a, b, c].contains(x) by {
        if vs.to_set().contains(x) {
            let j = choose|j: int| 0 <= j < vs.len() && vs[j] == x;
            assert(ks[j]@ == x);
            assert(m.contains_key(x));
        }
        if set![a, b, c].contains(x) {
            assert(m.contains_key(x));
            let j = choose|j: int| 0 <= j < ks.len() && #[trigger] ks[j]@ == x;
            assert(vs[j] == x);
        }
    }
    assert(vs.to_set() =~= set![a, b, c]);
}

} // verus!
