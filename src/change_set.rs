//! Change effects and the algorithm that applies a sequence of them to a map.
//!
//! Effects are applied in the order given. The first effect that does not fit
//! the map's current contents stops the application with an error; the effects
//! before it stay applied (partial application, not a transaction).

use crate::error::StorageError;
use crate::ordered_map::OrderedMap;
use vstd::prelude::*;

verus! {

/// The delta for one key.
#[derive(Debug, Clone, PartialEq, Eq)]
pub enum Op<V> {
    /// Insert a value under a key that has none.
    Create(V),
    /// Replace the value under a key that has one.
    Modify(V),
    /// Remove the value under a key that has one.
    Delete,
}

/// The map after applying `op` under `k`, or `None` where the effect does not fit.
pub open spec fn apply_op<V>(m: Map<Seq<u8>, V>, k: Seq<u8>, op: Op<V>) -> Option<Map<Seq<u8>, V>> {
    match op {
        Op::Create(v) => if m.contains_key(k) {
            None
        } else {
            Some(m.insert(k, v))
        },
        Op::Modify(v) => if m.contains_key(k) {
            Some(m.insert(k, v))
        } else {
            None
        },
        Op::Delete => if m.contains_key(k) {
            Some(m.remove(k))
        } else {
            None
        },
    }
}

/// Applies `cs` to `m` in order: the map after the last effect that fit, and
/// the index of the first effect that did not, if any.
pub open spec fn apply_all<V>(m: Map<Seq<u8>, V>, cs: Seq<(Vec<u8>, Op<V>)>) -> (Map<Seq<u8>, V>, Option<int>)
    decreases cs.len(),
{
    if cs.len() == 0 {
        (m, None)
    } else {
        let prev = apply_all(m, cs.drop_last());
        if prev.1 is Some {
            prev
        } else {
            match apply_op(prev.0, cs.last().0@, cs.last().1) {
                Some(next) => (next, None),
                None => (prev.0, Some(cs.len() - 1)),
            }
        }
    }
}

/// The error for an effect that did not fit.
pub open spec fn failure_of<V>(c: (Vec<u8>, Op<V>)) -> StorageError {
    match c.1 {
        Op::Create(_) => StorageError::DuplicateKeyOnCreate { key: c.0 },
        _ => StorageError::MissingKeyOnModifyOrDelete { key: c.0 },
    }
}

/// Applies `changes` to `map` in order. On failure the error names the first
/// effect that did not fit, and the effects before it remain applied.
pub fn apply_changes<V>(map: &mut OrderedMap<V>, changes: Vec<(Vec<u8>, Op<V>)>) -> (r: Result<(), StorageError>)
    requires
        old(map).wf(),
    ensures
        final(map).wf(),
        final(map)@ == apply_all(old(map)@, changes@).0,
        match r {
            Ok(()) => apply_all(old(map)@, changes@).1 is None,
            Err(e) => {
                let i = apply_all(old(map)@, changes@).1;
                &&& i is Some
                &&& 0 <= i->0 < changes@.len()
                &&& e == failure_of(changes@[i->0])
            },
        },
{
    let ghost start = map@;
    let ghost cs = changes@;
    let mut rest = changes;
    let total: usize = rest.len();
    let mut i: usize = 0;
    assert(cs.subrange(0, 0) =~= Seq::<(Vec<u8>, Op<V>)>::empty());
    assert(cs.subrange(0, cs.len() as int) =~= cs);
    while i < total
        invariant
            map.wf(),
            start == old(map)@,
            cs == changes@,
            total == cs.len(),
            i + rest@.len() == cs.len(),
            rest@ == cs.subrange(i as int, cs.len() as int),
            apply_all(start, cs.subrange(0, i as int)) == (map@, None::<int>),
        decreases rest@.len(),
    {
        let (k, op) = rest.remove(0);
        let ghost c = cs[i as int];
        assert(c == (k, op));
        assert(cs.subrange(0, i + 1).drop_last() =~= cs.subrange(0, i as int));
        let present = map.contains_key(k.as_slice());
        match op {
            Op::Create(v) => {
                if present {
                    proof {
                        lemma_apply_all_stops(start, cs, i as int);
                    }
                    return Err(StorageError::DuplicateKeyOnCreate { key: k });
                }
                map.insert(k, v);
            },
            Op::Modify(v) => {
                if !present {
                    proof {
                        lemma_apply_all_stops(start, cs, i as int);
                    }
                    return Err(StorageError::MissingKeyOnModifyOrDelete { key: k });
                }
                map.insert(k, v);
            },
            Op::Delete => {
                if !present {
                    proof {
                        lemma_apply_all_stops(start, cs, i as int);
                    }
                    return Err(StorageError::MissingKeyOnModifyOrDelete { key: k });
                }
                map.remove(k.as_slice());
            },
        }
        i = i + 1;
    }
    assert(cs.subrange(0, i as int) =~= cs);
    Ok(())
}

/// Once an effect fails, the later effects change nothing.
proof fn lemma_apply_all_stops<V>(m: Map<Seq<u8>, V>, cs: Seq<(Vec<u8>, Op<V>)>, i: int)
    requires
        0 <= i < cs.len(),
        apply_all(m, cs.subrange(0, i)).1 is None,
        apply_op(apply_all(m, cs.subrange(0, i)).0, cs[i].0@, cs[i].1) is None,
    ensures
        apply_all(m, cs) == (apply_all(m, cs.subrange(0, i)).0, Some(i)),
    decreases cs.len(),
{
    if i == cs.len() - 1 {
        assert(cs.drop_last() =~= cs.subrange(0, i));
    } else {
        assert(cs.drop_last().subrange(0, i) =~= cs.subrange(0, i));
        lemma_apply_all_stops(m, cs.drop_last(), i);
    }
}

} // verus!
