//! A map from byte-string keys to values, kept as a vector of entries in
//! strictly increasing key order, so that walking it is deterministic.

use crate::key_order::{
    compare_bytes, lemma_lex_irreflexive, lemma_lex_transitive, lex_lt, KeyOrder,
};
use vstd::prelude::*;

verus! {

/// Entries are in strictly increasing key order.
pub open spec fn sorted_entries<V>(s: Seq<(Vec<u8>, V)>) -> bool {
    forall|i: int, j: int| 0 <= i < j < s.len() ==> lex_lt(#[trigger] s[i].0@, #[trigger] s[j].0@)
}

/// `s` holds an entry with key `k`.
pub open spec fn has_key<V>(s: Seq<(Vec<u8>, V)>, k: Seq<u8>) -> bool {
    exists|i: int| 0 <= i < s.len() && #[trigger] s[i].0@ == k
}

/// The key-to-value mapping that the entries describe.
pub open spec fn entries_map<V>(s: Seq<(Vec<u8>, V)>) -> Map<Seq<u8>, V> {
    Map::new(
        |k: Seq<u8>| has_key(s, k),
        |k: Seq<u8>| s[choose|i: int| 0 <= i < s.len() && #[trigger] s[i].0@ == k].1,
    )
}

proof fn lemma_map_at<V>(s: Seq<(Vec<u8>, V)>, i: int)
    requires
        sorted_entries(s),
        0 <= i < s.len(),
    ensures
        entries_map(s).contains_key(s[i].0@),
        entries_map(s)[s[i].0@] == s[i].1,
{
    let k = s[i].0@;
    assert(has_key(s, k));
    let j = choose|j: int| 0 <= j < s.len() && #[trigger] s[j].0@ == k;
    lemma_lex_irreflexive(k);
    if j < i {
        assert(lex_lt(s[j].0@, s[i].0@));
    } else if j > i {
        assert(lex_lt(s[i].0@, s[j].0@));
    }
    assert(entries_map(s)[k] == s[j].1);
}

proof fn lemma_map_absent<V>(s: Seq<(Vec<u8>, V)>, k: Seq<u8>)
    requires
        forall|i: int| 0 <= i < s.len() ==> #[trigger] s[i].0@ != k,
    ensures
        !entries_map(s).contains_key(k),
{
}

proof fn lemma_map_insert_at<V>(s: Seq<(Vec<u8>, V)>, i: int, k: Vec<u8>, v: V)
    requires
        sorted_entries(s),
        0 <= i <= s.len(),
        forall|j: int| 0 <= j < i ==> lex_lt(#[trigger] s[j].0@, k@),
        forall|j: int| i <= j < s.len() ==> lex_lt(k@, #[trigger] s[j].0@),
    ensures
        sorted_entries(s.insert(i, (k, v))),
        entries_map(s.insert(i, (k, v))) == entries_map(s).insert(k@, v),
{
    let t = s.insert(i, (k, v));
    assert forall|a: int, b: int| 0 <= a < b < t.len() implies lex_lt(
        #[trigger] t[a].0@,
        #[trigger] t[b].0@,
    ) by {
        if a < i && b > i {
            lemma_lex_transitive(s[a].0@, k@, s[b - 1].0@);
        }
    }
    let m = entries_map(s).insert(k@, v);
    assert forall|kk: Seq<u8>| #[trigger] m.contains_key(kk) implies entries_map(t).contains_key(kk)
        && entries_map(t)[kk] == m[kk] by {
        if kk == k@ {
            lemma_map_at(t, i);
        } else {
            let j = choose|j: int| 0 <= j < s.len() && #[trigger] s[j].0@ == kk;
            lemma_map_at(s, j);
            if j < i {
                lemma_map_at(t, j);
            } else {
                lemma_map_at(t, j + 1);
            }
        }
    }
    assert forall|kk: Seq<u8>| #[trigger] entries_map(t).contains_key(kk) implies m.contains_key(
        kk,
    ) by {
        let j = choose|j: int| 0 <= j < t.len() && #[trigger] t[j].0@ == kk;
        if j < i {
            assert(s[j].0@ == kk);
        } else if j > i {
            assert(s[j - 1].0@ == kk);
        }
    }
    assert(entries_map(t) =~= m);
}

proof fn lemma_map_update_at<V>(s: Seq<(Vec<u8>, V)>, i: int, k: Vec<u8>, v: V)
    requires
        sorted_entries(s),
        0 <= i < s.len(),
        s[i].0@ == k@,
    ensures
        sorted_entries(s.update(i, (k, v))),
        entries_map(s.update(i, (k, v))) == entries_map(s).insert(k@, v),
{
    let t = s.update(i, (k, v));
    assert forall|a: int, b: int| 0 <= a < b < t.len() implies lex_lt(
        #[trigger] t[a].0@,
        #[trigger] t[b].0@,
    ) by {
        assert(lex_lt(s[a].0@, s[b].0@));
    }
    let m = entries_map(s).insert(k@, v);
    assert forall|kk: Seq<u8>| #[trigger] m.contains_key(kk) implies entries_map(t).contains_key(kk)
        && entries_map(t)[kk] == m[kk] by {
        if kk == k@ {
            lemma_map_at(t, i);
        } else {
            let j = choose|j: int| 0 <= j < s.len() && #[trigger] s[j].0@ == kk;
            lemma_map_at(s, j);
            lemma_map_at(t, j);
        }
    }
    assert forall|kk: Seq<u8>| #[trigger] entries_map(t).contains_key(kk) implies m.contains_key(
        kk,
    ) by {
        let j = choose|j: int| 0 <= j < t.len() && #[trigger] t[j].0@ == kk;
        if j != i {
            assert(s[j].0@ == kk);
        }
    }
    assert(entries_map(t) =~= m);
}

proof fn lemma_map_remove_at<V>(s: Seq<(Vec<u8>, V)>, i: int)
    requires
        sorted_entries(s),
        0 <= i < s.len(),
    ensures
        sorted_entries(s.remove(i)),
        entries_map(s.remove(i)) == entries_map(s).remove(s[i].0@),
{
    let t = s.remove(i);
    let k = s[i].0@;
    assert forall|a: int, b: int| 0 <= a < b < t.len() implies lex_lt(
        #[trigger] t[a].0@,
        #[trigger] t[b].0@,
    ) by {
        if a < i && b >= i {
            assert(lex_lt(s[a].0@, s[b + 1].0@));
        } else if a >= i {
            assert(lex_lt(s[a + 1].0@, s[b + 1].0@));
        }
    }
    let m = entries_map(s).remove(k);
    assert forall|kk: Seq<u8>| #[trigger] m.contains_key(kk) implies entries_map(t).contains_key(kk)
        && entries_map(t)[kk] == m[kk] by {
        let j = choose|j: int| 0 <= j < s.len() && #[trigger] s[j].0@ == kk;
        lemma_map_at(s, j);
        if j < i {
            lemma_map_at(t, j);
        } else {
            assert(j != i);
            lemma_map_at(t, j - 1);
        }
    }
    assert forall|kk: Seq<u8>| #[trigger] entries_map(t).contains_key(kk) implies m.contains_key(
        kk,
    ) by {
        let j = choose|j: int| 0 <= j < t.len() && #[trigger] t[j].0@ == kk;
        if j < i {
            assert(s[j].0@ == kk);
            assert(lex_lt(s[j].0@, s[i].0@));
            lemma_lex_irreflexive(kk);
        } else {
            assert(s[j + 1].0@ == kk);
            assert(lex_lt(s[i].0@, s[j + 1].0@));
            lemma_lex_irreflexive(kk);
        }
    }
    assert(entries_map(t) =~= m);
}

/// A map keyed by byte strings, walked in increasing key order.
pub struct OrderedMap<V> {
    entries: Vec<(Vec<u8>, V)>,
}

impl<V> View for OrderedMap<V> {
    type V = Map<Seq<u8>, V>;

    closed spec fn view(&self) -> Map<Seq<u8>, V> {
        entries_map(self.entries@)
    }
}

impl<V> OrderedMap<V> {
    /// The entries are kept in strictly increasing key order.
    pub closed spec fn wf(&self) -> bool {
        sorted_entries(self.entries@)
    }

    /// An empty map.
    pub fn new() -> (r: Self)
        ensures
            r.wf(),
            r@ == Map::<Seq<u8>, V>::empty(),
    {
        let r = OrderedMap { entries: Vec::new() };
        assert(r@ =~= Map::<Seq<u8>, V>::empty());
        r
    }

    /// Number of keys.
    pub fn len(&self) -> (r: usize)
        requires
            self.wf(),
        ensures
            r == self@.len(),
    {
        proof {
            self.lemma_dom_len();
        }
        self.entries.len()
    }

    proof fn lemma_dom_len(&self)
        requires
            self.wf(),
        ensures
            self@.dom().len() == self.entries@.len(),
            self@.dom().finite(),
        decreases self.entries@.len(),
    {
        let s = self.entries@;
        let keys = s.map_values(|e: (Vec<u8>, V)| e.0@);
        assert forall|a: int, b: int| 0 <= a < b < keys.len() implies keys[a] != keys[b] by {
            assert(lex_lt(s[a].0@, s[b].0@));
            lemma_lex_irreflexive(s[a].0@);
        }
        keys.unique_seq_to_set();
        assert forall|kk: Seq<u8>| #[trigger] self@.dom().contains(kk) <==> keys.to_set().contains(kk)
            by {
            if self@.dom().contains(kk) {
                let j = choose|j: int| 0 <= j < s.len() && #[trigger] s[j].0@ == kk;
                assert(keys[j] == kk);
            }
            if keys.to_set().contains(kk) {
                let j = choose|j: int| 0 <= j < keys.len() && keys[j] == kk;
                assert(s[j].0@ == kk);
            }
        }
        assert(self@.dom() =~= keys.to_set());
    }

    /// Where `k` stands: `Ok(i)` when entry `i` has key `k`, else `Err(i)`
    /// where `i` is the position at which `k` would be inserted.
    fn find(&self, k: &[u8]) -> (r: Result<usize, usize>)
        requires
            self.wf(),
        ensures
            match r {
                Ok(i) => i < self.entries@.len() && self.entries@[i as int].0@ == k@,
                Err(i) => i <= self.entries@.len() && (forall|j: int|
                    0 <= j < i ==> lex_lt(#[trigger] self.entries@[j].0@, k@)) && (forall|j: int|
                    i <= j < self.entries@.len() ==> lex_lt(k@, #[trigger] self.entries@[j].0@)),
            },
    {
        let mut i: usize = 0;
        while i < self.entries.len()
            invariant
                self.wf(),
                i <= self.entries@.len(),
                forall|j: int| 0 <= j < i ==> lex_lt(#[trigger] self.entries@[j].0@, k@),
            decreases self.entries@.len() - i,
        {
            let c = compare_bytes(self.entries[i].0.as_slice(), k);
            match c {
                KeyOrder::Equal => {
                    return Ok(i);
                },
                KeyOrder::Greater => {
                    proof {
                        let s = self.entries@;
                        assert forall|j: int| i <= j < s.len() implies lex_lt(
                            k@,
                            #[trigger] s[j].0@,
                        ) by {
                            if j > i {
                                lemma_lex_transitive(k@, s[i as int].0@, s[j].0@);
                            }
                        }
                    }
                    return Err(i);
                },
                KeyOrder::Less => {
                    i = i + 1;
                },
            }
        }
        Err(i)
    }

    proof fn lemma_absent_at(&self, k: Seq<u8>, i: int)
        requires
            self.wf(),
            0 <= i <= self.entries@.len(),
            forall|j: int| 0 <= j < i ==> lex_lt(#[trigger] self.entries@[j].0@, k),
            forall|j: int| i <= j < self.entries@.len() ==> lex_lt(k, #[trigger] self.entries@[j].0@),
        ensures
            !self@.contains_key(k),
    {
        let s = self.entries@;
        assert forall|j: int| 0 <= j < s.len() implies #[trigger] s[j].0@ != k by {
            lemma_lex_irreflexive(k);
            if j < i {
                assert(lex_lt(s[j].0@, k));
            } else {
                assert(lex_lt(k, s[j].0@));
            }
        }
        lemma_map_absent(s, k);
    }

    /// Whether `k` has a value.
    pub fn contains_key(&self, k: &[u8]) -> (r: bool)
        requires
            self.wf(),
        ensures
            r == self@.contains_key(k@),
    {
        match self.find(k) {
            Ok(i) => {
                proof {
                    lemma_map_at(self.entries@, i as int);
                }
                true
            },
            Err(i) => {
                proof {
                    self.lemma_absent_at(k@, i as int);
                }
                false
            },
        }
    }

    /// The value under `k`, if any.
    pub fn get(&self, k: &[u8]) -> (r: Option<&V>)
        requires
            self.wf(),
        ensures
            match r {
                Some(v) => self@.contains_key(k@) && self@[k@] == *v,
                None => !self@.contains_key(k@),
            },
    {
        match self.find(k) {
            Ok(i) => {
                proof {
                    lemma_map_at(self.entries@, i as int);
                }
                Some(&self.entries[i].1)
            },
            Err(i) => {
                proof {
                    self.lemma_absent_at(k@, i as int);
                }
                None
            },
        }
    }

    /// Sets the value under `k`, replacing any value that was there.
    pub fn insert(&mut self, k: Vec<u8>, v: V)
        requires
            old(self).wf(),
        ensures
            final(self).wf(),
            final(self)@ == old(self)@.insert(k@, v),
    {
        match self.find(k.as_slice()) {
            Ok(i) => {
                proof {
                    lemma_map_update_at(self.entries@, i as int, k, v);
                }
                let ghost before = self.entries@;
                self.entries.remove(i);
                self.entries.insert(i, (k, v));
                assert(self.entries@ =~= before.update(i as int, (k, v)));
            },
            Err(i) => {
                proof {
                    lemma_map_insert_at(self.entries@, i as int, k, v);
                }
                self.entries.insert(i, (k, v));
            },
        }
    }

    /// Takes the value under `k` out of the map, if there is one.
    pub fn remove(&mut self, k: &[u8]) -> (r: Option<V>)
        requires
            old(self).wf(),
        ensures
            final(self).wf(),
            final(self)@ == old(self)@.remove(k@),
            match r {
                Some(v) => old(self)@.contains_key(k@) && old(self)@[k@] == v,
                None => !old(self)@.contains_key(k@),
            },
    {
        match self.find(k) {
            Ok(i) => {
                proof {
                    lemma_map_at(self.entries@, i as int);
                    lemma_map_remove_at(self.entries@, i as int);
                }
                let (_, v) = self.entries.remove(i);
                Some(v)
            },
            Err(i) => {
                proof {
                    self.lemma_absent_at(k@, i as int);
                    assert(self@.remove(k@) =~= self@);
                }
                None
            },
        }
    }
}

} // verus!
