//! A list of records kept strictly ordered by a string key, viewed as a map from key to record.
use crate::text::{
    lemma_seq_lt_irreflexive, lemma_seq_lt_total, lemma_seq_lt_transitive, seq_lt, str_compare,
    Compared,
};
use vstd::prelude::*;

verus! {

/// Records that carry a string key.
pub trait KeyedByStr {
    spec fn spec_key(&self) -> Seq<char>;

    fn key_str(&self) -> (r: &str)
        ensures
            r@ == self.spec_key(),
    ;
}

/// The keys increase strictly along the sequence.
pub open spec fn keys_increasing<T: KeyedByStr>(s: Seq<T>) -> bool {
    forall|i: int, j: int| 0 <= i < j < s.len() ==> seq_lt(#[trigger] s[i].spec_key(), #[trigger] s[j].spec_key())
}

/// Some record has this key.
pub open spec fn seq_has_key<T: KeyedByStr>(s: Seq<T>, k: Seq<char>) -> bool {
    exists|i: int| 0 <= i < s.len() && #[trigger] s[i].spec_key() == k
}

/// The position of the record with this key.
pub open spec fn seq_key_index<T: KeyedByStr>(s: Seq<T>, k: Seq<char>) -> int {
    choose|i: int| 0 <= i < s.len() && #[trigger] s[i].spec_key() == k
}

/// The records of a sequence, by key.
pub open spec fn seq_key_map<T: KeyedByStr>(s: Seq<T>) -> Map<Seq<char>, T> {
    Map::new(|k: Seq<char>| seq_has_key(s, k), |k: Seq<char>| s[seq_key_index(s, k)])
}

/// In an increasing sequence the record with a key is the one at its position.
pub proof fn lemma_key_index<T: KeyedByStr>(s: Seq<T>, i: int)
    requires
        keys_increasing(s),
        0 <= i < s.len(),
    ensures
        seq_has_key(s, s[i].spec_key()),
        seq_key_index(s, s[i].spec_key()) == i,
        seq_key_map(s).contains_key(s[i].spec_key()),
        seq_key_map(s)[s[i].spec_key()] == s[i],
{
    let j = seq_key_index(s, s[i].spec_key());
    lemma_seq_lt_irreflexive(s[i].spec_key());
    if j != i {
        if j < i {
            assert(seq_lt(s[j].spec_key(), s[i].spec_key()));
        } else {
            assert(seq_lt(s[i].spec_key(), s[j].spec_key()));
        }
    }
}

/// Records kept strictly ordered by key.
#[derive(Debug)]
pub struct StrKeyedList<T> {
    items: Vec<T>,
}

impl<T: KeyedByStr> StrKeyedList<T> {
    /// The records, in increasing key order.
    pub closed spec fn seq(&self) -> Seq<T> {
        self.items@
    }

    /// The records by key.
    pub open spec fn map(&self) -> Map<Seq<char>, T> {
        seq_key_map(self.seq())
    }

    pub open spec fn wf(&self) -> bool {
        keys_increasing(self.seq())
    }

    pub fn new() -> (r: Self)
        ensures
            r.wf(),
            r.seq() == Seq::<T>::empty(),
            r.map() == Map::<Seq<char>, T>::empty(),
    {
        let r = StrKeyedList { items: Vec::new() };
        assert(r.map() =~= Map::<Seq<char>, T>::empty());
        r
    }

    pub fn len(&self) -> (r: usize)
        ensures
            r == self.seq().len(),
    {
        self.items.len()
    }

    /// The records, in increasing key order.
    pub fn as_vec(&self) -> (r: &Vec<T>)
        ensures
            r@ == self.seq(),
    {
        &self.items
    }

    fn lower_bound(&self, key: &str) -> (r: usize)
        requires
            self.wf(),
        ensures
            r <= self.seq().len(),
            forall|j: int| 0 <= j < r ==> seq_lt(self.seq()[j].spec_key(), key@),
            forall|j: int| r <= j < self.seq().len() ==> !seq_lt(self.seq()[j].spec_key(), key@),
    {
        let mut i: usize = 0;
        while i < self.items.len() && str_compare(self.items[i].key_str(), key) == Compared::Less
            invariant
                self.wf(),
                i <= self.items.len(),
                forall|j: int| 0 <= j < i ==> seq_lt(self.seq()[j].spec_key(), key@),
            decreases self.items.len() - i,
        {
            i = i + 1;
        }
        proof {
            assert forall|j: int| i <= j < self.seq().len() implies !seq_lt(
                self.seq()[j].spec_key(),
                key@,
            ) by {
                if j > i && seq_lt(self.seq()[j].spec_key(), key@) {
                    assert(seq_lt(self.seq()[i as int].spec_key(), self.seq()[j].spec_key()));
                    lemma_seq_lt_transitive(
                        self.seq()[i as int].spec_key(),
                        self.seq()[j].spec_key(),
                        key@,
                    );
                }
            }
        }
        i
    }

    /// The position where a record with `key` is or would go, and whether it is there.
    fn locate(&self, key: &str) -> (r: (usize, bool))
        requires
            self.wf(),
        ensures
            r.0 <= self.seq().len(),
            forall|j: int| 0 <= j < r.0 ==> seq_lt(self.seq()[j].spec_key(), key@),
            forall|j: int| r.0 < j < self.seq().len() ==> seq_lt(key@, self.seq()[j].spec_key()),
            r.1 <==> (r.0 < self.seq().len() && self.seq()[r.0 as int].spec_key() == key@),
            !r.1 ==> forall|j: int| r.0 <= j < self.seq().len() ==> seq_lt(key@, self.seq()[j].spec_key()),
            r.1 <==> self.map().contains_key(key@),
    {
        let i = self.lower_bound(key);
        let found = i < self.items.len() && str_compare(self.items[i].key_str(), key) == Compared::Equal;
        proof {
            let s = self.seq();
            assert forall|j: int| i <= j < s.len() && (j > i || !found) implies seq_lt(key@, s[j].spec_key()) by {
                lemma_seq_lt_total(s[j].spec_key(), key@);
                if j > i {
                    assert(seq_lt(s[i as int].spec_key(), s[j].spec_key()));
                    lemma_seq_lt_total(s[i as int].spec_key(), key@);
                    if s[i as int].spec_key() != key@ {
                        lemma_seq_lt_transitive(key@, s[i as int].spec_key(), s[j].spec_key());
                    }
                }
            }
            if found {
                lemma_key_index(s, i as int);
            } else if seq_has_key(s, key@) {
                let j = choose|j: int| 0 <= j < s.len() && #[trigger] s[j].spec_key() == key@;
                lemma_seq_lt_irreflexive(key@);
                if j >= i {
                    assert(seq_lt(key@, s[j].spec_key()));
                }
            }
        }
        (i, found)
    }

    /// The position of the record with `key`.
    pub fn find(&self, key: &str) -> (r: Option<usize>)
        requires
            self.wf(),
        ensures
            match r {
                Some(i) => i < self.seq().len() && self.seq()[i as int].spec_key() == key@
                    && self.map()[key@] == self.seq()[i as int],
                None => !self.map().contains_key(key@),
            },
            r is Some <==> self.map().contains_key(key@),
    {
        let (i, found) = self.locate(key);
        if found {
            proof {
                lemma_key_index(self.seq(), i as int);
            }
            Some(i)
        } else {
            None
        }
    }

    /// The record at a position.
    pub fn get(&self, i: usize) -> (r: &T)
        requires
            i < self.seq().len(),
        ensures
            *r == self.seq()[i as int],
    {
        &self.items[i]
    }

    /// Replaces the record at a position by one with the same key.
    pub fn set(&mut self, i: usize, x: T)
        requires
            old(self).wf(),
            i < old(self).seq().len(),
            x.spec_key() == old(self).seq()[i as int].spec_key(),
        ensures
            final(self).wf(),
            final(self).seq() == old(self).seq().update(i as int, x),
            final(self).map() == old(self).map().insert(x.spec_key(), x),
    {
        let ghost s = self.seq();
        self.items.set(i, x);
        proof {
            let t = self.seq();
            assert(keys_increasing(t)) by {
                assert forall|a: int, b: int| 0 <= a < b < t.len() implies seq_lt(
                    #[trigger] t[a].spec_key(),
                    #[trigger] t[b].spec_key(),
                ) by {
                    assert(seq_lt(s[a].spec_key(), s[b].spec_key()));
                }
            }
            let m = seq_key_map(s).insert(x.spec_key(), x);
            assert forall|k: Seq<char>| seq_key_map(t).contains_key(k) <==> m.contains_key(k) by {
                if seq_has_key(t, k) {
                    let j = choose|j: int| 0 <= j < t.len() && #[trigger] t[j].spec_key() == k;
                    if j != i {
                        lemma_key_index(s, j);
                    }
                }
                if seq_has_key(s, k) {
                    let j = choose|j: int| 0 <= j < s.len() && #[trigger] s[j].spec_key() == k;
                    lemma_key_index(t, j);
                }
            }
            assert forall|k: Seq<char>| #[trigger] seq_key_map(t).contains_key(k) implies seq_key_map(
                t,
            )[k] == m[k] by {
                let j = choose|j: int| 0 <= j < t.len() && #[trigger] t[j].spec_key() == k;
                lemma_key_index(t, j);
                if j != i {
                    lemma_key_index(s, j);
                    lemma_seq_lt_irreflexive(k);
                    if j < i {
                        assert(seq_lt(s[j].spec_key(), s[i as int].spec_key()));
                    } else {
                        assert(seq_lt(s[i as int].spec_key(), s[j].spec_key()));
                    }
                }
            }
            assert(seq_key_map(t) =~= m);
        }
    }

    /// Inserts a record whose key is not present, at its place in key order.
    pub fn insert_new(&mut self, x: T)
        requires
            old(self).wf(),
            !old(self).map().contains_key(x.spec_key()),
        ensures
            final(self).wf(),
            final(self).map() == old(self).map().insert(x.spec_key(), x),
    {
        let ghost s = self.seq();
        let ghost k0 = x.spec_key();
        let (i, found) = self.locate(x.key_str());
        self.items.insert(i, x);
        proof {
            let t = self.seq();
            assert(t == s.insert(i as int, x));
            assert(keys_increasing(t)) by {
                assert forall|a: int, b: int| 0 <= a < b < t.len() implies seq_lt(
                    #[trigger] t[a].spec_key(),
                    #[trigger] t[b].spec_key(),
                ) by {
                    if b < i {
                    } else if a < i && b == i {
                    } else if a < i {
                        assert(t[b] == s[b - 1]);
                        lemma_seq_lt_transitive(s[a].spec_key(), k0, s[b - 1].spec_key());
                    } else if a == i {
                        assert(t[b] == s[b - 1]);
                    } else {
                        assert(t[a] == s[a - 1]);
                        assert(t[b] == s[b - 1]);
                    }
                }
            }
            let m = seq_key_map(s).insert(k0, x);
            assert forall|k: Seq<char>| seq_key_map(t).contains_key(k) <==> m.contains_key(k) by {
                if seq_has_key(t, k) {
                    let j = choose|j: int| 0 <= j < t.len() && #[trigger] t[j].spec_key() == k;
                    if j < i {
                        lemma_key_index(s, j);
                    } else if j > i {
                        assert(t[j] == s[j - 1]);
                        lemma_key_index(s, j - 1);
                    }
                }
                if seq_has_key(s, k) {
                    let j = choose|j: int| 0 <= j < s.len() && #[trigger] s[j].spec_key() == k;
                    if j < i {
                        lemma_key_index(t, j);
                    } else {
                        assert(t[j + 1] == s[j]);
                        lemma_key_index(t, j + 1);
                    }
                }
                if k == k0 {
                    lemma_key_index(t, i as int);
                }
            }
            assert forall|k: Seq<char>| #[trigger] seq_key_map(t).contains_key(k) implies seq_key_map(
                t,
            )[k] == m[k] by {
                let j = choose|j: int| 0 <= j < t.len() && #[trigger] t[j].spec_key() == k;
                lemma_key_index(t, j);
                if j < i {
                    lemma_key_index(s, j);
                } else if j > i {
                    assert(t[j] == s[j - 1]);
                    lemma_key_index(s, j - 1);
                }
            }
            assert(seq_key_map(t) =~= m);
        }
    }

    /// Removes the record at a position.
    pub fn remove_at(&mut self, i: usize) -> (r: T)
        requires
            old(self).wf(),
            i < old(self).seq().len(),
        ensures
            final(self).wf(),
            r == old(self).seq()[i as int],
            final(self).map() == old(self).map().remove(r.spec_key()),
            final(self).seq() == old(self).seq().remove(i as int),
    {
        let ghost s = self.seq();
        let r = self.items.remove(i);
        proof {
            let t = self.seq();
            let k0 = r.spec_key();
            assert(keys_increasing(t)) by {
                assert forall|a: int, b: int| 0 <= a < b < t.len() implies seq_lt(
                    #[trigger] t[a].spec_key(),
                    #[trigger] t[b].spec_key(),
                ) by {
                    if a < i && b >= i {
                        assert(t[b] == s[b + 1]);
                    } else if a >= i {
                        assert(t[a] == s[a + 1]);
                        assert(t[b] == s[b + 1]);
                    }
                }
            }
            let m = seq_key_map(s).remove(k0);
            assert forall|k: Seq<char>| seq_key_map(t).contains_key(k) <==> m.contains_key(k) by {
                if seq_has_key(t, k) {
                    let j = choose|j: int| 0 <= j < t.len() && #[trigger] t[j].spec_key() == k;
                    lemma_seq_lt_irreflexive(k0);
                    if j < i {
                        lemma_key_index(s, j);
                        assert(seq_lt(s[j].spec_key(), s[i as int].spec_key()));
                    } else {
                        assert(t[j] == s[j + 1]);
                        lemma_key_index(s, j + 1);
                        assert(seq_lt(s[i as int].spec_key(), s[j + 1].spec_key()));
                    }
                }
                if seq_has_key(s, k) && k != k0 {
                    let j = choose|j: int| 0 <= j < s.len() && #[trigger] s[j].spec_key() == k;
                    if j < i {
                        lemma_key_index(t, j);
                    } else {
                        assert(j != i);
                        assert(t[j - 1] == s[j]);
                        lemma_key_index(t, j - 1);
                    }
                }
            }
            assert forall|k: Seq<char>| #[trigger] seq_key_map(t).contains_key(k) implies seq_key_map(
                t,
            )[k] == m[k] by {
                let j = choose|j: int| 0 <= j < t.len() && #[trigger] t[j].spec_key() == k;
                lemma_key_index(t, j);
                lemma_seq_lt_irreflexive(k);
                if j < i {
                    lemma_key_index(s, j);
                    assert(seq_lt(s[j].spec_key(), s[i as int].spec_key()));
                } else {
                    assert(t[j] == s[j + 1]);
                    lemma_key_index(s, j + 1);
                    assert(seq_lt(s[i as int].spec_key(), s[j + 1].spec_key()));
                }
            }
            assert(seq_key_map(t) =~= m);
        }
        r
    }
}

} // verus!
