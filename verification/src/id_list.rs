//! A list of records kept strictly ordered by a 64-bit id, viewed as a map from id to record.
use vstd::prelude::*;

verus! {

/// Records that carry a 64-bit id.
pub trait KeyedById {
    spec fn spec_id(&self) -> u64;

    fn id(&self) -> (r: u64)
        ensures
            r == self.spec_id(),
    ;
}

/// The ids increase strictly along the sequence.
pub open spec fn ids_increasing<T: KeyedById>(s: Seq<T>) -> bool {
    forall|i: int, j: int| 0 <= i < j < s.len() ==> #[trigger] s[i].spec_id() < #[trigger] s[j].spec_id()
}

/// Some record has this id.
pub open spec fn seq_has_id<T: KeyedById>(s: Seq<T>, id: u64) -> bool {
    exists|i: int| 0 <= i < s.len() && #[trigger] s[i].spec_id() == id
}

/// The position of the record with this id.
pub open spec fn seq_index_of<T: KeyedById>(s: Seq<T>, id: u64) -> int {
    choose|i: int| 0 <= i < s.len() && #[trigger] s[i].spec_id() == id
}

/// The records of a sequence, by id.
pub open spec fn seq_id_map<T: KeyedById>(s: Seq<T>) -> Map<u64, T> {
    Map::new(|id: u64| seq_has_id(s, id), |id: u64| s[seq_index_of(s, id)])
}

/// The smallest id of a map.
pub open spec fn is_min_id<T>(m: Map<u64, T>, id: u64) -> bool {
    m.contains_key(id) && forall|j: u64| #[trigger] m.contains_key(j) ==> id <= j
}

/// In an increasing sequence the record with an id is the one at its position.
pub proof fn lemma_index_of<T: KeyedById>(s: Seq<T>, i: int)
    requires
        ids_increasing(s),
        0 <= i < s.len(),
    ensures
        seq_has_id(s, s[i].spec_id()),
        seq_index_of(s, s[i].spec_id()) == i,
        seq_id_map(s).contains_key(s[i].spec_id()),
        seq_id_map(s)[s[i].spec_id()] == s[i],
{
    let j = seq_index_of(s, s[i].spec_id());
    if j != i {
        if j < i {
            assert(s[j].spec_id() < s[i].spec_id());
        } else {
            assert(s[i].spec_id() < s[j].spec_id());
        }
    }
}

/// Records kept strictly ordered by id.
#[derive(Debug)]
pub struct IdList<T> {
    items: Vec<T>,
}

impl<T: KeyedById> IdList<T> {
    /// The records, in increasing id order.
    pub closed spec fn seq(&self) -> Seq<T> {
        self.items@
    }

    /// The records by id.
    pub open spec fn map(&self) -> Map<u64, T> {
        seq_id_map(self.seq())
    }

    pub open spec fn wf(&self) -> bool {
        ids_increasing(self.seq())
    }

    pub fn new() -> (r: Self)
        ensures
            r.wf(),
            r.seq() == Seq::<T>::empty(),
    {
        IdList { items: Vec::new() }
    }

    pub fn len(&self) -> (r: usize)
        ensures
            r == self.seq().len(),
    {
        self.items.len()
    }

    /// The records, in increasing id order.
    pub fn as_vec(&self) -> (r: &Vec<T>)
        ensures
            r@ == self.seq(),
    {
        &self.items
    }

    /// The first position whose id is not below `id`.
    fn lower_bound(&self, id: u64) -> (r: usize)
        requires
            self.wf(),
        ensures
            r <= self.seq().len(),
            forall|j: int| 0 <= j < r ==> self.seq()[j].spec_id() < id,
            forall|j: int| r <= j < self.seq().len() ==> self.seq()[j].spec_id() >= id,
    {
        let mut i: usize = 0;
        while i < self.items.len() && self.items[i].id() < id
            invariant
                self.wf(),
                i <= self.items.len(),
                forall|j: int| 0 <= j < i ==> self.seq()[j].spec_id() < id,
            decreases self.items.len() - i,
        {
            i = i + 1;
        }
        proof {
            assert forall|j: int| i <= j < self.seq().len() implies self.seq()[j].spec_id() >= id by {
                if j > i {
                    assert(self.seq()[i as int].spec_id() < self.seq()[j].spec_id());
                }
            }
        }
        i
    }

    /// The position of the record with `id`.
    pub fn find(&self, id: u64) -> (r: Option<usize>)
        requires
            self.wf(),
        ensures
            match r {
                Some(i) => i < self.seq().len() && self.seq()[i as int].spec_id() == id,
                None => !self.map().contains_key(id),
            },
            r is Some <==> self.map().contains_key(id),
    {
        let i = self.lower_bound(id);
        if i < self.items.len() && self.items[i].id() == id {
            proof {
                lemma_index_of(self.seq(), i as int);
            }
            Some(i)
        } else {
            proof {
                if seq_has_id(self.seq(), id) {
                    let j = choose|j: int| 0 <= j < self.seq().len() && #[trigger] self.seq()[j].spec_id() == id;
                    if j > i {
                        assert(self.seq()[i as int].spec_id() < self.seq()[j].spec_id());
                    }
                }
            }
            None
        }
    }

    /// The record at a position.
    pub fn get(&self, i: usize) -> (r: &T)
        requires
            i < self.seq().len(),
        ensures
            *r == self.seq()[i as int],
    {
        &self.items[i]
    }

    /// Replaces the record at a position by one with the same id.
    pub fn set(&mut self, i: usize, x: T)
        requires
            old(self).wf(),
            i < old(self).seq().len(),
            x.spec_id() == old(self).seq()[i as int].spec_id(),
        ensures
            final(self).wf(),
            final(self).seq() == old(self).seq().update(i as int, x),
            final(self).map() == old(self).map().insert(x.spec_id(), x),
    {
        let ghost s = self.seq();
        self.items.set(i, x);
        proof {
            let t = self.seq();
            assert(ids_increasing(t)) by {
                assert forall|a: int, b: int| 0 <= a < b < t.len() implies #[trigger] t[a].spec_id()
                    < #[trigger] t[b].spec_id() by {
                    assert(s[a].spec_id() < s[b].spec_id());
                }
            }
            Self::lemma_map_update(s, t, i as int);
        }
    }

    proof fn lemma_map_update(s: Seq<T>, t: Seq<T>, i: int)
        requires
            ids_increasing(s),
            ids_increasing(t),
            0 <= i < s.len(),
            t == s.update(i, t[i]),
            t[i].spec_id() == s[i].spec_id(),
        ensures
            seq_id_map(t) == seq_id_map(s).insert(t[i].spec_id(), t[i]),
    {
        let m = seq_id_map(s).insert(t[i].spec_id(), t[i]);
        assert forall|id: u64| seq_id_map(t).contains_key(id) <==> m.contains_key(id) by {
            if seq_has_id(t, id) {
                let j = choose|j: int| 0 <= j < t.len() && #[trigger] t[j].spec_id() == id;
                if j != i {
                    lemma_index_of(s, j);
                }
            }
            if seq_has_id(s, id) {
                let j = choose|j: int| 0 <= j < s.len() && #[trigger] s[j].spec_id() == id;
                lemma_index_of(t, j);
            }
        }
        assert forall|id: u64| #[trigger] seq_id_map(t).contains_key(id) implies seq_id_map(t)[id] == m[id] by {
            let j = choose|j: int| 0 <= j < t.len() && #[trigger] t[j].spec_id() == id;
            lemma_index_of(t, j);
            if j != i {
                lemma_index_of(s, j);
            }
        }
        assert(seq_id_map(t) =~= m);
    }

    /// Inserts a record whose id is not present, at its place in id order.
    pub fn insert_new(&mut self, x: T)
        requires
            old(self).wf(),
            !old(self).map().contains_key(x.spec_id()),
        ensures
            final(self).wf(),
            final(self).map() == old(self).map().insert(x.spec_id(), x),
            final(self).seq().len() == old(self).seq().len() + 1,
    {
        let ghost s = self.seq();
        let id = x.id();
        let i = self.lower_bound(id);
        proof {
            assert forall|j: int| i <= j < s.len() implies s[j].spec_id() > id by {
                if s[j].spec_id() == id {
                    assert(seq_has_id(s, id));
                }
            }
        }
        self.items.insert(i, x);
        proof {
            let t = self.seq();
            assert(t == s.insert(i as int, x));
            assert(ids_increasing(t)) by {
                assert forall|a: int, b: int| 0 <= a < b < t.len() implies #[trigger] t[a].spec_id()
                    < #[trigger] t[b].spec_id() by {
                    if b < i {
                    } else if a < i && b == i {
                    } else if a < i {
                        assert(t[b] == s[b - 1]);
                    } else if a == i {
                        assert(t[b] == s[b - 1]);
                    } else {
                        assert(t[a] == s[a - 1]);
                        assert(t[b] == s[b - 1]);
                    }
                }
            }
            let m = seq_id_map(s).insert(id, x);
            assert forall|k: u64| seq_id_map(t).contains_key(k) <==> m.contains_key(k) by {
                if seq_has_id(t, k) {
                    let j = choose|j: int| 0 <= j < t.len() && #[trigger] t[j].spec_id() == k;
                    if j < i {
                        lemma_index_of(s, j);
                    } else if j > i {
                        assert(t[j] == s[j - 1]);
                        lemma_index_of(s, j - 1);
                    }
                }
                if seq_has_id(s, k) {
                    let j = choose|j: int| 0 <= j < s.len() && #[trigger] s[j].spec_id() == k;
                    if j < i {
                        lemma_index_of(t, j);
                    } else {
                        assert(t[j + 1] == s[j]);
                        lemma_index_of(t, j + 1);
                    }
                }
                if k == id {
                    lemma_index_of(t, i as int);
                }
            }
            assert forall|k: u64| #[trigger] seq_id_map(t).contains_key(k) implies seq_id_map(t)[k] == m[k] by {
                let j = choose|j: int| 0 <= j < t.len() && #[trigger] t[j].spec_id() == k;
                lemma_index_of(t, j);
                if j < i {
                    lemma_index_of(s, j);
                } else if j > i {
                    assert(t[j] == s[j - 1]);
                    lemma_index_of(s, j - 1);
                }
            }
            assert(seq_id_map(t) =~= m);
        }
    }

    /// Removes the record at a position.
    pub fn remove_at(&mut self, i: usize) -> (r: T)
        requires
            old(self).wf(),
            i < old(self).seq().len(),
        ensures
            final(self).wf(),
            r == old(self).seq()[i as int],
            final(self).map() == old(self).map().remove(r.spec_id()),
            final(self).seq().len() == old(self).seq().len() - 1,
            final(self).seq() == old(self).seq().remove(i as int),
    {
        let ghost s = self.seq();
        let r = self.items.remove(i);
        proof {
            let t = self.seq();
            let id = r.spec_id();
            assert(ids_increasing(t)) by {
                assert forall|a: int, b: int| 0 <= a < b < t.len() implies #[trigger] t[a].spec_id()
                    < #[trigger] t[b].spec_id() by {
                    if a < i && b >= i {
                        assert(t[b] == s[b + 1]);
                    } else if a >= i {
                        assert(t[a] == s[a + 1]);
                        assert(t[b] == s[b + 1]);
                    }
                }
            }
            let m = seq_id_map(s).remove(id);
            assert forall|k: u64| seq_id_map(t).contains_key(k) <==> m.contains_key(k) by {
                if seq_has_id(t, k) {
                    let j = choose|j: int| 0 <= j < t.len() && #[trigger] t[j].spec_id() == k;
                    if j < i {
                        lemma_index_of(s, j);
                        assert(s[j].spec_id() < s[i as int].spec_id());
                    } else {
                        assert(t[j] == s[j + 1]);
                        lemma_index_of(s, j + 1);
                        assert(s[i as int].spec_id() < s[j + 1].spec_id());
                    }
                }
                if seq_has_id(s, k) && k != id {
                    let j = choose|j: int| 0 <= j < s.len() && #[trigger] s[j].spec_id() == k;
                    if j < i {
                        lemma_index_of(t, j);
                    } else {
                        assert(j != i);
                        assert(t[j - 1] == s[j]);
                        lemma_index_of(t, j - 1);
                    }
                }
            }
            assert forall|k: u64| #[trigger] seq_id_map(t).contains_key(k) implies seq_id_map(t)[k] == m[k] by {
                let j = choose|j: int| 0 <= j < t.len() && #[trigger] t[j].spec_id() == k;
                lemma_index_of(t, j);
                if j < i {
                    lemma_index_of(s, j);
                } else {
                    assert(t[j] == s[j + 1]);
                    lemma_index_of(s, j + 1);
                }
            }
            assert(seq_id_map(t) =~= m);
        }
        r
    }

    /// The first record holds the smallest id.
    pub proof fn lemma_first_is_min(&self)
        requires
            self.wf(),
            self.seq().len() > 0,
        ensures
            is_min_id(self.map(), self.seq()[0].spec_id()),
    {
        let s = self.seq();
        lemma_index_of(s, 0);
        assert forall|j: u64| #[trigger] self.map().contains_key(j) implies s[0].spec_id() <= j by {
            let k = choose|k: int| 0 <= k < s.len() && #[trigger] s[k].spec_id() == j;
            if k > 0 {
                assert(s[0].spec_id() < s[k].spec_id());
            }
        }
    }

    /// The map holds as many records as the list.
    pub proof fn lemma_map_len(&self)
        requires
            self.wf(),
        ensures
            self.map().dom().len() == self.seq().len(),
            self.map().dom().finite(),
    {
        let s = self.seq();
        let ids = s.map_values(|x: T| x.spec_id());
        assert(ids.no_duplicates()) by {
            assert forall|a: int, b: int| 0 <= a < ids.len() && 0 <= b < ids.len() && a != b implies ids[a] != ids[b] by {
                if a < b {
                    assert(s[a].spec_id() < s[b].spec_id());
                } else {
                    assert(s[b].spec_id() < s[a].spec_id());
                }
            }
        }
        assert(self.map().dom() =~= ids.to_set()) by {
            assert forall|k: u64| self.map().dom().contains(k) <==> ids.to_set().contains(k) by {
                if self.map().dom().contains(k) {
                    let j = choose|j: int| 0 <= j < s.len() && #[trigger] s[j].spec_id() == k;
                    assert(ids[j] == k);
                }
                if ids.to_set().contains(k) {
                    let j = choose|j: int| 0 <= j < ids.len() && ids[j] == k;
                    assert(s[j].spec_id() == k);
                }
            }
        }
        ids.unique_seq_to_set();
    }
}

} // verus!
