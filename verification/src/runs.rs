//! Counting distinct projections of grouped sequences, and pages of filtered sequences.
use vstd::prelude::*;

verus! {

/// Items with the same projection stand next to each other.
pub open spec fn contiguous<T, K>(s: Seq<T>, f: spec_fn(T) -> K) -> bool {
    forall|i: int, j: int, k: int|
        #![trigger f(s[i]), f(s[j]), f(s[k])]
        0 <= i < j < k < s.len() && f(s[i]) == f(s[k]) ==> f(s[j]) == f(s[i])
}

/// The number of positions that start a new run of equal projections.
pub open spec fn run_starts<T, K>(s: Seq<T>, f: spec_fn(T) -> K) -> nat
    decreases s.len(),
{
    if s.len() == 0 {
        0
    } else {
        run_starts(s.drop_last(), f) + if s.len() == 1 || f(s[s.len() - 1]) != f(s[s.len() - 2]) {
            1nat
        } else {
            0nat
        }
    }
}

/// In a sequence whose groups are contiguous, the run starts count the distinct projections.
pub proof fn lemma_run_starts_count<T, K>(s: Seq<T>, f: spec_fn(T) -> K)
    requires
        contiguous(s, f),
    ensures
        run_starts(s, f) == s.map_values(f).to_set().len(),
    decreases s.len(),
{
    let m = s.map_values(f);
    if s.len() == 0 {
        assert(m.to_set() =~= Set::empty());
    } else {
        let p = s.drop_last();
        let last = s[s.len() - 1];
        assert forall|i: int, j: int, k: int|
            #![trigger f(p[i]), f(p[j]), f(p[k])]
            0 <= i < j < k < p.len() && f(p[i]) == f(p[k]) implies f(p[j]) == f(p[i]) by {
            assert(p[i] == s[i] && p[j] == s[j] && p[k] == s[k]);
            assert(f(s[i]) == f(s[k]));
            assert(f(s[j]) == f(s[i]));
        }
        lemma_run_starts_count(p, f);
        assert(m == p.map_values(f).push(f(last)));
        p.map_values(f).lemma_push_to_set_commute(f(last));
        if s.len() == 1 || f(last) != f(s[s.len() - 2]) {
            assert(!p.map_values(f).to_set().contains(f(last))) by {
                if p.map_values(f).to_set().contains(f(last)) {
                    let i = choose|i: int| 0 <= i < p.len() && p.map_values(f)[i] == f(last);
                    assert(f(s[i]) == f(s[s.len() - 1]));
                    if i < s.len() - 2 {
                        let j = s.len() - 2;
                        let k = s.len() - 1;
                        assert(f(s[i]) == f(s[k]));
                        assert(f(s[j]) == f(s[i]));
                    }
                }
            }
        } else {
            assert(p.map_values(f).to_set().contains(f(last))) by {
                assert(p.map_values(f)[p.len() - 1] == f(last));
            }
        }
    }
}

/// Taking one more item adds one run start exactly where the projection changes.
pub proof fn lemma_run_starts_take<T, K>(s: Seq<T>, f: spec_fn(T) -> K, i: int)
    requires
        0 <= i < s.len(),
    ensures
        run_starts(s.take(i + 1), f) == run_starts(s.take(i), f) + if i == 0 || f(s[i]) != f(
            s[i - 1],
        ) {
            1nat
        } else {
            0nat
        },
{
    assert(s.take(i + 1).drop_last() == s.take(i));
}

/// The page of `m` from position `offset` up to (not including) `end`, cut at its length.
pub open spec fn page<T>(m: Seq<T>, offset: int, end: int) -> Seq<T> {
    let lo = if offset < m.len() {
        offset
    } else {
        m.len() as int
    };
    let hi = if end < m.len() {
        end
    } else {
        m.len() as int
    };
    if lo <= hi {
        m.subrange(lo, hi)
    } else {
        Seq::empty()
    }
}

/// A page holds the items from position `offset` on, in order, up to `end` or
/// the end of the sequence: as many as fall in that range, the `i`-th being the
/// item at `offset + i`; nothing where `offset` is past the end.
pub proof fn lemma_page_items<T>(m: Seq<T>, offset: int, end: int)
    requires
        0 <= offset <= end,
    ensures
        page(m, offset, end).len() == if offset >= m.len() {
            0
        } else if end <= m.len() {
            end - offset
        } else {
            m.len() - offset
        },
        forall|i: int| 0 <= i < page(m, offset, end).len() ==> #[trigger] page(m, offset, end)[i] == m[offset + i],
{
}

/// Growing the filtered sequence by one item extends the page exactly when the
/// item's position falls inside it.
pub proof fn lemma_page_push<T>(m: Seq<T>, x: T, offset: int, end: int)
    requires
        0 <= offset <= end,
    ensures
        page(m.push(x), offset, end) == if offset <= m.len() && m.len() < end {
            page(m, offset, end).push(x)
        } else {
            page(m, offset, end)
        },
{
    let m2 = m.push(x);
    if offset <= m.len() && m.len() < end {
        assert(m2.subrange(offset, m.len() + 1int) =~= m.subrange(offset, m.len() as int).push(x));
    } else if m.len() < offset {
    } else {
        assert(m2.subrange(offset, end) =~= m.subrange(offset, end));
    }
}


/// Inserting into a sequence adds the item to its set of items.
pub proof fn lemma_insert_to_set<A>(s: Seq<A>, i: int, x: A)
    requires
        0 <= i <= s.len(),
    ensures
        s.insert(i, x).to_set() == s.to_set().insert(x),
{
    let t = s.insert(i, x);
    assert forall|y: A| t.to_set().contains(y) <==> s.to_set().insert(x).contains(y) by {
        if t.contains(y) {
            let j = choose|j: int| 0 <= j < t.len() && t[j] == y;
            if j < i {
                assert(s[j] == y);
            } else if j > i {
                assert(s[j - 1] == y);
            }
        }
        if s.contains(y) {
            let j = choose|j: int| 0 <= j < s.len() && s[j] == y;
            if j < i {
                assert(t[j] == y);
            } else {
                assert(t[j + 1] == y);
            }
        }
        if y == x {
            assert(t[i] == x);
        }
    }
    assert(t.to_set() =~= s.to_set().insert(x));
}

/// Removing the only occurrence of an item removes it from the set of items.
pub proof fn lemma_remove_to_set<A>(s: Seq<A>, i: int)
    requires
        0 <= i < s.len(),
        forall|j: int| 0 <= j < s.len() && j != i ==> s[j] != s[i],
    ensures
        s.remove(i).to_set() == s.to_set().remove(s[i]),
{
    let t = s.remove(i);
    assert forall|y: A| t.to_set().contains(y) <==> s.to_set().remove(s[i]).contains(y) by {
        if t.contains(y) {
            let j = choose|j: int| 0 <= j < t.len() && t[j] == y;
            if j < i {
                assert(s[j] == y);
            } else {
                assert(s[j + 1] == y);
            }
        }
        if s.contains(y) && y != s[i] {
            let j = choose|j: int| 0 <= j < s.len() && s[j] == y;
            if j < i {
                assert(t[j] == y);
            } else {
                assert(t[j - 1] == y);
            }
        }
    }
    assert(t.to_set() =~= s.to_set().remove(s[i]));
}


/// The items increase strictly under `lt`.
pub open spec fn strictly_sorted<T>(s: Seq<T>, lt: spec_fn(T, T) -> bool) -> bool {
    forall|i: int, j: int| 0 <= i < j < s.len() ==> #[trigger] lt(s[i], s[j])
}

/// `lt` is a strict order: irreflexive and transitive.
pub open spec fn strict_order<T>(lt: spec_fn(T, T) -> bool) -> bool {
    &&& forall|a: T| !#[trigger] lt(a, a)
    &&& forall|a: T, b: T, c: T| #[trigger] lt(a, b) && #[trigger] lt(b, c) ==> lt(a, c)
}

/// Two strictly sorted sequences with the same items are the same sequence.
pub proof fn lemma_sorted_same_set_equal<T>(s1: Seq<T>, s2: Seq<T>, lt: spec_fn(T, T) -> bool)
    requires
        strict_order(lt),
        strictly_sorted(s1, lt),
        strictly_sorted(s2, lt),
        s1.to_set() == s2.to_set(),
    ensures
        s1 == s2,
    decreases s1.len(),
{
    if s1.len() == 0 {
        if s2.len() > 0 {
            assert(s2.to_set().contains(s2[0]));
        }
        assert(s1 =~= s2);
    } else {
        assert(s1.to_set().contains(s1[0]));
        assert(s2.to_set().contains(s1[0]));
        let j = choose|j: int| 0 <= j < s2.len() && s2[j] == s1[0];
        assert(s1.to_set().contains(s2[0]));
        let i = choose|i: int| 0 <= i < s1.len() && s1[i] == s2[0];
        if j > 0 {
            assert(lt(s2[0], s2[j]));
            if i > 0 {
                assert(lt(s1[0], s1[i]));
                assert(lt(s1[0], s1[0]));
            } else {
                assert(lt(s2[0], s2[0]));
            }
        }
        assert(s1[0] == s2[0]);
        let t1 = s1.drop_first();
        let t2 = s2.drop_first();
        assert forall|x: T| t1.to_set().contains(x) <==> t2.to_set().contains(x) by {
            if t1.contains(x) {
                let a = choose|a: int| 0 <= a < t1.len() && t1[a] == x;
                assert(lt(s1[0], s1[a + 1]));
                assert(s1.to_set().contains(x));
                let b = choose|b: int| 0 <= b < s2.len() && s2[b] == x;
                if b == 0 {
                    assert(lt(x, x));
                }
                assert(t2[b - 1] == x);
            }
            if t2.contains(x) {
                let a = choose|a: int| 0 <= a < t2.len() && t2[a] == x;
                assert(lt(s2[0], s2[a + 1]));
                assert(s2.to_set().contains(x));
                let b = choose|b: int| 0 <= b < s1.len() && s1[b] == x;
                if b == 0 {
                    assert(lt(x, x));
                }
                assert(t1[b - 1] == x);
            }
        }
        assert(t1.to_set() =~= t2.to_set());
        lemma_sorted_same_set_equal(t1, t2, lt);
        assert forall|k: int| 0 <= k < s1.len() implies s1[k] == s2[k] by {
            if k > 0 {
                assert(s1[k] == t1[k - 1]);
                assert(s2[k] == t2[k - 1]);
            }
        }
        assert(s1 =~= s2);
    }
}

/// A strictly sorted sequence repeats no item, so it has as many items as its set.
pub proof fn lemma_strictly_sorted_unique<T>(s: Seq<T>, lt: spec_fn(T, T) -> bool)
    requires
        strict_order(lt),
        strictly_sorted(s, lt),
    ensures
        s.no_duplicates(),
        s.len() == s.to_set().len(),
{
    assert forall|i: int, j: int| 0 <= i < s.len() && 0 <= j < s.len() && i != j implies s[i]
        != s[j] by {
        if i < j {
            assert(lt(s[i], s[j]));
        } else {
            assert(lt(s[j], s[i]));
        }
    }
    s.unique_seq_to_set();
}

/// Keeping the items a predicate accepts keeps them all where it accepts every item.
pub proof fn lemma_filter_keeps_all<T>(s: Seq<T>, f: spec_fn(T) -> bool)
    requires
        forall|x: T| #[trigger] f(x),
    ensures
        s.filter(f) == s,
    decreases s.len(),
{
    reveal(Seq::filter);
    if s.len() > 0 {
        lemma_filter_keeps_all(s.drop_last(), f);
        assert(s.drop_last().push(s.last()) =~= s);
    }
}

} // verus!
