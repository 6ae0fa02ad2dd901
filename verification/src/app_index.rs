//! The ordered index of known applications, by namespace and name.
use crate::app_model::{
    app_key_lt, lemma_app_key_lt_irreflexive, lemma_app_key_lt_total, lemma_app_key_lt_transitive,
    AppKey, AppKeyView,
};
use crate::runs::{
    contiguous, lemma_filter_keeps_all, lemma_insert_to_set, lemma_page_push, lemma_remove_to_set,
    lemma_run_starts_count, lemma_run_starts_take, lemma_sorted_same_set_equal,
    lemma_strictly_sorted_unique, page, run_starts, strict_order, strictly_sorted,
};
use crate::text::{lemma_seq_lt_irreflexive, seq_contains, str_contains, str_eq, Compared};
use vstd::prelude::*;

verus! {

/// A page query over the application index.
#[derive(Debug, Default)]
pub struct AppQueryParam {
    pub namespace: Option<String>,
    pub app_name: Option<String>,
    pub like_name: Option<String>,
    pub offset: usize,
    pub limit: usize,
}

impl AppQueryParam {
    /// An absent or empty namespace filter matches any namespace; otherwise it must be equal.
    pub open spec fn namespace_matches(&self, value: Seq<char>) -> bool {
        match self.namespace {
            Some(ns) => ns@.len() == 0 || ns@ == value,
            None => true,
        }
    }

    /// A given name filter matches when empty or equal; without one, a given
    /// `like_name` matches when empty or contained in the name; else anything matches.
    pub open spec fn app_name_matches(&self, value: Seq<char>) -> bool {
        match self.app_name {
            Some(name) => name@.len() == 0 || name@ == value,
            None => match self.like_name {
                Some(like) => like@.len() == 0 || seq_contains(value, like@),
                None => true,
            },
        }
    }

    /// The key passes both filters.
    pub open spec fn key_matches(&self, k: AppKeyView) -> bool {
        self.namespace_matches(k.namespace) && self.app_name_matches(k.app_name)
    }

    /// The filter as a predicate on keys.
    pub open spec fn key_filter(self) -> spec_fn(AppKeyView) -> bool {
        |k: AppKeyView| self.key_matches(k)
    }

    pub fn match_namespace(&self, value: &String) -> (r: bool)
        ensures
            r == self.namespace_matches(value@),
    {
        match &self.namespace {
            Some(namespace) => namespace.as_str().is_empty() || str_eq(namespace.as_str(), value.as_str()),
            None => true,
        }
    }

    pub fn match_app_name(&self, value: &String) -> (r: bool)
        ensures
            r == self.app_name_matches(value@),
    {
        if let Some(app_name) = &self.app_name {
            app_name.as_str().is_empty() || str_eq(app_name.as_str(), value.as_str())
        } else if let Some(like_name) = &self.like_name {
            like_name.as_str().is_empty() || str_contains(value.as_str(), like_name.as_str())
        } else {
            true
        }
    }
}

/// Keys strictly increasing in the key order.
pub open spec fn app_keys_sorted(s: Seq<AppKeyView>) -> bool {
    forall|i: int, j: int| 0 <= i < j < s.len() ==> app_key_lt(#[trigger] s[i], #[trigger] s[j])
}

/// The namespace of a key.
pub open spec fn key_namespace() -> spec_fn(AppKeyView) -> Seq<char> {
    |k: AppKeyView| k.namespace
}

/// In a sorted key sequence, keys of one namespace stand together.
proof fn lemma_sorted_namespaces_contiguous(s: Seq<AppKeyView>)
    requires
        app_keys_sorted(s),
    ensures
        contiguous(s, key_namespace()),
{
    let f = key_namespace();
    assert forall|i: int, j: int, k: int|
        #![trigger f(s[i]), f(s[j]), f(s[k])]
        0 <= i < j < k < s.len() && f(s[i]) == f(s[k]) implies f(s[j]) == f(s[i]) by {
        assert(app_key_lt(s[i], s[j]));
        assert(app_key_lt(s[j], s[k]));
        if f(s[j]) != f(s[i]) {
            lemma_seq_lt_irreflexive(s[i].namespace);
            if crate::text::seq_lt(s[j].namespace, s[k].namespace) {
                crate::text::lemma_seq_lt_transitive(s[i].namespace, s[j].namespace, s[k].namespace);
            }
        }
    }
}

/// The set of known applications, kept ordered by namespace and name.
#[derive(Debug, Default)]
pub struct AppIndex {
    group_data: Vec<AppKey>,
}

impl AppIndex {
    /// The keys, in order.
    pub closed spec fn entries(&self) -> Seq<AppKeyView> {
        self.group_data@.map_values(|k: AppKey| k@)
    }

    /// The keys are strictly increasing.
    pub open spec fn wf(&self) -> bool {
        app_keys_sorted(self.entries())
    }

    /// The number of distinct namespaces among the keys.
    pub open spec fn namespace_count(&self) -> nat {
        self.entries().map_values(key_namespace()).to_set().len()
    }

    pub fn new() -> (r: AppIndex)
        ensures
            r.wf(),
            r.entries() == Seq::<AppKeyView>::empty(),
    {
        let r = AppIndex { group_data: Vec::new() };
        assert(r.entries() =~= Seq::<AppKeyView>::empty());
        r
    }

    /// The first position whose key is not below `key`; all before it are below.
    fn lower_bound(&self, key: &AppKey) -> (r: usize)
        requires
            self.wf(),
        ensures
            r <= self.entries().len(),
            forall|j: int| 0 <= j < r ==> app_key_lt(self.entries()[j], key@),
            forall|j: int| r <= j < self.entries().len() ==> !app_key_lt(self.entries()[j], key@),
    {
        let mut i: usize = 0;
        while i < self.group_data.len() && self.group_data[i].compare_key(key) == Compared::Less
            invariant
                self.wf(),
                i <= self.group_data.len(),
                forall|j: int| 0 <= j < i ==> app_key_lt(self.entries()[j], key@),
            decreases self.group_data.len() - i,
        {
            i = i + 1;
        }
        proof {
            assert forall|j: int| i <= j < self.entries().len() implies !app_key_lt(
                self.entries()[j],
                key@,
            ) by {
                if j > i && app_key_lt(self.entries()[j], key@) {
                    assert(app_key_lt(self.entries()[i as int], self.entries()[j]));
                    lemma_app_key_lt_transitive(self.entries()[i as int], self.entries()[j], key@);
                }
            }
        }
        i
    }

    /// Adds an application; true when it was not known before.
    pub fn insert(&mut self, namespace: String, app_name: String) -> (r: bool)
        requires
            old(self).wf(),
        ensures
            final(self).wf(),
            final(self).entries().to_set() == old(self).entries().to_set().insert(
                AppKeyView { namespace: namespace@, app_name: app_name@ },
            ),
            r == !old(self).entries().contains(AppKeyView { namespace: namespace@, app_name: app_name@ }),
    {
        let key = AppKey::new(app_name, namespace);
        let ghost k = key@;
        let ghost s = self.entries();
        let i = self.lower_bound(&key);
        if i < self.group_data.len() && self.group_data[i].compare_key(&key) == Compared::Equal {
            proof {
                assert(s[i as int] == k);
                assert(s.to_set().insert(k) =~= s.to_set());
            }
            return false;
        }
        proof {
            if i < s.len() {
                lemma_app_key_lt_total(s[i as int], k);
            }
            assert forall|j: int| i <= j < s.len() implies app_key_lt(k, s[j]) by {
                lemma_app_key_lt_total(s[j], k);
                if j > i {
                    lemma_app_key_lt_transitive(k, s[i as int], s[j]);
                }
            }
            assert forall|j: int| 0 <= j < s.len() implies s[j] != k by {
                if j < i {
                    lemma_app_key_lt_irreflexive(k);
                } else {
                    lemma_app_key_lt_irreflexive(k);
                }
            }
        }
        self.group_data.insert(i, key);
        proof {
            let t = self.entries();
            assert(t =~= s.insert(i as int, k));
            lemma_insert_to_set(s, i as int, k);
            assert forall|a: int, b: int| 0 <= a < b < t.len() implies app_key_lt(
                #[trigger] t[a],
                #[trigger] t[b],
            ) by {
                if b < i {
                } else if a < i && b == i {
                } else if a < i {
                    assert(t[b] == s[b - 1]);
                } else if a == i {
                    assert(t[b] == s[b - 1]);
                } else {
                    assert(t[a] == s[a - 1]);
                    assert(t[b] == s[b - 1]);
                }
            }
        }
        true
    }

    /// Removes an application; reports whether it was known, and the number of
    /// namespaces left.
    pub fn remove(&mut self, namespace: &String, app_name: &String) -> (r: (bool, usize))
        requires
            old(self).wf(),
        ensures
            final(self).wf(),
            final(self).entries().to_set() == old(self).entries().to_set().remove(
                AppKeyView { namespace: namespace@, app_name: app_name@ },
            ),
            r.0 == old(self).entries().contains(AppKeyView { namespace: namespace@, app_name: app_name@ }),
            r.1 == final(self).namespace_count(),
    {
        let key = AppKey::new(app_name.clone(), namespace.clone());
        let ghost k = key@;
        let ghost s = self.entries();
        let i = self.lower_bound(&key);
        let found = i < self.group_data.len() && self.group_data[i].compare_key(&key) == Compared::Equal;
        proof {
            assert forall|j: int| 0 <= j < s.len() && j != i implies s[j] != k by {
                lemma_app_key_lt_irreflexive(k);
                if j > i && i < s.len() {
                    lemma_app_key_lt_total(s[i as int], k);
                    if s[j] == k {
                        assert(app_key_lt(s[i as int], s[j]));
                    }
                }
            }
        }
        if found {
            self.group_data.remove(i);
            proof {
                let t = self.entries();
                assert(t =~= s.remove(i as int));
                lemma_remove_to_set(s, i as int);
                assert forall|a: int, b: int| 0 <= a < b < t.len() implies app_key_lt(
                    #[trigger] t[a],
                    #[trigger] t[b],
                ) by {
                    if a < i && b >= i {
                        assert(t[b] == s[b + 1]);
                    } else if a >= i {
                        assert(t[a] == s[a + 1]);
                        assert(t[b] == s[b + 1]);
                    }
                }
            }
        } else {
            proof {
                if i < s.len() {
                    lemma_app_key_lt_total(s[i as int], k);
                }
                assert(!s.contains(k));
                assert(s.to_set().remove(k) =~= s.to_set());
            }
        }
        let count = self.get_namespace_count();
        (found, count)
    }

    /// The number of distinct namespaces.
    pub fn get_namespace_count(&self) -> (r: usize)
        requires
            self.wf(),
        ensures
            r == self.namespace_count(),
    {
        let ghost s = self.entries();
        let ghost f = key_namespace();
        let mut count: usize = 0;
        let mut i: usize = 0;
        while i < self.group_data.len()
            invariant
                s == self.entries(),
                f == key_namespace(),
                i <= self.group_data.len(),
                count <= i,
                count == run_starts(s.take(i as int), f),
            decreases self.group_data.len() - i,
        {
            proof {
                lemma_run_starts_take(s, f, i as int);
            }
            if i == 0 || !str_eq(
                self.group_data[i].namespace.as_str(),
                self.group_data[i - 1].namespace.as_str(),
            ) {
                count = count + 1;
            }
            i = i + 1;
        }
        proof {
            assert(s.take(s.len() as int) == s);
            lemma_sorted_namespaces_contiguous(s);
            lemma_run_starts_count(s, f);
        }
        count
    }

    /// The number of applications.
    pub fn get_item_count(&self) -> (r: usize)
        ensures
            r == self.entries().len(),
    {
        self.group_data.len()
    }

    /// The total number of matching keys, and the matching keys at positions
    /// `offset` up to `offset + limit` in key order.
    pub fn query(&self, param: &AppQueryParam) -> (r: (usize, Vec<AppKey>))
        requires
            self.wf(),
            param.offset + param.limit <= usize::MAX,
        ensures
            r.0 == self.entries().filter(param.key_filter()).len(),
            r.1@.map_values(|k: AppKey| k@) == page(
                self.entries().filter(param.key_filter()),
                param.offset as int,
                param.offset + param.limit,
            ),
    {
        let ghost s = self.entries();
        let ghost f = param.key_filter();
        let mut rlist: Vec<AppKey> = Vec::new();
        let end_index = param.offset + param.limit;
        let mut index: usize = 0;
        let mut i: usize = 0;
        while i < self.group_data.len()
            invariant
                s == self.entries(),
                f == param.key_filter(),
                end_index == param.offset + param.limit,
                i <= self.group_data.len(),
                index <= i,
                index == s.take(i as int).filter(f).len(),
                rlist@.map_values(|k: AppKey| k@) == page(
                    s.take(i as int).filter(f),
                    param.offset as int,
                    end_index as int,
                ),
            decreases self.group_data.len() - i,
        {
            let key = &self.group_data[i];
            let ghost before = s.take(i as int).filter(f);
            proof {
                assert(s.take(i + 1) == s.take(i as int).push(s[i as int]));
                s.take(i as int).lemma_filter_push(s[i as int], f);
                lemma_page_push(before, s[i as int], param.offset as int, end_index as int);
            }
            if param.match_namespace(&key.namespace) && param.match_app_name(&key.app_name) {
                if index >= param.offset && index < end_index {
                    let ghost old_list = rlist@;
                    rlist.push(key.clone());
                    proof {
                        assert(rlist@.map_values(|k: AppKey| k@) =~= old_list.map_values(
                            |k: AppKey| k@,
                        ).push(s[i as int]));
                    }
                }
                index = index + 1;
            }
            i = i + 1;
        }
        proof {
            assert(s.take(s.len() as int) == s);
        }
        (index, rlist)
    }
}


/// The key order as a predicate.
pub open spec fn app_key_order() -> spec_fn(AppKeyView, AppKeyView) -> bool {
    |a: AppKeyView, b: AppKeyView| app_key_lt(a, b)
}

/// Two well-formed indexes that hold the same applications hold them in the same order:
/// what an index answers depends only on which applications it holds.
pub proof fn lemma_index_determined_by_keys(a: AppIndex, b: AppIndex)
    requires
        a.wf(),
        b.wf(),
        a.entries().to_set() == b.entries().to_set(),
    ensures
        a.entries() == b.entries(),
{
    let lt = app_key_order();
    assert forall|x: AppKeyView| !#[trigger] lt(x, x) by {
        lemma_app_key_lt_irreflexive(x);
    }
    assert forall|x: AppKeyView, y: AppKeyView, z: AppKeyView|
        #[trigger] lt(x, y) && #[trigger] lt(y, z) implies lt(x, z) by {
        lemma_app_key_lt_transitive(x, y, z);
    }
    assert(strict_order(lt));
    assert(strictly_sorted(a.entries(), lt));
    assert(strictly_sorted(b.entries(), lt));
    lemma_sorted_same_set_equal(a.entries(), b.entries(), lt);
}

/// Removing an application that was just added to an index that lacked it gives
/// the index back as it was.
pub proof fn lemma_remove_undoes_insert(
    before: AppIndex,
    inserted: AppIndex,
    removed: AppIndex,
    k: AppKeyView,
)
    requires
        before.wf(),
        inserted.wf(),
        removed.wf(),
        !before.entries().contains(k),
        inserted.entries().to_set() == before.entries().to_set().insert(k),
        removed.entries().to_set() == inserted.entries().to_set().remove(k),
    ensures
        removed.entries() == before.entries(),
{
    assert(removed.entries().to_set() =~= before.entries().to_set());
    lemma_index_determined_by_keys(removed, before);
}

/// A query counts no more keys than the index holds and returns at most `limit` of them.
pub proof fn lemma_query_bounds(index: AppIndex, param: AppQueryParam)
    requires
        index.wf(),
    ensures
        index.entries().filter(param.key_filter()).len() <= index.entries().len(),
        page(
            index.entries().filter(param.key_filter()),
            param.offset as int,
            param.offset + param.limit,
        ).len() <= param.limit,
{
    index.entries().lemma_filter_len(param.key_filter());
}

/// The counts of an index are those of the set of applications it holds (what
/// was inserted and not removed since): the item count is the number of those
/// applications, a query with no filter counts every one of them, and the namespace
/// count is the number of distinct namespaces among them, so no namespace is
/// counted once its last application is gone.
pub proof fn lemma_app_index_counts(index: AppIndex, param: AppQueryParam)
    requires
        index.wf(),
        param.namespace is None,
        param.app_name is None,
        param.like_name is None,
    ensures
        index.entries().len() == index.entries().to_set().len(),
        index.entries().filter(param.key_filter()).len() == index.entries().to_set().len(),
        index.namespace_count() == index.entries().to_set().map(key_namespace()).len(),
{
    let lt = app_key_order();
    assert forall|x: AppKeyView| !#[trigger] lt(x, x) by {
        lemma_app_key_lt_irreflexive(x);
    }
    assert forall|x: AppKeyView, y: AppKeyView, z: AppKeyView|
        #[trigger] lt(x, y) && #[trigger] lt(y, z) implies lt(x, z) by {
        lemma_app_key_lt_transitive(x, y, z);
    }
    assert(strictly_sorted(index.entries(), lt));
    lemma_strictly_sorted_unique(index.entries(), lt);
    lemma_filter_keeps_all(index.entries(), param.key_filter());
    index.entries().lemma_to_set_map_commutes(key_namespace());
}

/// The name filters: a non-empty `app_name` matches only that name; without
/// one, a non-empty `like_name` matches exactly the names it stands in as a run
/// of characters (so a longer name containing it matches); an empty or absent
/// filter matches every name. A non-empty namespace filter matches only that
/// namespace.
pub proof fn lemma_app_name_filters(param: AppQueryParam, name: Seq<char>, namespace: Seq<char>)
    ensures
        param.app_name is Some && param.app_name->0@.len() > 0 ==> (param.app_name_matches(name)
            <==> name == param.app_name->0@),
        param.app_name is None && param.like_name is Some && param.like_name->0@.len() > 0 ==> (
        param.app_name_matches(name) <==> exists|i: int|
            0 <= i && i + param.like_name->0@.len() <= name.len() && #[trigger] name.subrange(
                i,
                i + param.like_name->0@.len(),
            ) == param.like_name->0@),
        param.app_name is None && (param.like_name is None || param.like_name->0@.len() == 0)
            ==> param.app_name_matches(name),
        param.namespace is Some && param.namespace->0@.len() > 0 ==> (param.namespace_matches(
            namespace,
        ) <==> namespace == param.namespace->0@),
        param.namespace is None ==> param.namespace_matches(namespace),
{
    if param.app_name is None && param.like_name is Some {
        let l = param.like_name->0@;
        if l.len() > 0 {
            assert((exists|i: int| crate::text::occurs_at(name, l, i)) <==> exists|i: int|
                0 <= i && i + l.len() <= name.len() && #[trigger] name.subrange(i, i + l.len()) == l) by {
                if exists|i: int| crate::text::occurs_at(name, l, i) {
                    let i = choose|i: int| crate::text::occurs_at(name, l, i);
                    assert(name.subrange(i, i + l.len()) == l);
                }
                if exists|i: int| 0 <= i && i + l.len() <= name.len() && #[trigger] name.subrange(i, i + l.len()) == l {
                    let i = choose|i: int| 0 <= i && i + l.len() <= name.len() && #[trigger] name.subrange(i, i + l.len()) == l;
                    assert(crate::text::occurs_at(name, l, i));
                }
            }
        }
    }
}

} // verus!
