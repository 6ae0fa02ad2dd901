//! The ordered index of jobs, by namespace, application and job id.
use crate::runs::{
    contiguous, lemma_filter_keeps_all, lemma_insert_to_set, lemma_page_push,
    lemma_run_starts_count, lemma_run_starts_take, lemma_sorted_same_set_equal,
    lemma_strictly_sorted_unique, page, run_starts, strict_order, strictly_sorted,
};
use crate::text::{
    lemma_seq_lt_irreflexive, lemma_seq_lt_total, lemma_seq_lt_transitive, seq_contains, seq_lt,
    str_compare, str_contains, str_eq, Compared,
};
use vstd::prelude::*;

verus! {

/// A page query over the job index.
#[derive(Debug, Default)]
pub struct JobQueryParam {
    pub namespace: Option<String>,
    pub app_name: Option<String>,
    pub like_description: Option<String>,
    pub like_handle_name: Option<String>,
    pub offset: usize,
    pub limit: usize,
}

/// An absent or empty equality filter matches anything; otherwise the value must be equal.
pub open spec fn equal_filter(filter: Option<String>, value: Seq<char>) -> bool {
    match filter {
        Some(f) => f@.len() == 0 || f@ == value,
        None => true,
    }
}

/// An absent or empty substring filter matches anything; otherwise the value must contain it.
pub open spec fn like_filter(filter: Option<String>, value: Seq<char>) -> bool {
    match filter {
        Some(f) => f@.len() == 0 || seq_contains(value, f@),
        None => true,
    }
}

/// What the index knows of a job.
#[derive(Debug, Default)]
pub struct JobIndexInfo {
    pub job_id: u64,
    pub description: String,
    pub handle_name: String,
}

/// The characters of a job's index information.
pub struct JobIndexInfoView {
    pub job_id: u64,
    pub description: Seq<char>,
    pub handle_name: Seq<char>,
}

impl View for JobIndexInfo {
    type V = JobIndexInfoView;

    open spec fn view(&self) -> JobIndexInfoView {
        JobIndexInfoView {
            job_id: self.job_id,
            description: self.description@,
            handle_name: self.handle_name@,
        }
    }
}

impl Clone for JobIndexInfo {
    fn clone(&self) -> (r: Self)
        ensures
            r@ == self@,
    {
        JobIndexInfo {
            job_id: self.job_id,
            description: self.description.clone(),
            handle_name: self.handle_name.clone(),
        }
    }
}

/// An indexed job with the application it belongs to.
pub struct JobEntryView {
    pub namespace: Seq<char>,
    pub app_name: Seq<char>,
    pub info: JobIndexInfoView,
}

/// Where a job sits in the index: namespace, application, job id.
pub open spec fn job_entry_key(e: JobEntryView) -> (Seq<char>, Seq<char>, u64) {
    (e.namespace, e.app_name, e.info.job_id)
}

/// Keys ordered by namespace, then application, then job id.
pub open spec fn job_key_lt(a: (Seq<char>, Seq<char>, u64), b: (Seq<char>, Seq<char>, u64)) -> bool {
    seq_lt(a.0, b.0) || (a.0 == b.0 && (seq_lt(a.1, b.1) || (a.1 == b.1 && a.2 < b.2)))
}

proof fn lemma_job_key_lt_irreflexive(a: (Seq<char>, Seq<char>, u64))
    ensures
        !job_key_lt(a, a),
{
    lemma_seq_lt_irreflexive(a.0);
    lemma_seq_lt_irreflexive(a.1);
}

proof fn lemma_job_key_lt_transitive(
    a: (Seq<char>, Seq<char>, u64),
    b: (Seq<char>, Seq<char>, u64),
    c: (Seq<char>, Seq<char>, u64),
)
    requires
        job_key_lt(a, b),
        job_key_lt(b, c),
    ensures
        job_key_lt(a, c),
{
    lemma_seq_lt_irreflexive(a.0);
    lemma_seq_lt_irreflexive(a.1);
    if seq_lt(a.0, b.0) && seq_lt(b.0, c.0) {
        lemma_seq_lt_transitive(a.0, b.0, c.0);
    }
    if a.0 == b.0 && b.0 == c.0 && seq_lt(a.1, b.1) && seq_lt(b.1, c.1) {
        lemma_seq_lt_transitive(a.1, b.1, c.1);
    }
}

proof fn lemma_job_key_lt_total(a: (Seq<char>, Seq<char>, u64), b: (Seq<char>, Seq<char>, u64))
    ensures
        job_key_lt(a, b) || job_key_lt(b, a) || a == b,
{
    lemma_seq_lt_total(a.0, b.0);
    lemma_seq_lt_total(a.1, b.1);
}

/// Entries strictly increasing by key.
pub open spec fn job_entries_sorted(s: Seq<JobEntryView>) -> bool {
    forall|i: int, j: int|
        0 <= i < j < s.len() ==> job_key_lt(
            job_entry_key(#[trigger] s[i]),
            job_entry_key(#[trigger] s[j]),
        )
}

/// The namespace of an entry.
pub open spec fn entry_namespace() -> spec_fn(JobEntryView) -> Seq<char> {
    |e: JobEntryView| e.namespace
}

/// The application of an entry.
pub open spec fn entry_app() -> spec_fn(JobEntryView) -> (Seq<char>, Seq<char>) {
    |e: JobEntryView| (e.namespace, e.app_name)
}

/// The index information of an entry.
pub open spec fn entry_info() -> spec_fn(JobEntryView) -> JobIndexInfoView {
    |e: JobEntryView| e.info
}

impl JobQueryParam {
    /// The entry passes all four filters.
    pub open spec fn entry_matches(&self, e: JobEntryView) -> bool {
        &&& equal_filter(self.namespace, e.namespace)
        &&& equal_filter(self.app_name, e.app_name)
        &&& like_filter(self.like_description, e.info.description)
        &&& like_filter(self.like_handle_name, e.info.handle_name)
    }

    /// The filters as a predicate on entries.
    pub open spec fn entry_filter(self) -> spec_fn(JobEntryView) -> bool {
        |e: JobEntryView| self.entry_matches(e)
    }

    pub fn match_namespace(&self, value: &String) -> (r: bool)
        ensures
            r == equal_filter(self.namespace, value@),
    {
        match &self.namespace {
            Some(namespace) => namespace.as_str().is_empty() || str_eq(namespace.as_str(), value.as_str()),
            None => true,
        }
    }

    pub fn match_app_name(&self, value: &String) -> (r: bool)
        ensures
            r == equal_filter(self.app_name, value@),
    {
        match &self.app_name {
            Some(app_name) => app_name.as_str().is_empty() || str_eq(app_name.as_str(), value.as_str()),
            None => true,
        }
    }

    pub fn match_description(&self, value: &String) -> (r: bool)
        ensures
            r == like_filter(self.like_description, value@),
    {
        match &self.like_description {
            Some(like) => like.as_str().is_empty() || str_contains(value.as_str(), like.as_str()),
            None => true,
        }
    }

    pub fn match_handle_name(&self, value: &String) -> (r: bool)
        ensures
            r == like_filter(self.like_handle_name, value@),
    {
        match &self.like_handle_name {
            Some(like) => like.as_str().is_empty() || str_contains(value.as_str(), like.as_str()),
            None => true,
        }
    }
}

/// An indexed job.
#[derive(Debug)]
struct JobIndexEntry {
    namespace: String,
    app_name: String,
    info: JobIndexInfo,
}

impl View for JobIndexEntry {
    type V = JobEntryView;

    closed spec fn view(&self) -> JobEntryView {
        JobEntryView { namespace: self.namespace@, app_name: self.app_name@, info: self.info@ }
    }
}

impl JobIndexEntry {
    fn compare_key(&self, namespace: &String, app_name: &String, job_id: u64) -> (r: Compared)
        ensures
            (r == Compared::Less) == job_key_lt(
                job_entry_key(self@),
                (namespace@, app_name@, job_id),
            ),
            (r == Compared::Equal) == (job_entry_key(self@) == (namespace@, app_name@, job_id)),
    {
        proof {
            lemma_job_key_lt_irreflexive(job_entry_key(self@));
            lemma_seq_lt_total(self.namespace@, namespace@);
            lemma_seq_lt_total(self.app_name@, app_name@);
            lemma_seq_lt_irreflexive(namespace@);
            lemma_seq_lt_irreflexive(app_name@);
        }
        match str_compare(self.namespace.as_str(), namespace.as_str()) {
            Compared::Less => Compared::Less,
            Compared::Greater => Compared::Greater,
            Compared::Equal => match str_compare(self.app_name.as_str(), app_name.as_str()) {
                Compared::Less => Compared::Less,
                Compared::Greater => Compared::Greater,
                Compared::Equal => {
                    if self.info.job_id < job_id {
                        Compared::Less
                    } else if self.info.job_id == job_id {
                        Compared::Equal
                    } else {
                        Compared::Greater
                    }
                },
            },
        }
    }
}

/// The indexed jobs, kept ordered by namespace, application and job id.
#[derive(Debug, Default)]
pub struct JobIndex {
    group_data: Vec<JobIndexEntry>,
}

/// The entry order as a predicate.
pub open spec fn job_entry_order() -> spec_fn(JobEntryView, JobEntryView) -> bool {
    |a: JobEntryView, b: JobEntryView| job_key_lt(job_entry_key(a), job_entry_key(b))
}

impl JobIndex {
    /// The entries, in order.
    pub closed spec fn entries(&self) -> Seq<JobEntryView> {
        self.group_data@.map_values(|e: JobIndexEntry| e@)
    }

    /// The entries strictly increase by key.
    pub open spec fn wf(&self) -> bool {
        job_entries_sorted(self.entries())
    }

    /// Some entry sits at `key`.
    pub open spec fn has_key(&self, key: (Seq<char>, Seq<char>, u64)) -> bool {
        exists|i: int| 0 <= i < self.entries().len() && job_entry_key(self.entries()[i]) == key
    }

    /// The number of distinct namespaces.
    pub open spec fn namespace_count(&self) -> nat {
        self.entries().map_values(entry_namespace()).to_set().len()
    }

    /// The number of distinct applications.
    pub open spec fn app_count(&self) -> nat {
        self.entries().map_values(entry_app()).to_set().len()
    }

    pub fn new() -> (r: JobIndex)
        ensures
            r.wf(),
            r.entries() == Seq::<JobEntryView>::empty(),
    {
        let r = JobIndex { group_data: Vec::new() };
        assert(r.entries() =~= Seq::<JobEntryView>::empty());
        r
    }

    fn lower_bound(&self, namespace: &String, app_name: &String, job_id: u64) -> (r: usize)
        requires
            self.wf(),
        ensures
            r <= self.entries().len(),
            forall|j: int|
                0 <= j < r ==> job_key_lt(
                    job_entry_key(self.entries()[j]),
                    (namespace@, app_name@, job_id),
                ),
            forall|j: int|
                r <= j < self.entries().len() ==> !job_key_lt(
                    job_entry_key(self.entries()[j]),
                    (namespace@, app_name@, job_id),
                ),
    {
        let ghost k = (namespace@, app_name@, job_id);
        let mut i: usize = 0;
        while i < self.group_data.len() && self.group_data[i].compare_key(namespace, app_name, job_id)
            == Compared::Less
            invariant
                self.wf(),
                k == (namespace@, app_name@, job_id),
                i <= self.group_data.len(),
                forall|j: int| 0 <= j < i ==> job_key_lt(job_entry_key(self.entries()[j]), k),
            decreases self.group_data.len() - i,
        {
            i = i + 1;
        }
        proof {
            assert forall|j: int| i <= j < self.entries().len() implies !job_key_lt(
                job_entry_key(self.entries()[j]),
                k,
            ) by {
                if j > i && job_key_lt(job_entry_key(self.entries()[j]), k) {
                    assert(job_key_lt(
                        job_entry_key(self.entries()[i as int]),
                        job_entry_key(self.entries()[j]),
                    ));
                    lemma_job_key_lt_transitive(
                        job_entry_key(self.entries()[i as int]),
                        job_entry_key(self.entries()[j]),
                        k,
                    );
                }
            }
        }
        i
    }

    /// Adds a job, replacing what the index held for the same job id in the same
    /// application; true when nothing was held there.
    pub fn insert(&mut self, namespace: String, app_name: String, job_info: JobIndexInfo) -> (r: bool)
        requires
            old(self).wf(),
        ensures
            final(self).wf(),
            final(self).entries().to_set() == old(self).entries().to_set().filter(
                |e: JobEntryView| job_entry_key(e) != (namespace@, app_name@, job_info.job_id),
            ).insert(JobEntryView { namespace: namespace@, app_name: app_name@, info: job_info@ }),
            r == !old(self).has_key((namespace@, app_name@, job_info.job_id)),
    {
        let ghost k = (namespace@, app_name@, job_info.job_id);
        let ghost e = JobEntryView { namespace: namespace@, app_name: app_name@, info: job_info@ };
        let ghost s = self.entries();
        let ghost kept = s.to_set().filter(|x: JobEntryView| job_entry_key(x) != k);
        let i = self.lower_bound(&namespace, &app_name, job_info.job_id);
        let found = i < self.group_data.len() && self.group_data[i].compare_key(
            &namespace,
            &app_name,
            job_info.job_id,
        ) == Compared::Equal;
        proof {
            if i < s.len() {
                lemma_job_key_lt_total(job_entry_key(s[i as int]), k);
            }
            assert forall|j: int| 0 <= j < s.len() && j != i implies job_entry_key(s[j]) != k by {
                lemma_job_key_lt_irreflexive(k);
                if j > i && job_entry_key(s[j]) == k {
                    assert(job_key_lt(job_entry_key(s[i as int]), job_entry_key(s[j])));
                }
            }
            assert forall|j: int| i < j < s.len() implies job_key_lt(k, job_entry_key(s[j])) by {
                lemma_job_key_lt_total(job_entry_key(s[j]), k);
                assert(job_key_lt(job_entry_key(s[i as int]), job_entry_key(s[j])));
                if !found {
                    lemma_job_key_lt_transitive(k, job_entry_key(s[i as int]), job_entry_key(s[j]));
                }
            }
        }
        let entry = JobIndexEntry { namespace, app_name, info: job_info };
        if found {
            self.group_data.set(i, entry);
            proof {
                let t = self.entries();
                assert(t =~= s.update(i as int, e));
                assert forall|x: JobEntryView| t.to_set().contains(x) <==> kept.insert(e).contains(x) by {
                    if t.contains(x) {
                        let j = choose|j: int| 0 <= j < t.len() && t[j] == x;
                        if j != i {
                            assert(s[j] == x);
                        }
                    }
                    if kept.contains(x) {
                        let j = choose|j: int| 0 <= j < s.len() && s[j] == x;
                        assert(j != i);
                        assert(t[j] == x);
                    }
                    if x == e {
                        assert(t[i as int] == e);
                    }
                }
                assert(t.to_set() =~= kept.insert(e));
                assert(job_entries_sorted(t)) by {
                    assert forall|a: int, b: int| 0 <= a < b < t.len() implies job_key_lt(
                        job_entry_key(#[trigger] t[a]),
                        job_entry_key(#[trigger] t[b]),
                    ) by {
                        assert(job_key_lt(job_entry_key(s[a]), job_entry_key(s[b])));
                    }
                }
            }
            false
        } else {
            self.group_data.insert(i, entry);
            proof {
                let t = self.entries();
                assert(t =~= s.insert(i as int, e));
                lemma_insert_to_set(s, i as int, e);
                assert(kept =~= s.to_set()) by {
                    assert forall|x: JobEntryView| s.to_set().contains(x) implies job_entry_key(x) != k by {
                        let j = choose|j: int| 0 <= j < s.len() && s[j] == x;
                        if j == i {
                            lemma_job_key_lt_irreflexive(k);
                        }
                    }
                }
                assert(job_entries_sorted(t)) by {
                    assert forall|a: int, b: int| 0 <= a < b < t.len() implies job_key_lt(
                        job_entry_key(#[trigger] t[a]),
                        job_entry_key(#[trigger] t[b]),
                    ) by {
                        if b < i {
                        } else if a < i && b == i {
                        } else if a < i {
                            assert(t[b] == s[b - 1]);
                        } else if a == i {
                            assert(t[b] == s[b - 1]);
                            if b - 1 == i {
                                lemma_job_key_lt_total(job_entry_key(s[i as int]), k);
                            }
                        } else {
                            assert(t[a] == s[a - 1]);
                            assert(t[b] == s[b - 1]);
                        }
                    }
                }
                assert(!self.has_key(k) || true);
            }
            true
        }
    }

    /// Removes a job; true when the index held it.
    pub fn remove(&mut self, namespace: &String, app_name: &String, job_id: u64) -> (r: bool)
        requires
            old(self).wf(),
        ensures
            final(self).wf(),
            final(self).entries().to_set() == old(self).entries().to_set().filter(
                |e: JobEntryView| job_entry_key(e) != (namespace@, app_name@, job_id),
            ),
            r == old(self).has_key((namespace@, app_name@, job_id)),
    {
        let ghost k = (namespace@, app_name@, job_id);
        let ghost s = self.entries();
        let ghost kept = s.to_set().filter(|x: JobEntryView| job_entry_key(x) != k);
        let i = self.lower_bound(namespace, app_name, job_id);
        let found = i < self.group_data.len() && self.group_data[i].compare_key(
            namespace,
            app_name,
            job_id,
        ) == Compared::Equal;
        proof {
            if i < s.len() {
                lemma_job_key_lt_total(job_entry_key(s[i as int]), k);
            }
            assert forall|j: int| 0 <= j < s.len() && j != i implies job_entry_key(s[j]) != k by {
                lemma_job_key_lt_irreflexive(k);
                if j > i && job_entry_key(s[j]) == k {
                    assert(job_key_lt(job_entry_key(s[i as int]), job_entry_key(s[j])));
                }
            }
        }
        if found {
            self.group_data.remove(i);
            proof {
                let t = self.entries();
                assert(t =~= s.remove(i as int));
                assert forall|x: JobEntryView| t.to_set().contains(x) <==> kept.contains(x) by {
                    if t.contains(x) {
                        let j = choose|j: int| 0 <= j < t.len() && t[j] == x;
                        if j < i {
                            assert(s[j] == x);
                        } else {
                            assert(s[j + 1] == x);
                        }
                    }
                    if kept.contains(x) {
                        let j = choose|j: int| 0 <= j < s.len() && s[j] == x;
                        if j < i {
                            assert(t[j] == x);
                        } else {
                            assert(t[j - 1] == x);
                        }
                    }
                }
                assert(t.to_set() =~= kept);
                assert(job_entries_sorted(t)) by {
                    assert forall|a: int, b: int| 0 <= a < b < t.len() implies job_key_lt(
                        job_entry_key(#[trigger] t[a]),
                        job_entry_key(#[trigger] t[b]),
                    ) by {
                        if a < i && b >= i {
                            assert(t[b] == s[b + 1]);
                        } else if a >= i {
                            assert(t[a] == s[a + 1]);
                            assert(t[b] == s[b + 1]);
                        }
                    }
                }
            }
            true
        } else {
            proof {
                assert(kept =~= s.to_set()) by {
                    assert forall|x: JobEntryView| s.to_set().contains(x) implies job_entry_key(x) != k by {
                        let j = choose|j: int| 0 <= j < s.len() && s[j] == x;
                        if j == i {
                            lemma_job_key_lt_irreflexive(k);
                        }
                    }
                }
            }
            false
        }
    }

    /// The number of distinct namespaces.
    pub fn get_namespace_count(&self) -> (r: usize)
        requires
            self.wf(),
        ensures
            r == self.namespace_count(),
    {
        let ghost s = self.entries();
        let ghost f = entry_namespace();
        let mut count: usize = 0;
        let mut i: usize = 0;
        while i < self.group_data.len()
            invariant
                s == self.entries(),
                f == entry_namespace(),
                i <= self.group_data.len(),
                count <= i,
                count == run_starts(s.take(i as int), f),
            decreases self.group_data.len() - i,
        {
            proof {
                lemma_run_starts_take(s, f, i as int);
            }
            if i == 0 || !str_eq(
                self.group_data[i].namespace.as_str(),
                self.group_data[i - 1].namespace.as_str(),
            ) {
                count = count + 1;
            }
            i = i + 1;
        }
        proof {
            assert(s.take(s.len() as int) == s);
            assert forall|a: int, b: int, c: int|
                #![trigger f(s[a]), f(s[b]), f(s[c])]
                0 <= a < b < c < s.len() && f(s[a]) == f(s[c]) implies f(s[b]) == f(s[a]) by {
                assert(job_key_lt(job_entry_key(s[a]), job_entry_key(s[b])));
                assert(job_key_lt(job_entry_key(s[b]), job_entry_key(s[c])));
                lemma_seq_lt_irreflexive(s[a].namespace);
                if f(s[b]) != f(s[a]) && seq_lt(s[b].namespace, s[c].namespace) {
                    lemma_seq_lt_transitive(s[a].namespace, s[b].namespace, s[c].namespace);
                }
            }
            assert(contiguous(s, f));
            lemma_run_starts_count(s, f);
        }
        count
    }

    /// The number of distinct applications.
    pub fn get_app_count(&self) -> (r: usize)
        requires
            self.wf(),
        ensures
            r == self.app_count(),
    {
        let ghost s = self.entries();
        let ghost f = entry_app();
        let mut count: usize = 0;
        let mut i: usize = 0;
        while i < self.group_data.len()
            invariant
                s == self.entries(),
                f == entry_app(),
                i <= self.group_data.len(),
                count <= i,
                count == run_starts(s.take(i as int), f),
            decreases self.group_data.len() - i,
        {
            proof {
                lemma_run_starts_take(s, f, i as int);
            }
            if i == 0 || !str_eq(
                self.group_data[i].namespace.as_str(),
                self.group_data[i - 1].namespace.as_str(),
            ) || !str_eq(
                self.group_data[i].app_name.as_str(),
                self.group_data[i - 1].app_name.as_str(),
            ) {
                count = count + 1;
            }
            i = i + 1;
        }
        proof {
            assert(s.take(s.len() as int) == s);
            assert forall|a: int, b: int, c: int|
                #![trigger f(s[a]), f(s[b]), f(s[c])]
                0 <= a < b < c < s.len() && f(s[a]) == f(s[c]) implies f(s[b]) == f(s[a]) by {
                let ka = job_entry_key(s[a]);
                let kb = job_entry_key(s[b]);
                let kc = job_entry_key(s[c]);
                assert(job_key_lt(ka, kb));
                assert(job_key_lt(kb, kc));
                lemma_seq_lt_irreflexive(ka.0);
                lemma_seq_lt_irreflexive(ka.1);
                if seq_lt(ka.0, kb.0) && seq_lt(kb.0, kc.0) {
                    lemma_seq_lt_transitive(ka.0, kb.0, kc.0);
                }
                if ka.0 == kb.0 && kb.0 == kc.0 && seq_lt(ka.1, kb.1) && seq_lt(kb.1, kc.1) {
                    lemma_seq_lt_transitive(ka.1, kb.1, kc.1);
                }
            }
            assert(contiguous(s, f));
            lemma_run_starts_count(s, f);
        }
        count
    }

    /// The number of indexed jobs.
    pub fn get_item_count(&self) -> (r: usize)
        ensures
            r == self.entries().len(),
    {
        self.group_data.len()
    }

    /// The total number of matching jobs, and the matching jobs at positions
    /// `offset` up to `offset + limit` in key order.
    pub fn query(&self, param: &JobQueryParam) -> (r: (usize, Vec<JobIndexInfo>))
        requires
            self.wf(),
            param.offset + param.limit <= usize::MAX,
        ensures
            r.0 == self.entries().filter(param.entry_filter()).len(),
            r.1@.map_values(|i: JobIndexInfo| i@) == page(
                self.entries().filter(param.entry_filter()),
                param.offset as int,
                param.offset + param.limit,
            ).map_values(entry_info()),
    {
        let ghost s = self.entries();
        let ghost f = param.entry_filter();
        let mut rlist: Vec<JobIndexInfo> = Vec::new();
        let end_index = param.offset + param.limit;
        let mut index: usize = 0;
        let mut i: usize = 0;
        while i < self.group_data.len()
            invariant
                s == self.entries(),
                f == param.entry_filter(),
                end_index == param.offset + param.limit,
                i <= self.group_data.len(),
                index <= i,
                index == s.take(i as int).filter(f).len(),
                rlist@.map_values(|i: JobIndexInfo| i@) == page(
                    s.take(i as int).filter(f),
                    param.offset as int,
                    end_index as int,
                ).map_values(entry_info()),
            decreases self.group_data.len() - i,
        {
            let entry = &self.group_data[i];
            let ghost before = s.take(i as int).filter(f);
            proof {
                assert(s.take(i + 1) == s.take(i as int).push(s[i as int]));
                s.take(i as int).lemma_filter_push(s[i as int], f);
                lemma_page_push(before, s[i as int], param.offset as int, end_index as int);
            }
            if param.match_namespace(&entry.namespace) && param.match_app_name(&entry.app_name)
                && param.match_description(&entry.info.description) && param.match_handle_name(
                &entry.info.handle_name,
            ) {
                if index >= param.offset && index < end_index {
                    let ghost old_list = rlist@;
                    rlist.push(entry.info.clone());
                    proof {
                        let pg = page(before, param.offset as int, end_index as int);
                        assert(pg.push(s[i as int]).map_values(entry_info()) =~= pg.map_values(
                            entry_info(),
                        ).push(s[i as int].info));
                        assert(rlist@.map_values(|i: JobIndexInfo| i@) =~= old_list.map_values(
                            |i: JobIndexInfo| i@,
                        ).push(entry.info@));
                    }
                }
                index = index + 1;
            }
            i = i + 1;
        }
        proof {
            assert(s.take(s.len() as int) == s);
        }
        (index, rlist)
    }
}

/// Two well-formed job indexes that hold the same entries hold them in the same order.
pub proof fn lemma_job_index_determined_by_entries(a: JobIndex, b: JobIndex)
    requires
        a.wf(),
        b.wf(),
        a.entries().to_set() == b.entries().to_set(),
    ensures
        a.entries() == b.entries(),
{
    let lt = job_entry_order();
    assert forall|x: JobEntryView| !#[trigger] lt(x, x) by {
        lemma_job_key_lt_irreflexive(job_entry_key(x));
    }
    assert forall|x: JobEntryView, y: JobEntryView, z: JobEntryView|
        #[trigger] lt(x, y) && #[trigger] lt(y, z) implies lt(x, z) by {
        lemma_job_key_lt_transitive(job_entry_key(x), job_entry_key(y), job_entry_key(z));
    }
    assert(strict_order(lt));
    assert(strictly_sorted(a.entries(), lt));
    assert(strictly_sorted(b.entries(), lt));
    lemma_sorted_same_set_equal(a.entries(), b.entries(), lt);
}

/// Removing a job that was just added to an index that did not hold its key gives
/// the index back as it was.
pub proof fn lemma_job_remove_undoes_insert(
    before: JobIndex,
    inserted: JobIndex,
    removed: JobIndex,
    e: JobEntryView,
)
    requires
        before.wf(),
        inserted.wf(),
        removed.wf(),
        !before.has_key(job_entry_key(e)),
        inserted.entries().to_set() == before.entries().to_set().filter(
            |x: JobEntryView| job_entry_key(x) != job_entry_key(e),
        ).insert(e),
        removed.entries().to_set() == inserted.entries().to_set().filter(
            |x: JobEntryView| job_entry_key(x) != job_entry_key(e),
        ),
    ensures
        removed.entries() == before.entries(),
{
    let s = before.entries();
    assert forall|x: JobEntryView| removed.entries().to_set().contains(x) <==> s.to_set().contains(x) by {
        if s.to_set().contains(x) {
            let j = choose|j: int| 0 <= j < s.len() && s[j] == x;
            assert(job_entry_key(s[j]) != job_entry_key(e));
        }
    }
    assert(removed.entries().to_set() =~= s.to_set());
    lemma_job_index_determined_by_entries(removed, before);
}

/// The key of an entry, as a function.
pub open spec fn entry_key() -> spec_fn(JobEntryView) -> (Seq<char>, Seq<char>, u64) {
    |e: JobEntryView| job_entry_key(e)
}

/// The key order as a predicate.
pub open spec fn job_key_order() -> spec_fn((Seq<char>, Seq<char>, u64), (Seq<char>, Seq<char>, u64)) -> bool {
    |a: (Seq<char>, Seq<char>, u64), b: (Seq<char>, Seq<char>, u64)| job_key_lt(a, b)
}

/// The counts of a job index are those of the set of jobs it holds (what was
/// inserted and not removed since, one job per namespace, application and job
/// id): the item count is the number of those keys, a query with no filter counts
/// every job, and the application and namespace counts are the numbers of distinct
/// applications and namespaces among them, so no group is counted once its last
/// job is gone.
pub proof fn lemma_job_index_counts(index: JobIndex, param: JobQueryParam)
    requires
        index.wf(),
        param.namespace is None,
        param.app_name is None,
        param.like_description is None,
        param.like_handle_name is None,
    ensures
        index.entries().len() == index.entries().to_set().map(entry_key()).len(),
        index.entries().len() == index.entries().to_set().len(),
        index.entries().filter(param.entry_filter()).len() == index.entries().len(),
        index.app_count() == index.entries().to_set().map(entry_app()).len(),
        index.namespace_count() == index.entries().to_set().map(entry_namespace()).len(),
{
    let s = index.entries();
    let lt = job_entry_order();
    assert forall|x: JobEntryView| !#[trigger] lt(x, x) by {
        lemma_job_key_lt_irreflexive(job_entry_key(x));
    }
    assert forall|x: JobEntryView, y: JobEntryView, z: JobEntryView|
        #[trigger] lt(x, y) && #[trigger] lt(y, z) implies lt(x, z) by {
        lemma_job_key_lt_transitive(job_entry_key(x), job_entry_key(y), job_entry_key(z));
    }
    assert(strictly_sorted(s, lt));
    lemma_strictly_sorted_unique(s, lt);
    let keys = s.map_values(entry_key());
    let klt = job_key_order();
    assert forall|a: (Seq<char>, Seq<char>, u64)| !#[trigger] klt(a, a) by {
        lemma_job_key_lt_irreflexive(a);
    }
    assert forall|a: (Seq<char>, Seq<char>, u64), b: (Seq<char>, Seq<char>, u64), c: (Seq<char>, Seq<char>, u64)|
        #[trigger] klt(a, b) && #[trigger] klt(b, c) implies klt(a, c) by {
        lemma_job_key_lt_transitive(a, b, c);
    }
    assert forall|i: int, j: int| 0 <= i < j < keys.len() implies #[trigger] klt(keys[i], keys[j]) by {
        assert(job_key_lt(job_entry_key(s[i]), job_entry_key(s[j])));
    }
    lemma_strictly_sorted_unique(keys, klt);
    s.lemma_to_set_map_commutes(entry_key());
    lemma_filter_keeps_all(s, param.entry_filter());
    s.lemma_to_set_map_commutes(entry_app());
    s.lemma_to_set_map_commutes(entry_namespace());
}

/// The job filters: a non-empty equality filter matches only its own value; a
/// non-empty substring filter matches exactly the values it stands in as a run
/// of characters (so a longer value containing it matches); an empty or absent
/// filter matches every value.
pub proof fn lemma_job_filters(f: Option<String>, value: Seq<char>)
    ensures
        f is Some && f->0@.len() > 0 ==> (equal_filter(f, value) <==> value == f->0@),
        f is Some && f->0@.len() > 0 ==> (like_filter(f, value) <==> exists|i: int|
            0 <= i && i + f->0@.len() <= value.len() && #[trigger] value.subrange(i, i + f->0@.len())
                == f->0@),
        (f is None || f->0@.len() == 0) ==> equal_filter(f, value) && like_filter(f, value),
{
    if f is Some {
        let l = f->0@;
        if exists|i: int| crate::text::occurs_at(value, l, i) {
            let i = choose|i: int| crate::text::occurs_at(value, l, i);
            assert(value.subrange(i, i + l.len()) == l);
        }
        if exists|i: int| 0 <= i && i + l.len() <= value.len() && #[trigger] value.subrange(i, i + l.len()) == l {
            let i = choose|i: int| 0 <= i && i + l.len() <= value.len() && #[trigger] value.subrange(i, i + l.len()) == l;
            assert(crate::text::occurs_at(value, l, i));
        }
    }
}

/// `part` stands in `value` as a run of characters.
pub open spec fn contains_run(value: Seq<char>, part: Seq<char>) -> bool {
    exists|i: int| 0 <= i && i + part.len() <= value.len() && #[trigger] value.subrange(i, i + part.len()) == part
}

/// A filter given and not empty.
pub open spec fn filter_given(f: Option<String>) -> bool {
    f is Some && f->0@.len() > 0
}

/// What passing the four job filters means: the namespace and the application
/// are those asked for, and the description and handler name contain the texts
/// asked for, each where that filter is given and not empty.
pub open spec fn passes_job_filters(q: JobQueryParam, namespace: Seq<char>, app_name: Seq<char>, description: Seq<char>, handle_name: Seq<char>) -> bool {
    &&& filter_given(q.namespace) ==> namespace == q.namespace->0@
    &&& filter_given(q.app_name) ==> app_name == q.app_name->0@
    &&& filter_given(q.like_description) ==> contains_run(description, q.like_description->0@)
    &&& filter_given(q.like_handle_name) ==> contains_run(handle_name, q.like_handle_name->0@)
}

/// An indexed job passes a query exactly when it passes each filter given.
pub proof fn lemma_entry_filters(q: JobQueryParam, e: JobEntryView)
    ensures
        q.entry_matches(e) <==> passes_job_filters(
            q,
            e.namespace,
            e.app_name,
            e.info.description,
            e.info.handle_name,
        ),
{
    lemma_job_filters(q.namespace, e.namespace);
    lemma_job_filters(q.app_name, e.app_name);
    lemma_job_filters(q.like_description, e.info.description);
    lemma_job_filters(q.like_handle_name, e.info.handle_name);
}

} // verus!
