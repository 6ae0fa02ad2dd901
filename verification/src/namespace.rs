//! Namespaces: the default one, ones created by users, and weak ones made on the fly.
use crate::data_object::{lemma_namespace_do_round_trip, namespace_do_fields, namespace_do_of, NamespaceDo, NamespaceDoView};
use crate::snapshot::{namespace_table, namespace_table_name, record_message, SnapshotError, SnapshotRecord};
use crate::wire::{fields_bytes, framed, lemma_frame_round_trip, two64, utf8_bytes};
use vstd::string::StringExecFns;
use crate::namespace_util::default_namespace;
use crate::runs::{lemma_page_push, page};
use crate::str_list::{KeyedByStr, StrKeyedList};
use crate::text::str_eq;
use vstd::prelude::*;

verus! {

/// The type of namespaces made on the fly for registering executors.
pub open spec fn weak_type() -> Seq<char> {
    "weak"@
}

/// The type of namespaces created by users or present from the start.
pub open spec fn normal_type() -> Seq<char> {
    "0"@
}

/// A namespace.
#[derive(Debug, Default)]
pub struct Namespace {
    pub id: String,
    pub name: String,
    pub ns_type: String,
}

impl Clone for Namespace {
    fn clone(&self) -> (r: Self)
        ensures
            r == *self,
    {
        Namespace { id: self.id.clone(), name: self.name.clone(), ns_type: self.ns_type.clone() }
    }
}

impl Namespace {
    /// The record the namespace is kept as in snapshots.
    pub fn to_do(&self) -> (r: NamespaceDo)
        ensures
            r@ == namespace_record(*self),
    {
        NamespaceDo { id: self.id.clone(), name: self.name.clone(), type_pb: self.ns_type.clone() }
    }

    /// The namespace a snapshot record holds.
    pub fn from_do(ns_do: NamespaceDo) -> (r: Namespace)
        ensures
            namespace_record(r) == ns_do@,
    {
        Namespace { id: ns_do.id, name: ns_do.name, ns_type: ns_do.type_pb }
    }
}

/// The record a namespace is kept as.
pub open spec fn namespace_record(n: Namespace) -> NamespaceDoView {
    NamespaceDoView { id: n.id@, name: n.name@, type_pb: n.ns_type@ }
}

/// The namespace record a snapshot record's value holds, where it holds one.
pub open spec fn namespace_in_record(value: Seq<u8>) -> Option<NamespaceDoView> {
    match record_message(value) {
        Some(m) => namespace_do_of(m),
        None => None,
    }
}

/// The value a namespace's snapshot record holds.
pub open spec fn namespace_value(n: Namespace) -> Seq<u8> {
    framed(fields_bytes(namespace_do_fields(namespace_record(n))))
}

/// A snapshot record keeps this namespace: in the namespace table, keyed by
/// its id, holding its record.
pub open spec fn namespace_record_holds(r: SnapshotRecord, n: Namespace) -> bool {
    &&& r.tree@ == namespace_table()
    &&& r.key@ == utf8_bytes(n.id@)
    &&& r.value@ == namespace_value(n)
    &&& r.op_type == 0
}

/// A namespace written to a snapshot record reads back as itself.
pub proof fn lemma_namespace_snapshot_round_trip(n: Namespace)
    requires
        utf8_bytes(n.id@).len() < two64(),
        utf8_bytes(n.name@).len() < two64(),
        utf8_bytes(n.ns_type@).len() < two64(),
        fields_bytes(namespace_do_fields(namespace_record(n))).len() < two64(),
    ensures
        namespace_in_record(namespace_value(n)) == Some(namespace_record(n)),
{
    lemma_frame_round_trip(fields_bytes(namespace_do_fields(namespace_record(n))));
    lemma_namespace_do_round_trip(namespace_record(n));
}

/// A namespace read back from its snapshot record is the namespace: the one
/// restored from what the record holds has its id, name and type.
pub proof fn lemma_namespace_restored_alike(n: Namespace, r: Namespace)
    requires
        utf8_bytes(n.id@).len() < two64(),
        utf8_bytes(n.name@).len() < two64(),
        utf8_bytes(n.ns_type@).len() < two64(),
        fields_bytes(namespace_do_fields(namespace_record(n))).len() < two64(),
        namespace_in_record(namespace_value(n)) is Some,
        namespace_record(r) == namespace_in_record(namespace_value(n))->0,
    ensures
        r.id@ == n.id@,
        r.name@ == n.name@,
        r.ns_type@ == n.ns_type@,
{
    lemma_namespace_snapshot_round_trip(n);
}

/// A request to create or rename a namespace.
#[derive(Debug)]
pub struct NamespaceParam {
    pub id: Option<String>,
    pub name: String,
    /// The type asked for; the manager sets the type by how the namespace is made.
    pub ns_type: String,
}

/// A namespace as shown to users.
#[derive(Debug, Default)]
pub struct NamespaceInfo {
    pub id: String,
    pub name: String,
    pub ns_type: String,
}

impl NamespaceInfo {
    pub fn from_namespace(ns: &Namespace) -> (r: NamespaceInfo)
        ensures
            r.id == ns.id,
            r.name == ns.name,
            r.ns_type == ns.ns_type,
    {
        NamespaceInfo { id: ns.id.clone(), name: ns.name.clone(), ns_type: ns.ns_type.clone() }
    }
}

/// The user-visible form of a namespace.
pub open spec fn info_of(ns: Namespace) -> (Seq<char>, Seq<char>, Seq<char>) {
    (ns.id@, ns.name@, ns.ns_type@)
}

/// A page query over namespaces.
#[derive(Debug, Default)]
pub struct NamespaceQueryParam {
    pub page: Option<u32>,
    pub page_size: Option<u32>,
    pub ns_type: Option<String>,
}

/// A namespace with the version it was stored under.
#[derive(Debug)]
pub struct NamespaceWrap {
    pub namespace: Namespace,
    pub version: u64,
}

impl NamespaceWrap {
    pub fn new(namespace: Namespace, version: u64) -> (r: NamespaceWrap)
        ensures
            r.namespace == namespace,
            r.version == version,
    {
        NamespaceWrap { namespace, version }
    }
}

impl KeyedByStr for NamespaceWrap {
    open spec fn spec_key(&self) -> Seq<char> {
        self.namespace.id@
    }

    fn key_str(&self) -> (r: &str) {
        self.namespace.id.as_str()
    }
}

/// Replicated changes to namespaces.
#[derive(Debug)]
pub enum NamespaceManagerRaftReq {
    AddNamespace(NamespaceParam),
    UpdateNamespace(NamespaceParam),
    Remove(String),
}

/// Answers to replicated changes.
#[derive(Debug)]
pub enum NamespaceManagerRaftResult {
    NamespaceInfo(NamespaceInfo),
    Empty,
}

/// Local requests on namespaces.
#[derive(Debug)]
pub enum NamespaceManagerReq {
    GetNamespace(String),
    QueryNamespace(NamespaceQueryParam),
    SetWeak(String),
    RemoveWeak(String),
    QueryList,
}

/// Answers to local requests.
#[derive(Debug)]
pub enum NamespaceManagerResult {
    NamespaceInfo(Option<NamespaceInfo>),
    NamespacePageInfo(usize, Vec<NamespaceInfo>),
    NamespaceList(Vec<NamespaceInfo>),
    Empty,
}

/// Why a namespace request is refused.
#[derive(PartialEq, Eq, Structural, Clone, Copy, Debug)]
pub enum NamespaceError {
    IdEmpty,
    JumpDefault,
    NameEmpty,
    NotFound,
}

impl NamespaceError {
    /// The message the error is reported with.
    pub fn message(&self) -> (r: &str)
        ensures
            r@ == match *self {
                NamespaceError::IdEmpty => "namespace id cannot be empty"@,
                NamespaceError::JumpDefault => "jump default namespace"@,
                NamespaceError::NameEmpty => "namespace name cannot be empty"@,
                NamespaceError::NotFound => "namespace not found"@,
            },
    {
        match self {
            NamespaceError::IdEmpty => "namespace id cannot be empty",
            NamespaceError::JumpDefault => "jump default namespace",
            NamespaceError::NameEmpty => "namespace name cannot be empty",
            NamespaceError::NotFound => "namespace not found",
        }
    }
}

/// The wrap holds a namespace with these characters and this version.
pub open spec fn wrap_is(
    w: NamespaceWrap,
    id: Seq<char>,
    name: Seq<char>,
    ns_type: Seq<char>,
    version: u64,
) -> bool {
    w.namespace.id@ == id && w.namespace.name@ == name && w.namespace.ns_type@ == ns_type
        && w.version == version
}

/// The namespaces known to the service, ordered by id.
pub struct NamespaceManager {
    pub namespace_map: StrKeyedList<NamespaceWrap>,
    pub data_load_completed: bool,
    pub version: u64,
}

impl NamespaceManager {
    pub open spec fn wf(&self) -> bool {
        self.namespace_map.wf()
    }

    /// The namespaces by id.
    pub open spec fn namespaces(&self) -> Map<Seq<char>, NamespaceWrap> {
        self.namespace_map.map()
    }

    /// The namespaces in id order.
    pub open spec fn ordered(&self) -> Seq<NamespaceWrap> {
        self.namespace_map.seq()
    }

    /// Starts with the default namespace only, stored under version 0; the next
    /// version is 1.
    pub fn new() -> (r: NamespaceManager)
        ensures
            r.wf(),
            r.namespaces().dom() == set![default_namespace()],
            wrap_is(r.namespaces()[default_namespace()], default_namespace(), default_namespace(), normal_type(), 0),
            r.version == 1,
            !r.data_load_completed,
    {
        let mut namespace_map = StrKeyedList::new();
        let ns = Namespace {
            id: crate::namespace_util::default_xxl_namespace(),
            name: crate::namespace_util::default_xxl_namespace(),
            ns_type: "0".to_owned(),
        };
        namespace_map.insert_new(NamespaceWrap::new(ns, 0));
        let r = NamespaceManager { namespace_map, data_load_completed: false, version: 1 };
        assert(r.namespaces().dom() =~= set![default_namespace()]);
        r
    }

    /// Creates or renames a namespace. Refused: a missing or empty id, the
    /// default namespace, an empty name. A known namespace gets the new name
    /// and type (`weak` when made on the fly, else `0`) and keeps its version;
    /// a new one is stored under the next version.
    pub fn update_namespace(&mut self, param: NamespaceParam, from_weak: bool) -> (r: Result<
        NamespaceInfo,
        NamespaceError,
    >)
        requires
            old(self).wf(),
            old(self).version < u64::MAX,
        ensures
            final(self).wf(),
            final(self).data_load_completed == old(self).data_load_completed,
            old(self).namespaces().contains_key(default_namespace()) ==> final(self).namespaces().contains_key(
                default_namespace(),
            ),
            updated_by(*old(self), *final(self), param, from_weak, r),
    {
        let id = match param.id {
            Some(id) => {
                if id.as_str().is_empty() {
                    return Err(NamespaceError::IdEmpty);
                }
                id
            },
            None => {
                return Err(NamespaceError::IdEmpty);
            },
        };
        proof {
            reveal_strlit("xxl");
        }
        if str_eq(id.as_str(), "xxl") {
            proof {
                assert("xxl"@ =~= default_namespace());
            }
            return Err(NamespaceError::JumpDefault);
        }
        proof {
            assert("xxl"@ =~= default_namespace());
        }
        if param.name.as_str().is_empty() {
            return Err(NamespaceError::NameEmpty);
        }
        let from_type = if from_weak {
            "weak".to_owned()
        } else {
            "0".to_owned()
        };
        let ghost old_map = self.namespaces();
        match self.namespace_map.find(id.as_str()) {
            Some(i) => {
                let old_version = self.namespace_map.get(i).version;
                let ns = Namespace { id: id.clone(), name: param.name, ns_type: from_type };
                let info = NamespaceInfo::from_namespace(&ns);
                self.namespace_map.set(i, NamespaceWrap::new(ns, old_version));
                proof {
                    assert(self.namespaces().dom() =~= old_map.dom().insert(id@));
                    assert(self.namespaces().remove(id@) =~= old_map.remove(id@));
                }
                Ok(info)
            },
            None => {
                let ns = Namespace { id: id.clone(), name: param.name, ns_type: from_type };
                let info = NamespaceInfo::from_namespace(&ns);
                let wrap = NamespaceWrap::new(ns, self.version);
                self.version = self.version + 1;
                self.namespace_map.insert_new(wrap);
                proof {
                    assert(self.namespaces().dom() =~= old_map.dom().insert(id@));
                    assert(self.namespaces().remove(id@) =~= old_map.remove(id@));
                }
                Ok(info)
            },
        }
    }

    /// Removes a namespace. Removing the default namespace does nothing and
    /// succeeds; removing an unknown one is refused.
    pub fn remove_namespace(&mut self, id: &String) -> (r: Result<(), NamespaceError>)
        requires
            old(self).wf(),
        ensures
            final(self).wf(),
            final(self).version == old(self).version,
            final(self).data_load_completed == old(self).data_load_completed,
            old(self).namespaces().contains_key(default_namespace()) ==> final(self).namespaces().contains_key(
                default_namespace(),
            ),
            if id@ == default_namespace() {
                r is Ok && final(self).namespaces() == old(self).namespaces()
            } else if old(self).namespaces().contains_key(id@) {
                r is Ok && final(self).namespaces() == old(self).namespaces().remove(id@)
            } else {
                r == Err::<(), NamespaceError>(NamespaceError::NotFound) && final(self).namespaces()
                    == old(self).namespaces()
            },
    {
        proof {
            reveal_strlit("xxl");
            assert("xxl"@ =~= default_namespace());
        }
        if str_eq(id.as_str(), "xxl") {
            return Ok(());
        }
        match self.namespace_map.find(id.as_str()) {
            Some(i) => {
                let removed = self.namespace_map.remove_at(i);
                Ok(())
            },
            None => Err(NamespaceError::NotFound),
        }
    }

    /// The namespace with this id, as shown to users.
    pub fn get_namespace(&self, id: &String) -> (r: Option<NamespaceInfo>)
        requires
            self.wf(),
        ensures
            got_by(*self, id@, r),
    {
        match self.namespace_map.find(id.as_str()) {
            Some(i) => Some(NamespaceInfo::from_namespace(&self.namespace_map.get(i).namespace)),
            None => None,
        }
    }

    /// The namespaces of the given type (all where none is given) in id order:
    /// their number, and the page `page` (at least 1, default 1) of `page_size`
    /// (at least 1, default 10) of them.
    pub fn query_namespace_page(&self, param: &NamespaceQueryParam) -> (r: (usize, Vec<NamespaceInfo>))
        requires
            self.wf(),
        ensures
            paged_by(*self, *param, r.0, r.1@),
    {
        let page_no: u64 = match param.page {
            Some(p) => if p < 1 {
                1
            } else {
                p as u64
            },
            None => 1,
        };
        let size: u64 = match param.page_size {
            Some(p) => if p < 1 {
                1
            } else {
                p as u64
            },
            None => 10,
        };
        assert(1 <= page_no <= 0xffff_ffff && 1 <= size <= 0xffff_ffff);
        assert((page_no - 1) * size <= 0xffff_fffeu64 * 0xffff_ffffu64) by (nonlinear_arith)
            requires
                page_no - 1 <= 0xffff_fffe,
                size <= 0xffff_ffff,
                0 <= page_no - 1,
        ;
        let offset: u64 = (page_no - 1) * size;
        let end: u64 = offset + size;
        let ghost s = self.ordered();
        let ghost f = |w: NamespaceWrap| type_matches(param.ns_type, w);
        let list = self.namespace_map.as_vec();
        let mut result: Vec<NamespaceInfo> = Vec::new();
        let mut total: usize = 0;
        let mut i: usize = 0;
        while i < list.len()
            invariant
                list@ == s,
                s == self.ordered(),
                f == (|w: NamespaceWrap| type_matches(param.ns_type, w)),
                end == offset + size,
                offset <= end,
                i <= list.len(),
                total <= i,
                total == s.take(i as int).filter(f).len(),
                result@.map_values(|i: NamespaceInfo| (i.id@, i.name@, i.ns_type@)) == page(
                    s.take(i as int).filter(f),
                    offset as int,
                    end as int,
                ).map_values(|w: NamespaceWrap| info_of(w.namespace)),
            decreases list.len() - i,
        {
            let w = &list[i];
            let ghost before = s.take(i as int).filter(f);
            proof {
                assert(s.take(i + 1) == s.take(i as int).push(s[i as int]));
                s.take(i as int).lemma_filter_push(s[i as int], f);
                lemma_page_push(before, s[i as int], offset as int, end as int);
            }
            let keep = match &param.ns_type {
                Some(t) => str_eq(w.namespace.ns_type.as_str(), t.as_str()),
                None => true,
            };
            if keep {
                if (total as u64) >= offset && (total as u64) < end {
                    let ghost old_list = result@;
                    result.push(NamespaceInfo::from_namespace(&w.namespace));
                    proof {
                        let pg = page(before, offset as int, end as int);
                        assert(pg.push(s[i as int]).map_values(|w: NamespaceWrap| info_of(w.namespace))
                            =~= pg.map_values(|w: NamespaceWrap| info_of(w.namespace)).push(
                            info_of(s[i as int].namespace),
                        ));
                        assert(result@.map_values(|i: NamespaceInfo| (i.id@, i.name@, i.ns_type@))
                            =~= old_list.map_values(|i: NamespaceInfo| (i.id@, i.name@, i.ns_type@)).push(
                            info_of(s[i as int].namespace),
                        ));
                    }
                }
                total = total + 1;
            }
            i = i + 1;
        }
        proof {
            assert(s.take(s.len() as int) == s);
        }
        (total, result)
    }

    /// All namespaces in id order, as shown to users.
    pub fn query_list(&self) -> (r: Vec<NamespaceInfo>)
        ensures
            r@.map_values(|i: NamespaceInfo| (i.id@, i.name@, i.ns_type@)) == self.ordered().map_values(
                |w: NamespaceWrap| info_of(w.namespace),
            ),
    {
        let list = self.namespace_map.as_vec();
        let mut result: Vec<NamespaceInfo> = Vec::new();
        let mut i: usize = 0;
        while i < list.len()
            invariant
                list@ == self.ordered(),
                i <= list.len(),
                result@.map_values(|i: NamespaceInfo| (i.id@, i.name@, i.ns_type@)) == self.ordered().take(
                    i as int,
                ).map_values(|w: NamespaceWrap| info_of(w.namespace)),
            decreases list.len() - i,
        {
            let ghost old_list = result@;
            result.push(NamespaceInfo::from_namespace(&list[i].namespace));
            proof {
                assert(self.ordered().take(i + 1) == self.ordered().take(i as int).push(list@[i as int]));
                assert(result@.map_values(|i: NamespaceInfo| (i.id@, i.name@, i.ns_type@)) =~= old_list.map_values(
                    |i: NamespaceInfo| (i.id@, i.name@, i.ns_type@),
                ).push(info_of(list@[i as int].namespace)));
            }
            i = i + 1;
        }
        proof {
            assert(self.ordered().take(list.len() as int) == self.ordered());
        }
        result
    }

    /// Makes a weak namespace for `id` unless one with that id exists.
    pub fn set_weak(&mut self, id: String)
        requires
            old(self).wf(),
            old(self).version < u64::MAX,
        ensures
            final(self).wf(),
            final(self).data_load_completed == old(self).data_load_completed,
            weak_set(*old(self), *final(self), id@),
            old(self).namespaces().contains_key(default_namespace()) ==> final(self).namespaces().contains_key(
                default_namespace(),
            ),
    {
        if self.namespace_map.find(id.as_str()).is_some() {
            return ;
        }
        let name = id.clone();
        let param = NamespaceParam { id: Some(id), name, ns_type: "weak".to_owned() };
        let r = self.update_namespace(param, true);
    }

    /// Removes the namespace with this id if it is weak.
    pub fn remove_weak(&mut self, id: &String)
        requires
            old(self).wf(),
        ensures
            final(self).wf(),
            final(self).data_load_completed == old(self).data_load_completed,
            final(self).version == old(self).version,
            old(self).namespaces().contains_key(default_namespace()) && old(self).namespaces()[default_namespace()].namespace.ns_type@
                != weak_type() ==> final(self).namespaces().contains_key(default_namespace()),
            weak_removed(*old(self), *final(self), id@),
    {
        proof {
            reveal_strlit("weak");
        }
        match self.namespace_map.find(id.as_str()) {
            Some(i) => {
                if str_eq(self.namespace_map.get(i).namespace.ns_type.as_str(), "weak") {
                    let removed = self.namespace_map.remove_at(i);
                }
            },
            None => {},
        }
    }

    /// Stores a namespace read back from a snapshot under the next version,
    /// replacing one with the same id.
    pub fn load_namespace(&mut self, namespace: Namespace)
        requires
            old(self).wf(),
            old(self).version < u64::MAX,
        ensures
            final(self).wf(),
            final(self).namespaces() == old(self).namespaces().insert(
                namespace.id@,
                NamespaceWrap { namespace, version: old(self).version },
            ),
            final(self).version == old(self).version + 1,
            old(self).namespaces().contains_key(default_namespace()) ==> final(self).namespaces().contains_key(
                default_namespace(),
            ),
    {
        let wrap = NamespaceWrap::new(namespace, self.version);
        self.version = self.version + 1;
        match self.namespace_map.find(wrap.namespace.id.as_str()) {
            Some(i) => self.namespace_map.set(i, wrap),
            None => self.namespace_map.insert_new(wrap),
        }
    }

    /// Marks the snapshot as fully loaded.
    pub fn load_completed(&mut self)
        ensures
            final(self).data_load_completed,
            final(self).namespace_map == old(self).namespace_map,
            final(self).version == old(self).version,
    {
        self.data_load_completed = true;
    }

    /// The namespaces a snapshot keeps: all but the default one and weak ones, in id order.
    pub fn snapshot_namespaces(&self) -> (r: Vec<Namespace>)
        ensures
            r@ == self.ordered().filter(|w: NamespaceWrap| persisted(w)).map_values(
                |w: NamespaceWrap| w.namespace,
            ),
    {
        proof {
            reveal_strlit("xxl");
            reveal_strlit("weak");
            assert("xxl"@ =~= default_namespace());
        }
        let ghost s = self.ordered();
        let ghost f = |w: NamespaceWrap| persisted(w);
        let list = self.namespace_map.as_vec();
        let mut result: Vec<Namespace> = Vec::new();
        let mut i: usize = 0;
        while i < list.len()
            invariant
                list@ == s,
                f == (|w: NamespaceWrap| persisted(w)),
                "xxl"@ == default_namespace(),
                i <= list.len(),
                result@ == s.take(i as int).filter(f).map_values(|w: NamespaceWrap| w.namespace),
            decreases list.len() - i,
        {
            let w = &list[i];
            proof {
                assert(s.take(i + 1) == s.take(i as int).push(s[i as int]));
                s.take(i as int).lemma_filter_push(s[i as int], f);
            }
            if !str_eq(w.namespace.id.as_str(), "xxl") && !str_eq(w.namespace.ns_type.as_str(), "weak") {
                let ghost old_list = result@;
                result.push(w.namespace.clone());
                proof {
                    assert(s.take(i as int).filter(f).push(s[i as int]).map_values(|w: NamespaceWrap| w.namespace)
                        =~= old_list.push(s[i as int].namespace));
                }
            }
            i = i + 1;
        }
        proof {
            assert(s.take(s.len() as int) == s);
        }
        result
    }
    /// The namespaces a snapshot keeps, in id order.
    pub open spec fn persisted_wraps(&self) -> Seq<NamespaceWrap> {
        self.ordered().filter(|w: NamespaceWrap| persisted(w))
    }

    /// The records a snapshot keeps of the namespaces: all but the default one and
    /// weak ones, in id order, each keyed by its id.
    pub fn build_snapshot(&self) -> (r: Vec<SnapshotRecord>)
        ensures
            r@.len() == self.persisted_wraps().len(),
            forall|i: int|
                0 <= i < r@.len() ==> namespace_record_holds(#[trigger] r@[i], self.persisted_wraps()[i].namespace),
    {
        let list = self.snapshot_namespaces();
        let ghost kept = self.persisted_wraps();
        let mut r: Vec<SnapshotRecord> = Vec::new();
        let mut i: usize = 0;
        while i < list.len()
            invariant
                i <= list@.len(),
                list@ == kept.map_values(|w: NamespaceWrap| w.namespace),
                r@.len() == i,
                forall|j: int| 0 <= j < i ==> namespace_record_holds(#[trigger] r@[j], kept[j].namespace),
            decreases list.len() - i,
        {
            let n = &list[i];
            let key = n.id.as_str().as_bytes_vec();
            let value = n.to_do().write_message();
            proof {
                reveal(utf8_bytes);
                assert(list@[i as int] == kept[i as int].namespace);
            }
            let record = SnapshotRecord { tree: namespace_table_name(), key, value, op_type: 0 };
            r.push(record);
            i = i + 1;
        }
        r
    }

    /// Loads a snapshot record: the namespace it holds replaces any with its id,
    /// at the current version. A record that cannot be read is refused.
    pub fn load_snapshot_record(&mut self, record: &SnapshotRecord) -> (r: Result<(), SnapshotError>)
        requires
            old(self).wf(),
            old(self).version < u64::MAX,
        ensures
            match namespace_in_record(record.value@) {
                Some(v) => {
                    &&& r is Ok
                    &&& final(self).wf()
                    &&& final(self).version == old(self).version + 1
                    &&& final(self).namespaces().contains_key(v.id)
                    &&& namespace_record(final(self).namespaces()[v.id].namespace) == v
                    &&& final(self).namespaces()[v.id].version == old(self).version
                    &&& final(self).namespaces().remove(v.id) == old(self).namespaces().remove(v.id)
                },
                None => r == Err::<(), SnapshotError>(SnapshotError::Unreadable) && *final(self)
                    == *old(self),
            },
    {
        match NamespaceDo::read_message(&record.value) {
            Some(ns_do) => {
                let namespace = Namespace::from_do(ns_do);
                let ghost id = namespace.id@;
                let ghost before = self.namespaces();
                self.load_namespace(namespace);
                proof {
                    assert(self.namespaces().remove(id) =~= before.remove(id));
                }
                Ok(())
            },
            None => Err(SnapshotError::Unreadable),
        }
    }

    /// A replicated change. Creating answers with the namespace made; a failed
    /// update is ignored; removing an unknown namespace is refused.
    pub fn handle_raft(&mut self, msg: NamespaceManagerRaftReq) -> (r: Result<
        NamespaceManagerRaftResult,
        NamespaceError,
    >)
        requires
            old(self).wf(),
            old(self).version < u64::MAX,
        ensures
            final(self).wf(),
            final(self).data_load_completed == old(self).data_load_completed,
            old(self).namespaces().contains_key(default_namespace()) ==> final(self).namespaces().contains_key(
                default_namespace(),
            ),
            match msg {
                NamespaceManagerRaftReq::AddNamespace(p) => match r {
                    Ok(NamespaceManagerRaftResult::NamespaceInfo(info)) => updated_by(
                        *old(self),
                        *final(self),
                        p,
                        false,
                        Ok(info),
                    ),
                    Ok(NamespaceManagerRaftResult::Empty) => false,
                    Err(e) => updated_by(*old(self), *final(self), p, false, Err(e)),
                },
                NamespaceManagerRaftReq::UpdateNamespace(p) => r == Ok::<
                    NamespaceManagerRaftResult,
                    NamespaceError,
                >(NamespaceManagerRaftResult::Empty) && exists|u: Result<NamespaceInfo, NamespaceError>|
                    #[trigger] updated_by(*old(self), *final(self), p, false, u),
                NamespaceManagerRaftReq::Remove(id) => if id@ == default_namespace() {
                    r == Ok::<NamespaceManagerRaftResult, NamespaceError>(NamespaceManagerRaftResult::Empty)
                        && final(self).namespaces() == old(self).namespaces()
                } else if old(self).namespaces().contains_key(id@) {
                    r == Ok::<NamespaceManagerRaftResult, NamespaceError>(NamespaceManagerRaftResult::Empty)
                        && final(self).namespaces() == old(self).namespaces().remove(id@)
                } else {
                    r == Err::<NamespaceManagerRaftResult, NamespaceError>(NamespaceError::NotFound)
                        && final(self).namespaces() == old(self).namespaces()
                },
            },
    {
        match msg {
            NamespaceManagerRaftReq::AddNamespace(param) => {
                match self.update_namespace(param, false) {
                    Ok(info) => Ok(NamespaceManagerRaftResult::NamespaceInfo(info)),
                    Err(e) => Err(e),
                }
            },
            NamespaceManagerRaftReq::UpdateNamespace(param) => {
                let _ = self.update_namespace(param, false);
                Ok(NamespaceManagerRaftResult::Empty)
            },
            NamespaceManagerRaftReq::Remove(id) => {
                match self.remove_namespace(&id) {
                    Ok(()) => Ok(NamespaceManagerRaftResult::Empty),
                    Err(e) => Err(e),
                }
            },
        }
    }

    /// A local request.
    pub fn handle(&mut self, msg: NamespaceManagerReq) -> (r: NamespaceManagerResult)
        requires
            old(self).wf(),
            old(self).version < u64::MAX,
        ensures
            final(self).wf(),
            final(self).data_load_completed == old(self).data_load_completed,
            !(msg is SetWeak || msg is RemoveWeak) ==> final(self).namespaces() == old(self).namespaces(),
            match msg {
                NamespaceManagerReq::GetNamespace(id) => r matches NamespaceManagerResult::NamespaceInfo(o)
                    && got_by(*old(self), id@, o),
                NamespaceManagerReq::QueryNamespace(p) => r matches NamespaceManagerResult::NamespacePageInfo(
                    total,
                    list,
                ) && paged_by(*old(self), p, total, list@),
                NamespaceManagerReq::QueryList => r is NamespaceList && r->NamespaceList_0@.map_values(
                    |i: NamespaceInfo| (i.id@, i.name@, i.ns_type@),
                ) == old(self).ordered().map_values(|w: NamespaceWrap| info_of(w.namespace)),
                NamespaceManagerReq::SetWeak(id) => r is Empty && weak_set(*old(self), *final(self), id@),
                NamespaceManagerReq::RemoveWeak(id) => r is Empty && weak_removed(
                    *old(self),
                    *final(self),
                    id@,
                ),
            },
    {
        match msg {
            NamespaceManagerReq::GetNamespace(id) => NamespaceManagerResult::NamespaceInfo(
                self.get_namespace(&id),
            ),
            NamespaceManagerReq::SetWeak(id) => {
                self.set_weak(id);
                NamespaceManagerResult::Empty
            },
            NamespaceManagerReq::RemoveWeak(id) => {
                self.remove_weak(&id);
                NamespaceManagerResult::Empty
            },
            NamespaceManagerReq::QueryNamespace(param) => {
                let (total, list) = self.query_namespace_page(&param);
                NamespaceManagerResult::NamespacePageInfo(total, list)
            },
            NamespaceManagerReq::QueryList => NamespaceManagerResult::NamespaceList(self.query_list()),
        }
    }

}

/// The namespace is kept by snapshots: not the default one, not weak.
pub open spec fn persisted(w: NamespaceWrap) -> bool {
    w.namespace.id@ != default_namespace() && w.namespace.ns_type@ != weak_type()
}

/// An absent type filter keeps every namespace; a given one keeps those of that type.
pub open spec fn type_matches(t: Option<String>, w: NamespaceWrap) -> bool {
    match t {
        Some(t) => w.namespace.ns_type@ == t@,
        None => true,
    }
}

/// The value, or the default where absent.
pub open spec fn or_default_u32(v: Option<u32>, d: u32) -> int {
    match v {
        Some(x) => x as int,
        None => d as int,
    }
}

/// The value, raised to at least 1.
pub open spec fn max1(v: int) -> int {
    if v < 1 {
        1
    } else {
        v
    }

}


/// What `update_namespace` makes of the namespaces and answers: the id must be
/// given and not empty, not the default one, and the name not empty (checked
/// in that order); then the namespace is renamed, with the type given, at its
/// version, or created at the next version. A refusal changes nothing.
pub open spec fn updated_by(
    before: NamespaceManager,
    after: NamespaceManager,
    param: NamespaceParam,
    from_weak: bool,
    r: Result<NamespaceInfo, NamespaceError>,
) -> bool {
    &&& match param.id {
        None => r == Err::<NamespaceInfo, NamespaceError>(NamespaceError::IdEmpty),
        Some(id) => if id@.len() == 0 {
            r == Err::<NamespaceInfo, NamespaceError>(NamespaceError::IdEmpty)
        } else if id@ == default_namespace() {
            r == Err::<NamespaceInfo, NamespaceError>(NamespaceError::JumpDefault)
        } else if param.name@.len() == 0 {
            r == Err::<NamespaceInfo, NamespaceError>(NamespaceError::NameEmpty)
        } else {
            r is Ok
        },
    }
    &&& r is Err ==> after.namespaces() == before.namespaces() && after.version == before.version
    &&& r is Ok ==> {
        let id = param.id->0@;
        let t = if from_weak {
            weak_type()
        } else {
            normal_type()
        };
        let info = r->Ok_0;
        &&& after.namespaces().dom() == before.namespaces().dom().insert(id)
        &&& after.namespaces().remove(id) == before.namespaces().remove(id)
        &&& info.id@ == id && info.name@ == param.name@ && info.ns_type@ == t
        &&& if before.namespaces().contains_key(id) {
            &&& wrap_is(after.namespaces()[id], id, param.name@, t, before.namespaces()[id].version)
            &&& after.version == before.version
        } else {
            &&& wrap_is(after.namespaces()[id], id, param.name@, t, before.version)
            &&& after.version == before.version + 1
        }
    }
}

/// What `get_namespace` answers: the namespace with the id, shown, if any.
pub open spec fn got_by(m: NamespaceManager, id: Seq<char>, r: Option<NamespaceInfo>) -> bool {
    &&& r is Some <==> m.namespaces().contains_key(id)
    &&& r is Some ==> ({
        let ns = m.namespaces()[id].namespace;
        &&& r->0.id == ns.id
        &&& r->0.name == ns.name
        &&& r->0.ns_type == ns.ns_type
    })
}

/// What `query_namespace_page` answers: the number of namespaces of the type
/// asked for (all where none is), and the page asked for of them, in id order
/// (pages count from 1, page 1 of 10 by default; zero counts as one).
pub open spec fn paged_by(m: NamespaceManager, param: NamespaceQueryParam, total: usize, list: Seq<NamespaceInfo>) -> bool {
    let matching = m.ordered().filter(|w: NamespaceWrap| type_matches(param.ns_type, w));
    let page_no = max1(or_default_u32(param.page, 1));
    let size = max1(or_default_u32(param.page_size, 10));
    let offset = (page_no - 1) * size;
    &&& total == matching.len()
    &&& list.map_values(|i: NamespaceInfo| (i.id@, i.name@, i.ns_type@)) == page(
        matching,
        offset,
        offset + size,
    ).map_values(|w: NamespaceWrap| info_of(w.namespace))
}

/// What `set_weak` makes of the namespaces: an unknown id (not empty, not the
/// default) gets a weak namespace named after it at the next version; otherwise
/// nothing changes.
pub open spec fn weak_set(before: NamespaceManager, after: NamespaceManager, id: Seq<char>) -> bool {
    &&& before.namespaces().contains_key(id) || id.len() == 0 ==> after.namespaces()
        == before.namespaces() && after.version == before.version
    &&& !before.namespaces().contains_key(id) && id.len() > 0 && id != default_namespace() ==> ({
        &&& after.namespaces().dom() == before.namespaces().dom().insert(id)
        &&& after.namespaces().remove(id) == before.namespaces().remove(id)
        &&& wrap_is(after.namespaces()[id], id, id, weak_type(), before.version)
        &&& after.version == before.version + 1
    })
    &&& id == default_namespace() ==> after.namespaces() == before.namespaces()
}

/// What `remove_weak` makes of the namespaces: a weak namespace with the id is
/// removed; nothing else changes.
pub open spec fn weak_removed(before: NamespaceManager, after: NamespaceManager, id: Seq<char>) -> bool {
    if before.namespaces().contains_key(id) && before.namespaces()[id].namespace.ns_type@ == weak_type() {
        after.namespaces() == before.namespaces().remove(id)
    } else {
        after.namespaces() == before.namespaces()
    }
}


/// Removing a namespace just created undoes the creation: the namespaces are
/// as they were before.
pub proof fn lemma_remove_undoes_create(
    before: NamespaceManager,
    mid: NamespaceManager,
    after: NamespaceManager,
    param: NamespaceParam,
    info: NamespaceInfo,
)
    requires
        updated_by(before, mid, param, false, Ok(info)),
        !before.namespaces().contains_key(param.id->0@),
        after.namespaces() == mid.namespaces().remove(param.id->0@),
    ensures
        after.namespaces() == before.namespaces(),
{
    let id = param.id->0@;
    assert(before.namespaces().remove(id) =~= before.namespaces());
}


/// Reading a namespace after a successful update gives back what was written:
/// its id, the name given, and the type the update set.
pub proof fn lemma_get_after_update(
    before: NamespaceManager,
    after: NamespaceManager,
    param: NamespaceParam,
    from_weak: bool,
    info: NamespaceInfo,
    got: Option<NamespaceInfo>,
)
    requires
        updated_by(before, after, param, from_weak, Ok(info)),
        got_by(after, param.id->0@, got),
    ensures
        got matches Some(g) && g.id@ == param.id->0@ && g.name@ == param.name@ && g.ns_type@ == info.ns_type@,
{
}

} // verus!
