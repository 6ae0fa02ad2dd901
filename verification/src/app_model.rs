//! Applications, their instances and the keys they are found by.
use crate::app_index::AppQueryParam;
use crate::app_list::KeyedByApp;
use crate::data_object::{AppInfoDo, AppInfoDoView, AppInstanceDo, AppInstanceDoView};
use crate::datetime::now_second_u32;
use crate::str_list::{keys_increasing, lemma_key_index, seq_has_key, seq_key_index, KeyedByStr, StrKeyedList};
use crate::text::{lemma_split_on_len, lemma_split_on_two, split_on, split_str, lemma_seq_lt_irreflexive, lemma_seq_lt_transitive, lemma_seq_lt_total, seq_lt, str_compare, Compared};
use vstd::prelude::*;
use vstd::string::StringExecFns;

verus! {

/// How an application came to be known: registered by an executor or created by hand.
#[derive(PartialEq, Eq, Structural, Clone, Copy, Debug)]
pub enum RegisterType {
    Auto,
    Manual,
}

/// The wire name of each `RegisterType`.
pub open spec fn register_type_name(t: RegisterType) -> Seq<char> {
    match t {
        RegisterType::Auto => "AUTO"@,
        RegisterType::Manual => "MANUAL"@,
    }
}

/// The `RegisterType` a wire name denotes (`Auto` for any other name).
pub open spec fn register_type_of(s: Seq<char>) -> RegisterType {
    if s == "MANUAL"@ {
        RegisterType::Manual
    } else {
        RegisterType::Auto
    }
}

impl RegisterType {
    /// Reads a wire name.
    pub fn from_str(s: &str) -> (r: RegisterType)
        ensures
            r == register_type_of(s@),
    {
        if crate::text::str_eq(s, "MANUAL") {
            RegisterType::Manual
        } else {
            RegisterType::Auto
        }
    }

    /// The wire name.
    pub fn to_str(&self) -> (r: &str)
        ensures
            r@ == register_type_name(*self),
    {
        match self {
            RegisterType::Auto => "AUTO",
            RegisterType::Manual => "MANUAL",
        }
    }
}

/// Reading the wire name of a `RegisterType` gives it back.
pub proof fn lemma_register_type_round_trip(t: RegisterType)
    ensures
        register_type_of(register_type_name(t)) == t,
{
    reveal_strlit("AUTO");
    reveal_strlit("MANUAL");
    assert("AUTO"@.len() != "MANUAL"@.len());
}

/// The wire name of a `RegisterType` is short.
pub proof fn lemma_register_type_name_short(t: RegisterType)
    ensures
        register_type_name(t).len() <= 8,
{
    reveal_strlit("AUTO");
    reveal_strlit("MANUAL");
}

/// An application is identified by its namespace and name.
#[derive(Debug, Default, PartialEq, Eq, Hash)]
pub struct AppKey {
    pub app_name: String,
    pub namespace: String,
}

/// The characters of an application key.
pub struct AppKeyView {
    pub namespace: Seq<char>,
    pub app_name: Seq<char>,
}

impl View for AppKey {
    type V = AppKeyView;

    open spec fn view(&self) -> AppKeyView {
        AppKeyView { namespace: self.namespace@, app_name: self.app_name@ }
    }
}

/// Keys are ordered by namespace, then by name.
pub open spec fn app_key_lt(a: AppKeyView, b: AppKeyView) -> bool {
    seq_lt(a.namespace, b.namespace) || (a.namespace == b.namespace && seq_lt(
        a.app_name,
        b.app_name,
    ))
}

/// The key order is transitive.
pub proof fn lemma_app_key_lt_transitive(a: AppKeyView, b: AppKeyView, c: AppKeyView)
    requires
        app_key_lt(a, b),
        app_key_lt(b, c),
    ensures
        app_key_lt(a, c),
{
    if seq_lt(a.namespace, b.namespace) && seq_lt(b.namespace, c.namespace) {
        lemma_seq_lt_transitive(a.namespace, b.namespace, c.namespace);
    }
    lemma_seq_lt_irreflexive(a.namespace);
    if a.namespace == b.namespace && b.namespace == c.namespace {
        lemma_seq_lt_transitive(a.app_name, b.app_name, c.app_name);
    }
}

/// The key order is irreflexive.
pub proof fn lemma_app_key_lt_irreflexive(a: AppKeyView)
    ensures
        !app_key_lt(a, a),
{
    lemma_seq_lt_irreflexive(a.namespace);
    lemma_seq_lt_irreflexive(a.app_name);
}

/// Two keys are ordered one way or the other, or equal.
pub proof fn lemma_app_key_lt_total(a: AppKeyView, b: AppKeyView)
    ensures
        app_key_lt(a, b) || app_key_lt(b, a) || a == b,
{
    lemma_seq_lt_total(a.namespace, b.namespace);
    lemma_seq_lt_total(a.app_name, b.app_name);
}

/// Compares two (namespace, name) pairs by namespace, then by name.
pub fn compare_app_keys(ns_a: &str, name_a: &str, ns_b: &str, name_b: &str) -> (r: Compared)
    ensures
        (r == Compared::Less) == app_key_lt(
            AppKeyView { namespace: ns_a@, app_name: name_a@ },
            AppKeyView { namespace: ns_b@, app_name: name_b@ },
        ),
        (r == Compared::Equal) == (ns_a@ == ns_b@ && name_a@ == name_b@),
{
    let ghost a = AppKeyView { namespace: ns_a@, app_name: name_a@ };
    let ghost b = AppKeyView { namespace: ns_b@, app_name: name_b@ };
    proof {
        lemma_app_key_lt_irreflexive(a);
        lemma_seq_lt_irreflexive(ns_a@);
    }
    match str_compare(ns_a, ns_b) {
        Compared::Less => Compared::Less,
        Compared::Greater => {
            proof {
                lemma_seq_lt_total(ns_a@, ns_b@);
            }
            Compared::Greater
        },
        Compared::Equal => {
            let c = str_compare(name_a, name_b);
            proof {
                lemma_seq_lt_irreflexive(name_a@);
            }
            c
        },
    }
}

impl Clone for AppKey {
    fn clone(&self) -> (r: Self)
        ensures
            r == *self,
    {
        AppKey { app_name: self.app_name.clone(), namespace: self.namespace.clone() }
    }
}

impl AppKey {
    pub fn new(name: String, namespace: String) -> (r: AppKey)
        ensures
            r.app_name == name,
            r.namespace == namespace,
    {
        AppKey { app_name: name, namespace }
    }

    /// Compares two keys by namespace, then by name.
    pub fn compare_key(&self, other: &AppKey) -> (r: Compared)
        ensures
            (r == Compared::Less) == app_key_lt(self@, other@),
            (r == Compared::Equal) == (self@ == other@),
    {
        compare_app_keys(
            self.namespace.as_str(),
            self.app_name.as_str(),
            other.namespace.as_str(),
            other.app_name.as_str(),
        )
    }

    /// The storage key: namespace, a `\x02` separator, then name.
    pub fn build_key(&self) -> (r: String)
        ensures
            r@ == self.namespace@ + seq!['\x02'] + self.app_name@,
    {
        proof {
            reveal_strlit("\x02");
        }
        let mut s = self.namespace.clone();
        s.append("\x02");
        s.append(self.app_name.as_str());
        s
    }

    /// The key a storage key names: the text before the first `\x02` is the
    /// namespace, the text after it (up to any next `\x02`) the name; a missing
    /// part is empty.
    pub fn from_key(value: &str) -> (r: AppKey)
        ensures
            r.namespace@ == split_on(value@, '\x02')[0],
            r.app_name@ == if split_on(value@, '\x02').len() > 1 {
                split_on(value@, '\x02')[1]
            } else {
                Seq::empty()
            },
    {
        let mut list = split_str(value, '\x02');
        proof {
            lemma_split_on_len(value@, '\x02');
        }
        let app_name = if list.len() > 1 {
            list.remove(1)
        } else {
            String::new()
        };
        let namespace = list.remove(0);
        AppKey::new(app_name, namespace)
    }
}

/// Reading back a storage key gives the key, where neither part holds `\x02`.
pub proof fn lemma_app_key_round_trip(k: AppKeyView)
    requires
        !k.namespace.contains('\x02'),
        !k.app_name.contains('\x02'),
    ensures
        split_on(k.namespace + seq!['\x02'] + k.app_name, '\x02') == seq![k.namespace, k.app_name],
{
    lemma_split_on_two(k.namespace, k.app_name, '\x02');
}

/// One running executor of an application.
#[derive(Debug)]
pub struct AppInstance {
    pub addr: String,
    pub healthy: bool,
    pub enable: bool,
    pub last_modified_time: u32,
    pub register_time: u32,
}

impl Clone for AppInstance {
    fn clone(&self) -> (r: Self)
        ensures
            r == *self,
    {
        AppInstance {
            addr: self.addr.clone(),
            healthy: self.healthy,
            enable: self.enable,
            last_modified_time: self.last_modified_time,
            register_time: self.register_time,
        }
    }
}

impl KeyedByStr for AppInstance {
    open spec fn spec_key(&self) -> Seq<char> {
        self.addr@
    }

    fn key_str(&self) -> (r: &str) {
        self.addr.as_str()
    }
}

/// A healthy, enabled instance last seen, and registered, at `t` (seconds).
pub open spec fn fresh_instance(addr: String, t: u32) -> AppInstance {
    AppInstance { addr, healthy: true, enable: true, last_modified_time: t, register_time: t }
}

impl AppInstance {
    /// A healthy, enabled instance registered now.
    pub fn new(addr: String) -> (r: AppInstance)
        ensures
            r == fresh_instance(addr, r.register_time),
    {
        let now = now_second_u32();
        AppInstance::new_with_time(addr, now)
    }

    /// A healthy, enabled instance last seen, and registered, at `last_time`.
    pub fn new_with_time(addr: String, last_time: u32) -> (r: AppInstance)
        ensures
            r == fresh_instance(addr, last_time),
    {
        AppInstance {
            addr,
            healthy: true,
            enable: true,
            last_modified_time: last_time,
            register_time: last_time,
        }
    }

    /// The record the instance is kept as in snapshots: its address and when it
    /// was last seen, with no token.
    pub fn to_do(&self) -> (r: AppInstanceDo)
        ensures
            r.addr@ == self.addr@,
            r.last_modified_time == self.last_modified_time,
            r.token@ == Seq::<char>::empty(),
    {
        AppInstanceDo {
            addr: self.addr.clone(),
            last_modified_time: self.last_modified_time,
            token: String::new(),
        }
    }

    /// The instance a snapshot record holds: healthy, enabled, and registered
    /// when it was last seen.
    pub fn from_do(record: AppInstanceDo) -> (r: AppInstance)
        ensures
            r.addr@ == record.addr@,
            r.healthy,
            r.enable,
            r.last_modified_time == record.last_modified_time,
            r.register_time == record.last_modified_time,
    {
        AppInstance::new_with_time(record.addr, record.last_modified_time)
    }
}

/// An application with its instances, by address.
#[derive(Debug)]
pub struct AppInfo {
    pub app_name: String,
    pub namespace: String,
    pub label: String,
    pub register_type: RegisterType,
    pub tmp: bool,
    pub instance_map: StrKeyedList<AppInstance>,
}

impl AppInfo {
    pub open spec fn wf(&self) -> bool {
        self.instance_map.wf()
    }

    /// The instances, by address.
    pub open spec fn instances(&self) -> Map<Seq<char>, AppInstance> {
        self.instance_map.map()
    }

    /// The key the application is found by.
    pub open spec fn key_view(&self) -> AppKeyView {
        AppKeyView { namespace: self.namespace@, app_name: self.app_name@ }
    }

    /// An application with no instances.
    pub fn new(
        name: String,
        namespace: String,
        label: String,
        register_type: RegisterType,
        tmp: bool,
    ) -> (r: AppInfo)
        ensures
            r.wf(),
            r.app_name == name,
            r.namespace == namespace,
            r.label == label,
            r.register_type == register_type,
            r.tmp == tmp,
            r.instances() == Map::<Seq<char>, AppInstance>::empty(),
    {
        AppInfo {
            app_name: name,
            namespace,
            label,
            register_type,
            instance_map: StrKeyedList::new(),
            tmp,
        }
    }

    /// The application's key.
    pub fn build_key(&self) -> (r: AppKey)
        ensures
            r.app_name == self.app_name,
            r.namespace == self.namespace,
    {
        AppKey::new(self.app_name.clone(), self.namespace.clone())
    }

    /// The record the application is kept as in snapshots: its fields, and one
    /// record for each instance, in address order.
    pub fn to_do(&self) -> (r: AppInfoDo)
        requires
            self.wf(),
        ensures
            r@ == app_record(*self),
    {
        let list = self.instance_map.as_vec();
        let mut instances: Vec<AppInstanceDo> = Vec::new();
        let mut i: usize = 0;
        while i < list.len()
            invariant
                i <= list@.len(),
                list@ == self.instance_map.seq(),
                instances@.len() == i,
                forall|j: int| 0 <= j < i ==> #[trigger] instances@[j]@ == instance_record(list@[j]),
            decreases list.len() - i,
        {
            instances.push(list[i].to_do());
            i = i + 1;
        }
        let r = AppInfoDo {
            app_name: self.app_name.clone(),
            namespace: self.namespace.clone(),
            label: self.label.clone(),
            register_type: self.register_type.to_str().to_owned(),
            tmp: self.tmp,
            instances,
        };
        proof {
            assert(r@.instances =~= app_record(*self).instances);
        }
        r
    }

    /// The application a snapshot record holds; where two instance records
    /// share an address the later one stands.
    pub fn from_do(record: AppInfoDo) -> (r: AppInfo)
        ensures
            r.wf(),
            restores_app(r, record@),
    {
        let ghost recs = record@.instances;
        let AppInfoDo { app_name, namespace, label, register_type, tmp, instances } = record;
        let register_type = RegisterType::from_str(register_type.as_str());
        let mut instance_map: StrKeyedList<AppInstance> = StrKeyedList::new();
        let mut i: usize = 0;
        let mut rest = instances;
        proof {
            assert(recs == crate::data_object::app_instance_do_views(rest@));
            assert(recs.len() == rest@.len());
            assert(rest@.len() == rest.len());
            assert(recs.take(0) =~= Seq::<AppInstanceDoView>::empty());
        }
        while rest.len() > 0
            invariant
                i + rest@.len() == recs.len(),
                recs.len() <= usize::MAX,
                forall|j: int| 0 <= j < rest@.len() ==> #[trigger] rest@[j]@ == recs[i + j],
                instance_map.wf(),
                restores_instances(instance_map.map(), recs.take(i as int)),
            decreases rest.len(),
        {
            let item = rest.remove(0);
            proof {
                assert(item@ == recs[i as int]);
            }
            let instance = AppInstance::from_do(item);
            let ghost before = instance_map.map();
            match instance_map.find(instance.addr.as_str()) {
                Some(at) => {
                    instance_map.set(at, instance);
                },
                None => {
                    instance_map.insert_new(instance);
                },
            }
            proof {
                lemma_restores_instances_push(before, recs.take(i as int), recs[i as int], instance);
                assert(recs.take(i + 1) =~= recs.take(i as int).push(recs[i as int]));
            }
            i = i + 1;
        }
        proof {
            assert(recs.take(i as int) =~= recs);
        }
        AppInfo { app_name, namespace, label, register_type, instance_map, tmp }
    }
}

/// The record an instance is kept as.
pub open spec fn instance_record(a: AppInstance) -> AppInstanceDoView {
    AppInstanceDoView { addr: a.addr@, last_modified_time: a.last_modified_time, token: Seq::empty() }
}

/// The record an application is kept as: instances in address order.
pub open spec fn app_record(a: AppInfo) -> AppInfoDoView {
    AppInfoDoView {
        app_name: a.app_name@,
        namespace: a.namespace@,
        label: a.label@,
        register_type: register_type_name(a.register_type),
        tmp: a.tmp,
        instances: a.instance_map.seq().map_values(|x: AppInstance| instance_record(x)),
    }
}

/// The last record with this address.
pub open spec fn last_with_addr(recs: Seq<AppInstanceDoView>, addr: Seq<char>) -> Option<AppInstanceDoView>
    decreases recs.len(),
{
    if recs.len() == 0 {
        None
    } else if recs.last().addr == addr {
        Some(recs.last())
    } else {
        last_with_addr(recs.drop_last(), addr)
    }
}

/// `a` is the instance a record restores: healthy, enabled, and registered
/// when it was last seen.
pub open spec fn restores_instance(a: AppInstance, rec: AppInstanceDoView) -> bool {
    &&& a.addr@ == rec.addr
    &&& a.healthy
    &&& a.enable
    &&& a.last_modified_time == rec.last_modified_time
    &&& a.register_time == rec.last_modified_time
}

/// The instances, by address, that a sequence of records restores: one for
/// each address, from the last record with it.
pub open spec fn restores_instances(m: Map<Seq<char>, AppInstance>, recs: Seq<AppInstanceDoView>) -> bool {
    forall|k: Seq<char>|
        (#[trigger] m.contains_key(k) <==> last_with_addr(recs, k) is Some) && (m.contains_key(k)
            ==> restores_instance(m[k], last_with_addr(recs, k).unwrap()))
}

proof fn lemma_restores_instances_push(
    m: Map<Seq<char>, AppInstance>,
    recs: Seq<AppInstanceDoView>,
    rec: AppInstanceDoView,
    a: AppInstance,
)
    requires
        restores_instances(m, recs),
        restores_instance(a, rec),
    ensures
        restores_instances(m.insert(a.addr@, a), recs.push(rec)),
{
    assert(recs.push(rec).drop_last() == recs);
    assert forall|k: Seq<char>| #[trigger] m.insert(a.addr@, a).contains_key(k) <==> last_with_addr(
        recs.push(rec),
        k,
    ) is Some by {
        assert(last_with_addr(recs.push(rec), k) == if rec.addr == k {
            Some(rec)
        } else {
            last_with_addr(recs, k)
        });
        assert(m.contains_key(k) <==> last_with_addr(recs, k) is Some);
    }
    assert forall|k: Seq<char>| #[trigger] m.insert(a.addr@, a).contains_key(k) implies restores_instance(
        m.insert(a.addr@, a)[k],
        last_with_addr(recs.push(rec), k).unwrap(),
    ) by {
        assert(last_with_addr(recs.push(rec), k) == if rec.addr == k {
            Some(rec)
        } else {
            last_with_addr(recs, k)
        });
    }
}

impl KeyedByApp for AppInfo {
    open spec fn spec_key(&self) -> AppKeyView {
        self.key_view()
    }

    fn key(&self) -> (r: AppKey) {
        self.build_key()
    }

    fn compare_to(&self, key: &AppKey) -> (r: Compared) {
        compare_app_keys(
            self.namespace.as_str(),
            self.app_name.as_str(),
            key.namespace.as_str(),
            key.app_name.as_str(),
        )
    }
}

/// An instance as listed to other parts of the service.
#[derive(Debug)]
pub struct AppInstanceDto {
    pub app_key: AppKey,
    pub instance_addr: String,
    pub last_modified_time: u32,
}

/// An instance is identified by its application's namespace and name and its address.
#[derive(Debug, Default, PartialEq, Eq, Hash)]
pub struct AppInstanceKey {
    pub app_name: String,
    pub namespace: String,
    pub addr: String,
}

impl Clone for AppInstanceKey {
    fn clone(&self) -> (r: Self)
        ensures
            r == *self,
    {
        AppInstanceKey {
            app_name: self.app_name.clone(),
            namespace: self.namespace.clone(),
            addr: self.addr.clone(),
        }
    }
}

impl AppInstanceKey {
    pub fn new(app_name: String, namespace: String, addr: String) -> (r: AppInstanceKey)
        ensures
            r == (AppInstanceKey { app_name, namespace, addr }),
    {
        AppInstanceKey { app_name, namespace, addr }
    }

    /// The key of the instance at `addr` of the application `app_key`.
    pub fn new_with_app_key(app_key: AppKey, addr: String) -> (r: AppInstanceKey)
        ensures
            r == (AppInstanceKey { app_name: app_key.app_name, namespace: app_key.namespace, addr }),
    {
        AppInstanceKey::new(app_key.app_name, app_key.namespace, addr)
    }

    /// The key of the instance's application.
    pub fn build_app_key(&self) -> (r: AppKey)
        ensures
            r.app_name == self.app_name,
            r.namespace == self.namespace,
    {
        AppKey::new(self.app_name.clone(), self.namespace.clone())
    }

    /// The storage key: namespace, name and address, each pair separated by `\x02`.
    pub fn build_key(&self) -> (r: String)
        ensures
            r@ == self.namespace@ + seq!['\x02'] + self.app_name@ + seq!['\x02'] + self.addr@,
    {
        proof {
            reveal_strlit("\x02");
        }
        let mut s = self.namespace.clone();
        s.append("\x02");
        s.append(self.app_name.as_str());
        s.append("\x02");
        s.append(self.addr.as_str());
        s
    }
}

/// An instance to be checked for time-out once `timeout` (seconds) has passed.
#[derive(Debug, Default)]
pub struct InstanceTimeoutInfo {
    pub app_instance_key: AppInstanceKey,
    pub timeout: u32,
}

impl InstanceTimeoutInfo {
    pub fn new(app_instance_key: AppInstanceKey, timeout: u32) -> (r: InstanceTimeoutInfo)
        ensures
            r == (InstanceTimeoutInfo { app_instance_key, timeout }),
    {
        InstanceTimeoutInfo { app_instance_key, timeout }
    }
}

/// An application as shown to users.
#[derive(Debug)]
pub struct AppInfoDto {
    pub app_name: String,
    pub namespace: String,
    pub label: String,
    pub register_type: String,
    pub instance_addrs: Option<Vec<String>>,
}

/// The addresses of a sequence of instances, in order.
pub open spec fn addrs_of(s: Seq<AppInstance>) -> Seq<String> {
    s.map_values(|i: AppInstance| i.addr)
}

/// `d` shows `a`: its names and label, its register type by wire name, and,
/// where asked for, the addresses of its instances in address order.
pub open spec fn app_dto_shows(d: AppInfoDto, a: AppInfo, with_addrs: bool) -> bool {
    &&& d.app_name == a.app_name
    &&& d.namespace == a.namespace
    &&& d.label == a.label
    &&& d.register_type@ == register_type_name(a.register_type)
    &&& (d.instance_addrs is Some <==> with_addrs)
    &&& with_addrs ==> d.instance_addrs->0@ == addrs_of(a.instance_map.seq())
}

impl AppInfoDto {
    /// The application as shown to users, with the addresses of its instances if asked for.
    pub fn new_from(app_info: &AppInfo, with_addrs: bool) -> (r: AppInfoDto)
        ensures
            app_dto_shows(r, *app_info, with_addrs),
    {
        let instance_addrs = if with_addrs {
            let items = app_info.instance_map.as_vec();
            let mut addrs: Vec<String> = Vec::new();
            let mut i: usize = 0;
            while i < items.len()
                invariant
                    items@ == app_info.instance_map.seq(),
                    i <= items.len(),
                    addrs@ == addrs_of(items@.take(i as int)),
                decreases items.len() - i,
            {
                addrs.push(items[i].addr.clone());
                proof {
                    assert(items@.take(i + 1) == items@.take(i as int).push(items@[i as int]));
                    assert(addrs_of(items@.take(i + 1)) =~= addrs_of(items@.take(i as int)).push(
                        items@[i as int].addr,
                    ));
                }
                i = i + 1;
            }
            proof {
                assert(items@.take(items.len() as int) == items@);
            }
            Some(addrs)
        } else {
            None
        };
        AppInfoDto {
            app_name: app_info.app_name.clone(),
            namespace: app_info.namespace.clone(),
            label: app_info.label.clone(),
            register_type: app_info.register_type.to_str().to_owned(),
            instance_addrs,
        }
    }
}

/// A change to an application: absent fields stay, given addresses are registered.
#[derive(Debug)]
pub struct AppParam {
    pub app_name: String,
    pub namespace: String,
    pub label: Option<String>,
    pub register_type: Option<RegisterType>,
    pub instance_addrs: Option<Vec<String>>,
    pub last_modified_time: u32,
}

impl AppParam {
    /// The key of the application the change is for.
    pub fn build_app_key(&self) -> (r: AppKey)
        ensures
            r.app_name == self.app_name,
            r.namespace == self.namespace,
    {
        AppKey::new(self.app_name.clone(), self.namespace.clone())
    }
}

/// An instance of an application, seen at a time (seconds).
#[derive(Debug)]
pub struct AppInstanceParam {
    pub app_key: AppKey,
    pub instance_addr: String,
    pub last_modified_time: u32,
}

/// Requests on instances that are routed to the node in charge.
#[derive(Debug)]
pub enum AppRouteRequest {
    RegisterInstance(AppInstanceParam),
    UnregisterInstance(AppInstanceParam),
    GetAllInstanceAddrs,
}

/// Answers to routed requests.
#[derive(Debug)]
pub enum AppRouteResponse {
    AllInstanceAddrs(Vec<AppInstanceDto>),
    Empty,
}

/// Local requests on applications.
#[derive(Debug)]
pub enum AppManagerReq {
    GetApp(AppKey),
    RegisterAppInstance(AppKey, String),
    UnregisterAppInstance(AppKey, String),
    GetAppInstanceAddrs(AppKey),
    GetAllInstanceAddrs,
    QueryApp(AppQueryParam),
    AppRouteRequest(AppRouteRequest),
}

/// Answers to local requests on applications.
#[derive(Debug)]
pub enum AppManagerResult {
    Empty,
    AppInfo(Option<AppInfoDto>),
    AppInstanceAddrs(Vec<String>),
    AppPageInfo(usize, Vec<AppInfoDto>),
    AllInstanceAddrs(Vec<AppInstanceDto>),
    AppRouteResponse(AppRouteResponse),
}

/// Replicated changes to applications.
#[derive(Debug)]
pub enum AppManagerRaftReq {
    UpdateApp(AppParam),
    RemoveApp(AppKey),
    RegisterInstance(AppInstanceParam),
    UnregisterInstance(AppInstanceParam),
}

/// The answer to a replicated change.
#[derive(Debug)]
pub enum AppManagerRaftResult {
    Empty,
}


/// `a` is the application a record restores.
pub open spec fn restores_app(a: AppInfo, v: AppInfoDoView) -> bool {
    &&& a.app_name@ == v.app_name
    &&& a.namespace@ == v.namespace
    &&& a.label@ == v.label
    &&& a.register_type == register_type_of(v.register_type)
    &&& a.tmp == v.tmp
    &&& restores_instances(a.instances(), v.instances)
}

/// In records of instances with distinct addresses, the last one with an
/// address is the record of the instance with it.
proof fn lemma_last_with_addr_records(s: Seq<AppInstance>, k: Seq<char>)
    requires
        keys_increasing(s),
    ensures
        last_with_addr(s.map_values(|x: AppInstance| instance_record(x)), k) == if seq_has_key(s, k) {
            Some(instance_record(s[seq_key_index(s, k)]))
        } else {
            None
        },
    decreases s.len(),
{
    let recs = s.map_values(|x: AppInstance| instance_record(x));
    if s.len() > 0 {
        let d = s.drop_last();
        assert(recs.drop_last() =~= d.map_values(|x: AppInstance| instance_record(x)));
        assert(keys_increasing(d)) by {
            assert forall|i: int, j: int| 0 <= i < j < d.len() implies seq_lt(
                #[trigger] d[i].spec_key(),
                #[trigger] d[j].spec_key(),
            ) by {
                assert(d[i] == s[i] && d[j] == s[j]);
            }
        }
        lemma_last_with_addr_records(d, k);
        let n = s.len() - 1;
        assert(recs.last() == instance_record(s[n]));
        if s[n].addr@ == k {
            lemma_key_index(s, n);
        } else {
            if seq_has_key(d, k) {
                let j = seq_key_index(d, k);
                lemma_key_index(d, j);
                lemma_key_index(s, j);
                assert(d[j] == s[j]);
            }
            if seq_has_key(s, k) {
                let j = seq_key_index(s, k);
                assert(j != n);
                assert(d[j] == s[j]);
            }
        }
    }
}

/// An application written to its record and read back keeps its key, label,
/// register type and flag, and the same instances by address, each last seen
/// when it was, healthy, enabled, and registered when it was last seen.
pub proof fn lemma_app_record_round_trip(a: AppInfo, r: AppInfo)
    requires
        a.wf(),
        restores_app(r, app_record(a)),
    ensures
        r.key_view() == a.key_view(),
        r.label@ == a.label@,
        r.register_type == a.register_type,
        r.tmp == a.tmp,
        r.instances().dom() == a.instances().dom(),
        forall|k: Seq<char>| #[trigger] r.instances().contains_key(k) ==> r.instances()[k].addr@ == k
            && r.instances()[k].last_modified_time == a.instances()[k].last_modified_time
            && r.instances()[k].register_time == a.instances()[k].last_modified_time
            && r.instances()[k].healthy && r.instances()[k].enable,
{
    lemma_register_type_round_trip(a.register_type);
    let s = a.instance_map.seq();
    assert forall|k: Seq<char>| #[trigger] r.instances().contains_key(k) <==> a.instances().contains_key(k) by {
        lemma_last_with_addr_records(s, k);
    }
    assert(r.instances().dom() =~= a.instances().dom());
    assert forall|k: Seq<char>| #[trigger] r.instances().contains_key(k) implies r.instances()[k].addr@ == k
        && r.instances()[k].last_modified_time == a.instances()[k].last_modified_time
        && r.instances()[k].register_time == a.instances()[k].last_modified_time
        && r.instances()[k].healthy && r.instances()[k].enable by {
        lemma_last_with_addr_records(s, k);
        lemma_key_index(s, seq_key_index(s, k));
    }
}

} // verus!
