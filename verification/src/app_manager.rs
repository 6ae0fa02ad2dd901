//! The applications known to the service, their instances, and the time-outs
//! that retire instances no longer heard from.
use crate::app_index::{AppIndex, AppQueryParam};
use crate::app_list::{AppKeyedList, KeyedByApp};
use crate::app_model::{
    addrs_of, app_dto_shows, fresh_instance, AppInfoDto, AppInfo, AppInstanceDto, AppInstance, AppInstanceKey, AppKey, AppKeyView, AppParam,
    AppManagerRaftReq, AppManagerRaftResult, AppManagerReq, AppManagerResult, AppRouteRequest,
    AppRouteResponse, InstanceTimeoutInfo, RegisterType,
};
use crate::job_model::{or_empty, or_keep};
use crate::app_list::lemma_key_index;
use crate::app_model::{app_record, lemma_app_record_round_trip, restores_app};
use crate::data_object::{app_info_do_fields, app_info_do_of, lemma_app_info_do_round_trip, AppInfoDo, AppInfoDoView};
use crate::snapshot::{job_table, job_table_name, record_message, SnapshotError, SnapshotRecord};
use crate::wire::{fields_bytes, framed, lemma_frame_round_trip, two64, utf8_bytes};
use vstd::string::StringExecFns;
use crate::runs::page;
use inner_mem_cache::TimeoutSet;
use vstd::multiset::Multiset;
use vstd::prelude::*;

verus! {

#[verifier::external_type_specification]
#[verifier::external_body]
#[verifier::reject_recursive_types(T)]
pub struct ExTimeoutSet<T>(TimeoutSet<T>);

/// The entries of a time-out set: each item with the time it was added under.
pub uninterp spec fn timeout_entries(set: TimeoutSet<InstanceTimeoutInfo>) -> Multiset<
    (u64, InstanceTimeoutInfo),
>;

/// `TimeoutSet::new`: a set with no entries.
#[verifier::external_body]
fn new_timeout_set() -> (r: TimeoutSet<InstanceTimeoutInfo>)
    ensures
        timeout_entries(r) == Multiset::<(u64, InstanceTimeoutInfo)>::empty(),
{
    TimeoutSet::new()
}

/// `TimeoutSet::add`: the set gains the entry (`time`, `item`); its source appends
/// the item to the list kept for that time.
#[verifier::external_body]
fn add_timeout(set: &mut TimeoutSet<InstanceTimeoutInfo>, time: u64, item: InstanceTimeoutInfo)
    ensures
        timeout_entries(*final(set)) == timeout_entries(*old(set)).insert((time, item)),
{
    set.add(time, item)
}

/// The items of a sequence of entries, in order.
pub open spec fn entry_items(s: Seq<(u64, InstanceTimeoutInfo)>) -> Seq<InstanceTimeoutInfo> {
    s.map_values(|e: (u64, InstanceTimeoutInfo)| e.1)
}

/// The times never decrease along a sequence of entries.
pub open spec fn times_ascending(s: Seq<(u64, InstanceTimeoutInfo)>) -> bool {
    forall|i: int, j: int| 0 <= i < j < s.len() ==> (#[trigger] s[i]).0 <= (#[trigger] s[j]).0
}

/// The entries with time at most `time`, in an order with non-decreasing times
/// whose items are `items` (where there is such an order).
pub open spec fn taken_order(
    entries: Multiset<(u64, InstanceTimeoutInfo)>,
    time: u64,
    items: Seq<InstanceTimeoutInfo>,
) -> Seq<(u64, InstanceTimeoutInfo)> {
    choose|taken: Seq<(u64, InstanceTimeoutInfo)>|
        entry_items(taken) == items && times_ascending(taken) && taken.to_multiset()
            == entries.filter(|e: (u64, InstanceTimeoutInfo)| e.0 <= time)
}

/// `TimeoutSet::timeout`: removes every entry whose time is at most `time` and
/// hands out their items. Its source walks its time-ordered map from the start,
/// so the items come out in non-decreasing time; which of two items with the
/// same time comes first is not stated here.
#[verifier::external_body]
fn take_timeouts(set: &mut TimeoutSet<InstanceTimeoutInfo>, time: u64) -> (r: Vec<InstanceTimeoutInfo>)
    ensures
        timeout_entries(*final(set)) == timeout_entries(*old(set)).filter(
            |e: (u64, InstanceTimeoutInfo)| e.0 > time,
        ),
        r@ == entry_items(taken_order(timeout_entries(*old(set)), time, r@)),
        times_ascending(taken_order(timeout_entries(*old(set)), time, r@)),
        taken_order(timeout_entries(*old(set)), time, r@).to_multiset() == timeout_entries(
            *old(set),
        ).filter(|e: (u64, InstanceTimeoutInfo)| e.0 <= time),
{
    set.timeout(time).into_iter().collect()
}

/// What the task side is to be told of instances.
#[derive(Debug)]
pub enum InstanceNotice {
    AddAppInstance(AppKey, String),
    RemoveAppInstance(AppKey, String),
    AddAppInstances(Vec<AppInstanceKey>),
    RemoveAppInstances(Vec<AppInstanceKey>),
}

/// The applications known to the service, with their index and instance time-outs.
pub struct AppManager {
    pub app_map: AppKeyedList<AppInfo>,
    pub app_index: AppIndex,
    pub app_instance_timeout: TimeoutSet<InstanceTimeoutInfo>,
    pub instance_timeout: u32,
}

/// An instance seen at `t`: a known one is enabled, healthy and stamped `t`; a new one is fresh.
pub open spec fn seen_instance(m: Map<Seq<char>, AppInstance>, addr: String, t: u32) -> AppInstance {
    if m.contains_key(addr@) {
        AppInstance { last_modified_time: t, enable: true, healthy: true, ..m[addr@] }
    } else {
        fresh_instance(addr, t)
    }
}

/// One address of an application update: a known instance is enabled and marked
/// healthy (its time stays); a new one is added, fresh at `t`.
pub open spec fn addr_step(m: Map<Seq<char>, AppInstance>, addr: String, t: u32) -> Map<
    Seq<char>,
    AppInstance,
> {
    if m.contains_key(addr@) {
        m.insert(addr@, AppInstance { enable: true, healthy: true, ..m[addr@] })
    } else {
        m.insert(addr@, fresh_instance(addr, t))
    }
}

/// The addresses of an application update applied in order.
pub open spec fn addrs_applied(m: Map<Seq<char>, AppInstance>, addrs: Seq<String>, t: u32) -> Map<
    Seq<char>,
    AppInstance,
>
    decreases addrs.len(),
{
    if addrs.len() == 0 {
        m
    } else {
        addr_step(addrs_applied(m, addrs.drop_last(), t), addrs.last(), t)
    }
}

/// The given addresses, if any, applied in order.
pub open spec fn given_addrs_applied(
    m: Map<Seq<char>, AppInstance>,
    addrs: Option<Vec<String>>,
    t: u32,
) -> Map<Seq<char>, AppInstance> {
    match addrs {
        Some(v) => addrs_applied(m, v@, t),
        None => m,
    }
}

/// The key of an application update.
pub open spec fn param_key(p: AppParam) -> AppKeyView {
    AppKeyView { namespace: p.namespace@, app_name: p.app_name@ }
}

/// Each application's instances, by address.
pub open spec fn instances_by_app(apps: Map<AppKeyView, AppInfo>) -> Map<
    AppKeyView,
    Map<Seq<char>, AppInstance>,
> {
    apps.map_values(|a: AppInfo| a.instances())
}

/// The same applications, differing at most in their instances.
pub open spec fn only_instances_changed(a: Map<AppKeyView, AppInfo>, b: Map<AppKeyView, AppInfo>) -> bool {
    &&& a.dom() == b.dom()
    &&& forall|k: AppKeyView| #[trigger] a.contains_key(k) ==> same_but_instances(a[k], b[k])
}

/// The key of the application an instance key belongs to.
pub open spec fn app_of(k: AppInstanceKey) -> AppKeyView {
    AppKeyView { namespace: k.namespace@, app_name: k.app_name@ }
}

/// The instance an expiry names is still known, and was last heard from no later than `tt`.
pub open spec fn expires(
    m: Map<AppKeyView, Map<Seq<char>, AppInstance>>,
    it: InstanceTimeoutInfo,
    tt: u32,
) -> bool {
    let k = app_of(it.app_instance_key);
    let a = it.app_instance_key.addr@;
    m.contains_key(k) && m[k].contains_key(a) && m[k][a].last_modified_time <= tt
}

/// One expiry applied to the instances and the list of retired keys.
pub open spec fn expiry_step(
    st: (Map<AppKeyView, Map<Seq<char>, AppInstance>>, Seq<AppInstanceKey>),
    it: InstanceTimeoutInfo,
    tt: u32,
) -> (Map<AppKeyView, Map<Seq<char>, AppInstance>>, Seq<AppInstanceKey>) {
    let k = app_of(it.app_instance_key);
    let a = it.app_instance_key.addr@;
    if expires(st.0, it, tt) {
        (st.0.insert(k, st.0[k].remove(a)), st.1.push(it.app_instance_key))
    } else {
        st
    }
}

/// Expiries applied in order.
pub open spec fn expiries_applied(
    st: (Map<AppKeyView, Map<Seq<char>, AppInstance>>, Seq<AppInstanceKey>),
    items: Seq<InstanceTimeoutInfo>,
    tt: u32,
) -> (Map<AppKeyView, Map<Seq<char>, AppInstance>>, Seq<AppInstanceKey>)
    decreases items.len(),
{
    if items.len() == 0 {
        st
    } else {
        expiry_step(expiries_applied(st, items.drop_last(), tt), items.last(), tt)
    }
}

/// Time-outs never retire an instance heard from after the time-out time: it
/// stays, unchanged.
pub proof fn lemma_expiry_spares_fresh(
    st: (Map<AppKeyView, Map<Seq<char>, AppInstance>>, Seq<AppInstanceKey>),
    items: Seq<InstanceTimeoutInfo>,
    tt: u32,
    k: AppKeyView,
    a: Seq<char>,
)
    requires
        st.0.contains_key(k),
        st.0[k].contains_key(a),
        st.0[k][a].last_modified_time > tt,
    ensures
        expiries_applied(st, items, tt).0.contains_key(k),
        expiries_applied(st, items, tt).0[k].contains_key(a),
        expiries_applied(st, items, tt).0[k][a] == st.0[k][a],
    decreases items.len(),
{
    if items.len() > 0 {
        lemma_expiry_spares_fresh(st, items.drop_last(), tt, k, a);
    }
}

/// Time-outs only ever remove instances: whatever instance is left was there
/// before, unchanged, and every application stays.
pub proof fn lemma_expiry_only_removes(
    st: (Map<AppKeyView, Map<Seq<char>, AppInstance>>, Seq<AppInstanceKey>),
    items: Seq<InstanceTimeoutInfo>,
    tt: u32,
    k: AppKeyView,
    a: Seq<char>,
)
    ensures
        expiries_applied(st, items, tt).0.dom() == st.0.dom(),
        expiries_applied(st, items, tt).0.contains_key(k) && expiries_applied(st, items, tt).0[k].contains_key(a)
            ==> st.0[k].contains_key(a) && expiries_applied(st, items, tt).0[k][a] == st.0[k][a],
    decreases items.len(),
{
    if items.len() > 0 {
        lemma_expiry_only_removes(st, items.drop_last(), tt, k, a);
        let prev = expiries_applied(st, items.drop_last(), tt);
        let it = items.last();
        if expires(prev.0, it, tt) {
            let k2 = app_of(it.app_instance_key);
            assert(prev.0.insert(k2, prev.0[k2].remove(it.app_instance_key.addr@)).dom() =~= prev.0.dom());
        }
    }
}

/// `taken` lists the time-outs of `entries` due at `tt`, in non-decreasing time.
pub open spec fn due_in_order(
    entries: Multiset<(u64, InstanceTimeoutInfo)>,
    tt: u32,
    taken: Seq<(u64, InstanceTimeoutInfo)>,
) -> bool {
    &&& times_ascending(taken)
    &&& taken.to_multiset() == entries.filter(|e: (u64, InstanceTimeoutInfo)| e.0 <= tt as u64)
}

/// `after` and `removed` are what applying the time-outs of `entries` due at `tt`
/// to `before` gives, in some non-decreasing time order.
pub open spec fn expired_by(
    before: Map<AppKeyView, AppInfo>,
    entries: Multiset<(u64, InstanceTimeoutInfo)>,
    tt: u32,
    after: Map<AppKeyView, AppInfo>,
    removed: Seq<AppInstanceKey>,
) -> bool {
    &&& only_instances_changed(before, after)
    &&& exists|taken: Seq<(u64, InstanceTimeoutInfo)>|
        #[trigger] due_in_order(entries, tt, taken) && (instances_by_app(after), removed)
            == expiries_applied((instances_by_app(before), Seq::empty()), entry_items(taken), tt)
}

/// An application's instances, each paired with the application.
pub open spec fn instance_pairs(a: AppInfo) -> Seq<(AppInfo, AppInstance)> {
    a.instance_map.seq().map_values(|i: AppInstance| (a, i))
}

/// The instances of a sequence of applications, application by application.
pub open spec fn all_instances(s: Seq<AppInfo>) -> Seq<(AppInfo, AppInstance)>
    decreases s.len(),
{
    if s.len() == 0 {
        Seq::empty()
    } else {
        all_instances(s.drop_last()) + instance_pairs(s.last())
    }
}

/// `d` lists the instance `p.1` of the application `p.0`.
pub open spec fn instance_dto_shows(d: AppInstanceDto, p: (AppInfo, AppInstance)) -> bool {
    &&& d.app_key.app_name == p.0.app_name
    &&& d.app_key.namespace == p.0.namespace
    &&& d.instance_addr == p.1.addr
    &&& d.last_modified_time == p.1.last_modified_time
}

/// The key of the instance `p.1` of the application `p.0`.
pub open spec fn pair_key(p: (AppInfo, AppInstance)) -> AppInstanceKey {
    AppInstanceKey { app_name: p.0.app_name, namespace: p.0.namespace, addr: p.1.addr }
}

/// The time-out entry of an instance: at the time it was last heard from.
pub open spec fn pair_entry(p: (AppInfo, AppInstance)) -> (u64, InstanceTimeoutInfo) {
    (
        p.1.last_modified_time as u64,
        InstanceTimeoutInfo { app_instance_key: pair_key(p), timeout: p.1.last_modified_time },
    )
}

/// Instances last heard from after `t`.
pub open spec fn heard_after(t: u32) -> spec_fn((AppInfo, AppInstance)) -> bool {
    |p: (AppInfo, AppInstance)| p.1.last_modified_time > t
}

/// The time-outs once every instance of `apps` has one at the time it was last heard from.
pub open spec fn loaded_timeouts(
    entries: Multiset<(u64, InstanceTimeoutInfo)>,
    apps: Seq<AppInfo>,
) -> Multiset<(u64, InstanceTimeoutInfo)> {
    entries.add(all_instances(apps).map_values(|p: (AppInfo, AppInstance)| pair_entry(p)).to_multiset())
}

/// Keys of known applications.
pub open spec fn known_in(apps: Map<AppKeyView, AppInfo>) -> spec_fn(AppKeyView) -> bool {
    |k: AppKeyView| apps.contains_key(k)
}

/// The keys of the page a query asks for, less those of forgotten applications.
pub open spec fn query_page_keys(m: &AppManager, q: AppQueryParam) -> Seq<AppKeyView> {
    page(m.app_index.entries().filter(q.key_filter()), q.offset as int, q.offset + q.limit).filter(
        known_in(m.apps()),
    )
}

/// Instances that are enabled and healthy.
pub open spec fn usable() -> spec_fn(AppInstance) -> bool {
    |i: AppInstance| i.enable && i.healthy
}

/// `b` is `a` with other instances.
pub open spec fn same_but_instances(a: AppInfo, b: AppInfo) -> bool {
    b == AppInfo { instance_map: b.instance_map, ..a }
}

impl AppManager {
    pub open spec fn wf(&self) -> bool {
        &&& self.app_map.wf()
        &&& self.app_index.wf()
        &&& forall|k: AppKeyView| #[trigger] self.apps().contains_key(k) ==> self.apps()[k].wf()
            && self.app_index.entries().contains(k)
    }

    /// The applications by key.
    pub open spec fn apps(&self) -> Map<AppKeyView, AppInfo> {
        self.app_map.map()
    }

    /// The keys the index holds.
    pub open spec fn indexed(&self) -> Set<AppKeyView> {
        self.app_index.entries().to_set()
    }

    /// The pending instance time-outs.
    pub open spec fn timeouts(&self) -> Multiset<(u64, InstanceTimeoutInfo)> {
        timeout_entries(self.app_instance_timeout)
    }

    /// No applications; instances time out after 180 seconds without news.
    pub fn new() -> (r: AppManager)
        ensures
            r.wf(),
            r.apps() == Map::<AppKeyView, AppInfo>::empty(),
            r.indexed() == Set::<AppKeyView>::empty(),
            r.timeouts() == Multiset::<(u64, InstanceTimeoutInfo)>::empty(),
            r.instance_timeout == 180,
    {
        let r = AppManager {
            app_map: AppKeyedList::new(),
            app_index: AppIndex::new(),
            instance_timeout: 180,
            app_instance_timeout: new_timeout_set(),
        };
        assert(r.indexed() =~= Set::<AppKeyView>::empty());
        r
    }

    /// Registers the given addresses with an application, in order: a known
    /// instance is enabled and marked healthy, a new one added fresh at `last_time`.
    pub fn set_app_instance_addrs(
        app_info: &mut AppInfo,
        instance_addrs: Option<Vec<String>>,
        last_time: u32,
    )
        requires
            old(app_info).wf(),
        ensures
            final(app_info).wf(),
            same_but_instances(*old(app_info), *final(app_info)),
            final(app_info).instances() == given_addrs_applied(
                old(app_info).instances(),
                instance_addrs,
                last_time,
            ),
    {
        match instance_addrs {
            None => {},
            Some(addrs) => {
                let ghost m0 = app_info.instances();
                let mut i: usize = 0;
                while i < addrs.len()
                    invariant
                        i <= addrs.len(),
                        app_info.wf(),
                        same_but_instances(*old(app_info), *app_info),
                        app_info.instances() == addrs_applied(m0, addrs@.take(i as int), last_time),
                    decreases addrs.len() - i,
                {
                    let addr = addrs[i].clone();
                    let ghost before = app_info.instances();
                    proof {
                        assert(addrs@.take(i + 1).drop_last() == addrs@.take(i as int));
                    }
                    match app_info.instance_map.find(addr.as_str()) {
                        Some(j) => {
                            let mut inst = app_info.instance_map.get(j).clone();
                            inst.enable = true;
                            inst.healthy = true;
                            app_info.instance_map.set(j, inst);
                        },
                        None => {
                            app_info.instance_map.insert_new(AppInstance::new_with_time(addr, last_time));
                        },
                    }
                    i = i + 1;
                }
                proof {
                    assert(addrs@.take(addrs.len() as int) == addrs@);
                }
            },
        }
    }

    /// Applies an application update. A known application takes the given label
    /// and register type; an unknown one is added (label empty and type `Auto`
    /// where not given, not temporary) and indexed. Either way the given
    /// addresses are then registered.
    pub fn update_app(&mut self, app_param: AppParam)
        requires
            old(self).wf(),
        ensures
            final(self).wf(),
            final(self).instance_timeout == old(self).instance_timeout,
            app_updated(old(self), final(self), app_param),
    {
        let key = AppKey::new(app_param.app_name.clone(), app_param.namespace.clone());
        let ghost k = key@;
        let ghost old_apps = self.apps();
        proof {
            if old_apps.contains_key(k) {
                assert(self.app_index.entries().contains(k));
                assert(self.indexed().insert(k) =~= self.indexed());
            }
        }
        match self.app_map.find(&key) {
            Some(i) => {
                let mut app_info = self.app_map.remove_at(i);
                match app_param.label {
                    Some(label) => {
                        app_info.label = label;
                    },
                    None => {},
                }
                match app_param.register_type {
                    Some(register_type) => {
                        app_info.register_type = register_type;
                    },
                    None => {},
                }
                Self::set_app_instance_addrs(
                    &mut app_info,
                    app_param.instance_addrs,
                    app_param.last_modified_time,
                );
                self.app_map.insert_new(app_info);
            },
            None => {
                self.app_index.insert(key.namespace.clone(), key.app_name.clone());
                let label = match app_param.label {
                    Some(l) => l,
                    None => String::new(),
                };
                let register_type = match app_param.register_type {
                    Some(t) => t,
                    None => RegisterType::Auto,
                };
                let mut app_info = AppInfo::new(
                    app_param.app_name,
                    app_param.namespace,
                    label,
                    register_type,
                    false,
                );
                Self::set_app_instance_addrs(
                    &mut app_info,
                    app_param.instance_addrs,
                    app_param.last_modified_time,
                );
                self.app_map.insert_new(app_info);
            },
        }
        proof {
            assert(self.apps().remove(k) =~= old_apps.remove(k));
            assert forall|j: AppKeyView| #[trigger] self.apps().contains_key(j) implies self.apps()[j].wf()
                && self.app_index.entries().contains(j) by {
                if j != k {
                    assert(old_apps.contains_key(j));
                    assert(self.indexed().contains(j));
                } else {
                    assert(self.indexed().contains(k));
                }
            }
        }
    }

    /// Stores an application as it was replicated: a known one takes its label,
    /// register type and temporary mark and keeps its instances; an unknown one
    /// is added whole and indexed.
    pub fn update_app_info(&mut self, app_info: AppInfo)
        requires
            old(self).wf(),
            app_info.wf(),
        ensures
            final(self).wf(),
            final(self).timeouts() == old(self).timeouts(),
            final(self).instance_timeout == old(self).instance_timeout,
            final(self).indexed() == old(self).indexed().insert(app_info.key_view()),
            old(self).apps().contains_key(app_info.key_view()) ==> final(self).apps()
                == old(self).apps().insert(
                app_info.key_view(),
                AppInfo {
                    label: app_info.label,
                    register_type: app_info.register_type,
                    tmp: app_info.tmp,
                    ..old(self).apps()[app_info.key_view()]
                },
            ),
            !old(self).apps().contains_key(app_info.key_view()) ==> final(self).apps()
                == old(self).apps().insert(app_info.key_view(), app_info),
    {
        let key = app_info.build_key();
        let ghost k = key@;
        let ghost old_apps = self.apps();
        proof {
            if old_apps.contains_key(k) {
                assert(self.app_index.entries().contains(k));
                assert(self.indexed().insert(k) =~= self.indexed());
            }
        }
        match self.app_map.find(&key) {
            Some(i) => {
                let mut old_info = self.app_map.remove_at(i);
                old_info.label = app_info.label;
                old_info.register_type = app_info.register_type;
                old_info.tmp = app_info.tmp;
                self.app_map.insert_new(old_info);
                proof {
                    assert(old_apps.remove(k).insert(k, old_info) == old_apps.insert(k, old_info));
                }
            },
            None => {
                self.app_index.insert(key.namespace, key.app_name);
                self.app_map.insert_new(app_info);
            },
        }
        proof {
            assert forall|j: AppKeyView| #[trigger] self.apps().contains_key(j) implies self.apps()[j].wf()
                && self.app_index.entries().contains(j) by {
                if j != k {
                    assert(old_apps.contains_key(j));
                    assert(self.indexed().contains(j));
                } else {
                    assert(self.indexed().contains(k));
                }
            }
        }
    }

    /// Records that an instance was heard from at `last_modified_time`, given the
    /// time `now` (seconds). News older than the time-out window is ignored
    /// (false). Otherwise (true, and the task side is to be told): a time-out
    /// is scheduled at that time, and the instance is stamped, enabled and marked
    /// healthy, or added; an unknown application is added as a temporary one
    /// (empty label, type `Auto`) and indexed.
    pub fn register_app_instance(
        &mut self,
        key: AppKey,
        instance_key: String,
        last_modified_time: u32,
        now: u32,
    ) -> (r: bool)
        requires
            old(self).wf(),
            now >= old(self).instance_timeout,
        ensures
            final(self).wf(),
            final(self).instance_timeout == old(self).instance_timeout,
            r == (now - old(self).instance_timeout < last_modified_time),
            instance_registered(old(self), final(self), key, instance_key, last_modified_time, r),
    {
        let check_time = now - self.instance_timeout;
        if check_time >= last_modified_time {
            return false;
        }
        let ghost k = key@;
        let ghost old_apps = self.apps();
        proof {
            if old_apps.contains_key(k) {
                assert(self.app_index.entries().contains(k));
                assert(self.indexed().insert(k) =~= self.indexed());
            }
        }
        add_timeout(
            &mut self.app_instance_timeout,
            last_modified_time as u64,
            InstanceTimeoutInfo::new(
                AppInstanceKey::new_with_app_key(key.clone(), instance_key.clone()),
                last_modified_time,
            ),
        );
        match self.app_map.find(&key) {
            Some(i) => {
                let mut app_info = self.app_map.remove_at(i);
                let ghost o = app_info;
                match app_info.instance_map.find(instance_key.as_str()) {
                    Some(j) => {
                        let mut inst = app_info.instance_map.get(j).clone();
                        inst.last_modified_time = last_modified_time;
                        inst.enable = true;
                        inst.healthy = true;
                        app_info.instance_map.set(j, inst);
                    },
                    None => {
                        app_info.instance_map.insert_new(
                            AppInstance::new_with_time(instance_key, last_modified_time),
                        );
                    },
                }
                self.app_map.insert_new(app_info);
            },
            None => {
                self.app_index.insert(key.namespace.clone(), key.app_name.clone());
                let mut app_info = AppInfo::new(
                    key.app_name,
                    key.namespace,
                    String::new(),
                    RegisterType::Auto,
                    true,
                );
                app_info.instance_map.insert_new(
                    AppInstance::new_with_time(instance_key, last_modified_time),
                );
                self.app_map.insert_new(app_info);
            },
        }
        proof {
            assert(self.apps().remove(k) =~= old_apps.remove(k));
            assert forall|j: AppKeyView| #[trigger] self.apps().contains_key(j) implies self.apps()[j].wf()
                && self.app_index.entries().contains(j) by {
                if j != k {
                    assert(old_apps.contains_key(j));
                    assert(self.indexed().contains(j));
                } else {
                    assert(self.indexed().contains(k));
                }
            }
        }
        true
    }

    /// Removes an instance from its application, where both are known; the task
    /// side is told in any case.
    pub fn unregister_app_instance(&mut self, key: AppKey, instance_key: String)
        requires
            old(self).wf(),
        ensures
            final(self).wf(),
            final(self).instance_timeout == old(self).instance_timeout,
            instance_unregistered(old(self), final(self), key@, instance_key@),
    {
        let ghost k = key@;
        let ghost old_apps = self.apps();
        match self.app_map.find(&key) {
            Some(i) => {
                let mut app_info = self.app_map.remove_at(i);
                let ghost o = app_info;
                match app_info.instance_map.find(instance_key.as_str()) {
                    Some(j) => {
                        app_info.instance_map.remove_at(j);
                    },
                    None => {
                        assert(o.instances().remove(instance_key@) =~= o.instances());
                    },
                }
                self.app_map.insert_new(app_info);
                proof {
                    assert(self.apps().remove(k) =~= old_apps.remove(k));
                }
            },
            None => {},
        }
        proof {
            assert forall|j: AppKeyView| #[trigger] self.apps().contains_key(j) implies self.apps()[j].wf()
                && self.app_index.entries().contains(j) by {
                assert(old_apps.contains_key(j));
            }
        }
    }

    /// Forgets an application. Its index entry stays.
    pub fn remove_app(&mut self, key: &AppKey)
        requires
            old(self).wf(),
        ensures
            final(self).wf(),
            final(self).instance_timeout == old(self).instance_timeout,
            app_removed(old(self), final(self), key@),
    {
        let ghost old_apps = self.apps();
        match self.app_map.find(key) {
            Some(i) => {
                self.app_map.remove_at(i);
            },
            None => {
                assert(old_apps.remove(key@) =~= old_apps);
            },
        }
        proof {
            assert forall|j: AppKeyView| #[trigger] self.apps().contains_key(j) implies self.apps()[j].wf()
                && self.app_index.entries().contains(j) by {
                assert(old_apps.contains_key(j));
            }
        }
    }

    /// The application with this key, as shown to users, with its instance addresses if asked for.
    pub fn get_app_info(&self, key: &AppKey, with_addrs: bool) -> (r: Option<AppInfoDto>)
        requires
            self.wf(),
        ensures
            app_info_answer(self, key@, with_addrs, r),
    {
        match self.app_map.find(key) {
            Some(i) => Some(AppInfoDto::new_from(self.app_map.get(i), with_addrs)),
            None => None,
        }
    }

    /// The addresses of an application's enabled, healthy instances, in address
    /// order; none for an unknown application.
    pub fn get_app_instance_addrs(&self, key: &AppKey) -> (r: Vec<String>)
        requires
            self.wf(),
        ensures
            addrs_answer(self, key@, r@),
    {
        let mut addrs: Vec<String> = Vec::new();
        match self.app_map.find(key) {
            Some(ai) => {
                let items = self.app_map.get(ai).instance_map.as_vec();
                let ghost f = usable();
                let mut i: usize = 0;
                while i < items.len()
                    invariant
                        f == usable(),
                        i <= items.len(),
                        addrs@ == addrs_of(items@.take(i as int).filter(f)),
                    decreases items.len() - i,
                {
                    proof {
                        assert(items@.take(i + 1) == items@.take(i as int).push(items@[i as int]));
                        items@.take(i as int).lemma_filter_push(items@[i as int], f);
                    }
                    let inst = &items[i];
                    if inst.enable && inst.healthy {
                        addrs.push(inst.addr.clone());
                        proof {
                            assert(addrs_of(items@.take(i + 1).filter(f)) =~= addrs_of(
                                items@.take(i as int).filter(f),
                            ).push(inst.addr));
                        }
                    }
                    i = i + 1;
                }
                proof {
                    assert(items@.take(items.len() as int) == items@);
                }
            },
            None => {},
        }
        addrs
    }

    /// Retires the instances of `items` that are still known and were last
    /// heard from no later than `timeout_time`, in order; returns their keys.
    pub fn remove_expired(&mut self, items: Vec<InstanceTimeoutInfo>, timeout_time: u32) -> (removed: Vec<AppInstanceKey>)
        requires
            old(self).wf(),
        ensures
            final(self).wf(),
            final(self).instance_timeout == old(self).instance_timeout,
            final(self).timeouts() == old(self).timeouts(),
            final(self).indexed() == old(self).indexed(),
            only_instances_changed(old(self).apps(), final(self).apps()),
            (instances_by_app(final(self).apps()), removed@) == expiries_applied(
                (instances_by_app(old(self).apps()), Seq::empty()),
                items@,
                timeout_time,
            ),
    {
        let ghost old_apps = self.apps();
        let mut removed: Vec<AppInstanceKey> = Vec::new();
        let mut i: usize = 0;
        while i < items.len()
            invariant
                i <= items.len(),
                self.wf(),
                self.instance_timeout == old(self).instance_timeout,
                self.timeouts() == old(self).timeouts(),
                self.indexed() == old(self).indexed(),
                old_apps == old(self).apps(),
                only_instances_changed(old_apps, self.apps()),
                (instances_by_app(self.apps()), removed@) == expiries_applied(
                    (instances_by_app(old_apps), Seq::empty()),
                    items@.take(i as int),
                    timeout_time,
                ),
            decreases items.len() - i,
        {
            let it = &items[i];
            let ghost before = self.apps();
            let ghost st = (instances_by_app(before), removed@);
            proof {
                assert(items@.take(i + 1).drop_last() == items@.take(i as int));
            }
            let app_key = it.app_instance_key.build_app_key();
            let ghost k = app_key@;
            let ghost a = it.app_instance_key.addr@;
            match self.app_map.find(&app_key) {
                Some(j) => {
                    let app = self.app_map.get(j);
                    match app.instance_map.find(it.app_instance_key.addr.as_str()) {
                        Some(p) => {
                            if app.instance_map.get(p).last_modified_time <= timeout_time {
                                let mut w = self.app_map.remove_at(j);
                                let ghost o = w;
                                w.instance_map.remove_at(p);
                                self.app_map.insert_new(w);
                                removed.push(it.app_instance_key.clone());
                                proof {
                                    assert(self.apps() == before.insert(k, w));
                                    assert(instances_by_app(self.apps()) =~= instances_by_app(before).insert(
                                        k,
                                        o.instances().remove(a),
                                    ));
                                    assert forall|j2: AppKeyView| #[trigger] self.apps().contains_key(j2) implies self.apps()[j2].wf()
                                        && self.app_index.entries().contains(j2) by {
                                        assert(before.contains_key(j2));
                                    }
                                    assert(self.apps().dom() =~= old_apps.dom());
                                }
                            }
                        },
                        None => {},
                    }
                },
                None => {},
            }
            i = i + 1;
        }
        proof {
            assert(items@.take(items.len() as int) == items@);
        }
        removed
    }

    /// Retires the instances whose time-out has come at time `now` (seconds):
    /// the time-outs due (those at most `now` less the window) are taken from the
    /// set and applied in time order. Returns the keys of the retired instances,
    /// of which the task side is to be told.
    pub fn check_instance_timeout(&mut self, now: u32) -> (removed: Vec<AppInstanceKey>)
        requires
            old(self).wf(),
            now >= old(self).instance_timeout,
        ensures
            final(self).wf(),
            final(self).instance_timeout == old(self).instance_timeout,
            final(self).indexed() == old(self).indexed(),
            final(self).timeouts() == old(self).timeouts().filter(
                |e: (u64, InstanceTimeoutInfo)| e.0 > (now - old(self).instance_timeout) as u64,
            ),
            expired_by(
                old(self).apps(),
                old(self).timeouts(),
                (now - old(self).instance_timeout) as u32,
                final(self).apps(),
                removed@,
            ),
    {
        let timeout_time = now - self.instance_timeout;
        let ghost old_timeouts = self.timeouts();
        let items = take_timeouts(&mut self.app_instance_timeout, timeout_time as u64);
        let ghost taken = taken_order(old_timeouts, timeout_time as u64, items@);
        // taking the due time-outs touches only the time-out set
        assert(self.app_map == old(self).app_map && self.app_index == old(self).app_index);
        assert(old(self).wf() && self.apps() == old(self).apps());
        assert(self.wf());
        let removed = self.remove_expired(items, timeout_time);
        proof {
            assert(due_in_order(old_timeouts, timeout_time, taken));
        }
        removed
    }

    /// Every instance of every application, applications in key order and
    /// instances in address order.
    pub fn get_all_instances(&self) -> (r: Vec<AppInstanceDto>)
        requires
            self.wf(),
        ensures
            all_instances_answer(self, r@),
    {
        let apps = self.app_map.as_vec();
        let ghost s = apps@;
        let mut list: Vec<AppInstanceDto> = Vec::new();
        let mut i: usize = 0;
        while i < apps.len()
            invariant
                s == apps@,
                i <= apps.len(),
                list.len() == all_instances(s.take(i as int)).len(),
                forall|j: int|
                    0 <= j < list.len() ==> instance_dto_shows(
                        #[trigger] list@[j],
                        all_instances(s.take(i as int))[j],
                    ),
            decreases apps.len() - i,
        {
            let app_info = &apps[i];
            let ghost done = all_instances(s.take(i as int));
            proof {
                assert(s.take(i + 1).drop_last() == s.take(i as int));
                assert(s.take(i + 1).last() == app_info);
            }
            let insts = app_info.instance_map.as_vec();
            let mut p: usize = 0;
            while p < insts.len()
                invariant
                    s == apps@,
                    i < apps.len(),
                    app_info == apps@[i as int],
                    insts@ == app_info.instance_map.seq(),
                    done == all_instances(s.take(i as int)),
                    all_instances(s.take(i + 1)) == done + instance_pairs(*app_info),
                    p <= insts.len(),
                    list.len() == done.len() + p,
                    forall|j: int|
                        0 <= j < list.len() ==> instance_dto_shows(
                            #[trigger] list@[j],
                            (done + instance_pairs(*app_info))[j],
                        ),
                decreases insts.len() - p,
            {
                let inst = &insts[p];
                list.push(
                    AppInstanceDto {
                        app_key: app_info.build_key(),
                        instance_addr: inst.addr.clone(),
                        last_modified_time: inst.last_modified_time,
                    },
                );
                p = p + 1;
            }
            i = i + 1;
        }
        proof {
            assert(s.take(s.len() as int) == s);
        }
        list
    }

    /// How many instances all applications have together.
    pub fn get_app_instance_all_count(&self) -> (r: usize)
        requires
            self.wf(),
        ensures
            r == all_instances(self.app_map.seq()).len(),
    {
        let all = self.get_all_instances();
        all.len()
    }

    /// Once replicated data is loaded, at time `now` (seconds): every instance
    /// gets a time-out at the time it was last heard from; those heard from
    /// within the window are listed as added; then the time-outs due are applied.
    /// Returns (retired keys, added keys), of which the task side is to be told.
    pub fn load_completed(&mut self, now: u32) -> (r: (Vec<AppInstanceKey>, Vec<AppInstanceKey>))
        requires
            old(self).wf(),
            now >= old(self).instance_timeout,
        ensures
            final(self).wf(),
            final(self).instance_timeout == old(self).instance_timeout,
            final(self).indexed() == old(self).indexed(),
            r.1@ == all_instances(old(self).app_map.seq()).filter(
                heard_after((now - old(self).instance_timeout) as u32),
            ).map_values(|p: (AppInfo, AppInstance)| pair_key(p)),
            final(self).timeouts() == loaded_timeouts(old(self).timeouts(), old(self).app_map.seq()).filter(
                |e: (u64, InstanceTimeoutInfo)| e.0 > (now - old(self).instance_timeout) as u64,
            ),
            expired_by(
                old(self).apps(),
                loaded_timeouts(old(self).timeouts(), old(self).app_map.seq()),
                (now - old(self).instance_timeout) as u32,
                final(self).apps(),
                r.0@,
            ),
    {
        let start_time = now - self.instance_timeout;
        let ghost old_t = self.timeouts();
        let ghost fresh = heard_after(start_time);
        let mut add_keys: Vec<AppInstanceKey> = Vec::new();
        let ghost mut pairs: Seq<(AppInfo, AppInstance)> = Seq::empty();
        let apps = self.app_map.as_vec();
        let ghost s = apps@;
        proof {
            broadcast use vstd::multiset::group_multiset_axioms;
            let e = pairs.map_values(|p: (AppInfo, AppInstance)| pair_entry(p));
            e.to_multiset_ensures();
            vstd::multiset::lemma_multiset_empty_len(e.to_multiset());
            assert(old_t.add(e.to_multiset()) =~= old_t);
            assert(pairs.filter(fresh) =~= Seq::<(AppInfo, AppInstance)>::empty());
        }
        let mut i: usize = 0;
        while i < apps.len()
            invariant
                s == apps@,
                self.app_map == old(self).app_map,
                self.app_index == old(self).app_index,
                self.instance_timeout == old(self).instance_timeout,
                i <= apps.len(),
                fresh == heard_after(start_time),
                pairs == all_instances(s.take(i as int)),
                timeout_entries(self.app_instance_timeout) == old_t.add(
                    pairs.map_values(|p: (AppInfo, AppInstance)| pair_entry(p)).to_multiset(),
                ),
                add_keys@ == pairs.filter(fresh).map_values(|p: (AppInfo, AppInstance)| pair_key(p)),
            decreases apps.len() - i,
        {
            let app_info = &apps[i];
            proof {
                assert(s.take(i + 1).drop_last() == s.take(i as int));
                assert(s.take(i + 1).last() == app_info);
            }
            let ghost done = pairs;
            let insts = app_info.instance_map.as_vec();
            let mut p: usize = 0;
            while p < insts.len()
                invariant
                    s == apps@,
                    self.app_map == old(self).app_map,
                    self.app_index == old(self).app_index,
                    self.instance_timeout == old(self).instance_timeout,
                    i < apps.len(),
                    app_info == apps@[i as int],
                    insts@ == app_info.instance_map.seq(),
                    fresh == heard_after(start_time),
                    done == all_instances(s.take(i as int)),
                    all_instances(s.take(i + 1)) == done + instance_pairs(*app_info),
                    p <= insts.len(),
                    pairs == done + instance_pairs(*app_info).take(p as int),
                    timeout_entries(self.app_instance_timeout) == old_t.add(
                        pairs.map_values(|p: (AppInfo, AppInstance)| pair_entry(p)).to_multiset(),
                    ),
                    add_keys@ == pairs.filter(fresh).map_values(|p: (AppInfo, AppInstance)| pair_key(p)),
                decreases insts.len() - p,
            {
                let inst = &insts[p];
                let ghost x = (*app_info, *inst);
                let ghost before = pairs;
                let timeout = inst.last_modified_time;
                let key = AppInstanceKey::new_with_app_key(app_info.build_key(), inst.addr.clone());
                add_timeout(
                    &mut self.app_instance_timeout,
                    timeout as u64,
                    InstanceTimeoutInfo::new(key.clone(), timeout),
                );
                if timeout > start_time {
                    add_keys.push(key);
                }
                proof {
                    pairs = pairs.push(x);
                    assert(instance_pairs(*app_info)[p as int] == x);
                    assert(instance_pairs(*app_info).take(p + 1) == instance_pairs(*app_info).take(
                        p as int,
                    ).push(x));
                    assert(pairs == done + instance_pairs(*app_info).take(p + 1));
                    let f = |p: (AppInfo, AppInstance)| pair_entry(p);
                    assert(pairs.map_values(f) == before.map_values(f).push(pair_entry(x)));
                    vstd::seq_lib::to_multiset_build(before.map_values(f), pair_entry(x));
                    broadcast use vstd::multiset::group_multiset_axioms;
                    assert(old_t.add(before.map_values(f).to_multiset().insert(pair_entry(x))) =~= old_t.add(
                        before.map_values(f).to_multiset(),
                    ).insert(pair_entry(x)));
                    before.lemma_filter_push(x, fresh);
                    let g = |p: (AppInfo, AppInstance)| pair_key(p);
                    assert(before.filter(fresh).push(x).map_values(g) =~= before.filter(fresh).map_values(
                        g,
                    ).push(pair_key(x)));
                }
                p = p + 1;
            }
            proof {
                assert(instance_pairs(*app_info).take(insts.len() as int) == instance_pairs(*app_info));
            }
            i = i + 1;
        }
        proof {
            assert(s.take(s.len() as int) == s);
            assert(self.apps() == old(self).apps());
            assert(self.app_map.wf());
            assert(self.app_index.wf());
            assert(self.wf());
        }
        let removed = self.check_instance_timeout(now);
        (removed, add_keys)
    }

    /// The applications the index finds for the query, counted, and the page of
    /// them (from `offset`, at most `limit`) in key order as shown to users;
    /// keys the index holds for forgotten applications are left out of the page.
    pub fn query_page_info(&self, query_param: &AppQueryParam) -> (r: (usize, Vec<AppInfoDto>))
        requires
            self.wf(),
            query_param.offset + query_param.limit <= usize::MAX,
        ensures
            page_answer(self, *query_param, r.0, r.1@),
    {
        let (size, list) = self.app_index.query(query_param);
        let ghost pg = page(
            self.app_index.entries().filter(query_param.key_filter()),
            query_param.offset as int,
            query_param.offset + query_param.limit,
        );
        let ghost known = known_in(self.apps());
        if size == 0 {
            proof {
                assert(pg =~= Seq::<AppKeyView>::empty());
                assert(pg.filter(known) =~= Seq::<AppKeyView>::empty());
            }
            return (0, Vec::new());
        }
        let mut info_list: Vec<AppInfoDto> = Vec::new();
        let mut i: usize = 0;
        while i < list.len()
            invariant
                self.wf(),
                list@.map_values(|k: AppKey| k@) == pg,
                known == known_in(self.apps()),
                i <= list.len(),
                info_list.len() == pg.take(i as int).filter(known).len(),
                forall|j: int|
                    0 <= j < info_list.len() ==> app_dto_shows(
                        #[trigger] info_list@[j],
                        self.apps()[pg.take(i as int).filter(known)[j]],
                        false,
                    ),
            decreases list.len() - i,
        {
            let key = &list[i];
            proof {
                assert(list@.map_values(|k: AppKey| k@)[i as int] == key@);
                assert(pg[i as int] == key@);
                assert(pg.take(i + 1) == pg.take(i as int).push(key@));
                pg.take(i as int).lemma_filter_push(key@, known);
            }
            match self.app_map.find(key) {
                Some(ai) => {
                    info_list.push(AppInfoDto::new_from(self.app_map.get(ai), false));
                },
                None => {},
            }
            i = i + 1;
        }
        proof {
            assert(pg.take(list.len() as int) == pg);
        }
        (size, info_list)
    }

    /// A request routed to this node; registering goes by the time `now` (seconds).
    pub fn app_route_request(&mut self, req: AppRouteRequest, now: u32) -> (r: (AppRouteResponse, Option<InstanceNotice>))
        requires
            old(self).wf(),
            now >= old(self).instance_timeout,
        ensures
            final(self).wf(),
            final(self).instance_timeout == old(self).instance_timeout,
            routed(old(self), final(self), req, now, r.0, r.1),
    {
        match req {
            AppRouteRequest::RegisterInstance(param) => {
                let key = param.app_key.clone();
                let addr = param.instance_addr.clone();
                let told = self.register_app_instance(
                    param.app_key,
                    param.instance_addr,
                    param.last_modified_time,
                    now,
                );
                if told {
                    (AppRouteResponse::Empty, Some(InstanceNotice::AddAppInstance(key, addr)))
                } else {
                    (AppRouteResponse::Empty, None)
                }
            },
            AppRouteRequest::UnregisterInstance(param) => {
                let key = param.app_key.clone();
                let addr = param.instance_addr.clone();
                self.unregister_app_instance(param.app_key, param.instance_addr);
                (AppRouteResponse::Empty, Some(InstanceNotice::RemoveAppInstance(key, addr)))
            },
            AppRouteRequest::GetAllInstanceAddrs => {
                let list = self.get_all_instances();
                (AppRouteResponse::AllInstanceAddrs(list), None)
            },
        }
    }

    /// A local request, at time `now` (seconds). The old form of registration is ignored.
    pub fn handle(&mut self, msg: AppManagerReq, now: u32) -> (r: (AppManagerResult, Option<InstanceNotice>))
        requires
            old(self).wf(),
            now >= old(self).instance_timeout,
        ensures
            final(self).wf(),
            final(self).instance_timeout == old(self).instance_timeout,
            !(msg is UnregisterAppInstance || msg is AppRouteRequest) ==> final(self).apps() == old(self).apps()
                && final(self).timeouts() == old(self).timeouts() && final(self).indexed() == old(
                self,
            ).indexed(),
            match msg {
                AppManagerReq::RegisterAppInstance(key, addr) => r.0 is Empty && r.1 is None,
                AppManagerReq::GetApp(key) => r.1 is None && (r.0 matches AppManagerResult::AppInfo(o)
                    && app_info_answer(old(self), key@, true, o)),
                AppManagerReq::UnregisterAppInstance(key, addr) => r.0 is Empty && instance_unregistered(
                    old(self),
                    final(self),
                    key@,
                    addr@,
                ) && r.1 == Some(InstanceNotice::RemoveAppInstance(key, addr)),
                AppManagerReq::GetAppInstanceAddrs(key) => r.1 is None && (
                r.0 matches AppManagerResult::AppInstanceAddrs(v) && addrs_answer(old(self), key@, v@)),
                AppManagerReq::QueryApp(q) => r.1 is None && (r.0 matches AppManagerResult::AppPageInfo(
                    total,
                    list,
                ) && if q.offset + q.limit <= usize::MAX {
                    page_answer(old(self), q, total, list@)
                } else {
                    total == 0 && list@.len() == 0
                }),
                AppManagerReq::GetAllInstanceAddrs => r.1 is None && (
                r.0 matches AppManagerResult::AllInstanceAddrs(list) && all_instances_answer(old(self), list@)),
                AppManagerReq::AppRouteRequest(req) => r.0 matches AppManagerResult::AppRouteResponse(resp)
                    && routed(old(self), final(self), req, now, resp, r.1),
            },
    {
        match msg {
            AppManagerReq::RegisterAppInstance(_key, _addr) => (AppManagerResult::Empty, None),
            AppManagerReq::GetApp(key) => (AppManagerResult::AppInfo(self.get_app_info(&key, true)), None),
            AppManagerReq::UnregisterAppInstance(key, addr) => {
                let k = key.clone();
                let a = addr.clone();
                self.unregister_app_instance(key, addr);
                (AppManagerResult::Empty, Some(InstanceNotice::RemoveAppInstance(k, a)))
            },
            AppManagerReq::GetAppInstanceAddrs(key) => {
                (AppManagerResult::AppInstanceAddrs(self.get_app_instance_addrs(&key)), None)
            },
            AppManagerReq::QueryApp(param) => {
                if param.limit > usize::MAX - param.offset {
                    return (AppManagerResult::AppPageInfo(0, Vec::new()), None);
                }
                let (size, list) = self.query_page_info(&param);
                (AppManagerResult::AppPageInfo(size, list), None)
            },
            AppManagerReq::GetAllInstanceAddrs => {
                (AppManagerResult::AllInstanceAddrs(self.get_all_instances()), None)
            },
            AppManagerReq::AppRouteRequest(req) => {
                let (resp, notice) = self.app_route_request(req, now);
                (AppManagerResult::AppRouteResponse(resp), notice)
            },
        }
    }

    /// A replicated change, at time `now` (seconds).
    pub fn handle_raft(&mut self, msg: AppManagerRaftReq, now: u32) -> (r: (AppManagerRaftResult, Option<InstanceNotice>))
        requires
            old(self).wf(),
            now >= old(self).instance_timeout,
        ensures
            final(self).wf(),
            final(self).instance_timeout == old(self).instance_timeout,
            r.0 is Empty,
            match msg {
                AppManagerRaftReq::UpdateApp(p) => r.1 is None && app_updated(old(self), final(self), p),
                AppManagerRaftReq::RemoveApp(key) => r.1 is None && app_removed(old(self), final(self), key@),
                AppManagerRaftReq::RegisterInstance(p) => routed(
                    old(self),
                    final(self),
                    AppRouteRequest::RegisterInstance(p),
                    now,
                    AppRouteResponse::Empty,
                    r.1,
                ),
                AppManagerRaftReq::UnregisterInstance(p) => routed(
                    old(self),
                    final(self),
                    AppRouteRequest::UnregisterInstance(p),
                    now,
                    AppRouteResponse::Empty,
                    r.1,
                ),
            },
    {
        match msg {
            AppManagerRaftReq::UpdateApp(param) => {
                self.update_app(param);
                (AppManagerRaftResult::Empty, None)
            },
            AppManagerRaftReq::RemoveApp(key) => {
                self.remove_app(&key);
                (AppManagerRaftResult::Empty, None)
            },
            AppManagerRaftReq::RegisterInstance(param) => {
                let (_, notice) = self.app_route_request(AppRouteRequest::RegisterInstance(param), now);
                (AppManagerRaftResult::Empty, notice)
            },
            AppManagerRaftReq::UnregisterInstance(param) => {
                let (_, notice) = self.app_route_request(AppRouteRequest::UnregisterInstance(param), now);
                (AppManagerRaftResult::Empty, notice)
            },
        }
    }
}


/// The value an application's snapshot record holds.
pub open spec fn app_value(a: AppInfo) -> Seq<u8> {
    framed(fields_bytes(app_info_do_fields(app_record(a))))
}

/// The storage key of an application: namespace, a `\x02` separator, then name.
pub open spec fn app_storage_key(a: AppInfo) -> Seq<char> {
    a.namespace@ + seq!['\x02'] + a.app_name@
}

/// A snapshot record keeps this application: in the job table, keyed by its
/// storage key.
pub open spec fn app_record_holds(r: SnapshotRecord, a: AppInfo) -> bool {
    &&& r.tree@ == job_table()
    &&& r.key@ == utf8_bytes(app_storage_key(a))
    &&& r.value@ == app_value(a)
    &&& r.op_type == 0
}

/// The application record a snapshot record's value holds, where it holds one.
pub open spec fn app_in_record(value: Seq<u8>) -> Option<AppInfoDoView> {
    match record_message(value) {
        Some(m) => app_info_do_of(m),
        None => None,
    }
}

/// Applications that are not temporary.
pub open spec fn kept_app() -> spec_fn(AppInfo) -> bool {
    |a: AppInfo| !a.tmp
}

/// An application written to a snapshot record reads back as its record, and
/// the application that record restores keeps its key, label, register type,
/// flag and instances with the times they were last heard from.
pub proof fn lemma_app_snapshot_round_trip(a: AppInfo, r: AppInfo)
    requires
        a.wf(),
        utf8_bytes(a.app_name@).len() < two64(),
        utf8_bytes(a.namespace@).len() < two64(),
        utf8_bytes(a.label@).len() < two64(),
        forall|i: int| 0 <= i < app_record(a).instances.len() ==> utf8_bytes(#[trigger] app_record(a).instances[i].addr).len() < two64(),
        forall|i: int| 0 <= i < app_record(a).instances.len() ==> fields_bytes(
            crate::data_object::app_instance_do_fields(#[trigger] app_record(a).instances[i]),
        ).len() < two64(),
        fields_bytes(app_info_do_fields(app_record(a))).len() < two64(),
        restores_app(r, app_record(a)),
    ensures
        app_in_record(app_value(a)) == Some(app_record(a)),
        r.key_view() == a.key_view(),
        r.label@ == a.label@,
        r.register_type == a.register_type,
        r.tmp == a.tmp,
        r.instances().dom() == a.instances().dom(),
        forall|k: Seq<char>| #[trigger] r.instances().contains_key(k) ==> r.instances()[k].last_modified_time
            == a.instances()[k].last_modified_time,
{
    crate::app_model::lemma_register_type_name_short(a.register_type);
    crate::wire::lemma_utf8_bytes_len(app_record(a).register_type);
    assert forall|i: int| 0 <= i < app_record(a).instances.len() implies utf8_bytes(
        #[trigger] app_record(a).instances[i].token,
    ).len() < two64() by {
        crate::wire::lemma_utf8_bytes_len(app_record(a).instances[i].token);
    }
    lemma_app_info_do_round_trip(app_record(a));
    lemma_frame_round_trip(fields_bytes(app_info_do_fields(app_record(a))));
    lemma_app_record_round_trip(a, r);
}

impl AppManager {
    /// The records a snapshot keeps: one for each application that is not
    /// temporary, in key order.
    pub fn build_snapshot(&self) -> (r: Vec<SnapshotRecord>)
        requires
            self.wf(),
        ensures
            r@.len() == self.app_map.seq().filter(kept_app()).len(),
            forall|i: int|
                0 <= i < r@.len() ==> app_record_holds(#[trigger] r@[i], self.app_map.seq().filter(kept_app())[i]),
    {
        let apps = self.app_map.as_vec();
        let ghost s = apps@;
        let ghost f = kept_app();
        let mut r: Vec<SnapshotRecord> = Vec::new();
        let mut i: usize = 0;
        while i < apps.len()
            invariant
                s == apps@,
                s == self.app_map.seq(),
                f == kept_app(),
                self.wf(),
                i <= apps.len(),
                r@.len() == s.take(i as int).filter(f).len(),
                forall|j: int| 0 <= j < r@.len() ==> app_record_holds(#[trigger] r@[j], s.take(i as int).filter(f)[j]),
            decreases apps.len() - i,
        {
            let a = &apps[i];
            proof {
                assert(s.take(i + 1) == s.take(i as int).push(s[i as int]));
                s.take(i as int).lemma_filter_push(s[i as int], f);
            }
            if !a.tmp {
                proof {
                    lemma_key_index(s, i as int);
                    assert(self.apps().contains_key(s[i as int].spec_key()));
                    reveal(utf8_bytes);
                }
                let key = a.build_key().build_key();
                let value = a.to_do().write_message();
                let record = SnapshotRecord {
                    tree: job_table_name(),
                    key: key.as_str().as_bytes_vec(),
                    value,
                    op_type: 0,
                };
                let ghost before = r@;
                r.push(record);
                proof {
                    let t = s.take(i + 1).filter(f);
                    assert(t == s.take(i as int).filter(f).push(s[i as int]));
                    assert forall|j: int| 0 <= j < r@.len() implies app_record_holds(#[trigger] r@[j], t[j]) by {
                        if j < before.len() {
                            assert(r@[j] == before[j]);
                        }
                    }
                }
            }
            i = i + 1;
        }
        proof {
            assert(s.take(s.len() as int) == s);
        }
        r
    }

    /// Loads a snapshot record: the application it holds is merged in as
    /// `update_app_info` does. A record that cannot be read is refused.
    pub fn load_snapshot_record(&mut self, record: &SnapshotRecord) -> (r: Result<(), SnapshotError>)
        requires
            old(self).wf(),
        ensures
            final(self).wf(),
            match app_in_record(record.value@) {
                Some(v) => r is Ok && exists|a: AppInfo|
                    #[trigger] restores_app(a, v) && a.wf() && app_merged(old(self), final(self), a),
                None => r == Err::<(), SnapshotError>(SnapshotError::Unreadable) && *final(self)
                    == *old(self),
            },
    {
        match AppInfoDo::read_message(&record.value) {
            Some(app_do) => {
                let app = AppInfo::from_do(app_do);
                let ghost a = app;
                let ghost before = *self;
                self.update_app_info(app);
                proof {
                    assert(app_merged(&before, self, a));
                }
                Ok(())
            },
            None => Err(SnapshotError::Unreadable),
        }
    }
}

/// What `update_app_info` makes of the applications: a known one takes the
/// label, register type and flag given; a new one is added; the index holds
/// its key; time-outs stay.
pub open spec fn app_merged(before: &AppManager, after: &AppManager, a: AppInfo) -> bool {
    &&& after.timeouts() == before.timeouts()
    &&& after.instance_timeout == before.instance_timeout
    &&& after.indexed() == before.indexed().insert(a.key_view())
    &&& before.apps().contains_key(a.key_view()) ==> after.apps() == before.apps().insert(
        a.key_view(),
        AppInfo { label: a.label, register_type: a.register_type, tmp: a.tmp, ..before.apps()[a.key_view()] },
    )
    &&& !before.apps().contains_key(a.key_view()) ==> after.apps() == before.apps().insert(a.key_view(), a)
}


/// What `get_app_info` answers: the application with the key, shown, if any.
pub open spec fn app_info_answer(m: &AppManager, key: AppKeyView, with_addrs: bool, r: Option<AppInfoDto>) -> bool {
    &&& r is Some <==> m.apps().contains_key(key)
    &&& r is Some ==> app_dto_shows(r->0, m.apps()[key], with_addrs)
}

/// What `get_app_instance_addrs` answers: the addresses of the application's
/// enabled, healthy instances, in address order; none for an unknown application.
pub open spec fn addrs_answer(m: &AppManager, key: AppKeyView, r: Seq<String>) -> bool {
    &&& !m.apps().contains_key(key) ==> r.len() == 0
    &&& m.apps().contains_key(key) ==> r == addrs_of(m.apps()[key].instance_map.seq().filter(usable()))
}

/// What `query_page_info` answers: how many indexed keys match, and the
/// applications of the page asked for (forgotten ones left out), shown.
pub open spec fn page_answer(m: &AppManager, q: AppQueryParam, total: usize, list: Seq<AppInfoDto>) -> bool {
    &&& total == m.app_index.entries().filter(q.key_filter()).len()
    &&& list.len() == query_page_keys(m, q).len()
    &&& forall|i: int|
        0 <= i < list.len() ==> app_dto_shows(#[trigger] list[i], m.apps()[query_page_keys(m, q)[i]], false)
}

/// What `get_all_instances` answers: every instance, applications in key
/// order and instances in address order.
pub open spec fn all_instances_answer(m: &AppManager, list: Seq<AppInstanceDto>) -> bool {
    &&& list.len() == all_instances(m.app_map.seq()).len()
    &&& forall|i: int| 0 <= i < list.len() ==> instance_dto_shows(#[trigger] list[i], all_instances(m.app_map.seq())[i])
}

/// What `unregister_app_instance` does: the instance leaves its application;
/// nothing else changes.
pub open spec fn instance_unregistered(before: &AppManager, after: &AppManager, key: AppKeyView, addr: Seq<char>) -> bool {
    &&& after.timeouts() == before.timeouts()
    &&& after.indexed() == before.indexed()
    &&& !before.apps().contains_key(key) ==> after.apps() == before.apps()
    &&& before.apps().contains_key(key) ==> ({
        let o = before.apps()[key];
        let a = after.apps()[key];
        &&& after.apps().contains_key(key)
        &&& after.apps().remove(key) == before.apps().remove(key)
        &&& same_but_instances(o, a)
        &&& a.instances() == o.instances().remove(addr)
    })
}

/// What `update_app` does: a known application takes the label and register
/// type given and the addresses given; a new one is made, not temporary, with
/// them; the index holds its key; time-outs stay.
pub open spec fn app_updated(before: &AppManager, after: &AppManager, app_param: AppParam) -> bool {
    &&& after.timeouts() == before.timeouts()
    &&& after.indexed() == before.indexed().insert(param_key(app_param))
    &&& after.apps().contains_key(param_key(app_param))
    &&& after.apps().remove(param_key(app_param)) == before.apps().remove(param_key(app_param))
    &&& ({
        let k = param_key(app_param);
        let a = after.apps()[k];
        if before.apps().contains_key(k) {
            let o = before.apps()[k];
            &&& a.app_name == o.app_name
            &&& a.namespace == o.namespace
            &&& a.label == or_keep(app_param.label, o.label)
            &&& a.register_type == or_keep(app_param.register_type, o.register_type)
            &&& a.tmp == o.tmp
            &&& a.instances() == given_addrs_applied(
                o.instances(),
                app_param.instance_addrs,
                app_param.last_modified_time,
            )
        } else {
            &&& a.app_name == app_param.app_name
            &&& a.namespace == app_param.namespace
            &&& a.label@ == or_empty(app_param.label)
            &&& a.register_type == or_keep(app_param.register_type, RegisterType::Auto)
            &&& !a.tmp
            &&& a.instances() == given_addrs_applied(
                Map::empty(),
                app_param.instance_addrs,
                app_param.last_modified_time,
            )
        }
    })
}

/// What `remove_app` does: the application is forgotten (its key stays
/// indexed); time-outs stay.
pub open spec fn app_removed(before: &AppManager, after: &AppManager, key: AppKeyView) -> bool {
    &&& after.timeouts() == before.timeouts()
    &&& after.indexed() == before.indexed()
    &&& after.apps() == before.apps().remove(key)
}

/// What `register_app_instance` does when it answers `told`: a stale report
/// changes nothing; otherwise the instance gets a time-out at the time it was
/// heard from, and joins its application (seen now), which is made, temporary,
/// where it is unknown.
pub open spec fn instance_registered(
    before: &AppManager,
    after: &AppManager,
    key: AppKey,
    instance_key: String,
    last_modified_time: u32,
    told: bool,
) -> bool {
    &&& !told ==> after.apps() == before.apps() && after.timeouts() == before.timeouts() && after.indexed()
        == before.indexed()
    &&& told ==> after.timeouts() == before.timeouts().insert(
        (
            last_modified_time as u64,
            InstanceTimeoutInfo {
                app_instance_key: AppInstanceKey {
                    app_name: key.app_name,
                    namespace: key.namespace,
                    addr: instance_key,
                },
                timeout: last_modified_time,
            },
        ),
    )
    &&& told ==> after.indexed() == before.indexed().insert(key@)
    &&& told ==> after.apps().contains_key(key@)
    &&& told ==> after.apps().remove(key@) == before.apps().remove(key@)
    &&& told && before.apps().contains_key(key@) ==> ({
        let o = before.apps()[key@];
        let a = after.apps()[key@];
        &&& same_but_instances(o, a)
        &&& a.instances() == o.instances().insert(
            instance_key@,
            seen_instance(o.instances(), instance_key, last_modified_time),
        )
    })
    &&& told && !before.apps().contains_key(key@) ==> ({
        let a = after.apps()[key@];
        &&& a.app_name == key.app_name
        &&& a.namespace == key.namespace
        &&& a.label@.len() == 0
        &&& a.register_type == RegisterType::Auto
        &&& a.tmp
        &&& a.instances() == Map::<Seq<char>, AppInstance>::empty().insert(
            instance_key@,
            fresh_instance(instance_key, last_modified_time),
        )
    })
}

/// What a routed request does and answers: a registration is told to the task
/// side where it was not stale; an unregistration always is; the list of all
/// instances changes nothing.
pub open spec fn routed(
    before: &AppManager,
    after: &AppManager,
    req: AppRouteRequest,
    now: u32,
    resp: AppRouteResponse,
    notice: Option<InstanceNotice>,
) -> bool {
    match req {
        AppRouteRequest::RegisterInstance(p) => {
            let told = now - before.instance_timeout < p.last_modified_time;
            &&& resp is Empty
            &&& instance_registered(before, after, p.app_key, p.instance_addr, p.last_modified_time, told)
            &&& told ==> notice == Some(InstanceNotice::AddAppInstance(p.app_key, p.instance_addr))
            &&& !told ==> notice is None
        },
        AppRouteRequest::UnregisterInstance(p) => {
            &&& resp is Empty
            &&& instance_unregistered(before, after, p.app_key@, p.instance_addr@)
            &&& notice == Some(InstanceNotice::RemoveAppInstance(p.app_key, p.instance_addr))
        },
        AppRouteRequest::GetAllInstanceAddrs => {
            &&& after.apps() == before.apps()
            &&& after.timeouts() == before.timeouts()
            &&& after.indexed() == before.indexed()
            &&& notice is None
            &&& resp matches AppRouteResponse::AllInstanceAddrs(list) && all_instances_answer(before, list@)
        },
    }
}


/// Removing an application just added by an update undoes the addition: the
/// applications are as they were before.
pub proof fn lemma_remove_undoes_update(before: &AppManager, mid: &AppManager, after: &AppManager, p: AppParam)
    requires
        app_updated(before, mid, p),
        !before.apps().contains_key(param_key(p)),
        app_removed(mid, after, param_key(p)),
    ensures
        after.apps() == before.apps(),
{
    assert(before.apps().remove(param_key(p)) =~= before.apps());
}

} // verus!
