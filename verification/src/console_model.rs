//! What the console sends, and how it becomes the parameters of the services.
use crate::app_index::AppQueryParam;
use crate::app_model::{register_type_of, AppParam, RegisterType};
use crate::common_model::UserSession;
use crate::datetime::now_millis;
use crate::enum_type::{
    executor_block_strategy_of, job_run_mode_of, past_due_strategy_of, router_strategy_of,
    schedule_type_of, ExecutorBlockStrategy, JobRunMode, PastDueStrategy, RouterStrategy,
    ScheduleType,
};
use crate::job_index::JobQueryParam;
use crate::job_model::{or_empty, or_keep, unwrap_or_empty, JobParam, JobTaskLogQueryParam};
use crate::namespace::NamespaceParam;
use crate::namespace_util::{default_namespace, effective_namespace, get_namespace_by_option};
use vstd::prelude::*;

verus! {

/// The namespace an optional console value names: itself, or the default where
/// it is absent or empty.
pub open spec fn namespace_or_default(ns: Option<String>) -> Seq<char> {
    match ns {
        Some(v) => effective_namespace(v@),
        None => default_namespace(),
    }
}

/// The position where page `page_no` of `limit` items starts; pages count from
/// 1, and an absent or zero page number means the first.
pub open spec fn page_start(page_no: Option<usize>, limit: usize) -> int {
    let p = or_keep(page_no, 1usize);
    let p = if p < 1 {
        1
    } else {
        p
    };
    (p - 1) * limit
}

/// The position where page `page_no` of `limit` items starts.
fn page_offset(page_no: Option<usize>, limit: usize) -> (r: usize)
    requires
        page_start(page_no, limit) <= usize::MAX,
    ensures
        r == page_start(page_no, limit),
{
    let p = match page_no {
        Some(p) => if p < 1 {
            1
        } else {
            p
        },
        None => 1,
    };
    (p - 1) * limit
}

/// An application as the console sets or looks it up.
#[derive(Debug, Default)]
pub struct AppInfoParam {
    pub namespace: Option<String>,
    pub app_name: Option<String>,
    pub label: Option<String>,
    pub register_type: Option<String>,
    pub instance_addrs: Option<Vec<String>>,
}

impl AppInfoParam {
    /// The application update it asks for: the default namespace where none is
    /// given, the register type read from its wire name, and no time (0) for
    /// the addresses it lists.
    pub fn to_param(self) -> (r: AppParam)
        ensures
            r.app_name@ == or_empty(self.app_name),
            r.namespace@ == namespace_or_default(self.namespace),
            r.label == self.label,
            r.register_type == match self.register_type {
                Some(s) => Some(register_type_of(s@)),
                None => None::<RegisterType>,
            },
            r.instance_addrs == self.instance_addrs,
            r.last_modified_time == 0,
    {
        let namespace = get_namespace_by_option(&self.namespace);
        let register_type = match self.register_type {
            Some(s) => Some(RegisterType::from_str(s.as_str())),
            None => None,
        };
        AppParam {
            app_name: unwrap_or_empty(self.app_name),
            namespace,
            label: self.label,
            register_type,
            instance_addrs: self.instance_addrs,
            last_modified_time: 0,
        }
    }
}

/// A page of applications as the console asks for it.
#[derive(Debug, Default)]
pub struct AppQueryListRequest {
    pub namespace: Option<String>,
    pub app_name: Option<String>,
    pub like_app_name: Option<String>,
    pub page_no: Option<usize>,
    pub page_size: Option<usize>,
}

impl AppQueryListRequest {
    /// The index query: the filters as given, pages of `page_size` (all in one
    /// page, 0xffff_ffff, where absent).
    pub fn to_param(self) -> (r: AppQueryParam)
        requires
            page_start(self.page_no, or_keep(self.page_size, 0xffff_ffffusize)) <= usize::MAX,
        ensures
            r.namespace == self.namespace,
            r.app_name == self.app_name,
            r.like_name == self.like_app_name,
            r.limit == or_keep(self.page_size, 0xffff_ffffusize),
            r.offset == page_start(self.page_no, r.limit),
    {
        let limit = match self.page_size {
            Some(v) => v,
            None => 0xffff_ffff,
        };
        let offset = page_offset(self.page_no, limit);
        AppQueryParam {
            namespace: self.namespace,
            app_name: self.app_name,
            like_name: self.like_app_name,
            offset,
            limit,
        }
    }
}

/// A job as the console creates or changes it; options by wire name.
#[derive(Debug, Default)]
pub struct JobInfoParam {
    pub id: Option<u64>,
    pub enable: Option<bool>,
    pub namespace: Option<String>,
    pub app_name: Option<String>,
    pub description: Option<String>,
    pub schedule_type: Option<String>,
    pub cron_value: Option<String>,
    pub delay_second: Option<u32>,
    pub interval_second: Option<u32>,
    pub run_mode: Option<String>,
    pub handle_name: Option<String>,
    pub trigger_param: Option<String>,
    pub router_strategy: Option<String>,
    pub past_due_strategy: Option<String>,
    pub blocking_strategy: Option<String>,
    pub timeout_second: Option<u32>,
    pub try_times: Option<u32>,
    pub retry_interval: Option<u32>,
}

/// An optional wire name read with `f`.
pub open spec fn read_opt<T>(s: Option<String>, f: spec_fn(Seq<char>) -> T) -> Option<T> {
    match s {
        Some(v) => Some(f(v@)),
        None => None,
    }
}

/// The job parameters a console request stands for, changed at `now`.
pub open spec fn job_param_of(p: JobInfoParam, r: JobParam, now: u64) -> bool {
    &&& r.id == p.id
    &&& r.enable == p.enable
    &&& r.namespace is Some && r.namespace->0@ == namespace_or_default(p.namespace)
    &&& r.app_name == p.app_name
    &&& r.description == p.description
    &&& r.schedule_type == read_opt(p.schedule_type, |s: Seq<char>| schedule_type_of(s))
    &&& r.cron_value == p.cron_value
    &&& r.delay_second == p.delay_second
    &&& r.interval_second == p.interval_second
    &&& r.run_mode == read_opt(
        p.run_mode,
        |s: Seq<char>| or_keep(job_run_mode_of(s), JobRunMode::Bean),
    )
    &&& r.handle_name == p.handle_name
    &&& r.trigger_param == p.trigger_param
    &&& r.router_strategy == read_opt(
        p.router_strategy,
        |s: Seq<char>| or_keep(router_strategy_of(s), RouterStrategy::RoundRobin),
    )
    &&& r.past_due_strategy == read_opt(p.past_due_strategy, |s: Seq<char>| past_due_strategy_of(s))
    &&& r.blocking_strategy == read_opt(
        p.blocking_strategy,
        |s: Seq<char>| executor_block_strategy_of(s),
    )
    &&& r.timeout_second == p.timeout_second
    &&& r.try_times == p.try_times
    &&& r.update_time == Some(now)
    &&& r.retry_interval == p.retry_interval
}

impl JobInfoParam {
    /// The job parameters it stands for, stamped with the current time.
    pub fn to_param(self) -> (r: JobParam)
        ensures
            r.update_time is Some,
            job_param_of(self, r, r.update_time->0),
    {
        let now = now_millis();
        self.to_param_at(now)
    }

    /// The job parameters it stands for, stamped `now` (milliseconds): the
    /// default namespace where none is given, options read from their wire
    /// names (an unknown run mode as bean, an unknown router as round robin).
    pub fn to_param_at(self, now: u64) -> (r: JobParam)
        ensures
            job_param_of(self, r, now),
    {
        let namespace = get_namespace_by_option(&self.namespace);
        let schedule_type = match &self.schedule_type {
            Some(s) => Some(ScheduleType::from_str(s.as_str())),
            None => None,
        };
        let run_mode = match &self.run_mode {
            Some(s) => Some(
                match JobRunMode::from_str(s.as_str()) {
                    Some(m) => m,
                    None => JobRunMode::Bean,
                },
            ),
            None => None,
        };
        let router_strategy = match &self.router_strategy {
            Some(s) => Some(
                match RouterStrategy::from_str(s.as_str()) {
                    Some(m) => m,
                    None => RouterStrategy::RoundRobin,
                },
            ),
            None => None,
        };
        let past_due_strategy = match &self.past_due_strategy {
            Some(s) => Some(PastDueStrategy::from_str(s.as_str())),
            None => None,
        };
        let blocking_strategy = match &self.blocking_strategy {
            Some(s) => Some(ExecutorBlockStrategy::from_str(s.as_str())),
            None => None,
        };
        JobParam {
            id: self.id,
            enable: self.enable,
            namespace: Some(namespace),
            app_name: self.app_name,
            description: self.description,
            schedule_type,
            cron_value: self.cron_value,
            delay_second: self.delay_second,
            interval_second: self.interval_second,
            run_mode,
            handle_name: self.handle_name,
            trigger_param: self.trigger_param,
            router_strategy,
            past_due_strategy,
            blocking_strategy,
            timeout_second: self.timeout_second,
            try_times: self.try_times,
            update_time: Some(now),
            retry_interval: self.retry_interval,
        }
    }
}

/// A request to run a job now, maybe on a given instance.
#[derive(Debug, Default)]
pub struct TriggerJobParam {
    pub job_id: Option<u64>,
    pub instance_addr: Option<String>,
}

/// A page of jobs as the console asks for it.
#[derive(Debug, Default)]
pub struct JobQueryListRequest {
    pub namespace: Option<String>,
    pub app_name: Option<String>,
    pub like_description: Option<String>,
    pub like_handle_name: Option<String>,
    pub page_no: Option<usize>,
    pub page_size: Option<usize>,
}

impl JobQueryListRequest {
    /// The job query for a console user. The query holds no privileges, so the
    /// session does not change it: it is the query `to_param` makes.
    pub fn to_param_with_session(self, session: &UserSession) -> (r: JobQueryParam)
        requires
            page_start(self.page_no, or_keep(self.page_size, 0xffff_ffffusize)) <= usize::MAX,
        ensures
            r.namespace == self.namespace,
            r.app_name == self.app_name,
            r.like_description == self.like_description,
            r.like_handle_name == self.like_handle_name,
            r.limit == or_keep(self.page_size, 0xffff_ffffusize),
            r.offset == page_start(self.page_no, r.limit),
    {
        self.to_param()
    }

    /// The job query: the filters as given, pages of `page_size` (all in one
    /// page, 0xffff_ffff, where absent).
    pub fn to_param(self) -> (r: JobQueryParam)
        requires
            page_start(self.page_no, or_keep(self.page_size, 0xffff_ffffusize)) <= usize::MAX,
        ensures
            r.namespace == self.namespace,
            r.app_name == self.app_name,
            r.like_description == self.like_description,
            r.like_handle_name == self.like_handle_name,
            r.limit == or_keep(self.page_size, 0xffff_ffffusize),
            r.offset == page_start(self.page_no, r.limit),
    {
        let limit = match self.page_size {
            Some(v) => v,
            None => 0xffff_ffff,
        };
        let offset = page_offset(self.page_no, limit);
        JobQueryParam {
            namespace: self.namespace,
            app_name: self.app_name,
            like_description: self.like_description,
            like_handle_name: self.like_handle_name,
            offset,
            limit,
        }
    }
}

/// A page of a job's task logs as the console asks for it.
#[derive(Debug, Default)]
pub struct JobTaskLogQueryListRequest {
    pub job_id: Option<u64>,
    pub page_no: Option<usize>,
    pub page_size: Option<usize>,
}

impl JobTaskLogQueryListRequest {
    /// The task log query: job 0 where none is given, pages of `page_size` (10
    /// where absent).
    pub fn to_param(self) -> (r: JobTaskLogQueryParam)
        requires
            page_start(self.page_no, or_keep(self.page_size, 10usize)) <= usize::MAX,
        ensures
            r.job_id == or_keep(self.job_id, 0u64),
            r.limit == or_keep(self.page_size, 10usize),
            r.offset == page_start(self.page_no, r.limit),
    {
        let limit = match self.page_size {
            Some(v) => v,
            None => 10,
        };
        let offset = page_offset(self.page_no, limit);
        JobTaskLogQueryParam {
            job_id: match self.job_id {
                Some(v) => v,
                None => 0,
            },
            offset,
            limit,
        }
    }
}

/// A namespace as the console shows it.
#[derive(Debug, Default)]
pub struct NamespaceInfo {
    pub namespace_id: Option<String>,
    pub namespace_name: Option<String>,
    pub ns_type: Option<String>,
}

/// A namespace as the console creates, renames or removes it.
#[derive(Debug)]
pub struct NamespaceHandleRequest {
    pub namespace_id: Option<String>,
    pub namespace_name: Option<String>,
}

impl NamespaceHandleRequest {
    /// The namespace change it asks for; an absent name is empty.
    pub fn to_param(self) -> (r: NamespaceParam)
        ensures
            r.id == self.namespace_id,
            r.name@ == or_empty(self.namespace_name),
            r.ns_type@.len() == 0,
    {
        NamespaceParam {
            id: self.namespace_id,
            name: unwrap_or_empty(self.namespace_name),
            ns_type: String::new(),
        }
    }
}

} // verus!
