//! Jobs: their configuration, the rules it must meet, and their task logs.
use crate::app_model::AppKey;
use crate::cron_utils::{cron_expression_parses, CronUtil};
use crate::data_object::{
    job_do_fields, job_do_of, lemma_job_do_round_trip, JobDo, JobDoView, JobTaskDo, JobTaskDoView,
    TaskTryLogDo,
};
use crate::wire::{fields_bytes, lemma_utf8_bytes_len, two64, utf8_bytes};
use crate::enum_type::{
    executor_block_strategy_name, executor_block_strategy_of, job_run_mode_name, job_run_mode_of,
    lemma_executor_block_strategy_round_trip, lemma_job_run_mode_round_trip,
    lemma_past_due_strategy_round_trip, lemma_router_strategy_round_trip,
    lemma_schedule_type_round_trip, past_due_strategy_name, past_due_strategy_of,
    router_strategy_name, router_strategy_of, schedule_type_name, schedule_type_of,
    ExecutorBlockStrategy, JobRunMode, PastDueStrategy, RouterStrategy, ScheduleType,
};
use crate::id_list::{is_min_id, IdList, KeyedById};
use vstd::prelude::*;
use vstd::set_lib::lemma_len_subset;

verus! {

/// The given value, or the kept one where none is given.
pub open spec fn or_keep<T>(given: Option<T>, kept: T) -> T {
    match given {
        Some(v) => v,
        None => kept,
    }
}

/// The characters of an optional string, or none where it is absent.
pub open spec fn or_empty(s: Option<String>) -> Seq<char> {
    match s {
        Some(v) => v@,
        None => Seq::empty(),
    }
}

/// A job's configuration.
#[derive(Debug)]
pub struct JobInfo {
    pub id: u64,
    pub enable: bool,
    pub app_name: String,
    pub namespace: String,
    pub description: String,
    pub schedule_type: ScheduleType,
    pub cron_value: String,
    pub delay_second: u32,
    pub interval_second: u32,
    pub run_mode: JobRunMode,
    pub handle_name: String,
    pub trigger_param: String,
    pub router_strategy: RouterStrategy,
    pub past_due_strategy: PastDueStrategy,
    pub blocking_strategy: ExecutorBlockStrategy,
    pub timeout_second: u32,
    pub try_times: u32,
    pub version_id: u64,
    pub last_modified_millis: u64,
    pub create_time: u64,
}

impl Clone for JobInfo {
    fn clone(&self) -> (r: Self)
        ensures
            r == *self,
    {
        JobInfo {
            id: self.id,
            enable: self.enable,
            app_name: self.app_name.clone(),
            namespace: self.namespace.clone(),
            description: self.description.clone(),
            schedule_type: self.schedule_type,
            cron_value: self.cron_value.clone(),
            delay_second: self.delay_second,
            interval_second: self.interval_second,
            run_mode: self.run_mode,
            handle_name: self.handle_name.clone(),
            trigger_param: self.trigger_param.clone(),
            router_strategy: self.router_strategy,
            past_due_strategy: self.past_due_strategy,
            blocking_strategy: self.blocking_strategy,
            timeout_second: self.timeout_second,
            try_times: self.try_times,
            version_id: self.version_id,
            last_modified_millis: self.last_modified_millis,
            create_time: self.create_time,
        }
    }
}

/// A change to a job's configuration; absent fields stay as they are.
#[derive(Debug, Default)]
pub struct JobParam {
    pub id: Option<u64>,
    pub enable: Option<bool>,
    pub app_name: Option<String>,
    pub namespace: Option<String>,
    pub description: Option<String>,
    pub schedule_type: Option<ScheduleType>,
    pub cron_value: Option<String>,
    pub delay_second: Option<u32>,
    pub interval_second: Option<u32>,
    pub run_mode: Option<JobRunMode>,
    pub handle_name: Option<String>,
    pub trigger_param: Option<String>,
    pub router_strategy: Option<RouterStrategy>,
    pub past_due_strategy: Option<PastDueStrategy>,
    pub blocking_strategy: Option<ExecutorBlockStrategy>,
    pub timeout_second: Option<u32>,
    pub try_times: Option<u32>,
    pub update_time: Option<u64>,
    pub retry_interval: Option<u32>,
}

/// Whether an optional text is absent or empty.
fn absent_or_empty(v: &Option<String>) -> (r: bool)
    ensures
        r == (or_empty(*v).len() == 0),
{
    match v {
        Some(s) => s.as_str().is_empty(),
        None => {
            proof {
                reveal_strlit("");
            }
            true
        },
    }
}

/// The text of an optional cron value, empty where it is absent.
fn cron_text(v: &Option<String>) -> (r: &str)
    ensures
        r@ == or_empty(*v),
{
    match v {
        Some(c) => c.as_str(),
        None => {
            proof {
                reveal_strlit("");
            }
            ""
        },
    }
}

impl JobParam {
    /// The rules checked on the job the parameter set makes (`param_check`):
    /// an absent field counts as its default.
    pub fn check_valid(&self) -> (r: Result<(), JobCheckError>)
        ensures
            r == param_check(*self),
    {
        let id = match self.id {
            Some(i) => i,
            None => 0,
        };
        let run_mode = match self.run_mode {
            Some(m) => m,
            None => JobRunMode::Bean,
        };
        let schedule_type = match self.schedule_type {
            Some(t) => t,
            None => ScheduleType::Unset,
        };
        if id == 0 {
            Err(JobCheckError::IdEmpty)
        } else if absent_or_empty(&self.namespace) || absent_or_empty(&self.app_name) {
            Err(JobCheckError::NamespaceOrAppNameEmpty)
        } else if run_mode == JobRunMode::Bean && absent_or_empty(&self.handle_name) {
            Err(JobCheckError::BeanHandleNameInvalid)
        } else if schedule_type == ScheduleType::Cron && !CronUtil::check_cron_valid(
            cron_text(&self.cron_value),
        ) {
            Err(JobCheckError::CronValueInvalid)
        } else {
            Ok(())
        }
    }
}

/// `after` is the value given, where one is given, else `before`.
pub open spec fn takes<T>(given: Option<T>, before: T, after: T) -> bool {
    match given {
        Some(v) => after == v,
        None => after == before,
    }
}

/// `after` is `before` updated with `p`: every configuration field `p` gives is
/// taken, every other stays; `update_time` becomes the create time; the id,
/// application, namespace and last-modified time stay; the version goes up by one.
pub open spec fn update_takes_given(before: JobInfo, p: JobParam, after: JobInfo) -> bool {
    &&& takes(p.description, before.description, after.description)
    &&& takes(p.enable, before.enable, after.enable)
    &&& takes(p.schedule_type, before.schedule_type, after.schedule_type)
    &&& takes(p.cron_value, before.cron_value, after.cron_value)
    &&& takes(p.delay_second, before.delay_second, after.delay_second)
    &&& takes(p.interval_second, before.interval_second, after.interval_second)
    &&& takes(p.run_mode, before.run_mode, after.run_mode)
    &&& takes(p.handle_name, before.handle_name, after.handle_name)
    &&& takes(p.trigger_param, before.trigger_param, after.trigger_param)
    &&& takes(p.router_strategy, before.router_strategy, after.router_strategy)
    &&& takes(p.past_due_strategy, before.past_due_strategy, after.past_due_strategy)
    &&& takes(p.blocking_strategy, before.blocking_strategy, after.blocking_strategy)
    &&& takes(p.timeout_second, before.timeout_second, after.timeout_second)
    &&& takes(p.try_times, before.try_times, after.try_times)
    &&& takes(p.update_time, before.create_time, after.create_time)
    &&& after.id == before.id
    &&& after.app_name == before.app_name
    &&& after.namespace == before.namespace
    &&& after.last_modified_millis == before.last_modified_millis
    &&& after.version_id == before.version_id + 1
}

/// Why a job's configuration is refused.
#[derive(PartialEq, Eq, Structural, Clone, Copy, Debug)]
pub enum JobCheckError {
    IdEmpty,
    NamespaceOrAppNameEmpty,
    BeanHandleNameInvalid,
    CronValueInvalid,
}

impl JobCheckError {
    /// The message the error is reported with.
    pub fn message(&self) -> (r: &str)
        ensures
            r@ == job_check_error_message(*self),
    {
        match self {
            JobCheckError::IdEmpty => "id is empty!",
            JobCheckError::NamespaceOrAppNameEmpty => "namespace or app_name is empty!",
            JobCheckError::BeanHandleNameInvalid => "bean handle_name is invalid!",
            JobCheckError::CronValueInvalid => "cron_value is invalid!",
        }
    }
}

/// The message of each refusal.
pub open spec fn job_check_error_message(e: JobCheckError) -> Seq<char> {
    match e {
        JobCheckError::IdEmpty => "id is empty!"@,
        JobCheckError::NamespaceOrAppNameEmpty => "namespace or app_name is empty!"@,
        JobCheckError::BeanHandleNameInvalid => "bean handle_name is invalid!"@,
        JobCheckError::CronValueInvalid => "cron_value is invalid!"@,
    }
}

/// The rules a job's configuration must meet, checked in this order: a non-zero
/// id; a namespace and an application name; a handler name for bean jobs; a
/// cron expression the cron crate accepts for cron jobs.
pub open spec fn job_rules(
    id: u64,
    namespace: Seq<char>,
    app_name: Seq<char>,
    run_mode: JobRunMode,
    handle_name: Seq<char>,
    schedule_type: ScheduleType,
    cron_value: Seq<char>,
) -> Result<(), JobCheckError> {
    if id == 0 {
        Err(JobCheckError::IdEmpty)
    } else if namespace.len() == 0 || app_name.len() == 0 {
        Err(JobCheckError::NamespaceOrAppNameEmpty)
    } else if run_mode == JobRunMode::Bean && handle_name.len() == 0 {
        Err(JobCheckError::BeanHandleNameInvalid)
    } else if schedule_type == ScheduleType::Cron && !cron_expression_parses(cron_value) {
        Err(JobCheckError::CronValueInvalid)
    } else {
        Ok(())
    }
}

/// The rules applied to a job.
pub open spec fn job_check(j: JobInfo) -> Result<(), JobCheckError> {
    job_rules(
        j.id,
        j.namespace@,
        j.app_name@,
        j.run_mode,
        j.handle_name@,
        j.schedule_type,
        j.cron_value@,
    )
}

/// The rules applied to the job that `from_param` makes of a parameter set.
pub open spec fn param_check(p: JobParam) -> Result<(), JobCheckError> {
    job_rules(
        or_keep(p.id, 0u64),
        or_empty(p.namespace),
        or_empty(p.app_name),
        or_keep(p.run_mode, JobRunMode::Bean),
        or_empty(p.handle_name),
        or_keep(p.schedule_type, ScheduleType::Unset),
        or_empty(p.cron_value),
    )
}

impl JobInfo {
    /// The job after applying `p` (a pure description of `update_param`).
    pub open spec fn updated(self, p: JobParam) -> JobInfo {
        JobInfo {
            description: or_keep(p.description, self.description),
            enable: or_keep(p.enable, self.enable),
            schedule_type: or_keep(p.schedule_type, self.schedule_type),
            cron_value: or_keep(p.cron_value, self.cron_value),
            delay_second: or_keep(p.delay_second, self.delay_second),
            interval_second: or_keep(p.interval_second, self.interval_second),
            run_mode: or_keep(p.run_mode, self.run_mode),
            handle_name: or_keep(p.handle_name, self.handle_name),
            trigger_param: or_keep(p.trigger_param, self.trigger_param),
            router_strategy: or_keep(p.router_strategy, self.router_strategy),
            past_due_strategy: or_keep(p.past_due_strategy, self.past_due_strategy),
            blocking_strategy: or_keep(p.blocking_strategy, self.blocking_strategy),
            timeout_second: or_keep(p.timeout_second, self.timeout_second),
            try_times: or_keep(p.try_times, self.try_times),
            create_time: or_keep(p.update_time, self.create_time),
            version_id: (self.version_id + 1) as u64,
            ..self
        }
    }

    /// Applies the given fields of `job_param`; the id, application, namespace and
    /// last-modified time stay; `update_time` becomes the create time; the version
    /// goes up by one.
    pub fn update_param(&mut self, job_param: JobParam)
        requires
            old(self).version_id < u64::MAX,
        ensures
            *final(self) == old(self).updated(job_param),
            update_takes_given(*old(self), job_param, *final(self)),
    {
        assign_given(&mut self.description, job_param.description);
        assign_given(&mut self.enable, job_param.enable);
        assign_given(&mut self.schedule_type, job_param.schedule_type);
        assign_given(&mut self.cron_value, job_param.cron_value);
        assign_given(&mut self.delay_second, job_param.delay_second);
        assign_given(&mut self.interval_second, job_param.interval_second);
        assign_given(&mut self.run_mode, job_param.run_mode);
        assign_given(&mut self.handle_name, job_param.handle_name);
        assign_given(&mut self.trigger_param, job_param.trigger_param);
        assign_given(&mut self.router_strategy, job_param.router_strategy);
        assign_given(&mut self.past_due_strategy, job_param.past_due_strategy);
        assign_given(&mut self.blocking_strategy, job_param.blocking_strategy);
        assign_given(&mut self.timeout_second, job_param.timeout_second);
        assign_given(&mut self.try_times, job_param.try_times);
        assign_given(&mut self.create_time, job_param.update_time);
        self.version_id = self.version_id + 1;
    }

    /// Checks the rules a job's configuration must meet.
    pub fn check_valid(&self) -> (r: Result<(), JobCheckError>)
        ensures
            r == job_check(*self),
    {
        if self.id == 0 {
            Err(JobCheckError::IdEmpty)
        } else if self.namespace.as_str().is_empty() || self.app_name.as_str().is_empty() {
            Err(JobCheckError::NamespaceOrAppNameEmpty)
        } else if self.run_mode == JobRunMode::Bean && self.handle_name.as_str().is_empty() {
            Err(JobCheckError::BeanHandleNameInvalid)
        } else if self.schedule_type == ScheduleType::Cron && !CronUtil::check_cron_valid(
            self.cron_value.as_str(),
        ) {
            Err(JobCheckError::CronValueInvalid)
        } else {
            Ok(())
        }
    }

    /// Whether the job's configuration meets the rules.
    pub fn is_valid(&self) -> (r: bool)
        ensures
            r == (job_check(*self) is Ok),
    {
        if self.id == 0 || self.namespace.as_str().is_empty() || self.app_name.as_str().is_empty() {
            false
        } else if self.run_mode == JobRunMode::Bean && self.handle_name.as_str().is_empty() {
            false
        } else if self.schedule_type == ScheduleType::Cron && !CronUtil::check_cron_valid(
            self.cron_value.as_str(),
        ) {
            false
        } else {
            true
        }
    }

    /// The key of the application the job belongs to.
    pub fn build_app_key(&self) -> (r: AppKey)
        ensures
            r.namespace == self.namespace,
            r.app_name == self.app_name,
    {
        AppKey { namespace: self.namespace.clone(), app_name: self.app_name.clone() }
    }

    /// A job made from a full parameter set: absent fields take their defaults
    /// (enabled, empty texts, no schedule, bean mode, round robin, default
    /// past-due handling, serial execution, zeros), `update_time` becomes the
    /// last-modified time, and the version and create time start at zero.
    pub fn from_param(job_param: JobParam) -> (r: JobInfo)
        ensures
            from_param_fields(job_param, r),
            r.last_modified_millis == or_keep(job_param.update_time, 0u64),
            r.create_time == 0,
    {
        JobInfo {
            id: unwrap_or_u64(job_param.id, 0),
            enable: match job_param.enable {
                Some(v) => v,
                None => true,
            },
            app_name: unwrap_or_empty(job_param.app_name),
            namespace: unwrap_or_empty(job_param.namespace),
            handle_name: unwrap_or_empty(job_param.handle_name),
            description: unwrap_or_empty(job_param.description),
            schedule_type: match job_param.schedule_type {
                Some(v) => v,
                None => ScheduleType::Unset,
            },
            cron_value: unwrap_or_empty(job_param.cron_value),
            delay_second: unwrap_or_u32(job_param.delay_second, 0),
            interval_second: unwrap_or_u32(job_param.interval_second, 0),
            run_mode: match job_param.run_mode {
                Some(v) => v,
                None => JobRunMode::Bean,
            },
            trigger_param: unwrap_or_empty(job_param.trigger_param),
            router_strategy: match job_param.router_strategy {
                Some(v) => v,
                None => RouterStrategy::RoundRobin,
            },
            past_due_strategy: match job_param.past_due_strategy {
                Some(v) => v,
                None => PastDueStrategy::Default,
            },
            blocking_strategy: match job_param.blocking_strategy {
                Some(v) => v,
                None => ExecutorBlockStrategy::SerialExecution,
            },
            timeout_second: unwrap_or_u32(job_param.timeout_second, 0),
            try_times: unwrap_or_u32(job_param.try_times, 0),
            version_id: 0,
            last_modified_millis: unwrap_or_u64(job_param.update_time, 0),
            create_time: 0,
        }
    }
}

/// Overwrites `dst` with the given value, if any.
fn assign_given<T>(dst: &mut T, given: Option<T>)
    ensures
        *final(dst) == or_keep(given, *old(dst)),
{
    if let Some(v) = given {
        *dst = v;
    }
}

/// The fields of `j` other than its times are those `from_param` makes of `p`.
pub open spec fn from_param_fields(p: JobParam, j: JobInfo) -> bool {
    &&& j.id == or_keep(p.id, 0u64)
    &&& j.enable == or_keep(p.enable, true)
    &&& j.app_name@ == or_empty(p.app_name)
    &&& j.namespace@ == or_empty(p.namespace)
    &&& j.handle_name@ == or_empty(p.handle_name)
    &&& j.description@ == or_empty(p.description)
    &&& j.schedule_type == or_keep(p.schedule_type, ScheduleType::Unset)
    &&& j.cron_value@ == or_empty(p.cron_value)
    &&& j.delay_second == or_keep(p.delay_second, 0u32)
    &&& j.interval_second == or_keep(p.interval_second, 0u32)
    &&& j.run_mode == or_keep(p.run_mode, JobRunMode::Bean)
    &&& j.trigger_param@ == or_empty(p.trigger_param)
    &&& j.router_strategy == or_keep(p.router_strategy, RouterStrategy::RoundRobin)
    &&& j.past_due_strategy == or_keep(p.past_due_strategy, PastDueStrategy::Default)
    &&& j.blocking_strategy == or_keep(p.blocking_strategy, ExecutorBlockStrategy::SerialExecution)
    &&& j.timeout_second == or_keep(p.timeout_second, 0u32)
    &&& j.try_times == or_keep(p.try_times, 0u32)
    &&& j.version_id == 0
}

/// The string, or an empty one.
pub fn unwrap_or_empty(s: Option<String>) -> (r: String)
    ensures
        r@ == or_empty(s),
        s is Some ==> r == s->0,
{
    match s {
        Some(v) => v,
        None => String::new(),
    }
}

fn unwrap_or_u64(v: Option<u64>, d: u64) -> (r: u64)
    ensures
        r == or_keep(v, d),
{
    match v {
        Some(x) => x,
        None => d,
    }
}

fn unwrap_or_u32(v: Option<u32>, d: u32) -> (r: u32)
    ensures
        r == or_keep(v, d),
{
    match v {
        Some(x) => x,
        None => d,
    }
}

/// Updating a job takes every field the parameter gives and keeps every other:
/// a given `enable` of `false` disables the job, a given interval is the new
/// interval, and so on for each configuration field.
pub proof fn lemma_update_takes_given(j: JobInfo, p: JobParam)
    requires
        j.version_id < u64::MAX,
    ensures
        update_takes_given(j, p, j.updated(p)),
        p.enable matches Some(b) ==> j.updated(p).enable == b,
{
}

/// A job made from a parameter set takes every field the set gives; a new job
/// starts at version 0.
pub proof fn lemma_from_param_takes_given(p: JobParam, j: JobInfo)
    requires
        from_param_fields(p, j),
    ensures
        p.id is Some ==> j.id == p.id->0,
        p.enable is Some ==> j.enable == p.enable->0,
        p.schedule_type is Some ==> j.schedule_type == p.schedule_type->0,
        p.delay_second is Some ==> j.delay_second == p.delay_second->0,
        p.interval_second is Some ==> j.interval_second == p.interval_second->0,
        p.run_mode is Some ==> j.run_mode == p.run_mode->0,
        p.router_strategy is Some ==> j.router_strategy == p.router_strategy->0,
        p.past_due_strategy is Some ==> j.past_due_strategy == p.past_due_strategy->0,
        p.blocking_strategy is Some ==> j.blocking_strategy == p.blocking_strategy->0,
        p.timeout_second is Some ==> j.timeout_second == p.timeout_second->0,
        p.try_times is Some ==> j.try_times == p.try_times->0,
        p.app_name is Some ==> j.app_name@ == p.app_name->0@,
        p.namespace is Some ==> j.namespace@ == p.namespace->0@,
        p.handle_name is Some ==> j.handle_name@ == p.handle_name->0@,
        p.description is Some ==> j.description@ == p.description->0@,
        p.cron_value is Some ==> j.cron_value@ == p.cron_value->0@,
        p.trigger_param is Some ==> j.trigger_param@ == p.trigger_param->0@,
        j.version_id == 0,
{
}

/// A job meets the rules exactly when it has a non-zero id, a namespace and an
/// application name, a handler name where it runs in bean mode, and a cron
/// expression that parses where it is a cron job; a refusal names the first rule
/// broken, in that order.
pub proof fn lemma_job_rules_meaning(j: JobInfo)
    ensures
        job_check(j) is Ok <==> (j.id != 0 && j.namespace@.len() > 0 && j.app_name@.len() > 0 && (
        j.run_mode != JobRunMode::Bean || j.handle_name@.len() > 0) && (j.schedule_type
            != ScheduleType::Cron || cron_expression_parses(j.cron_value@))),
        j.id == 0 ==> job_check(j) == Err::<(), JobCheckError>(JobCheckError::IdEmpty),
        j.id != 0 && (j.namespace@.len() == 0 || j.app_name@.len() == 0) ==> job_check(j) == Err::<
            (),
            JobCheckError,
        >(JobCheckError::NamespaceOrAppNameEmpty),
        job_check(j) == Err::<(), JobCheckError>(JobCheckError::BeanHandleNameInvalid) ==> j.run_mode
            == JobRunMode::Bean && j.handle_name@.len() == 0,
{
}

/// The cron rule constrains cron jobs only: a job that is not a cron job, with
/// an id, a namespace, an application name and, in bean mode, a handler name,
/// meets the rules whatever its cron value; and a job refused for its cron value
/// is a cron job.
pub proof fn lemma_cron_rule_only_for_cron_jobs(j: JobInfo, p: JobParam)
    ensures
        j.schedule_type != ScheduleType::Cron && j.id != 0 && j.namespace@.len() > 0
            && j.app_name@.len() > 0 && (j.run_mode != JobRunMode::Bean || j.handle_name@.len() > 0)
            ==> job_check(j) is Ok,
        job_check(j) == Err::<(), JobCheckError>(JobCheckError::CronValueInvalid) ==> j.schedule_type
            == ScheduleType::Cron,
        p.schedule_type != Some(ScheduleType::Cron) && p.id is Some && p.id->0 != 0 && or_empty(
            p.namespace,
        ).len() > 0 && or_empty(p.app_name).len() > 0 && (p.run_mode is Some && p.run_mode->0
            != JobRunMode::Bean || or_empty(p.handle_name).len() > 0) ==> param_check(p) is Ok,
        param_check(p) == Err::<(), JobCheckError>(JobCheckError::CronValueInvalid) ==> p.schedule_type
            == Some(ScheduleType::Cron),
{
}

/// Updating a job changes nothing that the parameter leaves absent, except the
/// version, which goes up by one.
pub proof fn lemma_empty_update_only_bumps_version(j: JobInfo)
    requires
        j.version_id < u64::MAX,
    ensures
        j.updated(JobParam {
            id: None,
            enable: None,
            app_name: None,
            namespace: None,
            description: None,
            schedule_type: None,
            cron_value: None,
            delay_second: None,
            interval_second: None,
            run_mode: None,
            handle_name: None,
            trigger_param: None,
            router_strategy: None,
            past_due_strategy: None,
            blocking_strategy: None,
            timeout_second: None,
            try_times: None,
            update_time: None,
            retry_interval: None,
        }) == (JobInfo { version_id: (j.version_id + 1) as u64, ..j }),
{
}

/// A job as shown to users, with its options by wire name.
#[derive(Debug)]
pub struct JobInfoDto {
    pub id: u64,
    pub enable: bool,
    pub app_name: String,
    pub namespace: String,
    pub description: String,
    pub schedule_type: String,
    pub cron_value: String,
    pub delay_second: u32,
    pub interval_second: u32,
    pub run_mode: String,
    pub handle_name: String,
    pub trigger_param: String,
    pub router_strategy: String,
    pub past_due_strategy: String,
    pub blocking_strategy: String,
    pub timeout_second: u32,
    pub try_times: u32,
    pub version_id: u64,
    pub last_modified_millis: u64,
    pub register_time: u64,
}

impl JobInfoDto {
    /// The job as shown to users; its create time is shown as the register time.
    pub fn new_from(job_info: &JobInfo) -> (r: JobInfoDto)
        ensures
            dto_shows(r, *job_info),
    {
        JobInfoDto {
            id: job_info.id,
            enable: job_info.enable,
            app_name: job_info.app_name.clone(),
            namespace: job_info.namespace.clone(),
            description: job_info.description.clone(),
            schedule_type: job_info.schedule_type.to_str().to_owned(),
            cron_value: job_info.cron_value.clone(),
            delay_second: job_info.delay_second,
            interval_second: job_info.interval_second,
            run_mode: job_info.run_mode.to_str().to_owned(),
            handle_name: job_info.handle_name.clone(),
            trigger_param: job_info.trigger_param.clone(),
            router_strategy: job_info.router_strategy.to_str().to_owned(),
            past_due_strategy: job_info.past_due_strategy.to_str().to_owned(),
            blocking_strategy: job_info.blocking_strategy.to_str().to_owned(),
            timeout_second: job_info.timeout_second,
            try_times: job_info.try_times,
            version_id: job_info.version_id,
            last_modified_millis: job_info.last_modified_millis,
            register_time: job_info.create_time,
        }
    }
}

/// `d` shows `j`: the same fields, options by wire name, the create time as the register time.
pub open spec fn dto_shows(d: JobInfoDto, j: JobInfo) -> bool {
    &&& d.id == j.id
    &&& d.enable == j.enable
    &&& d.app_name == j.app_name
    &&& d.namespace == j.namespace
    &&& d.description == j.description
    &&& d.schedule_type@ == schedule_type_name(j.schedule_type)
    &&& d.cron_value == j.cron_value
    &&& d.delay_second == j.delay_second
    &&& d.interval_second == j.interval_second
    &&& d.run_mode@ == job_run_mode_name(j.run_mode)
    &&& d.handle_name == j.handle_name
    &&& d.trigger_param == j.trigger_param
    &&& d.router_strategy@ == router_strategy_name(j.router_strategy)
    &&& d.past_due_strategy@ == past_due_strategy_name(j.past_due_strategy)
    &&& d.blocking_strategy@ == executor_block_strategy_name(j.blocking_strategy)
    &&& d.timeout_second == j.timeout_second
    &&& d.try_times == j.try_times
    &&& d.version_id == j.version_id
    &&& d.last_modified_millis == j.last_modified_millis
    &&& d.register_time == j.create_time
}

/// An earlier version of a job's schedule.
#[derive(Debug)]
pub struct JobHistoryInfo {
    pub version_id: u64,
    pub schedule_type: ScheduleType,
    pub cron_value: String,
    pub delay_second: u32,
    pub interval_second: u32,
    pub trigger_mode: String,
    pub handle_name: String,
    pub trigger_param: String,
}

/// One run of a job, as the job keeps it in its task log.
#[derive(Debug)]
pub struct JobTaskInfo {
    pub task_id: u64,
    pub job_id: u64,
    pub trigger_time: u32,
    pub instance_addr: String,
    pub trigger_message: String,
    pub status: String,
    pub finish_time: u32,
    pub callback_message: String,
    pub execution_time: u32,
    pub trigger_from: String,
    pub try_times: u32,
    pub retry_interval: u32,
    pub retry_count: u32,
}

impl Clone for JobTaskInfo {
    fn clone(&self) -> (r: Self)
        ensures
            r == *self,
    {
        JobTaskInfo {
            task_id: self.task_id,
            job_id: self.job_id,
            trigger_time: self.trigger_time,
            instance_addr: self.instance_addr.clone(),
            trigger_message: self.trigger_message.clone(),
            status: self.status.clone(),
            finish_time: self.finish_time,
            callback_message: self.callback_message.clone(),
            execution_time: self.execution_time,
            trigger_from: self.trigger_from.clone(),
            try_times: self.try_times,
            retry_interval: self.retry_interval,
            retry_count: self.retry_count,
        }
    }
}

impl KeyedById for JobTaskInfo {
    open spec fn spec_id(&self) -> u64 {
        self.task_id
    }

    fn id(&self) -> (r: u64) {
        self.task_id
    }
}

/// A job with its schedule history and its most recent task logs, by task id.
pub struct JobWrap {
    pub job: JobInfo,
    pub histories: Vec<JobHistoryInfo>,
    pub task_log_map: IdList<JobTaskInfo>,
}

impl KeyedById for JobWrap {
    open spec fn spec_id(&self) -> u64 {
        self.job.id
    }

    fn id(&self) -> (r: u64) {
        self.job.id
    }
}

impl JobWrap {
    pub open spec fn wf(&self) -> bool {
        self.task_log_map.wf()
    }

    /// The number of task logs the job holds.
    pub open spec fn log_count(&self) -> nat {
        self.task_log_map.map().dom().len()
    }

    /// A job with no history and no task logs.
    pub fn new(job: JobInfo) -> (r: JobWrap)
        ensures
            r.wf(),
            r.job == job,
            r.histories@ == Seq::<JobHistoryInfo>::empty(),
            r.task_log_map.map() == Map::<u64, JobTaskInfo>::empty(),
    {
        let r = JobWrap { job, histories: Vec::new(), task_log_map: IdList::new() };
        assert(r.task_log_map.map() =~= Map::<u64, JobTaskInfo>::empty());
        r
    }

    /// Records a task log: one with a known task id replaces the old record;
    /// a new one is added, and where that makes more than `limit_count` records,
    /// the record with the smallest task id is dropped.
    pub fn update_task_log(&mut self, new_task_log: JobTaskInfo, limit_count: usize)
        requires
            old(self).wf(),
        ensures
            final(self).wf(),
            final(self).job == old(self).job,
            final(self).histories == old(self).histories,
            task_logs_after(
                old(self).task_log_map.map(),
                final(self).task_log_map.map(),
                new_task_log,
                limit_count,
            ),
    {
        proof {
            self.task_log_map.lemma_map_len();
        }
        match self.task_log_map.find(new_task_log.task_id) {
            Some(i) => {
                self.task_log_map.set(i, new_task_log);
            },
            None => {
                self.task_log_map.insert_new(new_task_log);
                if self.task_log_map.len() > limit_count {
                    proof {
                        self.task_log_map.lemma_first_is_min();
                    }
                    let removed = self.task_log_map.remove_at(0);
                }
            },
        }
    }
}

/// The task logs `after` recording `t` in `before`: a log with a known task id
/// replaces the old one; a new one is added, and where that makes more than
/// `limit` logs, the one with the smallest task id goes.
pub open spec fn task_logs_after(
    before: Map<u64, JobTaskInfo>,
    after: Map<u64, JobTaskInfo>,
    t: JobTaskInfo,
    limit: usize,
) -> bool {
    let grown = before.insert(t.task_id, t);
    if before.contains_key(t.task_id) {
        after == grown
    } else if before.dom().len() + 1 > limit {
        exists|k: u64| is_min_id(grown, k) && after == grown.remove(k)
    } else {
        after == grown
    }
}

/// The ids `held` are the newest of the ids `recorded` under `limit`: all of
/// them where there are at most `limit`, else the `limit` largest.
pub open spec fn keeps_newest(held: Set<u64>, recorded: Set<u64>, limit: nat) -> bool {
    &&& held.subset_of(recorded)
    &&& held.len() == if recorded.len() <= limit {
        recorded.len()
    } else {
        limit
    }
    &&& forall|a: u64, b: u64|
        #![trigger recorded.contains(a), held.contains(b)]
        recorded.contains(a) && !held.contains(a) && held.contains(b) ==> a < b
}

/// A job keeps the newest of the task logs recorded for it: where the logs held
/// were the newest (largest ids) of those recorded so far, recording one more
/// leaves the newest of those recorded with it.
pub proof fn lemma_task_logs_keep_newest(
    before: Map<u64, JobTaskInfo>,
    after: Map<u64, JobTaskInfo>,
    t: JobTaskInfo,
    limit: usize,
    recorded: Set<u64>,
)
    requires
        recorded.finite(),
        keeps_newest(before.dom(), recorded, limit as nat),
        task_logs_after(before, after, t, limit),
    ensures
        keeps_newest(after.dom(), recorded.insert(t.task_id), limit as nat),
{
    let k = t.task_id;
    let h = before.dom();
    let r2 = recorded.insert(k);
    let grown = before.insert(k, t);
    lemma_len_subset(h, recorded);
    if before.contains_key(k) {
        assert(r2 =~= recorded);
        assert(after.dom() =~= h);
    } else if recorded.contains(k) {
        // recorded earlier and let go: it is older than all held, so it leaves again
        assert(r2 =~= recorded);
        assert(h.len() < recorded.len()) by {
            assert(h.subset_of(recorded.remove(k)));
            lemma_len_subset(h, recorded.remove(k));
        }
        assert(h.len() + 1 > limit);
        let m = choose|m: u64| is_min_id(grown, m) && after == grown.remove(m);
        if m != k {
            assert(h.contains(m));
            assert(grown.contains_key(k));
            assert(k < m);
        }
        assert(after.dom() =~= h);
    } else if h.len() + 1 > limit {
        let m = choose|m: u64| is_min_id(grown, m) && after == grown.remove(m);
        assert(grown.dom() =~= h.insert(k));
        assert(after.dom() =~= h.insert(k).remove(m));
        assert(r2.len() == recorded.len() + 1);
        assert(h.len() == limit);
        assert forall|a: u64, b: u64|
            r2.contains(a) && !after.dom().contains(a) && after.dom().contains(b) implies a < b by {
            assert(grown.contains_key(b));
            if a == m {
                assert(m <= b);
                assert(a != b);
            } else if a == k {
                assert(grown.contains_key(k));
            } else {
                assert(recorded.contains(a) && !h.contains(a));
                if b == k {
                    assert(h.contains(m));
                    assert(a < m);
                    assert(m <= k);
                } else {
                    assert(h.contains(b));
                }
            }
        }
    } else {
        assert(after.dom() =~= h.insert(k));
        // fewer than `limit` were held, so every recorded id was held
        assert(h =~= recorded) by {
            if !(recorded.len() <= limit) {
                assert(h.len() == limit);
            }
            lemma_subset_same_len(h, recorded);
        }
        assert(r2 =~= h.insert(k));
    }
}

/// A subset as large as a finite set is the set.
proof fn lemma_subset_same_len(a: Set<u64>, b: Set<u64>)
    requires
        b.finite(),
        a.subset_of(b),
        a.len() == b.len(),
    ensures
        a == b,
{
    if !(a =~= b) {
        let x = choose|x: u64| b.contains(x) && !a.contains(x);
        assert(a.subset_of(b.remove(x)));
        lemma_len_subset(a, b.remove(x));
        assert(false);
    }
}

/// Recording a task log never takes a job over its limit: where at most `limit`
/// logs were kept before, at most `limit` are kept after.
pub proof fn lemma_task_logs_bounded(
    before: Map<u64, JobTaskInfo>,
    after: Map<u64, JobTaskInfo>,
    t: JobTaskInfo,
    limit: usize,
)
    requires
        before.dom().finite(),
        before.dom().len() <= limit,
        task_logs_after(before, after, t, limit),
    ensures
        after.dom().finite(),
        after.dom().len() <= limit,
{
    let grown = before.insert(t.task_id, t);
    if before.contains_key(t.task_id) {
        assert(grown.dom() =~= before.dom());
    } else if before.dom().len() + 1 > limit {
        let k = choose|k: u64| is_min_id(grown, k) && after == grown.remove(k);
        assert(grown.dom().len() == before.dom().len() + 1);
        assert(after.dom() =~= grown.dom().remove(k));
    } else {
        assert(grown.dom().len() == before.dom().len() + 1);
    }
}

/// A page query over a job's task logs.
#[derive(Debug, Default)]
pub struct JobTaskLogQueryParam {
    pub job_id: u64,
    pub offset: usize,
    pub limit: usize,
}


/// The record a job is kept as: its fields, options by wire name.
pub open spec fn job_record(j: JobInfo) -> JobDoView {
    JobDoView {
        id: j.id,
        enable: j.enable,
        app_name: j.app_name@,
        namespace: j.namespace@,
        description: j.description@,
        schedule_type: schedule_type_name(j.schedule_type),
        cron_value: j.cron_value@,
        delay_second: j.delay_second,
        interval_second: j.interval_second,
        run_mode: job_run_mode_name(j.run_mode),
        handle_name: j.handle_name@,
        trigger_param: j.trigger_param@,
        router_strategy: router_strategy_name(j.router_strategy),
        past_due_strategy: past_due_strategy_name(j.past_due_strategy),
        blocking_strategy: executor_block_strategy_name(j.blocking_strategy),
        timeout_second: j.timeout_second,
        try_times: j.try_times,
        version_id: j.version_id,
        last_modified_millis: j.last_modified_millis,
        create_time: j.create_time,
    }
}

/// `j` is the job a record restores: texts and numbers as kept, options read
/// from their wire names; an unknown run mode reads as bean mode and an
/// unknown router strategy as round robin.
pub open spec fn restores_job(j: JobInfo, v: JobDoView) -> bool {
    &&& j.id == v.id
    &&& j.enable == v.enable
    &&& j.app_name@ == v.app_name
    &&& j.namespace@ == v.namespace
    &&& j.description@ == v.description
    &&& j.schedule_type == schedule_type_of(v.schedule_type)
    &&& j.cron_value@ == v.cron_value
    &&& j.delay_second == v.delay_second
    &&& j.interval_second == v.interval_second
    &&& j.run_mode == or_keep(job_run_mode_of(v.run_mode), JobRunMode::Bean)
    &&& j.handle_name@ == v.handle_name
    &&& j.trigger_param@ == v.trigger_param
    &&& j.router_strategy == or_keep(router_strategy_of(v.router_strategy), RouterStrategy::RoundRobin)
    &&& j.past_due_strategy == past_due_strategy_of(v.past_due_strategy)
    &&& j.blocking_strategy == executor_block_strategy_of(v.blocking_strategy)
    &&& j.timeout_second == v.timeout_second
    &&& j.try_times == v.try_times
    &&& j.version_id == v.version_id
    &&& j.last_modified_millis == v.last_modified_millis
    &&& j.create_time == v.create_time
}

/// `a` and `b` agree on every field, texts by their characters.
pub open spec fn jobs_alike(a: JobInfo, b: JobInfo) -> bool {
    &&& a.id == b.id
    &&& a.enable == b.enable
    &&& a.app_name@ == b.app_name@
    &&& a.namespace@ == b.namespace@
    &&& a.description@ == b.description@
    &&& a.schedule_type == b.schedule_type
    &&& a.cron_value@ == b.cron_value@
    &&& a.delay_second == b.delay_second
    &&& a.interval_second == b.interval_second
    &&& a.run_mode == b.run_mode
    &&& a.handle_name@ == b.handle_name@
    &&& a.trigger_param@ == b.trigger_param@
    &&& a.router_strategy == b.router_strategy
    &&& a.past_due_strategy == b.past_due_strategy
    &&& a.blocking_strategy == b.blocking_strategy
    &&& a.timeout_second == b.timeout_second
    &&& a.try_times == b.try_times
    &&& a.version_id == b.version_id
    &&& a.last_modified_millis == b.last_modified_millis
    &&& a.create_time == b.create_time
}

/// `a` and `b` agree on every field, texts by their characters.
pub open spec fn tasks_alike(a: JobTaskInfo, b: JobTaskInfo) -> bool {
    &&& a.task_id == b.task_id
    &&& a.job_id == b.job_id
    &&& a.trigger_time == b.trigger_time
    &&& a.instance_addr@ == b.instance_addr@
    &&& a.trigger_message@ == b.trigger_message@
    &&& a.status@ == b.status@
    &&& a.finish_time == b.finish_time
    &&& a.callback_message@ == b.callback_message@
    &&& a.execution_time == b.execution_time
    &&& a.trigger_from@ == b.trigger_from@
    &&& a.try_times == b.try_times
    &&& a.retry_interval == b.retry_interval
    &&& a.retry_count == b.retry_count
}

/// Two jobs with the same configuration, texts compared by their characters.
pub open spec fn same_job(a: JobInfo, b: JobInfo) -> bool {
    job_record(a) == job_record(b)
}

impl JobInfo {
    /// The record the job is kept as in snapshots.
    pub fn to_do(&self) -> (r: JobDo)
        ensures
            r@ == job_record(*self),
    {
        JobDo {
            id: self.id,
            enable: self.enable,
            app_name: self.app_name.clone(),
            namespace: self.namespace.clone(),
            description: self.description.clone(),
            schedule_type: self.schedule_type.to_str().to_owned(),
            cron_value: self.cron_value.clone(),
            delay_second: self.delay_second,
            interval_second: self.interval_second,
            run_mode: self.run_mode.to_str().to_owned(),
            handle_name: self.handle_name.clone(),
            trigger_param: self.trigger_param.clone(),
            router_strategy: self.router_strategy.to_str().to_owned(),
            past_due_strategy: self.past_due_strategy.to_str().to_owned(),
            blocking_strategy: self.blocking_strategy.to_str().to_owned(),
            timeout_second: self.timeout_second,
            try_times: self.try_times,
            version_id: self.version_id,
            last_modified_millis: self.last_modified_millis,
            create_time: self.create_time,
        }
    }

    /// The job a snapshot record holds.
    pub fn from_do(job_do: JobDo) -> (r: JobInfo)
        ensures
            restores_job(r, job_do@),
    {
        let schedule_type = ScheduleType::from_str(job_do.schedule_type.as_str());
        let run_mode = match JobRunMode::from_str(job_do.run_mode.as_str()) {
            Some(m) => m,
            None => JobRunMode::Bean,
        };
        let router_strategy = match RouterStrategy::from_str(job_do.router_strategy.as_str()) {
            Some(s) => s,
            None => RouterStrategy::RoundRobin,
        };
        let past_due_strategy = PastDueStrategy::from_str(job_do.past_due_strategy.as_str());
        let blocking_strategy = ExecutorBlockStrategy::from_str(job_do.blocking_strategy.as_str());
        JobInfo {
            id: job_do.id,
            enable: job_do.enable,
            app_name: job_do.app_name,
            namespace: job_do.namespace,
            description: job_do.description,
            schedule_type,
            cron_value: job_do.cron_value,
            delay_second: job_do.delay_second,
            interval_second: job_do.interval_second,
            run_mode,
            handle_name: job_do.handle_name,
            trigger_param: job_do.trigger_param,
            router_strategy,
            past_due_strategy,
            blocking_strategy,
            timeout_second: job_do.timeout_second,
            try_times: job_do.try_times,
            version_id: job_do.version_id,
            last_modified_millis: job_do.last_modified_millis,
            create_time: job_do.create_time,
        }
    }
}

/// A job restored from the record it is kept as has the same configuration.
pub proof fn lemma_job_record_round_trip(j: JobInfo, r: JobInfo)
    requires
        restores_job(r, job_record(j)),
    ensures
        same_job(r, j),
        jobs_alike(r, j),
{
    lemma_schedule_type_round_trip(j.schedule_type);
    lemma_job_run_mode_round_trip(j.run_mode);
    lemma_router_strategy_round_trip(j.router_strategy);
    lemma_past_due_strategy_round_trip(j.past_due_strategy);
    lemma_executor_block_strategy_round_trip(j.blocking_strategy);
}


/// A job written to a snapshot and read back has the same configuration: the
/// record's bytes read as the record, and the job it restores is the job.
pub proof fn lemma_job_snapshot_round_trip(j: JobInfo, r: JobInfo)
    requires
        utf8_bytes(j.app_name@).len() < two64(),
        utf8_bytes(j.namespace@).len() < two64(),
        utf8_bytes(j.description@).len() < two64(),
        utf8_bytes(j.cron_value@).len() < two64(),
        utf8_bytes(j.handle_name@).len() < two64(),
        utf8_bytes(j.trigger_param@).len() < two64(),
        restores_job(r, job_record(j)),
    ensures
        job_do_of(fields_bytes(job_do_fields(job_record(j)))) == Some(job_record(j)),
        same_job(r, j),
        jobs_alike(r, j),
{
    lemma_job_record_round_trip(j, r);
    lemma_schedule_type_round_trip(j.schedule_type);
    lemma_job_run_mode_round_trip(j.run_mode);
    lemma_router_strategy_round_trip(j.router_strategy);
    lemma_past_due_strategy_round_trip(j.past_due_strategy);
    lemma_executor_block_strategy_round_trip(j.blocking_strategy);
    let v = job_record(j);
    lemma_utf8_bytes_len(v.schedule_type);
    lemma_utf8_bytes_len(v.run_mode);
    lemma_utf8_bytes_len(v.router_strategy);
    lemma_utf8_bytes_len(v.past_due_strategy);
    lemma_utf8_bytes_len(v.blocking_strategy);
    lemma_job_do_round_trip(v);
}


/// The record a task run is kept as; it carries no attempts.
pub open spec fn task_record(t: JobTaskInfo) -> JobTaskDoView {
    JobTaskDoView {
        task_id: t.task_id,
        job_id: t.job_id,
        trigger_time: t.trigger_time,
        instance_addr: t.instance_addr@,
        trigger_message: t.trigger_message@,
        status: t.status@,
        finish_time: t.finish_time,
        callback_message: t.callback_message@,
        execution_time: t.execution_time,
        trigger_from: t.trigger_from@,
        try_times: t.try_times,
        retry_interval: t.retry_interval,
        retry_count: t.retry_count,
        try_logs: Seq::empty(),
    }
}

/// `t` is the task run a record restores: every field but the attempts.
pub open spec fn restores_task(t: JobTaskInfo, v: JobTaskDoView) -> bool {
    &&& t.task_id == v.task_id
    &&& t.job_id == v.job_id
    &&& t.trigger_time == v.trigger_time
    &&& t.instance_addr@ == v.instance_addr
    &&& t.trigger_message@ == v.trigger_message
    &&& t.status@ == v.status
    &&& t.finish_time == v.finish_time
    &&& t.callback_message@ == v.callback_message
    &&& t.execution_time == v.execution_time
    &&& t.trigger_from@ == v.trigger_from
    &&& t.try_times == v.try_times
    &&& t.retry_interval == v.retry_interval
    &&& t.retry_count == v.retry_count
}

impl JobTaskInfo {
    /// The record the task run is kept as in snapshots.
    pub fn to_do(&self) -> (r: JobTaskDo)
        ensures
            r@ == task_record(*self),
    {
        let try_logs: Vec<TaskTryLogDo> = Vec::new();
        let r = JobTaskDo {
            task_id: self.task_id,
            job_id: self.job_id,
            trigger_time: self.trigger_time,
            instance_addr: self.instance_addr.clone(),
            trigger_message: self.trigger_message.clone(),
            status: self.status.clone(),
            finish_time: self.finish_time,
            callback_message: self.callback_message.clone(),
            execution_time: self.execution_time,
            trigger_from: self.trigger_from.clone(),
            try_times: self.try_times,
            try_logs,
            retry_interval: self.retry_interval,
            retry_count: self.retry_count,
        };
        proof {
            assert(r@.try_logs =~= Seq::<crate::data_object::TaskTryLogDoView>::empty());
        }
        r
    }

    /// The task run a snapshot record holds.
    pub fn from_do(record: JobTaskDo) -> (r: JobTaskInfo)
        ensures
            restores_task(r, record@),
    {
        JobTaskInfo {
            task_id: record.task_id,
            job_id: record.job_id,
            trigger_time: record.trigger_time,
            instance_addr: record.instance_addr,
            trigger_message: record.trigger_message,
            status: record.status,
            finish_time: record.finish_time,
            callback_message: record.callback_message,
            execution_time: record.execution_time,
            trigger_from: record.trigger_from,
            try_times: record.try_times,
            retry_interval: record.retry_interval,
            retry_count: record.retry_count,
        }
    }
}

} // verus!
