//! The jobs known to the service and the rules for changing them.
use crate::id_list::{IdList, KeyedById};
use crate::job_index::{equal_filter, like_filter, JobQueryParam};
use crate::id_list::lemma_index_of;
use crate::job_model::{
    dto_shows, from_param_fields, keeps_newest, lemma_task_logs_bounded, lemma_task_logs_keep_newest, task_logs_after, job_check, param_check, or_keep, JobCheckError, JobInfo, JobInfoDto, JobParam, JobTaskInfo,
    JobTaskLogQueryParam, JobWrap,
};
use crate::runs::{lemma_page_push, page};
use crate::data_object::{job_do_fields, job_do_of, job_task_do_fields, job_task_do_of, JobDo, JobTaskDo, JobDoView, JobTaskDoView};
use crate::job_model::{job_record, jobs_alike, tasks_alike, update_takes_given, lemma_job_snapshot_round_trip, restores_job, restores_task, same_job, task_record};
use crate::data_object::lemma_job_task_do_round_trip;
use crate::wire::{lemma_frame_round_trip, two64, utf8_bytes};
use crate::snapshot::{
    id_bytes, id_to_bin, job_table, job_table_name, job_task_table, job_task_table_name,
    record_message, SnapshotError, SnapshotRecord,
};
use crate::text::str_eq;
use crate::wire::{fields_bytes, framed};
use vstd::prelude::*;

verus! {

/// Why a request on jobs is refused.
#[derive(PartialEq, Eq, Structural, Clone, Copy, Debug)]
pub enum JobManagerError {
    CreateIdInvalid,
    AlreadyExists,
    UpdateIdInvalid,
    NotFound,
    Invalid(JobCheckError),
}

/// Local requests on jobs.
#[derive(Debug)]
pub enum JobManagerReq {
    UpdateTask(JobTaskInfo),
    GetJob(u64),
    QueryJob(JobQueryParam),
    QueryJobTaskLog(JobTaskLogQueryParam),
}

/// Answers to local requests on jobs.
#[derive(Debug)]
pub enum JobManagerResult {
    JobInfo(Option<JobInfo>),
    JobPageInfo(usize, Vec<JobInfoDto>),
    JobTaskLogPageInfo(usize, Vec<JobTaskInfo>),
    Empty,
}

/// Replicated changes to jobs.
#[derive(Debug)]
pub enum JobManagerRaftReq {
    AddJob(JobParam),
    UpdateJob(JobParam),
    UpdateTask(JobTaskInfo),
    UpdateTaskList(Vec<JobTaskInfo>),
    Remove(u64),
}

/// Answers to replicated changes.
#[derive(Debug)]
pub enum JobManagerRaftResult {
    JobInfo(JobInfo),
    Empty,
}

/// What the scheduler is to be told.
#[derive(Debug)]
pub enum ScheduleNotice {
    UpdateJob(JobInfo),
    RemoveJob(u64),
    UpdateTask(JobTaskInfo),
}

/// The job passes the query's filters on namespace, application, description and handler.
pub open spec fn job_matches(param: JobQueryParam, j: JobInfo) -> bool {
    &&& equal_filter(param.namespace, j.namespace@)
    &&& equal_filter(param.app_name, j.app_name@)
    &&& like_filter(param.like_description, j.description@)
    &&& like_filter(param.like_handle_name, j.handle_name@)
}

/// The jobs known to the service, each with its task logs, ordered by id.
pub struct JobManager {
    pub job_map: IdList<JobWrap>,
    pub job_task_log_limit: usize,
}

impl JobManager {
    /// The list is well formed, each job is, and no job holds more task logs
    /// than the limit.
    pub open spec fn wf(&self) -> bool {
        &&& self.job_map.wf()
        &&& forall|id: u64| #[trigger] self.jobs().contains_key(id) ==> self.jobs()[id].wf()
        &&& forall|id: u64| #[trigger] self.jobs().contains_key(id) ==> self.jobs()[id].log_count()
            <= self.job_task_log_limit
    }

    /// The jobs by id.
    pub open spec fn jobs(&self) -> Map<u64, JobWrap> {
        self.job_map.map()
    }

    /// No jobs; each keeps up to 100 task logs.
    pub fn new() -> (r: JobManager)
        ensures
            r.wf(),
            r.jobs() == Map::<u64, JobWrap>::empty(),
            r.job_task_log_limit == 100,
    {
        let r = JobManager { job_map: IdList::new(), job_task_log_limit: 100 };
        assert(r.jobs() =~= Map::<u64, JobWrap>::empty());
        r
    }

    /// The job with this id.
    pub fn get_job(&self, id: u64) -> (r: Option<JobInfo>)
        requires
            self.wf(),
        ensures
            r is Some <==> self.jobs().contains_key(id),
            r is Some ==> r->0 == self.jobs()[id].job,
    {
        match self.job_map.find(id) {
            Some(i) => {
                proof {
                    lemma_index_of(self.job_map.seq(), i as int);
                }
                Some(self.job_map.get(i).job.clone())
            },
            None => None,
        }
    }

    /// Creates a job at time `now` (milliseconds). Refused: a missing or zero
    /// id, an id already in use, a configuration that breaks the job rules.
    /// The job returned is the one stored, to be handed to the scheduler.
    pub fn create_job(&mut self, job_param: JobParam, now: u64) -> (r: Result<JobInfo, JobManagerError>)
        requires
            old(self).wf(),
        ensures
            final(self).wf(),
            final(self).job_task_log_limit == old(self).job_task_log_limit,
            r is Ok <==> create_refusal(old(self).jobs(), job_param) is None,
            r is Err ==> create_refusal(old(self).jobs(), job_param) == Some(r->Err_0),
            r is Err ==> final(self).jobs() == old(self).jobs(),
            r is Ok ==> ({
                let j = r->Ok_0;
                &&& from_param_fields(job_param, j)
                &&& j.id == job_param.id->0
                &&& j.last_modified_millis == now
                &&& j.create_time == now
                &&& final(self).jobs().contains_key(j.id)
                &&& is_new_wrap(final(self).jobs()[j.id], j)
                &&& final(self).jobs().remove(j.id) == old(self).jobs()
            }),
    {
        let id = match job_param.id {
            Some(v) => v,
            None => 0,
        };
        if id == 0 {
            return Err(JobManagerError::CreateIdInvalid);
        }
        if self.job_map.find(id).is_some() {
            return Err(JobManagerError::AlreadyExists);
        }
        let mut job_info = JobInfo::from_param(job_param);
        match job_info.check_valid() {
            Err(e) => {
                return Err(JobManagerError::Invalid(e));
            },
            Ok(()) => {},
        }
        job_info.last_modified_millis = now;
        job_info.create_time = now;
        let ghost old_jobs = self.jobs();
        let wrap = JobWrap::new(job_info.clone());
        self.job_map.insert_new(wrap);
        proof {
            assert(self.jobs().remove(id) =~= old_jobs);
            assert forall|k: u64| #[trigger] self.jobs().contains_key(k) implies self.jobs()[k].wf() by {
                if k != id {
                    assert(old_jobs.contains_key(k));
                }
            }
        }
        Ok(job_info)
    }

    /// Applies `job_param` to the job with its id and returns the job as it now
    /// stands, to be handed to the scheduler. Refused: a missing or zero id, an
    /// unknown job, and a job whose stored configuration breaks the job rules
    /// (the stored job is the one checked, before the change).
    pub fn update_job(&mut self, job_param: JobParam) -> (r: Result<JobInfo, JobManagerError>)
        requires
            old(self).wf(),
            job_param.id is Some && old(self).jobs().contains_key(job_param.id->0) ==> old(
                self,
            ).jobs()[job_param.id->0].job.version_id < u64::MAX,
        ensures
            final(self).wf(),
            final(self).job_task_log_limit == old(self).job_task_log_limit,
            r is Ok <==> update_refusal(old(self).jobs(), job_param) is None,
            r is Err ==> update_refusal(old(self).jobs(), job_param) == Some(r->Err_0),
            r is Err ==> final(self).jobs() == old(self).jobs(),
            r is Ok ==> ({
                let id = job_param.id->0;
                let w = old(self).jobs()[id];
                &&& r->Ok_0 == w.job.updated(job_param)
                &&& update_takes_given(w.job, job_param, r->Ok_0)
                &&& final(self).jobs() == old(self).jobs().insert(
                    id,
                    JobWrap { job: r->Ok_0, ..w },
                )
            }),
    {
        let id = match job_param.id {
            Some(v) => v,
            None => 0,
        };
        if id == 0 {
            return Err(JobManagerError::UpdateIdInvalid);
        }
        match self.job_map.find(id) {
            None => Err(JobManagerError::NotFound),
            Some(i) => {
                proof {
                    lemma_index_of(self.job_map.seq(), i as int);
                }
                match self.job_map.get(i).job.check_valid() {
                    Err(e) => {
                        return Err(JobManagerError::Invalid(e));
                    },
                    Ok(()) => {},
                }
                let ghost old_jobs = self.jobs();
                let mut w = self.job_map.remove_at(i);
                w.job.update_param(job_param);
                let job = w.job.clone();
                self.job_map.insert_new(w);
                proof {
                    assert(old_jobs.remove(id).insert(id, w) == old_jobs.insert(id, w));
                    assert forall|k: u64| #[trigger] self.jobs().contains_key(k) implies self.jobs()[k].wf() by {
                        if k != id {
                            assert(old_jobs.contains_key(k));
                        }
                    }
                }
                Ok(job)
            },
        }
    }

    /// Removes the job with this id, if there is one; the scheduler is told in any case.
    pub fn remove_job(&mut self, id: u64)
        requires
            old(self).wf(),
        ensures
            final(self).wf(),
            final(self).job_task_log_limit == old(self).job_task_log_limit,
            final(self).jobs() == old(self).jobs().remove(id),
    {
        let ghost old_jobs = self.jobs();
        match self.job_map.find(id) {
            Some(i) => {
                proof {
                    lemma_index_of(self.job_map.seq(), i as int);
                }
                self.job_map.remove_at(i);
            },
            None => {
                assert(old_jobs.remove(id) =~= old_jobs);
            },
        }
        proof {
            assert forall|k: u64| #[trigger] self.jobs().contains_key(k) implies self.jobs()[k].wf() by {
                assert(old_jobs.contains_key(k));
            }
        }
    }

    /// Stores a job as it was replicated: a known job takes the new configuration
    /// and keeps its task logs; an unknown one is added. Returns whether the job
    /// was added, in which case the scheduler is to be told of it.
    pub fn do_update_job(&mut self, job: JobInfo) -> (r: bool)
        requires
            old(self).wf(),
        ensures
            final(self).wf(),
            final(self).job_task_log_limit == old(self).job_task_log_limit,
            r == !old(self).jobs().contains_key(job.id),
            r ==> final(self).jobs().contains_key(job.id) && is_new_wrap(final(self).jobs()[job.id], job)
                && final(self).jobs().remove(job.id) == old(self).jobs(),
            !r ==> final(self).jobs() == old(self).jobs().insert(
                job.id,
                JobWrap { job: job, ..old(self).jobs()[job.id] },
            ),
    {
        let id = job.id;
        let ghost old_jobs = self.jobs();
        match self.job_map.find(id) {
            Some(i) => {
                proof {
                    lemma_index_of(self.job_map.seq(), i as int);
                }
                let mut w = self.job_map.remove_at(i);
                w.job = job;
                self.job_map.insert_new(w);
                proof {
                    assert(old_jobs.remove(id).insert(id, w) == old_jobs.insert(id, w));
                    assert forall|k: u64| #[trigger] self.jobs().contains_key(k) implies self.jobs()[k].wf() by {
                        if k != id {
                            assert(old_jobs.contains_key(k));
                        }
                    }
                }
                false
            },
            None => {
                let wrap = JobWrap::new(job);
                self.job_map.insert_new(wrap);
                proof {
                    assert(self.jobs().remove(id) =~= old_jobs);
                    assert forall|k: u64| #[trigger] self.jobs().contains_key(k) implies self.jobs()[k].wf() by {
                        if k != id {
                            assert(old_jobs.contains_key(k));
                        }
                    }
                }
                true
            },
        }
    }

    /// Records a task log with the job it belongs to, if that job is known. The
    /// scheduler is told of the task in any case.
    pub fn update_job_task(&mut self, task_log: JobTaskInfo)
        requires
            old(self).wf(),
        ensures
            final(self).wf(),
            final(self).job_task_log_limit == old(self).job_task_log_limit,
            task_loaded(old(self).jobs(), final(self).jobs(), task_log, old(self).job_task_log_limit),
    {
        let id = task_log.job_id;
        let ghost old_jobs = self.jobs();
        match self.job_map.find(id) {
            Some(i) => {
                proof {
                    lemma_index_of(self.job_map.seq(), i as int);
                }
                let mut w = self.job_map.remove_at(i);
                let ghost before_logs = w.task_log_map.map();
                let ghost t = task_log;
                proof {
                    w.task_log_map.lemma_map_len();
                }
                w.update_task_log(task_log, self.job_task_log_limit);
                proof {
                    lemma_task_logs_bounded(before_logs, w.task_log_map.map(), t, self.job_task_log_limit);
                }
                self.job_map.insert_new(w);
                proof {
                    assert(self.jobs().remove(id) =~= old_jobs.remove(id));
                    assert forall|k: u64| #[trigger] self.jobs().contains_key(k) implies self.jobs()[k].wf() by {
                        if k != id {
                            assert(old_jobs.contains_key(k));
                        }
                    }
                }
            },
            None => {},
        }
    }

    /// The jobs that pass the query's filters, counted, and the page of them
    /// from `offset` (at most `limit`), in id order, as shown to users.
    pub fn query_jobs(&self, query_param: &JobQueryParam) -> (r: (usize, Vec<JobInfoDto>))
        requires
            self.wf(),
            query_param.offset + query_param.limit <= usize::MAX,
        ensures
            jobs_page_answer(*self, *query_param, r.0, r.1@),
    {
        let ghost s = self.job_map.seq();
        let ghost f = query_filter(*query_param);
        let items = self.job_map.as_vec();
        let mut rlist: Vec<JobInfoDto> = Vec::new();
        let end_index = query_param.offset + query_param.limit;
        let mut index: usize = 0;
        let mut i: usize = 0;
        while i < items.len()
            invariant
                s == self.job_map.seq(),
                items@ == s,
                f == query_filter(*query_param),
                end_index == query_param.offset + query_param.limit,
                i <= items.len(),
                index <= i,
                index == s.take(i as int).filter(f).len(),
                rlist.len() == page(s.take(i as int).filter(f), query_param.offset as int, end_index as int).len(),
                forall|k: int|
                    0 <= k < rlist.len() ==> dto_shows(
                        #[trigger] rlist@[k],
                        page(s.take(i as int).filter(f), query_param.offset as int, end_index as int)[k].job,
                    ),
            decreases items.len() - i,
        {
            let w = &items[i];
            let ghost before = s.take(i as int).filter(f);
            let ghost pg = page(before, query_param.offset as int, end_index as int);
            proof {
                assert(s.take(i + 1) == s.take(i as int).push(s[i as int]));
                s.take(i as int).lemma_filter_push(s[i as int], f);
                lemma_page_push(before, s[i as int], query_param.offset as int, end_index as int);
            }
            let job_info = &w.job;
            if query_param.match_namespace(&job_info.namespace) && query_param.match_app_name(
                &job_info.app_name,
            ) && query_param.match_description(&job_info.description)
                && query_param.match_handle_name(&job_info.handle_name) {
                if index >= query_param.offset && index < end_index {
                    rlist.push(JobInfoDto::new_from(job_info));
                    proof {
                        let npg = pg.push(s[i as int]);
                        assert forall|k: int| 0 <= k < rlist.len() implies dto_shows(
                            #[trigger] rlist@[k],
                            npg[k].job,
                        ) by {
                            if k < rlist.len() - 1 {
                                assert(npg[k] == pg[k]);
                            }
                        }
                    }
                }
                index = index + 1;
            }
            i = i + 1;
        }
        proof {
            assert(s.take(s.len() as int) == s);
        }
        (index, rlist)
    }

    /// The task logs of a job, newest task id first: their number, and the page
    /// from `offset` (at most `limit`). An unknown job has none.
    pub fn query_job_task_logs(&self, query_param: &JobTaskLogQueryParam) -> (r: (usize, Vec<JobTaskInfo>))
        requires
            self.wf(),
            query_param.offset + query_param.limit <= usize::MAX,
        ensures
            r.0 == logs_newest_first(self.jobs(), query_param.job_id).len(),
            r.1@ == page(
                logs_newest_first(self.jobs(), query_param.job_id),
                query_param.offset as int,
                query_param.offset + query_param.limit,
            ),
    {
        let mut rlist: Vec<JobTaskInfo> = Vec::new();
        let end_index = query_param.offset + query_param.limit;
        let mut index: usize = 0;
        match self.job_map.find(query_param.job_id) {
            None => {
                assert(page(Seq::<JobTaskInfo>::empty(), query_param.offset as int, end_index as int) =~= Seq::<JobTaskInfo>::empty());
            },
            Some(ji) => {
                proof {
                    lemma_index_of(self.job_map.seq(), ji as int);
                }
                let w = self.job_map.get(ji);
                let logs = w.task_log_map.as_vec();
                let ghost rev = logs@.reverse();
                let n = logs.len();
                while index < n
                    invariant
                        n == logs.len(),
                        rev == logs@.reverse(),
                        index <= n,
                        end_index == query_param.offset + query_param.limit,
                        rlist@ == page(rev.take(index as int), query_param.offset as int, end_index as int),
                    decreases n - index,
                {
                    proof {
                        assert(rev.take(index + 1) == rev.take(index as int).push(rev[index as int]));
                        lemma_page_push(rev.take(index as int), rev[index as int], query_param.offset as int, end_index as int);
                    }
                    if index >= query_param.offset && index < end_index {
                        let t = logs[n - 1 - index].clone();
                        rlist.push(t);
                    }
                    index = index + 1;
                }
                proof {
                    assert(rev.take(n as int) == rev);
                }
            },
        }
        (index, rlist)
    }

    /// A local request. Queries whose page end does not fit in a `usize` are
    /// not accepted.
    pub fn handle(&mut self, msg: JobManagerReq) -> (r: (JobManagerResult, Option<ScheduleNotice>))
        requires
            old(self).wf(),
            match msg {
                JobManagerReq::QueryJob(p) => p.offset + p.limit <= usize::MAX,
                JobManagerReq::QueryJobTaskLog(p) => p.offset + p.limit <= usize::MAX,
                _ => true,
            },
        ensures
            final(self).wf(),
            final(self).job_task_log_limit == old(self).job_task_log_limit,
            !(msg is UpdateTask) ==> final(self).jobs() == old(self).jobs() && r.1 is None,
            match msg {
                JobManagerReq::UpdateTask(t) => r.0 is Empty && r.1 == Some(ScheduleNotice::UpdateTask(t))
                    && task_loaded(old(self).jobs(), final(self).jobs(), t, old(self).job_task_log_limit),
                JobManagerReq::GetJob(id) => r.0 is JobInfo && (r.0->JobInfo_0 is Some <==> old(
                    self,
                ).jobs().contains_key(id)) && (r.0->JobInfo_0 is Some ==> r.0->JobInfo_0->0 == old(
                    self,
                ).jobs()[id].job),
                JobManagerReq::QueryJob(p) => r.0 matches JobManagerResult::JobPageInfo(total, list)
                    && jobs_page_answer(*old(self), p, total, list@),
                JobManagerReq::QueryJobTaskLog(p) => r.0 is JobTaskLogPageInfo
                    && r.0->JobTaskLogPageInfo_0 == logs_newest_first(old(self).jobs(), p.job_id).len()
                    && r.0->JobTaskLogPageInfo_1@ == page(
                    logs_newest_first(old(self).jobs(), p.job_id),
                    p.offset as int,
                    p.offset + p.limit,
                ),
            },
    {
        match msg {
            JobManagerReq::GetJob(id) => (JobManagerResult::JobInfo(self.get_job(id)), None),
            JobManagerReq::UpdateTask(task_info) => {
                let notice = ScheduleNotice::UpdateTask(task_info.clone());
                self.update_job_task(task_info);
                (JobManagerResult::Empty, Some(notice))
            },
            JobManagerReq::QueryJob(query_param) => {
                let (size, list) = self.query_jobs(&query_param);
                (JobManagerResult::JobPageInfo(size, list), None)
            },
            JobManagerReq::QueryJobTaskLog(query_param) => {
                let (size, list) = self.query_job_task_logs(&query_param);
                (JobManagerResult::JobTaskLogPageInfo(size, list), None)
            },
        }
    }

    /// A replicated change at time `now` (milliseconds), with what the scheduler
    /// is to be told: the job created or updated, the id removed, each task.
    pub fn handle_raft(&mut self, msg: JobManagerRaftReq, now: u64) -> (r: (
        Result<JobManagerRaftResult, JobManagerError>,
        Vec<ScheduleNotice>,
    ))
        requires
            old(self).wf(),
            match msg {
                JobManagerRaftReq::UpdateJob(p) => p.id is Some && old(self).jobs().contains_key(
                    p.id->0,
                ) ==> old(self).jobs()[p.id->0].job.version_id < u64::MAX,
                _ => true,
            },
        ensures
            final(self).wf(),
            final(self).job_task_log_limit == old(self).job_task_log_limit,
            match msg {
                JobManagerRaftReq::AddJob(p) => (r.0 is Ok <==> create_refusal(old(self).jobs(), p) is None)
                    && (r.0 is Err ==> r.0 == Err::<JobManagerRaftResult, JobManagerError>(
                    create_refusal(old(self).jobs(), p)->0,
                ) && r.1@.len() == 0 && final(self).jobs() == old(self).jobs()) && (r.0 is Ok ==> ({
                    let j = r.0->Ok_0->JobInfo_0;
                    &&& r.0->Ok_0 is JobInfo
                    &&& final(self).jobs().contains_key(j.id)
                    &&& is_new_wrap(final(self).jobs()[j.id], j)
                    &&& final(self).jobs().remove(j.id) == old(self).jobs()
                    &&& r.1@ == seq![ScheduleNotice::UpdateJob(j)]
                })),
                JobManagerRaftReq::UpdateJob(p) => (r.0 is Ok <==> update_refusal(old(self).jobs(), p) is None)
                    && (r.0 is Err ==> r.0 == Err::<JobManagerRaftResult, JobManagerError>(
                    update_refusal(old(self).jobs(), p)->0,
                ) && r.1@.len() == 0 && final(self).jobs() == old(self).jobs()) && (r.0 is Ok ==> ({
                    let id = p.id->0;
                    let w = old(self).jobs()[id];
                    let j = w.job.updated(p);
                    &&& r.0->Ok_0 is Empty
                    &&& final(self).jobs() == old(self).jobs().insert(id, JobWrap { job: j, ..w })
                    &&& r.1@ == seq![ScheduleNotice::UpdateJob(j)]
                })),
                JobManagerRaftReq::UpdateTask(t) => r.0 == Ok::<JobManagerRaftResult, JobManagerError>(
                    JobManagerRaftResult::Empty,
                ) && r.1@ == seq![ScheduleNotice::UpdateTask(t)] && task_loaded(
                    old(self).jobs(),
                    final(self).jobs(),
                    t,
                    old(self).job_task_log_limit,
                ),
                JobManagerRaftReq::UpdateTaskList(ts) => r.0 == Ok::<
                    JobManagerRaftResult,
                    JobManagerError,
                >(JobManagerRaftResult::Empty) && r.1@ == ts@.map_values(
                    |t: JobTaskInfo| ScheduleNotice::UpdateTask(t),
                ) && tasks_loaded(old(self).jobs(), final(self).jobs(), ts@, old(self).job_task_log_limit),
                JobManagerRaftReq::Remove(id) => r.0 == Ok::<JobManagerRaftResult, JobManagerError>(
                    JobManagerRaftResult::Empty,
                ) && final(self).jobs() == old(self).jobs().remove(id) && r.1@ == seq![
                    ScheduleNotice::RemoveJob(id),
                ],
            },
    {
        let mut notices: Vec<ScheduleNotice> = Vec::new();
        match msg {
            JobManagerRaftReq::AddJob(job_param) => {
                match self.create_job(job_param, now) {
                    Ok(job) => {
                        notices.push(ScheduleNotice::UpdateJob(job.clone()));
                        (Ok(JobManagerRaftResult::JobInfo(job)), notices)
                    },
                    Err(e) => (Err(e), notices),
                }
            },
            JobManagerRaftReq::UpdateJob(job_param) => {
                match self.update_job(job_param) {
                    Ok(job) => {
                        notices.push(ScheduleNotice::UpdateJob(job));
                        (Ok(JobManagerRaftResult::Empty), notices)
                    },
                    Err(e) => (Err(e), notices),
                }
            },
            JobManagerRaftReq::Remove(id) => {
                self.remove_job(id);
                notices.push(ScheduleNotice::RemoveJob(id));
                (Ok(JobManagerRaftResult::Empty), notices)
            },
            JobManagerRaftReq::UpdateTask(task_info) => {
                notices.push(ScheduleNotice::UpdateTask(task_info.clone()));
                self.update_job_task(task_info);
                (Ok(JobManagerRaftResult::Empty), notices)
            },
            JobManagerRaftReq::UpdateTaskList(tasks) => {
                let mut i: usize = 0;
                proof {
                    assert(tasks@.take(0) =~= Seq::<JobTaskInfo>::empty());
                }
                while i < tasks.len()
                    invariant
                        self.wf(),
                        self.job_task_log_limit == old(self).job_task_log_limit,
                        i <= tasks.len(),
                        notices@ == tasks@.take(i as int).map_values(
                            |t: JobTaskInfo| ScheduleNotice::UpdateTask(t),
                        ),
                        tasks_loaded(old(self).jobs(), self.jobs(), tasks@.take(i as int), old(self).job_task_log_limit),
                    decreases tasks.len() - i,
                {
                    let t = tasks[i].clone();
                    notices.push(ScheduleNotice::UpdateTask(t.clone()));
                    let ghost mid = self.jobs();
                    self.update_job_task(t);
                    proof {
                        assert(tasks@.take(i + 1).drop_last() =~= tasks@.take(i as int));
                        assert(tasks@.take(i + 1).last() == tasks@[i as int]);
                        assert(tasks@.take(i + 1) == tasks@.take(i as int).push(tasks@[i as int]));
                        lemma_tasks_loaded_push(
                            old(self).jobs(),
                            mid,
                            self.jobs(),
                            tasks@.take(i as int),
                            tasks@[i as int],
                            old(self).job_task_log_limit,
                        );
                        assert(notices@ =~= tasks@.take(i + 1).map_values(
                            |t: JobTaskInfo| ScheduleNotice::UpdateTask(t),
                        ));
                    }
                    i = i + 1;
                }
                proof {
                    assert(tasks@.take(tasks.len() as int) == tasks@);
                }
                (Ok(JobManagerRaftResult::Empty), notices)
            },
        }
    }
}

/// The query's filters as a predicate on stored jobs.
pub open spec fn query_filter(param: JobQueryParam) -> spec_fn(JobWrap) -> bool {
    |w: JobWrap| job_matches(param, w.job)
}

/// A job's task logs, newest task id first; none for an unknown job.
pub open spec fn logs_newest_first(jobs: Map<u64, JobWrap>, job_id: u64) -> Seq<JobTaskInfo> {
    if jobs.contains_key(job_id) {
        jobs[job_id].task_log_map.seq().reverse()
    } else {
        Seq::empty()
    }
}

/// A stored job passes a query exactly when it passes each filter given: the
/// namespace and application are those asked for, the description and handler
/// name contain the texts asked for.
pub proof fn lemma_job_query_filters(q: JobQueryParam, j: JobInfo)
    ensures
        job_matches(q, j) <==> crate::job_index::passes_job_filters(
            q,
            j.namespace@,
            j.app_name@,
            j.description@,
            j.handle_name@,
        ),
{
    crate::job_index::lemma_job_filters(q.namespace, j.namespace@);
    crate::job_index::lemma_job_filters(q.app_name, j.app_name@);
    crate::job_index::lemma_job_filters(q.like_description, j.description@);
    crate::job_index::lemma_job_filters(q.like_handle_name, j.handle_name@);
}

/// A job's task logs are listed newest first: the task ids strictly decrease
/// along the list, each listed log is the one the job keeps under its id, and
/// every kept log is listed; an unknown job lists none.
pub proof fn lemma_logs_newest_first(m: JobManager, job_id: u64)
    requires
        m.wf(),
    ensures
        forall|a: int, b: int|
            0 <= a < b < logs_newest_first(m.jobs(), job_id).len() ==> (#[trigger] logs_newest_first(
                m.jobs(),
                job_id,
            )[a]).task_id > (#[trigger] logs_newest_first(m.jobs(), job_id)[b]).task_id,
        m.jobs().contains_key(job_id) ==> logs_newest_first(m.jobs(), job_id).len() == m.jobs()[job_id].log_count(),
        m.jobs().contains_key(job_id) ==> forall|i: int|
            0 <= i < logs_newest_first(m.jobs(), job_id).len() ==> m.jobs()[job_id].task_log_map.map().contains_key(
                (#[trigger] logs_newest_first(m.jobs(), job_id)[i]).task_id,
            ) && m.jobs()[job_id].task_log_map.map()[logs_newest_first(m.jobs(), job_id)[i].task_id]
                == logs_newest_first(m.jobs(), job_id)[i],
        !m.jobs().contains_key(job_id) ==> logs_newest_first(m.jobs(), job_id).len() == 0,
{
    if m.jobs().contains_key(job_id) {
        let w = m.jobs()[job_id];
        let s = w.task_log_map.seq();
        let l = logs_newest_first(m.jobs(), job_id);
        w.task_log_map.lemma_map_len();
        assert(l == s.reverse());
        assert forall|a: int, b: int| 0 <= a < b < l.len() implies (#[trigger] l[a]).task_id > (#[trigger] l[b]).task_id by {
            assert(l[a] == s[s.len() - 1 - a]);
            assert(l[b] == s[s.len() - 1 - b]);
            assert(s[s.len() - 1 - b].spec_id() < s[s.len() - 1 - a].spec_id());
        }
        assert forall|i: int| 0 <= i < l.len() implies w.task_log_map.map().contains_key((#[trigger] l[i]).task_id)
            && w.task_log_map.map()[l[i].task_id] == l[i] by {
            assert(l[i] == s[s.len() - 1 - i]);
            crate::id_list::lemma_index_of(s, s.len() - 1 - i);
        }
    }
}

/// No job ever holds more task logs than the manager's limit, in any state its
/// operations reach: each keeps `wf` and the limit, and `new` starts with no jobs
/// and a limit of 100, so a manager made by `new` keeps at most 100 per job.
pub proof fn lemma_task_logs_within_limit(m: JobManager, id: u64)
    requires
        m.wf(),
        m.jobs().contains_key(id),
    ensures
        m.jobs()[id].log_count() <= m.job_task_log_limit,
{
}

/// Recording a task keeps a job's logs the newest ones: where the logs a job held
/// were the newest (largest ids) of the task ids recorded for it, after the task
/// is recorded they are the newest of those ids and the task's.
pub proof fn lemma_recorded_task_keeps_newest(
    before: JobManager,
    after: JobManager,
    t: JobTaskInfo,
    recorded: Set<u64>,
)
    requires
        task_loaded(before.jobs(), after.jobs(), t, before.job_task_log_limit),
        before.jobs().contains_key(t.job_id),
        recorded.finite(),
        keeps_newest(
            before.jobs()[t.job_id].task_log_map.map().dom(),
            recorded,
            before.job_task_log_limit as nat,
        ),
    ensures
        keeps_newest(
            after.jobs()[t.job_id].task_log_map.map().dom(),
            recorded.insert(t.task_id),
            before.job_task_log_limit as nat,
        ),
{
    lemma_task_logs_keep_newest(
        before.jobs()[t.job_id].task_log_map.map(),
        after.jobs()[t.job_id].task_log_map.map(),
        t,
        before.job_task_log_limit,
        recorded,
    );
}

/// Reading a job just created gives it back: where `create_job` answered `j`
/// and `get_job` then answered `got`, `got` is `j`.
pub proof fn lemma_get_after_create(jobs: Map<u64, JobWrap>, j: JobInfo, got: Option<JobInfo>)
    requires
        jobs.contains_key(j.id),
        is_new_wrap(jobs[j.id], j),
        got is Some <==> jobs.contains_key(j.id),
        got is Some ==> got->0 == jobs[j.id].job,
    ensures
        got == Some(j),
{
}

/// Removing a job just created restores the jobs as they were before.
pub proof fn lemma_remove_undoes_create(
    before: Map<u64, JobWrap>,
    created: Map<u64, JobWrap>,
    after: Map<u64, JobWrap>,
    id: u64,
)
    requires
        !before.contains_key(id),
        created.contains_key(id),
        created.remove(id) == before,
        after == created.remove(id),
    ensures
        after == before,
{
}

/// A job just made: no history, no task logs.
pub open spec fn is_new_wrap(w: JobWrap, job: JobInfo) -> bool {
    &&& w.job == job
    &&& w.histories@.len() == 0
    &&& w.task_log_map.map() == Map::<u64, JobTaskInfo>::empty()
}

/// Why `create_job` refuses, in the order the checks are made; `None` where it succeeds.
pub open spec fn create_refusal(jobs: Map<u64, JobWrap>, p: JobParam) -> Option<JobManagerError> {
    if or_keep(p.id, 0u64) == 0 {
        Some(JobManagerError::CreateIdInvalid)
    } else if jobs.contains_key(p.id->0) {
        Some(JobManagerError::AlreadyExists)
    } else {
        match param_check(p) {
            Err(e) => Some(JobManagerError::Invalid(e)),
            Ok(_) => None,
        }
    }
}

/// Why `update_job` refuses, in the order the checks are made; `None` where it succeeds.
pub open spec fn update_refusal(jobs: Map<u64, JobWrap>, p: JobParam) -> Option<JobManagerError> {
    if or_keep(p.id, 0u64) == 0 {
        Some(JobManagerError::UpdateIdInvalid)
    } else if !jobs.contains_key(p.id->0) {
        Some(JobManagerError::NotFound)
    } else {
        match job_check(jobs[p.id->0].job) {
            Err(e) => Some(JobManagerError::Invalid(e)),
            Ok(_) => None,
        }
    }
}


/// The task runs of the jobs, job by job, each job's in id order.
pub open spec fn all_task_logs(ws: Seq<JobWrap>) -> Seq<JobTaskInfo>
    decreases ws.len(),
{
    if ws.len() == 0 {
        Seq::empty()
    } else {
        all_task_logs(ws.drop_last()) + ws.last().task_log_map.seq()
    }
}

/// The value a job's snapshot record holds.
pub open spec fn job_value(j: JobInfo) -> Seq<u8> {
    framed(fields_bytes(job_do_fields(job_record(j))))
}

/// The value a task run's snapshot record holds.
pub open spec fn task_value(t: JobTaskInfo) -> Seq<u8> {
    framed(fields_bytes(job_task_do_fields(task_record(t))))
}

/// A snapshot record keeps this job: in the job table, keyed by its id.
pub open spec fn job_record_holds(r: SnapshotRecord, j: JobInfo) -> bool {
    &&& r.tree@ == job_table()
    &&& r.key@ == id_bytes(j.id)
    &&& r.value@ == job_value(j)
    &&& r.op_type == 0
}

/// A snapshot record keeps the given task in the task table, keyed by its id.
pub open spec fn task_record_holds(r: SnapshotRecord, t: JobTaskInfo) -> bool {
    &&& r.tree@ == job_task_table()
    &&& r.key@ == id_bytes(t.task_id)
    &&& r.value@ == task_value(t)
    &&& r.op_type == 0
}

/// The job record a snapshot record's value holds, where it holds one.
pub open spec fn job_in_record(value: Seq<u8>) -> Option<JobDoView> {
    match record_message(value) {
        Some(m) => job_do_of(m),
        None => None,
    }
}

/// The task record a snapshot record's value holds, where it holds one.
pub open spec fn task_in_record(value: Seq<u8>) -> Option<JobTaskDoView> {
    match record_message(value) {
        Some(m) => job_task_do_of(m),
        None => None,
    }
}

/// The jobs after a job is loaded: a new one comes with no history or task
/// runs; a known one has its configuration replaced.
pub open spec fn job_loaded(before: Map<u64, JobWrap>, after: Map<u64, JobWrap>, j: JobInfo) -> bool {
    if before.contains_key(j.id) {
        after == before.insert(j.id, JobWrap { job: j, ..before[j.id] })
    } else {
        &&& after.contains_key(j.id)
        &&& is_new_wrap(after[j.id], j)
        &&& after.remove(j.id) == before
    }
}

/// The jobs after a task run is loaded: it joins its job's task runs (keeping
/// at most `limit`); a run of an unknown job is dropped.
pub open spec fn task_loaded(
    before: Map<u64, JobWrap>,
    after: Map<u64, JobWrap>,
    t: JobTaskInfo,
    limit: usize,
) -> bool {
    if before.contains_key(t.job_id) {
        let w = before[t.job_id];
        let w2 = after[t.job_id];
        &&& after.contains_key(t.job_id)
        &&& after.remove(t.job_id) == before.remove(t.job_id)
        &&& w2.job == w.job
        &&& w2.histories == w.histories
        &&& task_logs_after(w.task_log_map.map(), w2.task_log_map.map(), t, limit)
    } else {
        after == before
    }
}

impl JobManager {
    /// The records a snapshot keeps: one for each job in id order, then one for
    /// each task run, job by job.
    pub fn build_snapshot(&self) -> (r: Vec<SnapshotRecord>)
        ensures
            r@.len() == self.job_map.seq().len() + all_task_logs(self.job_map.seq()).len(),
            forall|i: int|
                0 <= i < self.job_map.seq().len() ==> job_record_holds(#[trigger] r@[i], self.job_map.seq()[i].job),
            forall|i: int|
                self.job_map.seq().len() <= i < r@.len() ==> task_record_holds(
                    #[trigger] r@[i],
                    all_task_logs(self.job_map.seq())[i - self.job_map.seq().len()],
                ),
    {
        let list = self.job_map.as_vec();
        let ghost ws = self.job_map.seq();
        let mut r: Vec<SnapshotRecord> = Vec::new();
        let mut i: usize = 0;
        while i < list.len()
            invariant
                list@ == ws,
                i <= ws.len(),
                r@.len() == i,
                forall|j: int| 0 <= j < i ==> job_record_holds(#[trigger] r@[j], ws[j].job),
            decreases list.len() - i,
        {
            let job = &list[i].job;
            let record = SnapshotRecord {
                tree: job_table_name(),
                key: id_to_bin(job.id),
                value: job.to_do().write_message(),
                op_type: 0,
            };
            r.push(record);
            i = i + 1;
        }
        let ghost n = ws.len() as int;
        let mut k: usize = 0;
        proof {
            assert(ws.take(0) =~= Seq::<JobWrap>::empty());
        }
        while k < list.len()
            invariant
                list@ == ws,
                n == ws.len(),
                k <= ws.len(),
                r@.len() == n + all_task_logs(ws.take(k as int)).len(),
                forall|j: int| 0 <= j < n ==> job_record_holds(#[trigger] r@[j], ws[j].job),
                forall|j: int|
                    n <= j < r@.len() ==> task_record_holds(#[trigger] r@[j], all_task_logs(ws.take(k as int))[j - n]),
            decreases list.len() - k,
        {
            let tasks = list[k].task_log_map.as_vec();
            let ghost done = all_task_logs(ws.take(k as int));
            let mut t: usize = 0;
            while t < tasks.len()
                invariant
                    list@ == ws,
                    n == ws.len(),
                    k < ws.len(),
                    tasks@ == ws[k as int].task_log_map.seq(),
                    done == all_task_logs(ws.take(k as int)),
                    t <= tasks@.len(),
                    r@.len() == n + done.len() + t,
                    forall|j: int| 0 <= j < n ==> job_record_holds(#[trigger] r@[j], ws[j].job),
                    forall|j: int|
                        n <= j < r@.len() ==> task_record_holds(#[trigger] r@[j], (done + tasks@)[j - n]),
                decreases tasks.len() - t,
            {
                let task = &tasks[t];
                let record = SnapshotRecord {
                    tree: job_task_table_name(),
                    key: id_to_bin(task.task_id),
                    value: task.to_do().write_message(),
                    op_type: 0,
                };
                r.push(record);
                t = t + 1;
            }
            proof {
                assert(ws.take(k + 1).drop_last() =~= ws.take(k as int));
                assert(all_task_logs(ws.take(k + 1)) == done + tasks@);
            }
            k = k + 1;
        }
        proof {
            assert(ws.take(k as int) =~= ws);
        }
        r
    }

    /// Loads a snapshot record: a job record updates or adds its job, a task
    /// record joins its job's task runs; records of other tables are ignored,
    /// and one that cannot be read is refused.
    pub fn load_snapshot_record(&mut self, record: &SnapshotRecord) -> (r: Result<(), SnapshotError>)
        requires
            old(self).wf(),
        ensures
            final(self).wf(),
            final(self).job_task_log_limit == old(self).job_task_log_limit,
            record.tree@ == job_table() ==> match job_in_record(record.value@) {
                Some(v) => r is Ok && exists|j: JobInfo|
                    #[trigger] restores_job(j, v) && job_loaded(old(self).jobs(), final(self).jobs(), j),
                None => r == Err::<(), SnapshotError>(SnapshotError::Unreadable) && final(self).jobs()
                    == old(self).jobs(),
            },
            record.tree@ == job_task_table() ==> match task_in_record(record.value@) {
                Some(v) => r is Ok && exists|t: JobTaskInfo|
                    #[trigger] restores_task(t, v) && task_loaded(
                        old(self).jobs(),
                        final(self).jobs(),
                        t,
                        old(self).job_task_log_limit,
                    ),
                None => r == Err::<(), SnapshotError>(SnapshotError::Unreadable) && final(self).jobs()
                    == old(self).jobs(),
            },
            record.tree@ != job_table() && record.tree@ != job_task_table() ==> r is Ok
                && final(self).jobs() == old(self).jobs(),
    {
        proof {
            reveal_strlit("T_JOB");
            reveal_strlit("T_JOB_TASK");
            assert(job_table().len() != job_task_table().len());
        }
        if str_eq(record.tree.as_str(), "T_JOB") {
            match JobDo::read_message(&record.value) {
                Some(job_do) => {
                    let job = JobInfo::from_do(job_do);
                    let ghost j = job;
                    let ghost before = self.jobs();
                    self.do_update_job(job);
                    proof {
                        assert(restores_job(j, job_in_record(record.value@).unwrap()));
                        assert(job_loaded(before, self.jobs(), j));
                    }
                    Ok(())
                },
                None => Err(SnapshotError::Unreadable),
            }
        } else if str_eq(record.tree.as_str(), "T_JOB_TASK") {
            match JobTaskDo::read_message(&record.value) {
                Some(task_do) => {
                    let task = JobTaskInfo::from_do(task_do);
                    let ghost t = task;
                    let ghost before = self.jobs();
                    self.update_job_task(task);
                    proof {
                        assert(restores_task(t, task_in_record(record.value@).unwrap()));
                        assert(task_loaded(before, self.jobs(), t, self.job_task_log_limit));
                    }
                    Ok(())
                },
                None => Err(SnapshotError::Unreadable),
            }
        } else {
            Ok(())
        }
    }
}


/// A job written to a snapshot record reads back as its record, and the job
/// that record restores has the same configuration.
pub proof fn lemma_job_record_value_round_trip(j: JobInfo, r: JobInfo)
    requires
        utf8_bytes(j.app_name@).len() < two64(),
        utf8_bytes(j.namespace@).len() < two64(),
        utf8_bytes(j.description@).len() < two64(),
        utf8_bytes(j.cron_value@).len() < two64(),
        utf8_bytes(j.handle_name@).len() < two64(),
        utf8_bytes(j.trigger_param@).len() < two64(),
        fields_bytes(job_do_fields(job_record(j))).len() < two64(),
        restores_job(r, job_record(j)),
    ensures
        job_in_record(job_value(j)) == Some(job_record(j)),
        same_job(r, j),
        jobs_alike(r, j),
{
    lemma_job_snapshot_round_trip(j, r);
    lemma_frame_round_trip(fields_bytes(job_do_fields(job_record(j))));
}

/// A task run written to a snapshot record reads back as its record, and the
/// run that record restores has the same fields.
pub proof fn lemma_task_record_value_round_trip(t: JobTaskInfo, r: JobTaskInfo)
    requires
        utf8_bytes(t.instance_addr@).len() < two64(),
        utf8_bytes(t.trigger_message@).len() < two64(),
        utf8_bytes(t.status@).len() < two64(),
        utf8_bytes(t.callback_message@).len() < two64(),
        utf8_bytes(t.trigger_from@).len() < two64(),
        fields_bytes(job_task_do_fields(task_record(t))).len() < two64(),
        restores_task(r, task_record(t)),
    ensures
        task_in_record(task_value(t)) == Some(task_record(t)),
        task_record(r) == task_record(t),
        tasks_alike(r, t),
{
    lemma_job_task_do_round_trip(task_record(t));
    lemma_frame_round_trip(fields_bytes(job_task_do_fields(task_record(t))));
}


/// What `query_jobs` answers: how many jobs match, and the page asked for of
/// them, in id order, shown.
pub open spec fn jobs_page_answer(m: JobManager, q: JobQueryParam, total: usize, list: Seq<JobInfoDto>) -> bool {
    let matching = m.job_map.seq().filter(query_filter(q));
    let pg = page(matching, q.offset as int, q.offset + q.limit);
    &&& total == matching.len()
    &&& list.len() == pg.len()
    &&& forall|i: int| 0 <= i < list.len() ==> dto_shows(#[trigger] list[i], pg[i].job)
}

/// The jobs after task runs are loaded one after the other.
pub open spec fn tasks_loaded(
    before: Map<u64, JobWrap>,
    after: Map<u64, JobWrap>,
    ts: Seq<JobTaskInfo>,
    limit: usize,
) -> bool
    decreases ts.len(),
{
    if ts.len() == 0 {
        after == before
    } else {
        exists|mid: Map<u64, JobWrap>|
            tasks_loaded(before, mid, ts.drop_last(), limit) && #[trigger] task_loaded(mid, after, ts.last(), limit)
    }
}

/// Loading one more task run extends a sequence of loads.
proof fn lemma_tasks_loaded_push(
    before: Map<u64, JobWrap>,
    mid: Map<u64, JobWrap>,
    after: Map<u64, JobWrap>,
    ts: Seq<JobTaskInfo>,
    t: JobTaskInfo,
    limit: usize,
)
    requires
        tasks_loaded(before, mid, ts, limit),
        task_loaded(mid, after, t, limit),
    ensures
        tasks_loaded(before, after, ts.push(t), limit),
{
    let s = ts.push(t);
    assert(s.drop_last() =~= ts);
    assert(s.last() == t);
}


/// Jobs that are enabled.
pub open spec fn enabled_wrap() -> spec_fn(JobWrap) -> bool {
    |w: JobWrap| w.job.enable
}

impl JobManager {
    /// How many jobs are enabled.
    pub fn get_all_enable_size(&self) -> (r: usize)
        ensures
            r == self.job_map.seq().filter(enabled_wrap()).len(),
    {
        let list = self.job_map.as_vec();
        let ghost s = list@;
        let ghost f = enabled_wrap();
        let mut count: usize = 0;
        let mut i: usize = 0;
        while i < list.len()
            invariant
                s == list@,
                f == enabled_wrap(),
                i <= s.len(),
                count == s.take(i as int).filter(f).len(),
                count <= i,
            decreases list.len() - i,
        {
            proof {
                assert(s.take(i + 1) == s.take(i as int).push(s[i as int]));
                s.take(i as int).lemma_filter_push(s[i as int], f);
            }
            if list[i].job.enable {
                count = count + 1;
            }
            i = i + 1;
        }
        proof {
            assert(s.take(s.len() as int) == s);
        }
        count
    }
}

} // verus!
