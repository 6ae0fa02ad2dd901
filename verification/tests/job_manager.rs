use ratchjob::enum_type::{JobRunMode, ScheduleType};
use ratchjob::job_index::JobQueryParam;
use ratchjob::job_manager::{
    JobManager, JobManagerError, JobManagerRaftReq, JobManagerRaftResult, JobManagerReq,
    JobManagerResult, ScheduleNotice,
};
use ratchjob::job_model::{JobCheckError, JobParam, JobTaskInfo, JobTaskLogQueryParam};

fn job_param(id: u64, app: &str, handle: &str) -> JobParam {
    JobParam {
        id: Some(id),
        app_name: Some(app.to_string()),
        namespace: Some("dev".to_string()),
        handle_name: Some(handle.to_string()),
        description: Some(format!("job {}", id)),
        ..Default::default()
    }
}

fn task(task_id: u64, job_id: u64) -> JobTaskInfo {
    JobTaskInfo {
        task_id,
        job_id,
        trigger_time: 1,
        instance_addr: "127.0.0.1:9999".to_string(),
        trigger_message: String::new(),
        status: "SUCCESS".to_string(),
        finish_time: 2,
        callback_message: String::new(),
        execution_time: 1,
        trigger_from: "_".to_string(),
        try_times: 0,
        retry_interval: 0,
        retry_count: 0,
    }
}

#[test]
fn new_manager_keeps_one_hundred_logs() {
    let m = JobManager::new();
    assert_eq!(m.job_task_log_limit, 100);
    assert!(m.get_job(1).is_none());
}

#[test]
fn create_job_stores_and_stamps() {
    let mut m = JobManager::new();
    let job = m.create_job(job_param(7, "app", "h"), 1234).unwrap();
    assert_eq!(job.id, 7);
    assert_eq!(job.create_time, 1234);
    assert_eq!(job.last_modified_millis, 1234);
    assert_eq!(job.version_id, 0);
    assert!(job.enable);
    assert_eq!(job.run_mode, JobRunMode::Bean);
    let got = m.get_job(7).unwrap();
    assert_eq!(got.app_name, "app");
    assert_eq!(got.namespace, "dev");
}

#[test]
fn create_job_refusals() {
    let mut m = JobManager::new();
    let mut p = job_param(0, "app", "h");
    assert_eq!(m.create_job(p, 1).unwrap_err(), JobManagerError::CreateIdInvalid);
    p = job_param(1, "app", "h");
    p.id = None;
    assert_eq!(m.create_job(p, 1).unwrap_err(), JobManagerError::CreateIdInvalid);
    m.create_job(job_param(1, "app", "h"), 1).unwrap();
    assert_eq!(m.create_job(job_param(1, "app", "h"), 2).unwrap_err(), JobManagerError::AlreadyExists);
    assert_eq!(
        m.create_job(job_param(2, "", "h"), 1).unwrap_err(),
        JobManagerError::Invalid(JobCheckError::NamespaceOrAppNameEmpty)
    );
    assert_eq!(
        m.create_job(job_param(3, "app", ""), 1).unwrap_err(),
        JobManagerError::Invalid(JobCheckError::BeanHandleNameInvalid)
    );
    let mut cron = job_param(4, "app", "h");
    cron.schedule_type = Some(ScheduleType::Cron);
    cron.cron_value = Some("not a cron".to_string());
    assert_eq!(
        m.create_job(cron, 1).unwrap_err(),
        JobManagerError::Invalid(JobCheckError::CronValueInvalid)
    );
    assert!(m.get_job(2).is_none());
    assert!(m.get_job(4).is_none());
}

#[test]
fn create_cron_job_with_valid_expression() {
    let mut m = JobManager::new();
    let mut p = job_param(5, "app", "h");
    p.schedule_type = Some(ScheduleType::Cron);
    p.cron_value = Some("0 * * * * *".to_string());
    assert!(m.create_job(p, 1).is_ok());
}

#[test]
fn update_job_applies_given_fields() {
    let mut m = JobManager::new();
    m.create_job(job_param(9, "app", "h"), 10).unwrap();
    let p = JobParam {
        id: Some(9),
        description: Some("changed".to_string()),
        try_times: Some(3),
        ..Default::default()
    };
    let job = m.update_job(p).unwrap();
    assert_eq!(job.description, "changed");
    assert_eq!(job.try_times, 3);
    assert_eq!(job.handle_name, "h");
    assert_eq!(job.version_id, 1);
    assert_eq!(m.get_job(9).unwrap().description, "changed");
}

#[test]
fn update_job_refusals() {
    let mut m = JobManager::new();
    let p = JobParam { id: Some(0), ..Default::default() };
    assert_eq!(m.update_job(p).unwrap_err(), JobManagerError::UpdateIdInvalid);
    let p = JobParam { id: Some(3), ..Default::default() };
    assert_eq!(m.update_job(p).unwrap_err(), JobManagerError::NotFound);
}

#[test]
fn remove_job_and_replicated_update() {
    let mut m = JobManager::new();
    let job = m.create_job(job_param(1, "app", "h"), 1).unwrap();
    m.remove_job(1);
    assert!(m.get_job(1).is_none());
    assert!(m.do_update_job(job.clone()));
    assert!(!m.do_update_job(job));
    assert!(m.get_job(1).is_some());
}

#[test]
fn task_logs_newest_first_and_limited() {
    let mut m = JobManager::new();
    m.job_task_log_limit = 3;
    m.create_job(job_param(1, "app", "h"), 1).unwrap();
    for t in 1..=5u64 {
        m.update_job_task(task(t, 1));
    }
    m.update_job_task(task(99, 42));
    let q = JobTaskLogQueryParam { job_id: 1, offset: 0, limit: 10 };
    let (total, list) = m.query_job_task_logs(&q);
    assert_eq!(total, 3);
    let ids: Vec<u64> = list.iter().map(|t| t.task_id).collect();
    assert_eq!(ids, vec![5, 4, 3]);
    let q = JobTaskLogQueryParam { job_id: 1, offset: 1, limit: 1 };
    let (total, list) = m.query_job_task_logs(&q);
    assert_eq!(total, 3);
    assert_eq!(list.len(), 1);
    assert_eq!(list[0].task_id, 4);
    let q = JobTaskLogQueryParam { job_id: 42, offset: 0, limit: 10 };
    assert_eq!(m.query_job_task_logs(&q).0, 0);
}

#[test]
fn known_task_log_is_replaced() {
    let mut m = JobManager::new();
    m.create_job(job_param(1, "app", "h"), 1).unwrap();
    m.update_job_task(task(1, 1));
    let mut t = task(1, 1);
    t.status = "FAIL".to_string();
    m.update_job_task(t);
    let q = JobTaskLogQueryParam { job_id: 1, offset: 0, limit: 10 };
    let (total, list) = m.query_job_task_logs(&q);
    assert_eq!(total, 1);
    assert_eq!(list[0].status, "FAIL");
}

#[test]
fn query_jobs_filters_and_pages_in_id_order() {
    let mut m = JobManager::new();
    m.create_job(job_param(3, "a", "alpha"), 1).unwrap();
    m.create_job(job_param(1, "a", "beta"), 1).unwrap();
    m.create_job(job_param(2, "b", "alphabet"), 1).unwrap();
    let q = JobQueryParam { like_handle_name: Some("alpha".to_string()), offset: 0, limit: 10, ..Default::default() };
    let (total, list) = m.query_jobs(&q);
    assert_eq!(total, 2);
    let ids: Vec<u64> = list.iter().map(|d| d.id).collect();
    assert_eq!(ids, vec![2, 3]);
    let q = JobQueryParam { app_name: Some("a".to_string()), offset: 1, limit: 1, ..Default::default() };
    let (total, list) = m.query_jobs(&q);
    assert_eq!(total, 2);
    assert_eq!(list.len(), 1);
    assert_eq!(list[0].id, 3);
    assert_eq!(list[0].run_mode, "BEAN");
}

#[test]
fn job_handle_requests() {
    let mut m = JobManager::new();
    m.create_job(job_param(1, "app", "h"), 1).unwrap();
    match m.handle(JobManagerReq::GetJob(1)).0 {
        JobManagerResult::JobInfo(Some(j)) => assert_eq!(j.id, 1),
        other => panic!("unexpected {:?}", other),
    }
    let (r, notice) = m.handle(JobManagerReq::UpdateTask(task(8, 1)));
    assert!(matches!(r, JobManagerResult::Empty));
    assert!(matches!(notice, Some(ScheduleNotice::UpdateTask(t)) if t.task_id == 8));
    let q = JobTaskLogQueryParam { job_id: 1, offset: 0, limit: 5 };
    match m.handle(JobManagerReq::QueryJobTaskLog(q)).0 {
        JobManagerResult::JobTaskLogPageInfo(n, list) => {
            assert_eq!(n, 1);
            assert_eq!(list[0].task_id, 8);
        }
        other => panic!("unexpected {:?}", other),
    }
}

#[test]
fn handle_replicated_changes() {
    let mut m = JobManager::new();
    let (r, notices) = m.handle_raft(JobManagerRaftReq::AddJob(job_param(4, "app", "h")), 77);
    match r {
        Ok(JobManagerRaftResult::JobInfo(j)) => assert_eq!(j.create_time, 77),
        other => panic!("unexpected {:?}", other),
    }
    assert_eq!(notices.len(), 1);
    let (r, notices) = m.handle_raft(JobManagerRaftReq::AddJob(job_param(4, "app", "h")), 78);
    assert_eq!(r.unwrap_err(), JobManagerError::AlreadyExists);
    assert!(notices.is_empty());
    let (r, notices) = m.handle_raft(JobManagerRaftReq::UpdateTaskList(vec![task(1, 4), task(2, 4)]), 0);
    assert!(matches!(r, Ok(JobManagerRaftResult::Empty)));
    assert_eq!(notices.len(), 2);
    let (_, notices) = m.handle_raft(JobManagerRaftReq::Remove(4), 0);
    assert!(matches!(notices[0], ScheduleNotice::RemoveJob(4)));
    assert!(m.get_job(4).is_none());
}

#[test]
fn a_job_keeps_its_hundred_newest_task_logs() {
    let mut m = JobManager::new();
    m.create_job(job_param(1, "app", "h"), 1).unwrap();
    for t in 1..=101u64 {
        m.update_job_task(task(t, 1));
    }
    let q = JobTaskLogQueryParam { job_id: 1, offset: 0, limit: 200 };
    let (total, list) = m.query_job_task_logs(&q);
    assert_eq!(total, 100);
    assert_eq!(list.len(), 100);
    assert_eq!(list[0].task_id, 101);
    assert_eq!(list[99].task_id, 2);
}

#[test]
fn task_logs_kept_are_the_newest_recorded() {
    let mut m = JobManager::new();
    m.job_task_log_limit = 3;
    m.create_job(job_param(1, "app", "h"), 1).unwrap();
    for t in [5u64, 1, 9, 3, 7, 2] {
        m.update_job_task(task(t, 1));
    }
    let q = JobTaskLogQueryParam { job_id: 1, offset: 0, limit: 10 };
    let (total, list) = m.query_job_task_logs(&q);
    assert_eq!(total, 3);
    let ids: Vec<u64> = list.iter().map(|t| t.task_id).collect();
    assert_eq!(ids, vec![9, 7, 5]);
}
