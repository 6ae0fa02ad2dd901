use ratchjob::app_config::get_app_version;
use ratchjob::app_manager::AppManager;
use ratchjob::app_model::{AppInfo, AppInstance, AppKey, AppParam, RegisterType};
use ratchjob::console_types::UpdateUserInfoParam;
use ratchjob::data_object::{
    AppInfoDo, AppInstanceDo, JobDo, JobTaskDo, NamespaceDo, TaskTryLogDo,
};
use ratchjob::enum_type::{
    ExecutorBlockStrategy, JobRunMode, PastDueStrategy, RouterStrategy, ScheduleType,
};
use ratchjob::job_manager::JobManager;
use ratchjob::job_model::{JobInfo, JobParam, JobTaskInfo};
use ratchjob::namespace::{Namespace, NamespaceManager, NamespaceParam};
use ratchjob::snapshot::{id_to_bin, SnapshotError, SnapshotRecord};
use ratchjob::text::split_str;

fn sample_job() -> JobInfo {
    JobInfo {
        id: 300,
        enable: true,
        app_name: "xxl-job-executor-sample".to_string(),
        namespace: "xxl".to_string(),
        description: "démo".to_string(),
        schedule_type: ScheduleType::Cron,
        cron_value: "0 * * * * *".to_string(),
        delay_second: 0,
        interval_second: 30,
        run_mode: JobRunMode::GlueShell,
        handle_name: "demoJobHandler".to_string(),
        trigger_param: "a=1".to_string(),
        router_strategy: RouterStrategy::ConsistentHash,
        past_due_strategy: PastDueStrategy::Ignore,
        blocking_strategy: ExecutorBlockStrategy::DiscardLater,
        timeout_second: 60,
        try_times: 3,
        version_id: 2,
        last_modified_millis: 1_700_000_000_000,
        create_time: 1_690_000_000_000,
    }
}

fn sample_task(task_id: u64, job_id: u64) -> JobTaskInfo {
    JobTaskInfo {
        task_id,
        job_id,
        trigger_time: 100,
        instance_addr: "http://h:9999/".to_string(),
        trigger_message: "ok".to_string(),
        status: "SUCCESS".to_string(),
        finish_time: 105,
        callback_message: String::new(),
        execution_time: 5,
        trigger_from: "_".to_string(),
        try_times: 1,
        retry_interval: 10,
        retry_count: 0,
    }
}

#[test]
fn data_to_job_do() {
    let data: Vec<u8> = vec![
        97, 10, 23, 120, 120, 108, 45, 106, 111, 98, 45, 101, 120, 101, 99, 117, 116, 111, 114,
        45, 115, 97, 109, 112, 108, 101, 18, 3, 120, 120, 108, 26, 23, 120, 120, 108, 45, 106,
        111, 98, 45, 101, 120, 101, 99, 117, 116, 111, 114, 45, 115, 97, 109, 112, 108, 101,
        34, 4, 65, 85, 84, 79, 50, 34, 10, 26, 104, 116, 116, 112, 58, 47, 47, 49, 57, 50, 46,
        49, 54, 56, 46, 50, 46, 49, 51, 51, 58, 57, 57, 57, 57, 47, 16, 246, 145, 128, 191, 6,
    ];
    // Read as a job, the bytes of field 6 are not valid UTF-8, so the record is refused.
    assert!(JobDo::read_message(&data).is_none());
}

#[test]
fn data_to_app_info_do() {
    let data: Vec<u8> = vec![
        97, 10, 23, 120, 120, 108, 45, 106, 111, 98, 45, 101, 120, 101, 99, 117, 116, 111, 114,
        45, 115, 97, 109, 112, 108, 101, 18, 3, 120, 120, 108, 26, 23, 120, 120, 108, 45, 106,
        111, 98, 45, 101, 120, 101, 99, 117, 116, 111, 114, 45, 115, 97, 109, 112, 108, 101,
        34, 4, 65, 85, 84, 79, 50, 34, 10, 26, 104, 116, 116, 112, 58, 47, 47, 49, 57, 50, 46,
        49, 54, 56, 46, 50, 46, 49, 51, 51, 58, 57, 57, 57, 57, 47, 16, 246, 145, 128, 191, 6,
    ];
    let app = AppInfoDo::read_message(&data).unwrap();
    assert_eq!(app.app_name, "xxl-job-executor-sample");
    assert_eq!(app.namespace, "xxl");
    assert_eq!(app.label, "xxl-job-executor-sample");
    assert_eq!(app.register_type, "AUTO");
    assert!(!app.tmp);
    assert_eq!(app.instances.len(), 1);
    assert_eq!(app.instances[0].addr, "http://192.168.2.133:9999/");
    assert_eq!(app.instances[0].last_modified_time, 1_742_735_606);
    assert_eq!(app.instances[0].token, "");
    // Writing it again gives the same bytes.
    assert_eq!(app.write_message(), data);
}

#[test]
fn job_record_round_trip() {
    let job = sample_job();
    let record = job.to_do();
    assert_eq!(record.schedule_type, "CRON");
    assert_eq!(record.run_mode, "GLUE_SHELL");
    assert_eq!(record.router_strategy, "CONSISTENT_HASH");
    let bytes = record.write_message();
    let back = JobInfo::from_do(JobDo::read_message(&bytes).unwrap());
    assert_eq!(back.id, 300);
    assert_eq!(back.description, "démo");
    assert_eq!(back.schedule_type, ScheduleType::Cron);
    assert_eq!(back.run_mode, JobRunMode::GlueShell);
    assert_eq!(back.router_strategy, RouterStrategy::ConsistentHash);
    assert_eq!(back.past_due_strategy, PastDueStrategy::Ignore);
    assert_eq!(back.blocking_strategy, ExecutorBlockStrategy::DiscardLater);
    assert_eq!(back.try_times, 3);
    assert_eq!(back.last_modified_millis, 1_700_000_000_000);
    assert_eq!(back.create_time, 1_690_000_000_000);
}

#[test]
fn job_record_unknown_names_fall_back() {
    let record = JobDo {
        id: 1,
        run_mode: "NOPE".to_string(),
        router_strategy: "NOPE".to_string(),
        schedule_type: "NOPE".to_string(),
        ..Default::default()
    };
    let job = JobInfo::from_do(record);
    assert_eq!(job.run_mode, JobRunMode::Bean);
    assert_eq!(job.router_strategy, RouterStrategy::RoundRobin);
    assert_eq!(job.schedule_type, ScheduleType::Unset);
}

#[test]
fn default_record_is_written_as_nothing() {
    assert!(JobDo::default().to_bytes().is_empty());
    assert_eq!(JobDo::default().write_message(), vec![0u8]);
    let empty = JobDo::from_bytes(&Vec::new()).unwrap();
    assert_eq!(empty.id, 0);
    assert_eq!(empty.app_name, "");
}

#[test]
fn varint_fields_encode_as_expected() {
    let record = JobDo { id: 300, enable: true, ..Default::default() };
    assert_eq!(record.to_bytes(), vec![8, 172, 2, 16, 1]);
    let cut = vec![8u8, 172];
    assert!(JobDo::from_bytes(&cut).is_none());
}

#[test]
fn later_field_wins_and_unknown_fields_are_skipped() {
    // id 1, an unknown varint field 30, then id 2.
    let bytes = vec![8u8, 1, 240, 1, 5, 8, 2];
    assert_eq!(JobDo::from_bytes(&bytes).unwrap().id, 2);
}

#[test]
fn namespace_record_round_trip() {
    let ns = Namespace { id: "n1".to_string(), name: "Name".to_string(), ns_type: "0".to_string() };
    let record = ns.to_do();
    assert_eq!(record.type_pb, "0");
    let back = Namespace::from_do(NamespaceDo::read_message(&record.write_message()).unwrap());
    assert_eq!(back.id, "n1");
    assert_eq!(back.name, "Name");
    assert_eq!(back.ns_type, "0");
}

#[test]
fn task_record_with_attempts_round_trip() {
    let record = JobTaskDo {
        task_id: 9,
        job_id: 3,
        status: "FAIL".to_string(),
        try_logs: vec![
            TaskTryLogDo { execution_time: 4, addr: "a:1".to_string() },
            TaskTryLogDo { execution_time: 0, addr: "b:2".to_string() },
        ],
        retry_count: 2,
        ..Default::default()
    };
    let back = JobTaskDo::read_message(&record.write_message()).unwrap();
    assert_eq!(back.task_id, 9);
    assert_eq!(back.status, "FAIL");
    assert_eq!(back.try_logs.len(), 2);
    assert_eq!(back.try_logs[0].execution_time, 4);
    assert_eq!(back.try_logs[1].addr, "b:2");
    assert_eq!(back.retry_count, 2);
    let task = JobTaskInfo::from_do(back);
    assert_eq!(task.task_id, 9);
    assert_eq!(task.job_id, 3);
}

#[test]
fn app_instance_record_round_trip() {
    let inst = AppInstance::new_with_time("h:1".to_string(), 77);
    let record = inst.to_do();
    assert_eq!(record.token, "");
    let back = AppInstance::from_do(AppInstanceDo::read_message(&record.write_message()).unwrap());
    assert_eq!(back.addr, "h:1");
    assert_eq!(back.last_modified_time, 77);
    assert_eq!(back.register_time, 77);
    assert!(back.healthy && back.enable);
}

#[test]
fn app_record_later_instance_wins() {
    let record = AppInfoDo {
        app_name: "a".to_string(),
        namespace: "dev".to_string(),
        label: "L".to_string(),
        register_type: "MANUAL".to_string(),
        tmp: false,
        instances: vec![
            AppInstanceDo { addr: "h:1".to_string(), last_modified_time: 5, token: String::new() },
            AppInstanceDo { addr: "h:2".to_string(), last_modified_time: 6, token: String::new() },
            AppInstanceDo { addr: "h:1".to_string(), last_modified_time: 9, token: String::new() },
        ],
    };
    let app = AppInfo::from_do(record);
    assert_eq!(app.register_type, RegisterType::Manual);
    let back = app.to_do();
    assert_eq!(back.instances.len(), 2);
    assert_eq!(back.instances[0].addr, "h:1");
    assert_eq!(back.instances[0].last_modified_time, 9);
    assert_eq!(back.instances[1].addr, "h:2");
    assert_eq!(back.register_type, "MANUAL");
}

#[test]
fn id_keys_are_big_endian() {
    assert_eq!(id_to_bin(0x0102_0304_0506_0708), vec![1, 2, 3, 4, 5, 6, 7, 8]);
    assert_eq!(id_to_bin(0), vec![0; 8]);
}

#[test]
fn job_snapshot_loads_into_fresh_manager() {
    let mut m = JobManager::new();
    let p = JobParam {
        id: Some(5),
        app_name: Some("app".to_string()),
        namespace: Some("dev".to_string()),
        handle_name: Some("h".to_string()),
        ..Default::default()
    };
    m.create_job(p, 10).unwrap();
    m.update_job_task(sample_task(50, 5));
    m.update_job_task(sample_task(51, 5));
    let records = m.build_snapshot();
    assert_eq!(records.len(), 3);
    assert_eq!(records[0].tree, "T_JOB");
    assert_eq!(records[0].key, id_to_bin(5));
    assert_eq!(records[1].tree, "T_JOB_TASK");
    assert_eq!(records[2].key, id_to_bin(51));
    let mut fresh = JobManager::new();
    for r in &records {
        fresh.load_snapshot_record(r).unwrap();
    }
    let job = fresh.get_job(5).unwrap();
    assert_eq!(job.app_name, "app");
    assert_eq!(job.create_time, 10);
    assert_eq!(fresh.build_snapshot().len(), 3);
    let bad = SnapshotRecord { tree: "T_JOB".to_string(), key: vec![], value: vec![5, 1], op_type: 0 };
    assert_eq!(fresh.load_snapshot_record(&bad), Err(SnapshotError::Unreadable));
    let other = SnapshotRecord { tree: "T_OTHER".to_string(), key: vec![], value: vec![], op_type: 0 };
    assert_eq!(fresh.load_snapshot_record(&other), Ok(()));
}

#[test]
fn namespace_snapshot_skips_default_and_weak() {
    let mut m = NamespaceManager::new();
    m.update_namespace(NamespaceParam { id: Some("a".to_string()), name: "A".to_string(), ns_type: "0".to_string() }, false).unwrap();
    m.set_weak("w".to_string());
    let records = m.build_snapshot();
    assert_eq!(records.len(), 1);
    assert_eq!(records[0].tree, "T_NAMESPACE");
    assert_eq!(records[0].key, b"a".to_vec());
    let mut fresh = NamespaceManager::new();
    fresh.load_snapshot_record(&records[0]).unwrap();
    assert_eq!(fresh.get_namespace(&"a".to_string()).unwrap().name, "A");
    let bad = SnapshotRecord { tree: "T_NAMESPACE".to_string(), key: vec![], value: vec![9], op_type: 0 };
    assert_eq!(fresh.load_snapshot_record(&bad), Err(SnapshotError::Unreadable));
}

#[test]
fn app_snapshot_skips_temporary_apps() {
    let mut m = AppManager::new();
    m.update_app(AppParam {
        app_name: "a".to_string(),
        namespace: "dev".to_string(),
        label: Some("L".to_string()),
        register_type: None,
        instance_addrs: Some(vec!["h:1".to_string()]),
        last_modified_time: 40,
    });
    m.register_app_instance(AppKey::new("t".to_string(), "dev".to_string()), "x:1".to_string(), 1000, 1000);
    assert_eq!(m.get_all_instances().len(), 2);
    let records = m.build_snapshot();
    assert_eq!(records.len(), 1);
    assert_eq!(records[0].tree, "T_JOB");
    assert_eq!(records[0].key, b"dev\x02a".to_vec());
    let mut fresh = AppManager::new();
    fresh.load_snapshot_record(&records[0]).unwrap();
    let info = fresh.get_app_info(&AppKey::new("a".to_string(), "dev".to_string()), true).unwrap();
    assert_eq!(info.label, "L");
    assert_eq!(info.instance_addrs.unwrap(), vec!["h:1".to_string()]);
    let bad = SnapshotRecord { tree: "T_JOB".to_string(), key: vec![], value: vec![], op_type: 0 };
    assert_eq!(fresh.load_snapshot_record(&bad), Err(SnapshotError::Unreadable));
}

#[test]
fn split_keeps_empty_pieces() {
    assert_eq!(split_str("a,,b", ','), vec!["a", "", "b"]);
    assert_eq!(split_str("", ','), vec![""]);
    assert_eq!(split_str("x,", ','), vec!["x", ""]);
}

#[test]
fn role_lists() {
    let mut p = UpdateUserInfoParam {
        username: "u".to_string(),
        nickname: None,
        password: None,
        enable: None,
        roles: None,
    };
    assert!(p.get_role_vec().is_none());
    p.roles = Some(String::new());
    assert!(p.get_role_vec().is_none());
    p.roles = Some("1,2".to_string());
    assert_eq!(p.get_role_vec().unwrap(), vec!["1".to_string(), "2".to_string()]);
}

#[test]
fn version_is_known() {
    assert_eq!(get_app_version(), "0.1.0");
}
