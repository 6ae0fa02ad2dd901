use ratchjob::app_model::{AppInstanceKey, AppKey, RegisterType};
use ratchjob::enum_type::{
    ExecutorBlockStrategy, JobRunMode, PastDueStrategy, RouterStrategy, ScheduleType,
};
use ratchjob::job_model::{JobCheckError, JobInfo, JobInfoDto, JobParam};
use ratchjob::metrics_key::MetricsKey;
use ratchjob::namespace_util::{get_namespace, get_namespace_by_option};

#[test]
fn schedule_type_names() {
    assert_eq!(ScheduleType::from_str("CRON"), ScheduleType::Cron);
    assert_eq!(ScheduleType::from_str("INTERVAL"), ScheduleType::Interval);
    assert_eq!(ScheduleType::from_str("cron"), ScheduleType::Unset);
    assert_eq!(ScheduleType::Interval.to_str(), "INTERVAL");
    assert_eq!(ScheduleType::Unset.to_str(), "");
    assert_eq!(ScheduleType::default(), ScheduleType::Unset);
}

#[test]
fn enum_names_round_trip() {
    for m in [JobRunMode::Bean, JobRunMode::GlueShell, JobRunMode::GluePowerShell] {
        assert_eq!(JobRunMode::from_str(m.to_str()), Some(m));
    }
    assert_eq!(JobRunMode::from_str("JAVA"), None);
    assert_eq!(RouterStrategy::from_str("ROUND_ROBIN"), Some(RouterStrategy::RoundRobin));
    assert_eq!(RouterStrategy::from_str("SHARDING_BROADCAST"), Some(RouterStrategy::ShardingBroadcast));
    assert_eq!(RouterStrategy::from_str("x"), None);
    assert_eq!(PastDueStrategy::from_str("IGNORE"), PastDueStrategy::Ignore);
    assert_eq!(PastDueStrategy::from_str("?"), PastDueStrategy::Default);
    assert_eq!(PastDueStrategy::Execute.to_str(), "EXECUTE");
    assert_eq!(ExecutorBlockStrategy::from_str("COVER_EARLY"), ExecutorBlockStrategy::CoverEarly);
    assert_eq!(ExecutorBlockStrategy::from_str("nope"), ExecutorBlockStrategy::Other);
    assert_eq!(ExecutorBlockStrategy::default().to_str(), "SERIAL_EXECUTION");
    assert_eq!(RegisterType::from_str("MANUAL"), RegisterType::Manual);
    assert_eq!(RegisterType::from_str("manual"), RegisterType::Auto);
    assert_eq!(RegisterType::Manual.to_str(), "MANUAL");
}

#[test]
fn namespace_defaults() {
    assert_eq!(get_namespace(&"".to_string()), "xxl");
    assert_eq!(get_namespace(&"dev".to_string()), "dev");
    assert_eq!(get_namespace_by_option(&None), "xxl");
    assert_eq!(get_namespace_by_option(&Some("".to_string())), "xxl");
    assert_eq!(get_namespace_by_option(&Some("p".to_string())), "p");
}

#[test]
fn keys_and_storage_keys() {
    let k = AppKey::new("app".to_string(), "ns".to_string());
    assert_eq!(k.build_key(), "ns\x02app");
    let ik = AppInstanceKey::new_with_app_key(k.clone(), "1.2.3.4:80".to_string());
    assert_eq!(ik.build_key(), "ns\x02app\x021.2.3.4:80");
    let back = ik.build_app_key();
    assert_eq!(back, k);
}

fn full_param() -> JobParam {
    JobParam {
        id: Some(5),
        app_name: Some("app".to_string()),
        namespace: Some("ns".to_string()),
        handle_name: Some("h".to_string()),
        update_time: Some(99),
        ..Default::default()
    }
}

#[test]
fn job_from_param_defaults() {
    let j = JobInfo::from_param(full_param());
    assert_eq!(j.id, 5);
    assert!(j.enable);
    assert_eq!(j.schedule_type, ScheduleType::Unset);
    assert_eq!(j.router_strategy, RouterStrategy::RoundRobin);
    assert_eq!(j.past_due_strategy, PastDueStrategy::Default);
    assert_eq!(j.blocking_strategy, ExecutorBlockStrategy::SerialExecution);
    assert_eq!(j.last_modified_millis, 99);
    assert_eq!(j.create_time, 0);
    assert_eq!(j.version_id, 0);
    assert!(j.is_valid());
    assert_eq!(j.check_valid(), Ok(()));
    let k = j.build_app_key();
    assert_eq!(k.namespace, "ns");
}

#[test]
fn job_check_order_and_messages() {
    let mut p = full_param();
    p.id = None;
    let j = JobInfo::from_param(p);
    assert_eq!(j.check_valid(), Err(JobCheckError::IdEmpty));
    assert_eq!(JobCheckError::IdEmpty.message(), "id is empty!");
    let mut p = full_param();
    p.run_mode = Some(JobRunMode::GlueShell);
    p.handle_name = None;
    assert!(JobInfo::from_param(p).is_valid());
    assert_eq!(JobCheckError::CronValueInvalid.message(), "cron_value is invalid!");
}

#[test]
fn job_update_param_bumps_version() {
    let mut j = JobInfo::from_param(full_param());
    j.update_param(JobParam { description: Some("d".to_string()), update_time: Some(7), ..Default::default() });
    assert_eq!(j.version_id, 1);
    assert_eq!(j.description, "d");
    assert_eq!(j.create_time, 7);
    assert_eq!(j.handle_name, "h");
    j.update_param(JobParam::default());
    assert_eq!(j.version_id, 2);
    assert_eq!(j.description, "d");
}

#[test]
fn job_dto_uses_wire_names() {
    let mut p = full_param();
    p.schedule_type = Some(ScheduleType::Interval);
    let j = JobInfo::from_param(p);
    let d = JobInfoDto::new_from(&j);
    assert_eq!(d.schedule_type, "INTERVAL");
    assert_eq!(d.router_strategy, "ROUND_ROBIN");
    assert_eq!(d.blocking_strategy, "SERIAL_EXECUTION");
    assert_eq!(d.register_time, j.create_time);
}

#[test]
fn metrics_names_and_lookup() {
    assert_eq!(MetricsKey::JobSize.get_key(), "job_size");
    assert_eq!(MetricsKey::AppCpuUsage.get_describe(), "App cpu usage");
    assert_eq!(MetricsKey::TaskFinishRtHistogram.get_key_with_label(), "task_finish_rt_histogram");
    assert!(MetricsKey::JobSize.get_labels().is_none());
    assert_eq!(MetricsKey::of_key("http_request_total_count"), Some(MetricsKey::HttpRequestTotalCount));
    assert_eq!(MetricsKey::of_key("task_running_size"), None);
    assert_eq!(MetricsKey::of_key("nothing"), None);
    for k in MetricsKey::order_all_keys() {
        assert_eq!(MetricsKey::of_key(k.get_key()), Some(k));
    }
    assert_eq!(MetricsKey::order_all_keys().len(), 20);
}

#[test]
fn metrics_rt_pairs() {
    assert_eq!(
        MetricsKey::get_histogram_from_summary(&MetricsKey::HttpRequestHandleRtSummary),
        Some(MetricsKey::HttpRequestHandleRtHistogram)
    );
    assert_eq!(
        MetricsKey::get_summary_from_histogram(&MetricsKey::TaskFinishRtHistogram),
        Some(MetricsKey::TaskFinishRtSummary)
    );
    assert_eq!(MetricsKey::get_summary_from_histogram(&MetricsKey::JobSize), None);
}
