use ratchjob::app_model::RegisterType;
use ratchjob::common_model::{ApiResult, PageResult, UserSession};
use ratchjob::console_model::{
    AppInfoParam, AppQueryListRequest, JobInfoParam, JobQueryListRequest, JobTaskLogQueryListRequest,
    NamespaceHandleRequest,
};
use ratchjob::enum_type::{JobRunMode, RouterStrategy, ScheduleType};

#[test]
fn app_info_param_to_param() {
    let p = AppInfoParam {
        namespace: None,
        app_name: Some("a".to_string()),
        label: Some("l".to_string()),
        register_type: Some("MANUAL".to_string()),
        instance_addrs: Some(vec!["h:1".to_string()]),
    };
    let r = p.to_param();
    assert_eq!(r.namespace, "xxl");
    assert_eq!(r.app_name, "a");
    assert_eq!(r.register_type, Some(RegisterType::Manual));
    assert_eq!(r.instance_addrs.unwrap().len(), 1);
    assert_eq!(r.last_modified_time, 0);
    let r = AppInfoParam::default().to_param();
    assert_eq!(r.app_name, "");
    assert_eq!(r.register_type, None);
}

#[test]
fn app_query_pages() {
    let r = AppQueryListRequest { page_no: Some(3), page_size: Some(20), ..Default::default() }.to_param();
    assert_eq!(r.offset, 40);
    assert_eq!(r.limit, 20);
    let r = AppQueryListRequest { page_no: Some(0), ..Default::default() }.to_param();
    assert_eq!(r.offset, 0);
    assert_eq!(r.limit, 0xffff_ffff);
}

#[test]
fn job_info_param_to_param() {
    let p = JobInfoParam {
        id: Some(3),
        namespace: Some("".to_string()),
        schedule_type: Some("CRON".to_string()),
        run_mode: Some("UNKNOWN".to_string()),
        router_strategy: Some("LAST".to_string()),
        past_due_strategy: Some("x".to_string()),
        ..Default::default()
    };
    let r = p.to_param_at(55);
    assert_eq!(r.id, Some(3));
    assert_eq!(r.namespace.as_deref(), Some("xxl"));
    assert_eq!(r.schedule_type, Some(ScheduleType::Cron));
    assert_eq!(r.run_mode, Some(JobRunMode::Bean));
    assert_eq!(r.router_strategy, Some(RouterStrategy::Last));
    assert_eq!(r.update_time, Some(55));
    assert!(r.blocking_strategy.is_none());
    let r = JobInfoParam::default().to_param();
    assert!(r.update_time.is_some());
    assert!(r.run_mode.is_none());
}

#[test]
fn job_queries_pages() {
    let q = JobQueryListRequest { page_no: Some(2), page_size: Some(10), app_name: Some("a".to_string()), ..Default::default() };
    let r = q.to_param();
    assert_eq!(r.offset, 10);
    assert_eq!(r.limit, 10);
    assert_eq!(r.app_name.as_deref(), Some("a"));
    let q = JobQueryListRequest { page_no: Some(2), page_size: Some(10), ..Default::default() };
    let r = q.to_param_with_session(&UserSession::default());
    assert_eq!(r.offset, 10);
    let r = JobTaskLogQueryListRequest { job_id: None, page_no: Some(4), page_size: None }.to_param();
    assert_eq!(r.job_id, 0);
    assert_eq!(r.limit, 10);
    assert_eq!(r.offset, 30);
}

#[test]
fn namespace_request_to_param() {
    let r = NamespaceHandleRequest { namespace_id: Some("n".to_string()), namespace_name: None }.to_param();
    assert_eq!(r.id.as_deref(), Some("n"));
    assert_eq!(r.name, "");
}

#[test]
fn api_results() {
    let ok = ApiResult::success(Some(PageResult { total_count: 1, list: vec![1u8] }));
    assert!(ok.success);
    assert!(ok.code.is_none());
    assert_eq!(ok.data.unwrap().total_count, 1);
    let err = ApiResult::<()>::error("SYSTEM_ERROR".to_string(), Some("m".to_string()));
    assert!(!err.success);
    assert_eq!(err.code.as_deref(), Some("SYSTEM_ERROR"));
    assert_eq!(err.message.as_deref(), Some("m"));
    assert!(err.data.is_none());
}
