use ratchjob::app_model::{AppInfoDto, AppParam};
use ratchjob::console_api::{
    check_app_name, check_job_id, check_job_update, remove_app_step, reply_answer, RemoveAppStep,
};
use ratchjob::datetime::get_now_timestamp_str;
use ratchjob::enum_type::ScheduleType;
use ratchjob::job_model::{JobCheckError, JobParam};
use ratchjob::login_api::{login_after_captcha, CaptchaCheck, LoginStep};

fn app_param(name: &str) -> AppParam {
    AppParam {
        app_name: name.to_string(),
        namespace: "dev".to_string(),
        label: None,
        register_type: None,
        instance_addrs: None,
        last_modified_time: 0,
    }
}

fn dto(register_type: &str, addrs: Option<Vec<&str>>) -> AppInfoDto {
    AppInfoDto {
        app_name: "a".to_string(),
        namespace: "dev".to_string(),
        label: String::new(),
        register_type: register_type.to_string(),
        instance_addrs: addrs.map(|v| v.into_iter().map(|s| s.to_string()).collect()),
    }
}

fn job(id: Option<u64>) -> JobParam {
    JobParam {
        id,
        app_name: Some("app".to_string()),
        namespace: Some("dev".to_string()),
        handle_name: Some("h".to_string()),
        ..Default::default()
    }
}

#[test]
fn replies_become_answers() {
    let r = reply_answer(Some(5u32), "query_app_list error");
    assert!(r.success);
    assert_eq!(r.data, Some(5));
    let r = reply_answer::<u32>(None, "query_app_list error");
    assert!(!r.success);
    assert_eq!(r.code.as_deref(), Some("SYSTEM_ERROR"));
    assert_eq!(r.message.as_deref(), Some("query_app_list error"));
}

#[test]
fn app_name_must_be_given() {
    let r = check_app_name(&app_param("")).unwrap();
    assert_eq!(r.code.as_deref(), Some("SYSTEM_ERROR"));
    assert_eq!(r.message.as_deref(), Some("app name is empty!"));
    assert!(check_app_name(&app_param("a")).is_none());
}

#[test]
fn removing_apps() {
    match remove_app_step(None) {
        RemoveAppStep::Answer(a) => assert!(a.success && a.data.is_some()),
        other => panic!("unexpected {:?}", other),
    }
    match remove_app_step(Some(dto("AUTO", Some(vec!["127.0.0.1:9999"])))) {
        RemoveAppStep::Answer(a) => {
            assert!(!a.success);
            assert_eq!(a.code.as_deref(), Some("SYSTEM_ERROR"));
            assert_eq!(a.message.as_deref(), Some("应用存在注册的实例，不允许删除!"));
        }
        other => panic!("unexpected {:?}", other),
    }
    assert!(matches!(remove_app_step(Some(dto("AUTO", Some(vec![])))), RemoveAppStep::Remove));
    assert!(matches!(remove_app_step(Some(dto("AUTO", None))), RemoveAppStep::Remove));
    assert!(matches!(
        remove_app_step(Some(dto("MANUAL", Some(vec!["127.0.0.1:9999"])))),
        RemoveAppStep::Remove
    ));
}

#[test]
fn job_ids_must_be_given() {
    let r = check_job_id(None, "trigger_job").unwrap();
    assert_eq!(r.code.as_deref(), Some("SYSTEM_ERROR"));
    assert_eq!(r.message.as_deref(), Some("trigger_job error,the job id is invalid"));
    let r = check_job_id(Some(0), "remove_job").unwrap();
    assert_eq!(r.message.as_deref(), Some("remove_job error,the job id is invalid"));
    assert!(check_job_id(Some(3), "query_job_info").is_none());
}

#[test]
fn job_updates_are_checked() {
    let r = check_job_update(&job(None)).unwrap();
    assert_eq!(r.message.as_deref(), Some("update_job error,the job id is invalid"));
    let mut p = job(Some(1));
    p.app_name = None;
    assert_eq!(p.check_valid(), Err(JobCheckError::NamespaceOrAppNameEmpty));
    let r = check_job_update(&p).unwrap();
    assert_eq!(r.message.as_deref(), Some("update_job error,namespace or app_name is empty!"));
    let mut p = job(Some(1));
    p.schedule_type = Some(ScheduleType::Cron);
    p.cron_value = Some("60 * * * * *".to_string());
    let r = check_job_update(&p).unwrap();
    assert_eq!(r.message.as_deref(), Some("update_job error,cron_value is invalid!"));
    assert!(check_job_update(&job(Some(1))).is_none());
}

#[test]
fn user_is_checked_only_after_the_captcha_passes() {
    assert!(matches!(login_after_captcha(CaptchaCheck::Pass), LoginStep::CheckUser));
    match login_after_captcha(CaptchaCheck::TokenEmpty) {
        LoginStep::Answer(a) => assert_eq!(a.message.as_deref(), Some("captcha token is empty")),
        other => panic!("unexpected {:?}", other),
    }
    match login_after_captcha(CaptchaCheck::Mismatch) {
        LoginStep::Answer(a) => assert_eq!(a.code.as_deref(), Some("CAPTCHA_CHECK_ERROR")),
        other => panic!("unexpected {:?}", other),
    }
}

#[test]
fn now_timestamp_text_is_never_empty_for_a_valid_offset() {
    assert!(!get_now_timestamp_str(0).is_empty());
}
