use ratchjob::app_index::AppQueryParam;
use ratchjob::app_manager::{AppManager, InstanceNotice};
use ratchjob::app_model::{
    AppInfo, AppInstanceKey, AppInstanceParam, AppKey, AppManagerRaftReq, AppManagerReq,
    AppManagerResult, AppParam, AppRouteRequest, AppRouteResponse, RegisterType,
};

fn key(ns: &str, app: &str) -> AppKey {
    AppKey::new(app.to_string(), ns.to_string())
}

fn param(ns: &str, app: &str, addrs: Option<Vec<&str>>, t: u32) -> AppParam {
    AppParam {
        app_name: app.to_string(),
        namespace: ns.to_string(),
        label: None,
        register_type: None,
        instance_addrs: addrs.map(|v| v.into_iter().map(|s| s.to_string()).collect()),
        last_modified_time: t,
    }
}

#[test]
fn new_manager_is_empty() {
    let m = AppManager::new();
    assert_eq!(m.instance_timeout, 180);
    assert!(m.get_all_instances().is_empty());
    assert!(m.get_app_info(&key("dev", "a"), true).is_none());
}

#[test]
fn update_app_adds_and_changes() {
    let mut m = AppManager::new();
    m.update_app(param("dev", "a", Some(vec!["h2:1", "h1:1"]), 50));
    let info = m.get_app_info(&key("dev", "a"), true).unwrap();
    assert_eq!(info.label, "");
    assert_eq!(info.register_type, "AUTO");
    assert_eq!(info.instance_addrs.unwrap(), vec!["h1:1".to_string(), "h2:1".to_string()]);
    let mut p = param("dev", "a", Some(vec!["h3:1"]), 60);
    p.label = Some("L".to_string());
    p.register_type = Some(RegisterType::Manual);
    m.update_app(p);
    let info = m.get_app_info(&key("dev", "a"), false).unwrap();
    assert_eq!(info.label, "L");
    assert_eq!(info.register_type, "MANUAL");
    assert!(info.instance_addrs.is_none());
    assert_eq!(m.get_all_instances().len(), 3);
}

#[test]
fn register_fresh_instance_creates_temporary_app() {
    let mut m = AppManager::new();
    assert!(m.register_app_instance(key("dev", "a"), "h:1".to_string(), 1000, 1000));
    let all = m.get_all_instances();
    assert_eq!(all.len(), 1);
    assert_eq!(all[0].instance_addr, "h:1");
    assert_eq!(all[0].last_modified_time, 1000);
    assert_eq!(all[0].app_key.namespace, "dev");
    assert_eq!(m.get_app_instance_addrs(&key("dev", "a")), vec!["h:1".to_string()]);
}

#[test]
fn register_stale_instance_is_ignored() {
    let mut m = AppManager::new();
    assert!(!m.register_app_instance(key("dev", "a"), "h:1".to_string(), 800, 1000));
    assert!(m.get_all_instances().is_empty());
    assert!(!m.register_app_instance(key("dev", "a"), "h:1".to_string(), 820, 1000));
    assert!(m.register_app_instance(key("dev", "a"), "h:1".to_string(), 821, 1000));
}

#[test]
fn unregister_removes_instance() {
    let mut m = AppManager::new();
    m.register_app_instance(key("dev", "a"), "h:1".to_string(), 1000, 1000);
    m.register_app_instance(key("dev", "a"), "h:2".to_string(), 1000, 1000);
    m.unregister_app_instance(key("dev", "a"), "h:1".to_string());
    assert_eq!(m.get_app_instance_addrs(&key("dev", "a")), vec!["h:2".to_string()]);
    m.unregister_app_instance(key("dev", "zzz"), "h:2".to_string());
    assert_eq!(m.get_all_instances().len(), 1);
}

#[test]
fn time_outs_retire_only_silent_instances() {
    let mut m = AppManager::new();
    m.register_app_instance(key("dev", "a"), "old:1".to_string(), 1000, 1000);
    m.register_app_instance(key("dev", "a"), "new:1".to_string(), 1100, 1100);
    assert!(m.check_instance_timeout(1150).is_empty());
    let removed = m.check_instance_timeout(1180);
    assert_eq!(removed, vec![AppInstanceKey::new("a".to_string(), "dev".to_string(), "old:1".to_string())]);
    assert_eq!(m.get_app_instance_addrs(&key("dev", "a")), vec!["new:1".to_string()]);
    m.register_app_instance(key("dev", "a"), "new:1".to_string(), 1300, 1300);
    assert!(m.check_instance_timeout(1280).is_empty());
    assert_eq!(m.get_app_instance_addrs(&key("dev", "a")), vec!["new:1".to_string()]);
}

#[test]
fn load_completed_schedules_every_instance() {
    let mut m = AppManager::new();
    m.update_app(param("dev", "a", Some(vec!["x:1", "y:1"]), 100));
    m.update_app(param("dev", "b", Some(vec!["z:1"]), 500));
    let (removed, added) = m.load_completed(600);
    assert_eq!(added.len(), 1);
    assert_eq!(added[0].addr, "z:1");
    assert_eq!(removed.len(), 2);
    assert_eq!(m.get_all_instances().len(), 1);
}

#[test]
fn query_page_info_skips_forgotten_apps() {
    let mut m = AppManager::new();
    m.update_app(param("dev", "a", None, 0));
    m.update_app(param("dev", "b", None, 0));
    m.update_app(param("prod", "c", None, 0));
    m.remove_app(&key("dev", "a"));
    let q = AppQueryParam { namespace: Some("dev".to_string()), offset: 0, limit: 10, ..Default::default() };
    let (total, list) = m.query_page_info(&q);
    assert_eq!(total, 2);
    assert_eq!(list.len(), 1);
    assert_eq!(list[0].app_name, "b");
}

#[test]
fn update_app_info_keeps_instances() {
    let mut m = AppManager::new();
    m.update_app(param("dev", "a", Some(vec!["x:1"]), 100));
    let info = AppInfo::new("a".to_string(), "dev".to_string(), "lbl".to_string(), RegisterType::Manual, false);
    m.update_app_info(info);
    let dto = m.get_app_info(&key("dev", "a"), true).unwrap();
    assert_eq!(dto.label, "lbl");
    assert_eq!(dto.instance_addrs.unwrap().len(), 1);
}

#[test]
fn route_and_handle_requests() {
    let mut m = AppManager::new();
    let reg = AppInstanceParam { app_key: key("dev", "a"), instance_addr: "h:1".to_string(), last_modified_time: 500 };
    let (resp, notice) = m.app_route_request(AppRouteRequest::RegisterInstance(reg), 500);
    assert!(matches!(resp, AppRouteResponse::Empty));
    assert!(matches!(notice, Some(InstanceNotice::AddAppInstance(_, _))));
    let (resp, _) = m.app_route_request(AppRouteRequest::GetAllInstanceAddrs, 500);
    match resp {
        AppRouteResponse::AllInstanceAddrs(list) => assert_eq!(list.len(), 1),
        other => panic!("unexpected {:?}", other),
    }
    match m.handle(AppManagerReq::GetAppInstanceAddrs(key("dev", "a")), 500).0 {
        AppManagerResult::AppInstanceAddrs(addrs) => assert_eq!(addrs, vec!["h:1".to_string()]),
        other => panic!("unexpected {:?}", other),
    }
    let (_, notice) = m.handle_raft(AppManagerRaftReq::RemoveApp(key("dev", "a")), 500);
    assert!(notice.is_none());
    assert!(m.get_app_info(&key("dev", "a"), false).is_none());
}
