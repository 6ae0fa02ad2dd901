use ratchjob::namespace::{
    Namespace, NamespaceError, NamespaceManager, NamespaceManagerRaftReq, NamespaceManagerRaftResult,
    NamespaceManagerReq, NamespaceManagerResult, NamespaceParam, NamespaceQueryParam,
};
use ratchjob::namespace_api::{
    change_answer, check_create_namespace, check_update_namespace, removal_answer, removal_decision,
    NamespaceAnswer, NamespaceReply,
};

fn param(id: &str, name: &str) -> NamespaceParam {
    NamespaceParam { id: Some(id.to_string()), name: name.to_string(), ns_type: "0".to_string() }
}

#[test]
fn starts_with_default_namespace() {
    let m = NamespaceManager::new();
    let info = m.get_namespace(&"xxl".to_string()).unwrap();
    assert_eq!(info.name, "xxl");
    assert_eq!(info.ns_type, "0");
    assert_eq!(m.query_list().len(), 1);
    assert!(!m.data_load_completed);
}

#[test]
fn update_namespace_refusals() {
    let mut m = NamespaceManager::new();
    assert_eq!(m.update_namespace(NamespaceParam { id: None, name: "n".to_string(), ns_type: "0".to_string() }, false).unwrap_err(), NamespaceError::IdEmpty);
    assert_eq!(m.update_namespace(param("", "n"), false).unwrap_err(), NamespaceError::IdEmpty);
    assert_eq!(m.update_namespace(param("xxl", "n"), false).unwrap_err(), NamespaceError::JumpDefault);
    assert_eq!(m.update_namespace(param("dev", ""), false).unwrap_err(), NamespaceError::NameEmpty);
    assert_eq!(NamespaceError::NotFound.message(), "namespace not found");
}

#[test]
fn create_rename_and_remove() {
    let mut m = NamespaceManager::new();
    let info = m.update_namespace(param("dev", "Dev"), false).unwrap();
    assert_eq!(info.ns_type, "0");
    assert_eq!(m.version, 2);
    let info = m.update_namespace(param("dev", "Develop"), true).unwrap();
    assert_eq!(info.name, "Develop");
    assert_eq!(info.ns_type, "weak");
    assert_eq!(m.version, 2);
    assert_eq!(m.remove_namespace(&"dev".to_string()), Ok(()));
    assert_eq!(m.remove_namespace(&"dev".to_string()), Err(NamespaceError::NotFound));
    assert_eq!(m.remove_namespace(&"xxl".to_string()), Ok(()));
    assert!(m.get_namespace(&"xxl".to_string()).is_some());
}

#[test]
fn weak_namespaces() {
    let mut m = NamespaceManager::new();
    m.set_weak("tmp".to_string());
    assert_eq!(m.get_namespace(&"tmp".to_string()).unwrap().ns_type, "weak");
    m.update_namespace(param("keep", "Keep"), false).unwrap();
    m.set_weak("keep".to_string());
    assert_eq!(m.get_namespace(&"keep".to_string()).unwrap().ns_type, "0");
    m.remove_weak(&"keep".to_string());
    assert!(m.get_namespace(&"keep".to_string()).is_some());
    m.remove_weak(&"tmp".to_string());
    assert!(m.get_namespace(&"tmp".to_string()).is_none());
}

#[test]
fn page_query_and_snapshot() {
    let mut m = NamespaceManager::new();
    for id in ["a", "b", "c", "d"] {
        m.update_namespace(param(id, id), false).unwrap();
    }
    m.set_weak("w".to_string());
    let q = NamespaceQueryParam { page: Some(2), page_size: Some(2), ns_type: Some("0".to_string()) };
    let (total, list) = m.query_namespace_page(&q);
    assert_eq!(total, 5);
    let ids: Vec<String> = list.iter().map(|i| i.id.clone()).collect();
    assert_eq!(ids, vec!["c".to_string(), "d".to_string()]);
    let q = NamespaceQueryParam { page: Some(0), page_size: None, ns_type: None };
    assert_eq!(m.query_namespace_page(&q).1.len(), 6);
    let kept: Vec<String> = m.snapshot_namespaces().iter().map(|n| n.id.clone()).collect();
    assert_eq!(kept, vec!["a", "b", "c", "d"]);
    m.load_namespace(Namespace { id: "z".to_string(), name: "Z".to_string(), ns_type: "0".to_string() });
    assert_eq!(m.get_namespace(&"z".to_string()).unwrap().name, "Z");
    m.load_completed();
    assert!(m.data_load_completed);
}

#[test]
fn namespace_handle_requests() {
    let mut m = NamespaceManager::new();
    match m.handle_raft(NamespaceManagerRaftReq::AddNamespace(param("p", "P"))) {
        Ok(NamespaceManagerRaftResult::NamespaceInfo(i)) => assert_eq!(i.id, "p"),
        other => panic!("unexpected {:?}", other),
    }
    assert!(matches!(m.handle_raft(NamespaceManagerRaftReq::UpdateNamespace(param("", "x"))), Ok(NamespaceManagerRaftResult::Empty)));
    assert!(matches!(m.handle_raft(NamespaceManagerRaftReq::Remove("none".to_string())), Err(NamespaceError::NotFound)));
    match m.handle(NamespaceManagerReq::GetNamespace("p".to_string())) {
        NamespaceManagerResult::NamespaceInfo(Some(i)) => assert_eq!(i.name, "P"),
        other => panic!("unexpected {:?}", other),
    }
    match m.handle(NamespaceManagerReq::QueryList) {
        NamespaceManagerResult::NamespaceList(l) => assert_eq!(l.len(), 2),
        other => panic!("unexpected {:?}", other),
    }
}

fn refusal_of(r: Option<ratchjob::common_model::ApiResult<()>>) -> (String, String) {
    let a = r.expect("a refusal");
    assert!(!a.success);
    assert!(a.data.is_none());
    (a.code.unwrap(), a.message.unwrap())
}

#[test]
fn namespace_create_checks() {
    let mut p = param("a", "");
    p.ns_type = String::new();
    assert_eq!(
        refusal_of(check_create_namespace(&p)),
        ("INVALID_PARAMETER".to_string(), "Namespace name cannot be empty".to_string())
    );
    p.name = "A".to_string();
    assert_eq!(
        refusal_of(check_create_namespace(&p)),
        ("INVALID_PARAMETER".to_string(), "Namespace type cannot be empty".to_string())
    );
    p.ns_type = "0".to_string();
    assert!(check_create_namespace(&p).is_none());
}

#[test]
fn namespace_update_checks() {
    let mut p = param("a", "A");
    p.id = None;
    assert_eq!(
        refusal_of(check_update_namespace(&p)),
        ("INVALID_PARAMETER".to_string(), "Namespace id cannot be empty".to_string())
    );
    let mut p = param("a", "");
    assert_eq!(
        refusal_of(check_update_namespace(&p)),
        ("INVALID_PARAMETER".to_string(), "Namespace name cannot be empty".to_string())
    );
    p.name = "A".to_string();
    p.ns_type = String::new();
    assert_eq!(
        refusal_of(check_update_namespace(&p)),
        ("INVALID_PARAMETER".to_string(), "Namespace type cannot be empty".to_string())
    );
    assert!(check_update_namespace(&param("a", "A")).is_none());
}

#[test]
fn namespace_removal_checks() {
    assert_eq!(
        refusal_of(removal_decision("", Some(0))),
        ("INVALID_PARAMETER".to_string(), "Namespace id cannot be empty".to_string())
    );
    assert_eq!(
        refusal_of(removal_decision("dev", Some(12))),
        ("NAMESPACE_HAS_JOBS".to_string(), "Namespace has 12 jobs, cannot delete".to_string())
    );
    assert_eq!(
        refusal_of(removal_decision("dev", None)),
        ("SYSTEM_ERROR".to_string(), "Failed to check namespace dependencies".to_string())
    );
    assert!(removal_decision("dev", Some(0)).is_none());
}

#[test]
fn namespace_change_answers() {
    let ns = ratchjob::namespace::NamespaceInfo {
        id: "dev".to_string(),
        name: "Dev".to_string(),
        ns_type: "0".to_string(),
    };
    let r = change_answer(
        Ok(NamespaceReply::Namespace(NamespaceManagerRaftResult::NamespaceInfo(ns))),
        "CREATE_NAMESPACE_ERROR",
    );
    assert!(r.success);
    match r.data {
        Some(NamespaceAnswer::Info(i)) => {
            assert_eq!(i.namespace_id.as_deref(), Some("dev"));
            assert_eq!(i.namespace_name.as_deref(), Some("Dev"));
            assert_eq!(i.ns_type.as_deref(), Some("0"));
        }
        other => panic!("unexpected {:?}", other),
    }
    let r = change_answer(Ok(NamespaceReply::Namespace(NamespaceManagerRaftResult::Empty)), "X");
    assert!(r.success);
    assert!(matches!(r.data, Some(NamespaceAnswer::Done(true))));
    let r = change_answer(Ok(NamespaceReply::Other), "UPDATE_NAMESPACE_ERROR");
    assert!(!r.success);
    assert_eq!(r.code.as_deref(), Some("UPDATE_NAMESPACE_ERROR"));
    assert_eq!(r.message.as_deref(), Some("Invalid response type"));
    let r = change_answer(Err("timed out".to_string()), "X");
    assert_eq!(r.code.as_deref(), Some("SYSTEM_ERROR"));
    assert_eq!(r.message.as_deref(), Some("timed out"));
}

#[test]
fn namespace_removal_answers() {
    let r = removal_answer(Ok(NamespaceReply::Namespace(NamespaceManagerRaftResult::Empty)));
    assert!(r.success);
    assert!(matches!(r.data, Some(NamespaceAnswer::Done(true))));
    let r = removal_answer(Ok(NamespaceReply::Other));
    assert_eq!(r.code.as_deref(), Some("REMOVE_NAMESPACE_ERROR"));
    assert_eq!(r.message.as_deref(), Some("Invalid response type"));
    let r = removal_answer(Err("down".to_string()));
    assert_eq!(r.code.as_deref(), Some("SYSTEM_ERROR"));
    assert_eq!(r.message.as_deref(), Some("down"));
}
