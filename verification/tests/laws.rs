use ratchjob::app_manager::AppManager;
use ratchjob::app_model::{AppKey, AppParam};
use ratchjob::job_manager::JobManager;
use ratchjob::job_model::JobParam;
use ratchjob::namespace::{NamespaceManager, NamespaceParam};

fn ids(m: &NamespaceManager) -> Vec<String> {
    m.query_list().iter().map(|i| i.id.clone()).collect()
}

#[test]
fn namespace_remove_undoes_create() {
    let mut m = NamespaceManager::new();
    let before = ids(&m);
    m.update_namespace(NamespaceParam { id: Some("n".to_string()), name: "N".to_string(), ns_type: "0".to_string() }, false).unwrap();
    assert_eq!(ids(&m).len(), before.len() + 1);
    m.remove_namespace(&"n".to_string()).unwrap();
    assert_eq!(ids(&m), before);
}

#[test]
fn app_remove_undoes_update() {
    let mut m = AppManager::new();
    let key = AppKey::new("a".to_string(), "dev".to_string());
    m.update_app(AppParam {
        app_name: "a".to_string(),
        namespace: "dev".to_string(),
        label: None,
        register_type: None,
        instance_addrs: Some(vec!["h:1".to_string()]),
        last_modified_time: 5,
    });
    assert!(m.get_app_info(&key, false).is_some());
    m.remove_app(&key);
    assert!(m.get_app_info(&key, false).is_none());
    assert!(m.get_all_instances().is_empty());
}

#[test]
fn counts_for_metrics() {
    let mut jobs = JobManager::new();
    for (id, enable) in [(1u64, true), (2, false), (3, true)] {
        jobs.create_job(
            JobParam {
                id: Some(id),
                enable: Some(enable),
                app_name: Some("a".to_string()),
                namespace: Some("dev".to_string()),
                handle_name: Some("h".to_string()),
                ..Default::default()
            },
            1,
        )
        .unwrap();
    }
    assert_eq!(jobs.get_all_enable_size(), 2);
    let mut apps = AppManager::new();
    apps.update_app(AppParam {
        app_name: "a".to_string(),
        namespace: "dev".to_string(),
        label: None,
        register_type: None,
        instance_addrs: Some(vec!["h:1".to_string(), "h:2".to_string()]),
        last_modified_time: 5,
    });
    apps.register_app_instance(AppKey::new("b".to_string(), "dev".to_string()), "h:3".to_string(), 1000, 1000);
    assert_eq!(apps.get_app_instance_all_count(), 3);
}
