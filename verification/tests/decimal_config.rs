use ratchjob::app_config::{configured_api_port, str_eq_ignore_ascii_case, AppConfig, EnvSettings};
use ratchjob::decimal::{
    parse_bool, parse_i32, parse_u16, parse_u32, parse_u64, parse_unsigned, parse_usize, to_decimal,
};

#[test]
fn parse_unsigned_like_std() {
    assert_eq!(parse_u16("8725"), Some(8725));
    assert_eq!(parse_u16("+80"), Some(80));
    assert_eq!(parse_u16("65535"), Some(65535));
    assert_eq!(parse_u16("65536"), None);
    assert_eq!(parse_u16(""), None);
    assert_eq!(parse_u16("+"), None);
    assert_eq!(parse_u16("-1"), None);
    assert_eq!(parse_u16(" 1"), None);
    assert_eq!(parse_u16("1a"), None);
    assert_eq!(parse_u16("007"), Some(7));
    assert_eq!(parse_u32("4294967295"), Some(u32::MAX));
    assert_eq!(parse_u32("4294967296"), None);
    assert_eq!(parse_u64("18446744073709551615"), Some(u64::MAX));
    assert_eq!(parse_u64("18446744073709551616"), None);
    assert_eq!(parse_usize("12"), Some(12));
    assert_eq!(parse_unsigned("9", 8), None);
    for s in ["0", "42", "+9", "x", "", "99999", "٣"] {
        assert_eq!(parse_u16(s), s.parse::<u16>().ok(), "input {:?}", s);
        assert_eq!(parse_u64(s), s.parse::<u64>().ok(), "input {:?}", s);
    }
}

#[test]
fn parse_signed_and_bool() {
    assert_eq!(parse_i32("-8"), Some(-8));
    assert_eq!(parse_i32("+8"), Some(8));
    assert_eq!(parse_i32("-2147483648"), Some(i32::MIN));
    assert_eq!(parse_i32("2147483647"), Some(i32::MAX));
    assert_eq!(parse_i32("2147483648"), None);
    assert_eq!(parse_i32("-"), None);
    assert_eq!(parse_bool("true"), Some(true));
    assert_eq!(parse_bool("false"), Some(false));
    assert_eq!(parse_bool("True"), None);
    for s in ["-0", "-", "12", "-2147483649", "abc"] {
        assert_eq!(parse_i32(s), s.parse::<i32>().ok(), "input {:?}", s);
    }
}

#[test]
fn decimal_numerals() {
    assert_eq!(to_decimal(0), "0");
    assert_eq!(to_decimal(8925), "8925");
    assert_eq!(to_decimal(u64::MAX), u64::MAX.to_string());
    for n in [1u64, 9, 10, 99, 100, 65535] {
        assert_eq!(parse_u64(&to_decimal(n)), Some(n));
    }
}

#[test]
fn ignore_ascii_case() {
    assert!(str_eq_ignore_ascii_case("TRUE", "true"));
    assert!(str_eq_ignore_ascii_case("tRuE", "true"));
    assert!(!str_eq_ignore_ascii_case("tru", "true"));
    assert!(!str_eq_ignore_ascii_case("trüe", "true"));
}

#[test]
fn config_defaults() {
    let c = AppConfig::from_env(EnvSettings::default());
    assert!(!c.run_in_docker);
    assert_eq!(c.local_db_dir, "ratch_db");
    assert_eq!(c.http_api_port, 8725);
    assert_eq!(c.http_console_port, 8825);
    assert_eq!(c.grpc_cluster_port, 8925);
    assert_eq!(c.xxl_job_prefix_path, "/xxl-job-admin");
    assert_eq!(c.xxl_default_access_token, "default_token");
    assert_eq!(c.app_instance_health_timeout, 90);
    assert_eq!(c.http_workers, None);
    assert_eq!(c.gmt_fixed_offset_hours, None);
    assert_eq!(c.raft_node_id, 1);
    assert_eq!(c.raft_node_addr, "127.0.0.1:8925");
    assert!(c.raft_auto_init);
    assert_eq!(c.raft_join_addr, "");
    assert_eq!(c.raft_snapshot_log_size, 10000);
    assert_eq!(c.cluster_token, "");
    assert!(c.metrics_enable);
    assert!(!c.metrics_log_enable);
    assert_eq!(c.metrics_log_interval_second, 60);
    assert_eq!(c.metrics_collect_interval_second, 15);
    assert_eq!(c.get_http_api_addr(), "0.0.0.0:8725");
    assert_eq!(c.get_http_console_addr(), "0.0.0.0:8825");
    assert_eq!(c.get_grpc_cluster_addr(), "0.0.0.0:8925");
}

#[test]
fn config_from_values() {
    let env = EnvSettings {
        run_in_docker: Some("True".to_string()),
        home_data_dir: Some("/home/u/.local/share/ratchjob/ratch_db".to_string()),
        xxl_job_prefix_path: Some("/".to_string()),
        http_api_port: Some("9000".to_string()),
        http_console_port: Some("bad".to_string()),
        grpc_cluster_port: Some("7000".to_string()),
        http_workers: Some("4".to_string()),
        gmt_offset_hours: Some("-5".to_string()),
        raft_node_id: Some("3".to_string()),
        raft_auto_init: Some("yes".to_string()),
        metrics_log_interval_second: Some("2".to_string()),
        metrics_collect_interval_second: Some("30".to_string()),
        ..Default::default()
    };
    let c = AppConfig::from_env(env);
    assert!(c.run_in_docker);
    assert_eq!(c.local_db_dir, "ratch_db");
    assert_eq!(c.xxl_job_prefix_path, "/xxl-job-admin");
    assert_eq!(c.http_api_port, 9000);
    assert_eq!(c.http_console_port, 9100);
    assert_eq!(c.grpc_cluster_port, 7000);
    assert_eq!(c.http_workers, Some(4));
    assert_eq!(c.gmt_fixed_offset_hours, Some(-5));
    assert_eq!(c.raft_node_addr, "127.0.0.1:7000");
    assert!(!c.raft_auto_init);
    assert_eq!(c.metrics_log_interval_second, 5);
    assert_eq!(c.metrics_collect_interval_second, 5);
    let env = EnvSettings {
        home_data_dir: Some("/h/db".to_string()),
        xxl_job_prefix_path: Some("/job".to_string()),
        ..Default::default()
    };
    let c = AppConfig::from_env(env);
    assert_eq!(c.local_db_dir, "/h/db");
    assert_eq!(c.xxl_job_prefix_path, "/job");
    let env = EnvSettings { data_dir: Some("/data".to_string()), run_in_docker: Some("true".to_string()), ..Default::default() };
    assert_eq!(AppConfig::from_env(env).local_db_dir, "/data");
}

#[test]
fn console_and_task_settings() {
    let c = AppConfig::from_env(EnvSettings::default());
    assert_eq!(c.task_request_parallel, 20);
    assert!(c.console_captcha_enable);
    assert_eq!(c.console_login_timeout, 86400);
    assert_eq!(c.init_admin_username, "admin");
    assert_eq!(c.init_admin_password, "admin");
    let env = EnvSettings {
        task_request_parallel: Some("50".to_string()),
        console_captcha_enable: Some("false".to_string()),
        console_login_timeout: Some("-1".to_string()),
        init_admin_username: Some("root".to_string()),
        init_admin_password: Some("pw".to_string()),
        ..Default::default()
    };
    let c = AppConfig::from_env(env);
    assert_eq!(c.task_request_parallel, 50);
    assert!(!c.console_captcha_enable);
    assert_eq!(c.console_login_timeout, -1);
    assert_eq!(c.init_admin_username, "root");
    assert_eq!(c.init_admin_password, "pw");
}

#[test]
fn api_port_from_settings() {
    let mut env = EnvSettings::default();
    assert_eq!(configured_api_port(&env), 8725);
    env.http_api_port = Some("9000".to_string());
    assert_eq!(configured_api_port(&env), 9000);
    env.http_api_port = Some("70000".to_string());
    assert_eq!(configured_api_port(&env), 8725);
}
