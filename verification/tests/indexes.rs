use ratchjob::app_index::{AppIndex, AppQueryParam};
use ratchjob::cron_utils::{next_time_answer, CronError, CronUtil};
use ratchjob::datetime::{now_millis, now_millis_i64, now_second_i32, now_second_u32};
use ratchjob::job_index::{JobIndex, JobIndexInfo, JobQueryParam};
use ratchjob::text::{str_compare, str_contains, str_eq, Compared};

fn info(id: u64, d: &str, h: &str) -> JobIndexInfo {
    JobIndexInfo { job_id: id, description: d.to_string(), handle_name: h.to_string() }
}

#[test]
fn app_index_counts_and_pages() {
    let mut idx = AppIndex::new();
    assert!(idx.insert("ns1".to_string(), "b".to_string()));
    assert!(idx.insert("ns1".to_string(), "a".to_string()));
    assert!(idx.insert("ns2".to_string(), "a".to_string()));
    assert!(!idx.insert("ns1".to_string(), "a".to_string()));
    assert_eq!(idx.get_item_count(), 3);
    assert_eq!(idx.get_namespace_count(), 2);
    let q = AppQueryParam { namespace: Some("ns1".to_string()), offset: 0, limit: 10, ..Default::default() };
    let (n, keys) = idx.query(&q);
    assert_eq!(n, 2);
    let names: Vec<String> = keys.iter().map(|k| k.app_name.clone()).collect();
    assert_eq!(names, vec!["a".to_string(), "b".to_string()]);
    let q = AppQueryParam { offset: 1, limit: 1, ..Default::default() };
    let (n, keys) = idx.query(&q);
    assert_eq!(n, 3);
    assert_eq!(keys[0].app_name, "b");
    assert!(q.match_namespace(&"any".to_string()));
    assert_eq!(idx.remove(&"ns2".to_string(), &"a".to_string()), (true, 1));
    assert_eq!(idx.remove(&"ns2".to_string(), &"a".to_string()), (false, 1));
}

#[test]
fn job_index_counts_and_filters() {
    let mut idx = JobIndex::new();
    assert!(idx.insert("ns".to_string(), "app1".to_string(), info(2, "daily report", "report")));
    assert!(idx.insert("ns".to_string(), "app1".to_string(), info(1, "cleanup", "clean")));
    assert!(idx.insert("ns".to_string(), "app2".to_string(), info(3, "weekly report", "report")));
    assert!(idx.insert("other".to_string(), "app1".to_string(), info(4, "x", "y")));
    assert_eq!(idx.get_item_count(), 4);
    assert_eq!(idx.get_app_count(), 3);
    assert_eq!(idx.get_namespace_count(), 2);
    let q = JobQueryParam { like_description: Some("report".to_string()), offset: 0, limit: 10, ..Default::default() };
    let (n, list) = idx.query(&q);
    assert_eq!(n, 2);
    let ids: Vec<u64> = list.iter().map(|i| i.job_id).collect();
    assert_eq!(ids, vec![2, 3]);
    assert!(idx.remove(&"ns".to_string(), &"app1".to_string(), 1));
    assert!(!idx.remove(&"ns".to_string(), &"app1".to_string(), 1));
    assert_eq!(idx.get_item_count(), 3);
    assert!(q.match_description(&"a report here".to_string()));
    assert!(q.match_handle_name(&"".to_string()));
}

#[test]
fn text_helpers() {
    assert_eq!(str_compare("a", "b"), Compared::Less);
    assert_eq!(str_compare("b", "a"), Compared::Greater);
    assert_eq!(str_compare("ab", "a"), Compared::Greater);
    assert_eq!(str_compare("", ""), Compared::Equal);
    assert!(str_eq("x", "x"));
    assert!(!str_eq("x", "xy"));
    assert!(str_contains("hello", "ll"));
    assert!(str_contains("hello", ""));
    assert!(!str_contains("hello", "lo!"));
}

#[test]
fn clock_reads() {
    let a = now_millis();
    let b = now_millis_i64();
    assert!(a > 1_600_000_000_000);
    assert!(b >= a as i64);
    assert!(now_second_u32() > 1_600_000_000);
    assert!(now_second_i32() > 1_600_000_000);
}

#[test]
fn cron_expressions() {
    assert!(CronUtil::check_cron_valid("* * * * * *"));
    assert!(CronUtil::check_cron_valid("0 0 12 * * Mon"));
    assert!(!CronUtil::check_cron_valid("60 * * * * *"));
    assert!(!CronUtil::check_cron_valid(""));
}

#[test]
fn app_index_counts_follow_what_is_held() {
    let mut idx = AppIndex::new();
    assert!(idx.insert("ns1".to_string(), "a".to_string()));
    assert!(idx.insert("ns1".to_string(), "b".to_string()));
    assert!(!idx.insert("ns1".to_string(), "a".to_string()));
    assert!(idx.insert("ns2".to_string(), "c".to_string()));
    assert_eq!(idx.get_item_count(), 3);
    assert_eq!(idx.get_namespace_count(), 2);
    let all = AppQueryParam { limit: 100, ..AppQueryParam::default() };
    assert_eq!(idx.query(&all).0, 3);
    assert_eq!(idx.remove(&"ns2".to_string(), &"c".to_string()), (true, 1));
    assert_eq!(idx.remove(&"ns2".to_string(), &"c".to_string()), (false, 1));
    assert_eq!(idx.get_item_count(), 2);
    assert_eq!(idx.query(&all).0, 2);
}

#[test]
fn job_index_counts_follow_what_is_held() {
    let mut idx = JobIndex::new();
    assert!(idx.insert("ns".to_string(), "a".to_string(), info(1, "x", "h")));
    assert!(idx.insert("ns".to_string(), "a".to_string(), info(2, "y", "h")));
    assert!(!idx.insert("ns".to_string(), "a".to_string(), info(1, "z", "h")));
    assert!(idx.insert("ns2".to_string(), "b".to_string(), info(1, "w", "h")));
    assert_eq!(idx.get_item_count(), 3);
    assert_eq!(idx.get_app_count(), 2);
    assert_eq!(idx.get_namespace_count(), 2);
    let all = JobQueryParam { limit: 100, ..JobQueryParam::default() };
    assert_eq!(idx.query(&all).0, 3);
    assert!(idx.remove(&"ns2".to_string(), &"b".to_string(), 1));
    assert!(!idx.remove(&"ns2".to_string(), &"b".to_string(), 1));
    assert_eq!(idx.get_item_count(), 2);
    assert_eq!(idx.get_app_count(), 1);
    assert_eq!(idx.get_namespace_count(), 1);
}

#[test]
fn test_cron_util() {
    let cron_value = "* * * * * *";
    let now_seconds = now_second_u32();
    let next_time = CronUtil::next_cron_time_by_timestamp(cron_value, 8 * 3600, now_seconds).unwrap();
    assert_eq!(next_time, now_seconds + 1);
    let next_time2 = CronUtil::next_cron_time_by_timestamp(cron_value, 8 * 3600, next_time).unwrap();
    assert_eq!(next_time2, next_time + 1);
}

#[test]
fn cron_next_times_in_a_time_zone() {
    assert_eq!(CronUtil::next_cron_time("0 0 * * * *", 0, 1700000000), Ok(1700002800));
    assert_eq!(CronUtil::next_cron_time("0 0 0 * * *", 8 * 3600, 1700000000), Ok(1700064000));
    assert_eq!(CronUtil::next_cron_time("0 0 0 * * *", 0, 1700000000), Ok(1700006400));
    assert_eq!(CronUtil::next_cron_time("60 * * * * *", 0, 1700000000), Err(CronError::InvalidExpression));
    assert_eq!(CronUtil::next_cron_time("0 0 0 1 1 * 2000", 0, 1700000000), Err(CronError::NoNextTime));
}

#[test]
fn next_time_answers() {
    assert_eq!(next_time_answer(Some(1700002800)), Ok(1700002800));
    assert_eq!(next_time_answer(Some((1i64 << 32) + 7)), Ok(7));
    assert_eq!(next_time_answer(None), Err(CronError::NoNextTime));
}
