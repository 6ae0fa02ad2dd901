use ratchjob::datetime::{
    get_now_timestamp_str, millis_to_i64, millis_to_u64, seconds_to_i32, seconds_to_u32,
    timestamp_str_at,
};
use ratchjob::login_api::{
    captcha_cache_key, check_login_captcha, login_result, CaptchaCheck, LoginCheck, LoginUser,
};
use std::collections::HashMap;

#[test]
fn captcha_off_lets_every_login_through() {
    assert_eq!(check_login_captcha(false, "", None, None), CaptchaCheck::Pass);
    assert_eq!(
        check_login_captcha(false, "t1", Some("zz".to_owned()), Some("AB".to_owned())),
        CaptchaCheck::Pass
    );
}

#[test]
fn captcha_token_must_be_given() {
    let r = check_login_captcha(true, "", Some("ab".to_owned()), Some("AB".to_owned()));
    assert_eq!(r, CaptchaCheck::TokenEmpty);
    let answer = r.refusal().unwrap();
    assert!(!answer.success);
    assert_eq!(answer.code.as_deref(), Some("CAPTCHA_CHECK_ERROR"));
    assert_eq!(answer.message.as_deref(), Some("captcha token is empty"));
}

#[test]
fn captcha_code_is_compared_upper_cased() {
    let r = check_login_captcha(true, "t1", Some("aB3x".to_owned()), Some("AB3X".to_owned()));
    assert_eq!(r, CaptchaCheck::Pass);
    assert!(r.refusal().is_none());
}

#[test]
fn captcha_mismatch_and_missing_code() {
    let r = check_login_captcha(true, "t1", Some("ab".to_owned()), Some("AC".to_owned()));
    assert_eq!(r, CaptchaCheck::Mismatch);
    let answer = r.refusal().unwrap();
    assert_eq!(answer.code.as_deref(), Some("CAPTCHA_CHECK_ERROR"));
    assert_eq!(answer.message.as_deref(), Some("CAPTCHA_CHECK_ERROR"));
    assert_eq!(check_login_captcha(true, "t1", Some("ab".to_owned()), None), CaptchaCheck::Mismatch);
    assert_eq!(check_login_captcha(true, "t1", None, Some("AB".to_owned())), CaptchaCheck::Mismatch);
    assert_eq!(check_login_captcha(true, "t1", None, Some(String::new())), CaptchaCheck::Pass);
}

#[test]
fn captcha_cache_key_prefixes_the_token() {
    assert_eq!(captcha_cache_key("abc"), "Captcha_abc");
    assert_eq!(captcha_cache_key(""), "Captcha_");
}

fn admin() -> LoginUser {
    let mut extend_info = HashMap::new();
    extend_info.insert("k".to_owned(), "v".to_owned());
    LoginUser {
        username: "admin".to_owned(),
        nickname: "Admin".to_owned(),
        roles: vec!["0".to_owned()],
        extend_info,
    }
}

#[test]
fn login_with_right_password_opens_a_session() {
    match login_result(Some((true, admin())), 1700000000) {
        LoginCheck::Session(s) => {
            assert_eq!(s.username, "admin");
            assert_eq!(s.nickname, "Admin");
            assert_eq!(s.roles, vec!["0".to_owned()]);
            assert_eq!(s.extend_infos.get("k").map(|v| v.as_str()), Some("v"));
            assert_eq!(s.refresh_time, 1700000000);
        }
        other => panic!("unexpected {:?}", other),
    }
    assert!(login_result(Some((true, admin())), 5).refusal().is_none());
}

#[test]
fn login_refusals() {
    let wrong = login_result(Some((false, admin())), 5);
    assert!(matches!(wrong, LoginCheck::UserCheckError));
    let answer = wrong.refusal().unwrap();
    assert!(!answer.success);
    assert_eq!(answer.code.as_deref(), Some("USER_CHECK_ERROR"));
    assert!(answer.message.is_none());
    let down = login_result(None, 5);
    assert!(matches!(down, LoginCheck::SystemError));
    assert_eq!(down.refusal().unwrap().code.as_deref(), Some("SYSTEM_ERROR"));
}

#[test]
fn clock_readings_are_truncated_to_the_target_width() {
    assert_eq!(millis_to_u64(Some((1u128 << 64) + 5)), 5);
    assert_eq!(millis_to_u64(Some(1234)), 1234);
    assert_eq!(millis_to_u64(None), 0);
    assert_eq!(millis_to_i64(Some(1u128 << 63)), i64::MIN);
    assert_eq!(millis_to_i64(Some(77)), 77);
    assert_eq!(millis_to_i64(None), 0);
    assert_eq!(seconds_to_i32(Some(1u64 << 31)), i32::MIN);
    assert_eq!(seconds_to_i32(Some(1700000000)), 1700000000);
    assert_eq!(seconds_to_i32(None), 0);
    assert_eq!(seconds_to_u32(Some((1u64 << 32) + 9)), 9);
    assert_eq!(seconds_to_u32(None), 0);
}

#[test]
fn timestamps_print_in_the_given_offset() {
    assert_eq!(timestamp_str_at(1700000000123, 8 * 3600), "2023-11-15T06:13:20.123+08:00");
    assert_eq!(timestamp_str_at(1700000000000, 0), "2023-11-14T22:13:20.000+00:00");
    assert_eq!(timestamp_str_at(0, -3600), "1969-12-31T23:00:00.000-01:00");
    assert_eq!(timestamp_str_at(1700000000000, 90000), "");
    let now = get_now_timestamp_str(8 * 3600);
    assert_eq!(now.len(), 29);
    assert!(now.ends_with("+08:00"));
}
