use ratchjob::login_middle::{
    form_urlencode, is_api_path, is_check_path, is_static_file_path, login_outcome, session_refresh,
    LoginOutcome, SessionRefresh,
};

#[test]
fn paths_that_need_no_login() {
    assert!(!is_check_path("/ratchjob/p/login"));
    assert!(!is_check_path("/ratchjob/404"));
    assert!(!is_check_path("/ratchjob/api/console/v1/login/login"));
    assert!(!is_check_path("/ratchjob/api/console/v1/login/captcha"));
    assert!(!is_check_path("/ratchjob/assets/app.JS"));
    assert!(!is_check_path("/x/photo.jpeg"));
    assert!(is_check_path("/ratchjob/api/console/v1/app/list"));
    assert!(is_check_path("/p/login"));
}

#[test]
fn static_files_and_api_paths() {
    assert!(is_static_file_path("/a/b.Css"));
    assert!(is_static_file_path("/a/b.jsx"));
    assert!(is_static_file_path("/a/b.j\u{17F}"));
    assert!(!is_static_file_path("/a/bjs"));
    assert!(!is_static_file_path("/a/b.txt"));
    assert!(is_api_path("/ratchjob/API/x"));
    assert!(!is_api_path("/ratchjob/p/app"));
    assert!(!is_api_path("/api"));
}

#[test]
fn form_encoding() {
    assert_eq!(form_urlencode("a b/é*-._~"), "a+b%2F%C3%A9*-._%7E");
    assert_eq!(form_urlencode(""), "");
}

#[test]
fn outcomes_without_login() {
    assert_eq!(
        login_outcome("/ratchjob/p/app", "a=1 b", "", None),
        LoginOutcome::Redirect("/ratchjob/p/login?redirect_url=%2Fratchjob%2Fp%2Fapp%3Fa%3D1+b".to_string())
    );
    assert_eq!(
        login_outcome("/ratchjob/p/app", "", "tok", None),
        LoginOutcome::Redirect("/ratchjob/p/login?redirect_url=%2Fratchjob%2Fp%2Fapp".to_string())
    );
    assert_eq!(login_outcome("/p/login", "", "", None), LoginOutcome::Redirect("/p/login?".to_string()));
    assert_eq!(login_outcome("/ratchjob/api/console/v1/app/list", "", "", Some(true)), LoginOutcome::NoLogin);
    assert_eq!(login_outcome("/ratchjob/p/login", "", "", None), LoginOutcome::Forward);
}

#[test]
fn outcomes_with_login() {
    assert_eq!(login_outcome("/ratchjob/p/app", "", "tok", Some(true)), LoginOutcome::Forward);
    assert_eq!(
        login_outcome("/ratchjob/p/app", "", "tok", Some(false)),
        LoginOutcome::Redirect("/ratchjob/nopermission?path=/ratchjob/p/app".to_string())
    );
    assert_eq!(
        login_outcome("/ratchjob/api/console/v1/app/list", "", "tok", Some(false)),
        LoginOutcome::NoPermission
    );
}

#[test]
fn session_refresh_rules() {
    assert_eq!(session_refresh(100, 98, Some(i64::MAX)), SessionRefresh::Keep);
    assert_eq!(session_refresh(200, 100, None), SessionRefresh::Keep);
    assert_eq!(session_refresh(200, 100, Some(50_000)), SessionRefresh::Keep);
    assert_eq!(session_refresh(200, 100, Some(150_000)), SessionRefresh::Rebuild { ttl: 100 });
    assert_eq!(session_refresh(105, 100, Some(1_000_000)), SessionRefresh::Rebuild { ttl: 10 });
}
