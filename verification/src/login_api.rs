//! The console login: the captcha check, the answer to the user check, and the
//! session a successful login opens.
use crate::common_model::{refused_with, ApiResult, UserSession};
use std::collections::HashMap;
use vstd::prelude::*;
use vstd::string::StringExecFns;

verus! {

/// The text `str::to_uppercase` makes of some characters.
pub uninterp spec fn upper_of(s: Seq<char>) -> Seq<char>;

/// `str::to_uppercase`: the text upper-cased, named `upper_of`. Unicode case
/// mapping depends on the characters alone; which mapping is not stated here.
#[verifier::external_body]
fn to_uppercase(s: &str) -> (r: String)
    ensures
        r@ == upper_of(s@),
{
    s.to_uppercase()
}

/// The outcome of the captcha check of a login.
#[derive(Debug, PartialEq, Eq, Clone, Copy)]
pub enum CaptchaCheck {
    /// No captcha token came with the login.
    TokenEmpty,
    /// The code given is not the one cached for the token.
    Mismatch,
    /// The login may go on.
    Pass,
}

/// The key the captcha code of a token is cached under: `Captcha_` and the token.
pub fn captcha_cache_key(captcha_token: &str) -> (r: String)
    ensures
        r@ == "Captcha_"@ + captcha_token@,
{
    let mut key = "Captcha_".to_owned();
    key.append(captcha_token);
    key
}

/// The code given, or empty where none is.
pub open spec fn given_code(captcha: Option<String>) -> Seq<char> {
    match captcha {
        Some(c) => c@,
        None => Seq::empty(),
    }
}

/// The captcha check of a login: nothing to check where captchas are off; a
/// login with no captcha token is refused; otherwise the code given, upper-cased,
/// must equal the code cached for the token (`cached`, none where nothing is
/// cached or the cache did not answer).
pub fn check_login_captcha(
    enabled: bool,
    captcha_token: &str,
    captcha: Option<String>,
    cached: Option<String>,
) -> (r: CaptchaCheck)
    ensures
        !enabled ==> r == CaptchaCheck::Pass,
        enabled && captcha_token@.len() == 0 ==> r == CaptchaCheck::TokenEmpty,
        enabled && captcha_token@.len() > 0 ==> (r == CaptchaCheck::Pass <==> (cached is Some
            && cached->0@ == upper_of(given_code(captcha)))),
        enabled && captcha_token@.len() > 0 ==> r != CaptchaCheck::TokenEmpty,
{
    if !enabled {
        return CaptchaCheck::Pass;
    }
    if captcha_token.is_empty() {
        return CaptchaCheck::TokenEmpty;
    }
    let code = match captcha {
        Some(c) => c,
        None => String::new(),
    };
    proof {
        reveal_strlit("");
    }
    let upper = to_uppercase(code.as_str());
    match cached {
        Some(v) => {
            if crate::text::str_eq(upper.as_str(), v.as_str()) {
                CaptchaCheck::Pass
            } else {
                CaptchaCheck::Mismatch
            }
        },
        None => CaptchaCheck::Mismatch,
    }
}

impl CaptchaCheck {
    /// The answer to a login refused by its captcha check; none where it passed.
    pub fn refusal(&self) -> (r: Option<ApiResult<()>>)
        ensures
            *self == CaptchaCheck::Pass ==> r is None,
            *self == CaptchaCheck::TokenEmpty ==> refused_with(
                r,
                "CAPTCHA_CHECK_ERROR"@,
                Some("captcha token is empty"@),
            ),
            *self == CaptchaCheck::Mismatch ==> refused_with(
                r,
                "CAPTCHA_CHECK_ERROR"@,
                Some("CAPTCHA_CHECK_ERROR"@),
            ),
    {
        match self {
            CaptchaCheck::Pass => None,
            CaptchaCheck::TokenEmpty => Some(
                ApiResult::error(
                    "CAPTCHA_CHECK_ERROR".to_owned(),
                    Some("captcha token is empty".to_owned()),
                ),
            ),
            CaptchaCheck::Mismatch => Some(
                ApiResult::error(
                    "CAPTCHA_CHECK_ERROR".to_owned(),
                    Some("CAPTCHA_CHECK_ERROR".to_owned()),
                ),
            ),
        }
    }
}

/// What a login does once its captcha was checked.
#[derive(Debug)]
pub enum LoginStep {
    /// Answer at once: the login is refused.
    Answer(ApiResult<()>),
    /// Go on: decode the password and ask the user store.
    CheckUser,
}

/// The login flow after the captcha check: the user store is asked only where
/// the check passed; otherwise the login is answered with the check's refusal.
pub fn login_after_captcha(check: CaptchaCheck) -> (r: LoginStep)
    ensures
        check == CaptchaCheck::Pass <==> r is CheckUser,
        check == CaptchaCheck::TokenEmpty ==> (r matches LoginStep::Answer(a) && refused_with(
            Some(a),
            "CAPTCHA_CHECK_ERROR"@,
            Some("captcha token is empty"@),
        )),
        check == CaptchaCheck::Mismatch ==> (r matches LoginStep::Answer(a) && refused_with(
            Some(a),
            "CAPTCHA_CHECK_ERROR"@,
            Some("CAPTCHA_CHECK_ERROR"@),
        )),
{
    match check.refusal() {
        Some(a) => LoginStep::Answer(a),
        None => LoginStep::CheckUser,
    }
}

/// The user a login names, as the user store gives it back.
#[derive(Debug, Default)]
pub struct LoginUser {
    pub username: String,
    pub nickname: String,
    pub roles: Vec<String>,
    pub extend_info: HashMap<String, String>,
}

/// The outcome of a login once its password was checked.
#[derive(Debug)]
pub enum LoginCheck {
    /// The password is right: the session to open.
    Session(UserSession),
    /// The user is unknown or the password wrong.
    UserCheckError,
    /// The user store did not answer.
    SystemError,
}

/// What a login comes to, given the user store's answer (`None` where it did
/// not answer; else whether the password is right, and the user) and the time
/// `now` (seconds): a session with the user's name, nickname, roles and extra
/// information, refreshed `now`; or the error.
pub fn login_result(check: Option<(bool, LoginUser)>, now: i32) -> (r: LoginCheck)
    ensures
        match check {
            None => r is SystemError,
            Some((valid, user)) => if valid {
                r matches LoginCheck::Session(s) && s.username == user.username && s.nickname
                    == user.nickname && s.roles == user.roles && s.extend_infos == user.extend_info
                    && s.refresh_time == now as u32
            } else {
                r is UserCheckError
            },
        },
{
    match check {
        None => LoginCheck::SystemError,
        Some((valid, user)) => {
            if valid {
                let refresh_time = #[verifier::truncate] (now as u32);
                LoginCheck::Session(
                    UserSession {
                        username: user.username,
                        nickname: user.nickname,
                        roles: user.roles,
                        extend_infos: user.extend_info,
                        refresh_time,
                    },
                )
            } else {
                LoginCheck::UserCheckError
            }
        },
    }
}

impl LoginCheck {
    /// The answer to a refused login: `USER_CHECK_ERROR` or `SYSTEM_ERROR`, with
    /// no message; none where a session opens.
    pub fn refusal(&self) -> (r: Option<ApiResult<()>>)
        ensures
            *self is Session ==> r is None,
            *self is UserCheckError ==> refused_with(r, "USER_CHECK_ERROR"@, None),
            *self is SystemError ==> refused_with(r, "SYSTEM_ERROR"@, None),
    {
        match self {
            LoginCheck::Session(_) => None,
            LoginCheck::UserCheckError => Some(ApiResult::error("USER_CHECK_ERROR".to_owned(), None)),
            LoginCheck::SystemError => Some(ApiResult::error("SYSTEM_ERROR".to_owned(), None)),
        }
    }
}

} // verus!
