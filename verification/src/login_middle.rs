//! Which console requests need a login, and what those without one, or without
//! the permission, are answered.
use crate::app_config::ascii_lower;
use crate::http_utils::string_from_utf8;
use crate::text::{chars_of, str_eq};
use vstd::prelude::*;
use vstd::string::StringExecFns;
use vstd::utf8::{
    decode_utf8, encode_utf8, is_leading_byte_width_1, partial_valid_utf8,
    partial_valid_utf8_extend_ascii_block,
};

verus! {

/// The character matches the letter `l` of a case-insensitive pattern: the
/// letter in either ASCII case, or a character that folds to it (`ſ` folds to `s`).
pub open spec fn folds_to(c: char, l: char) -> bool {
    ascii_lower(c) == l || (l == 's' && c == '\u{17F}')
}

/// `w` occurs in `s` at `i`, letters compared without case.
pub open spec fn matches_at(s: Seq<char>, i: int, w: Seq<char>) -> bool {
    &&& 0 <= i
    &&& i + w.len() <= s.len()
    &&& forall|k: int| 0 <= k < w.len() ==> folds_to(#[trigger] s[i + k], w[k])
}

/// The extensions of static files.
pub open spec fn static_extensions() -> Seq<Seq<char>> {
    seq![
        seq!['j', 's'],
        seq!['c', 's', 's'],
        seq!['p', 'n', 'g'],
        seq!['j', 'p', 'g'],
        seq!['j', 'p', 'e', 'g'],
        seq!['b', 'm', 'p'],
        seq!['s', 'v', 'g'],
    ]
}

/// The path names a static file: somewhere a `.` is followed by a static
/// file extension, in any case.
pub open spec fn static_file_path(p: Seq<char>) -> bool {
    exists|i: int, e: int|
        0 <= i < p.len() && p[i] == '.' && 0 <= e < 7 && #[trigger] matches_at(p, i + 1, static_extensions()[e])
}

/// The characters `/api/`.
pub open spec fn api_word() -> Seq<char> {
    seq!['/', 'a', 'p', 'i', '/']
}

/// The path is an API path: it holds `/api/`, in any case.
pub open spec fn api_path(p: Seq<char>) -> bool {
    exists|i: int| #[trigger] matches_at(p, i, api_word())
}

/// The pages and calls open to everyone.
pub open spec fn ignored_path(p: Seq<char>) -> bool {
    ||| p == "/ratchjob/p/login"@
    ||| p == "/ratchjob/404"@
    ||| p == "/ratchjob/api/console/v1/login/login"@
    ||| p == "/ratchjob/api/console/v1/login/captcha"@
}

/// Requests for this path need a login.
pub open spec fn needs_login(p: Seq<char>) -> bool {
    !ignored_path(p) && !static_file_path(p)
}

/// Whether the character matches the pattern letter `l`.
fn char_folds_to(c: char, l: char) -> (r: bool)
    ensures
        r == folds_to(c, l),
{
    let lower = if 'A' <= c && c <= 'Z' {
        ((c as u32) + 32) as u8 as char
    } else {
        c
    };
    lower == l || (l == 's' && c == '\u{17F}')
}

/// Whether `w` occurs in `s` at `i`, letters compared without case.
fn matches_word(s: &Vec<char>, i: usize, w: &Vec<char>) -> (r: bool)
    ensures
        r == matches_at(s@, i as int, w@),
{
    if i > s.len() || w.len() > s.len() - i {
        return false;
    }
    let mut k: usize = 0;
    while k < w.len()
        invariant
            i + w@.len() <= s.len(),
            s.len() == s@.len(),
            k <= w@.len(),
            forall|j: int| 0 <= j < k ==> folds_to(#[trigger] s@[i + j], w@[j]),
        decreases w.len() - k,
    {
        if !char_folds_to(s[i + k], w[k]) {
            return false;
        }
        k = k + 1;
    }
    true
}

/// The extensions of static files, as character lists.
fn static_extension_list() -> (r: Vec<Vec<char>>)
    ensures
        r@.len() == 7,
        forall|e: int| 0 <= e < 7 ==> #[trigger] r@[e]@ == static_extensions()[e],
{
    let r = vec![
        vec!['j', 's'],
        vec!['c', 's', 's'],
        vec!['p', 'n', 'g'],
        vec!['j', 'p', 'g'],
        vec!['j', 'p', 'e', 'g'],
        vec!['b', 'm', 'p'],
        vec!['s', 'v', 'g'],
    ];
    proof {
        assert(r@[0]@ =~= static_extensions()[0]);
        assert(r@[1]@ =~= static_extensions()[1]);
        assert(r@[2]@ =~= static_extensions()[2]);
        assert(r@[3]@ =~= static_extensions()[3]);
        assert(r@[4]@ =~= static_extensions()[4]);
        assert(r@[5]@ =~= static_extensions()[5]);
        assert(r@[6]@ =~= static_extensions()[6]);
    }
    r
}

/// Whether the path names a static file.
pub fn is_static_file_path(path: &str) -> (r: bool)
    ensures
        r == static_file_path(path@),
{
    let cs = chars_of(path);
    let exts = static_extension_list();
    let mut i: usize = 0;
    while i < cs.len()
        invariant
            cs@ == path@,
            i <= cs@.len(),
            exts@.len() == 7,
            forall|e: int| 0 <= e < 7 ==> #[trigger] exts@[e]@ == static_extensions()[e],
            forall|j: int, e: int|
                0 <= j < i && cs@[j] == '.' && 0 <= e < 7 ==> !#[trigger] matches_at(
                    path@,
                    j + 1,
                    static_extensions()[e],
                ),
        decreases cs.len() - i,
    {
        if cs[i] == '.' {
            let mut e: usize = 0;
            while e < 7
                invariant
                    cs@ == path@,
                    i < cs@.len(),
                    cs@.len() == cs.len(),
                    cs@[i as int] == '.',
                    e <= 7,
                    exts@.len() == 7,
                    forall|f: int| 0 <= f < 7 ==> #[trigger] exts@[f]@ == static_extensions()[f],
                    forall|f: int| 0 <= f < e ==> !#[trigger] matches_at(path@, i + 1, static_extensions()[f]),
                decreases 7 - e,
            {
                if matches_word(&cs, i + 1, &exts[e]) {
                    proof {
                        assert(matches_at(path@, i + 1, static_extensions()[e as int]));
                    }
                    return true;
                }
                e = e + 1;
            }
        }
        i = i + 1;
    }
    false
}

/// Whether the path is an API path.
pub fn is_api_path(path: &str) -> (r: bool)
    ensures
        r == api_path(path@),
{
    let cs = chars_of(path);
    let w = vec!['/', 'a', 'p', 'i', '/'];
    proof {
        assert(w@ =~= api_word());
    }
    let mut i: usize = 0;
    while i < cs.len()
        invariant
            cs@ == path@,
            w@ == api_word(),
            i <= cs@.len(),
            forall|j: int| 0 <= j < i ==> !#[trigger] matches_at(path@, j, api_word()),
        decreases cs.len() - i,
    {
        if matches_word(&cs, i, &w) {
            return true;
        }
        i = i + 1;
    }
    proof {
        assert forall|j: int| !#[trigger] matches_at(path@, j, api_word()) by {
            if 0 <= j && j >= cs@.len() {
                assert(j + 5 > path@.len());
            }
        }
    }
    false
}

/// Whether requests for the path need a login: all but the login page and
/// calls, the not-found page, and static files.
pub fn is_check_path(path: &str) -> (r: bool)
    ensures
        r == needs_login(path@),
{
    let ignored = str_eq(path, "/ratchjob/p/login") || str_eq(path, "/ratchjob/404") || str_eq(
        path,
        "/ratchjob/api/console/v1/login/login",
    ) || str_eq(path, "/ratchjob/api/console/v1/login/captcha");
    !ignored && !is_static_file_path(path)
}


/// A byte that `application/x-www-form-urlencoded` keeps as it is: ASCII
/// letters and digits and `*`, `-`, `.`, `_`.
pub open spec fn form_unreserved(b: u8) -> bool {
    ||| b == 42
    ||| b == 45
    ||| b == 46
    ||| b == 95
    ||| 48 <= b <= 57
    ||| 65 <= b <= 90
    ||| 97 <= b <= 122
}

/// The upper-case hexadecimal digit of `n` (below 16), as an ASCII byte.
pub open spec fn hex_upper(n: int) -> u8 {
    if n < 10 {
        (48 + n) as u8
    } else {
        (55 + n) as u8
    }
}

/// How one byte is form-encoded: kept, a space as `+`, any other as `%` and
/// two upper-case hexadecimal digits.
pub open spec fn form_byte(b: u8) -> Seq<u8> {
    if form_unreserved(b) {
        seq![b]
    } else if b == 32 {
        seq![43u8]
    } else {
        seq![37u8, hex_upper((b / 16) as int), hex_upper((b % 16) as int)]
    }
}

/// The form encoding of some bytes, byte by byte.
pub open spec fn form_encoded(bs: Seq<u8>) -> Seq<u8>
    decreases bs.len(),
{
    if bs.len() == 0 {
        Seq::empty()
    } else {
        form_encoded(bs.drop_last()) + form_byte(bs.last())
    }
}

/// The form encoding of a text's UTF-8 bytes, as text.
pub open spec fn form_encoded_text(t: Seq<char>) -> Seq<char> {
    decode_utf8(form_encoded(encode_utf8(t)))
}

fn hex_digit(n: u8) -> (r: u8)
    requires
        n < 16,
    ensures
        r == hex_upper(n as int),
{
    if n < 10 {
        48 + n
    } else {
        55 + n
    }
}

/// Form-encodes a value (`application/x-www-form-urlencoded`).
pub fn form_urlencode(value: &str) -> (r: String)
    ensures
        r@ == form_encoded_text(value@),
{
    let bytes = value.as_bytes();
    let mut out: Vec<u8> = Vec::new();
    let mut i: usize = 0;
    proof {
        assert(bytes@.take(0) =~= Seq::<u8>::empty());
    }
    while i < bytes.len()
        invariant
            i <= bytes@.len(),
            out@ == form_encoded(bytes@.take(i as int)),
            forall|j: int| 0 <= j < out@.len() ==> #[trigger] out@[j] < 128,
        decreases bytes.len() - i,
    {
        let b = bytes[i];
        let ghost before = out@;
        if b == 42 || b == 45 || b == 46 || b == 95 || (48 <= b && b <= 57) || (65 <= b && b <= 90) || (
        97 <= b && b <= 122) {
            out.push(b);
        } else if b == 32 {
            out.push(43);
        } else {
            out.push(37);
            out.push(hex_digit(b / 16));
            out.push(hex_digit(b % 16));
        }
        proof {
            assert(bytes@.take(i + 1).drop_last() =~= bytes@.take(i as int));
            assert(bytes@.take(i + 1).last() == b);
            assert(out@ =~= before + form_byte(b));
        }
        i = i + 1;
    }
    proof {
        assert(bytes@.take(i as int) =~= bytes@);
        assert forall|j: int| 0 <= j < out@.len() implies #[trigger] is_leading_byte_width_1(out@[j]) by {}
        assert(out@.subrange(0, 0) =~= Seq::<u8>::empty());
        assert(partial_valid_utf8(out@, 0));
        partial_valid_utf8_extend_ascii_block(out@, 0, out@.len() as int);
        assert(out@.subrange(0, out@.len() as int) =~= out@);
    }
    match string_from_utf8(out) {
        Some(text) => text,
        None => String::new(),
    }
}

/// The path a login is asked for after: the path, with its query where there is one.
pub open spec fn redirect_target(path: Seq<char>, query: Seq<char>) -> Seq<char> {
    if query.len() > 0 {
        path + "?"@ + query
    } else {
        path
    }
}

/// Where a request without a login is sent: the login page itself keeps its
/// query; any other page goes to the login page, form-encoded as `redirect_url`.
pub open spec fn login_location(path: Seq<char>, query: Seq<char>) -> Seq<char> {
    if path == "/ratchjob/p/login"@ || path == "/p/login"@ {
        path + "?"@ + query
    } else {
        "/ratchjob/p/login?redirect_url="@ + form_encoded_text(redirect_target(path, query))
    }
}

/// Where a page request without the permission is sent.
pub open spec fn no_permission_location(path: Seq<char>) -> Seq<char> {
    "/ratchjob/nopermission?path="@ + path
}

/// What is done with a console request.
#[derive(Debug, PartialEq, Eq)]
pub enum LoginOutcome {
    /// Handled as asked.
    Forward,
    /// A page request, sent elsewhere (`Location`, with status 302).
    Redirect(String),
    /// An API call of a user without the permission: header `No-Permission: 1`
    /// and the error `NO_PERMISSION`.
    NoPermission,
    /// An API call without a login: header `No-Login: 1` and the error `NO_LOGIN`.
    NoLogin,
}

/// The location for a request without a login.
fn build_login_location(path: &str, query: &str) -> (r: String)
    ensures
        r@ == login_location(path@, query@),
{
    if str_eq(path, "/ratchjob/p/login") || str_eq(path, "/p/login") {
        let mut r = path.to_owned();
        r.append("?");
        r.append(query);
        r
    } else {
        let mut target = path.to_owned();
        if !query.is_empty() {
            target.append("?");
            target.append(query);
        }
        let mut r = "/ratchjob/p/login?redirect_url=".to_owned();
        r.append(form_urlencode(target.as_str()).as_str());
        r
    }
}

/// What a console request is answered, given its path and query, the login
/// token it carries, and, where a session was found for the token, whether the
/// session's roles allow the request. Paths that need no login are handled as
/// asked; so are requests of a logged-in user with the permission. Without the
/// permission a page goes to the no-permission page and an API call is refused;
/// without a login a page goes to the login page and an API call is refused.
pub fn login_outcome(path: &str, query: &str, token: &str, session: Option<bool>) -> (r: LoginOutcome)
    ensures
        !needs_login(path@) ==> r == LoginOutcome::Forward,
        needs_login(path@) && token@.len() > 0 && session == Some(true) ==> r == LoginOutcome::Forward,
        needs_login(path@) && token@.len() > 0 && session == Some(false) ==> if api_path(path@) {
            r == LoginOutcome::NoPermission
        } else {
            r matches LoginOutcome::Redirect(loc) && loc@ == no_permission_location(path@)
        },
        needs_login(path@) && (token@.len() == 0 || session is None) ==> if api_path(path@) {
            r == LoginOutcome::NoLogin
        } else {
            r matches LoginOutcome::Redirect(loc) && loc@ == login_location(path@, query@)
        },
{
    if !is_check_path(path) {
        return LoginOutcome::Forward;
    }
    let is_page = !is_api_path(path);
    let logged_in = !token.is_empty() && session.is_some();
    if logged_in {
        if session == Some(true) {
            LoginOutcome::Forward
        } else if is_page {
            let mut loc = "/ratchjob/nopermission?path=".to_owned();
            loc.append(path);
            LoginOutcome::Redirect(loc)
        } else {
            LoginOutcome::NoPermission
        }
    } else if is_page {
        LoginOutcome::Redirect(build_login_location(path, query))
    } else {
        LoginOutcome::NoLogin
    }
}

/// What becomes of a cached login session.
#[derive(Debug, PartialEq, Eq)]
pub enum SessionRefresh {
    /// Used as it is.
    Keep,
    /// Rebuilt from the user, and cached for `ttl` seconds.
    Rebuild { ttl: i32 },
}

/// Whether a cached session (refreshed at `refresh_time`, seconds) is used as it
/// is at `now`: within five seconds of its refresh it is, without asking; later,
/// where the user (whose last change, in milliseconds, is `user_modified`, if
/// the user is known) changed since the refresh, it is rebuilt and cached for
/// the time since the refresh, at least ten seconds (truncated to `i32`).
pub fn session_refresh(now: u32, refresh_time: u32, user_modified: Option<i64>) -> (r: SessionRefresh)
    requires
        refresh_time + 5 <= u32::MAX,
    ensures
        now < refresh_time + 5 ==> r == SessionRefresh::Keep,
        now >= refresh_time + 5 ==> match user_modified {
            Some(m) => if m > refresh_time * 1000 {
                r == (SessionRefresh::Rebuild {
                    ttl: (if now * 1000 - refresh_time * 1000 > 10000 {
                        now * 1000 - refresh_time * 1000
                    } else {
                        10000
                    } / 1000) as i32,
                })
            } else {
                r == SessionRefresh::Keep
            },
            None => r == SessionRefresh::Keep,
        },
{
    if now < refresh_time + 5 {
        return SessionRefresh::Keep;
    }
    match user_modified {
        Some(m) => {
            let refresh = (refresh_time as i64) * 1000;
            if m > refresh {
                let elapsed = (now as i64) * 1000 - refresh;
                let kept = if elapsed > 10000 {
                    elapsed
                } else {
                    10000
                };
                let ttl = #[verifier::truncate] ((kept / 1000) as i32);
                SessionRefresh::Rebuild { ttl }
            } else {
                SessionRefresh::Keep
            }
        },
        None => SessionRefresh::Keep,
    }
}

} // verus!
