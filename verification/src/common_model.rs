//! The envelopes answers are sent in, and the sessions of console users.
use std::collections::HashMap;
use vstd::prelude::*;

verus! {

/// An answer: the data on success, or an error code and message.
#[derive(Debug)]
pub struct ApiResult<T> {
    pub data: Option<T>,
    pub success: bool,
    pub code: Option<String>,
    pub message: Option<String>,
}

impl<T> ApiResult<T> {
    /// A successful answer carrying `data`.
    pub fn success(data: Option<T>) -> (r: ApiResult<T>)
        ensures
            r == (ApiResult { data, success: true, code: None, message: None }),
    {
        ApiResult { data, success: true, code: None, message: None }
    }

    /// A failed answer with an error code and, maybe, a message.
    pub fn error(code: String, message: Option<String>) -> (r: ApiResult<T>)
        ensures
            r == (ApiResult::<T> { data: None, success: false, code: Some(code), message }),
    {
        ApiResult { data: None, success: false, code: Some(code), message }
    }
}

/// `r` is a refusal with this error code and message.
pub open spec fn refused_with(r: Option<ApiResult<()>>, code: Seq<char>, message: Option<Seq<char>>) -> bool {
    match r {
        Some(a) => {
            &&& !a.success
            &&& a.data is None
            &&& a.code is Some && a.code->0@ == code
            &&& match message {
                Some(m) => a.message is Some && a.message->0@ == m,
                None => a.message is None,
            }
        },
        None => false,
    }
}

/// One page of a listing, with the number of items in the whole listing.
#[derive(Debug)]
pub struct PageResult<T> {
    pub total_count: usize,
    pub list: Vec<T>,
}

/// A logged-in console user.
#[derive(Debug, Default)]
pub struct UserSession {
    pub username: String,
    pub nickname: String,
    pub roles: Vec<String>,
    pub extend_infos: HashMap<String, String>,
    /// When the session was last refreshed, in seconds.
    pub refresh_time: u32,
}

/// What a console token stands for.
#[derive(Debug, Default)]
pub struct TokenSession {
    pub username: String,
    pub roles: Vec<String>,
    pub extend_infos: HashMap<String, String>,
}

} // verus!
