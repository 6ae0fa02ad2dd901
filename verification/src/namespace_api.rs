//! The console's checks on namespace requests, made before a request goes to
//! the cluster.
use crate::common_model::{refused_with, ApiResult};
use crate::decimal::{decimal_of, push_decimal};
use crate::namespace::{NamespaceManagerRaftResult, NamespaceParam};
use vstd::prelude::*;

verus! {

/// The refusal of a bad namespace request: `INVALID_PARAMETER` with `message`.
fn invalid_parameter(message: &str) -> (r: Option<ApiResult<()>>)
    ensures
        refused_with(r, "INVALID_PARAMETER"@, Some(message@)),
{
    Some(ApiResult::error("INVALID_PARAMETER".to_owned(), Some(message.to_owned())))
}

/// The checks on a namespace to create: its name, then its type, must not be
/// empty. The refusal of the first check that fails; none where both pass.
pub fn check_create_namespace(param: &NamespaceParam) -> (r: Option<ApiResult<()>>)
    ensures
        param.name@.len() == 0 ==> refused_with(
            r,
            "INVALID_PARAMETER"@,
            Some("Namespace name cannot be empty"@),
        ),
        param.name@.len() > 0 && param.ns_type@.len() == 0 ==> refused_with(
            r,
            "INVALID_PARAMETER"@,
            Some("Namespace type cannot be empty"@),
        ),
        param.name@.len() > 0 && param.ns_type@.len() > 0 ==> r is None,
{
    if param.name.as_str().is_empty() {
        return invalid_parameter("Namespace name cannot be empty");
    }
    if param.ns_type.as_str().is_empty() {
        return invalid_parameter("Namespace type cannot be empty");
    }
    None
}

/// The checks on a namespace update: an id must be given, then the name and
/// the type must not be empty. The refusal of the first check that fails; none
/// where all pass.
pub fn check_update_namespace(param: &NamespaceParam) -> (r: Option<ApiResult<()>>)
    ensures
        param.id is None ==> refused_with(
            r,
            "INVALID_PARAMETER"@,
            Some("Namespace id cannot be empty"@),
        ),
        param.id is Some && param.name@.len() == 0 ==> refused_with(
            r,
            "INVALID_PARAMETER"@,
            Some("Namespace name cannot be empty"@),
        ),
        param.id is Some && param.name@.len() > 0 && param.ns_type@.len() == 0 ==> refused_with(
            r,
            "INVALID_PARAMETER"@,
            Some("Namespace type cannot be empty"@),
        ),
        param.id is Some && param.name@.len() > 0 && param.ns_type@.len() > 0 ==> r is None,
{
    if param.id.is_none() {
        return invalid_parameter("Namespace id cannot be empty");
    }
    check_create_namespace(param)
}

/// The text of the refusal to remove a namespace that still has jobs.
pub open spec fn has_jobs_message(count: u64) -> Seq<char> {
    "Namespace has "@ + decimal_of(count as nat) + " jobs, cannot delete"@
}

/// Whether a namespace may be removed, given its id and the number of its jobs
/// (`None` where the job manager could not count them). The refusal: an empty
/// id is an invalid parameter; a namespace with jobs is kept; without a count
/// nothing is removed. None where the removal may go on.
pub fn removal_decision(id: &str, job_count: Option<u64>) -> (r: Option<ApiResult<()>>)
    ensures
        id@.len() == 0 ==> refused_with(
            r,
            "INVALID_PARAMETER"@,
            Some("Namespace id cannot be empty"@),
        ),
        id@.len() > 0 && job_count is None ==> refused_with(
            r,
            "SYSTEM_ERROR"@,
            Some("Failed to check namespace dependencies"@),
        ),
        id@.len() > 0 && job_count is Some && job_count->0 > 0 ==> refused_with(
            r,
            "NAMESPACE_HAS_JOBS"@,
            Some(has_jobs_message(job_count->0)),
        ),
        id@.len() > 0 && job_count == Some(0u64) ==> r is None,
{
    if id.is_empty() {
        return invalid_parameter("Namespace id cannot be empty");
    }
    match job_count {
        Some(count) => {
            if count > 0 {
                let mut message = "Namespace has ".to_owned();
                push_decimal(&mut message, count);
                message.append(" jobs, cannot delete");
                Some(ApiResult::error("NAMESPACE_HAS_JOBS".to_owned(), Some(message)))
            } else {
                None
            }
        },
        None => Some(
            ApiResult::error(
                "SYSTEM_ERROR".to_owned(),
                Some("Failed to check namespace dependencies".to_owned()),
            ),
        ),
    }
}

/// The cluster's reply to a namespace change: the namespace manager's answer,
/// or a reply of another kind.
#[derive(Debug)]
pub enum NamespaceReply {
    Namespace(NamespaceManagerRaftResult),
    Other,
}

/// What the console answers with on success: the namespace as it now stands,
/// or a plain `true`.
#[derive(Debug)]
pub enum NamespaceAnswer {
    Info(crate::console_model::NamespaceInfo),
    Done(bool),
}

/// A failed answer with `code` and `message`.
pub open spec fn failed_with(r: ApiResult<NamespaceAnswer>, code: Seq<char>, message: Seq<char>) -> bool {
    &&& !r.success
    &&& r.data is None
    &&& r.code is Some && r.code->0@ == code
    &&& r.message is Some && r.message->0@ == message
}

/// The console's answer to the cluster's reply to creating or updating a
/// namespace (`Err` holds the text of a request that failed): the namespace
/// made, or `true` where the manager answered nothing more; `error_code` with
/// `Invalid response type` for a reply of another kind; `SYSTEM_ERROR` with the
/// failure's text.
pub fn change_answer(reply: Result<NamespaceReply, String>, error_code: &str) -> (r: ApiResult<NamespaceAnswer>)
    ensures
        match reply {
            Ok(NamespaceReply::Namespace(NamespaceManagerRaftResult::NamespaceInfo(ns))) => {
                &&& r.success && r.code is None && r.message is None
                &&& r.data matches Some(NamespaceAnswer::Info(i))
                &&& i.namespace_id == Some(ns.id)
                &&& i.namespace_name == Some(ns.name)
                &&& i.ns_type == Some(ns.ns_type)
            },
            Ok(NamespaceReply::Namespace(NamespaceManagerRaftResult::Empty)) => r == (ApiResult::<NamespaceAnswer> {
                data: Some(NamespaceAnswer::Done(true)),
                success: true,
                code: None,
                message: None,
            }),
            Ok(NamespaceReply::Other) => failed_with(r, error_code@, "Invalid response type"@),
            Err(e) => failed_with(r, "SYSTEM_ERROR"@, e@),
        },
{
    match reply {
        Ok(NamespaceReply::Namespace(NamespaceManagerRaftResult::NamespaceInfo(ns))) => {
            let info = crate::console_model::NamespaceInfo {
                namespace_id: Some(ns.id),
                namespace_name: Some(ns.name),
                ns_type: Some(ns.ns_type),
            };
            ApiResult::success(Some(NamespaceAnswer::Info(info)))
        },
        Ok(NamespaceReply::Namespace(NamespaceManagerRaftResult::Empty)) => ApiResult::success(
            Some(NamespaceAnswer::Done(true)),
        ),
        Ok(NamespaceReply::Other) => ApiResult::error(
            error_code.to_owned(),
            Some("Invalid response type".to_owned()),
        ),
        Err(e) => ApiResult::error("SYSTEM_ERROR".to_owned(), Some(e)),
    }
}

/// The console's answer to the cluster's reply to removing a namespace: `true`
/// for any answer of the namespace manager; `REMOVE_NAMESPACE_ERROR` with
/// `Invalid response type` for a reply of another kind; `SYSTEM_ERROR` with the
/// failure's text.
pub fn removal_answer(reply: Result<NamespaceReply, String>) -> (r: ApiResult<NamespaceAnswer>)
    ensures
        match reply {
            Ok(NamespaceReply::Namespace(_)) => r == (ApiResult::<NamespaceAnswer> {
                data: Some(NamespaceAnswer::Done(true)),
                success: true,
                code: None,
                message: None,
            }),
            Ok(NamespaceReply::Other) => failed_with(
                r,
                "REMOVE_NAMESPACE_ERROR"@,
                "Invalid response type"@,
            ),
            Err(e) => failed_with(r, "SYSTEM_ERROR"@, e@),
        },
{
    match reply {
        Ok(NamespaceReply::Namespace(_)) => ApiResult::success(Some(NamespaceAnswer::Done(true))),
        Ok(NamespaceReply::Other) => ApiResult::error(
            "REMOVE_NAMESPACE_ERROR".to_owned(),
            Some("Invalid response type".to_owned()),
        ),
        Err(e) => ApiResult::error("SYSTEM_ERROR".to_owned(), Some(e)),
    }
}

} // verus!
