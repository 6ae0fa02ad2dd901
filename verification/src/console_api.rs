//! The decisions the console makes around its application and job requests:
//! the checks before a request goes on, and the answer made of what came back.
use crate::app_model::{register_type_of, AppInfoDto, AppParam, RegisterType};
use crate::common_model::{refused_with, ApiResult};
use crate::job_model::{job_check_error_message, param_check, JobParam};
use vstd::prelude::*;

verus! {

/// `r` is a `SYSTEM_ERROR` answer with `message`.
pub open spec fn system_error_with<T>(r: ApiResult<T>, message: Seq<char>) -> bool {
    &&& !r.success
    &&& r.data is None
    &&& r.code is Some && r.code->0@ == "SYSTEM_ERROR"@
    &&& r.message is Some && r.message->0@ == message
}

/// A `SYSTEM_ERROR` answer with `message`.
fn system_error<T>(message: String) -> (r: ApiResult<T>)
    ensures
        system_error_with(r, message@),
{
    ApiResult::error("SYSTEM_ERROR".to_owned(), Some(message))
}

/// The answer to a request the console passed on: success with what came back,
/// or `SYSTEM_ERROR` with `failure` where the request failed (`None`).
pub fn reply_answer<T>(reply: Option<T>, failure: &str) -> (r: ApiResult<T>)
    ensures
        match reply {
            Some(x) => r == (ApiResult::<T> { data: Some(x), success: true, code: None, message: None }),
            None => system_error_with(r, failure@),
        },
{
    match reply {
        Some(x) => ApiResult::success(Some(x)),
        None => system_error(failure.to_owned()),
    }
}

/// The check before an application is read or set: its name must not be empty.
pub fn check_app_name(param: &AppParam) -> (r: Option<ApiResult<()>>)
    ensures
        param.app_name@.len() == 0 ==> refused_with(
            r,
            "SYSTEM_ERROR"@,
            Some("app name is empty!"@),
        ),
        param.app_name@.len() > 0 ==> r is None,
{
    if param.app_name.as_str().is_empty() {
        Some(system_error("app name is empty!".to_owned()))
    } else {
        None
    }
}

/// What removing an application comes to once it was looked up.
#[derive(Debug)]
pub enum RemoveAppStep {
    /// Answer at once.
    Answer(ApiResult<()>),
    /// Ask the cluster to remove it.
    Remove,
}

/// The application has instance addresses.
pub open spec fn has_addrs(addrs: Option<Vec<String>>) -> bool {
    match addrs {
        Some(v) => v@.len() > 0,
        None => false,
    }
}

/// The message refusing to remove a registered application that has instances.
pub open spec fn has_instances_message() -> Seq<char> {
    "应用存在注册的实例，不允许删除!"@
}

/// Removing an application, given what looking it up found: an unknown one
/// counts as removed already; one registered by its executors that still has
/// instances is kept, with `SYSTEM_ERROR`; any other is removed.
pub fn remove_app_step(found: Option<AppInfoDto>) -> (r: RemoveAppStep)
    ensures
        match found {
            None => r == RemoveAppStep::Answer(
                ApiResult::<()> { data: Some(()), success: true, code: None, message: None },
            ),
            Some(info) => if register_type_of(info.register_type@) == RegisterType::Auto && has_addrs(
                info.instance_addrs,
            ) {
                r matches RemoveAppStep::Answer(a) && system_error_with(a, has_instances_message())
            } else {
                r is Remove
            },
        },
{
    match found {
        None => RemoveAppStep::Answer(ApiResult::success(Some(()))),
        Some(info) => {
            let register_type = RegisterType::from_str(info.register_type.as_str());
            let is_empty = match &info.instance_addrs {
                Some(addrs) => addrs.len() == 0,
                None => true,
            };
            if register_type == RegisterType::Auto && !is_empty {
                RemoveAppStep::Answer(system_error("应用存在注册的实例，不允许删除!".to_owned()))
            } else {
                RemoveAppStep::Remove
            }
        },
    }
}

/// The text refusing a job id: `<action> error,the job id is invalid`.
pub open spec fn invalid_id_message(action: Seq<char>) -> Seq<char> {
    action + " error,the job id is invalid"@
}

/// The check of the job id a console request names (`action` names the
/// request): an absent id counts as 0, and 0 is refused with `SYSTEM_ERROR`.
pub fn check_job_id(id: Option<u64>, action: &str) -> (r: Option<ApiResult<()>>)
    ensures
        (id is None || id == Some(0u64)) ==> refused_with(
            r,
            "SYSTEM_ERROR"@,
            Some(invalid_id_message(action@)),
        ),
        (id is Some && id->0 != 0) ==> r is None,
{
    let v = match id {
        Some(v) => v,
        None => 0,
    };
    if v == 0 {
        let mut message = action.to_owned();
        message.append(" error,the job id is invalid");
        Some(system_error(message))
    } else {
        None
    }
}

/// The checks before a job update goes to the cluster: the id, then the job's
/// rules, the first that fails refusing the update as `update_job error,` and
/// what it found.
pub fn check_job_update(param: &JobParam) -> (r: Option<ApiResult<()>>)
    ensures
        (param.id is None || param.id == Some(0u64)) ==> refused_with(
            r,
            "SYSTEM_ERROR"@,
            Some(invalid_id_message("update_job"@)),
        ),
        (param.id is Some && param.id->0 != 0) ==> match param_check(*param) {
            Ok(_) => r is None,
            Err(e) => refused_with(
                r,
                "SYSTEM_ERROR"@,
                Some("update_job error,"@ + job_check_error_message(e)),
            ),
        },
{
    let refused = check_job_id(param.id, "update_job");
    if refused.is_some() {
        return refused;
    }
    match param.check_valid() {
        Ok(()) => None,
        Err(e) => {
            let mut message = "update_job error,".to_owned();
            message.append(e.message());
            Some(system_error(message))
        },
    }
}

} // verus!
