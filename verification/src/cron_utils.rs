//! Cron expressions, checked and run by the `cron` crate.
use std::str::FromStr;
use vstd::prelude::*;

verus! {

/// Whether `cron::Schedule` accepts the expression.
pub uninterp spec fn cron_expression_parses(expression: Seq<char>) -> bool;

/// Calls `cron::Schedule::from_str` and reports whether it succeeded. Claimed of
/// it: the answer depends on the expression alone (the parser is deterministic);
/// which expressions it accepts is not stated here.
#[verifier::external_body]
fn schedule_parses(expression: &str) -> (r: bool)
    ensures
        r == cron_expression_parses(expression@),
{
    cron::Schedule::from_str(expression).is_ok()
}

/// The first run time (seconds since the epoch) that `cron` finds for the
/// expression after the time `secs`, the expression read in the fixed time zone
/// `offset_secs` seconds east of UTC.
pub uninterp spec fn cron_next_after(expression: Seq<char>, offset_secs: i32, secs: u32) -> Option<i64>;

/// Parses the expression with `cron::Schedule::from_str`, makes the fixed offset
/// with `chrono::FixedOffset::east_opt` and the start time with
/// `chrono::DateTime::<Utc>::from_timestamp`, and takes the first time of
/// `Schedule::after`. Claimed: the answer depends on the arguments alone (named
/// `cron_next_after`); nothing comes back where the expression does not parse
/// (`from_str` fails) or the offset is a day or more (`east_opt` refuses it); a
/// time that comes back is later than `secs` (the search starts a second after
/// it). Which time is found is not stated here.
#[verifier::external_body]
fn schedule_next_after(expression: &str, offset_secs: i32, secs: u32) -> (r: Option<i64>)
    ensures
        r == cron_next_after(expression@, offset_secs, secs),
        !cron_expression_parses(expression@) ==> r is None,
        !(-86400 < offset_secs < 86400) ==> r is None,
        r matches Some(t) ==> t > secs,
{
    let schedule = cron::Schedule::from_str(expression).ok()?;
    let offset = chrono::FixedOffset::east_opt(offset_secs)?;
    let start = chrono::DateTime::<chrono::Utc>::from_timestamp(secs as i64, 0)?;
    match schedule.after(&start.with_timezone(&offset)).next() {
        Some(t) => Some(t.timestamp()),
        None => None,
    }
}

/// Why no next run time could be given.
#[derive(Debug, PartialEq, Eq, Clone, Copy)]
pub enum CronError {
    /// The expression is not a valid cron expression.
    InvalidExpression,
    /// The schedule has no run after the given time.
    NoNextTime,
}

/// The answer for a next run time that came back as `next`: the time, cut to 32
/// bits as the scheduler keeps it, or `NoNextTime` where there was none.
pub fn next_time_answer(next: Option<i64>) -> (r: Result<u32, CronError>)
    ensures
        r == match next {
            Some(t) => Ok(t as u32),
            None => Err(CronError::NoNextTime),
        },
{
    match next {
        Some(t) => Ok(#[verifier::truncate] (t as u32)),
        None => Err(CronError::NoNextTime),
    }
}

/// Helpers for cron schedules.
pub struct CronUtil;

impl CronUtil {
    /// Whether the cron expression is valid.
    pub fn check_cron_valid(cron_value: &str) -> (r: bool)
        ensures
            r == cron_expression_parses(cron_value@),
    {
        schedule_parses(cron_value)
    }

    /// The next run time of the cron expression after `secs`, read in the time
    /// zone `offset_secs` east of UTC (less than a day either way). An invalid
    /// expression is refused; otherwise the answer is the time `cron` finds, which
    /// is later than `secs` wherever it fits in 32 bits.
    pub fn next_cron_time(cron_value: &str, offset_secs: i32, secs: u32) -> (r: Result<u32, CronError>)
        requires
            -86400 < offset_secs < 86400,
        ensures
            r == Self::next_time_spec(cron_value@, offset_secs, secs),
            r matches Ok(t) ==> t > secs || cron_next_after(cron_value@, offset_secs, secs)->0
                > u32::MAX,
    {
        if !schedule_parses(cron_value) {
            return Err(CronError::InvalidExpression);
        }
        next_time_answer(schedule_next_after(cron_value, offset_secs, secs))
    }

    /// The next run time after the time `secs` (seconds since the epoch), as
    /// `next_cron_time` gives it.
    pub fn next_cron_time_by_timestamp(cron_value: &str, offset_secs: i32, secs: u32) -> (r: Result<
        u32,
        CronError,
    >)
        requires
            -86400 < offset_secs < 86400,
        ensures
            r == Self::next_time_spec(cron_value@, offset_secs, secs),
    {
        Self::next_cron_time(cron_value, offset_secs, secs)
    }

    /// What `next_cron_time` answers.
    pub open spec fn next_time_spec(cron_value: Seq<char>, offset_secs: i32, secs: u32) -> Result<u32, CronError> {
        if !cron_expression_parses(cron_value) {
            Err(CronError::InvalidExpression)
        } else {
            match cron_next_after(cron_value, offset_secs, secs) {
                Some(t) => Ok(t as u32),
                None => Err(CronError::NoNextTime),
            }
        }
    }
}

} // verus!
