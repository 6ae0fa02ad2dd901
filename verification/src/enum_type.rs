//! The named options of a job and their wire names.
use crate::text::str_eq;
use vstd::prelude::*;

verus! {

/// Cron: run at the times a cron expression names; Interval: run every fixed number of seconds; Unset: not scheduled.
#[derive(PartialEq, Eq, Structural, Clone, Copy, Debug)]
pub enum ScheduleType {
    Cron,
    Interval,
    Unset,
}

/// The wire name of each `ScheduleType`.
pub open spec fn schedule_type_name(t: ScheduleType) -> Seq<char> {
    match t {
        ScheduleType::Cron => "CRON"@,
        ScheduleType::Interval => "INTERVAL"@,
        ScheduleType::Unset => ""@,
    }
}

/// The `ScheduleType` a wire name denotes (`None` for any other name).
pub open spec fn schedule_type_of(s: Seq<char>) -> ScheduleType {
    if s == "CRON"@ {
        ScheduleType::Cron
    } else if s == "INTERVAL"@ {
        ScheduleType::Interval
    } else {
        ScheduleType::Unset
    }
}

impl ScheduleType {
    /// Reads a wire name.
    pub fn from_str(s: &str) -> (r: ScheduleType)
        ensures
            r == schedule_type_of(s@),
    {
        if str_eq(s, "CRON") {
            ScheduleType::Cron
        } else if str_eq(s, "INTERVAL") {
            ScheduleType::Interval
        } else {
            ScheduleType::Unset
        }
    }

    /// The wire name.
    pub fn to_str(&self) -> (r: &str)
        ensures
            r@ == schedule_type_name(*self),
    {
        match self {
            ScheduleType::Cron => "CRON",
            ScheduleType::Interval => "INTERVAL",
            ScheduleType::Unset => "",
        }
    }
}

impl Default for ScheduleType {
    fn default() -> (r: Self)
        ensures
            r == ScheduleType::Unset,
    {
        ScheduleType::Unset
    }
}

/// Reading the wire name of a `ScheduleType` gives it back.
pub proof fn lemma_schedule_type_round_trip(t: ScheduleType)
    ensures
        schedule_type_of(schedule_type_name(t)) == t,
        schedule_type_name(t).len() <= 32,
{
    reveal_strlit("CRON");
    reveal_strlit("INTERVAL");
    reveal_strlit("");
    match t {
        ScheduleType::Cron => {
            assert("CRON"@.len() != "INTERVAL"@.len());
            assert("CRON"@.len() != ""@.len());
        },
        ScheduleType::Interval => {
            assert("INTERVAL"@.len() != "CRON"@.len());
            assert("INTERVAL"@.len() != ""@.len());
        },
        ScheduleType::Unset => {
            assert(""@.len() != "CRON"@.len());
            assert(""@.len() != "INTERVAL"@.len());
        },
    }
}

/// How an executor runs a job: a registered handler bean or a glue script.
#[derive(PartialEq, Eq, Structural, Clone, Copy, Debug)]
pub enum JobRunMode {
    Bean,
    GlueGroovy,
    GlueShell,
    GluePython,
    GluePhp,
    GlueNodejs,
    GluePowerShell,
}

/// The wire name of each `JobRunMode`.
pub open spec fn job_run_mode_name(t: JobRunMode) -> Seq<char> {
    match t {
        JobRunMode::Bean => "BEAN"@,
        JobRunMode::GlueGroovy => "GLUE_GROOVY"@,
        JobRunMode::GlueShell => "GLUE_SHELL"@,
        JobRunMode::GluePython => "GLUE_PYTHON"@,
        JobRunMode::GluePhp => "GLUE_PHP"@,
        JobRunMode::GlueNodejs => "GLUE_NODEJS"@,
        JobRunMode::GluePowerShell => "GLUE_POWERSHELL"@,
    }
}

/// The `JobRunMode` a wire name denotes (none for any other name).
pub open spec fn job_run_mode_of(s: Seq<char>) -> Option<JobRunMode> {
    if s == "BEAN"@ {
        Some(JobRunMode::Bean)
    } else if s == "GLUE_GROOVY"@ {
        Some(JobRunMode::GlueGroovy)
    } else if s == "GLUE_SHELL"@ {
        Some(JobRunMode::GlueShell)
    } else if s == "GLUE_PYTHON"@ {
        Some(JobRunMode::GluePython)
    } else if s == "GLUE_PHP"@ {
        Some(JobRunMode::GluePhp)
    } else if s == "GLUE_NODEJS"@ {
        Some(JobRunMode::GlueNodejs)
    } else if s == "GLUE_POWERSHELL"@ {
        Some(JobRunMode::GluePowerShell)
    } else {
        None
    }
}

impl JobRunMode {
    /// Reads a wire name.
    pub fn from_str(s: &str) -> (r: Option<JobRunMode>)
        ensures
            r == job_run_mode_of(s@),
    {
        if str_eq(s, "BEAN") {
            Some(JobRunMode::Bean)
        } else if str_eq(s, "GLUE_GROOVY") {
            Some(JobRunMode::GlueGroovy)
        } else if str_eq(s, "GLUE_SHELL") {
            Some(JobRunMode::GlueShell)
        } else if str_eq(s, "GLUE_PYTHON") {
            Some(JobRunMode::GluePython)
        } else if str_eq(s, "GLUE_PHP") {
            Some(JobRunMode::GluePhp)
        } else if str_eq(s, "GLUE_NODEJS") {
            Some(JobRunMode::GlueNodejs)
        } else if str_eq(s, "GLUE_POWERSHELL") {
            Some(JobRunMode::GluePowerShell)
        } else {
            None
        }
    }

    /// The wire name.
    pub fn to_str(&self) -> (r: &str)
        ensures
            r@ == job_run_mode_name(*self),
    {
        match self {
            JobRunMode::Bean => "BEAN",
            JobRunMode::GlueGroovy => "GLUE_GROOVY",
            JobRunMode::GlueShell => "GLUE_SHELL",
            JobRunMode::GluePython => "GLUE_PYTHON",
            JobRunMode::GluePhp => "GLUE_PHP",
            JobRunMode::GlueNodejs => "GLUE_NODEJS",
            JobRunMode::GluePowerShell => "GLUE_POWERSHELL",
        }
    }
}

impl Default for JobRunMode {
    fn default() -> (r: Self)
        ensures
            r == JobRunMode::Bean,
    {
        JobRunMode::Bean
    }
}

/// Reading the wire name of a `JobRunMode` gives it back.
pub proof fn lemma_job_run_mode_round_trip(t: JobRunMode)
    ensures
        job_run_mode_of(job_run_mode_name(t)) == Some(t),
        job_run_mode_name(t).len() <= 32,
{
    reveal_strlit("BEAN");
    reveal_strlit("GLUE_GROOVY");
    reveal_strlit("GLUE_SHELL");
    reveal_strlit("GLUE_PYTHON");
    reveal_strlit("GLUE_PHP");
    reveal_strlit("GLUE_NODEJS");
    reveal_strlit("GLUE_POWERSHELL");
    match t {
        JobRunMode::Bean => {
            assert("BEAN"@.len() != "GLUE_GROOVY"@.len());
            assert("BEAN"@.len() != "GLUE_SHELL"@.len());
            assert("BEAN"@.len() != "GLUE_PYTHON"@.len());
            assert("BEAN"@.len() != "GLUE_PHP"@.len());
            assert("BEAN"@.len() != "GLUE_NODEJS"@.len());
            assert("BEAN"@.len() != "GLUE_POWERSHELL"@.len());
        },
        JobRunMode::GlueGroovy => {
            assert("GLUE_GROOVY"@.len() != "BEAN"@.len());
            assert("GLUE_GROOVY"@.len() != "GLUE_SHELL"@.len());
            assert("GLUE_GROOVY"@[5] != "GLUE_PYTHON"@[5]);
            assert("GLUE_GROOVY"@.len() != "GLUE_PHP"@.len());
            assert("GLUE_GROOVY"@[5] != "GLUE_NODEJS"@[5]);
            assert("GLUE_GROOVY"@.len() != "GLUE_POWERSHELL"@.len());
        },
        JobRunMode::GlueShell => {
            assert("GLUE_SHELL"@.len() != "BEAN"@.len());
            assert("GLUE_SHELL"@.len() != "GLUE_GROOVY"@.len());
            assert("GLUE_SHELL"@.len() != "GLUE_PYTHON"@.len());
            assert("GLUE_SHELL"@.len() != "GLUE_PHP"@.len());
            assert("GLUE_SHELL"@.len() != "GLUE_NODEJS"@.len());
            assert("GLUE_SHELL"@.len() != "GLUE_POWERSHELL"@.len());
        },
        JobRunMode::GluePython => {
            assert("GLUE_PYTHON"@.len() != "BEAN"@.len());
            assert("GLUE_PYTHON"@[5] != "GLUE_GROOVY"@[5]);
            assert("GLUE_PYTHON"@.len() != "GLUE_SHELL"@.len());
            assert("GLUE_PYTHON"@.len() != "GLUE_PHP"@.len());
            assert("GLUE_PYTHON"@[5] != "GLUE_NODEJS"@[5]);
            assert("GLUE_PYTHON"@.len() != "GLUE_POWERSHELL"@.len());
        },
        JobRunMode::GluePhp => {
            assert("GLUE_PHP"@.len() != "BEAN"@.len());
            assert("GLUE_PHP"@.len() != "GLUE_GROOVY"@.len());
            assert("GLUE_PHP"@.len() != "GLUE_SHELL"@.len());
            assert("GLUE_PHP"@.len() != "GLUE_PYTHON"@.len());
            assert("GLUE_PHP"@.len() != "GLUE_NODEJS"@.len());
            assert("GLUE_PHP"@.len() != "GLUE_POWERSHELL"@.len());
        },
        JobRunMode::GlueNodejs => {
            assert("GLUE_NODEJS"@.len() != "BEAN"@.len());
            assert("GLUE_NODEJS"@[5] != "GLUE_GROOVY"@[5]);
            assert("GLUE_NODEJS"@.len() != "GLUE_SHELL"@.len());
            assert("GLUE_NODEJS"@[5] != "GLUE_PYTHON"@[5]);
            assert("GLUE_NODEJS"@.len() != "GLUE_PHP"@.len());
            assert("GLUE_NODEJS"@.len() != "GLUE_POWERSHELL"@.len());
        },
        JobRunMode::GluePowerShell => {
            assert("GLUE_POWERSHELL"@.len() != "BEAN"@.len());
            assert("GLUE_POWERSHELL"@.len() != "GLUE_GROOVY"@.len());
            assert("GLUE_POWERSHELL"@.len() != "GLUE_SHELL"@.len());
            assert("GLUE_POWERSHELL"@.len() != "GLUE_PYTHON"@.len());
            assert("GLUE_POWERSHELL"@.len() != "GLUE_PHP"@.len());
            assert("GLUE_POWERSHELL"@.len() != "GLUE_NODEJS"@.len());
        },
    }
}

/// How a trigger picks among an application's instances.
#[derive(PartialEq, Eq, Structural, Clone, Copy, Debug)]
pub enum RouterStrategy {
    First,
    Last,
    RoundRobin,
    Random,
    ConsistentHash,
    ShardingBroadcast,
}

/// The wire name of each `RouterStrategy`.
pub open spec fn router_strategy_name(t: RouterStrategy) -> Seq<char> {
    match t {
        RouterStrategy::First => "FIRST"@,
        RouterStrategy::Last => "LAST"@,
        RouterStrategy::RoundRobin => "ROUND_ROBIN"@,
        RouterStrategy::Random => "RANDOM"@,
        RouterStrategy::ConsistentHash => "CONSISTENT_HASH"@,
        RouterStrategy::ShardingBroadcast => "SHARDING_BROADCAST"@,
    }
}

/// The `RouterStrategy` a wire name denotes (none for any other name).
pub open spec fn router_strategy_of(s: Seq<char>) -> Option<RouterStrategy> {
    if s == "FIRST"@ {
        Some(RouterStrategy::First)
    } else if s == "LAST"@ {
        Some(RouterStrategy::Last)
    } else if s == "ROUND_ROBIN"@ {
        Some(RouterStrategy::RoundRobin)
    } else if s == "RANDOM"@ {
        Some(RouterStrategy::Random)
    } else if s == "CONSISTENT_HASH"@ {
        Some(RouterStrategy::ConsistentHash)
    } else if s == "SHARDING_BROADCAST"@ {
        Some(RouterStrategy::ShardingBroadcast)
    } else {
        None
    }
}

impl RouterStrategy {
    /// Reads a wire name.
    pub fn from_str(s: &str) -> (r: Option<RouterStrategy>)
        ensures
            r == router_strategy_of(s@),
    {
        if str_eq(s, "FIRST") {
            Some(RouterStrategy::First)
        } else if str_eq(s, "LAST") {
            Some(RouterStrategy::Last)
        } else if str_eq(s, "ROUND_ROBIN") {
            Some(RouterStrategy::RoundRobin)
        } else if str_eq(s, "RANDOM") {
            Some(RouterStrategy::Random)
        } else if str_eq(s, "CONSISTENT_HASH") {
            Some(RouterStrategy::ConsistentHash)
        } else if str_eq(s, "SHARDING_BROADCAST") {
            Some(RouterStrategy::ShardingBroadcast)
        } else {
            None
        }
    }

    /// The wire name.
    pub fn to_str(&self) -> (r: &str)
        ensures
            r@ == router_strategy_name(*self),
    {
        match self {
            RouterStrategy::First => "FIRST",
            RouterStrategy::Last => "LAST",
            RouterStrategy::RoundRobin => "ROUND_ROBIN",
            RouterStrategy::Random => "RANDOM",
            RouterStrategy::ConsistentHash => "CONSISTENT_HASH",
            RouterStrategy::ShardingBroadcast => "SHARDING_BROADCAST",
        }
    }
}

impl Default for RouterStrategy {
    fn default() -> (r: Self)
        ensures
            r == RouterStrategy::RoundRobin,
    {
        RouterStrategy::RoundRobin
    }
}

/// Reading the wire name of a `RouterStrategy` gives it back.
pub proof fn lemma_router_strategy_round_trip(t: RouterStrategy)
    ensures
        router_strategy_of(router_strategy_name(t)) == Some(t),
        router_strategy_name(t).len() <= 32,
{
    reveal_strlit("FIRST");
    reveal_strlit("LAST");
    reveal_strlit("ROUND_ROBIN");
    reveal_strlit("RANDOM");
    reveal_strlit("CONSISTENT_HASH");
    reveal_strlit("SHARDING_BROADCAST");
    match t {
        RouterStrategy::First => {
            assert("FIRST"@.len() != "LAST"@.len());
            assert("FIRST"@.len() != "ROUND_ROBIN"@.len());
            assert("FIRST"@.len() != "RANDOM"@.len());
            assert("FIRST"@.len() != "CONSISTENT_HASH"@.len());
            assert("FIRST"@.len() != "SHARDING_BROADCAST"@.len());
        },
        RouterStrategy::Last => {
            assert("LAST"@.len() != "FIRST"@.len());
            assert("LAST"@.len() != "ROUND_ROBIN"@.len());
            assert("LAST"@.len() != "RANDOM"@.len());
            assert("LAST"@.len() != "CONSISTENT_HASH"@.len());
            assert("LAST"@.len() != "SHARDING_BROADCAST"@.len());
        },
        RouterStrategy::RoundRobin => {
            assert("ROUND_ROBIN"@.len() != "FIRST"@.len());
            assert("ROUND_ROBIN"@.len() != "LAST"@.len());
            assert("ROUND_ROBIN"@.len() != "RANDOM"@.len());
            assert("ROUND_ROBIN"@.len() != "CONSISTENT_HASH"@.len());
            assert("ROUND_ROBIN"@.len() != "SHARDING_BROADCAST"@.len());
        },
        RouterStrategy::Random => {
            assert("RANDOM"@.len() != "FIRST"@.len());
            assert("RANDOM"@.len() != "LAST"@.len());
            assert("RANDOM"@.len() != "ROUND_ROBIN"@.len());
            assert("RANDOM"@.len() != "CONSISTENT_HASH"@.len());
            assert("RANDOM"@.len() != "SHARDING_BROADCAST"@.len());
        },
        RouterStrategy::ConsistentHash => {
            assert("CONSISTENT_HASH"@.len() != "FIRST"@.len());
            assert("CONSISTENT_HASH"@.len() != "LAST"@.len());
            assert("CONSISTENT_HASH"@.len() != "ROUND_ROBIN"@.len());
            assert("CONSISTENT_HASH"@.len() != "RANDOM"@.len());
            assert("CONSISTENT_HASH"@.len() != "SHARDING_BROADCAST"@.len());
        },
        RouterStrategy::ShardingBroadcast => {
            assert("SHARDING_BROADCAST"@.len() != "FIRST"@.len());
            assert("SHARDING_BROADCAST"@.len() != "LAST"@.len());
            assert("SHARDING_BROADCAST"@.len() != "ROUND_ROBIN"@.len());
            assert("SHARDING_BROADCAST"@.len() != "RANDOM"@.len());
            assert("SHARDING_BROADCAST"@.len() != "CONSISTENT_HASH"@.len());
        },
    }
}

/// What to do with triggers that were missed.
#[derive(PartialEq, Eq, Structural, Clone, Copy, Debug)]
pub enum PastDueStrategy {
    Default,
    Ignore,
    Execute,
}

/// The wire name of each `PastDueStrategy`.
pub open spec fn past_due_strategy_name(t: PastDueStrategy) -> Seq<char> {
    match t {
        PastDueStrategy::Default => "DEFAULT"@,
        PastDueStrategy::Ignore => "IGNORE"@,
        PastDueStrategy::Execute => "EXECUTE"@,
    }
}

/// The `PastDueStrategy` a wire name denotes (`Default` for any other name).
pub open spec fn past_due_strategy_of(s: Seq<char>) -> PastDueStrategy {
    if s == "IGNORE"@ {
        PastDueStrategy::Ignore
    } else if s == "EXECUTE"@ {
        PastDueStrategy::Execute
    } else {
        PastDueStrategy::Default
    }
}

impl PastDueStrategy {
    /// Reads a wire name.
    pub fn from_str(s: &str) -> (r: PastDueStrategy)
        ensures
            r == past_due_strategy_of(s@),
    {
        if str_eq(s, "IGNORE") {
            PastDueStrategy::Ignore
        } else if str_eq(s, "EXECUTE") {
            PastDueStrategy::Execute
        } else {
            PastDueStrategy::Default
        }
    }

    /// The wire name.
    pub fn to_str(&self) -> (r: &str)
        ensures
            r@ == past_due_strategy_name(*self),
    {
        match self {
            PastDueStrategy::Default => "DEFAULT",
            PastDueStrategy::Ignore => "IGNORE",
            PastDueStrategy::Execute => "EXECUTE",
        }
    }
}

impl Default for PastDueStrategy {
    fn default() -> (r: Self)
        ensures
            r == PastDueStrategy::Default,
    {
        PastDueStrategy::Default
    }
}

/// Reading the wire name of a `PastDueStrategy` gives it back.
pub proof fn lemma_past_due_strategy_round_trip(t: PastDueStrategy)
    ensures
        past_due_strategy_of(past_due_strategy_name(t)) == t,
        past_due_strategy_name(t).len() <= 32,
{
    reveal_strlit("DEFAULT");
    reveal_strlit("IGNORE");
    reveal_strlit("EXECUTE");
    match t {
        PastDueStrategy::Default => {
            assert("DEFAULT"@.len() != "IGNORE"@.len());
            assert("DEFAULT"@[0] != "EXECUTE"@[0]);
        },
        PastDueStrategy::Ignore => {
            assert("IGNORE"@.len() != "DEFAULT"@.len());
            assert("IGNORE"@.len() != "EXECUTE"@.len());
        },
        PastDueStrategy::Execute => {
            assert("EXECUTE"@[0] != "DEFAULT"@[0]);
            assert("EXECUTE"@.len() != "IGNORE"@.len());
        },
    }
}

/// What an executor does when a trigger arrives while the job still runs.
#[derive(PartialEq, Eq, Structural, Clone, Copy, Debug)]
pub enum ExecutorBlockStrategy {
    SerialExecution,
    DiscardLater,
    CoverEarly,
    Other,
}

/// The wire name of each `ExecutorBlockStrategy`.
pub open spec fn executor_block_strategy_name(t: ExecutorBlockStrategy) -> Seq<char> {
    match t {
        ExecutorBlockStrategy::SerialExecution => "SERIAL_EXECUTION"@,
        ExecutorBlockStrategy::DiscardLater => "DISCARD_LATER"@,
        ExecutorBlockStrategy::CoverEarly => "COVER_EARLY"@,
        ExecutorBlockStrategy::Other => "OTHER"@,
    }
}

/// The `ExecutorBlockStrategy` a wire name denotes (`Other` for any other name).
pub open spec fn executor_block_strategy_of(s: Seq<char>) -> ExecutorBlockStrategy {
    if s == "SERIAL_EXECUTION"@ {
        ExecutorBlockStrategy::SerialExecution
    } else if s == "DISCARD_LATER"@ {
        ExecutorBlockStrategy::DiscardLater
    } else if s == "COVER_EARLY"@ {
        ExecutorBlockStrategy::CoverEarly
    } else {
        ExecutorBlockStrategy::Other
    }
}

impl ExecutorBlockStrategy {
    /// Reads a wire name.
    pub fn from_str(s: &str) -> (r: ExecutorBlockStrategy)
        ensures
            r == executor_block_strategy_of(s@),
    {
        if str_eq(s, "SERIAL_EXECUTION") {
            ExecutorBlockStrategy::SerialExecution
        } else if str_eq(s, "DISCARD_LATER") {
            ExecutorBlockStrategy::DiscardLater
        } else if str_eq(s, "COVER_EARLY") {
            ExecutorBlockStrategy::CoverEarly
        } else {
            ExecutorBlockStrategy::Other
        }
    }

    /// The wire name.
    pub fn to_str(&self) -> (r: &str)
        ensures
            r@ == executor_block_strategy_name(*self),
    {
        match self {
            ExecutorBlockStrategy::SerialExecution => "SERIAL_EXECUTION",
            ExecutorBlockStrategy::DiscardLater => "DISCARD_LATER",
            ExecutorBlockStrategy::CoverEarly => "COVER_EARLY",
            ExecutorBlockStrategy::Other => "OTHER",
        }
    }
}

impl Default for ExecutorBlockStrategy {
    fn default() -> (r: Self)
        ensures
            r == ExecutorBlockStrategy::SerialExecution,
    {
        ExecutorBlockStrategy::SerialExecution
    }
}

/// Reading the wire name of a `ExecutorBlockStrategy` gives it back.
pub proof fn lemma_executor_block_strategy_round_trip(t: ExecutorBlockStrategy)
    ensures
        executor_block_strategy_of(executor_block_strategy_name(t)) == t,
        executor_block_strategy_name(t).len() <= 32,
{
    reveal_strlit("SERIAL_EXECUTION");
    reveal_strlit("DISCARD_LATER");
    reveal_strlit("COVER_EARLY");
    reveal_strlit("OTHER");
    match t {
        ExecutorBlockStrategy::SerialExecution => {
            assert("SERIAL_EXECUTION"@.len() != "DISCARD_LATER"@.len());
            assert("SERIAL_EXECUTION"@.len() != "COVER_EARLY"@.len());
            assert("SERIAL_EXECUTION"@.len() != "OTHER"@.len());
        },
        ExecutorBlockStrategy::DiscardLater => {
            assert("DISCARD_LATER"@.len() != "SERIAL_EXECUTION"@.len());
            assert("DISCARD_LATER"@.len() != "COVER_EARLY"@.len());
            assert("DISCARD_LATER"@.len() != "OTHER"@.len());
        },
        ExecutorBlockStrategy::CoverEarly => {
            assert("COVER_EARLY"@.len() != "SERIAL_EXECUTION"@.len());
            assert("COVER_EARLY"@.len() != "DISCARD_LATER"@.len());
            assert("COVER_EARLY"@.len() != "OTHER"@.len());
        },
        ExecutorBlockStrategy::Other => {
            assert("OTHER"@.len() != "SERIAL_EXECUTION"@.len());
            assert("OTHER"@.len() != "DISCARD_LATER"@.len());
            assert("OTHER"@.len() != "COVER_EARLY"@.len());
        },
    }
}

} // verus!
