//! The service's configuration, as read from environment variables.
use crate::decimal::{
    bool_of, decimal_of, i32_of, parse_bool, parse_i32, parse_u16, parse_u32, parse_u64,
    parse_usize, push_decimal, unsigned_of,
};
use vstd::prelude::*;
use vstd::string::StringExecFns;

verus! {

/// Where data is kept when nothing else says.
pub const DEFAULT_DB_PATH: &'static str = "ratch_db";

/// The path prefix of the job admin API when nothing else says.
pub const DEFAULT_XXL_JOB_ADMIN_PREFIX_PATH: &'static str = "/xxl-job-admin";

/// The values of the environment variables the configuration is read from,
/// each absent where the variable is not set (or not text). `home_data_dir`
/// is the data directory under the user's home, where the platform has one.
#[derive(Debug, Default)]
pub struct EnvSettings {
    pub run_in_docker: Option<String>,
    pub data_dir: Option<String>,
    pub home_data_dir: Option<String>,
    pub xxl_job_prefix_path: Option<String>,
    pub xxl_default_access_token: Option<String>,
    pub http_api_port: Option<String>,
    pub http_console_port: Option<String>,
    pub grpc_cluster_port: Option<String>,
    pub instance_health_timeout: Option<String>,
    pub http_workers: Option<String>,
    pub gmt_offset_hours: Option<String>,
    pub cluster_token: Option<String>,
    pub raft_node_id: Option<String>,
    pub raft_node_addr: Option<String>,
    pub raft_auto_init: Option<String>,
    pub raft_join_addr: Option<String>,
    pub raft_snapshot_log_size: Option<String>,
    pub metrics_log_enable: Option<String>,
    pub metrics_log_interval_second: Option<String>,
    pub metrics_enable: Option<String>,
    pub metrics_collect_interval_second: Option<String>,
    pub task_request_parallel: Option<String>,
    pub console_captcha_enable: Option<String>,
    pub console_login_timeout: Option<String>,
    pub init_admin_username: Option<String>,
    pub init_admin_password: Option<String>,
}

/// The service's configuration.
#[derive(Debug, Default)]
pub struct AppConfig {
    pub local_db_dir: String,
    pub http_api_port: u16,
    pub xxl_job_prefix_path: String,
    pub xxl_default_access_token: String,
    pub app_instance_health_timeout: u32,
    pub http_console_port: u16,
    pub http_workers: Option<usize>,
    pub grpc_cluster_port: u16,
    pub run_in_docker: bool,
    pub gmt_fixed_offset_hours: Option<i32>,
    pub raft_node_id: u64,
    pub raft_node_addr: String,
    pub raft_auto_init: bool,
    pub raft_join_addr: String,
    pub raft_snapshot_log_size: u64,
    pub cluster_token: String,
    pub metrics_enable: bool,
    pub metrics_collect_interval_second: u64,
    pub metrics_log_interval_second: u64,
    pub metrics_log_enable: bool,
    pub task_request_parallel: usize,
    pub console_captcha_enable: bool,
    pub console_login_timeout: i32,
    pub init_admin_username: String,
    pub init_admin_password: String,
}

/// The unsigned number a variable holds (at most `max`), or `d` where it is
/// absent or not such a number.
pub open spec fn number_or(v: Option<String>, max: int, d: int) -> int {
    match v {
        Some(s) => match unsigned_of(s@, max) {
            Some(x) => x,
            None => d,
        },
        None => d,
    }
}

/// The boolean a variable holds, or `d` where it is absent or not `true`/`false`.
pub open spec fn bool_or(v: Option<String>, d: bool) -> bool {
    match v {
        Some(s) => match bool_of(s@) {
            Some(b) => b,
            None => d,
        },
        None => d,
    }
}

/// The text of a variable, or `d` where it is absent.
pub open spec fn text_or(v: Option<String>, d: Seq<char>) -> Seq<char> {
    match v {
        Some(s) => s@,
        None => d,
    }
}

/// ASCII letters lowered; other characters kept.
pub open spec fn ascii_lower(c: char) -> char {
    if 'A' <= c && c <= 'Z' {
        ((c as int) + 32) as char
    } else {
        c
    }
}

/// Equal but for the case of ASCII letters.
pub open spec fn eq_ignore_ascii_case(a: Seq<char>, b: Seq<char>) -> bool {
    a.len() == b.len() && forall|i: int| 0 <= i < a.len() ==> ascii_lower(#[trigger] a[i]) == ascii_lower(b[i])
}

/// The API port configured, 8725 by default.
pub open spec fn api_port(env: EnvSettings) -> int {
    number_or(env.http_api_port, 0xffff, 8725)
}

/// The gRPC port configured, 200 above the API port by default.
pub open spec fn grpc_port(env: EnvSettings) -> int {
    number_or(env.grpc_cluster_port, 0xffff, api_port(env) + 200)
}

/// A path prefix of fewer than two bytes is replaced by the default.
pub open spec fn prefix_too_short(s: Seq<char>) -> bool {
    s.len() == 0 || (s.len() == 1 && (s[0] as int) < 0x80)
}

/// The data directory: the one configured; in Docker the default; else the one
/// under the home directory where there is one; else the default.
pub open spec fn data_dir_of(env: EnvSettings, docker: bool) -> Seq<char> {
    match env.data_dir {
        Some(d) => d@,
        None => if docker {
            DEFAULT_DB_PATH@
        } else {
            text_or(env.home_data_dir, DEFAULT_DB_PATH@)
        },
    }
}

/// The job admin path prefix: the one configured unless it is under two bytes long.
pub open spec fn prefix_of(env: EnvSettings) -> Seq<char> {
    match env.xxl_job_prefix_path {
        Some(p) => if prefix_too_short(p@) {
            DEFAULT_XXL_JOB_ADMIN_PREFIX_PATH@
        } else {
            p@
        },
        None => DEFAULT_XXL_JOB_ADMIN_PREFIX_PATH@,
    }
}

/// The metrics log interval: 60 s by default, at least 5 s.
pub open spec fn log_interval_of(env: EnvSettings) -> int {
    let v = number_or(env.metrics_log_interval_second, u64::MAX as int, 60);
    if v < 5 {
        5
    } else {
        v
    }
}

/// The metrics collect interval: 15 s by default, at most the log interval.
pub open spec fn collect_interval_of(env: EnvSettings) -> int {
    let v = number_or(env.metrics_collect_interval_second, u64::MAX as int, 15);
    if log_interval_of(env) < v {
        log_interval_of(env)
    } else {
        v
    }
}

/// The signed 32-bit number a variable holds, or `d` where it is absent or not
/// such a number.
pub open spec fn i32_or(v: Option<String>, d: int) -> int {
    match v {
        Some(s) => match i32_of(s@) {
            Some(x) => x,
            None => d,
        },
        None => d,
    }
}

/// The address `host:port`.
pub open spec fn addr_of(host: Seq<char>, port: u16) -> Seq<char> {
    host + decimal_of(port as nat)
}

/// The unsigned number a variable holds, or `d`.
/// The API port the settings give: the variable's number, or 8725.
pub fn configured_api_port(env: &EnvSettings) -> (r: u16)
    ensures
        r == api_port(*env),
{
    u16_or(&env.http_api_port, 8725)
}

fn u16_or(v: &Option<String>, d: u16) -> (r: u16)
    ensures
        r == number_or(*v, 0xffff, d as int),
{
    match v {
        Some(s) => match parse_u16(s.as_str()) {
            Some(x) => x,
            None => d,
        },
        None => d,
    }
}

/// The unsigned number a variable holds, or `d`.
fn u32_or(v: &Option<String>, d: u32) -> (r: u32)
    ensures
        r == number_or(*v, 0xffff_ffff, d as int),
{
    match v {
        Some(s) => match parse_u32(s.as_str()) {
            Some(x) => x,
            None => d,
        },
        None => d,
    }
}

/// The unsigned number a variable holds, or `d`.
fn u64_or(v: &Option<String>, d: u64) -> (r: u64)
    ensures
        r == number_or(*v, u64::MAX as int, d as int),
{
    match v {
        Some(s) => match parse_u64(s.as_str()) {
            Some(x) => x,
            None => d,
        },
        None => d,
    }
}

/// The unsigned number (fitting `usize`) a variable holds, or `d`.
fn usize_or(v: &Option<String>, d: usize) -> (r: usize)
    ensures
        r == number_or(*v, usize::MAX as int, d as int),
{
    match v {
        Some(s) => match parse_usize(s.as_str()) {
            Some(x) => x,
            None => d,
        },
        None => d,
    }
}

/// The signed 32-bit number a variable holds, or `d`.
fn i32_or_default(v: &Option<String>, d: i32) -> (r: i32)
    ensures
        r == i32_or(*v, d as int),
{
    match v {
        Some(s) => match parse_i32(s.as_str()) {
            Some(x) => x,
            None => d,
        },
        None => d,
    }
}

/// The boolean a variable holds, or `d`.
fn bool_or_default(v: &Option<String>, d: bool) -> (r: bool)
    ensures
        r == bool_or(*v, d),
{
    match v {
        Some(s) => match parse_bool(s.as_str()) {
            Some(x) => x,
            None => d,
        },
        None => d,
    }
}

/// The text of a variable, or `d`.
fn text_or_default(v: &Option<String>, d: &str) -> (r: String)
    ensures
        r@ == text_or(*v, d@),
{
    match v {
        Some(s) => s.clone(),
        None => d.to_owned(),
    }
}

/// Whether `a` equals `b` but for the case of ASCII letters.
pub fn str_eq_ignore_ascii_case(a: &str, b: &str) -> (r: bool)
    ensures
        r == eq_ignore_ascii_case(a@, b@),
{
    let n = a.unicode_len();
    if n != b.unicode_len() {
        return false;
    }
    let mut i: usize = 0;
    while i < n
        invariant
            n == a@.len(),
            n == b@.len(),
            i <= n,
            forall|j: int| 0 <= j < i ==> ascii_lower(#[trigger] a@[j]) == ascii_lower(b@[j]),
        decreases n - i,
    {
        let x = lower_char(a.get_char(i));
        let y = lower_char(b.get_char(i));
        if x != y {
            return false;
        }
        i = i + 1;
    }
    true
}

/// The character with an ASCII letter lowered.
fn lower_char(c: char) -> (r: char)
    ensures
        r == ascii_lower(c),
{
    if 'A' <= c && c <= 'Z' {
        let v: u32 = (c as u32) + 32;
        proof {
            assert(v < 0x80);
        }
        #[verifier::truncate]
        (v as u8) as char
    } else {
        c
    }
}

impl AppConfig {
    /// The configuration the environment values give. Every number defaults
    /// where its variable is absent or does not parse: API port 8725, console
    /// and gRPC ports 100 and 200 above it, instance time-out 90 s, node id 1,
    /// snapshot log size 10000, metrics log interval 60 s (at least 5 s),
    /// metrics collect interval 15 s (at most the log interval). The node
    /// initialises the cluster by default where its id is 1; its address is
    /// `127.0.0.1` at the gRPC port by default. Tasks are requested 20 at a
    /// time, the console asks for a captcha, its logins last 86400 s, and the
    /// first administrator is `admin` with password `admin`, by default.
    pub fn from_env(env: EnvSettings) -> (r: AppConfig)
        requires
            api_port(env) + 200 <= 0xffff,
        ensures
            r.run_in_docker == (env.run_in_docker is Some && eq_ignore_ascii_case(
                env.run_in_docker->0@,
                "true"@,
            )),
            r.local_db_dir@ == data_dir_of(env, r.run_in_docker),
            r.xxl_job_prefix_path@ == prefix_of(env),
            r.xxl_default_access_token@ == text_or(env.xxl_default_access_token, "default_token"@),
            r.http_api_port == api_port(env),
            r.http_console_port == number_or(env.http_console_port, 0xffff, api_port(env) + 100),
            r.grpc_cluster_port == grpc_port(env),
            r.app_instance_health_timeout == number_or(env.instance_health_timeout, 0xffff_ffff, 90),
            r.http_workers == match env.http_workers {
                Some(s) => match unsigned_of(s@, usize::MAX as int) {
                    Some(x) => Some(x as usize),
                    None => None::<usize>,
                },
                None => None::<usize>,
            },
            r.gmt_fixed_offset_hours == match env.gmt_offset_hours {
                Some(s) => match i32_of(s@) {
                    Some(x) => Some(x as i32),
                    None => None::<i32>,
                },
                None => None::<i32>,
            },
            r.cluster_token@ == text_or(env.cluster_token, Seq::empty()),
            r.raft_node_id == number_or(env.raft_node_id, u64::MAX as int, 1),
            r.raft_node_addr@ == text_or(
                env.raft_node_addr,
                addr_of("127.0.0.1:"@, r.grpc_cluster_port),
            ),
            r.raft_auto_init == bool_or(env.raft_auto_init, r.raft_node_id == 1),
            r.raft_join_addr@ == text_or(env.raft_join_addr, Seq::empty()),
            r.raft_snapshot_log_size == number_or(env.raft_snapshot_log_size, u64::MAX as int, 10000),
            r.metrics_log_enable == bool_or(env.metrics_log_enable, false),
            r.metrics_log_interval_second == log_interval_of(env),
            r.metrics_enable == bool_or(env.metrics_enable, true),
            r.metrics_collect_interval_second == collect_interval_of(env),
            r.task_request_parallel == number_or(env.task_request_parallel, usize::MAX as int, 20),
            r.console_captcha_enable == bool_or(env.console_captcha_enable, true),
            r.console_login_timeout == i32_or(env.console_login_timeout, 86400),
            r.init_admin_username@ == text_or(env.init_admin_username, "admin"@),
            r.init_admin_password@ == text_or(env.init_admin_password, "admin"@),
    {
        let run_in_docker = match &env.run_in_docker {
            Some(v) => str_eq_ignore_ascii_case(v.as_str(), "true"),
            None => false,
        };
        let local_db_dir = match &env.data_dir {
            Some(v) => v.clone(),
            None => if run_in_docker {
                DEFAULT_DB_PATH.to_owned()
            } else {
                text_or_default(&env.home_data_dir, DEFAULT_DB_PATH)
            },
        };
        let xxl_job_prefix_path = match &env.xxl_job_prefix_path {
            Some(v) => {
                let n = v.as_str().unicode_len();
                if n == 0 || (n == 1 && (v.as_str().get_char(0) as u32) < 0x80) {
                    DEFAULT_XXL_JOB_ADMIN_PREFIX_PATH.to_owned()
                } else {
                    v.clone()
                }
            },
            None => DEFAULT_XXL_JOB_ADMIN_PREFIX_PATH.to_owned(),
        };
        let xxl_default_access_token = text_or_default(&env.xxl_default_access_token, "default_token");
        let http_api_port = u16_or(&env.http_api_port, 8725);
        let http_console_port = u16_or(&env.http_console_port, http_api_port + 100);
        let grpc_cluster_port = u16_or(&env.grpc_cluster_port, http_api_port + 200);
        let app_instance_health_timeout = u32_or(&env.instance_health_timeout, 90);
        let http_workers = match &env.http_workers {
            Some(s) => parse_usize(s.as_str()),
            None => None,
        };
        let gmt_fixed_offset_hours = match &env.gmt_offset_hours {
            Some(s) => parse_i32(s.as_str()),
            None => None,
        };
        let cluster_token = text_or_default(&env.cluster_token, "");
        let raft_node_id = u64_or(&env.raft_node_id, 1);
        let raft_node_addr = match &env.raft_node_addr {
            Some(v) => v.clone(),
            None => {
                let mut s = "127.0.0.1:".to_owned();
                push_decimal(&mut s, grpc_cluster_port as u64);
                s
            },
        };
        let raft_auto_init = bool_or_default(&env.raft_auto_init, raft_node_id == 1);
        let raft_join_addr = text_or_default(&env.raft_join_addr, "");
        let raft_snapshot_log_size = u64_or(&env.raft_snapshot_log_size, 10000);
        let metrics_log_enable = bool_or_default(&env.metrics_log_enable, false);
        let mut metrics_log_interval_second = u64_or(&env.metrics_log_interval_second, 60);
        if metrics_log_interval_second < 5 {
            metrics_log_interval_second = 5;
        }
        let metrics_enable = bool_or_default(&env.metrics_enable, true);
        let mut metrics_collect_interval_second = u64_or(&env.metrics_collect_interval_second, 15);
        if metrics_log_interval_second < metrics_collect_interval_second {
            metrics_collect_interval_second = metrics_log_interval_second;
        }
        let task_request_parallel = usize_or(&env.task_request_parallel, 20);
        let console_captcha_enable = bool_or_default(&env.console_captcha_enable, true);
        let console_login_timeout = i32_or_default(&env.console_login_timeout, 86400);
        let init_admin_username = text_or_default(&env.init_admin_username, "admin");
        let init_admin_password = text_or_default(&env.init_admin_password, "admin");
        proof {
            reveal_strlit("");
        }
        AppConfig {
            task_request_parallel,
            console_captcha_enable,
            console_login_timeout,
            init_admin_username,
            init_admin_password,
            local_db_dir,
            http_api_port,
            xxl_job_prefix_path,
            xxl_default_access_token,
            app_instance_health_timeout,
            http_console_port,
            http_workers,
            grpc_cluster_port,
            run_in_docker,
            gmt_fixed_offset_hours,
            cluster_token,
            raft_node_id,
            raft_node_addr,
            raft_auto_init,
            raft_join_addr,
            raft_snapshot_log_size,
            metrics_enable,
            metrics_log_enable,
            metrics_collect_interval_second,
            metrics_log_interval_second,
        }
    }

    /// The address the cluster's gRPC service listens on: all interfaces at its port.
    pub fn get_grpc_cluster_addr(&self) -> (r: String)
        ensures
            r@ == addr_of("0.0.0.0:"@, self.grpc_cluster_port),
    {
        let mut s = "0.0.0.0:".to_owned();
        push_decimal(&mut s, self.grpc_cluster_port as u64);
        s
    }

    /// The address the HTTP API listens on: all interfaces at its port.
    pub fn get_http_api_addr(&self) -> (r: String)
        ensures
            r@ == addr_of("0.0.0.0:"@, self.http_api_port),
    {
        let mut s = "0.0.0.0:".to_owned();
        push_decimal(&mut s, self.http_api_port as u64);
        s
    }

    /// The address the console listens on: all interfaces at its port.
    pub fn get_http_console_addr(&self) -> (r: String)
        ensures
            r@ == addr_of("0.0.0.0:"@, self.http_console_port),
    {
        let mut s = "0.0.0.0:".to_owned();
        push_decimal(&mut s, self.http_console_port as u64);
        s
    }
}


/// The version of this service.
pub fn get_app_version() -> (r: &'static str)
    ensures
        r@ == "0.1.0"@,
{
    "0.1.0"
}

} // verus!
