//! Verified core of a distributed job scheduling service: application and
//! job indexes, namespace bookkeeping, job configuration rules and the
//! text conventions (registry keys, enum names, storage keys) they rest on.

pub mod text;
pub mod namespace_util;
pub mod registry_util;
pub mod enum_type;
pub mod runs;
pub mod app_model;
pub mod app_index;
pub mod job_index;
pub mod id_list;
pub mod cron_utils;
pub mod job_model;
pub mod str_list;
pub mod namespace;
pub mod job_manager;
pub mod app_list;
pub mod datetime;
pub mod app_manager;
pub mod metrics_key;
pub mod common_model;
pub mod console_model;
pub mod decimal;
pub mod app_config;
pub mod http_utils;
pub mod grpc;
pub mod console_types;
pub mod wire;
pub mod data_object;
pub mod snapshot;
pub mod login_middle;
pub mod login_api;
pub mod namespace_api;
pub mod console_api;
