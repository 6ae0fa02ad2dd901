//! The console's users, notification settings and command line, as plain data.
use crate::text::{split_on, split_str};
use std::collections::HashMap;
use vstd::prelude::*;

verus! {

/// What a console user may see.
#[derive(Debug, Default)]
pub struct UserPermissions {
    pub resources: Vec<String>,
    pub from: String,
    pub version: String,
    pub username: Option<String>,
}

/// A password change.
#[derive(Debug)]
pub struct ResetPasswordParam {
    pub old_password: String,
    pub new_password: String,
}

/// A user by name and nickname.
#[derive(Debug, Default)]
pub struct UserSimpleVO {
    pub username: Option<String>,
    pub nickname: Option<String>,
}

/// A user as the console shows it; times in milliseconds.
#[derive(Debug, Default)]
pub struct UserVO {
    pub username: String,
    pub nickname: String,
    pub gmt_create: i64,
    pub gmt_modified: i64,
    pub enable: bool,
    pub roles: Vec<String>,
    pub extend_info: HashMap<String, String>,
}

/// A change to a user; absent fields stay. Roles are comma-separated.
#[derive(Debug, Default)]
pub struct UpdateUserInfoParam {
    pub username: String,
    pub nickname: Option<String>,
    pub password: Option<String>,
    pub enable: Option<bool>,
    pub roles: Option<String>,
}

impl UpdateUserInfoParam {
    /// The roles named, split at commas; none where no roles, or an empty text,
    /// are given.
    pub fn get_role_vec(&self) -> (r: Option<Vec<String>>)
        ensures
            match self.roles {
                Some(t) => if t@.len() == 0 {
                    r is None
                } else {
                    r matches Some(v) && v@.len() == split_on(t@, ',').len() && forall|i: int|
                        0 <= i < v@.len() ==> #[trigger] v@[i]@ == split_on(t@, ',')[i]
                },
                None => r is None,
            },
    {
        match &self.roles {
            Some(roles) => {
                if roles.as_str().is_empty() {
                    None
                } else {
                    Some(split_str(roles.as_str(), ','))
                }
            },
            None => None,
        }
    }
}

/// A page of users as the console asks for it.
#[derive(Debug)]
pub struct UserPageParams {
    pub like_username: Option<String>,
    pub is_rev: Option<bool>,
    pub page_no: Option<usize>,
    pub page_size: Option<usize>,
}

/// A new notification channel of an application.
#[derive(Debug, Default)]
pub struct NotifyConfigAdd {
    pub enable: bool,
    pub app_name: String,
    pub namespace: String,
    pub name: String,
    pub channel_type: String,
    pub channel_sub_type: String,
    pub url: String,
    pub email: String,
    pub username: String,
    pub password: String,
    pub token: Option<String>,
}

/// A change to a notification channel.
#[derive(Debug, Default)]
pub struct NotifyConfigUpdate {
    pub id: u64,
    pub enable: bool,
    pub app_name: String,
    pub namespace: String,
    pub name: String,
    pub channel_type: String,
    pub channel_sub_type: String,
    pub url: String,
    pub email: String,
    pub username: String,
    pub password: String,
    pub token: Option<String>,
}

/// The notification channels of an application.
#[derive(Debug, Default)]
pub struct NotifyConfigQuery {
    pub app_name: String,
    pub namespace: String,
}

/// A notification channel to remove.
#[derive(Debug)]
pub struct NotifyConfigRemove {
    pub id: u64,
}

/// A notification channel to show.
#[derive(Debug)]
pub struct NotifyConfigInfo {
    pub id: u64,
}

/// The command line: an optional sub-command and an env file path (empty for
/// the default `.env`).
#[derive(Debug)]
pub struct Cli {
    pub command: Option<Commands>,
    pub env_file: String,
}

/// The sub-commands.
#[derive(Debug, PartialEq, Eq, Structural, Clone, Copy)]
pub enum Commands {
    About,
}

} // verus!
