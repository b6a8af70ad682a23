//! Decides which events of a code-collaboration feed reach the user: a
//! store of snooze rules, the verdict on each event, the lifecycle of a
//! presented event, the decisions of the polling loop, and the commands of the
//! tray menu.

use vstd::prelude::*;

pub mod snooze_config_store;
pub mod text;
pub mod github;
pub mod decision;
pub mod notify;
pub mod notification_manager;
pub mod snooze_notifications;
pub mod tray;
pub mod last_check;

verus! {

/// Settings read from the environment.
pub struct AppConfig {
    pub github_token: String,
}

impl AppConfig {
    /// Builds the configuration from the token value found in the environment,
    /// if any; a missing token leaves an empty one.
    pub fn load(token: Option<String>) -> (r: AppConfig)
        ensures
            token is Some ==> r.github_token@ == token->0@,
            token is None ==> r.github_token@.len() == 0,
    {
        match token {
            Some(t) => AppConfig { github_token: t },
            None => AppConfig { github_token: String::new() },
        }
    }
}

} // verus!
