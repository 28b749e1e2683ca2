//! Who gets the summary by email.

use crate::text::{duplicate_strings, string_views};
use crate::config::Config;
use vstd::prelude::*;

verus! {

/// The mail server that takes the messages.
pub const SMTP_HOST: &'static str = "smtp.mail.me.com";

/// The port of the mail server on which a connection is upgraded to TLS.
pub const SMTP_PORT: u16 = 587;

/// How many seconds the mail server is given.
pub const SMTP_TIMEOUT_SECS: u64 = 20;

/// The subject line of every message.
pub const EMAIL_SUBJECT: &'static str = "LFC news summary";

/// What is needed to send the summary by email.
#[derive(Debug, Clone, PartialEq, Eq)]
pub struct EmailPlan {
    pub username: String,
    pub app_password: String,
    pub recipients: Vec<String>,
}

/// Email is due: there is at least one recipient, and a user name and an
/// app password are set.
pub open spec fn email_is_due(cfg: Config) -> bool {
    &&& cfg.emails matches Some(recipients) && recipients@.len() > 0
    &&& cfg.email_username is Some
    &&& cfg.email_app_password is Some
}

/// Decides whether the summary goes out by email, and to whom. Nothing is
/// sent where the settings name no recipient, or lack the user name or the
/// app password; otherwise every recipient gets a message, in the order of
/// the settings.
pub fn email_plan(cfg: &Config) -> (plan: Option<EmailPlan>)
    ensures
        match plan {
            Some(p) => {
                &&& email_is_due(*cfg)
                &&& p.username@ == cfg.email_username->0@
                &&& p.app_password@ == cfg.email_app_password->0@
                &&& string_views(p.recipients@) == string_views(cfg.emails->0@)
            },
            None => !email_is_due(*cfg),
        },
{
    let recipients: &Vec<String> = match &cfg.emails {
        Some(r) => r,
        None => {
            return None;
        },
    };
    if recipients.len() == 0 {
        return None;
    }
    let username: &String = match &cfg.email_username {
        Some(u) => u,
        None => {
            return None;
        },
    };
    let app_password: &String = match &cfg.email_app_password {
        Some(p) => p,
        None => {
            return None;
        },
    };
    Some(
        EmailPlan {
            username: username.clone(),
            app_password: app_password.clone(),
            recipients: duplicate_strings(recipients),
        },
    )
}

} // verus!
