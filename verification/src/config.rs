//! The user's settings.

use crate::text::{duplicate_strings, optional_text, string_views};
use vstd::prelude::*;

verus! {

/// `std::path::PathBuf`, carried through as an opaque value.
#[verifier::external_type_specification]
#[verifier::external_body]
pub struct ExPathBuf(std::path::PathBuf);

/// `Clone` of `std::path::PathBuf`: the copy is the same path.
pub assume_specification[ <std::path::PathBuf as Clone>::clone ](p: &std::path::PathBuf) -> (res:
    std::path::PathBuf)
    ensures
        res == *p,
;

/// The settings of one installation.
#[derive(Debug)]
pub struct Config {
    pub api_key: String,
    pub model: String,
    pub db_path: std::path::PathBuf,
    pub emails: Option<Vec<String>>,
    pub telegram_chat_ids: Option<Vec<String>>,
    pub telegram_bot_token: Option<String>,
    pub email_username: Option<String>,
    pub email_app_password: Option<String>,
}

/// An optional list of strings as plain values.
pub open spec fn optional_texts(value: Option<Vec<String>>) -> Option<Seq<Seq<char>>> {
    match value {
        Some(list) => Some(string_views(list@)),
        None => None,
    }
}

/// Two sets of settings say the same.
pub open spec fn same_settings(a: Config, b: Config) -> bool {
    &&& a.api_key@ == b.api_key@
    &&& a.model@ == b.model@
    &&& a.db_path == b.db_path
    &&& optional_texts(a.emails) == optional_texts(b.emails)
    &&& optional_texts(a.telegram_chat_ids) == optional_texts(b.telegram_chat_ids)
    &&& optional_text(a.telegram_bot_token) == optional_text(b.telegram_bot_token)
    &&& optional_text(a.email_username) == optional_text(b.email_username)
    &&& optional_text(a.email_app_password) == optional_text(b.email_app_password)
}

/// Copies an optional string.
fn duplicate_optional(value: &Option<String>) -> (copy: Option<String>)
    ensures
        optional_text(copy) == optional_text(*value),
{
    match value {
        Some(s) => Some(s.clone()),
        None => None,
    }
}

/// Copies an optional list of strings.
fn duplicate_optional_list(value: &Option<Vec<String>>) -> (copy: Option<Vec<String>>)
    ensures
        optional_texts(copy) == optional_texts(*value),
{
    match value {
        Some(list) => Some(duplicate_strings(list)),
        None => None,
    }
}

impl Clone for Config {
    /// A copy that says the same.
    fn clone(&self) -> (copy: Config)
        ensures
            same_settings(copy, *self),
    {
        Config {
            api_key: self.api_key.clone(),
            model: self.model.clone(),
            db_path: self.db_path.clone(),
            emails: duplicate_optional_list(&self.emails),
            telegram_chat_ids: duplicate_optional_list(&self.telegram_chat_ids),
            telegram_bot_token: duplicate_optional(&self.telegram_bot_token),
            email_username: duplicate_optional(&self.email_username),
            email_app_password: duplicate_optional(&self.email_app_password),
        }
    }
}

impl Config {
    /// Email can be sent: a user name and an app password are set.
    pub open spec fn email_is_configured(&self) -> bool {
        self.email_username is Some && self.email_app_password is Some
    }

    /// Telegram can be used: a bot token is set.
    pub open spec fn telegram_is_configured(&self) -> bool {
        self.telegram_bot_token is Some
    }

    /// Whether a user name and an app password for email are set.
    pub fn has_email_settings(&self) -> (ready: bool)
        ensures
            ready == self.email_is_configured(),
    {
        self.email_username.is_some() && self.email_app_password.is_some()
    }

    /// Whether a bot token for Telegram is set.
    pub fn has_telegram_token(&self) -> (ready: bool)
        ensures
            ready == self.telegram_is_configured(),
    {
        self.telegram_bot_token.is_some()
    }
}

/// Where the settings file is, and whether it was only just created.
pub struct EnsureOutcome {
    pub path: std::path::PathBuf,
    pub created: bool,
}

} // verus!
