//! Errors of the alert subsystem and the text shown for them.

use vstd::prelude::*;
use crate::text::{dec, push_dec, push_str, string_of};

verus! {

/// What can go wrong with an alert request.
#[derive(Debug)]
pub enum AlertError {
    InvalidCommand(String),
    InvalidRule(String),
    UnknownMarket(String),
    AlertNotFound(String),
    Unauthorized,
    MaxAlertsReached(usize),
    RateLimited,
    DataSource(String),
    Notification(String),
    Storage(String),
}

impl Clone for AlertError {
    fn clone(&self) -> (r: Self)
        ensures
            r == *self,
    {
        match self {
            AlertError::InvalidCommand(m) => AlertError::InvalidCommand(m.clone()),
            AlertError::InvalidRule(m) => AlertError::InvalidRule(m.clone()),
            AlertError::UnknownMarket(m) => AlertError::UnknownMarket(m.clone()),
            AlertError::AlertNotFound(m) => AlertError::AlertNotFound(m.clone()),
            AlertError::Unauthorized => AlertError::Unauthorized,
            AlertError::MaxAlertsReached(n) => AlertError::MaxAlertsReached(*n),
            AlertError::RateLimited => AlertError::RateLimited,
            AlertError::DataSource(m) => AlertError::DataSource(m.clone()),
            AlertError::Notification(m) => AlertError::Notification(m.clone()),
            AlertError::Storage(m) => AlertError::Storage(m.clone()),
        }
    }
}

/// The message a user is shown for an error.
pub open spec fn user_message_of(e: AlertError) -> Seq<char> {
    match e {
        AlertError::InvalidCommand(m) => m@,
        AlertError::InvalidRule(m) => m@,
        AlertError::UnknownMarket(m) => m@,
        AlertError::DataSource(m) => m@,
        AlertError::AlertNotFound(id) => "Alert \""@ + id@
            + "\" was not found. Use `alert list` to see active alerts."@,
        AlertError::Unauthorized => "You can only modify alerts that you created."@,
        AlertError::MaxAlertsReached(limit) => "You reached the maximum of "@ + dec(limit as nat)
            + " alerts. Remove one before adding another."@,
        AlertError::RateLimited => "Notification throughput limit reached. Retrying shortly."@,
        AlertError::Notification(m) => "Internal alert error: "@ + m@,
        AlertError::Storage(m) => "Internal alert error: "@ + m@,
    }
}

/// The error's display text.
pub open spec fn display_of(e: AlertError) -> Seq<char> {
    match e {
        AlertError::InvalidCommand(m) => "invalid command: "@ + m@,
        AlertError::InvalidRule(m) => "invalid rule: "@ + m@,
        AlertError::UnknownMarket(m) => "market slug not found: "@ + m@,
        AlertError::AlertNotFound(m) => "alert not found: "@ + m@,
        AlertError::Unauthorized => "unauthorized alert operation"@,
        AlertError::MaxAlertsReached(n) => "max alerts reached for this user ("@ + dec(n as nat)
            + ")"@,
        AlertError::RateLimited => "rate limit exceeded, please try again shortly"@,
        AlertError::DataSource(m) => "data source error: "@ + m@,
        AlertError::Notification(m) => "notification error: "@ + m@,
        AlertError::Storage(m) => "storage error: "@ + m@,
    }
}

impl AlertError {
    /// The message to show the user who made the request.
    pub fn user_message(&self) -> (s: String)
        ensures
            s@ == user_message_of(*self),
    {
        match self {
            AlertError::InvalidCommand(m) => m.clone(),
            AlertError::InvalidRule(m) => m.clone(),
            AlertError::UnknownMarket(m) => m.clone(),
            AlertError::DataSource(m) => m.clone(),
            AlertError::AlertNotFound(id) => {
                let mut s = string_of("Alert \"");
                push_str(&mut s, id.as_str());
                push_str(&mut s, "\" was not found. Use `alert list` to see active alerts.");
                s
            },
            AlertError::Unauthorized => string_of("You can only modify alerts that you created."),
            AlertError::MaxAlertsReached(limit) => {
                let mut s = string_of("You reached the maximum of ");
                push_dec(&mut s, *limit as u64);
                push_str(&mut s, " alerts. Remove one before adding another.");
                s
            },
            AlertError::RateLimited => string_of(
                "Notification throughput limit reached. Retrying shortly.",
            ),
            AlertError::Notification(m) => {
                let mut s = string_of("Internal alert error: ");
                push_str(&mut s, m.as_str());
                s
            },
            AlertError::Storage(m) => {
                let mut s = string_of("Internal alert error: ");
                push_str(&mut s, m.as_str());
                s
            },
        }
    }

    /// The error's display text, e.g. `invalid rule: ...`.
    pub fn to_string(&self) -> (s: String)
        ensures
            s@ == display_of(*self),
    {
        let (prefix, m): (&str, Option<&String>) = match self {
            AlertError::InvalidCommand(m) => ("invalid command: ", Some(m)),
            AlertError::InvalidRule(m) => ("invalid rule: ", Some(m)),
            AlertError::UnknownMarket(m) => ("market slug not found: ", Some(m)),
            AlertError::AlertNotFound(m) => ("alert not found: ", Some(m)),
            AlertError::Unauthorized => ("unauthorized alert operation", None),
            AlertError::MaxAlertsReached(n) => {
                let mut s = string_of("max alerts reached for this user (");
                push_dec(&mut s, *n as u64);
                push_str(&mut s, ")");
                return s;
            },
            AlertError::RateLimited => ("rate limit exceeded, please try again shortly", None),
            AlertError::DataSource(m) => ("data source error: ", Some(m)),
            AlertError::Notification(m) => ("notification error: ", Some(m)),
            AlertError::Storage(m) => ("storage error: ", Some(m)),
        };
        let mut s = string_of(prefix);
        if let Some(m) = m {
            push_str(&mut s, m.as_str());
        }
        s
    }
}

} // verus!
