//! The failures that the library reports.

use vstd::prelude::*;

verus! {

/// What went wrong in a request to the comment engine.
#[derive(Debug, PartialEq, Eq)]
pub enum ErrorKind {
    /// No session secret could be generated.
    SessionHash,
    /// No session secret is stored.
    NoSession,
    /// No thread is stored for the given path.
    NoThread(String),
    /// A row that a request needs was not found.
    DBRead,
    /// A row could not be stored.
    DBInsert,
    /// The identity or the edit window did not allow the request.
    Unauthorized,
    /// This voter has already voted on this comment.
    AlreadyVoted,
    /// The stored rows contradict each other.
    DataIntegrity,
    /// The path was not found on the blog's host.
    PathCheckFailed,
    /// The configured host lacks an `http://` or `https://` prefix.
    NoHTTPHandle,
    /// Email notifications are on, but an SMTP setting is empty.
    EmptySMTP,
    /// Email notifications are on, but no recipient address is given.
    EmptyRecipientEmail,
}

impl ErrorKind {
    /// A sentence that describes the failure.
    pub fn message(&self) -> String {
        match self {
            ErrorKind::SessionHash => String::from_str("Unable to generate a session hash"),
            ErrorKind::NoSession => String::from_str(
                "Unable to read session information from database",
            ),
            ErrorKind::NoThread(_) => String::from_str(
                "Unable to read thread information from database",
            ),
            ErrorKind::DBRead => String::from_str("Unable to parse response from database query"),
            ErrorKind::DBInsert => String::from_str("Database query to insert data failed"),
            ErrorKind::Unauthorized => String::from_str(
                "Unable to complete request without correct authorization",
            ),
            ErrorKind::AlreadyVoted => String::from_str("A vote from this user is already counted"),
            ErrorKind::DataIntegrity => String::from_str("Stored comments contradict each other"),
            ErrorKind::PathCheckFailed => String::from_str("Could not find path on blog server"),
            ErrorKind::NoHTTPHandle => String::from_str(
                "The configuration parameter 'host' requires either a http:// or https:// prefix",
            ),
            ErrorKind::EmptySMTP => String::from_str(
                "Email notifications have been enabled, but one or more of the SMTP server configuration options are empty.",
            ),
            ErrorKind::EmptyRecipientEmail => String::from_str(
                "Email notifications have been enabled, but no email address has been given to send notifications to.",
            ),
        }
    }
}

} // verus!
