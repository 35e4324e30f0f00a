//! Session records and the small conversions used when moving session fields
//! in and out of a signed integer store.

use crate::text::str_eq;
use vstd::prelude::*;

verus! {

/// Error for a stored value that does not fit its target representation.
#[derive(Debug, Clone, Copy, PartialEq, Eq, Structural)]
pub enum ConversionError {
    /// A `u64` too large for a signed 64-bit column.
    TooLarge,
    /// An `i64` column held a negative value.
    Negative,
    /// A status column held none of the four canonical forms.
    UnknownStatus,
}

/// Converts a `u64` counter to the signed 64-bit range, rejecting values
/// that do not fit.
pub fn to_i64(value: u64) -> (r: Result<i64, ConversionError>)
    ensures
        value <= i64::MAX ==> r == Ok::<i64, ConversionError>(value as i64),
        value > i64::MAX ==> r == Err::<i64, ConversionError>(ConversionError::TooLarge),
{
    if value <= i64::MAX as u64 {
        Ok(value as i64)
    } else {
        Err(ConversionError::TooLarge)
    }
}

/// Converts a signed 64-bit column back to a `u64` counter, rejecting
/// negative values.
pub fn to_u64(value: i64) -> (r: Result<u64, ConversionError>)
    ensures
        value >= 0 ==> r == Ok::<u64, ConversionError>(value as u64),
        value < 0 ==> r == Err::<u64, ConversionError>(ConversionError::Negative),
{
    if value >= 0 {
        Ok(value as u64)
    } else {
        Err(ConversionError::Negative)
    }
}

/// Lifecycle state of a stored session.
#[derive(Debug, Clone, Copy, PartialEq, Eq, Structural)]
pub enum SessionStatus {
    Running,
    Completed,
    Cancelled,
    Interrupted,
}

impl SessionStatus {
    /// The canonical text form of the status, as stored.
    pub fn as_str(&self) -> (r: &'static str)
        ensures
            *self == SessionStatus::Running ==> r@ == "Running"@,
            *self == SessionStatus::Completed ==> r@ == "Completed"@,
            *self == SessionStatus::Cancelled ==> r@ == "Cancelled"@,
            *self == SessionStatus::Interrupted ==> r@ == "Interrupted"@,
    {
        match self {
            SessionStatus::Running => "Running",
            SessionStatus::Completed => "Completed",
            SessionStatus::Cancelled => "Cancelled",
            SessionStatus::Interrupted => "Interrupted",
        }
    }
}

/// Parses the canonical text form of a status; exactly the four forms
/// produced by `as_str` are accepted.
pub fn parse_status(value: &str) -> (r: Result<SessionStatus, ConversionError>)
    ensures
        value@ == "Running"@ ==> r == Ok::<SessionStatus, ConversionError>(SessionStatus::Running),
        value@ == "Completed"@ ==> r == Ok::<SessionStatus, ConversionError>(
            SessionStatus::Completed,
        ),
        value@ == "Cancelled"@ ==> r == Ok::<SessionStatus, ConversionError>(
            SessionStatus::Cancelled,
        ),
        value@ == "Interrupted"@ ==> r == Ok::<SessionStatus, ConversionError>(
            SessionStatus::Interrupted,
        ),
        value@ != "Running"@ && value@ != "Completed"@ && value@ != "Cancelled"@ && value@
            != "Interrupted"@ ==> r == Err::<SessionStatus, ConversionError>(
            ConversionError::UnknownStatus,
        ),
{
    proof {
        reveal_strlit("Running");
        reveal_strlit("Completed");
        reveal_strlit("Cancelled");
        reveal_strlit("Interrupted");
        assert("Running"@.len() == 7);
        assert("Completed"@.len() == 9);
        assert("Cancelled"@.len() == 9);
        assert("Interrupted"@.len() == 11);
        assert("Completed"@[1] == 'o');
        assert("Cancelled"@[1] == 'a');
    }
    if str_eq(value, "Running") {
        Ok(SessionStatus::Running)
    } else if str_eq(value, "Completed") {
        Ok(SessionStatus::Completed)
    } else if str_eq(value, "Cancelled") {
        Ok(SessionStatus::Cancelled)
    } else if str_eq(value, "Interrupted") {
        Ok(SessionStatus::Interrupted)
    } else {
        Err(ConversionError::UnknownStatus)
    }
}

/// A focus session as recorded by the store.  Wall-clock fields hold Unix
/// milliseconds.
#[derive(Debug, Clone, PartialEq)]
pub struct Session {
    pub id: String,
    pub started_at: i64,
    pub stopped_at: Option<i64>,
    pub status: SessionStatus,
    pub target_ms: u64,
    pub active_ms: u64,
    pub created_at: i64,
    pub updated_at: i64,
}

/// The subset of a session surfaced to the host UI.
#[derive(Debug, Clone, PartialEq)]
pub struct SessionInfo {
    pub id: String,
    pub started_at: i64,
    pub stopped_at: Option<i64>,
    pub status: SessionStatus,
    pub target_ms: u64,
    pub active_ms: u64,
}

impl SessionInfo {
    /// Projects a stored session onto the fields the UI consumes.
    pub fn of_session(session: &Session) -> (r: SessionInfo)
        ensures
            r.id == session.id,
            r.started_at == session.started_at,
            r.stopped_at == session.stopped_at,
            r.status == session.status,
            r.target_ms == session.target_ms,
            r.active_ms == session.active_ms,
    {
        SessionInfo {
            id: session.id.clone(),
            started_at: session.started_at,
            stopped_at: session.stopped_at,
            status: session.status,
            target_ms: session.target_ms,
            active_ms: session.active_ms,
        }
    }
}

/// Per-app detail over a time range: window titles with their reading
/// counts.
#[derive(Debug, Clone, PartialEq)]
pub struct AppDetails {
    pub window_titles: Vec<(String, i64)>,
}

/// Crash recovery: a session found still `Running` at startup is marked
/// `Interrupted` at the given wall-clock time; no session is silently
/// discarded.
pub fn recover_interrupted(session: &Session, now_wall_ms: i64) -> (r: Session)
    requires
        session.status == SessionStatus::Running,
    ensures
        r.status == SessionStatus::Interrupted,
        r.stopped_at == Some(now_wall_ms),
        r.updated_at == now_wall_ms,
        r.id == session.id,
        r.started_at == session.started_at,
        r.target_ms == session.target_ms,
        r.active_ms == session.active_ms,
        r.created_at == session.created_at,
{
    Session {
        status: SessionStatus::Interrupted,
        stopped_at: Some(now_wall_ms),
        updated_at: now_wall_ms,
        id: session.id.clone(),
        started_at: session.started_at,
        target_ms: session.target_ms,
        active_ms: session.active_ms,
        created_at: session.created_at,
    }
}

} // verus!
