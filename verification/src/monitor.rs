//! Classification of an observed coding-agent process; sampling the
//! process table is the surrounding application's concern.

use vstd::prelude::*;

verus! {

/// CPU share (thousandths) above which a childless process counts as
/// thinking rather than waiting.
pub const THINKING_CPU_MILLI: u32 = 20;

/// What an observed agent process is doing.
#[derive(Debug, Clone, Copy, PartialEq, Eq, Structural)]
pub enum SessionState {
    /// No children and busy.
    Thinking,
    /// Has child processes.
    Executing,
    /// No children and idle.
    Waiting,
    /// The process exited.
    Done,
}

/// Classifies one observation: an exited process is done; one with
/// children is executing; otherwise the CPU share decides between
/// thinking and waiting.
pub fn classify_session_state(exited: bool, has_children: bool, cpu_milli: u32) -> (r:
    SessionState)
    ensures
        exited ==> r == SessionState::Done,
        !exited && has_children ==> r == SessionState::Executing,
        !exited && !has_children && cpu_milli > THINKING_CPU_MILLI ==> r == SessionState::Thinking,
        !exited && !has_children && cpu_milli <= THINKING_CPU_MILLI ==> r == SessionState::Waiting,
{
    if exited {
        SessionState::Done
    } else if has_children {
        SessionState::Executing
    } else if cpu_milli > THINKING_CPU_MILLI {
        SessionState::Thinking
    } else {
        SessionState::Waiting
    }
}

} // verus!
