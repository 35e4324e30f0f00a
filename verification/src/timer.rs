//! The session timer: a drift-free state machine over a monotonic clock.
//!
//! Elapsed active time is always computable as a stored baseline plus the
//! time since a monotonic anchor, so a reader never observes a stale value;
//! the tick cadence only controls how often progress is persisted and
//! broadcast.  The surrounding application supplies the clock readings:
//! `now_mono_ms` from a monotonic source, `now_wall_ms` from the wall clock.

use crate::session::{Session, SessionStatus};
use vstd::prelude::*;

verus! {

/// Lifecycle of the timer.
#[derive(Debug, Clone, Copy, PartialEq, Eq, Structural)]
pub enum TimerStatus {
    Idle,
    Running,
    Stopped,
}

/// How the timer counts.
#[derive(Debug, Clone, Copy, PartialEq, Eq, Structural)]
pub enum TimerMode {
    /// Counts down toward a target and completes at zero.
    Countdown,
    /// Counts up without a deadline.
    Stopwatch,
    /// Counts down like `Countdown` but persists no session and starts no
    /// capture.
    Break,
}

impl TimerMode {
    /// Deadline-bound modes complete on their own when the target is
    /// reached.
    pub open spec fn is_deadline(self) -> bool {
        self != TimerMode::Stopwatch
    }
}

/// Rejection of an invalid timer operation; the state is left unchanged.
#[derive(Debug, Clone, Copy, PartialEq, Eq, Structural)]
pub enum TimerError {
    /// `start` while a timer is already active.
    TimerAlreadyActive,
    /// A zero target in a deadline-bound mode.
    ZeroTarget,
    /// `end` or `cancel` with no active session.
    NoActiveSession,
}

/// In-memory timer state.  `running_anchor` holds the monotonic instant
/// (milliseconds) at which the current running span began;
/// `active_ms_baseline` accumulates the spans before it.
#[derive(Debug, Clone, PartialEq)]
pub struct TimerState {
    pub status: TimerStatus,
    pub mode: TimerMode,
    pub session_id: Option<String>,
    pub target_ms: u64,
    pub active_ms: u64,
    pub started_at: Option<i64>,
    pub active_ms_baseline: u64,
    pub running_anchor: Option<u64>,
}

impl TimerState {
    /// Structural invariant: an anchor exists exactly while running, and
    /// the target fits the signed range the remaining-time arithmetic
    /// needs.
    pub open spec fn wf(self) -> bool {
        &&& (self.status == TimerStatus::Running <==> self.running_anchor is Some)
        &&& self.target_ms <= i64::MAX
    }

    /// The stored anchor does not lie in the future of `now_mono_ms`.
    pub open spec fn anchored(self, now_mono_ms: u64) -> bool {
        self.running_anchor matches Some(a) ==> a <= now_mono_ms
    }

    /// The true elapsed active time at `now_mono_ms`: baseline plus time
    /// since the anchor while running (saturating), the stored field
    /// otherwise.
    pub open spec fn spec_current_active(self, now_mono_ms: u64) -> u64 {
        match self.running_anchor {
            Some(a) => if self.status == TimerStatus::Running {
                if self.active_ms_baseline + (now_mono_ms - a) > u64::MAX {
                    u64::MAX
                } else {
                    (self.active_ms_baseline + (now_mono_ms - a)) as u64
                }
            } else {
                self.active_ms
            },
            None => self.active_ms,
        }
    }

    /// Remaining milliseconds at `now_mono_ms`: zero when not running,
    /// the distance to the target in a deadline mode, the elapsed time in
    /// stopwatch mode.
    pub open spec fn spec_remaining(self, now_mono_ms: u64) -> int {
        if self.status != TimerStatus::Running {
            0
        } else if self.mode.is_deadline() {
            if self.spec_current_active(now_mono_ms) >= self.target_ms {
                0
            } else {
                self.target_ms - self.spec_current_active(now_mono_ms)
            }
        } else {
            if self.spec_current_active(now_mono_ms) > i64::MAX {
                i64::MAX as int
            } else {
                self.spec_current_active(now_mono_ms) as int
            }
        }
    }

    /// The idle state.
    pub fn new() -> (r: TimerState)
        ensures
            r == TimerState::spec_idle(),
            r.wf(),
    {
        TimerState {
            status: TimerStatus::Idle,
            mode: TimerMode::Countdown,
            session_id: None,
            target_ms: 0,
            active_ms: 0,
            started_at: None,
            active_ms_baseline: 0,
            running_anchor: None,
        }
    }

    /// The idle state, for specifications.
    pub open spec fn spec_idle() -> TimerState {
        TimerState {
            status: TimerStatus::Idle,
            mode: TimerMode::Countdown,
            session_id: None,
            target_ms: 0,
            active_ms: 0,
            started_at: None,
            active_ms_baseline: 0,
            running_anchor: None,
        }
    }

    /// A field-wise copy, visible to the verifier.
    pub fn duplicate(&self) -> (r: TimerState)
        ensures
            r == *self,
    {
        TimerState {
            status: self.status,
            mode: self.mode,
            session_id: match &self.session_id {
                Some(id) => Some(id.clone()),
                None => None,
            },
            target_ms: self.target_ms,
            active_ms: self.active_ms,
            started_at: self.started_at,
            active_ms_baseline: self.active_ms_baseline,
            running_anchor: self.running_anchor,
        }
    }

    /// Computes the true elapsed active time from the anchor.
    pub fn current_active_ms(&self, now_mono_ms: u64) -> (r: u64)
        requires
            self.anchored(now_mono_ms),
        ensures
            r == self.spec_current_active(now_mono_ms),
    {
        match self.running_anchor {
            Some(a) => {
                if self.status == TimerStatus::Running {
                    let delta = now_mono_ms - a;
                    if delta > u64::MAX - self.active_ms_baseline {
                        u64::MAX
                    } else {
                        self.active_ms_baseline + delta
                    }
                } else {
                    self.active_ms
                }
            },
            None => self.active_ms,
        }
    }

    /// Computes the remaining time; non-negative in every mode.
    pub fn remaining_ms(&self, now_mono_ms: u64) -> (r: i64)
        requires
            self.wf(),
            self.anchored(now_mono_ms),
        ensures
            r == self.spec_remaining(now_mono_ms),
            r >= 0,
    {
        match (self.status, self.mode) {
            (TimerStatus::Running, TimerMode::Countdown) | (
                TimerStatus::Running,
                TimerMode::Break,
            ) => {
                let current = self.current_active_ms(now_mono_ms);
                if current >= self.target_ms {
                    0
                } else {
                    (self.target_ms - current) as i64
                }
            },
            (TimerStatus::Running, TimerMode::Stopwatch) => {
                let current = self.current_active_ms(now_mono_ms);
                if current > i64::MAX as u64 {
                    i64::MAX
                } else {
                    current as i64
                }
            },
            _ => 0,
        }
    }

    /// Re-derives the stored `active_ms` from the anchor; every external
    /// read goes through this, so no reader sees a stale value.
    pub fn sync_active_from_anchor(&mut self, now_mono_ms: u64)
        requires
            old(self).anchored(now_mono_ms),
        ensures
            final (self).active_ms == old(self).spec_current_active(now_mono_ms),
            *final (self) == (TimerState { active_ms: final (self).active_ms, ..*old(self) }),
    {
        let current = self.current_active_ms(now_mono_ms);
        self.active_ms = current;
    }

    /// Enters the running state for a fresh session.
    pub fn begin_session(
        &mut self,
        session_id: Option<String>,
        target_ms: u64,
        mode: TimerMode,
        started_at_wall_ms: i64,
        now_mono_ms: u64,
    )
        requires
            target_ms <= i64::MAX,
        ensures
            *final (self) == (TimerState {
                status: TimerStatus::Running,
                mode,
                session_id,
                target_ms,
                active_ms: 0,
                started_at: Some(started_at_wall_ms),
                active_ms_baseline: 0,
                running_anchor: Some(now_mono_ms),
            }),
            final (self).wf(),
            final (self).anchored(now_mono_ms),
    {
        *self = TimerState {
            status: TimerStatus::Running,
            mode,
            session_id,
            target_ms,
            active_ms: 0,
            started_at: Some(started_at_wall_ms),
            active_ms_baseline: 0,
            running_anchor: Some(now_mono_ms),
        };
    }

    /// Stops the clock: the true elapsed time is materialized and the
    /// anchor cleared.
    pub fn stop(&mut self, now_mono_ms: u64)
        requires
            old(self).wf(),
            old(self).anchored(now_mono_ms),
        ensures
            final (self).status == TimerStatus::Stopped,
            final (self).active_ms == old(self).spec_current_active(now_mono_ms),
            final (self).active_ms_baseline == final (self).active_ms,
            final (self).running_anchor is None,
            final (self).mode == old(self).mode,
            final (self).session_id == old(self).session_id,
            final (self).target_ms == old(self).target_ms,
            final (self).started_at == old(self).started_at,
            final (self).wf(),
    {
        let current = self.current_active_ms(now_mono_ms);
        self.active_ms = current;
        self.status = TimerStatus::Stopped;
        self.running_anchor = None;
        self.active_ms_baseline = current;
    }

    /// Returns to the idle state.
    pub fn cancel(&mut self)
        ensures
            *final (self) == TimerState::spec_idle(),
            final (self).wf(),
    {
        *self = TimerState::new();
    }
}

/// A consistent view of the timer handed to the host UI.
#[derive(Debug, Clone, PartialEq)]
pub struct TimerSnapshot {
    pub state: TimerState,
    pub remaining_ms: i64,
}

/// What `start` asks the surrounding application to do.
#[derive(Debug, Clone, PartialEq)]
pub struct StartOutcome {
    /// The fresh session record to persist; absent for a break, which is
    /// never persisted.
    pub session: Option<Session>,
    /// Whether the capture loop starts; never for a break.
    pub start_capture: bool,
}

/// What one ticker step decided.
#[derive(Debug, Clone, PartialEq)]
pub enum TickOutcome {
    /// The timer is not running; the ticker stops.
    NotRunning,
    /// The deadline was reached: capture stops, the clamped final
    /// progress is persisted, and a completion is emitted.
    Completed { session_id: Option<String>, active_ms: u64 },
    /// An ordinary step; on a heartbeat the progress is persisted and a
    /// heartbeat emitted.
    Progress { active_ms: u64, remaining_ms: i64, heartbeat: bool },
}

/// What `end` asks the surrounding application to do: mark the session
/// completed, stop capture, run segmentation over its readings and persist
/// the result, then emit a completion carrying the finalized session.
/// Absent for a break, which has no session.
#[derive(Debug, Clone, PartialEq)]
pub struct EndOutcome {
    pub session: Option<Session>,
}

/// What `cancel` asks the surrounding application to do: mark the session
/// cancelled with the elapsed time and stop capture; segmentation never
/// runs.
#[derive(Debug, Clone, PartialEq)]
pub struct CancelOutcome {
    pub session_id: Option<String>,
    pub active_ms: u64,
}

/// Relies on `uuid::Uuid::new_v4` and its `to_string`: a freshly generated
/// random identifier.  Nothing can be promised of a random value.
#[verifier::external_body]
fn fresh_session_id() -> String {
    uuid::Uuid::new_v4().to_string()
}

/// Sole authority on whether a session is active; orchestrates the capture
/// loop and the segmentation engine at the session boundaries through the
/// outcomes it returns.
#[derive(Debug)]
pub struct TimerController {
    pub state: TimerState,
    pub ticks: u32,
    pub heartbeat_every_ticks: u32,
}

impl TimerController {
    /// Controller invariant.
    pub open spec fn wf(self) -> bool {
        &&& self.state.wf()
        &&& self.heartbeat_every_ticks >= 1
    }

    /// A fresh idle controller persisting progress every
    /// `heartbeat_every_ticks` ticks.
    pub fn new(heartbeat_every_ticks: u32) -> (r: TimerController)
        requires
            heartbeat_every_ticks >= 1,
        ensures
            r.state == TimerState::spec_idle(),
            r.ticks == 0,
            r.heartbeat_every_ticks == heartbeat_every_ticks,
            r.wf(),
    {
        TimerController { state: TimerState::new(), ticks: 0, heartbeat_every_ticks }
    }

    /// The current state with `active_ms` re-derived from the anchor, so
    /// the caller never observes a stale value.
    pub fn get_state(&self, now_mono_ms: u64) -> (r: TimerState)
        requires
            self.state.anchored(now_mono_ms),
        ensures
            r == (TimerState {
                active_ms: self.state.spec_current_active(now_mono_ms),
                ..self.state
            }),
    {
        let mut state = self.state.duplicate();
        state.sync_active_from_anchor(now_mono_ms);
        state
    }

    /// A consistent snapshot; the state it carries has `active_ms`
    /// re-derived from the anchor, so it is never stale.
    pub fn get_snapshot(&self, now_mono_ms: u64) -> (r: TimerSnapshot)
        requires
            self.wf(),
            self.state.anchored(now_mono_ms),
        ensures
            r.state == (TimerState {
                active_ms: self.state.spec_current_active(now_mono_ms),
                ..self.state
            }),
            r.remaining_ms == self.state.spec_remaining(now_mono_ms),
    {
        let mut state = self.state.duplicate();
        state.sync_active_from_anchor(now_mono_ms);
        let remaining_ms = self.state.remaining_ms(now_mono_ms);
        TimerSnapshot { state, remaining_ms }
    }

    /// Starts a session.  Rejected with no state change when the target is
    /// zero in a deadline-bound mode, or when a timer is already active.
    /// On success the timer runs from the given instants; except for a
    /// break, a fresh running session record is returned to persist and
    /// capture starts.
    pub fn start_timer(
        &mut self,
        target_ms: u64,
        mode: TimerMode,
        now_mono_ms: u64,
        now_wall_ms: i64,
    ) -> (r: Result<StartOutcome, TimerError>)
        requires
            old(self).wf(),
            target_ms <= i64::MAX,
        ensures
            final (self).wf(),
            mode.is_deadline() && target_ms == 0 ==> r == Err::<StartOutcome, TimerError>(
                TimerError::ZeroTarget,
            ) && *final (self) == *old(self),
            !(mode.is_deadline() && target_ms == 0) && old(self).state.status
                != TimerStatus::Idle ==> r == Err::<StartOutcome, TimerError>(
                TimerError::TimerAlreadyActive,
            ) && *final (self) == *old(self),
            !(mode.is_deadline() && target_ms == 0) && old(self).state.status == TimerStatus::Idle
                ==> {
                let eff = if mode == TimerMode::Stopwatch {
                    i64::MAX as u64
                } else {
                    target_ms
                };
                &&& r is Ok
                &&& final (self).state.status == TimerStatus::Running
                &&& final (self).state.mode == mode
                &&& final (self).state.target_ms == eff
                &&& final (self).state.active_ms == 0
                &&& final (self).state.active_ms_baseline == 0
                &&& final (self).state.running_anchor == Some(now_mono_ms)
                &&& final (self).state.started_at == Some(now_wall_ms)
                &&& final (self).ticks == 0
                &&& final (self).heartbeat_every_ticks == old(self).heartbeat_every_ticks
                &&& (mode == TimerMode::Break ==> {
                    &&& r matches Ok(out)
                    &&& out.session is None
                    &&& !out.start_capture
                    &&& final (self).state.session_id is None
                })
                &&& (mode != TimerMode::Break ==> {
                    &&& r matches Ok(out)
                    &&& out.start_capture
                    &&& out.session matches Some(s)
                    &&& s.status == SessionStatus::Running
                    &&& s.target_ms == eff
                    &&& s.active_ms == 0
                    &&& s.started_at == now_wall_ms
                    &&& s.stopped_at is None
                    &&& s.created_at == now_wall_ms
                    &&& s.updated_at == now_wall_ms
                    &&& final (self).state.session_id == Some(s.id)
                })
            },
    {
        if (mode == TimerMode::Countdown || mode == TimerMode::Break) && target_ms == 0 {
            return Err(TimerError::ZeroTarget);
        }
        if self.state.status != TimerStatus::Idle {
            return Err(TimerError::TimerAlreadyActive);
        }
        let effective_target = if mode == TimerMode::Stopwatch {
            i64::MAX as u64
        } else {
            target_ms
        };
        if mode == TimerMode::Break {
            self.state.begin_session(None, effective_target, mode, now_wall_ms, now_mono_ms);
            self.ticks = 0;
            return Ok(StartOutcome { session: None, start_capture: false });
        }
        let session_id = fresh_session_id();
        let session = Session {
            id: session_id.clone(),
            started_at: now_wall_ms,
            stopped_at: None,
            status: SessionStatus::Running,
            target_ms: effective_target,
            active_ms: 0,
            created_at: now_wall_ms,
            updated_at: now_wall_ms,
        };
        self.state.begin_session(
            Some(session_id),
            effective_target,
            mode,
            now_wall_ms,
            now_mono_ms,
        );
        self.ticks = 0;
        Ok(StartOutcome { session: Some(session), start_capture: true })
    }

    /// One step of the 1-second ticker.  When the remaining time reaches
    /// zero in a deadline-bound mode the completion edge fires on its own:
    /// the timer stops with `active_ms` clamped to exactly the target.
    /// Otherwise the elapsed time is re-derived and every
    /// `heartbeat_every_ticks`-th step asks for a heartbeat.
    pub fn on_tick(&mut self, now_mono_ms: u64) -> (r: TickOutcome)
        requires
            old(self).wf(),
            old(self).state.anchored(now_mono_ms),
        ensures
            final (self).wf(),
            final (self).heartbeat_every_ticks == old(self).heartbeat_every_ticks,
            old(self).state.status != TimerStatus::Running ==> r == TickOutcome::NotRunning
                && *final (self) == *old(self),
            old(self).state.status == TimerStatus::Running && old(self).state.mode.is_deadline()
                && old(self).state.spec_current_active(now_mono_ms) >= old(self).state.target_ms
                ==> r == (TickOutcome::Completed {
                session_id: old(self).state.session_id,
                active_ms: old(self).state.target_ms,
            }) && final (self).state.status == TimerStatus::Stopped && final (self).state.active_ms
                == old(self).state.target_ms && final (self).state.running_anchor is None
                && final (self).state.session_id == old(self).state.session_id,
            old(self).state.status == TimerStatus::Running && !(old(self).state.mode.is_deadline()
                && old(self).state.spec_current_active(now_mono_ms) >= old(self).state.target_ms)
                ==> {
                let active = old(self).state.spec_current_active(now_mono_ms);
                let stepped = if old(self).ticks == u32::MAX {
                    0u32
                } else {
                    (old(self).ticks + 1) as u32
                };
                &&& r == (TickOutcome::Progress {
                    active_ms: active,
                    remaining_ms: old(self).state.spec_remaining(now_mono_ms) as i64,
                    heartbeat: stepped % old(self).heartbeat_every_ticks == 0,
                })
                &&& final (self).ticks == stepped
                &&& final (self).state == (TimerState { active_ms: active, ..old(self).state })
            },
    {
        if self.state.status != TimerStatus::Running {
            return TickOutcome::NotRunning;
        }
        let active = self.state.current_active_ms(now_mono_ms);
        let remaining = self.state.remaining_ms(now_mono_ms);
        let deadline = self.state.mode == TimerMode::Countdown || self.state.mode
            == TimerMode::Break;
        if deadline && remaining == 0 {
            self.state.stop(now_mono_ms);
            let clamped = if self.state.active_ms > self.state.target_ms {
                self.state.target_ms
            } else {
                self.state.active_ms
            };
            self.state.active_ms = clamped;
            self.state.active_ms_baseline = clamped;
            let session_id = match &self.state.session_id {
                Some(id) => Some(id.clone()),
                None => None,
            };
            return TickOutcome::Completed { session_id, active_ms: clamped };
        }
        self.state.sync_active_from_anchor(now_mono_ms);
        self.ticks = if self.ticks == u32::MAX {
            0
        } else {
            self.ticks + 1
        };
        let heartbeat = self.ticks % self.heartbeat_every_ticks == 0;
        TickOutcome::Progress { active_ms: active, remaining_ms: remaining, heartbeat }
    }

    /// Manual completion.  Valid from a running or auto-stopped timer;
    /// rejected with no side effects when idle.  The elapsed time is
    /// clamped to the target, the session marked completed, and the state
    /// recycled to idle; the caller then stops capture, runs segmentation
    /// and persists its output.
    pub fn end_timer(&mut self, now_mono_ms: u64, now_wall_ms: i64) -> (r: Result<
        EndOutcome,
        TimerError,
    >)
        requires
            old(self).wf(),
            old(self).state.anchored(now_mono_ms),
        ensures
            final (self).wf(),
            final (self).heartbeat_every_ticks == old(self).heartbeat_every_ticks,
            old(self).state.status == TimerStatus::Idle ==> r == Err::<EndOutcome, TimerError>(
                TimerError::NoActiveSession,
            ) && *final (self) == *old(self),
            old(self).state.status != TimerStatus::Idle ==> {
                let active = if old(self).state.spec_current_active(now_mono_ms) > old(
                    self,
                ).state.target_ms {
                    old(self).state.target_ms
                } else {
                    old(self).state.spec_current_active(now_mono_ms)
                };
                &&& final (self).state == TimerState::spec_idle()
                &&& final (self).ticks == 0
                &&& (old(self).state.session_id matches Some(id) ==> {
                    &&& r matches Ok(out)
                    &&& out.session matches Some(s)
                    &&& s.id == id
                    &&& s.status == SessionStatus::Completed
                    &&& s.target_ms == old(self).state.target_ms
                    &&& s.active_ms == active
                    &&& s.stopped_at == Some(now_wall_ms)
                    &&& s.updated_at == now_wall_ms
                    &&& (old(self).state.started_at matches Some(w) ==> (s.started_at == w
                        && s.created_at == w))
                    &&& (old(self).state.started_at is None ==> s.started_at == now_wall_ms
                        && s.created_at == now_wall_ms)
                })
                &&& (old(self).state.session_id is None ==> {
                    &&& r matches Ok(out)
                    &&& out.session is None
                })
            },
    {
        if self.state.status == TimerStatus::Idle {
            return Err(TimerError::NoActiveSession);
        }
        let current = self.state.current_active_ms(now_mono_ms);
        let active_ms = if current > self.state.target_ms {
            self.state.target_ms
        } else {
            current
        };
        let started_at = match self.state.started_at {
            Some(w) => w,
            None => now_wall_ms,
        };
        let session = match &self.state.session_id {
            Some(id) => Some(
                Session {
                    id: id.clone(),
                    started_at,
                    stopped_at: Some(now_wall_ms),
                    status: SessionStatus::Completed,
                    target_ms: self.state.target_ms,
                    active_ms,
                    created_at: started_at,
                    updated_at: now_wall_ms,
                },
            ),
            None => None,
        };
        self.state.cancel();
        self.ticks = 0;
        Ok(EndOutcome { session })
    }

    /// Cancellation.  Valid only while a session is active; rejected with
    /// no side effects when idle.  The session is marked cancelled with
    /// the elapsed time; segmentation never runs.
    pub fn cancel_timer(&mut self, now_mono_ms: u64) -> (r: Result<CancelOutcome, TimerError>)
        requires
            old(self).wf(),
            old(self).state.anchored(now_mono_ms),
        ensures
            final (self).wf(),
            final (self).heartbeat_every_ticks == old(self).heartbeat_every_ticks,
            old(self).state.status == TimerStatus::Idle ==> r == Err::<CancelOutcome, TimerError>(
                TimerError::NoActiveSession,
            ) && *final (self) == *old(self),
            old(self).state.status != TimerStatus::Idle ==> {
                &&& final (self).state == TimerState::spec_idle()
                &&& final (self).ticks == 0
                &&& r == Ok::<CancelOutcome, TimerError>(CancelOutcome {
                    session_id: old(self).state.session_id,
                    active_ms: old(self).state.spec_current_active(now_mono_ms),
                })
            },
    {
        if self.state.status == TimerStatus::Idle {
            return Err(TimerError::NoActiveSession);
        }
        let active_ms = self.state.current_active_ms(now_mono_ms);
        let session_id = match &self.state.session_id {
            Some(id) => Some(id.clone()),
            None => None,
        };
        self.state.cancel();
        self.ticks = 0;
        Ok(CancelOutcome { session_id, active_ms })
    }
}

} // verus!
