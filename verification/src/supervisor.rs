//! Demand-driven session supervision.
//!
//! [`SessionSupervisor`] is a two-state machine driven by a fixed-period
//! control tick.  While `Active` it tears the session down once no access
//! unit has been produced for more than [`STALL_TIMEOUT_MS`]; while
//! `Idle` it starts a session exactly when real consumers exist.  A
//! second, coarser watchdog escalates to a full system reboot when
//! consumers have been waiting for more than [`RESTART_TIMEOUT_MS`]
//! without the system reaching a good state again.
//!
//! The two checks read two different clocks.  The liveness clock feeds
//! the stall check; it is refreshed by every produced unit and on every
//! `Idle` to `Active` transition, the warm-up grace period.  The
//! recovery clock feeds the escalation check; it marks the last moment
//! the system was known good — a unit was produced, a session start was
//! confirmed to have succeeded, or no consumer was waiting at all — and
//! is deliberately *not* touched when a session start is merely decided,
//! so continuous restart failure leaves it stale until the reboot bound
//! is crossed.
//!
//! The supervisor only decides; performing the tick wait, spawning the
//! capture process and issuing the reboot are the caller's side effects.

use vstd::prelude::*;

verus! {

/// Fine control-tick period.
pub const TICK_MS: u64 = 50;

/// Escalation-tick period.
pub const ESCALATION_TICK_MS: u64 = 500;

/// While `Active`: no unit for longer than this is a stall.
pub const STALL_TIMEOUT_MS: u64 = 1000;

/// Consumers waiting this long past the last good state is
/// unrecoverable and warrants a reboot.
pub const RESTART_TIMEOUT_MS: u64 = 30000;

/// The two watchdogs are ordered: the escalation bound is strictly
/// coarser than the stall bound, so a session is always torn down and
/// restarted long before a reboot can come into question.
pub proof fn lemma_escalation_is_coarser()
    ensures
        RESTART_TIMEOUT_MS > STALL_TIMEOUT_MS,
        ESCALATION_TICK_MS > TICK_MS,
{
}

/// Observable supervisor state: whether a broadcast session exists.
#[derive(Clone, Copy, PartialEq, Eq, Structural, Debug)]
pub enum SessionPhase {
    Idle,
    Active,
}

/// What the caller must do after one control tick.
#[derive(Clone, Copy, PartialEq, Eq, Structural, Debug)]
pub enum TickAction {
    /// Nothing to do this tick.
    Hold,
    /// Spawn a capture process and enter the fan-out loop.
    StartSession,
    /// Destroy the running session: cancel its task, kill its process.
    StopSession,
}

/// The supervisor's whole state: the phase and the two shared clocks
/// (milliseconds on the caller's monotonic clock).
pub struct SessionSupervisor {
    pub phase: SessionPhase,
    /// Stall clock: the last produced unit, or the last session start
    /// (warm-up grace).
    pub liveness_ms: u64,
    /// Escalation clock: the last known-good moment — a produced unit, a
    /// session start confirmed successful, or a tick with no demand.
    pub recovery_ms: u64,
}

impl SessionSupervisor {
    /// A fresh supervisor: no session, both clocks set to now.
    pub fn new(now_ms: u64) -> (r: Self)
        ensures
            r.phase == SessionPhase::Idle,
            r.liveness_ms == now_ms,
            r.recovery_ms == now_ms,
    {
        SessionSupervisor {
            phase: SessionPhase::Idle,
            liveness_ms: now_ms,
            recovery_ms: now_ms,
        }
    }

    /// Refresh both clocks; called for every produced access unit.
    pub fn note_activity(&mut self, now_ms: u64)
        requires
            now_ms >= old(self).liveness_ms,
            now_ms >= old(self).recovery_ms,
        ensures
            final(self).phase == old(self).phase,
            final(self).liveness_ms == now_ms,
            final(self).recovery_ms == now_ms,
    {
        self.liveness_ms = now_ms;
        self.recovery_ms = now_ms;
    }

    /// Refresh the recovery clock; called only once a decided session
    /// start has actually succeeded (the capture process spawned).  A
    /// start that keeps failing never reaches this, which is what lets
    /// the escalation bound be crossed.
    pub fn note_start_succeeded(&mut self, now_ms: u64)
        requires
            now_ms >= old(self).recovery_ms,
        ensures
            final(self).phase == old(self).phase,
            final(self).liveness_ms == old(self).liveness_ms,
            final(self).recovery_ms == now_ms,
    {
        self.recovery_ms = now_ms;
    }

    /// One fine control tick.  The session is stopped exactly when it is
    /// `Active` and stalled for more than [`STALL_TIMEOUT_MS`]; it is
    /// started exactly when it is `Idle` and real consumers exist, which
    /// also resets the liveness clock as a warm-up grace period.  A tick
    /// with no waiting consumer refreshes the recovery clock — an idle
    /// system is not a failing one; a tick with demand leaves it alone,
    /// so only a produced unit or a confirmed start can defer
    /// escalation.
    pub fn tick(&mut self, now_ms: u64, has_consumers: bool) -> (action: TickAction)
        requires
            now_ms >= old(self).liveness_ms,
            now_ms >= old(self).recovery_ms,
        ensures
            (action == TickAction::StopSession) == (old(self).phase == SessionPhase::Active
                && now_ms - old(self).liveness_ms > STALL_TIMEOUT_MS),
            (action == TickAction::StartSession) == (old(self).phase == SessionPhase::Idle
                && has_consumers),
            action == TickAction::StopSession ==> final(self).phase == SessionPhase::Idle
                && final(self).liveness_ms == old(self).liveness_ms,
            action == TickAction::StartSession ==> final(self).phase == SessionPhase::Active
                && final(self).liveness_ms == now_ms,
            action == TickAction::Hold ==> final(self).phase == old(self).phase
                && final(self).liveness_ms == old(self).liveness_ms,
            final(self).recovery_ms == (if has_consumers {
                old(self).recovery_ms
            } else {
                now_ms
            }),
    {
        if !has_consumers {
            self.recovery_ms = now_ms;
        }
        match self.phase {
            SessionPhase::Active => {
                if now_ms - self.liveness_ms > STALL_TIMEOUT_MS {
                    self.phase = SessionPhase::Idle;
                    TickAction::StopSession
                } else {
                    TickAction::Hold
                }
            },
            SessionPhase::Idle => {
                if has_consumers {
                    self.phase = SessionPhase::Active;
                    self.liveness_ms = now_ms;
                    TickAction::StartSession
                } else {
                    TickAction::Hold
                }
            },
        }
    }

    /// One coarse escalation tick: reboot exactly when consumers are
    /// waiting but the system has not been in a good state for more
    /// than [`RESTART_TIMEOUT_MS`].  Under continuous restart failure —
    /// the capture process failing to spawn, cycle after cycle — no
    /// unit is produced and no start is confirmed, so the recovery
    /// clock stays stale and this fires.
    pub fn escalation_due(&self, now_ms: u64, has_consumers: bool) -> (reboot: bool)
        requires
            now_ms >= self.recovery_ms,
        ensures
            reboot == (has_consumers && now_ms - self.recovery_ms > RESTART_TIMEOUT_MS),
    {
        has_consumers && now_ms - self.recovery_ms > RESTART_TIMEOUT_MS
    }
}

} // verus!
