use camstream::snapshot::{capture_path, check_capture, mime_type, snapshot_key, CaptureError,
    CapturePath};
use camstream::supervisor::{SessionPhase, SessionSupervisor, TickAction};

#[test]
fn session_starts_within_one_tick_of_demand() {
    // Empty registry: nothing happens.  A consumer registers; the very
    // next tick creates a session.
    let mut sup = SessionSupervisor::new(0);
    assert_eq!(sup.tick(50, false), TickAction::Hold);
    assert_eq!(sup.phase, SessionPhase::Idle);
    // t = 10 ms: a sink registers; the tick at t = 50 ms reacts.
    assert_eq!(sup.tick(50, true), TickAction::StartSession);
    assert_eq!(sup.phase, SessionPhase::Active);
    assert_eq!(sup.liveness_ms, 50, "warm-up grace: clock reset on start");
}

#[test]
fn active_session_holds_while_units_flow() {
    let mut sup = SessionSupervisor::new(0);
    sup.tick(0, true);
    sup.note_activity(400);
    assert_eq!(sup.tick(450, true), TickAction::Hold);
    assert_eq!(sup.tick(1400, true), TickAction::Hold, "exactly 1000 ms is not yet a stall");
    assert_eq!(sup.tick(1401, true), TickAction::StopSession);
}

#[test]
fn stalled_session_is_destroyed_then_recreated_on_next_tick() {
    // No bytes for 1.2 s while Active: the session is destroyed; the
    // registry is still non-empty, so the next tick starts a new one.
    let mut sup = SessionSupervisor::new(0);
    assert_eq!(sup.tick(0, true), TickAction::StartSession);
    assert_eq!(sup.tick(1200, true), TickAction::StopSession);
    assert_eq!(sup.phase, SessionPhase::Idle);
    assert_eq!(sup.tick(1250, true), TickAction::StartSession);
    assert_eq!(sup.phase, SessionPhase::Active);
}

#[test]
fn idle_without_demand_stays_idle() {
    let mut sup = SessionSupervisor::new(0);
    for t in [50u64, 100, 150, 10_000, 100_000] {
        assert_eq!(sup.tick(t, false), TickAction::Hold);
        assert_eq!(sup.phase, SessionPhase::Idle);
    }
}

#[test]
fn escalation_fires_only_with_demand_and_a_stale_recovery_clock() {
    let sup = SessionSupervisor::new(0);
    assert!(!sup.escalation_due(30_000, true), "exactly 30 s is not yet over the bound");
    assert!(sup.escalation_due(30_001, true));
    assert!(!sup.escalation_due(30_001, false), "no demand, no reboot");
    assert!(!sup.escalation_due(100, true));
}

#[test]
fn continuous_restart_failure_escalates() {
    // The capture process fails to spawn, cycle after cycle: sessions
    // are decided but never confirmed and no unit arrives, so the
    // recovery clock stays put while the stall/restart cycle spins,
    // and the reboot bound is eventually crossed.
    let mut sup = SessionSupervisor::new(0);
    assert_eq!(sup.tick(0, true), TickAction::StartSession);
    let mut t: u64 = 0;
    loop {
        if sup.escalation_due(t, true) {
            break;
        }
        t += 50;
        assert!(t <= 40_000, "escalation never fired");
        sup.tick(t, true);
    }
    assert!(t > 30_000 && t <= 30_100);
}

#[test]
fn confirmed_start_defers_escalation() {
    // Starts that actually succeed keep deferring the reboot; only the
    // time since the last confirmed good moment counts.
    let mut sup = SessionSupervisor::new(0);
    assert_eq!(sup.tick(0, true), TickAction::StartSession);
    sup.note_start_succeeded(0);
    sup.note_start_succeeded(29_000);
    assert!(!sup.escalation_due(30_001, true));
    assert!(sup.escalation_due(59_001, true));
}

#[test]
fn idle_without_demand_does_not_drift_toward_a_reboot() {
    // A long idle gap refreshes the recovery clock on every tick, so
    // the moment a consumer appears nothing is stale and no spurious
    // reboot can fire before the first start attempt.
    let mut sup = SessionSupervisor::new(0);
    assert_eq!(sup.tick(50_000, false), TickAction::Hold);
    assert!(!sup.escalation_due(50_010, true));
    assert_eq!(sup.tick(50_050, true), TickAction::StartSession);
}

#[test]
fn snapshot_taps_live_session_or_captures_directly() {
    assert_eq!(capture_path(true), CapturePath::LiveTap);
    assert_eq!(capture_path(false), CapturePath::OneShot);
    assert_eq!(mime_type(CapturePath::LiveTap), "image/jpeg");
    assert_eq!(mime_type(CapturePath::OneShot), "image/bmp");
}

#[test]
fn snapshot_key_is_derived_from_the_requester() {
    assert_eq!(snapshot_key("10.0.0.7:4242"), "[snapshot 10.0.0.7:4242]");
}

#[test]
fn capture_outcome_classification() {
    assert_eq!(check_capture(false, true, true, vec![1]), Err(CaptureError::SpawnFailed));
    assert_eq!(check_capture(true, false, true, vec![1]), Err(CaptureError::NoInputPipe));
    assert_eq!(check_capture(true, true, false, vec![1]), Err(CaptureError::AbnormalExit));
    assert_eq!(check_capture(true, true, true, vec![]), Err(CaptureError::EmptyOutput));
    assert_eq!(check_capture(true, true, true, vec![9, 8]), Ok(vec![9, 8]));
}
