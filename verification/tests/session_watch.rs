use ken_core::runner::{tui_step, RunOutcome, TuiAction, TuiEvent, TuiWatch};

#[test]
fn cancelling_kills_the_session() {
    let w = TuiWatch::new();
    let (w2, act) = tui_step(&w, &TuiEvent::Cancelled, "tail");
    assert_eq!(act, TuiAction::KillThen(RunOutcome::Cancelled));
    assert!(!w2.gate_checked);
}

#[test]
fn a_missing_session_file_at_the_gate_notifies_once() {
    let w = TuiWatch::new();
    assert!(w.wants_gate_check(true));
    assert!(!w.wants_gate_check(false));
    let (w2, act) = tui_step(&w, &TuiEvent::GateDue { session_file_exists: false }, "");
    assert_eq!(act, TuiAction::NotifyBlocked);
    assert!(w2.gate_checked);
    assert!(!w2.wants_gate_check(true));
    let (w3, again) = tui_step(&w2, &TuiEvent::GateDue { session_file_exists: false }, "");
    assert_eq!(again, TuiAction::Wait);
    assert!(w3.gate_checked);
}

#[test]
fn a_session_file_at_the_gate_is_quiet() {
    let (w2, act) = tui_step(&TuiWatch::new(), &TuiEvent::GateDue { session_file_exists: true }, "");
    assert_eq!(act, TuiAction::Wait);
    assert!(w2.gate_checked);
}

#[test]
fn stop_exits_and_completes_and_notification_notifies() {
    let w = TuiWatch::new();
    assert_eq!(
        tui_step(&w, &TuiEvent::Hook("Stop".to_string()), "").1,
        TuiAction::ExitThen(RunOutcome::Completed)
    );
    assert_eq!(tui_step(&w, &TuiEvent::Hook("Notification".to_string()), "").1, TuiAction::NotifyBlocked);
    assert_eq!(tui_step(&w, &TuiEvent::Hook("PreToolUse".to_string()), "").1, TuiAction::Wait);
}

#[test]
fn an_early_exit_fails_with_status_and_output() {
    let ev = TuiEvent::Quiet { exit_status: Some("ExitStatus(1)".to_string()), past_deadline: true };
    let (_, act) = tui_step(&TuiWatch::new(), &ev, "last line");
    assert_eq!(
        act,
        TuiAction::End(RunOutcome::Failed(
            "the agent exited before finishing (status ExitStatus(1)). Recent output:\nlast line".to_string()
        ))
    );
}

#[test]
fn the_deadline_kills_and_times_out_with_the_output() {
    let w = TuiWatch::new();
    let ev = TuiEvent::Quiet { exit_status: None, past_deadline: true };
    assert_eq!(tui_step(&w, &ev, "out").1, TuiAction::KillThen(RunOutcome::TimedOut("out".to_string())));
    let calm = TuiEvent::Quiet { exit_status: None, past_deadline: false };
    assert_eq!(tui_step(&w, &calm, "out").1, TuiAction::Wait);
}

#[test]
fn a_lost_listener_kills_and_fails() {
    assert_eq!(
        tui_step(&TuiWatch::new(), &TuiEvent::ListenerGone, "").1,
        TuiAction::KillThen(RunOutcome::Failed("hook listener stopped".to_string()))
    );
}
