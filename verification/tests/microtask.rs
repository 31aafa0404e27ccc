use wjsm_runtime::microtask::{
    close_callback_succeeded, next_phase, reaction_call_argument, reaction_outcome, stream_write_outcome,
    thenable_outcome, unhandled_reasons, DrainPhase, PendingRejection, PhaseReport, ReactionAction, ReactionType,
    SettleAction,
};

const UNDEF: i64 = -1;

fn report(stopped: bool, empty: bool, exit_pending: bool, flush_failed: bool) -> PhaseReport {
    PhaseReport { stopped, empty, exit_pending, flush_failed }
}

#[test]
fn drain_runs_next_ticks_before_immediates_and_microtasks() {
    let quiet = report(false, false, false, false);
    assert_eq!(next_phase(DrainPhase::PromiseEvents, quiet), DrainPhase::DestroyQueue);
    assert_eq!(next_phase(DrainPhase::DestroyQueue, quiet), DrainPhase::NextTick);
    assert_eq!(next_phase(DrainPhase::NextTick, quiet), DrainPhase::NextTick);
    assert_eq!(next_phase(DrainPhase::NextTick, report(false, true, false, false)), DrainPhase::Immediates);
    assert_eq!(next_phase(DrainPhase::Immediates, quiet), DrainPhase::Microtask);
    assert_eq!(next_phase(DrainPhase::Microtask, quiet), DrainPhase::PromiseEvents);
    assert_eq!(next_phase(DrainPhase::Microtask, report(false, true, false, false)), DrainPhase::Finish);
    assert_eq!(next_phase(DrainPhase::Finish, quiet), DrainPhase::Done);
}

#[test]
fn drain_stops_on_hooks_and_process_exit() {
    assert_eq!(next_phase(DrainPhase::PromiseEvents, report(true, false, false, false)), DrainPhase::Done);
    assert_eq!(next_phase(DrainPhase::NextTick, report(false, false, true, false)), DrainPhase::Done);
    assert_eq!(next_phase(DrainPhase::Immediates, report(false, false, true, false)), DrainPhase::Done);
    assert_eq!(next_phase(DrainPhase::Microtask, report(false, false, true, false)), DrainPhase::Done);
    // A failed stream flush goes back to the start without the exit check.
    assert_eq!(next_phase(DrainPhase::Microtask, report(false, false, true, true)), DrainPhase::PromiseEvents);
}

#[test]
fn reactions_settle_the_derived_promise() {
    assert_eq!(reaction_call_argument(ReactionType::Fulfill, 5, UNDEF), 5);
    assert_eq!(reaction_call_argument(ReactionType::FinallyReject, 5, UNDEF), UNDEF);
    assert_eq!(reaction_outcome(ReactionType::Fulfill, true, true, Some(1), false), ReactionAction::Nothing);
    assert_eq!(reaction_outcome(ReactionType::Reject, false, false, None, false), ReactionAction::PassThrough);
    assert_eq!(reaction_outcome(ReactionType::Fulfill, false, true, None, false), ReactionAction::RejectHandlerFailed);
    assert_eq!(reaction_outcome(ReactionType::Fulfill, false, true, Some(7), false), ReactionAction::Resolve { value: 7 });
    assert_eq!(
        reaction_outcome(ReactionType::Reject, false, true, Some(8), true),
        ReactionAction::RejectWithException { exception: 8 }
    );
    assert_eq!(
        reaction_outcome(ReactionType::FinallyFulfill, false, true, Some(9), true),
        ReactionAction::SettleFinally { result: 9 }
    );
}

#[test]
fn stream_and_thenable_jobs_settle_their_promises() {
    assert_eq!(stream_write_outcome(Some(3), true, UNDEF), SettleAction::ResolveWith { value: 3 });
    assert_eq!(stream_write_outcome(Some(3), false, UNDEF), SettleAction::Fulfill { value: UNDEF });
    assert_eq!(stream_write_outcome(None, false, UNDEF), SettleAction::RejectCallbackFailed);
    assert_eq!(thenable_outcome(Some(4), true), SettleAction::RejectWithException { exception: 4 });
    assert_eq!(thenable_outcome(Some(4), false), SettleAction::Nothing);
    assert_eq!(thenable_outcome(None, false), SettleAction::RejectCallbackFailed);
    assert!(close_callback_succeeded(false, false));
    assert!(!close_callback_succeeded(true, false));
}

#[test]
fn only_unhandled_rejections_are_reported() {
    let pending = vec![
        Some(PendingRejection { is_promise: true, handled: false, rejected_reason: Some(10) }),
        Some(PendingRejection { is_promise: true, handled: true, rejected_reason: Some(11) }),
        None,
        Some(PendingRejection { is_promise: false, handled: false, rejected_reason: Some(12) }),
        Some(PendingRejection { is_promise: true, handled: false, rejected_reason: None }),
        Some(PendingRejection { is_promise: true, handled: false, rejected_reason: Some(13) }),
    ];
    assert_eq!(unhandled_reasons(&pending), vec![10, 13]);
}
