use wjsm_runtime::director::{
    cold_start_trigger, duration_ns, runway_trigger, AssistBudget, DirectorDecision,
    DirectorGeneration, DirectorPolicy, StallReason,
};

#[test]
fn gc_director_assist_is_proportional_and_hard_capped() {
    let director = DirectorPolicy::new().with_assist_cap(64 * 1024);
    assert_eq!(
        director.assist_budget(0),
        AssistBudget {
            work_bytes: 0,
            capped: false
        }
    );
    assert_eq!(
        director.assist_budget(32 * 1024),
        AssistBudget {
            work_bytes: 32 * 1024,
            capped: false
        }
    );
    assert_eq!(
        director.assist_budget(128 * 1024),
        AssistBudget {
            work_bytes: 64 * 1024,
            capped: true
        }
    );
}

#[test]
fn gc_director_stall_only_when_reserve_exhausted() {
    let mut director = DirectorPolicy::new();
    director.update_space(1024, 4096);
    let rejected = director.record_stall(
        StallReason::RelocationReserveExhausted,
        100_000,
        DirectorGeneration::Young,
    );
    assert!(rejected.is_err());
    assert_eq!(director.stall_count(), 0);

    director.update_space(1024, 0);
    let event = director
        .record_stall(
            StallReason::RelocationReserveExhausted,
            250_000,
            DirectorGeneration::Young,
        )
        .unwrap();
    assert_eq!(event.reason, StallReason::RelocationReserveExhausted);
    assert_eq!(event.reserve_bytes, 0);
    assert_eq!(event.duration_ns, 250_000);
    assert_eq!(director.stall_count(), 1);
    assert_eq!(director.last_stall(), Some(event));
}

#[test]
fn evaluate_prefers_young_and_continues_while_active() {
    let mut director = DirectorPolicy::new();
    assert_eq!(director.evaluate(true, true), DirectorDecision::StartYoung);
    assert!(director.young_active());
    assert_eq!(director.evaluate(false, true), DirectorDecision::Continue);
    director.complete_cycle(DirectorGeneration::Young, 1_000, 400);
    assert!(!director.young_active());
    assert_eq!(director.prediction_error_ns(DirectorGeneration::Young), 600);
    assert_eq!(director.evaluate(false, true), DirectorDecision::StartOld);
    director.complete_cycle(DirectorGeneration::Old, 0, 0);
    assert_eq!(director.evaluate(false, false), DirectorDecision::Idle);
    assert_eq!(director.last_decision(), DirectorDecision::Idle);
}

#[test]
fn trigger_rules() {
    assert!(cold_start_trigger(8, 16));
    assert!(!cold_start_trigger(0, 16));
    assert!(!cold_start_trigger(32, 16));
    assert!(runway_trigger(80, 100));
    assert!(!runway_trigger(79, 100));
    assert!(runway_trigger(u64::MAX, u64::MAX));
    assert_eq!(duration_ns(u128::MAX), u64::MAX);
    assert_eq!(duration_ns(250_000), 250_000);
}
