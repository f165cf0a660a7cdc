use reddw_core::candidate::Candidate;
use reddw_core::scheduler::{
    pick_source, CycleEvent, CycleStep, SchedulerState, TickOutcome, TimerCommand,
};
use reddw_core::HostError;

#[test]
fn nonzero_interval_arms_and_discards_the_first_tick() {
    let mut s = SchedulerState::Idle;
    assert_eq!(s.set_interval(1000), TimerCommand::Rearm { interval_ms: 1000 });
    assert_eq!(s.on_tick(), TickOutcome::DiscardedFirst);
    assert_eq!(s.on_tick(), TickOutcome::RunCycle);
    assert_eq!(s.on_tick(), TickOutcome::RunCycle);
}

#[test]
fn interval_change_cancels_and_never_fires_early() {
    // A timer armed for one interval is running; sending another interval
    // cancels it, and the fresh timer's first tick is discarded, so the
    // next cycle runs only after the new interval elapsed.
    let mut s = SchedulerState::Idle;
    s.set_interval(1000);
    s.on_tick();
    assert_eq!(s.on_tick(), TickOutcome::RunCycle);
    assert_eq!(s.set_interval(2000), TimerCommand::Rearm { interval_ms: 2000 });
    assert_eq!(s.on_tick(), TickOutcome::DiscardedFirst);
    assert_eq!(s.on_tick(), TickOutcome::RunCycle);
}

#[test]
fn zero_interval_disables_rotation() {
    let mut s = SchedulerState::Idle;
    s.set_interval(1000);
    assert_eq!(s.set_interval(0), TimerCommand::Disarm);
    assert_eq!(s, SchedulerState::Idle);
    assert_eq!(s.on_tick(), TickOutcome::Ignored);
}

fn cand(id: &str) -> Candidate {
    Candidate {
        id: id.to_string(),
        name: None,
        data_url: format!("http://img.example/{id}.png"),
        info_url: None,
        date: 1,
        source: "wallhaven_a".to_string(),
        was_set: false,
    }
}

#[test]
fn cycle_happy_path_reaches_done() {
    let s = CycleStep::start();
    let s = s.step(CycleEvent::SourcePicked { source: Some("wallhaven_a".to_string()) });
    assert!(matches!(s, CycleStep::QueryQueue { .. }));
    let s = s.step(CycleEvent::QueueAnswer { candidate: Some(cand("y")) });
    assert!(matches!(s, CycleStep::ResolveCache { .. }));
    let s = s.step(CycleEvent::CacheOutcome { path: Ok("/cache/y.png".to_string()) });
    assert!(matches!(s, CycleStep::Apply { .. }));
    let s = s.step(CycleEvent::ApplyOutcome { ok: true });
    assert!(matches!(s, CycleStep::Mark { .. }));
    let s = s.step(CycleEvent::MarkDone);
    assert!(matches!(s, CycleStep::Emit { .. }));
    let s = s.step(CycleEvent::EmitDone);
    match &s {
        CycleStep::Done { applied_id } => assert_eq!(applied_id, "y"),
        other => panic!("expected the cycle to finish, got {other:?}"),
    }
    assert!(s.finished());
}

#[test]
fn cycle_refills_once_then_reports_queue_empty() {
    let s = CycleStep::start();
    let s = s.step(CycleEvent::SourcePicked { source: Some("wallhaven_a".to_string()) });
    let s = s.step(CycleEvent::QueueAnswer { candidate: None });
    assert!(matches!(s, CycleStep::Refill { .. }));
    let s = s.step(CycleEvent::RefillOutcome { ok: true });
    assert!(matches!(s, CycleStep::Requery { .. }));
    let s = s.step(CycleEvent::QueueAnswer { candidate: None });
    match s {
        CycleStep::Failed { error } => assert_eq!(error, HostError::QueueEmpty),
        other => panic!("expected the queue-empty failure, got {other:?}"),
    }
}

#[test]
fn cycle_failures_end_the_cycle_with_their_class() {
    let s = CycleStep::start().step(CycleEvent::SourcePicked { source: None });
    assert!(matches!(s, CycleStep::Failed { error: HostError::NotFound }));

    let s = CycleStep::start()
        .step(CycleEvent::SourcePicked { source: Some("p_i".to_string()) })
        .step(CycleEvent::QueueAnswer { candidate: Some(cand("x")) })
        .step(CycleEvent::CacheOutcome { path: Err(HostError::CacheFull) });
    assert!(matches!(s, CycleStep::Failed { error: HostError::CacheFull }));

    let s = CycleStep::start()
        .step(CycleEvent::SourcePicked { source: Some("p_i".to_string()) })
        .step(CycleEvent::QueueAnswer { candidate: Some(cand("x")) })
        .step(CycleEvent::CacheOutcome { path: Ok("/c/x.png".to_string()) })
        .step(CycleEvent::ApplyOutcome { ok: false });
    assert!(matches!(s, CycleStep::Failed { error: HostError::Platform }));
}

#[test]
fn pick_source_draws_a_configured_key() {
    let sources = vec!["a_1".to_string(), "b_2".to_string(), "c_3".to_string()];
    for _ in 0..32 {
        let picked = pick_source(&sources).unwrap();
        assert!(sources.contains(picked));
    }
    let empty: Vec<String> = Vec::new();
    assert_eq!(pick_source(&empty), Err(HostError::NotFound));
}
