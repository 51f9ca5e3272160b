use nai_core::dto::GenerateResponse;
use nai_core::job::JobStatus;
use nai_core::pipeline::{
    cooldown_bounds, cooldown_delay_ms, Action, Event, JobRun, PacingConfig, Phase, Verdict,
    RATE_LIMIT_BACKOFF_SECS,
};

fn output(seed: u64) -> GenerateResponse {
    GenerateResponse {
        seed,
        output_path: format!("t2i/{seed}.png"),
        url: format!("/outputs/t2i/{seed}.png"),
    }
}

fn rate_limited(msg: &str) -> Event {
    Event::CallFailed { message: msg.to_string(), rate_limited: true }
}

#[test]
fn cancelled_before_admission_makes_no_call() {
    let mut run = JobRun::new(Some(3));
    let a = run.step(Event::AdmissionCancelled, true);
    assert!(matches!(a, Action::Finish(Verdict::Cancelled)));
    assert_eq!(run.calls(), 0);
    assert_eq!(run.phase(), Phase::Finished);
    assert!(matches!(run.step(Event::Admitted, true), Action::Idle));
    assert!(matches!(run.step(Event::Proceed, false), Action::Idle));
    assert_eq!(run.calls(), 0);
}

#[test]
fn partial_outputs_are_discarded_on_cancel() {
    let mut run = JobRun::new(Some(3));
    assert!(matches!(run.step(Event::Admitted, false), Action::MarkRunning));
    assert!(matches!(run.step(Event::Proceed, false), Action::Call));
    assert!(matches!(run.step(Event::CallSucceeded(output(1)), false), Action::Cooldown));
    assert!(matches!(run.step(Event::Proceed, false), Action::Call));
    assert!(matches!(run.step(Event::CallSucceeded(output(2)), false), Action::Cooldown));
    assert_eq!(run.outputs_len(), 2);
    let a = run.step(Event::Proceed, true);
    match a {
        Action::Finish(v) => {
            assert!(matches!(v, Verdict::Cancelled));
            assert!(matches!(run.final_status(v), JobStatus::Cancelled));
        }
        other => panic!("unexpected {:?}", other),
    }
    assert_eq!(run.calls(), 2);
}

#[test]
fn rate_limited_call_is_tried_exactly_twice() {
    let mut run = JobRun::new(Some(1));
    run.step(Event::Admitted, false);
    assert!(matches!(run.step(Event::Proceed, false), Action::Call));
    assert!(matches!(run.step(rate_limited("429 first"), false), Action::Backoff));
    assert!(matches!(run.step(Event::Proceed, false), Action::Call));
    match run.step(rate_limited("429 second"), false) {
        Action::Finish(Verdict::Failed(m)) => assert_eq!(m, "429 second"),
        other => panic!("unexpected {:?}", other),
    }
    assert_eq!(run.calls(), 2);
    assert_eq!(RATE_LIMIT_BACKOFF_SECS, 20);
}

#[test]
fn other_errors_are_not_retried() {
    let mut run = JobRun::new(None);
    run.step(Event::Admitted, false);
    run.step(Event::Proceed, false);
    let e = Event::CallFailed { message: "bad token".to_string(), rate_limited: false };
    match run.step(e, false) {
        Action::Finish(Verdict::Failed(m)) => {
            assert_eq!(m, "bad token");
            match run.final_status(Verdict::Failed(m)) {
                JobStatus::Failed { error } => assert_eq!(error, "bad token"),
                other => panic!("unexpected {:?}", other),
            }
        }
        other => panic!("unexpected {:?}", other),
    }
    assert_eq!(run.calls(), 1);
}

#[test]
fn cancel_during_backoff_reports_cancelled() {
    let mut run = JobRun::new(Some(2));
    run.step(Event::Admitted, false);
    run.step(Event::Proceed, false);
    assert!(matches!(run.step(rate_limited("slow down"), false), Action::Backoff));
    assert!(matches!(run.step(Event::Proceed, true), Action::Finish(Verdict::Cancelled)));
    assert_eq!(run.calls(), 1);
}

#[test]
fn rate_limited_while_cancelled_is_not_retried() {
    let mut run = JobRun::new(Some(2));
    run.step(Event::Admitted, false);
    run.step(Event::Proceed, false);
    assert!(matches!(run.step(rate_limited("slow down"), true), Action::Finish(Verdict::Cancelled)));
}

#[test]
fn all_outputs_give_success_without_trailing_cooldown() {
    let mut run = JobRun::new(Some(2));
    assert_eq!(run.quantity(), 2);
    run.step(Event::Admitted, false);
    run.step(Event::Proceed, false);
    assert!(matches!(run.step(Event::CallSucceeded(output(7)), false), Action::Cooldown));
    run.step(Event::Proceed, false);
    match run.step(Event::CallSucceeded(output(8)), false) {
        Action::Finish(v) => match run.final_status(v) {
            JobStatus::Succeeded { outputs } => {
                assert_eq!(outputs.len(), 2);
                assert_eq!(outputs[0].seed, 7);
                assert_eq!(outputs[1].seed, 8);
                assert_eq!(outputs[1].url, "/outputs/t2i/8.png");
            }
            other => panic!("unexpected {:?}", other),
        },
        other => panic!("unexpected {:?}", other),
    }
}

#[test]
fn cancel_after_last_call_wins_over_success() {
    let mut run = JobRun::new(Some(1));
    run.step(Event::Admitted, false);
    run.step(Event::Proceed, false);
    assert!(matches!(
        run.step(Event::CallSucceeded(output(1)), true),
        Action::Finish(Verdict::Cancelled)
    ));
}

#[test]
fn zero_quantity_means_one() {
    assert_eq!(JobRun::new(Some(0)).quantity(), 1);
    assert_eq!(JobRun::new(None).quantity(), 1);
    assert_eq!(JobRun::new(Some(4)).quantity(), 4);
}

#[test]
fn admission_failure_fails_the_job() {
    let mut run = JobRun::new(Some(1));
    match run.step(Event::AdmissionFailed("closed".to_string()), false) {
        Action::Finish(Verdict::Failed(m)) => assert_eq!(m, "closed"),
        other => panic!("unexpected {:?}", other),
    }
}

#[test]
fn events_out_of_phase_are_ignored() {
    let mut run = JobRun::new(Some(1));
    assert!(matches!(run.step(Event::Proceed, false), Action::Idle));
    assert!(matches!(run.step(Event::CallSucceeded(output(1)), false), Action::Idle));
    assert_eq!(run.phase(), Phase::AwaitingAdmission);
}

#[test]
fn zero_base_means_no_cooldown() {
    for jitter in [0u64, 1, 500, 10_000] {
        let cfg = PacingConfig { base_ms: 0, jitter_ms: jitter };
        assert_eq!(cooldown_bounds(&cfg), None);
        assert_eq!(cooldown_delay_ms(&cfg), None);
    }
}

#[test]
fn cooldown_range_bounds() {
    assert_eq!(cooldown_bounds(&PacingConfig { base_ms: 3000, jitter_ms: 1000 }), Some((2000, 4000)));
    assert_eq!(cooldown_bounds(&PacingConfig { base_ms: 1000, jitter_ms: 3000 }), Some((2000, 4000)));
    assert_eq!(cooldown_delay_ms(&PacingConfig { base_ms: 3000, jitter_ms: 0 }), Some(3000));
}

#[test]
fn cooldown_draws_within_range() {
    let cfg = PacingConfig { base_ms: 3000, jitter_ms: 1000 };
    let mut seen_other = false;
    for _ in 0..1000 {
        let d = cooldown_delay_ms(&cfg).unwrap();
        assert!((2000..=4000).contains(&d));
        if d != 2000 {
            seen_other = true;
        }
    }
    assert!(seen_other);
}
