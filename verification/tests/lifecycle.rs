use anthill::engine::{CaptureError, Config, Engine, SubmissionFailure};
use anthill::flag::{FlagState, Reconciled, Verdict};
use anthill::ledger::ExploitRun;
use anthill::normalize::CasePolicy;

fn config(scoring_window: u64, tick_length: u64, max_retries: u32) -> Config {
    Config {
        tick_length,
        scoring_window,
        batch_size: 10,
        max_retries,
        own_team_id: 1,
        nop_team_id: 2,
        nop_team_grants_points: false,
        case_policy: CasePolicy::Preserve,
        flag_value_pattern: None,
    }
}

fn run(run_id: u64) -> ExploitRun {
    ExploitRun { run_id, target_team_id: 7, exploit_id: 3 }
}

#[test]
fn valid_flag_is_scored_and_seen_again() {
    let mut engine = Engine::new(config(60, 5, 3), 0);
    assert_eq!(engine.submit_capture("FLAG{abc}", run(1), 0), Ok(true));
    assert_eq!(engine.tick(4), None);
    let batch = engine.tick(5).expect("a batch is due");
    assert_eq!(batch, vec![b"FLAG{abc}".to_vec()]);
    assert!(engine.is_in_flight());
    let reports = engine.reconcile(Ok(vec![Verdict::Valid]), 5);
    assert_eq!(reports, vec![Reconciled::Updated(FlagState::Valid)]);
    assert!(!engine.is_in_flight());
    assert_eq!(engine.store().state_of(b"FLAG{abc}"), Some(FlagState::Valid));

    assert_eq!(engine.submit_capture("FLAG{abc}", run(2), 10), Ok(false));
    assert_eq!(engine.store().state_of(b"FLAG{abc}"), Some(FlagState::Valid));
    assert_eq!(engine.store().len(), 1);
    assert_eq!(engine.store().occurrence_count(), 2);
    let seen = engine.store().occurrences_of(b"FLAG{abc}").unwrap();
    assert_eq!(seen.len(), 2);
    assert_eq!(seen[0].collection_time, 0);
    assert_eq!(seen[1].collection_time, 10);
    assert_eq!(seen[1].exploit_run, run(2));
    assert_eq!(engine.tick(10), None);
    let flag = engine.store().get(b"FLAG{abc}").unwrap();
    assert_eq!(flag.first_seen, 0);
    assert_eq!(flag.last_submission_attempt, Some(5));
    assert_eq!(flag.retry_count, 0);
}

#[test]
fn transient_failures_stop_after_the_last_retry() {
    let mut engine = Engine::new(config(1000, 5, 3), 0);
    assert_eq!(engine.submit_capture("FLAG{x}", run(1), 0), Ok(true));
    let mut attempts = 0;
    for t in [5u64, 10, 15] {
        let batch = engine.tick(t).expect("a batch is due");
        assert_eq!(batch, vec![b"FLAG{x}".to_vec()]);
        attempts += 1;
        let reports = engine.reconcile(Err(SubmissionFailure::Retryable), t);
        assert_eq!(reports, vec![Reconciled::Updated(FlagState::Error)]);
        assert_eq!(engine.store().get(b"FLAG{x}").unwrap().retry_count, attempts);
    }
    let batch = engine.tick(20).expect("the last retry is due");
    assert_eq!(batch.len(), 1);
    let reports = engine.reconcile(Err(SubmissionFailure::Retryable), 20);
    assert_eq!(reports, vec![Reconciled::Exhausted]);
    assert_eq!(engine.store().state_of(b"FLAG{x}"), Some(FlagState::Error));
    let flag = engine.store().get(b"FLAG{x}").unwrap();
    assert_eq!(flag.retry_count, 4);
    assert_eq!(flag.last_submission_attempt, Some(20));
    for t in [25u64, 30, 35, 1000] {
        assert_eq!(engine.tick(t), None);
    }
    assert_eq!(engine.store().state_of(b"FLAG{x}"), Some(FlagState::Error));
}

#[test]
fn unsubmitted_flag_expires_and_ignores_late_verdict() {
    let mut engine = Engine::new(config(10, 5, 3), 0);
    assert_eq!(engine.submit_capture("FLAG{y}", run(1), 0), Ok(true));
    let batch = engine.tick(5).expect("a batch is due");
    assert_eq!(batch, vec![b"FLAG{y}".to_vec()]);
    engine.sweep(9);
    assert_eq!(engine.store().state_of(b"FLAG{y}"), Some(FlagState::Pending));
    engine.sweep(10);
    assert_eq!(engine.store().state_of(b"FLAG{y}"), Some(FlagState::Pending));
    engine.sweep(11);
    assert_eq!(engine.store().state_of(b"FLAG{y}"), Some(FlagState::Expired));
    let reports = engine.reconcile(Ok(vec![Verdict::Valid]), 12);
    assert_eq!(reports, vec![Reconciled::Ignored]);
    assert_eq!(engine.store().state_of(b"FLAG{y}"), Some(FlagState::Expired));
    assert_eq!(engine.tick(15), None);
}

#[test]
fn late_verdict_expires_without_a_sweep() {
    let mut engine = Engine::new(config(10, 5, 3), 0);
    assert_eq!(engine.submit_capture("FLAG{y}", run(1), 0), Ok(true));
    assert!(engine.tick(5).is_some());
    let reports = engine.reconcile(Ok(vec![Verdict::Valid]), 12);
    assert_eq!(reports, vec![Reconciled::Updated(FlagState::Expired)]);
    assert_eq!(engine.store().state_of(b"FLAG{y}"), Some(FlagState::Expired));
}

#[test]
fn empty_capture_is_malformed_input() {
    let mut engine = Engine::new(config(60, 5, 3), 0);
    assert_eq!(engine.submit_capture("", run(1), 0), Err(CaptureError::Empty));
    assert_eq!(engine.submit_capture("  \t\r\n ", run(1), 0), Err(CaptureError::Empty));
    assert_eq!(engine.store().len(), 0);
    assert_eq!(engine.store().occurrence_count(), 0);
}

#[test]
fn captures_are_normalized_before_dedup() {
    let mut cfg = config(60, 5, 3);
    cfg.case_policy = CasePolicy::Upper;
    let mut engine = Engine::new(cfg, 0);
    assert_eq!(engine.submit_capture("  flag{abc}\n", run(1), 0), Ok(true));
    assert_eq!(engine.submit_capture("FLAG{ABC}", run(2), 1), Ok(false));
    assert_eq!(engine.submit_capture("Flag{Abc} ", run(3), 2), Ok(false));
    assert_eq!(engine.store().len(), 1);
    assert_eq!(engine.store().occurrence_count(), 3);
    assert_eq!(engine.store().state_of(b"FLAG{ABC}"), Some(FlagState::Pending));
    assert_eq!(engine.store().state_of(b"flag{abc}"), None);
}

#[test]
fn pattern_turns_away_values_that_do_not_match() {
    let mut cfg = config(60, 5, 3);
    cfg.flag_value_pattern = Some("^FLAG\\{[a-z0-9]+\\}$".to_string());
    let mut engine = Engine::new(cfg, 0);
    assert_eq!(engine.submit_capture("FLAG{abc}", run(1), 0), Ok(true));
    assert_eq!(engine.submit_capture("FLAG{ABC}", run(1), 0), Err(CaptureError::Malformed));
    assert_eq!(engine.submit_capture("hello", run(1), 0), Err(CaptureError::Malformed));
    assert_eq!(engine.submit_capture(" FLAG{x1} ", run(1), 0), Ok(true));
    assert_eq!(engine.store().len(), 2);
    assert_eq!(engine.store().occurrence_count(), 2);
}

#[test]
fn pattern_that_does_not_compile_is_reported() {
    let mut cfg = config(60, 5, 3);
    cfg.flag_value_pattern = Some("FLAG{(".to_string());
    let mut engine = Engine::new(cfg, 0);
    assert_eq!(engine.submit_capture("FLAG{abc}", run(1), 0), Err(CaptureError::BadPattern));
    assert_eq!(engine.submit_capture("", run(1), 0), Err(CaptureError::Empty));
    assert_eq!(engine.store().len(), 0);
}

#[test]
fn accept_capture_goes_by_the_match_it_is_given() {
    let mut engine = Engine::new(config(60, 5, 3), 0);
    assert_eq!(engine.accept_capture(b"F1".to_vec(), Some(true), run(1), 0), Ok(true));
    assert_eq!(engine.accept_capture(b"F1".to_vec(), Some(true), run(1), 1), Ok(false));
    assert_eq!(
        engine.accept_capture(b"F2".to_vec(), Some(false), run(1), 0),
        Err(CaptureError::Malformed)
    );
    assert_eq!(engine.accept_capture(b"F2".to_vec(), None, run(1), 0), Err(CaptureError::BadPattern));
    assert_eq!(engine.accept_capture(Vec::new(), Some(true), run(1), 0), Err(CaptureError::Empty));
    assert_eq!(engine.store().len(), 1);
    assert_eq!(engine.store().occurrence_count(), 2);
}

#[test]
fn batches_are_bounded_and_oldest_first() {
    let mut cfg = config(1000, 5, 3);
    cfg.batch_size = 2;
    let mut engine = Engine::new(cfg, 0);
    assert_eq!(engine.submit_capture("C", run(1), 30), Ok(true));
    assert_eq!(engine.submit_capture("A", run(1), 10), Ok(true));
    assert_eq!(engine.submit_capture("B", run(1), 20), Ok(true));
    assert_eq!(engine.submit_capture("A2", run(1), 10), Ok(true));
    let batch = engine.tick(40).unwrap();
    assert_eq!(batch, vec![b"A".to_vec(), b"A2".to_vec()]);
    // No second batch while the first is in flight.
    assert_eq!(engine.tick(45), None);
    assert_eq!(engine.tick(100), None);
    let reports = engine.reconcile(Ok(vec![Verdict::Valid, Verdict::Own]), 41);
    assert_eq!(
        reports,
        vec![Reconciled::Updated(FlagState::Valid), Reconciled::Updated(FlagState::Own)]
    );
    assert_eq!(engine.store().state_of(b"A"), Some(FlagState::Valid));
    assert_eq!(engine.store().state_of(b"A2"), Some(FlagState::Own));
    // The cadence counts from the tick that drew the batch.
    assert_eq!(engine.tick(44), None);
    let batch = engine.tick(45).unwrap();
    assert_eq!(batch, vec![b"B".to_vec(), b"C".to_vec()]);
}

#[test]
fn verdicts_reach_the_flag_at_their_position() {
    let mut engine = Engine::new(config(1000, 5, 3), 0);
    let names = ["F0", "F1", "F2", "F3", "F4", "F5", "F6"];
    for (i, name) in names.iter().enumerate() {
        assert_eq!(engine.submit_capture(name, run(1), i as u64), Ok(true));
    }
    let batch = engine.tick(10).unwrap();
    assert_eq!(batch.len(), 7);
    for (i, name) in names.iter().enumerate() {
        assert_eq!(batch[i], name.as_bytes().to_vec());
    }
    let verdicts = vec![
        Verdict::Valid,
        Verdict::AlreadySubmitted,
        Verdict::Invalid,
        Verdict::Expired,
        Verdict::Own,
        Verdict::NOPTeam,
        Verdict::Error,
    ];
    let reports = engine.reconcile(Ok(verdicts), 10);
    let states = [
        FlagState::Valid,
        FlagState::AlreadySubmitted,
        FlagState::Invalid,
        FlagState::Expired,
        FlagState::Own,
        FlagState::NOPTeam,
        FlagState::Error,
    ];
    for (i, name) in names.iter().enumerate() {
        assert_eq!(reports[i], Reconciled::Updated(states[i]));
        assert_eq!(engine.store().state_of(name.as_bytes()), Some(states[i]));
    }
    // Only the flag that met an error is drawn again.
    assert_eq!(engine.tick(15), Some(vec![b"F6".to_vec()]));
}

#[test]
fn reply_of_wrong_length_counts_as_retryable_failure() {
    let mut engine = Engine::new(config(1000, 5, 1), 0);
    assert_eq!(engine.submit_capture("A", run(1), 0), Ok(true));
    assert_eq!(engine.submit_capture("B", run(1), 1), Ok(true));
    assert!(engine.tick(5).is_some());
    let reports = engine.reconcile(Ok(vec![Verdict::Valid]), 5);
    assert_eq!(
        reports,
        vec![Reconciled::Updated(FlagState::Error), Reconciled::Updated(FlagState::Error)]
    );
    assert_eq!(engine.store().get(b"A").unwrap().retry_count, 1);
    assert_eq!(engine.store().get(b"B").unwrap().retry_count, 1);
}

#[test]
fn permanent_failure_abandons_the_batch_at_once() {
    let mut engine = Engine::new(config(1000, 5, 3), 0);
    assert_eq!(engine.submit_capture("A", run(1), 0), Ok(true));
    assert!(engine.tick(5).is_some());
    let reports = engine.reconcile(Err(SubmissionFailure::Permanent), 5);
    assert_eq!(reports, vec![Reconciled::Exhausted]);
    assert_eq!(engine.store().state_of(b"A"), Some(FlagState::Error));
    assert_eq!(engine.store().get(b"A").unwrap().retry_count, 4);
    assert_eq!(engine.tick(10), None);
}

#[test]
fn reconcile_without_a_batch_does_nothing() {
    let mut engine = Engine::new(config(1000, 5, 3), 0);
    assert_eq!(engine.submit_capture("A", run(1), 0), Ok(true));
    let reports = engine.reconcile(Ok(vec![Verdict::Valid]), 5);
    assert!(reports.is_empty());
    assert_eq!(engine.store().state_of(b"A"), Some(FlagState::Pending));
}

#[test]
fn first_tick_time_saturates() {
    let mut engine = Engine::new(config(1000, 5, 3), u64::MAX - 2);
    assert_eq!(engine.submit_capture("A", run(1), 0), Ok(true));
    assert_eq!(engine.tick(u64::MAX - 1), None);
    // The flag was captured at 0 and the window closed long ago; it is still drawn
    // until the sweep retires it.
    assert!(engine.tick(u64::MAX).is_some());
}

#[test]
fn engine_knows_what_scores() {
    let mut cfg = config(60, 5, 3);
    cfg.nop_team_grants_points = true;
    let with_nop = Engine::new(cfg, 0);
    let without_nop = Engine::new(config(60, 5, 3), 0);
    assert!(with_nop.scores(FlagState::Valid));
    assert!(with_nop.scores(FlagState::NOPTeam));
    assert!(!with_nop.scores(FlagState::Own));
    assert!(without_nop.scores(FlagState::Valid));
    assert!(!without_nop.scores(FlagState::NOPTeam));
    assert!(with_nop.is_pointless_target(1));
    assert!(!with_nop.is_pointless_target(2));
    assert!(without_nop.is_pointless_target(1));
    assert!(without_nop.is_pointless_target(2));
    assert!(!without_nop.is_pointless_target(3));
}

#[test]
fn restart_resumes_from_kept_records() {
    let mut engine = Engine::new(config(1000, 5, 3), 0);
    assert_eq!(engine.submit_capture("A", run(1), 0), Ok(true));
    assert_eq!(engine.submit_capture("B", run(2), 1), Ok(true));
    assert!(engine.tick(5).is_some());
    engine.reconcile(Ok(vec![Verdict::Valid, Verdict::Error]), 5);
    assert_eq!(engine.submit_capture("C", run(3), 6), Ok(true));
    assert_eq!(engine.submit_capture("A", run(4), 7), Ok(false));
    // A batch is in flight when the records are taken.
    assert_eq!(engine.tick(10), Some(vec![b"B".to_vec(), b"C".to_vec()]));
    let flags = engine.store().flags();
    let occurrences = engine.store().occurrences();
    assert_eq!(flags.len(), 3);
    assert_eq!(occurrences.len(), 4);

    let mut again = Engine::restore(config(1000, 5, 3), flags, occurrences, 12)
        .expect("records of a store are consistent");
    assert!(!again.is_in_flight());
    assert_eq!(again.store().len(), 3);
    assert_eq!(again.store().occurrence_count(), 4);
    assert_eq!(again.store().state_of(b"A"), Some(FlagState::Valid));
    assert_eq!(again.store().state_of(b"B"), Some(FlagState::Error));
    assert_eq!(again.store().state_of(b"C"), Some(FlagState::Pending));
    assert_eq!(again.store().get(b"B").unwrap().retry_count, 1);
    assert_eq!(again.store().occurrences_of(b"A").unwrap().len(), 2);
    assert_eq!(again.tick(16), None);
    assert_eq!(again.tick(17), Some(vec![b"B".to_vec(), b"C".to_vec()]));
    assert_eq!(again.submit_capture("A", run(5), 18), Ok(false));
    assert_eq!(again.submit_capture("D", run(5), 18), Ok(true));
    assert_eq!(again.store().get(b"D").unwrap().id, 3);
}

#[test]
fn configured_pattern_can_be_tested_before_use() {
    let mut cfg = config(60, 5, 3);
    assert!(cfg.has_usable_pattern());
    cfg.flag_value_pattern = Some("^FLAG\\{[a-z0-9]+\\}$".to_string());
    assert!(cfg.has_usable_pattern());
    cfg.flag_value_pattern = Some(String::new());
    assert!(cfg.has_usable_pattern());
    cfg.flag_value_pattern = Some("FLAG{(".to_string());
    assert!(!cfg.has_usable_pattern());
    cfg.flag_value_pattern = Some("[a-".to_string());
    assert!(!cfg.has_usable_pattern());
    assert!(anthill::pattern::pattern_compiles("a|b"));
    assert!(!anthill::pattern::pattern_compiles("(a"));
}

#[test]
fn abandoned_flag_is_not_pending() {
    let policy = anthill::flag::Policy { scoring_window: 1000, max_retries: 3 };
    let mut engine = Engine::new(config(1000, 5, 3), 0);
    assert_eq!(engine.submit_capture("FLAG{x}", run(1), 0), Ok(true));
    for (t, pending) in [(5u64, true), (10, true), (15, true), (20, false)] {
        assert!(engine.tick(t).is_some());
        engine.reconcile(Err(SubmissionFailure::Retryable), t);
        let flag = engine.store().get(b"FLAG{x}").unwrap();
        assert_eq!(flag.state, FlagState::Error);
        assert_eq!(flag.is_pending(&policy), pending);
    }
    assert_eq!(engine.store().get(b"FLAG{x}").unwrap().retry_count, 4);
    assert!(engine.store().list_pending(10).is_empty());
}
