use anthill::flag::{scores_points, Flag, FlagState, Policy, Reconciled, Verdict};
use anthill::normalize::{copy_bytes, normalize, same_bytes, CasePolicy};

const POLICY: Policy = Policy { scoring_window: 60, max_retries: 3 };

fn fresh() -> Flag {
    Flag::create(0, b"FLAG{t}".to_vec(), 100)
}

#[test]
fn create_starts_pending() {
    let f = fresh();
    assert_eq!(f.state, FlagState::Pending);
    assert_eq!(f.first_seen, 100);
    assert_eq!(f.retry_count, 0);
    assert_eq!(f.last_submission_attempt, None);
    assert!(f.is_pending(&POLICY));
    assert!(!f.is_valid());
}

#[test]
fn each_verdict_settles_in_its_state() {
    let table = [
        (Verdict::Valid, FlagState::Valid),
        (Verdict::AlreadySubmitted, FlagState::AlreadySubmitted),
        (Verdict::Invalid, FlagState::Invalid),
        (Verdict::Expired, FlagState::Expired),
        (Verdict::Own, FlagState::Own),
        (Verdict::NOPTeam, FlagState::NOPTeam),
    ];
    for (verdict, state) in table {
        let mut f = fresh();
        assert_eq!(f.apply_verdict(&POLICY, verdict, 105), Reconciled::Updated(state));
        assert_eq!(f.state, state);
        assert_eq!(f.last_submission_attempt, Some(105));
        assert!(!f.is_pending(&POLICY));
        assert_eq!(f.is_valid(), state == FlagState::Valid);
        // Nothing leaves a terminal state.
        for later in [Verdict::Valid, Verdict::Invalid, Verdict::Error] {
            assert_eq!(f.apply_verdict(&POLICY, later, 106), Reconciled::Ignored);
            assert_eq!(f.state, state);
        }
        assert_eq!(f.apply_failure(&POLICY, true, 106), Reconciled::Ignored);
        assert!(!f.expire(&POLICY, 10_000));
        assert_eq!(f.state, state);
        assert_eq!(f.last_submission_attempt, Some(105));
    }
}

#[test]
fn error_verdict_is_a_retryable_failure() {
    let mut f = fresh();
    assert_eq!(f.apply_verdict(&POLICY, Verdict::Error, 105), Reconciled::Updated(FlagState::Error));
    assert_eq!(f.state, FlagState::Error);
    assert_eq!(f.retry_count, 1);
    assert!(f.is_pending(&POLICY));
    assert_eq!(f.apply_verdict(&POLICY, Verdict::Valid, 110), Reconciled::Updated(FlagState::Valid));
    assert_eq!(f.state, FlagState::Valid);
    assert_eq!(f.retry_count, 1);
}

#[test]
fn retries_are_bounded() {
    for max_retries in [0u32, 1, 3, 7] {
        let policy = Policy { scoring_window: 1_000, max_retries };
        let mut f = fresh();
        for attempt in 1..=(max_retries as u64) {
            assert_eq!(
                f.apply_failure(&policy, true, 100 + attempt),
                Reconciled::Updated(FlagState::Error)
            );
            assert_eq!(f.retry_count, attempt);
            assert!(f.is_pending(&policy));
        }
        assert_eq!(f.apply_failure(&policy, true, 200), Reconciled::Exhausted);
        assert_eq!(f.retry_count, max_retries as u64 + 1);
        assert_eq!(f.state, FlagState::Error);
        assert!(!f.is_pending(&policy));
        assert_eq!(f.apply_failure(&policy, true, 201), Reconciled::Ignored);
        assert_eq!(f.apply_verdict(&policy, Verdict::Valid, 201), Reconciled::Ignored);
        assert_eq!(f.retry_count, max_retries as u64 + 1);
        assert_eq!(f.last_submission_attempt, Some(200));
        assert!(!f.expire(&policy, 10_000));
        assert_eq!(f.state, FlagState::Error);
    }
}

#[test]
fn expiration_beats_a_late_verdict_in_either_order() {
    let mut first = fresh();
    assert!(first.is_overdue(&POLICY, 161));
    assert!(!first.is_overdue(&POLICY, 160));
    assert!(first.expire(&POLICY, 161));
    assert_eq!(first.apply_verdict(&POLICY, Verdict::Valid, 162), Reconciled::Ignored);
    assert_eq!(first.state, FlagState::Expired);

    let mut second = fresh();
    assert_eq!(
        second.apply_verdict(&POLICY, Verdict::Valid, 162),
        Reconciled::Updated(FlagState::Expired)
    );
    assert!(!second.expire(&POLICY, 161));
    assert_eq!(second.state, FlagState::Expired);

    let mut third = fresh();
    assert_eq!(third.apply_failure(&POLICY, true, 162), Reconciled::Updated(FlagState::Expired));
    assert_eq!(third.retry_count, 0);
}

#[test]
fn verdict_within_the_window_counts() {
    let mut f = fresh();
    assert_eq!(f.apply_verdict(&POLICY, Verdict::Valid, 160), Reconciled::Updated(FlagState::Valid));
    assert!(!f.expire(&POLICY, 500));
    assert_eq!(f.state, FlagState::Valid);
}

#[test]
fn retry_counter_saturates() {
    let policy = Policy { scoring_window: 1_000, max_retries: 3 };
    let mut f = fresh();
    f.retry_count = u64::MAX;
    assert_eq!(f.apply_failure(&policy, true, 101), Reconciled::Exhausted);
    assert_eq!(f.retry_count, u64::MAX);
}

#[test]
fn duplicate_copies_every_field() {
    let mut f = fresh();
    f.apply_failure(&POLICY, true, 101);
    let g = f.duplicate();
    assert_eq!(g.id, f.id);
    assert_eq!(g.value, f.value);
    assert_eq!(g.first_seen, f.first_seen);
    assert_eq!(g.last_submission_attempt, Some(101));
    assert_eq!(g.state, FlagState::Error);
    assert_eq!(g.retry_count, 1);
}

#[test]
fn points_depend_on_the_nop_team_setting() {
    assert!(scores_points(FlagState::Valid, false));
    assert!(scores_points(FlagState::Valid, true));
    assert!(scores_points(FlagState::NOPTeam, true));
    assert!(!scores_points(FlagState::NOPTeam, false));
    for state in [
        FlagState::Pending,
        FlagState::AlreadySubmitted,
        FlagState::Invalid,
        FlagState::Expired,
        FlagState::Own,
        FlagState::Error,
    ] {
        assert!(!scores_points(state, true));
        assert!(!scores_points(state, false));
    }
}

#[test]
fn normalize_trims_ascii_whitespace() {
    assert_eq!(normalize(b"  FLAG{a b}\t\r\n", CasePolicy::Preserve), b"FLAG{a b}".to_vec());
    assert_eq!(normalize(b"\x0b\x0cx\x0b\x0c", CasePolicy::Preserve), b"x".to_vec());
    assert_eq!(normalize(b"", CasePolicy::Preserve), Vec::<u8>::new());
    assert_eq!(normalize(b" \n ", CasePolicy::Upper), Vec::<u8>::new());
    assert_eq!(normalize(b"x", CasePolicy::Preserve), b"x".to_vec());
    assert_eq!(normalize(b"\x08x\x0e", CasePolicy::Preserve), b"\x08x\x0e".to_vec());
}

#[test]
fn normalize_folds_ascii_letters_only() {
    assert_eq!(normalize(b"Flag{aZ09_@[`{}", CasePolicy::Upper), b"FLAG{AZ09_@[`{}".to_vec());
    assert_eq!(normalize(b"Flag{aZ09_@[`{}", CasePolicy::Lower), b"flag{az09_@[`{}".to_vec());
    assert_eq!(normalize(b"Flag{aZ}", CasePolicy::Preserve), b"Flag{aZ}".to_vec());
    assert_eq!(normalize("é".as_bytes(), CasePolicy::Upper), "é".as_bytes().to_vec());
}

#[test]
fn bytes_compare_and_copy() {
    assert!(same_bytes(b"abc", b"abc"));
    assert!(same_bytes(b"", b""));
    assert!(!same_bytes(b"abc", b"abd"));
    assert!(!same_bytes(b"abc", b"ab"));
    assert!(!same_bytes(b"", b"a"));
    assert_eq!(copy_bytes(b"abc"), b"abc".to_vec());
    assert_eq!(copy_bytes(b""), Vec::<u8>::new());
}

#[test]
fn normalizing_twice_changes_nothing() {
    let raws: [&[u8]; 5] = [b"  Flag{x} ", b"\tA b\n", b"", b"   ", b"zZ"];
    for raw in raws {
        for policy in [CasePolicy::Preserve, CasePolicy::Upper, CasePolicy::Lower] {
            let once = normalize(raw, policy);
            assert_eq!(normalize(&once, policy), once);
        }
    }
}
