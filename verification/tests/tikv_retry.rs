use kasane::models::AppError;
use kasane::tikv::keys::{lock, LockScope};
use kasane::tikv::retry::{
    is_one_pc_failure, is_retryable, jitter_from, lock_options, retry_backoff, write_options, KeyErrorInfo,
    NeedsRestart, Retry, StoreError, TxnOptions, RETRY_BACKOFF_JITTER_PERCENT, RETRY_BACKOFF_MAX_MS,
};

#[test]
fn lock_scopes_sort_into_the_hierarchy_order() {
    let db = lock(LockScope::Database, b"z-database");
    let user = lock(LockScope::User, b"a-user");

    assert!(db < user);

    let ordered: Vec<_> = std::collections::BTreeSet::from([user.clone(), db.clone()]).into_iter().collect();
    assert_eq!(ordered, vec![db, user]);
}

#[test]
fn retry_backoff_grows_within_bounds_and_varies() {
    let ceiling = RETRY_BACKOFF_MAX_MS + RETRY_BACKOFF_MAX_MS * RETRY_BACKOFF_JITTER_PERCENT / 100;
    for attempt in 0..32 {
        assert!(retry_backoff(attempt) <= ceiling, "attempt={attempt} exceeded the ceiling");
    }

    let samples: std::collections::BTreeSet<_> = (0..32).map(|_| retry_backoff(16)).collect();
    assert!(samples.len() > 1, "the jitter has no effect: every wait is the same");

    let base = RETRY_BACKOFF_MAX_MS;
    let span = base * RETRY_BACKOFF_JITTER_PERCENT / 100;
    for millis in samples {
        assert!(millis >= base - span && millis <= base + span, "jitter out of range: {millis}ms");
    }
}

fn key_error(f: impl FnOnce(&mut KeyErrorInfo)) -> StoreError {
    let mut info = KeyErrorInfo {
        conflict: false,
        deadlock: false,
        retryable: false,
        commit_ts_expired: false,
        txn_not_found: false,
        already_exist: false,
    };
    f(&mut info);
    StoreError::KeyError(info)
}

#[test]
fn contention_failures_are_classified_as_retryable() {
    assert!(is_retryable(&StoreError::ResolveLockError), "a failed lock resolution is not retried");
    assert!(is_retryable(&StoreError::ExtractedErrors(vec![StoreError::ResolveLockError])));

    let expired = key_error(|k| k.commit_ts_expired = true);
    assert!(is_retryable(&expired), "an expired commit timestamp is not retried");
    let vanished = key_error(|k| k.txn_not_found = true);
    assert!(is_retryable(&vanished), "a rolled back attempt is not retried");

    let other = key_error(|k| k.already_exist = true);
    assert!(!is_retryable(&other));

    assert!(!is_retryable(&StoreError::UndeterminedError(Box::new(StoreError::ResolveLockError))));

    assert!(!is_retryable(&StoreError::OnePcFailure));
    assert!(is_one_pc_failure(&StoreError::OnePcFailure));
}

#[test]
fn lock_transactions_stay_pessimistic() {
    let pessimistic = TxnOptions { pessimistic: true, try_one_pc: false, warn_on_drop: true };
    assert_eq!(lock_options(), pessimistic, "lock transactions must be pessimistic");

    let optimistic = TxnOptions { pessimistic: false, try_one_pc: false, warn_on_drop: true };
    assert_ne!(lock_options(), optimistic, "lock transactions became optimistic");

    assert_ne!(write_options(true), write_options(false), "try_one_pc is not reflected");
}

#[test]
fn restart_marker_is_labelled_as_a_bug_when_converted() {
    let err: AppError = NeedsRestart.into();
    let AppError::InternalError(message) = err else {
        panic!("NeedsRestart must convert into InternalError");
    };
    assert!(message.contains("bug"), "the message must say it is a bug");
}

#[test]
fn jitter_spreads_around_the_base() {
    assert_eq!(jitter_from(1000, 0), 800);
    assert_eq!(jitter_from(1000, 400), 1200);
    assert_eq!(jitter_from(1000, 401), 800);
    assert_eq!(jitter_from(4, 12345), 4);
}

#[test]
fn backoff_doubles_from_the_base_up_to_the_cap() {
    assert_eq!(kasane::tikv::retry::backoff_base(0), 5);
    assert_eq!(kasane::tikv::retry::backoff_base(1), 10);
    assert_eq!(kasane::tikv::retry::backoff_base(3), 40);
    assert_eq!(kasane::tikv::retry::backoff_base(9), 2000);
    assert_eq!(kasane::tikv::retry::backoff_base(40), 2000);
}

#[test]
fn a_retry_counts_conflicts_and_remembers_the_last_reason() {
    let mut retry = Retry::new();
    let wait = retry.back_off(AppError::Conflict("first".to_string()));
    assert!(wait <= 6);
    retry.note(AppError::Conflict("second".to_string()));
    assert_eq!(retry.conflicts, 1);
    assert_eq!(retry.into_final_error(3), AppError::Conflict("second".to_string()));
    assert_eq!(
        Retry::new().into_final_error(3),
        AppError::Conflict("write did not settle within 20 attempts (3 lock(s) held at the end)".to_string())
    );
}
