use kiro_rs::refresh::{after_list_failure, token_rejected, AccountEntry, AfterListFailure, ListAttempt, RefreshAllRun};

#[test]
fn full_refresh_visits_enabled_accounts_in_order() {
    let entries = vec![
        AccountEntry { id: 1, disabled: false },
        AccountEntry { id: 2, disabled: true },
        AccountEntry { id: 3, disabled: false },
    ];
    let mut run = RefreshAllRun::start(&entries);
    assert_eq!(run.next_account(), Some(1));
    run.record(true);
    assert_eq!(run.next_account(), Some(3));
    run.record(false);
    assert_eq!(run.next_account(), None);
    assert_eq!(run.totals(), (1, 1));
}

#[test]
fn empty_refresh_tallies_nothing() {
    let run = RefreshAllRun::start(&Vec::new());
    assert_eq!(run.next_account(), None);
    assert_eq!(run.totals(), (0, 0));
}

#[test]
fn token_rejection_is_detected() {
    assert!(token_rejected("ListAvailableModels failed with status 403 Forbidden: x"));
    assert!(token_rejected("Forbidden"));
    assert!(!token_rejected("status 500"));
}

#[test]
fn only_first_rejected_listing_is_retried() {
    assert_eq!(after_list_failure(ListAttempt::First, false, "status 403"), AfterListFailure::RefreshTokenAndRetry);
    assert_eq!(after_list_failure(ListAttempt::First, false, "status 500"), AfterListFailure::GiveUp);
    assert_eq!(after_list_failure(ListAttempt::AfterTokenRefresh, false, "status 403"), AfterListFailure::GiveUp);
}

#[test]
fn api_key_credentials_never_retry() {
    assert_eq!(after_list_failure(ListAttempt::First, true, "status 403 Forbidden"), AfterListFailure::GiveUp);
}
