use ledger_core::error::{ConsistencyError, InfrastructureError, LedgerError, ValidationError};
use ledger_core::saga::{RetryPolicy, Saga, SagaAction, SagaEvent, SagaState};

fn policy() -> RetryPolicy {
    RetryPolicy { base_delay_ms: 100, max_delay_ms: 1000, max_attempts: 3 }
}

fn storage_down() -> SagaEvent {
    SagaEvent::Failed(LedgerError::Infrastructure(InfrastructureError::StorageUnavailable))
}

fn conflict() -> SagaEvent {
    SagaEvent::Failed(LedgerError::Infrastructure(InfrastructureError::TransactionConflict))
}

fn rejected() -> LedgerError {
    LedgerError::Consistency(ConsistencyError::InsufficientStock { available: 0, requested: 5 })
}

#[test]
fn only_storage_failures_are_retryable() {
    assert!(LedgerError::Infrastructure(InfrastructureError::StorageUnavailable).is_retryable());
    assert!(LedgerError::Infrastructure(InfrastructureError::TransactionConflict).is_retryable());
    assert!(!rejected().is_retryable());
    assert!(!LedgerError::Validation(ValidationError::TooFewLines).is_retryable());
}

#[test]
fn the_delay_doubles_up_to_its_bound() {
    let p = policy();
    assert_eq!(p.delay_ms(0), 100);
    assert_eq!(p.delay_ms(1), 200);
    assert_eq!(p.delay_ms(2), 400);
    assert_eq!(p.delay_ms(3), 800);
    assert_eq!(p.delay_ms(4), 1000);
    assert_eq!(p.delay_ms(40), 1000);
    assert_eq!(p.delay_ms(u32::MAX), 1000);
}

#[test]
fn the_delay_of_odd_policies() {
    let none = RetryPolicy { base_delay_ms: 0, max_delay_ms: 1000, max_attempts: 3 };
    assert_eq!(none.delay_ms(0), 0);
    assert_eq!(none.delay_ms(7), 0);
    let capped = RetryPolicy { base_delay_ms: 500, max_delay_ms: 100, max_attempts: 3 };
    assert_eq!(capped.delay_ms(0), 100);
    assert_eq!(capped.delay_ms(2), 100);
    let exact = RetryPolicy { base_delay_ms: 250, max_delay_ms: 1000, max_attempts: 3 };
    assert_eq!(exact.delay_ms(2), 1000);
    let wide = RetryPolicy { base_delay_ms: 1, max_delay_ms: u64::MAX, max_attempts: 3 };
    assert_eq!(wide.delay_ms(63), 1 << 63);
    assert_eq!(wide.delay_ms(64), u64::MAX);
}

#[test]
fn every_step_succeeding_commits() {
    let (mut saga, first) = Saga::start();
    assert_eq!(first, SagaAction::ApplyStock);
    assert_eq!(saga.state, SagaState::Pending);
    assert_eq!(saga.step(SagaEvent::Succeeded, &policy()), SagaAction::ApplyJournal);
    assert_eq!(saga.state, SagaState::StockApplied);
    assert_eq!(saga.step(SagaEvent::Succeeded, &policy()), SagaAction::Commit);
    assert_eq!(saga.state, SagaState::JournalApplied);
    assert_eq!(saga.step(SagaEvent::Succeeded, &policy()), SagaAction::Stop);
    assert_eq!(saga.state, SagaState::Committed);
    assert_eq!(saga.failure, None);
    assert_eq!(saga.step(storage_down(), &policy()), SagaAction::Stop);
    assert_eq!(saga.state, SagaState::Committed);
}

#[test]
fn a_rejection_before_any_write_aborts_at_once() {
    let (mut saga, _) = Saga::start();
    assert_eq!(saga.step(SagaEvent::Failed(rejected()), &policy()), SagaAction::Stop);
    assert_eq!(saga.state, SagaState::Aborted);
    assert_eq!(saga.failure, Some(rejected()));
}

#[test]
fn a_rejection_after_a_write_is_undone() {
    let (mut saga, _) = Saga::start();
    saga.step(SagaEvent::Succeeded, &policy());
    assert_eq!(saga.step(SagaEvent::Failed(rejected()), &policy()), SagaAction::Compensate);
    assert_eq!(saga.state, SagaState::Compensating);
    assert_eq!(saga.step(SagaEvent::Succeeded, &policy()), SagaAction::Stop);
    assert_eq!(saga.state, SagaState::Aborted);
    assert_eq!(saga.failure, Some(rejected()));
    assert_eq!(saga.step(SagaEvent::Succeeded, &policy()), SagaAction::Stop);
    assert_eq!(saga.state, SagaState::Aborted);
}

#[test]
fn a_storage_failure_is_retried_with_growing_delay_and_then_undone() {
    let (mut saga, _) = Saga::start();
    saga.step(SagaEvent::Succeeded, &policy());
    saga.step(SagaEvent::Succeeded, &policy());
    assert_eq!(saga.step(storage_down(), &policy()), SagaAction::RetryAfter { delay_ms: 100 });
    assert_eq!(saga.step(conflict(), &policy()), SagaAction::RetryAfter { delay_ms: 200 });
    assert_eq!(saga.step(storage_down(), &policy()), SagaAction::RetryAfter { delay_ms: 400 });
    assert_eq!(saga.state, SagaState::JournalApplied);
    assert_eq!(saga.attempts, 3);
    assert_eq!(saga.step(conflict(), &policy()), SagaAction::Compensate);
    assert_eq!(saga.state, SagaState::Compensating);
    assert_eq!(saga.attempts, 0);
    assert_eq!(
        saga.failure,
        Some(LedgerError::Infrastructure(InfrastructureError::TransactionConflict))
    );
}

#[test]
fn a_retry_that_succeeds_goes_on() {
    let (mut saga, _) = Saga::start();
    assert_eq!(saga.step(storage_down(), &policy()), SagaAction::RetryAfter { delay_ms: 100 });
    assert_eq!(saga.state, SagaState::Pending);
    assert_eq!(saga.step(SagaEvent::Succeeded, &policy()), SagaAction::ApplyJournal);
    assert_eq!(saga.attempts, 0);
    assert_eq!(saga.step(storage_down(), &policy()), SagaAction::RetryAfter { delay_ms: 100 });
}

#[test]
fn the_undoing_is_retried_and_keeps_the_first_failure() {
    let (mut saga, _) = Saga::start();
    saga.step(SagaEvent::Succeeded, &policy());
    saga.step(SagaEvent::Failed(rejected()), &policy());
    assert_eq!(saga.step(storage_down(), &policy()), SagaAction::RetryAfter { delay_ms: 100 });
    assert_eq!(saga.state, SagaState::Compensating);
    let never = RetryPolicy { base_delay_ms: 1, max_delay_ms: 1, max_attempts: 0 };
    assert_eq!(saga.step(storage_down(), &never), SagaAction::Stop);
    assert_eq!(saga.state, SagaState::Aborted);
    assert_eq!(saga.failure, Some(rejected()));
}
