use std::sync::Arc;

use litki::script::{CommandResult, PromiseState, WaitStep};
use litki::Value;

const MS: u128 = 1_000_000;

#[test]
fn test_resolve_and_deref() {
    let mut promise = PromiseState::new();
    let result = CommandResult::Success(Arc::new(Value::Integer(42)));

    promise.resolve(result);

    match promise.wait_step(0, u128::MAX) {
        WaitStep::Ready(CommandResult::Success(v)) => {
            assert!(matches!(v.as_ref(), Value::Integer(42)));
        }
        _ => panic!("Expected Success"),
    }
}

#[test]
fn test_deref_timeout_returns_none() {
    let promise = PromiseState::new();

    let step = promise.wait_step(100 * MS, 100 * MS);
    assert!(matches!(step, WaitStep::Expired));
}

#[test]
fn test_poll_non_blocking() {
    let mut promise = PromiseState::new();

    assert!(promise.poll().is_none());
    assert!(!promise.is_resolved());

    let result = CommandResult::Success(Arc::new(Value::Integer(777)));
    promise.resolve(result);

    assert!(promise.poll().is_some());
    assert!(promise.is_resolved());
}

#[test]
fn wait_step_waits_for_the_time_left() {
    let promise = PromiseState::new();
    match promise.wait_step(30 * MS, 100 * MS) {
        WaitStep::Wait(n) => assert_eq!(n, 70 * MS),
        _ => panic!("expected a wait"),
    }
}

#[test]
fn resolved_result_is_seen_by_every_look() {
    let mut promise = PromiseState::default();
    promise.resolve(CommandResult::Error(Arc::new(Value::Integer(7))));
    for elapsed in [0u128, 50 * MS, 200 * MS] {
        match promise.wait_step(elapsed, 100 * MS) {
            WaitStep::Ready(CommandResult::Error(v)) => assert!(matches!(v.as_ref(), Value::Integer(7))),
            _ => panic!("expected the stored error"),
        }
    }
    match promise.poll() {
        Some(CommandResult::Error(v)) => assert!(matches!(v.as_ref(), Value::Integer(7))),
        _ => panic!("expected the stored error"),
    }
    assert!(promise.is_resolved());
}

#[test]
fn pending_result_is_stored_too() {
    let mut promise = PromiseState::new();
    promise.resolve(CommandResult::Pending);
    assert!(matches!(promise.poll(), Some(CommandResult::Pending)));
}
