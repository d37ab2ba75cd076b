use sidl_session::correlation::{CorrelationError, CorrelationTable, PendingCall};

#[test]
fn issue_register_resolve() {
    let mut t = CorrelationTable::new();
    let id = t.issue();
    assert_eq!(t.register(id, 7, 3, 100), Ok(()));
    let done = t.resolve(id).expect("a registered call resolves");
    assert_eq!(done, PendingCall { request_id: id, service: 7, object: 3, handle: 100 });
    // The call is gone: a second resolution is unknown.
    assert_eq!(t.resolve(id), Err(CorrelationError::UnknownRequest));
}

#[test]
fn resolve_unknown_leaves_table_unchanged() {
    let mut t = CorrelationTable::new();
    assert_eq!(t.register(5, 1, 1, 10), Ok(()));
    assert_eq!(t.resolve(99), Err(CorrelationError::UnknownRequest));
    // The registered call is still there, untouched.
    assert_eq!(
        t.get(5),
        Some(PendingCall { request_id: 5, service: 1, object: 1, handle: 10 })
    );
}

#[test]
fn duplicate_registration_is_a_hard_failure() {
    let mut t = CorrelationTable::new();
    assert_eq!(t.register(8, 1, 1, 10), Ok(()));
    assert_eq!(t.register(8, 2, 2, 20), Err(CorrelationError::DuplicateRequest));
    // The original registration won.
    assert_eq!(
        t.get(8),
        Some(PendingCall { request_id: 8, service: 1, object: 1, handle: 10 })
    );
}

#[test]
fn issued_ids_are_fresh() {
    let mut t = CorrelationTable::new();
    let a = t.issue();
    assert_eq!(t.register(a, 1, 1, 1), Ok(()));
    let b = t.issue();
    assert_ne!(a, b);
    assert_eq!(t.register(b, 1, 1, 2), Ok(()));
    let c = t.issue();
    assert_ne!(a, c);
    assert_ne!(b, c);
}

#[test]
fn cancel_wins_over_late_resolution() {
    let mut t = CorrelationTable::new();
    assert_eq!(t.register(42, 7, 3, 55), Ok(()));
    let cancelled = t.cancel(42);
    assert_eq!(
        cancelled,
        Some(PendingCall { request_id: 42, service: 7, object: 3, handle: 55 })
    );
    // Whoever acts second observes "not found" and does nothing further.
    assert_eq!(t.resolve(42), Err(CorrelationError::UnknownRequest));
    assert_eq!(t.cancel(42), None);
}

#[test]
fn cancel_scoped_cancels_only_that_object() {
    let mut t = CorrelationTable::new();
    assert_eq!(t.register(1, 7, 3, 10), Ok(()));
    assert_eq!(t.register(2, 7, 4, 20), Ok(()));
    assert_eq!(t.register(3, 7, 3, 30), Ok(()));
    let cancelled = t.cancel_scoped(7, 3);
    let mut ids: Vec<u64> = cancelled.iter().map(|pc| pc.request_id).collect();
    ids.sort();
    assert_eq!(ids, vec![1, 3]);
    assert_eq!(t.resolve(1), Err(CorrelationError::UnknownRequest));
    assert_eq!(t.resolve(3), Err(CorrelationError::UnknownRequest));
    // The call aimed elsewhere is still outstanding.
    assert_eq!(
        t.resolve(2),
        Ok(PendingCall { request_id: 2, service: 7, object: 4, handle: 20 })
    );
}
