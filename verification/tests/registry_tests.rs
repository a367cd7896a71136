use explorer_core::registry::{OperationKind, Registry};

#[test]
fn test_ids_strictly_increase() {
    let mut reg = Registry::new();
    let a = reg.start(OperationKind::NameSearch);
    let b = reg.start(OperationKind::ContentSearch);
    let c = reg.start(OperationKind::Enumeration);
    assert_eq!(a, 1);
    assert_eq!(b, 2);
    assert_eq!(c, 3);
    assert!(reg.contains(a) && reg.contains(b) && reg.contains(c));
}

#[test]
fn test_cancel_sets_flag() {
    let mut reg = Registry::new();
    let id = reg.start(OperationKind::NameSearch);
    assert!(!reg.is_cancelled(id));
    reg.cancel(id);
    assert!(reg.is_cancelled(id));
}

#[test]
fn test_cancel_twice_is_idempotent() {
    let mut reg = Registry::new();
    let id = reg.start(OperationKind::ContentSearch);
    reg.cancel(id);
    reg.cancel(id);
    assert!(reg.is_cancelled(id));
    assert!(reg.contains(id));
}

#[test]
fn test_cancel_after_complete_is_noop() {
    let mut reg = Registry::new();
    let id = reg.start(OperationKind::Enumeration);
    reg.complete(id);
    assert!(!reg.contains(id));
    reg.cancel(id);
    assert!(!reg.contains(id));
    assert!(!reg.is_cancelled(id));
}

#[test]
fn test_cancel_unknown_id_is_noop() {
    let mut reg = Registry::new();
    reg.cancel(42);
    assert!(!reg.contains(42));
}

#[test]
fn test_complete_removes_entry() {
    let mut reg = Registry::new();
    let id = reg.start(OperationKind::NameSearch);
    assert!(reg.contains(id));
    reg.complete(id);
    assert!(!reg.contains(id));
    // Identifiers are never reused.
    let next = reg.start(OperationKind::NameSearch);
    assert!(next > id);
}
