use editrion_core::error::AppError;
use editrion_core::registry::ProcessManager;

#[test]
fn test_process_manager_new() {
    let manager = ProcessManager::<u64>::new();
    assert_eq!(manager.active_count(), 0);
}

#[test]
fn test_process_manager_cancel_nonexistent() {
    let manager = ProcessManager::<u64>::new();
    let result = manager.cancel_process("nonexistent");
    assert!(result.is_err());
    if let Err(AppError::ProcessNotFound(id)) = result {
        assert_eq!(id, "nonexistent");
    } else {
        panic!("Expected ProcessNotFound error");
    }
}

#[test]
fn registry_add_get_remove() {
    let mut manager = ProcessManager::<u64>::new();

    manager.add_process("test_id".to_string(), 11);
    assert_eq!(manager.active_count(), 1);
    assert_eq!(manager.get_process("test_id"), Some(&11));

    manager.remove_process("test_id");
    assert_eq!(manager.active_count(), 0);
    assert!(manager.get_process("test_id").is_none());
}

#[test]
fn registry_cancel_finds_live_handle() {
    let mut manager = ProcessManager::<u64>::new();
    manager.add_process("test_cancel".to_string(), 7);

    let result = manager.cancel_process("test_cancel");
    assert_eq!(result.unwrap(), &7);
    // cancellation does not remove the entry; cleanup is the
    // executor's own step
    assert_eq!(manager.active_count(), 1);
    manager.remove_process("test_cancel");
    assert_eq!(manager.active_count(), 0);
}

#[test]
fn cancel_unknown_id_reports_not_found() {
    let manager = ProcessManager::<u64>::new();
    match manager.cancel_process("no-such-run") {
        Err(AppError::ProcessNotFound(id)) => assert_eq!(id, "no-such-run"),
        _ => panic!("expected a not-found outcome"),
    }
}

#[test]
fn registering_same_id_twice_overwrites() {
    let mut manager = ProcessManager::<u64>::new();
    manager.add_process("dup".to_string(), 1);
    manager.add_process("dup".to_string(), 2);
    assert_eq!(manager.active_count(), 1);
    // cancelling the id reaches only the most recently registered
    // handle; the first one is orphaned
    assert_eq!(manager.cancel_process("dup").unwrap(), &2);

    manager.remove_process("dup");
    assert!(manager.get_process("dup").is_none());
}

#[test]
fn removing_absent_id_is_a_no_op() {
    let mut manager = ProcessManager::<u64>::new();
    manager.add_process("keep".to_string(), 5);
    manager.remove_process("absent");
    assert_eq!(manager.active_count(), 1);
    assert_eq!(manager.get_process("keep"), Some(&5));
}
