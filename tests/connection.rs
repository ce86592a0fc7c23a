use places::connection::PlacesConnection;
use places::frecency::{FrecencyThresholdOption, MatchReason};
use places::import::{ForeignDatabase, ImportError, Store};
use places::interrupt::{InterruptHandle, InterruptScope, Interrupted};
use places::registry::{prune_and_register, ConnectionKind, ConnectionRegistry, Diagnostic};

#[test]
fn second_read_write_connection_is_reported() {
    let mut reg = ConnectionRegistry::new();
    assert_eq!(reg.register(ConnectionKind::ReadWrite, 1, &vec![]), None);
    let d = reg.register(ConnectionKind::ReadWrite, 2, &vec![true]);
    assert_eq!(d, Some(Diagnostic { kind: ConnectionKind::ReadWrite, live_count: 2 }));
    assert_eq!(d.unwrap().category(), "MultiplePlacesReadWriteConnections");
    assert_eq!(reg.read_write, vec![1, 2]);
    assert!(reg.sync.is_empty());
}

#[test]
fn dead_connections_are_pruned() {
    let mut reg = ConnectionRegistry::new();
    reg.register(ConnectionKind::Sync, 1, &vec![]);
    let d = reg.register(ConnectionKind::Sync, 2, &vec![false]);
    assert_eq!(d, None);
    assert_eq!(reg.sync, vec![2]);
    let d = reg.register(ConnectionKind::Sync, 3, &vec![true]);
    assert_eq!(d.unwrap().category(), "MultiplePlacesSyncConnections");
}

#[test]
fn read_only_connections_are_not_tracked() {
    let mut reg = ConnectionRegistry::new();
    for id in 0..5 {
        assert_eq!(reg.register(ConnectionKind::ReadOnly, id, &vec![]), None);
    }
    assert!(reg.read_write.is_empty());
}

#[test]
fn prune_keeps_order_of_live_entries() {
    let mut entries = vec![4, 5, 6, 7];
    let r = prune_and_register(&mut entries, &vec![true, false, true, false], 9);
    assert_eq!(entries, vec![4, 6, 9]);
    assert_eq!(r, Some(3));
}

#[test]
fn interrupt_is_seen_by_open_scope_and_sticks() {
    let handle = InterruptHandle::new();
    let scope = handle.begin_interrupt_scope();
    assert_eq!(scope.err_if_interrupted(&handle), Ok(()));
    handle.interrupt();
    assert_eq!(scope.err_if_interrupted(&handle), Err(Interrupted::Interrupted));
    assert_eq!(scope.err_if_interrupted(&handle), Err(Interrupted::Interrupted));
    let fresh = handle.begin_interrupt_scope();
    assert_eq!(fresh.err_if_interrupted(&handle), Ok(()));
}

#[test]
fn scope_compares_counter() {
    let scope = InterruptScope::new(3);
    assert!(!scope.was_interrupted_at(3));
    assert!(scope.was_interrupted_at(4));
    assert_eq!(scope.err_if_interrupted_at(5), Err(Interrupted::Interrupted));
}

#[test]
fn connection_handle_is_shared() {
    let mut conn = PlacesConnection::new(ConnectionKind::Sync, Store { places: Vec::new(), visits: Vec::new() });
    let handle = conn.new_interrupt_handle();
    let scope = handle.begin_interrupt_scope();
    handle.interrupt();
    assert!(scope.err_if_interrupted(&conn.interrupt_handle).is_err());
    let src = ForeignDatabase { user_version: 12, history: Vec::new(), visits: Vec::new() };
    assert_eq!(conn.import_history(&src), Err(ImportError::UnsupportedDatabaseVersion(12)));
    let src = ForeignDatabase { user_version: 45, history: Vec::new(), visits: Vec::new() };
    assert_eq!(conn.import_history(&src).unwrap().num_total, 0);
}

#[test]
fn frecency_threshold_values() {
    assert_eq!(FrecencyThresholdOption::NoThreshold.value(), 0);
    assert_eq!(FrecencyThresholdOption::SkipOneTimePages.value(), 102);
    assert_ne!(MatchReason::Keyword, MatchReason::Tags);
}
