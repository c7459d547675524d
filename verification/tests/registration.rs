use watcher::registration::{RecursiveMode, RegistrationDiagnostics, WatcherAction, WatcherCommand};

#[test]
fn registration_diagnostics_tracks_duplicate_registrations() {
    let mut diagnostics = RegistrationDiagnostics::default();
    let path = "/tmp/warp-watcher-diagnostics";

    let first = diagnostics.record_register(path, RecursiveMode::Recursive);
    assert!(!first.duplicate_registration);
    assert_eq!(first.refcount_for_registration, 1);
    assert_eq!(diagnostics.duplicate_register_requests(), 0);
    assert_eq!(diagnostics.path_refcounts().len(), 1);
    assert_eq!(diagnostics.registrations().len(), 1);

    let second = diagnostics.record_register(path, RecursiveMode::Recursive);
    assert!(second.duplicate_registration);
    assert_eq!(second.refcount_for_registration, 2);
    assert_eq!(diagnostics.duplicate_register_requests(), 1);
    assert_eq!(diagnostics.path_refcounts().len(), 1);
    assert_eq!(diagnostics.registrations().len(), 1);
}

#[test]
fn registration_diagnostics_tracks_unmatched_unregisters() {
    let mut diagnostics = RegistrationDiagnostics::default();
    let path = "/tmp/warp-watcher-diagnostics-missing";

    let stats = diagnostics.record_unregister(path);
    assert!(stats.unmatched_unregister);
    assert_eq!(stats.refcount_for_path_after_remove, 0);
    assert_eq!(diagnostics.unmatched_unregister_requests(), 1);
}

#[test]
fn registration_diagnostics_clears_path_once_refcount_reaches_zero() {
    let mut diagnostics = RegistrationDiagnostics::default();
    let path = "/tmp/warp-watcher-diagnostics-clear";

    diagnostics.record_register(path, RecursiveMode::Recursive);
    diagnostics.record_register(path, RecursiveMode::Recursive);

    let first_remove = diagnostics.record_unregister(path);
    assert!(!first_remove.unmatched_unregister);
    assert_eq!(first_remove.refcount_for_path_after_remove, 1);
    assert_eq!(diagnostics.path_refcounts().len(), 1);
    assert_eq!(diagnostics.registrations().len(), 1);

    let second_remove = diagnostics.record_unregister(path);
    assert!(!second_remove.unmatched_unregister);
    assert_eq!(second_remove.refcount_for_path_after_remove, 0);
    assert!(diagnostics.path_refcounts().is_empty());
    assert!(diagnostics.registrations().is_empty());
}

#[test]
fn registrations_with_different_modes_are_counted_apart() {
    let mut diagnostics = RegistrationDiagnostics::new();
    let path = "/tmp/watched";

    let first = diagnostics.record_register(path, RecursiveMode::Recursive);
    let second = diagnostics.record_register(path, RecursiveMode::NonRecursive);
    assert!(!first.duplicate_registration);
    assert!(!second.duplicate_registration);
    assert_eq!(second.refcount_for_registration, 1);
    assert_eq!(*diagnostics.path_refcounts(), vec![("/tmp/watched".to_string(), 2)]);
    assert_eq!(diagnostics.registrations().len(), 2);
    assert_eq!(diagnostics.total_register_requests(), 2);
    assert_eq!(diagnostics.duplicate_register_requests(), 0);

    // Dropping one reference keeps both registrations; dropping the last forgets them.
    let after_first = diagnostics.record_unregister(path);
    assert_eq!(after_first.refcount_for_path_after_remove, 1);
    assert_eq!(diagnostics.registrations().len(), 2);
    let after_second = diagnostics.record_unregister(path);
    assert_eq!(after_second.refcount_for_path_after_remove, 0);
    assert!(diagnostics.registrations().is_empty());
    assert_eq!(diagnostics.total_unregister_requests(), 2);
    assert_eq!(diagnostics.unmatched_unregister_requests(), 0);
}

#[test]
fn last_unregister_keeps_other_paths() {
    let mut diagnostics = RegistrationDiagnostics::new();
    diagnostics.record_register("/a", RecursiveMode::Recursive);
    diagnostics.record_register("/b", RecursiveMode::NonRecursive);
    diagnostics.record_unregister("/a");
    assert_eq!(*diagnostics.path_refcounts(), vec![("/b".to_string(), 1)]);
    assert_eq!(diagnostics.registrations().len(), 1);
    assert_eq!(diagnostics.registrations()[0].0.path, "/b");
    assert_eq!(diagnostics.registrations()[0].0.recursive_mode, RecursiveMode::NonRecursive);
    assert_eq!(diagnostics.registrations()[0].1, 1);
}

#[test]
fn register_then_unregister_restores_refcounts() {
    let mut diagnostics = RegistrationDiagnostics::new();
    diagnostics.record_register("/kept", RecursiveMode::Recursive);
    let before_refcounts = diagnostics.path_refcounts().clone();
    let before_registrations = diagnostics.registrations().len();

    diagnostics.record_register("/fresh", RecursiveMode::Recursive);
    diagnostics.record_unregister("/fresh");
    assert_eq!(*diagnostics.path_refcounts(), before_refcounts);
    assert_eq!(diagnostics.registrations().len(), before_registrations);

    diagnostics.record_register("/kept", RecursiveMode::Recursive);
    diagnostics.record_unregister("/kept");
    assert_eq!(*diagnostics.path_refcounts(), before_refcounts);
}

#[test]
fn handle_command_returns_the_watch_to_perform() {
    let mut diagnostics = RegistrationDiagnostics::new();
    let action = diagnostics.handle_command(WatcherCommand::AddPath {
        path: "tmp/../tmp/dir".to_string(),
        normalized_path: "/tmp/dir".to_string(),
        recursive_mode: RecursiveMode::Recursive,
    });
    match action {
        WatcherAction::Watch { path, recursive_mode, stats } => {
            assert_eq!(path, "tmp/../tmp/dir");
            assert_eq!(recursive_mode, RecursiveMode::Recursive);
            assert_eq!(stats.normalized_path, "/tmp/dir");
            assert_eq!(stats.refcount_for_registration, 1);
            assert!(!stats.duplicate_registration);
        }
        WatcherAction::Unwatch { .. } => panic!("expected a watch"),
    }

    let action = diagnostics.handle_command(WatcherCommand::RemovePath {
        path: "tmp/../tmp/dir".to_string(),
        normalized_path: "/tmp/dir".to_string(),
    });
    match action {
        WatcherAction::Unwatch { path, stats } => {
            assert_eq!(path, "tmp/../tmp/dir");
            assert_eq!(stats.normalized_path, "/tmp/dir");
            assert_eq!(stats.refcount_for_path_after_remove, 0);
            assert!(!stats.unmatched_unregister);
        }
        WatcherAction::Watch { .. } => panic!("expected an unwatch"),
    }
    assert!(diagnostics.path_refcounts().is_empty());
}
