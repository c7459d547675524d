use std::collections::{HashMap, HashSet};

use watcher::events::{
    deduplicate_and_merge_raw_notifier_events, merge_events, BulkFilesystemWatcherEvent, FsEvent,
    FsEventKind, MergeError, RenameMode,
};

fn ev(kind: FsEventKind, paths: &[&str]) -> FsEvent {
    FsEvent { kind, paths: paths.iter().map(|p| p.to_string()).collect() }
}

fn set(paths: &[&str]) -> HashSet<String> {
    paths.iter().map(|p| p.to_string()).collect()
}

fn as_set(v: &[String]) -> HashSet<String> {
    let s: HashSet<String> = v.iter().cloned().collect();
    assert_eq!(s.len(), v.len(), "a path occurs twice");
    s
}

fn moves(u: &BulkFilesystemWatcherEvent) -> HashMap<String, String> {
    let m: HashMap<String, String> = u.moved.iter().cloned().collect();
    assert_eq!(m.len(), u.moved.len(), "a rename target occurs twice");
    m
}

fn merge(events: Vec<FsEvent>) -> Result<BulkFilesystemWatcherEvent, MergeError> {
    deduplicate_and_merge_raw_notifier_events(&events)
}

#[test]
fn created_and_modified_paths_are_kept() {
    let u = merge(vec![
        ev(FsEventKind::Create, &["/a", "/b"]),
        ev(FsEventKind::ModifyData, &["/c"]),
        ev(FsEventKind::ModifyAny, &["/d", "/c"]),
    ])
    .unwrap();
    assert_eq!(as_set(&u.added), set(&["/a", "/b"]));
    assert_eq!(as_set(&u.modified), set(&["/c", "/d"]));
    assert!(u.deleted.is_empty());
    assert!(u.moved.is_empty());
}

#[test]
fn created_then_modified_counts_as_added() {
    let u = merge(vec![ev(FsEventKind::Create, &["/a"]), ev(FsEventKind::ModifyData, &["/a"])])
        .unwrap();
    assert_eq!(as_set(&u.added), set(&["/a"]));
    assert!(u.modified.is_empty());
}

#[test]
fn created_then_removed_leaves_nothing() {
    let r = merge(vec![ev(FsEventKind::Create, &["/a"]), ev(FsEventKind::Remove, &["/a"])]);
    assert_eq!(r.unwrap_err(), MergeError::NoUpdateEvent);
}

#[test]
fn created_modified_then_removed_leaves_nothing() {
    let r = merge(vec![
        ev(FsEventKind::Create, &["/a"]),
        ev(FsEventKind::ModifyData, &["/a"]),
        ev(FsEventKind::Remove, &["/a"]),
    ]);
    assert_eq!(r.unwrap_err(), MergeError::NoUpdateEvent);
}

#[test]
fn created_modified_then_removed_keeps_other_paths() {
    let u = merge(vec![
        ev(FsEventKind::Create, &["/a", "/b"]),
        ev(FsEventKind::ModifyAny, &["/a", "/c"]),
        ev(FsEventKind::Remove, &["/a"]),
    ])
    .unwrap();
    assert_eq!(as_set(&u.added), set(&["/b"]));
    assert_eq!(as_set(&u.modified), set(&["/c"]));
    assert!(u.deleted.is_empty());
}

#[test]
fn ignored_events_do_not_change_the_merge() {
    let plain = vec![
        ev(FsEventKind::Create, &["/a"]),
        ev(FsEventKind::Rename(RenameMode::Both), &["/x", "/y"]),
        ev(FsEventKind::Remove, &["/z"]),
    ];
    let with_ignored = vec![
        ev(FsEventKind::Other, &["/a"]),
        ev(FsEventKind::Create, &["/a"]),
        ev(FsEventKind::Other, &["/x", "/y"]),
        ev(FsEventKind::Rename(RenameMode::Both), &["/x", "/y"]),
        ev(FsEventKind::Other, &[]),
        ev(FsEventKind::Remove, &["/z"]),
        ev(FsEventKind::Other, &["/z"]),
    ];
    let a = merge(plain).unwrap();
    let b = merge(with_ignored).unwrap();
    assert_eq!(as_set(&a.added), as_set(&b.added));
    assert_eq!(as_set(&a.modified), as_set(&b.modified));
    assert_eq!(as_set(&a.deleted), as_set(&b.deleted));
    assert_eq!(moves(&a), moves(&b));
    assert_eq!(as_set(&b.added), set(&["/a"]));
    assert_eq!(as_set(&b.deleted), set(&["/z"]));
}

#[test]
fn merge_error_message() {
    assert_eq!(MergeError::NoUpdateEvent.message(), "No update event produced");
}

#[test]
fn modified_then_removed_keeps_only_the_removal() {
    let u = merge(vec![ev(FsEventKind::ModifyData, &["/a"]), ev(FsEventKind::Remove, &["/a"])])
        .unwrap();
    assert!(u.modified.is_empty());
    assert_eq!(as_set(&u.deleted), set(&["/a"]));
}

#[test]
fn renamed_then_removed_deletes_the_source() {
    let u = merge(vec![
        ev(FsEventKind::Rename(RenameMode::Both), &["/old", "/new"]),
        ev(FsEventKind::Remove, &["/new"]),
    ])
    .unwrap();
    assert!(u.moved.is_empty());
    assert_eq!(as_set(&u.deleted), set(&["/old"]));
}

#[test]
fn sequential_renames_are_squashed() {
    let u = merge(vec![
        ev(FsEventKind::Rename(RenameMode::Both), &["/a", "/b"]),
        ev(FsEventKind::Rename(RenameMode::Both), &["/b", "/c"]),
    ])
    .unwrap();
    let mut expected = HashMap::new();
    expected.insert("/c".to_string(), "/a".to_string());
    assert_eq!(moves(&u), expected);
}

#[test]
fn split_rename_matches_whole_rename() {
    let split = merge(vec![
        ev(FsEventKind::Rename(RenameMode::From), &["/x"]),
        ev(FsEventKind::Rename(RenameMode::To), &["/y"]),
    ])
    .unwrap();
    let whole = merge(vec![ev(FsEventKind::Rename(RenameMode::Both), &["/x", "/y"])]).unwrap();
    assert_eq!(moves(&split), moves(&whole));
    let mut expected = HashMap::new();
    expected.insert("/y".to_string(), "/x".to_string());
    assert_eq!(moves(&whole), expected);
}

#[test]
fn incomplete_renames_are_ignored() {
    let r = merge(vec![
        ev(FsEventKind::Rename(RenameMode::To), &["/y"]),
        ev(FsEventKind::Rename(RenameMode::Both), &["/only-one"]),
        ev(FsEventKind::Rename(RenameMode::From), &[]),
        ev(FsEventKind::Rename(RenameMode::Other), &["/z"]),
        ev(FsEventKind::Other, &["/w"]),
    ]);
    assert_eq!(r.unwrap_err(), MergeError::NoUpdateEvent);
}

#[test]
fn ambiguous_rename_of_an_existing_path_counts_as_created() {
    let u = merge(vec![ev(FsEventKind::Rename(RenameMode::Any), &["/"])]).unwrap();
    assert_eq!(as_set(&u.added), set(&["/"]));
    assert!(u.deleted.is_empty());
}

#[test]
fn ambiguous_rename_of_a_missing_path_counts_as_removed() {
    let missing = "/this/path/does/not/exist/for/the/watcher/tests";
    let u = merge(vec![
        ev(FsEventKind::ModifyData, &[missing]),
        ev(FsEventKind::Rename(RenameMode::Any), &[missing]),
    ])
    .unwrap();
    assert!(u.modified.is_empty());
    assert_eq!(as_set(&u.deleted), set(&[missing]));
}

#[test]
fn merge_events_uses_the_given_existence() {
    let events = vec![
        ev(FsEventKind::Create, &["/a"]),
        ev(FsEventKind::Rename(RenameMode::Any), &["/a", "/b"]),
    ];
    let u = merge_events(&events, &vec![vec![false], vec![false, true]]).unwrap();
    // "/a" was created in this batch and then renamed away: it is forgotten.
    assert!(!u.added.contains(&"/a".to_string()));
    assert_eq!(as_set(&u.added), set(&["/b"]));
    assert!(u.deleted.is_empty());
}

#[test]
fn empty_batch_is_an_error() {
    assert_eq!(merge(vec![]).unwrap_err(), MergeError::NoUpdateEvent);
}

#[test]
fn bulk_event_queries() {
    let u = merge(vec![
        ev(FsEventKind::Create, &["/a"]),
        ev(FsEventKind::ModifyData, &["/b", "/c"]),
    ])
    .unwrap();
    assert!(!u.is_empty());
    let listed: Vec<String> = u.added_or_updated_iter().into_iter().cloned().collect();
    assert_eq!(listed.len(), 3);
    assert_eq!(listed[0], "/a");
    assert_eq!(as_set(&listed), set(&["/a", "/b", "/c"]));
    assert_eq!(as_set(&u.added_or_updated_set()), set(&["/a", "/b", "/c"]));

    let empty = BulkFilesystemWatcherEvent::default();
    assert!(empty.is_empty());
    assert!(empty.added_or_updated_iter().is_empty());
    assert!(empty.added_or_updated_set().is_empty());
}

#[test]
fn added_or_updated_set_holds_each_path_once() {
    let u = BulkFilesystemWatcherEvent {
        added: vec!["/a".to_string(), "/b".to_string()],
        modified: vec!["/b".to_string(), "/c".to_string()],
        deleted: vec![],
        moved: vec![],
    };
    let s = u.added_or_updated_set();
    assert_eq!(s.len(), 3);
    assert_eq!(as_set(&s), set(&["/a", "/b", "/c"]));
    assert_eq!(u.added_or_updated_iter().len(), 4);
}
