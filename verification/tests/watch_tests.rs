use ogedit::watch::{poll_timeout, FileProbe, PollingFiles, WatchEvent, WatchedFile};

#[test]
fn test_polling_fallback_modification() {
    let mut watched = WatchedFile::new("/tmp/polling_test".to_string(), Some(1_000));
    let event = watched.check_changed(FileProbe::Modified(1_000));
    assert!(event.is_none(), "First check should return None (initialization)");
    let event = watched.check_changed(FileProbe::Modified(2_000));
    assert!(event.is_some(), "Expected Modified event from polling");
    assert!(matches!(event, Some(WatchEvent::Modified(_))));
}

#[test]
fn test_polling_fallback_deletion() {
    let mut watched = WatchedFile::new("/tmp/polling_delete_test".to_string(), Some(5));
    let _ = watched.check_changed(FileProbe::Modified(5));
    let event = watched.check_changed(FileProbe::NotFound);
    assert!(event.is_some(), "Expected Deleted event from polling");
    assert!(matches!(event, Some(WatchEvent::Deleted(_))));
}

#[test]
fn polled_events_carry_the_path() {
    let mut w = WatchedFile::new("a.txt".to_string(), None);
    assert_eq!(w.check_changed(FileProbe::Modified(7)), None);
    assert_eq!(w.check_changed(FileProbe::Modified(7)), None);
    assert_eq!(w.check_changed(FileProbe::Modified(8)), Some(WatchEvent::Modified("a.txt".to_string())));
    assert_eq!(w.check_changed(FileProbe::NoTime), None);
    assert_eq!(w.check_changed(FileProbe::Failed), None);
    assert_eq!(w.check_changed(FileProbe::NotFound), Some(WatchEvent::Deleted("a.txt".to_string())));
    // Reported once only.
    assert_eq!(w.check_changed(FileProbe::NotFound), None);
    // Back again: a new time is a modification.
    assert_eq!(w.check_changed(FileProbe::Modified(9)), Some(WatchEvent::Modified("a.txt".to_string())));
}

#[test]
fn first_check_of_missing_file_is_silent() {
    let mut w = WatchedFile::new("gone".to_string(), None);
    assert_eq!(w.check_changed(FileProbe::NotFound), None);
    assert!(w.initialized);
    assert_eq!(w.check_changed(FileProbe::Modified(1)), Some(WatchEvent::Modified("gone".to_string())));
}

#[test]
fn poll_timeouts() {
    assert_eq!(poll_timeout(true), 200);
    assert_eq!(poll_timeout(false), 50);
}

#[test]
fn polling_files_watch_unwatch_and_check() {
    let mut p = PollingFiles::new();
    assert!(p.is_empty());
    p.watch("one".to_string(), Some(1));
    p.watch("two".to_string(), Some(2));
    p.watch("one".to_string(), Some(1));
    assert_eq!(p.paths(), vec!["one".to_string(), "two".to_string()]);
    // First round initializes.
    let events = p.check_all(&[FileProbe::Modified(1), FileProbe::Modified(2)]);
    assert!(events.is_empty());
    let events = p.check_all(&[FileProbe::Modified(5), FileProbe::NotFound]);
    assert_eq!(
        events,
        vec![WatchEvent::Modified("one".to_string()), WatchEvent::Deleted("two".to_string())]
    );
    p.unwatch(&"one".to_string());
    assert_eq!(p.paths(), vec!["two".to_string()]);
    p.unwatch(&"missing".to_string());
    assert_eq!(p.paths(), vec!["two".to_string()]);
    p.unwatch(&"two".to_string());
    assert!(p.is_empty());
}

#[test]
fn watching_the_same_path_written_otherwise_replaces_it() {
    let mut p = PollingFiles::new_for(false);
    p.watch("/a/b".to_string(), Some(1));
    p.watch("/a//b/".to_string(), Some(2));
    assert_eq!(p.paths(), vec!["/a//b/".to_string()]);
    p.watch("a/b".to_string(), Some(3));
    assert_eq!(p.paths(), vec!["/a//b/".to_string(), "a/b".to_string()]);
    p.unwatch(&"/a/./b".to_string());
    assert_eq!(p.paths(), vec!["a/b".to_string()]);
}
