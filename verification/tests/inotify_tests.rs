use ogedit::inotify::{InotifyRecord, InotifyWatches};
use ogedit::watch::WatchEvent;

fn rec(wd: i32, modified: bool, gone: bool) -> InotifyRecord {
    InotifyRecord { wd, modified, gone }
}

#[test]
fn watches_are_added_and_removed() {
    let mut w = InotifyWatches::new();
    let a = "/tmp/a.txt".to_string();
    assert!(!w.is_watched(&a));
    w.add(a.clone(), 1);
    assert!(w.is_watched(&a));
    assert_eq!(w.remove(&a), Some(1));
    assert!(!w.is_watched(&a));
    assert_eq!(w.remove(&a), None);
}

#[test]
fn records_become_events() {
    let mut w = InotifyWatches::new();
    w.add("/tmp/a.txt".to_string(), 1);
    w.add("/tmp/b.txt".to_string(), 2);
    let events = w.events(&[rec(1, true, false), rec(7, true, true), rec(2, false, true)], 1_000);
    assert_eq!(
        events,
        vec![WatchEvent::Modified("/tmp/a.txt".to_string()), WatchEvent::Deleted("/tmp/b.txt".to_string())]
    );
}

#[test]
fn modifications_are_quiet_for_100_ms() {
    let mut w = InotifyWatches::new();
    w.add("/tmp/a.txt".to_string(), 1);
    // Two records in one read: the second is within the quiet time.
    let events = w.events(&[rec(1, true, false), rec(1, true, true)], 5_000);
    assert_eq!(events, vec![WatchEvent::Modified("/tmp/a.txt".to_string())]);
    assert!(w.events(&[rec(1, true, false)], 5_099).is_empty());
    assert_eq!(w.events(&[rec(1, true, false)], 5_100), vec![WatchEvent::Modified("/tmp/a.txt".to_string())]);
    // A path that was never modified reports removal at once.
    w.add("/tmp/b.txt".to_string(), 2);
    assert_eq!(w.events(&[rec(2, false, true)], 5_101), vec![WatchEvent::Deleted("/tmp/b.txt".to_string())]);
}

#[test]
fn removing_a_watch_forgets_its_records() {
    let mut w = InotifyWatches::new();
    w.add("/tmp/a.txt".to_string(), 3);
    w.events(&[rec(3, true, false)], 10);
    assert_eq!(w.remove(&"/tmp/a.txt".to_string()), Some(3));
    assert!(w.events(&[rec(3, true, true)], 20).is_empty());
    // Watched again: the quiet time starts afresh.
    w.add("/tmp/a.txt".to_string(), 4);
    assert_eq!(w.events(&[rec(4, true, false)], 30), vec![WatchEvent::Modified("/tmp/a.txt".to_string())]);
}

#[test]
fn watched_paths_are_compared_part_by_part() {
    let mut w = InotifyWatches::new();
    w.add("/tmp/a.txt".to_string(), 1);
    assert!(w.is_watched(&"/tmp//a.txt".to_string()));
    assert!(w.is_watched(&"/tmp/./a.txt/".to_string()));
    assert!(!w.is_watched(&"tmp/a.txt".to_string()));
    let events = w.events(&[rec(1, true, false)], 1_000);
    assert_eq!(events, vec![WatchEvent::Modified("/tmp/a.txt".to_string())]);
    assert_eq!(w.remove(&"/tmp//a.txt".to_string()), Some(1));
    assert!(!w.is_watched(&"/tmp/a.txt".to_string()));
    // The quiet time went with the watch: a new watch reports at once.
    w.add("/tmp/a.txt".to_string(), 2);
    let events = w.events(&[rec(2, true, false)], 1_010);
    assert_eq!(events, vec![WatchEvent::Modified("/tmp/a.txt".to_string())]);
}
