use ogedit::dir_watch::DirectoryFiles;
use ogedit::watch::{FileProbe, WatchEvent};

#[test]
fn notifications_report_changes_of_watched_files() {
    let mut d = DirectoryFiles::new();
    let name = "a.txt".to_string();
    d.watch(name.clone(), "C:\\dir\\a.txt".to_string(), 10);
    assert_eq!(d.full_path(&name), Some("C:\\dir\\a.txt".to_string()));
    assert_eq!(d.full_path(&"b.txt".to_string()), None);
    // The same time: nothing; a new time: modified, once.
    assert_eq!(d.process_notification(&name, FileProbe::Modified(10)), None);
    assert_eq!(
        d.process_notification(&name, FileProbe::Modified(11)),
        Some(WatchEvent::Modified("C:\\dir\\a.txt".to_string()))
    );
    assert_eq!(d.process_notification(&name, FileProbe::Modified(11)), None);
    assert_eq!(d.process_notification(&name, FileProbe::NoTime), None);
    // Metadata that cannot be read: gone.
    assert_eq!(
        d.process_notification(&name, FileProbe::NotFound),
        Some(WatchEvent::Deleted("C:\\dir\\a.txt".to_string()))
    );
    assert_eq!(
        d.process_notification(&name, FileProbe::Failed),
        Some(WatchEvent::Deleted("C:\\dir\\a.txt".to_string()))
    );
    // Names not watched are ignored.
    assert_eq!(d.process_notification(&"b.txt".to_string(), FileProbe::Modified(1)), None);
    d.unwatch(&name);
    assert_eq!(d.process_notification(&name, FileProbe::Modified(99)), None);
    assert_eq!(d.full_path(&name), None);
}
