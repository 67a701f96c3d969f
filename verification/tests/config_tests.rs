use ogedit::config::{Config, RecentFile};
use ogedit::folders::ProjectFolders;

#[test]
fn test_parse_json() {
    let json = r#"{"word_wrap":true}"#;
    let config = Config::parse(json).unwrap();
    assert!(config.word_wrap);

    let json = r#"{"word_wrap":false}"#;
    let config = Config::parse(json).unwrap();
    assert!(!config.word_wrap);

    let json = r#"{"word_wrap": true }"#;
    let config = Config::parse(json).unwrap();
    assert!(config.word_wrap);
}

#[test]
fn test_parse_json_all_fields() {
    let json = r#"{"word_wrap":true,"indent_with_tabs":true,"tab_size":2,"newline_crlf":false,"line_numbers":false,"line_highlight":false,"insert_final_newline":true,"ruler_column":80}"#;
    let config = Config::parse(json).unwrap();
    assert!(config.word_wrap);
    assert!(config.indent_with_tabs);
    assert_eq!(config.tab_size, 2);
    assert!(!config.newline_crlf);
    assert!(!config.line_numbers);
    assert!(!config.line_highlight);
    assert!(config.insert_final_newline);
    assert_eq!(config.ruler_column, 80);
}

#[test]
fn test_parse_json_with_comments() {
    let json = r#"
// This is a comment
{
  // Another comment
  "word_wrap": true,
  // Comment about tabs
  "tab_size": 8
}
"#;
    let config = Config::parse(json).unwrap();
    assert!(config.word_wrap);
    assert_eq!(config.tab_size, 8);
}

#[test]
fn test_parse_json_corrupted() {
    // Invalid JSON should return None
    assert!(Config::parse("not json").is_none());
    assert!(Config::parse("{invalid}").is_none());
    assert!(Config::parse("").is_none());
    assert!(Config::parse("[]").is_none());

    // Incomplete JSON should return None
    assert!(Config::parse("{\"word_wrap\":").is_none());
    assert!(Config::parse("{\"word_wrap\"").is_none());

    // Invalid tab_size values
    assert!(Config::parse("{\"tab_size\":0}").is_none());
    assert!(Config::parse("{\"tab_size\":9}").is_none());
    assert!(Config::parse("{\"tab_size\":abc}").is_none());
}

#[test]
fn test_parse_json_missing_fields() {
    // Empty object should use defaults
    let json = r#"{}"#;
    let config = Config::parse(json).unwrap();
    let defaults = Config::default();
    assert_eq!(config, defaults);

    // Unknown fields should be ignored
    let json = r#"{"unknown_field":123,"word_wrap":true}"#;
    let config = Config::parse(json).unwrap();
    assert!(config.word_wrap);
}

#[test]
fn test_roundtrip() {
    // Test that we can serialize and deserialize correctly
    let before = Config {
        word_wrap: true,
        indent_with_tabs: true,
        tab_size: 2,
        newline_crlf: false,
        line_numbers: false,
        line_highlight: false,
        insert_final_newline: true,
        ruler_column: 120,
        project_folders: ProjectFolders::new(),
        recent_files: Vec::new(),
    };
    let json = before.to_json();
    let parsed = Config::parse(&json).unwrap();
    assert_eq!(parsed, before);

    let before = Config::default();
    let json = before.to_json();
    let parsed = Config::parse(&json).unwrap();
    assert_eq!(parsed, before);
}

#[test]
fn test_project_folders_roundtrip() {
    // Test that project_folders can be serialized and deserialized
    let mut before = Config::default();
    before.project_folders.insert("/home/user/project".to_string(), "/home/user/project/src".to_string());
    before.project_folders.insert("C:\\Users\\Test".to_string(), "C:\\Users\\Test\\Documents".to_string());

    let json = before.to_json();
    let parsed = Config::parse(&json).unwrap();
    assert_eq!(parsed.project_folders, before.project_folders);
}

#[test]
fn test_project_folders_escaping() {
    // Test that special characters in paths are properly escaped and parsed
    let mut before = Config::default();
    before.project_folders.insert("path\"with\"quotes".to_string(), "value\\with\\backslashes".to_string());

    let json = before.to_json();
    let parsed = Config::parse(&json).unwrap();
    assert_eq!(parsed.project_folders, before.project_folders);
}

#[test]
fn test_recent_files_roundtrip() {
    // Test that recent_files can be serialized and deserialized
    let mut before = Config::default();
    before.recent_files.push(RecentFile {
        path: String::from("/home/user/file.txt"),
        opened_at: 1732900000,
    });
    before.recent_files.push(RecentFile {
        path: String::from("C:\\Users\\Test\\doc.rs"),
        opened_at: 1732890000,
    });

    let json = before.to_json();
    let parsed = Config::parse(&json).unwrap();
    assert_eq!(parsed.recent_files, before.recent_files);
}

#[test]
fn test_recent_files_escaping() {
    // Test that special characters in paths are properly escaped and parsed
    let mut before = Config::default();
    before.recent_files.push(RecentFile {
        path: String::from("path\"with\"quotes.txt"),
        opened_at: 1732900000,
    });
    before.recent_files.push(RecentFile {
        path: String::from("path\\with\\backslashes.txt"),
        opened_at: 1732890000,
    });

    let json = before.to_json();
    let parsed = Config::parse(&json).unwrap();
    assert_eq!(parsed.recent_files, before.recent_files);
}

#[test]
fn test_tab_size_bounds() {
    // Valid tab sizes
    for size in 1..=8 {
        let json = format!("{{\"tab_size\":{}}}", size);
        let config = Config::parse(&json).unwrap();
        assert_eq!(config.tab_size, size);
    }
}

#[test]
fn test_ruler_column_bounds() {
    // Valid ruler columns (0 = disabled)
    for col in [0, 72, 80, 100, 120, 255] {
        let json = format!("{{\"ruler_column\":{}}}", col);
        let config = Config::parse(&json).unwrap();
        assert_eq!(config.ruler_column, col);
    }
}

#[test]
fn reading_keeps_the_newest_hundred_recent_files() {
    let mut entries = Vec::new();
    for i in 0..105u64 {
        entries.push(format!("{{\"path\": \"/f{}\", \"opened_at\": {}}}", i, 1000 + i));
    }
    let json = format!("{{\"recent_files\": [{}]}}", entries.join(", "));
    let config = Config::parse(&json).unwrap();
    assert_eq!(config.recent_files.len(), 100);
    assert_eq!(config.recent_files[0], RecentFile { path: "/f104".to_string(), opened_at: 1104 });
    assert_eq!(config.recent_files[99], RecentFile { path: "/f5".to_string(), opened_at: 1005 });
    for w in config.recent_files.windows(2) {
        assert!(w[0].opened_at >= w[1].opened_at);
    }
}

#[test]
fn reading_sorts_recent_files_stably() {
    let json = r#"{"recent_files": [
        {"path": "/a", "opened_at": 1},
        {"path": "/b", "opened_at": 3},
        {"path": "/c", "opened_at": 1},
        {"path": "/d", "opened_at": 3}
    ]}"#;
    let config = Config::parse(json).unwrap();
    let paths: Vec<&str> = config.recent_files.iter().map(|f| f.path.as_str()).collect();
    assert_eq!(paths, vec!["/b", "/d", "/a", "/c"]);
}

#[test]
fn empty_folder_strings_are_read() {
    let config = Config::parse(r#"{"project_folders": {"a": "", "b": "c", "": "d"}}"#).unwrap();
    assert_eq!(config.get_project_folder("a"), Some(""));
    assert_eq!(config.get_project_folder("b"), Some("c"));
    assert_eq!(config.get_project_folder(""), Some("d"));

    let mut written = Config::default();
    written.set_project_folder("/p", "");
    written.set_project_folder("/q", "/q/out");
    let back = Config::parse(&written.to_json()).unwrap();
    assert_eq!(back, written);
}

#[test]
fn opening_a_recent_file_again_keeps_paths_distinct() {
    let mut config = Config::default();
    config.add_recent_file_at("/a", 10, false);
    config.add_recent_file_at("/b", 20, false);
    config.add_recent_file_at("/a", 30, false);
    assert_eq!(
        config.recent_files,
        vec![
            RecentFile { path: "/a".to_string(), opened_at: 30 },
            RecentFile { path: "/b".to_string(), opened_at: 20 },
        ]
    );
    for i in 0..150u64 {
        config.add_recent_file_at(&format!("/n{}", i), 100 + i, false);
    }
    assert_eq!(config.recent_files.len(), 100);
    assert_eq!(config.recent_files[0].path, "/n149");
}

#[test]
fn opening_the_same_path_written_otherwise_updates_its_entry() {
    let mut config = Config::default();
    config.add_recent_file_at("/home/u/a.txt", 10, false);
    config.add_recent_file_at("/home/u/b.txt", 20, false);
    config.add_recent_file_at("/home//u/./a.txt/", 30, false);
    assert_eq!(
        config.recent_files,
        vec![
            RecentFile { path: "/home/u/a.txt".to_string(), opened_at: 30 },
            RecentFile { path: "/home/u/b.txt".to_string(), opened_at: 20 },
        ]
    );
    // A relative path is another path.
    config.add_recent_file_at("home/u/a.txt", 40, false);
    assert_eq!(config.recent_files.len(), 3);
    assert_eq!(config.recent_files[0].path, "home/u/a.txt");
}

#[test]
fn backslashes_separate_parts_only_on_windows() {
    let mut config = Config::default();
    config.add_recent_file_at("C:\\Users\\a.txt", 10, true);
    config.add_recent_file_at("C:/Users/a.txt", 20, true);
    assert_eq!(
        config.recent_files,
        vec![RecentFile { path: "C:\\Users\\a.txt".to_string(), opened_at: 20 }]
    );
    let mut other = Config::default();
    other.add_recent_file_at("C:\\Users\\a.txt", 10, false);
    other.add_recent_file_at("C:/Users/a.txt", 20, false);
    assert_eq!(other.recent_files.len(), 2);
}

#[test]
fn folder_tables_compare_without_regard_to_order() {
    let mut a = ProjectFolders::new();
    a.insert("/p".to_string(), "/p/out".to_string());
    a.insert("/q".to_string(), "/q/out".to_string());
    let mut b = ProjectFolders::new();
    b.insert("/q".to_string(), "/q/out".to_string());
    b.insert("/p".to_string(), "/p/out".to_string());
    assert_eq!(a, b);
    let mut c = ProjectFolders::new();
    c.insert("/q".to_string(), "/q/out".to_string());
    c.insert("/p".to_string(), "/p/other".to_string());
    assert_ne!(a, c);
    let mut d = ProjectFolders::new();
    d.insert("/p".to_string(), "/p/out".to_string());
    assert_ne!(a, d);

    let mut x = Config::default();
    x.set_project_folder("/p", "/p/out");
    x.set_project_folder("/q", "/q/out");
    let mut y = Config::default();
    y.set_project_folder("/q", "/q/out");
    y.set_project_folder("/p", "/p/out");
    assert_eq!(x, y);
}
