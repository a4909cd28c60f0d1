use std::time::{Duration, SystemTime};

use newtron::clock::{to_unix, unix_now, unix_seconds};
use newtron::indexer::{file_record, is_skipped_dir, shortcut_app, MAX_DEPTH, RESCAN_INTERVAL_SECS, START_MENU_DEPTH};

#[test]
fn skipped_directories_ignore_ascii_case() {
    assert!(is_skipped_dir("node_modules"));
    assert!(is_skipped_dir("NODE_MODULES"));
    assert!(is_skipped_dir("appdata"));
    assert!(is_skipped_dir("$Recycle.Bin"));
    assert!(is_skipped_dir("System Volume Information"));
}

#[test]
fn other_directories_are_scanned() {
    assert!(!is_skipped_dir("src"));
    assert!(!is_skipped_dir("node_modules2"));
    assert!(!is_skipped_dir(""));
}

#[test]
fn lnk_files_become_apps() {
    let app = shortcut_app("Firefox".to_string(), "C:\\Start Menu\\Firefox.lnk".to_string(), Some("LNK")).unwrap();
    assert_eq!(app.name, "Firefox");
    assert_eq!(app.path, "C:\\Start Menu\\Firefox.lnk");
    assert_eq!(app.icon, None);
}

#[test]
fn other_files_are_not_apps() {
    assert!(shortcut_app("x".to_string(), "x.exe".to_string(), Some("exe")).is_none());
    assert!(shortcut_app("x".to_string(), "x".to_string(), None).is_none());
}

#[test]
fn file_record_lowercases_extension_and_defaults_times() {
    let f = file_record("A.TXT".to_string(), "/x/A.TXT".to_string(), Some("TXT"), 42, Some(5), None);
    assert_eq!(f.name, "A.TXT");
    assert_eq!(f.full_path, "/x/A.TXT");
    assert_eq!(f.extension, Some("txt".to_string()));
    assert_eq!(f.size, 42);
    assert_eq!(f.created_date, 5);
    assert_eq!(f.modified_date, 0);
    let g = file_record("README".to_string(), "/README".to_string(), None, 0, None, Some(9));
    assert_eq!(g.extension, None);
    assert_eq!(g.modified_date, 9);
}

#[test]
fn unix_seconds_of_system_times() {
    assert_eq!(to_unix(&(SystemTime::UNIX_EPOCH + Duration::from_secs(100))), Some(100));
    assert_eq!(to_unix(&(SystemTime::UNIX_EPOCH + Duration::from_millis(1999))), Some(1));
    assert_eq!(to_unix(&(SystemTime::UNIX_EPOCH - Duration::from_secs(1))), None);
    assert!(unix_now() > 1_600_000_000);
}

#[test]
fn indexer_limits() {
    assert_eq!(RESCAN_INTERVAL_SECS, 3600);
    assert_eq!(MAX_DEPTH, 14);
    assert_eq!(START_MENU_DEPTH, 8);
}

#[test]
fn file_record_size_wraps_like_a_cast() {
    let f = file_record("big".to_string(), "/big".to_string(), None, u64::MAX, None, None);
    assert_eq!(f.size, -1);
}

#[test]
fn unix_seconds_converts_whole_seconds() {
    assert_eq!(unix_seconds(Some(100)), Some(100));
    assert_eq!(unix_seconds(Some(u64::MAX)), Some(-1));
    assert_eq!(unix_seconds(None), None);
}
