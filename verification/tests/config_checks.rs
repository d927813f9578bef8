use history_engine::config::{
    default_top_sites_count, is_stale_db_file, validate_db_header, AppConfig,
};
use history_engine::domain::AppError;

#[test]
fn default_top_site_count_is_six() {
    assert_eq!(default_top_sites_count(), 6);
    let c = AppConfig::new_at(42);
    assert_eq!(c.top_sites_count, 6);
    assert_eq!(c.last_updated, 42);
    assert!(c.db_path.is_none());
    assert!(c.browser_db_path.is_none());
}

#[test]
fn header_check_accepts_the_sqlite_signature() {
    let mut content = b"SQLite format 3\0".to_vec();
    assert!(validate_db_header(&content));
    content.extend_from_slice(b"trailing bytes are fine");
    assert!(validate_db_header(&content));
}

#[test]
fn header_check_rejects_short_and_wrong_content() {
    assert!(!validate_db_header(&Vec::new()));
    assert!(!validate_db_header(&b"SQLite format 3".to_vec()));
    assert!(!validate_db_header(&b"SQLite format 4\0".to_vec()));
    assert!(!validate_db_header(&b"not a database!!".to_vec()));
}

#[test]
fn top_site_count_bounds_are_enforced() {
    let mut c = AppConfig::new_at(0);
    assert!(matches!(c.set_top_sites_count(0, 1), Err(AppError::Invalid(_))));
    assert!(matches!(c.set_top_sites_count(51, 1), Err(AppError::Invalid(_))));
    assert_eq!(c.top_sites_count, 6);
    assert!(c.set_top_sites_count(50, 2).is_ok());
    assert_eq!(c.top_sites_count, 50);
    assert_eq!(c.last_updated, 2);
}

#[test]
fn path_setters_update_fields_and_stamp() {
    let mut c = AppConfig::new_at(0);
    c.set_db_path("/tmp/a.db".to_string(), 5);
    assert_eq!(c.get_db_path().as_deref(), Some("/tmp/a.db"));
    assert_eq!(c.last_updated, 5);
    c.set_browser_db_path("/tmp/b.db".to_string(), 6);
    assert_eq!(c.browser_db_path.as_deref(), Some("/tmp/b.db"));
    assert_eq!(c.get_db_path().as_deref(), Some("/tmp/a.db"));
    assert_eq!(c.last_updated, 6);
}

#[test]
fn stale_db_files_are_siblings_with_other_names() {
    assert!(is_stale_db_file("history_old.db", "history.db"));
    assert!(!is_stale_db_file("history.db", "history.db"));
    assert!(!is_stale_db_file("notes.txt", "history.db"));
    assert!(!is_stale_db_file(".db", "history.db"));
    assert!(!is_stale_db_file("UPPER.DB", "history.db"));
}
