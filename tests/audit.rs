use vcp_plugins::audit::{
    csv_header, csv_row, entry_log_day, expired_logs, in_date_range, log_file_name, sort_newest_first,
    str_lt, AuditLogEntry, AuditLogger,
};

fn entry(ts: &str, err: Option<&str>) -> AuditLogEntry {
    AuditLogEntry::new(ts.to_string(), "p", "filesystem.read", "/x", "read", err.is_none(), err)
}

#[test]
fn log_names_and_paths() {
    assert_eq!(log_file_name("2024-03-01"), "2024-03-01.jsonl");
    let logger = AuditLogger::new("/data/app".to_string());
    assert_eq!(logger.log_dir(), "/data/app/audit-logs");
    assert_eq!(logger.log_file_path("2024-03-01"), "/data/app/audit-logs/2024-03-01.jsonl");
}

#[test]
fn rotation_deletes_only_older_logs() {
    let stems: Vec<String> = ["2024-01-01", "2024-02-14", "2024-02-15", "2024-03-01"]
        .iter()
        .map(|s| s.to_string())
        .collect();
    let gone = expired_logs(&stems, "2024-02-15");
    assert_eq!(gone, vec!["2024-01-01".to_string(), "2024-02-14".to_string()]);
    assert!(expired_logs(&stems, "2023-12-31").is_empty());
}

#[test]
fn date_ranges_are_inclusive() {
    assert!(in_date_range("2024-02-15", Some("2024-02-15"), Some("2024-02-15")));
    assert!(!in_date_range("2024-02-14", Some("2024-02-15"), None));
    assert!(!in_date_range("2024-02-16", None, Some("2024-02-15")));
    assert!(in_date_range("2024-02-16", None, None));
    assert!(str_lt("2024-01-31", "2024-02-01"));
    assert!(!str_lt("b", "a"));
    assert!(str_lt("a", "ab"));
}

#[test]
fn csv_rows() {
    assert_eq!(csv_header(), "Timestamp,Plugin ID,Permission Type,Resource,Action,Result,Error Message");
    assert_eq!(
        csv_row(&entry("2024-01-01T00:00:00+00:00", None)),
        "2024-01-01T00:00:00+00:00,p,filesystem.read,/x,read,true,"
    );
    assert_eq!(
        csv_row(&entry("2024-01-01T00:00:00+00:00", Some("denied"))),
        "2024-01-01T00:00:00+00:00,p,filesystem.read,/x,read,false,denied"
    );
}

#[test]
fn newest_first() {
    let sorted = sort_newest_first(vec![
        entry("2024-01-02T00:00:00+00:00", None),
        entry("2024-01-03T00:00:00+00:00", None),
        entry("2024-01-01T00:00:00+00:00", None),
    ]);
    let ts: Vec<&str> = sorted.iter().map(|e| e.timestamp.as_str()).collect();
    assert_eq!(ts, vec!["2024-01-03T00:00:00+00:00", "2024-01-02T00:00:00+00:00", "2024-01-01T00:00:00+00:00"]);
}

#[test]
fn records_are_logged_under_their_day() {
    assert_eq!(entry_log_day(&entry("2024-01-02T03:04:05+00:00", None)), Some("2024-01-02".to_string()));
    assert_eq!(entry_log_day(&entry("2024", None)), None);
}
