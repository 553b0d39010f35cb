use memscan::log::{log_database_operation, LogLevel};

#[test]
fn successful_operation_is_reported_at_info_level() {
    let r = log_database_operation("DELETE", Some("ItemTable"), true);
    assert_eq!(r.level, LogLevel::Info);
    assert_eq!(r.target, "database::operation");
    assert_eq!(r.operation, "DELETE");
    assert_eq!(r.table, Some("ItemTable"));
    assert!(r.success);
    assert_eq!(r.message, "database operation succeeded");
}

#[test]
fn failed_operation_is_reported_as_error() {
    let r = log_database_operation("INSERT", Some("ItemTable"), false);
    assert_eq!(r.level, LogLevel::Error);
    assert_eq!(r.operation, "INSERT");
    assert_eq!(r.table, Some("ItemTable"));
    assert!(!r.success);
    assert_eq!(r.message, "database operation failed");
}

#[test]
fn record_without_table_keeps_the_same_levels() {
    let ok = log_database_operation("VACUUM", None, true);
    assert_eq!(ok.level, LogLevel::Info);
    assert_eq!(ok.table, None);
    let bad = log_database_operation("VACUUM", None, false);
    assert_eq!(bad.level, LogLevel::Error);
    assert_eq!(bad.table, None);
    assert_eq!(bad.message, "database operation failed");
}
