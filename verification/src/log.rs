//! Structured records for database-operation logging. Composing the record
//! is pure and lives here; emitting it is the caller's affair.

use vstd::prelude::*;

verus! {

/// The severity of a log record.
#[derive(Clone, Copy, PartialEq, Eq, Structural, Debug)]
pub enum LogLevel {
    Info,
    Error,
}

/// One structured record of a database operation.
pub struct LogRecord<'a> {
    pub level: LogLevel,
    pub target: &'static str,
    pub operation: &'a str,
    pub table: Option<&'a str>,
    pub success: bool,
    pub message: &'static str,
}

/// Builds the record of a database operation: a successful operation is
/// reported at the info level, a failed one as an error, each with a fixed
/// message, the fixed target, and the operation and table carried through.
pub fn log_database_operation<'a>(operation: &'a str, table: Option<&'a str>, success: bool) -> (r:
    LogRecord<'a>)
    ensures
        r.success == success,
        r.operation@ == operation@,
        (r.table is Some) == (table is Some),
        table matches Some(t) ==> r.table matches Some(rt) && rt@ == t@,
        r.target@ == "database::operation"@,
        success ==> r.level is Info && r.message@ == "database operation succeeded"@,
        !success ==> r.level is Error && r.message@ == "database operation failed"@,
{
    match (table, success) {
        (Some(t), true) => LogRecord {
            level: LogLevel::Info,
            target: "database::operation",
            operation,
            table: Some(t),
            success: true,
            message: "database operation succeeded",
        },
        (Some(t), false) => LogRecord {
            level: LogLevel::Error,
            target: "database::operation",
            operation,
            table: Some(t),
            success: false,
            message: "database operation failed",
        },
        (None, true) => LogRecord {
            level: LogLevel::Info,
            target: "database::operation",
            operation,
            table: None,
            success: true,
            message: "database operation succeeded",
        },
        (None, false) => LogRecord {
            level: LogLevel::Error,
            target: "database::operation",
            operation,
            table: None,
            success: false,
            message: "database operation failed",
        },
    }
}

} // verus!
