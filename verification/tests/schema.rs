use diagnostic_logs::schema::{SCHEMA, SCHEMA_VERSION};
use rusqlite::Connection;

#[test]
fn schema_supports_trace_round_trip() {
    let conn = Connection::open_in_memory().unwrap();
    conn.execute_batch(SCHEMA).unwrap();
    let table_count: i64 = conn
        .query_row(
            "SELECT COUNT(*) FROM sqlite_master WHERE type='table' AND name IN
                    ('request_traces', 'trace_events', 'trace_payloads', 'runtime_logs')",
            [],
            |row| row.get(0),
        )
        .unwrap();
    assert_eq!(table_count, 4);
}

#[test]
fn schema_can_be_applied_again() {
    let conn = Connection::open_in_memory().unwrap();
    conn.execute_batch(SCHEMA).unwrap();
    conn.execute_batch(SCHEMA).unwrap();
    conn.pragma_update(None, "user_version", SCHEMA_VERSION).unwrap();
    let version: i32 = conn
        .query_row("PRAGMA user_version", [], |row| row.get(0))
        .unwrap();
    assert_eq!(version, 1);
}
