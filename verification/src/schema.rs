//! How the log is stored in a database.
use vstd::prelude::*;

verus! {

/// The version of the schema.
pub const SCHEMA_VERSION: i32 = 1;

/// The statements that set a database up for writing.
pub const WRITE_PRAGMAS: &'static str = "PRAGMA journal_mode = WAL;
         PRAGMA synchronous = NORMAL;
         PRAGMA foreign_keys = ON;
         PRAGMA auto_vacuum = INCREMENTAL;";

/// The statements that make the tables and their indexes where they are missing.
pub const SCHEMA: &'static str = "CREATE TABLE IF NOT EXISTS request_traces (
            trace_id TEXT PRIMARY KEY,
            usage_request_id TEXT,
            app_type TEXT NOT NULL,
            method TEXT NOT NULL,
            path TEXT NOT NULL,
            request_model TEXT,
            response_model TEXT,
            final_provider_id TEXT,
            status_code INTEGER,
            is_streaming INTEGER NOT NULL DEFAULT 0,
            attempt_count INTEGER NOT NULL DEFAULT 0,
            started_at INTEGER NOT NULL,
            completed_at INTEGER,
            duration_ms INTEGER,
            outcome TEXT NOT NULL DEFAULT 'in_progress',
            partial INTEGER NOT NULL DEFAULT 0,
            dropped_event_count INTEGER NOT NULL DEFAULT 0,
            stored_bytes INTEGER NOT NULL DEFAULT 0
        );
        CREATE INDEX IF NOT EXISTS idx_request_traces_started
            ON request_traces(started_at DESC, trace_id DESC);
        CREATE INDEX IF NOT EXISTS idx_request_traces_app
            ON request_traces(app_type, started_at DESC);
        CREATE INDEX IF NOT EXISTS idx_request_traces_provider
            ON request_traces(final_provider_id, started_at DESC);
        CREATE INDEX IF NOT EXISTS idx_request_traces_status
            ON request_traces(status_code, started_at DESC);
        CREATE INDEX IF NOT EXISTS idx_request_traces_usage
            ON request_traces(usage_request_id);
        CREATE TABLE IF NOT EXISTS trace_payloads (
            payload_id INTEGER PRIMARY KEY AUTOINCREMENT,
            content_type TEXT NOT NULL,
            encoding TEXT NOT NULL,
            body BLOB NOT NULL,
            original_bytes INTEGER NOT NULL,
            stored_bytes INTEGER NOT NULL,
            sha256 TEXT NOT NULL,
            truncated INTEGER NOT NULL DEFAULT 0
        );
        CREATE TABLE IF NOT EXISTS trace_events (
            event_id INTEGER PRIMARY KEY AUTOINCREMENT,
            trace_id TEXT NOT NULL REFERENCES request_traces(trace_id) ON DELETE CASCADE,
            sequence INTEGER NOT NULL,
            occurred_at INTEGER NOT NULL,
            offset_ms INTEGER NOT NULL,
            stage TEXT NOT NULL,
            kind TEXT NOT NULL,
            attempt_no INTEGER,
            provider_id TEXT,
            status_code INTEGER,
            summary TEXT,
            payload_id INTEGER REFERENCES trace_payloads(payload_id) ON DELETE SET NULL,
            UNIQUE(trace_id, sequence)
        );
        CREATE INDEX IF NOT EXISTS idx_trace_events_trace
            ON trace_events(trace_id, sequence);
        CREATE TABLE IF NOT EXISTS runtime_logs (
            log_id INTEGER PRIMARY KEY AUTOINCREMENT,
            occurred_at INTEGER NOT NULL,
            level TEXT NOT NULL,
            target TEXT NOT NULL,
            message TEXT NOT NULL,
            fields_json TEXT,
            stored_bytes INTEGER NOT NULL
        );
        CREATE INDEX IF NOT EXISTS idx_runtime_logs_time
            ON runtime_logs(occurred_at DESC, log_id DESC);
        CREATE INDEX IF NOT EXISTS idx_runtime_logs_level
            ON runtime_logs(level, occurred_at DESC);
        CREATE INDEX IF NOT EXISTS idx_runtime_logs_target
            ON runtime_logs(target, occurred_at DESC);";

} // verus!
