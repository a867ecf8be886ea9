//! A diagnostic log: what a proxy did for each request, and what the program had to say.
//!
//! What is recorded is redacted (`redact`, `headers`, `urls`), queued (`service`), written in
//! batches (`writer`, `store`) to tables (`tables`), read back (`query`), kept small
//! (`maintenance`), and shown and exported on request (`commands`, `export`). The modules whose
//! names end in `laws` state what holds of all of this together.
pub mod command_laws;
pub mod commands;
pub mod digest;
pub mod export;
pub mod export_laws;
pub mod filter_laws;
pub mod headers;
pub mod json;
pub mod like;
pub mod maintenance;
pub mod maintenance_laws;
pub mod name_laws;
pub mod outside;
pub mod payload;
pub mod payload_laws;
pub mod query;
pub mod read_laws;
pub mod record_laws;
pub mod records;
pub mod redact;
pub mod redact_laws;
pub mod retention_laws;
pub mod row_laws;
pub mod schema;
pub mod search_laws;
pub mod sequences;
pub mod service;
pub mod service_laws;
pub mod shown_laws;
pub mod sort;
pub mod step_laws;
pub mod store;
pub mod store_laws;
pub mod tables;
pub mod text;
pub mod text_laws;
pub mod url_laws;
pub mod urls;
pub mod value_laws;
pub mod view_laws;
pub mod write_laws;
pub mod writer;
pub mod writer_laws;
