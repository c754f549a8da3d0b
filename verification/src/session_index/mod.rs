//! What is known of the sessions of one agent, and how it is kept up to date.

pub mod index;
pub mod refresh;

pub use self::index::{
    CachedHarnessIndex, CachedSession, SCHEMA_VERSION, accept_schema, mtime_ns_of,
};
pub use self::refresh::{
    FileRecord, ScannedFile, cwds_of, drop_sessions, overlay_sessions, refresh_sessions,
    stale_sessions, start_refresh,
};
