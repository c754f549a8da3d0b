//! Sessions of OpenCode.

pub mod cache;
pub mod config;
pub mod db;
pub mod enrich;
pub mod info;
pub mod latency;
pub mod nudge;
pub mod parts;
pub mod permission_log;
pub mod permissions;
pub mod run;
pub mod scan;
pub mod server_client;
pub mod session_index;
pub mod sessions;
pub mod status;
pub mod transcript;

pub use self::sessions::{
    SessionInfo, log_dir, part_dir, session_contains_text, session_edited_file,
    session_tail_contains_text, storage_dir,
};
