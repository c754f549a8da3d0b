//! Sessions of Pi.

pub mod attribution;
pub mod command;
pub mod delete;
pub mod home;
pub mod identity;
pub mod info;
pub mod jsonl;
pub mod run;
pub mod sanity;
pub mod session;
pub mod session_index;
pub mod transcript;

pub use self::attribution::resolve_attribution_from_jsonl;
pub use self::delete::{PiDeleteReport, delete_session, list_child_sessions};
pub use self::home::{pi_data_dir, sessions_dir};
pub use self::run::{AiTaskResult, RunOptions};
pub use self::sanity::{AiTaskSpec, LlmOutputCutShort};
