//! Rating agents by the judgement of others.

pub mod agent;
pub mod cache;
pub mod hash;
pub mod judge;
pub mod parse;
pub mod report;

pub use self::agent::{AgentResult, invoke_agent};
pub use self::cache::should_skip_cached;
pub use self::judge::{JudgeRating, invoke_judge, parse_judge_output};
pub use self::parse::{TestCase, Timespan, substitute_variables};
pub use self::report::{FailureRecord, FailureStage, generate_summary};
