//! Session auditing for coding agents: locating, classifying, reading and
//! scoring the sessions that agents leave behind.

pub mod json;
pub mod opencode;
pub mod order;
pub mod paths;
pub mod pattern;
pub mod pi;
pub mod project;
pub mod provider;
pub mod rate;
pub mod session_detect;
pub mod session_filter;
pub mod session_index;
pub mod steps;
pub mod table;
pub mod text;
pub mod time;
pub mod transcript;
