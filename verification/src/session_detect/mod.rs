//! Detection of the session that a terminal shows: what the screen holds is read
//! into messages, the messages into filters, and the filters are looked for in
//! the sessions.

pub mod ansi;
pub mod filters;
pub mod lines;
pub mod messages;
pub mod search;
