//! A work-tracking assistant around a chat model.

pub mod agent;
pub mod call_round;
pub mod chat_agent;
pub mod client;
pub mod clock;
pub mod delta;
pub mod failure;
pub mod files;
pub mod helpers;
pub mod history;
pub mod knowledge;
pub mod line_format;
pub mod newline_split;
pub mod prefill;
pub mod program;
pub mod session_log;
pub mod streamed_answer;
pub mod streaming;
pub mod string_map;
pub mod tasks;
pub mod terminal;
pub mod text;
pub mod todo;
pub mod ui;
pub mod web_search;
pub mod work_buddy_agent;
pub mod worklog;
pub mod wrap;
