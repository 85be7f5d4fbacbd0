//! Rule-driven sound triggering for a stream of log lines.
pub mod loader;
pub mod manager;
pub mod pattern;
pub mod playlist;
pub mod rule;
