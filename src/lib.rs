//! Issues individually watermarked copies of a binary template and ties a
//! later phone-home report from one copy back to the session that asked for it.

pub mod ambient;
pub mod build_logs;
pub mod config;
pub mod error;
pub mod executable;
pub mod messages;
pub mod paths;
pub mod search;
pub mod session;
pub mod state;
pub mod text;
