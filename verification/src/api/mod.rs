//! Decisions behind the HTTP API.
pub mod tasks;
