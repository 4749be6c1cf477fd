//! Core logic of a small distributed task-execution framework: task and node
//! models, request validation, authentication, MVCC bookkeeping, message
//! routing and scheduling decisions, each stated by its contract.
pub mod common;
pub mod error;
pub mod models;
pub mod api;
pub mod connection;
pub mod scheduler;
pub mod task;
pub mod head;
pub mod text;
pub mod security;
pub mod worker;
pub mod system;
pub mod grpc;
pub mod cache;
pub mod metrics;
