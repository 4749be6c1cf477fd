//! The worker node: its link to the head node and the figures it reports.
pub mod reconnect;
pub mod metrics;
