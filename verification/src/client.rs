//! The agent: one long-lived session with an edge, and the local requests that
//! are multiplexed over it.

pub mod agent;
pub mod config;
