//! Verified core of the Norupo tunnel: an edge that publishes local services
//! under public hostnames, and the agent that serves them.

pub mod address;
pub mod auth;
pub mod client;
pub mod error;
pub mod fields;
pub mod ids;
pub mod payload;
pub mod proto;
pub mod registry;
pub mod routing;
pub mod server;
pub mod text;
