//! The edge: the control plane that agents talk to, the public ingress, and the
//! hand-off between sibling nodes.

pub mod config;
pub mod control;
pub mod ingress;
pub mod peer;
pub mod session;
pub mod state;
pub mod tables;
pub mod tokens;
pub mod web;
