//! What an edge process knows about itself, shared by the control plane and the
//! ingress, and the choices made when it starts.

use vstd::prelude::*;
use vstd::string::*;

use crate::ids;
use crate::server::config::ServerConfig;

verus! {

/// Version of this build.
pub const VERSION: &'static str = "0.1.0";

/// The identity and configuration of an edge process.
#[derive(Debug)]
pub struct AppState {
    pub config: ServerConfig,
    /// Stable identity of this edge process.
    pub node_id: String,
    /// Address siblings dial to reach this node.
    pub node_addr: String,
}

impl AppState {
    /// Version of this build.
    #[must_use]
    pub fn version(&self) -> (r: &'static str)
        ensures
            r@ == VERSION@,
    {
        VERSION
    }
}

/// Where the routing table lives.
#[derive(Debug)]
pub enum RegistryChoice {
    /// In a shared table.
    Shared { url: String, prefix: String },
    /// In this process; for a single node only.
    Memory,
}

/// Picks the routing table named by the configuration.
#[must_use]
pub fn build_registry(config: &ServerConfig) -> (r: RegistryChoice)
    ensures
        match config.redis_url {
            Some(wanted) => r matches RegistryChoice::Shared { url, prefix } && url@ == wanted@
                && prefix@ == config.redis_prefix@,
            None => r is Memory,
        },
{
    match &config.redis_url {
        Some(url) => RegistryChoice::Shared { url: url.clone(), prefix: config.redis_prefix.clone() },
        None => RegistryChoice::Memory,
    }
}

/// How agents are authenticated.
#[derive(Debug)]
pub enum AuthChoice {
    /// By the token file at this path.
    TokensFile(String),
    /// Every connection is accepted.
    Anonymous,
}

/// Picks the authentication named by the configuration. A token file takes
/// precedence; without either, the edge refuses to start.
pub fn build_auth(config: &ServerConfig) -> (r: Result<AuthChoice, String>)
    ensures
        match config.tokens_file {
            Some(wanted) => r matches Ok(AuthChoice::TokensFile(path)) && path@ == wanted@,
            None => if config.allow_anonymous {
                r matches Ok(AuthChoice::Anonymous)
            } else {
                r matches Err(reason) && reason@
                    == "no authentication configured: pass --tokens-file, or --allow-anonymous for local development"@
            },
        },
{
    match &config.tokens_file {
        Some(path) => Ok(AuthChoice::TokensFile(path.clone())),
        None => {
            if config.allow_anonymous {
                Ok(AuthChoice::Anonymous)
            } else {
                Err(
                    "no authentication configured: pass --tokens-file, or --allow-anonymous for local development".to_owned(),
                )
            }
        },
    }
}

/// The identity of a node: the configured one, else a random one.
#[must_use]
pub fn node_identity(config: &ServerConfig) -> (r: String)
    ensures
        match config.node_id {
            Some(id) => r@ == id@,
            None => ids::is_id("node_"@, r@),
        },
{
    match &config.node_id {
        Some(id) => id.clone(),
        None => ids::node_id(),
    }
}

/// Puts the state of a node together once its listeners are bound.
///
/// Where the operator did not pin an advertised address, it is the one that was
/// actually bound, so that an automatic port still yields something dialable.
pub fn assemble(config: ServerConfig, node_id: String, bound_peer_addr: &str) -> (r: AppState)
    ensures
        r.config == config,
        r.node_id == node_id,
        r.node_addr@ == match config.advertise_addr {
            Some(addr) => addr@,
            None => bound_peer_addr@,
        },
{
    let node_addr = match &config.advertise_addr {
        Some(addr) => addr.clone(),
        None => bound_peer_addr.to_owned(),
    };
    AppState { config, node_id, node_addr }
}

} // verus!
