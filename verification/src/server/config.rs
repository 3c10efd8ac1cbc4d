//! Edge server configuration.
//!
//! Socket addresses and paths are kept as text; times are in milliseconds.

use vstd::prelude::*;
use vstd::string::*;

use crate::proto;
use crate::text;

verus! {

/// Runtime configuration of the edge server.
#[derive(Debug)]
pub struct ServerConfig {
    /// Address of the control plane that agents connect to.
    pub control_addr: String,
    /// Address serving public HTTP traffic.
    pub http_addr: String,
    /// Internal address siblings use to hand off requests for tunnels this node
    /// owns. Must be reachable from other edge nodes but not from the public
    /// internet.
    pub peer_addr: String,
    /// Address other nodes should dial to reach this node's peer listener.
    /// Defaults to `peer_addr`, which is only right when that is routable.
    pub advertise_addr: Option<String>,
    /// Base domain under which tunnels are published.
    pub base_domain: String,
    /// Scheme used when building public URLs shown to users.
    pub public_scheme: String,
    /// URL of the shared routing table. Without it, the node runs alone with a
    /// process-local table.
    pub redis_url: Option<String>,
    /// Prefix of routing table entries, so several environments can share one
    /// table.
    pub redis_prefix: String,
    /// Stable identity of this node.
    pub node_id: Option<String>,
    /// Accept any agent token. Development only.
    pub allow_anonymous: bool,
    /// Path of the token file.
    pub tokens_file: Option<String>,
    /// Heartbeat interval. Times to live in the routing table derive from it.
    pub heartbeat_ms: u64,
    /// How long the edge waits for an agent's response head.
    pub response_timeout_ms: u64,
    /// Per-stream flow-control window in bytes.
    pub window_bytes: u32,
    /// Log filter.
    pub log: String,
}

impl Clone for ServerConfig {
    fn clone(&self) -> (r: Self)
        ensures
            r.control_addr@ == self.control_addr@,
            r.http_addr@ == self.http_addr@,
            r.peer_addr@ == self.peer_addr@,
            text::optional(r.advertise_addr) == text::optional(self.advertise_addr),
            r.base_domain@ == self.base_domain@,
            r.public_scheme@ == self.public_scheme@,
            text::optional(r.redis_url) == text::optional(self.redis_url),
            r.redis_prefix@ == self.redis_prefix@,
            text::optional(r.node_id) == text::optional(self.node_id),
            r.allow_anonymous == self.allow_anonymous,
            text::optional(r.tokens_file) == text::optional(self.tokens_file),
            r.heartbeat_ms == self.heartbeat_ms,
            r.response_timeout_ms == self.response_timeout_ms,
            r.window_bytes == self.window_bytes,
            r.log@ == self.log@,
    {
        ServerConfig {
            control_addr: self.control_addr.clone(),
            http_addr: self.http_addr.clone(),
            peer_addr: self.peer_addr.clone(),
            advertise_addr: text::copy_optional(&self.advertise_addr),
            base_domain: self.base_domain.clone(),
            public_scheme: self.public_scheme.clone(),
            redis_url: text::copy_optional(&self.redis_url),
            redis_prefix: self.redis_prefix.clone(),
            node_id: text::copy_optional(&self.node_id),
            allow_anonymous: self.allow_anonymous,
            tokens_file: text::copy_optional(&self.tokens_file),
            heartbeat_ms: self.heartbeat_ms,
            response_timeout_ms: self.response_timeout_ms,
            window_bytes: self.window_bytes,
            log: self.log.clone(),
        }
    }
}

impl ServerConfig {
    /// Interval between heartbeats, in milliseconds.
    #[must_use]
    pub fn heartbeat(&self) -> (r: u64)
        ensures
            r == self.heartbeat_ms,
    {
        self.heartbeat_ms
    }

    /// Time to live written into the routing table, in milliseconds.
    ///
    /// Three missed heartbeats before a route is considered dead: tight enough
    /// that failover takes seconds, loose enough that one slow round trip does
    /// not evict a healthy tunnel.
    #[must_use]
    pub fn route_ttl(&self) -> (r: u128)
        ensures
            r == 3 * self.heartbeat_ms,
    {
        self.heartbeat_ms as u128 * 3
    }

    /// How long the edge waits for a response head, in milliseconds.
    #[must_use]
    pub fn response_timeout(&self) -> (r: u64)
        ensures
            r == self.response_timeout_ms,
    {
        self.response_timeout_ms
    }

    /// Address this node advertises to its siblings.
    #[must_use]
    pub fn advertised_peer_addr(&self) -> (r: String)
        ensures
            r@ == match self.advertise_addr {
                Some(addr) => addr@,
                None => self.peer_addr@,
            },
    {
        match &self.advertise_addr {
            Some(addr) => addr.clone(),
            None => self.peer_addr.clone(),
        }
    }

    /// The URL shown to the user for a tunnel host.
    #[must_use]
    pub fn public_url(&self, host: &str) -> (r: String)
        ensures
            r@ == self.public_scheme@ + "://"@ + host@,
    {
        text::join3(self.public_scheme.as_str(), "://", host)
    }
}

impl Default for ServerConfig {
    fn default() -> (r: Self)
        ensures
            r.control_addr@ == "0.0.0.0:7000"@,
            r.http_addr@ == "0.0.0.0:8080"@,
            r.peer_addr@ == "0.0.0.0:7100"@,
            r.advertise_addr is None,
            r.base_domain@ == "localhost"@,
            r.public_scheme@ == "https"@,
            r.redis_url is None,
            r.redis_prefix@ == "norupo:"@,
            r.node_id is None,
            !r.allow_anonymous,
            r.tokens_file is None,
            r.heartbeat_ms == 15_000,
            r.response_timeout_ms == 30_000,
            r.window_bytes == proto::DEFAULT_WINDOW,
            r.log@ == "info"@,
    {
        ServerConfig {
            control_addr: "0.0.0.0:7000".to_owned(),
            http_addr: "0.0.0.0:8080".to_owned(),
            peer_addr: "0.0.0.0:7100".to_owned(),
            advertise_addr: None,
            base_domain: "localhost".to_owned(),
            public_scheme: "https".to_owned(),
            redis_url: None,
            redis_prefix: "norupo:".to_owned(),
            node_id: None,
            allow_anonymous: false,
            tokens_file: None,
            heartbeat_ms: 15_000,
            response_timeout_ms: 30_000,
            window_bytes: proto::DEFAULT_WINDOW,
            log: "info".to_owned(),
        }
    }
}

} // verus!
