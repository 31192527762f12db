//! Settings of the forwarding agent.

use crate::data::net::{IpAddress, SocketAddress};
use vstd::prelude::*;

verus! {

/// Lowest port the control plane listens on.
pub const MIN_LISTEN_PORT: u16 = 4;

/// Shortest interval between two flushes of the store, in milliseconds.
pub const MIN_FLUSH_DATABASE_INTERVAL: u64 = 1000;

/// Longest interval between two flushes of the store, in milliseconds.
pub const MAX_FLUSH_DATABASE_INTERVAL: u64 = 60_000;

/// Settings of the process as a whole.
#[derive(Debug, PartialEq, Eq)]
pub struct GlobalConfig {
    /// Where the durable store lives on disk.
    pub database_path: String,
    pub do_migrations: bool,
    /// Milliseconds between two flushes of the store to disk.
    pub flush_database_interval: u64,
    /// The most verbose level that is logged.
    pub log_level: String,
}

impl GlobalConfig {
    /// The range that the flush interval is accepted in.
    pub open spec fn valid(self) -> bool {
        MIN_FLUSH_DATABASE_INTERVAL <= self.flush_database_interval <= MAX_FLUSH_DATABASE_INTERVAL
    }

    pub fn is_valid(&self) -> (ok: bool)
        ensures
            ok == self.valid(),
    {
        MIN_FLUSH_DATABASE_INTERVAL <= self.flush_database_interval
            && self.flush_database_interval <= MAX_FLUSH_DATABASE_INTERVAL
    }
}

/// Settings of the control plane.
#[derive(Debug, PartialEq, Eq)]
pub struct ServerConfig {
    pub listen_host: IpAddress,
    pub listen_port: u16,
    /// The bearer token that requests must carry.
    pub auth_token: String,
    /// Serve the web panel only.
    pub web_mode: bool,
}

impl ServerConfig {
    /// The range that the port is accepted in.
    pub open spec fn valid(self) -> bool {
        self.listen_port >= MIN_LISTEN_PORT
    }

    pub fn is_valid(&self) -> (ok: bool)
        ensures
            ok == self.valid(),
    {
        self.listen_port >= MIN_LISTEN_PORT
    }

    /// The endpoint that the control plane listens on.
    pub fn listen_address(&self) -> (endpoint: SocketAddress)
        ensures
            endpoint == (SocketAddress { ip: self.listen_host, port: self.listen_port }),
    {
        SocketAddress { ip: self.listen_host, port: self.listen_port }
    }
}

/// Lowest interval between two statistics updates, in milliseconds.
pub const MIN_STATS_UPDATE_INTERVAL: u64 = 100;

/// Highest interval between two statistics updates, in milliseconds.
pub const MAX_STATS_UPDATE_INTERVAL: u64 = 5000;

/// Smallest TCP buffer size, in KiB.
pub const MIN_TCP_BUFFER_SIZE: u8 = 2;

/// Settings shared by every forwarder of one agent.
#[derive(Copy, Clone, Debug, PartialEq, Eq)]
pub struct AgentConfig {
    /// Raise the file-descriptor limit to the expanded target.
    pub expanded_nofile_limit: bool,
    /// Milliseconds between two statistics updates of a forwarder.
    pub stats_update_interval: u64,
    /// Cap on live connections of any one rule, whatever the rule says.
    pub connections_limit: Option<u64>,
    /// TCP buffer size in KiB.
    pub tcp_buffer_size: u8,
}

impl AgentConfig {
    /// The ranges that the settings are accepted in.
    pub open spec fn valid(self) -> bool {
        &&& MIN_STATS_UPDATE_INTERVAL <= self.stats_update_interval <= MAX_STATS_UPDATE_INTERVAL
        &&& self.tcp_buffer_size >= MIN_TCP_BUFFER_SIZE
        &&& self.connections_limit matches Some(limit) ==> limit >= 1
    }

    pub fn is_valid(&self) -> (ok: bool)
        ensures
            ok == self.valid(),
    {
        let limit_ok = match self.connections_limit {
            Some(limit) => limit >= 1,
            None => true,
        };
        MIN_STATS_UPDATE_INTERVAL <= self.stats_update_interval
            && self.stats_update_interval <= MAX_STATS_UPDATE_INTERVAL
            && self.tcp_buffer_size >= MIN_TCP_BUFFER_SIZE && limit_ok
    }
}

/// All settings of the process.
#[derive(Debug, PartialEq, Eq)]
pub struct Cli {
    pub server: ServerConfig,
    pub agent: AgentConfig,
    pub global: GlobalConfig,
}

impl Cli {
    /// Whether every setting is in its range.
    pub open spec fn valid(self) -> bool {
        self.server.valid() && self.agent.valid() && self.global.valid()
    }

    pub fn is_valid(&self) -> (ok: bool)
        ensures
            ok == self.valid(),
    {
        self.server.is_valid() && self.agent.is_valid() && self.global.is_valid()
    }
}

impl Default for AgentConfig {
    fn default() -> (config: Self)
        ensures
            config == (AgentConfig {
                expanded_nofile_limit: false,
                stats_update_interval: 300,
                connections_limit: None,
                tcp_buffer_size: 8,
            }),
            config.valid(),
    {
        AgentConfig {
            expanded_nofile_limit: false,
            stats_update_interval: 300,
            connections_limit: None,
            tcp_buffer_size: 8,
        }
    }
}

} // verus!
