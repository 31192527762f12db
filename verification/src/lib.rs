//! A layer-4 port forwarder's decision core: the rule repository, the
//! reconciliation of persisted rules with running forwarders, the statistics
//! pipeline and the per-connection state machines of the TCP and UDP data
//! planes. Sockets, timers and durable storage belong to the caller, who
//! performs the commands this crate hands out and reports what happened.

pub mod data;
pub mod model;
pub mod cli;
pub mod forward;
pub mod dal;
pub mod server;
