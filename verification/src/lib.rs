//! Lightweight dynamic DNS: the verified core of client and server.
//!
//! Clients announce their host name and address to the server with
//! heartbeats over TCP; the server keeps a registry of the hosts heard from
//! in the last 90 seconds and answers DNS queries for them, forwarding other
//! names to upstream resolvers.

pub mod config;
pub mod decimal;
pub mod discovery;
pub mod dns;
pub mod ip;
pub mod listing;
pub mod netinfo;
pub mod protocol;
pub mod registry;
pub mod startup;
pub mod text;
