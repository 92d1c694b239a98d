//! A multiplexer for SSH authentication agents: the routing rules by which one
//! agent endpoint is answered from several upstream agents.
//!
//! The library holds the decisions only. Whoever drives it opens the sockets,
//! speaks the agent protocol with each upstream, and hands the answers in.

pub mod config;
pub mod keys;
pub mod laws;
pub mod mux;
pub mod serve;
