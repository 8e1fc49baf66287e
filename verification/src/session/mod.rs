//! The state of a session between a client and a server.

pub mod flow_control;
pub mod quic_flow;
pub mod state;
pub mod topic_alias;
