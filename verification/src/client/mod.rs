//! The client: publishing, subscribing and the state between connections.

pub mod auth_handler;
pub mod auth_handlers;
pub mod connection;
pub mod direct;
pub mod error_recovery;
pub mod publish_outcome;
