//! The broker: routing of messages and what it keeps of its clients.

pub mod delivery;
pub mod planning;
pub mod router;
pub mod server_stream_manager;
pub mod storage;
pub mod subscriptions;
