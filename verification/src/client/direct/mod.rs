//! What the client decides between the calls of the application, the packets of the server and
//! the ends of connections.

pub mod ack;
pub mod acknowledged;
pub mod client;
pub mod connect;
pub mod handlers;
pub mod lost_session;
pub mod outbound;
pub mod publish;
pub mod reader;
pub mod replay;
pub mod session_replay;
pub mod subscribe;
pub mod tracking;
