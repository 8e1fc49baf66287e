pub mod broker;
pub mod callback;
pub mod client;
pub mod codec;
pub mod error;
pub mod id_map;
pub mod packet_ids;
pub mod packets;
pub mod session;
pub mod text;
pub mod text_map;
pub mod topic;
pub mod types;
