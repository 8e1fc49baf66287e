//! Authentication methods.

pub mod jwt;
pub mod plain;
