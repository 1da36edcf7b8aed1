//! Name resolution: queries, answers, what is kept of them, and which address
//! is tried when.
pub mod client;
pub mod config;
pub mod laws;
pub mod message;
pub mod transport;
