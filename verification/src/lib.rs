//! Core of an HTTP proxy tunnel: framing, traffic shaping, key agreement,
//! tunnel state machines, bypass rules and DNS decisions.
pub mod base64url;
pub mod buffer;
pub mod bypass;
pub mod chars;
pub mod client;
pub mod clock;
pub mod config;
pub mod crypto;
pub mod decimal;
pub mod dns;
pub mod error;
pub mod hello;
pub mod ip;
pub mod laws;
pub mod log;
pub mod server;
pub mod session;
pub mod shaper;
pub mod text;
pub mod wire;

pub use clock::{now_secs, Clock};
