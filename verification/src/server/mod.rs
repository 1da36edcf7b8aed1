//! The server side of the tunnel.
pub mod constants;
pub mod handlers;
pub mod laws;
pub mod masters;
pub mod nonce_registry;
pub mod setup;
pub mod state;
pub mod stream;
pub mod stream_registry;
pub mod tunnel;
pub mod tunnel_laws;
pub mod upload;
pub mod utils;
