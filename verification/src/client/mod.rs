//! The client side of the tunnel.
pub mod connection;
pub mod constants;
pub mod download_loop;
pub mod handshake;
pub mod handshake_laws;
pub mod proxy;
pub mod proxy_laws;
pub mod session_laws;
pub mod setup;
pub mod state;
pub mod tunnel;
pub mod upload_loop;
pub mod utils;
