//! Limits of the server side. Times are in seconds.
use vstd::prelude::*;

verus! {

/// The most undecoded bytes that a frame decoder buffers.
pub const MAX_FRAME_BUF_SIZE: usize = 18781;

/// The most bytes that wait for an earlier frame.
pub const MAX_PENDING_BYTES: usize = 2097152;

/// The most frames that wait for an earlier one.
pub const MAX_PENDING_FRAMES: usize = 8192;

/// The most waiters for the end of an upload.
pub const MAX_EOS_WAITERS: usize = 256;

/// How long an incomplete upload waits for the next command.
pub const MAX_REORDER_SECS: u64 = 10;

/// How long a tunnel may stay idle.
pub const STREAM_IDLE_TIMEOUT_SECS: u64 = 120;

/// How long a rotated tunnel waits to be continued.
pub const ROTATION_STALENESS_SECS: u64 = 10;

/// How long a request waits for its upload to be written.
pub const UPLOAD_DONE_TIMEOUT_SECS: u64 = 30;

/// How often idle tunnels are looked for.
pub const JANITOR_INTERVAL_SECS: u64 = 30;

/// How often expired master keys are looked for.
pub const NONCE_CLEANUP_INTERVAL_SECS: u64 = 60;

/// How long a connection to the target may take.
pub const CONNECT_TIMEOUT_SECS: u64 = 10;

/// How long one write to the target may take.
pub const WRITE_TIMEOUT_SECS: u64 = 30;

/// Chunks that wait in a download channel.
pub const DOWNLOAD_CHANNEL_CAPACITY: usize = 1;

/// Commands that wait for a tunnel.
pub const TUNNEL_CMD_CHANNEL_CAPACITY: usize = 32;

/// Commands that wait for an upload.
pub const UPLOAD_CMD_CHANNEL_CAPACITY: usize = 8;

/// The most tunnels, unless configured.
pub const MAX_TUNNELS: usize = 1024;

/// How long a master key is valid.
pub const MASTER_EXPIRY_SECS: u64 = 1200;

} // verus!
