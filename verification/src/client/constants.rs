//! Limits of the client side.
use vstd::prelude::*;

verus! {

/// How long early data is waited for, in milliseconds.
pub const EARLY_READ_WINDOW_MS: u64 = 2;

/// How long a download request may take to be answered, in seconds.
pub const DOWNLOAD_CONNECT_TIMEOUT_SECS: u64 = 15;

/// How long a local request may take to arrive, in seconds.
pub const PROXY_REQUEST_PARSE_TIMEOUT_SECS: u64 = 10;

/// How long an upload request may take, in seconds.
pub const UPLOAD_REQUEST_TIMEOUT_SECS: u64 = 30;

/// How long a prefetched continuation is waited for, in seconds.
pub const PREFETCH_ROTATE_TIMEOUT_SECS: u64 = 5;

/// Where an upload body stops taking frames.
pub const MAX_BATCH_BYTES: usize = 1048576;

/// The most upload bytes in flight, unless configured.
pub const MAX_IN_FLIGHT_BYTES: usize = 2097152;

/// The least upload bytes in flight that may be configured: one encoded frame of full size.
pub const MIN_IN_FLIGHT_BYTES: usize = 18780;

/// The most upload requests in flight, unless configured.
pub const UPLOAD_CONCURRENCY: usize = 128;

/// The most local connections, unless configured.
pub const MAX_LOCAL_CONNECTIONS: usize = 1024;

/// How far before the end of a segment its continuation is asked for.
pub const PREFETCH_LEAD_BYTES: u64 = 16777216;

/// How long a master key is used to resume, in seconds.
pub const MASTER_RESUME_WINDOW_SECS: u64 = 1170;

/// The longest head of a local request.
pub const MAX_HEADER_LEN: usize = 16384;

/// The shortest padding of a cookie.
pub const MIN_PADDING: usize = 16;

} // verus!
