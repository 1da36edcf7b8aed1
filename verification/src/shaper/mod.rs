//! Framing and traffic shaping.
pub mod base122;
pub mod cipher;
pub mod config;
pub mod error;
pub mod frame;
pub mod frame_laws;
pub mod json;
pub mod laws;
pub mod traffic;
pub mod traffic_laws;

pub use cipher::FrameCipher;
pub use config::{
    PaddingConfig, PaddingRangeError, ResolvedShaperConfig, ResolvedStage, StageConfig,
    TrafficConfig,
};
pub use error::FrameError;
pub use frame::{
    decode_frame, decode_from_buffer, encode_frame, DecodedFrame, EncodingType, HEADER_LEN,
    JSON_PAYLOAD_CAP_CIPHER, JSON_PAYLOAD_CAP_PLAIN, MAX_BINARY_FRAME_LEN, MAX_JSON_LINE_LEN,
    MAX_RAW_PAYLOAD,
};
pub use traffic::{ShaperAction, ShaperEvent, TrafficShaper, READ_HIGH_WATER, TABLE_SIZE};
