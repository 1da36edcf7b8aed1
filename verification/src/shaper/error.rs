//! Why a frame could not be written or read.
use crate::decimal;
use vstd::prelude::*;
use vstd::string::*;

verus! {

/// A frame that could not be encoded, decoded, sealed or opened.
#[derive(Debug, Clone, Copy, PartialEq, Eq, Structural)]
pub enum FrameError {
    /// The data exceeds what one frame may carry.
    PayloadTooLarge { len: usize, limit: usize },
    /// The payload ends inside its header.
    PayloadTooShort,
    /// The payload ends before its declared length.
    PayloadTruncated,
    /// A line has no `data` field.
    MissingData,
    /// The `data` field is not closed.
    MalformedJson,
    /// The `data` field is not UTF-8.
    InvalidUtf8,
    /// The `data` field is not Base122: it holds a character that Base122 does not write.
    InvalidBase122,
    /// A length prefix exceeds the largest frame.
    BinaryTooLong,
    /// A line exceeds the largest line.
    LineTooLong,
    /// An unfinished line exceeds the largest line.
    LineIncomplete,
    /// A line holds nothing.
    EmptyLine,
    /// A sealed payload is shorter than nonce and tag.
    CiphertextTooShort,
    /// The cipher refused to seal.
    EncryptionFailed,
    /// The cipher refused to open.
    DecryptionFailed,
    /// A cipher of the caller's failed in a way of its own.
    Cipher,
}

impl FrameError {
    /// The error in words.
    pub open spec fn text(self) -> Seq<char> {
        match self {
            FrameError::PayloadTooLarge { len, limit } => "frame payload too large: "@
                + decimal::decimal(len as nat) + " > "@ + decimal::decimal(limit as nat),
            FrameError::PayloadTooShort => "payload too short"@,
            FrameError::PayloadTruncated => "payload shorter than declared original length"@,
            FrameError::MissingData => "missing 'data' field"@,
            FrameError::MalformedJson => "malformed JSON structure"@,
            FrameError::InvalidUtf8 => "payload is not valid UTF-8"@,
            FrameError::InvalidBase122 => "Invalid lead byte"@,
            FrameError::BinaryTooLong => "binary frame length exceeds limit"@,
            FrameError::LineTooLong => "JSON line exceeds maximum allowed length"@,
            FrameError::LineIncomplete => "incomplete JSON line is too long"@,
            FrameError::EmptyLine => "empty frame line"@,
            FrameError::CiphertextTooShort => "ciphertext too short"@,
            FrameError::EncryptionFailed => "encryption error: aead::Error"@,
            FrameError::DecryptionFailed => "decryption error: aead::Error"@,
            FrameError::Cipher => "cipher error"@,
        }
    }

    /// The error in words.
    pub fn message(&self) -> (r: String)
        ensures
            r@ == self.text(),
    {
        let words: &str = match self {
            FrameError::PayloadTooLarge { len, limit } => {
                let mut out = String::from_str("frame payload too large: ");
                decimal::push_decimal(&mut out, *len as u64);
                out.append(" > ");
                decimal::push_decimal(&mut out, *limit as u64);
                return out;
            },
            FrameError::PayloadTooShort => "payload too short",
            FrameError::PayloadTruncated => "payload shorter than declared original length",
            FrameError::MissingData => "missing 'data' field",
            FrameError::MalformedJson => "malformed JSON structure",
            FrameError::InvalidUtf8 => "payload is not valid UTF-8",
            FrameError::InvalidBase122 => "Invalid lead byte",
            FrameError::BinaryTooLong => "binary frame length exceeds limit",
            FrameError::LineTooLong => "JSON line exceeds maximum allowed length",
            FrameError::LineIncomplete => "incomplete JSON line is too long",
            FrameError::EmptyLine => "empty frame line",
            FrameError::CiphertextTooShort => "ciphertext too short",
            FrameError::EncryptionFailed => "encryption error: aead::Error",
            FrameError::DecryptionFailed => "decryption error: aead::Error",
            FrameError::Cipher => "cipher error",
        };
        String::from_str(words)
    }
}

} // verus!
