//! URL-safe Base64 without padding, as the `base64` crate has it.
use crate::decimal;
use base64::{DecodeError, Engine};
use vstd::prelude::*;
use vstd::string::*;

verus! {

/// The text that Base64 makes of `data`.
pub uninterp spec fn base64_text(data: Seq<u8>) -> Seq<char>;

/// Why text is not Base64.
#[derive(Debug, Clone, Copy, PartialEq, Eq, Structural)]
pub enum Base64Error {
    /// A byte at an offset is not of the alphabet.
    InvalidByte { offset: usize, byte: u8 },
    /// No bytes have a text of so many symbols.
    InvalidLength { len: usize },
    /// The last symbol, at an offset, holds bits that belong to no byte.
    InvalidLastSymbol { offset: usize, byte: u8 },
    /// The padding is not as it should be.
    InvalidPadding,
}

impl Base64Error {
    /// The error in words.
    pub open spec fn text(self) -> Seq<char> {
        match self {
            Base64Error::InvalidByte { offset, byte } => "Invalid symbol "@ + decimal::decimal(
                byte as nat,
            ) + ", offset "@ + decimal::decimal(offset as nat) + "."@,
            Base64Error::InvalidLength { len } => "Invalid input length: "@ + decimal::decimal(
                len as nat,
            ),
            Base64Error::InvalidLastSymbol { offset, byte } => "Invalid last symbol "@
                + decimal::decimal(byte as nat) + ", offset "@ + decimal::decimal(offset as nat)
                + "."@,
            Base64Error::InvalidPadding => "Invalid padding"@,
        }
    }
}

/// `Display` of a `base64::DecodeError`: what is wrong, with the symbol and where
/// it stands, or with the length.
#[verifier::external_body]
pub(crate) fn error_words(e: Base64Error) -> (r: String)
    ensures
        r@ == e.text(),
{
    let outside = match e {
        Base64Error::InvalidByte { offset, byte } => DecodeError::InvalidByte(offset, byte),
        Base64Error::InvalidLength { len } => DecodeError::InvalidLength(len),
        Base64Error::InvalidLastSymbol { offset, byte } => {
            DecodeError::InvalidLastSymbol(offset, byte)
        },
        Base64Error::InvalidPadding => DecodeError::InvalidPadding,
    };
    outside.to_string()
}

/// The bytes behind Base64 text, or why it is none.
pub uninterp spec fn base64_decoded(text: Seq<char>) -> Result<Seq<u8>, Base64Error>;

/// Whether Base64 text stands for `data`.
pub open spec fn decodes_to(text: Seq<char>, data: Seq<u8>) -> bool {
    base64_decoded(text) == Ok::<Seq<u8>, Base64Error>(data)
}

/// A letter, a digit, a hyphen or an underscore.
pub open spec fn is_alphabet(c: char) -> bool {
    ('A' <= c <= 'Z') || ('a' <= c <= 'z') || ('0' <= c <= '9') || c == '-' || c == '_'
}

/// `Engine::encode` of `URL_SAFE_NO_PAD`: text of the URL-safe alphabet, with
/// one character for every six bits begun, that decodes to `data` again.
#[verifier::external_body]
pub(crate) fn encode(data: &[u8]) -> (r: String)
    requires
        2 * data@.len() <= isize::MAX,
    ensures
        r@ == base64_text(data@),
        r@.len() == (8 * data@.len() + 5) / 6,
        forall|i: int| 0 <= i < r@.len() ==> is_alphabet(#[trigger] r@[i]),
        decodes_to(r@, data@),
{
    base64::engine::general_purpose::URL_SAFE_NO_PAD.encode(data)
}

/// `Engine::decode` of `URL_SAFE_NO_PAD`.
#[verifier::external_body]
pub(crate) fn decode(text: &str) -> (r: Result<Vec<u8>, Base64Error>)
    ensures
        match r {
            Ok(d) => decodes_to(text@, d@),
            Err(e) => base64_decoded(text@) == Err::<Seq<u8>, Base64Error>(e),
        },
{
    base64::engine::general_purpose::URL_SAFE_NO_PAD.decode(text).map_err(|e| match e {
        DecodeError::InvalidByte(offset, byte) => Base64Error::InvalidByte { offset, byte },
        DecodeError::InvalidLength(len) => Base64Error::InvalidLength { len },
        DecodeError::InvalidLastSymbol(offset, byte) => {
            Base64Error::InvalidLastSymbol { offset, byte }
        },
        DecodeError::InvalidPadding => Base64Error::InvalidPadding,
    })
}

} // verus!
