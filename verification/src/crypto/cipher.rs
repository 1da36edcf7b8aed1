//! AES-256-GCM with a random nonce in front of each sealed payload.
use crate::buffer;
use crate::shaper::{FrameCipher, FrameError};
use aes_gcm::aead::{AeadInPlace, KeyInit};
use bytes::BytesMut;
use vstd::prelude::*;

verus! {

/// Bytes of nonce in front of a sealed payload.
pub const NONCE_LEN: usize = 12;

/// Bytes of tag behind a sealed payload.
pub const TAG_LEN: usize = 16;

/// The longest plaintext that AES-GCM seals.
pub const MAX_PLAINTEXT_LEN: u64 = 0x10_0000_0000;

/// Ciphertext and tag that AES-256-GCM makes of `plain` with empty associated data.
pub uninterp spec fn aes_gcm_sealed(key: Seq<u8>, nonce: Seq<u8>, plain: Seq<u8>) -> Seq<u8>;

/// The plaintext behind ciphertext and tag `sealed`, where the tag is right.
pub uninterp spec fn aes_gcm_opened(key: Seq<u8>, nonce: Seq<u8>, sealed: Seq<u8>) -> Option<
    Seq<u8>,
>;

/// `Aes256Gcm::encrypt_in_place_detached` with no associated data, its tag
/// appended. It refuses plaintexts above the limit of the mode and no others;
/// the tag has sixteen bytes; opening under the same key and nonce gives the
/// plaintext back. A refusal is handed on in the words of its `Display`.
#[verifier::external_body]
fn aes_gcm_seal(key: &[u8; 32], nonce: &[u8; 12], plain: &[u8]) -> (r: Result<Vec<u8>, String>)
    ensures
        r is Ok <==> plain@.len() <= MAX_PLAINTEXT_LEN,
        r matches Ok(c) ==> c@ == aes_gcm_sealed(key@, nonce@, plain@),
        r matches Ok(c) ==> c@.len() == plain@.len() + TAG_LEN,
        r matches Ok(c) ==> aes_gcm_opened(key@, nonce@, c@) == Some(plain@),
        r matches Err(words) ==> words@ == "aead::Error"@,
{
    let cipher = aes_gcm::Aes256Gcm::new(key.into());
    let mut out = plain.to_vec();
    let sealed = cipher.encrypt_in_place_detached(nonce.into(), b"", &mut out);
    let tag = sealed.map_err(|e| e.to_string())?;
    out.extend_from_slice(tag.as_ref());
    Ok(out)
}

/// `Aes256Gcm::decrypt_in_place_detached` with no associated data, on a
/// ciphertext and its tag. The plaintext is as long as the ciphertext. A refusal is
/// handed on in the words of its `Display`.
#[verifier::external_body]
fn aes_gcm_open(key: &[u8; 32], nonce: &[u8], ciphertext: &[u8], tag: &[u8]) -> (r: Result<
    Vec<u8>,
    String,
>)
    requires
        nonce@.len() == NONCE_LEN,
        tag@.len() == TAG_LEN,
    ensures
        r is Ok <==> aes_gcm_opened(key@, nonce@, ciphertext@ + tag@) is Some,
        r matches Ok(p) ==> aes_gcm_opened(key@, nonce@, ciphertext@ + tag@) == Some(p@),
        r matches Ok(p) ==> p@.len() == ciphertext@.len(),
        r matches Err(words) ==> words@ == "aead::Error"@,
{
    let cipher = aes_gcm::Aes256Gcm::new(key.into());
    let mut out = ciphertext.to_vec();
    let opened = cipher.decrypt_in_place_detached(nonce.into(), b"", &mut out, tag.into());
    opened.map_err(|e| e.to_string())?;
    Ok(out)
}

/// `rand::Rng::fill_bytes` on the thread's generator: twelve bytes, whatever they are.
#[verifier::external_body]
fn random_nonce() -> (nonce: [u8; 12]) {
    let mut nonce = [0u8; 12];
    rand::Rng::fill_bytes(&mut rand::rng(), &mut nonce);
    nonce
}

/// A sealed payload: the nonce, then ciphertext and tag.
pub open spec fn sealed_payload(key: Seq<u8>, nonce: Seq<u8>, plain: Seq<u8>) -> Seq<u8> {
    nonce + aes_gcm_sealed(key, nonce, plain)
}

/// What a sealed payload opens to.
pub open spec fn opened_payload(key: Seq<u8>, data: Seq<u8>) -> Result<Seq<u8>, FrameError> {
    if data.len() < NONCE_LEN + TAG_LEN {
        Err(FrameError::CiphertextTooShort)
    } else {
        match aes_gcm_opened(key, data.take(NONCE_LEN as int), data.skip(NONCE_LEN as int)) {
            Some(plain) => Ok(plain),
            None => Err(FrameError::DecryptionFailed),
        }
    }
}

/// Seals `plain` under the given nonce.
pub fn encrypt_with_nonce(key: &[u8; 32], nonce: [u8; 12], plain: &[u8]) -> (r: Result<
    Vec<u8>,
    FrameError,
>)
    ensures
        r is Ok <==> plain@.len() <= MAX_PLAINTEXT_LEN,
        r matches Err(e) ==> e == FrameError::EncryptionFailed,
        r matches Ok(c) ==> {
            &&& c@ == sealed_payload(key@, nonce@, plain@)
            &&& c@.len() == NONCE_LEN + plain@.len() + TAG_LEN
            &&& opened_payload(key@, c@) == Ok::<Seq<u8>, FrameError>(plain@)
        },
{
    match aes_gcm_seal(key, &nonce, plain) {
        Ok(sealed) => {
            let mut out: Vec<u8> = Vec::with_capacity(NONCE_LEN);
            out.extend_from_slice(&nonce);
            out.extend_from_slice(&sealed);
            proof {
                assert(out@ =~= nonce@ + sealed@);
                assert(out@.take(NONCE_LEN as int) =~= nonce@);
                assert(out@.skip(NONCE_LEN as int) =~= sealed@);
            }
            Ok(out)
        },
        Err(words) => {
            proof {
                reveal_strlit("encryption error: ");
                reveal_strlit("aead::Error");
                reveal_strlit("encryption error: aead::Error");
                assert(FrameError::EncryptionFailed.text() =~= "encryption error: "@ + words@);
            }
            Err(FrameError::EncryptionFailed)
        },
    }
}

/// Seals `data` under a fresh nonce, which the result starts with.
pub fn encrypt_bytes(key: &[u8; 32], data: &[u8]) -> (r: Result<Vec<u8>, FrameError>)
    ensures
        r is Ok <==> data@.len() <= MAX_PLAINTEXT_LEN,
        r matches Err(e) ==> e == FrameError::EncryptionFailed,
        r matches Ok(c) ==> {
            &&& c@.len() == NONCE_LEN + data@.len() + TAG_LEN
            &&& c@ == sealed_payload(key@, c@.take(NONCE_LEN as int), data@)
            &&& opened_payload(key@, c@) == Ok::<Seq<u8>, FrameError>(data@)
        },
{
    let nonce: [u8; 12] = random_nonce();
    let r = encrypt_with_nonce(key, nonce, data);
    proof {
        if r is Ok {
            assert(r->Ok_0@.take(NONCE_LEN as int) =~= nonce@);
        }
    }
    r
}

/// Opens what `encrypt_bytes` sealed.
pub fn decrypt_bytes(key: &[u8; 32], data: &[u8]) -> (r: Result<Vec<u8>, FrameError>)
    ensures
        match r {
            Ok(p) => opened_payload(key@, data@) == Ok::<Seq<u8>, FrameError>(p@) && p@.len() + NONCE_LEN
                + TAG_LEN == data@.len(),
            Err(e) => opened_payload(key@, data@) == Err::<Seq<u8>, FrameError>(e),
        },
{
    if data.len() < NONCE_LEN + TAG_LEN {
        return Err(FrameError::CiphertextTooShort);
    }
    let ct_end: usize = data.len() - TAG_LEN;
    let nonce = vstd::slice::slice_subrange(data, 0, NONCE_LEN);
    let ciphertext = vstd::slice::slice_subrange(data, NONCE_LEN, ct_end);
    let tag = vstd::slice::slice_subrange(data, ct_end, data.len());
    proof {
        assert(nonce@ =~= data@.take(NONCE_LEN as int));
        assert(ciphertext@ + tag@ =~= data@.skip(NONCE_LEN as int));
    }
    match aes_gcm_open(key, nonce, ciphertext, tag) {
        Ok(plain) => Ok(plain),
        Err(words) => {
            proof {
                reveal_strlit("decryption error: ");
                reveal_strlit("aead::Error");
                reveal_strlit("decryption error: aead::Error");
                assert(FrameError::DecryptionFailed.text() =~= "decryption error: "@ + words@);
            }
            Err(FrameError::DecryptionFailed)
        },
    }
}

/// The frame cipher of the tunnel: AES-256-GCM under one key.
pub struct AesFrameCipher {
    key: [u8; 32],
}

impl AesFrameCipher {
    /// The key.
    pub closed spec fn key(&self) -> Seq<u8> {
        self.key@
    }

    /// A cipher under `key`.
    pub fn new(key: &[u8; 32]) -> (c: Self)
        ensures
            c.key() == key@,
    {
        AesFrameCipher { key: *key }
    }
}

impl Clone for AesFrameCipher {
    fn clone(&self) -> (c: Self)
        ensures
            c.key() == self.key(),
    {
        AesFrameCipher { key: self.key }
    }
}

impl FrameCipher for AesFrameCipher {
    open spec fn opened(&self, data: Seq<u8>) -> Result<Seq<u8>, FrameError> {
        opened_payload(self.key(), data)
    }

    open spec fn seals_len(&self, n: nat) -> bool {
        n <= MAX_PLAINTEXT_LEN
    }

    fn encrypt(&self, data: &[u8]) -> (r: Result<Vec<u8>, FrameError>)
        ensures
            r matches Ok(c) ==> c@ == sealed_payload(self.key(), c@.take(NONCE_LEN as int), data@),
    {
        encrypt_bytes(&self.key, data)
    }

    fn decrypt(&self, data: &[u8]) -> Result<Vec<u8>, FrameError> {
        decrypt_bytes(&self.key, data)
    }

    fn encrypt_into(&self, data: &[u8], out: &mut BytesMut) -> (r: Result<(), FrameError>)
        ensures
            r is Err ==> {
                let left = buffer::buffered(*final(out)).skip(
                    buffer::buffered(*old(out)).len() as int,
                );
                left.len() == NONCE_LEN + data@.len() && left.skip(NONCE_LEN as int) == data@
            },
    {
        let nonce: [u8; 12] = random_nonce();
        match encrypt_with_nonce(&self.key, nonce, data) {
            Ok(sealed) => {
                buffer::buf_put(out, &sealed);
                proof {
                    let before = buffer::buffered(*old(out));
                    assert(buffer::buffered(*out).skip(before.len() as int) =~= sealed@);
                }
                Ok(())
            },
            Err(e) => {
                buffer::buf_put(out, &nonce);
                buffer::buf_put(out, data);
                proof {
                    let before = buffer::buffered(*old(out));
                    let left = buffer::buffered(*out).skip(before.len() as int);
                    assert(left =~= nonce@ + data@);
                    assert(left.skip(NONCE_LEN as int) =~= data@);
                    assert(before =~= buffer::buffered(*out).take(before.len() as int));
                }
                Err(e)
            },
        }
    }

    fn decrypt_into(&self, data: &[u8], out: &mut BytesMut) -> (r: Result<(), FrameError>)
        ensures
            r is Err ==> buffer::buffered(*final(out)) == buffer::buffered(*old(out)) + (if data@.len()
                < NONCE_LEN + TAG_LEN {
                Seq::empty()
            } else {
                data@.subrange(NONCE_LEN as int, data@.len() - TAG_LEN)
            }),
    {
        let ghost before = buffer::buffered(*out);
        match decrypt_bytes(&self.key, data) {
            Ok(plain) => {
                buffer::buf_put(out, &plain);
                Ok(())
            },
            Err(e) => {
                if data.len() >= NONCE_LEN + TAG_LEN {
                    let ciphertext = vstd::slice::slice_subrange(
                        data,
                        NONCE_LEN,
                        data.len() - TAG_LEN,
                    );
                    buffer::buf_put(out, ciphertext);
                }
                proof {
                    assert(before =~= buffer::buffered(*out).take(before.len() as int));
                }
                Err(e)
            },
        }
    }

    fn seal_in_place(&self, out: &mut BytesMut, nonce_start: usize, ct_start: usize) -> Result<
        (),
        FrameError,
    > {
        let plain: BytesMut = buffer::buf_split_off(out, ct_start);
        buffer::buf_truncate(out, nonce_start);
        proof {
            let start = buffer::buffered(*old(out));
            assert(buffer::buffered(*out) =~= start.take(nonce_start as int));
        }
        self.encrypt_into(buffer::buf_slice(&plain), out)
    }
}

} // verus!
