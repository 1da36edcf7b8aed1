//! Keys derived with HKDF-SHA256.
use crate::crypto::keys;
use crate::text;
use vstd::prelude::*;
use vstd::slice::slice_subrange;

verus! {

/// HKDF-SHA256: `len` bytes for the given salt, key material and info.
pub uninterp spec fn hkdf_sha256(
    salt: Option<Seq<u8>>,
    ikm: Seq<u8>,
    info: Seq<u8>,
    len: nat,
) -> Seq<u8>;

/// The view of an optional slice.
pub open spec fn slice_view(s: Option<&[u8]>) -> Option<Seq<u8>> {
    match s {
        Some(b) => Some(b@),
        None => None,
    }
}

/// `Hkdf::<Sha256>::new`, then `expand`. It gives at most 255 blocks of 32 bytes.
#[verifier::external_body]
fn hkdf_expand(salt: Option<&[u8]>, ikm: &[u8], info: &[u8], len: usize) -> (r: Vec<u8>)
    requires
        len <= 8160,
    ensures
        r@ == hkdf_sha256(slice_view(salt), ikm@, info@, len as nat),
        r@.len() == len,
{
    let mut out = vec![0u8; len];
    hkdf::Hkdf::<sha2::Sha256>::new(salt, ikm).expand(info, &mut out).expect("length is valid");
    out
}

/// The key that seals the handshake.
pub open spec fn handshake_key(shared: Seq<u8>) -> Seq<u8> {
    hkdf_sha256(None, shared, text::ascii_bytes("mlkem_handshake_key"@), 32)
}

/// The key that seals the handshake.
pub fn derive_handshake_key(shared: &[u8; 32]) -> (r: [u8; 32])
    ensures
        r@ == handshake_key(shared@),
{
    proof {
        reveal_strlit("mlkem_handshake_key");
    }
    let key = hkdf_expand(None, shared, text::literal_bytes("mlkem_handshake_key"), 32);
    keys::array_32(&key)
}

/// The master key of a session, from the two secrets of its handshake.
pub open spec fn initial_master(mlkem_ss: Seq<u8>, x25519_ss: Seq<u8>) -> Seq<u8> {
    hkdf_sha256(
        Some(text::ascii_bytes("initial_master_salt"@)),
        mlkem_ss + x25519_ss,
        Seq::empty(),
        32,
    )
}

/// The master key of a session, from the two secrets of its handshake.
pub fn derive_initial_master(mlkem_ss: &[u8], x25519_ss: &[u8; 32]) -> (r: [u8; 32])
    ensures
        r@ == initial_master(mlkem_ss@, x25519_ss@),
{
    proof {
        reveal_strlit("initial_master_salt");
        reveal_strlit("");
    }
    let mut ikm: Vec<u8> = Vec::new();
    ikm.extend_from_slice(mlkem_ss);
    ikm.extend_from_slice(x25519_ss);
    proof {
        assert(ikm@ =~= mlkem_ss@ + x25519_ss@);
        assert(text::ascii_bytes(""@) =~= Seq::<u8>::empty());
    }
    let key = hkdf_expand(
        Some(text::literal_bytes("initial_master_salt")),
        &ikm,
        text::literal_bytes(""),
        32,
    );
    keys::array_32(&key)
}

/// The key that seals stream numbers in cookies.
pub open spec fn cookie_stream_key(master: Seq<u8>) -> Seq<u8> {
    hkdf_sha256(None, master, text::ascii_bytes("cookie_stream_key"@), 32)
}

/// The key that seals stream numbers in cookies.
pub fn derive_cookie_stream_key(master: &[u8; 32]) -> (r: [u8; 32])
    ensures
        r@ == cookie_stream_key(master@),
{
    proof {
        reveal_strlit("cookie_stream_key");
    }
    let key = hkdf_expand(None, master, text::literal_bytes("cookie_stream_key"), 32);
    keys::array_32(&key)
}

/// Ninety-six bytes of key for one stream.
pub open spec fn connection_secret(master: Seq<u8>, stream_id: Seq<u8>) -> Seq<u8> {
    hkdf_sha256(None, master, stream_id + text::ascii_bytes("connection_keys"@), 96)
}

/// The keys of one stream: upload, download, target.
pub fn derive_connection_keys(master: &[u8; 32], stream_id: &[u8; 16]) -> (r: (
    [u8; 32],
    [u8; 32],
    [u8; 32],
))
    ensures
        r.0@ == connection_secret(master@, stream_id@).subrange(0, 32),
        r.1@ == connection_secret(master@, stream_id@).subrange(32, 64),
        r.2@ == connection_secret(master@, stream_id@).subrange(64, 96),
        r.0@ + r.1@ + r.2@ == connection_secret(master@, stream_id@),
{
    proof {
        reveal_strlit("connection_keys");
    }
    let mut info: Vec<u8> = Vec::new();
    info.extend_from_slice(stream_id);
    info.extend_from_slice(text::literal_bytes("connection_keys"));
    proof {
        assert(info@ =~= stream_id@ + text::ascii_bytes("connection_keys"@));
    }
    let all = hkdf_expand(None, master, &info, 96);
    let upload: [u8; 32] = keys::array_32(slice_subrange(&all, 0, 32));
    let download: [u8; 32] = keys::array_32(slice_subrange(&all, 32, 64));
    let target: [u8; 32] = keys::array_32(slice_subrange(&all, 64, 96));
    proof {
        assert(upload@ + download@ + target@ =~= all@);
    }
    (upload, download, target)
}

} // verus!
