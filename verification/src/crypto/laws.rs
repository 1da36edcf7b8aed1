//! What holds of every key that is derived and of every message that is sealed.
use crate::base64url;
use crate::crypto::cipher;
use crate::crypto::cipher::{decrypt_bytes, encrypt_bytes, encrypt_with_nonce};
use crate::crypto::handshake;
use crate::crypto::handshake::{
    derive_connection_keys, derive_cookie_stream_key, derive_handshake_key, derive_initial_master,
};
use crate::crypto::keys;
use crate::crypto::keys::{
    b64_to_private_key, b64_to_public_key, bytes_to_encapsulation_key, decode_fixed_32,
    diffie_hellman, private_key_to_b64, public_key_to_b64, KeyError,
};
use crate::hello::{
    build_client_hello, build_server_hello, parse_client_hello, parse_server_hello,
    ClientHelloError, ServerHelloError,
};
use crate::shaper::FrameError;
use crate::wire;
use vstd::prelude::*;
use vstd::string::*;
use vstd::utf8::*;

verus! {

/// The key that seals a handshake is expanded from the shared secret without a salt,
/// under its own name.
pub proof fn law_handshake_key_is_named(shared: &[u8; 32], r: [u8; 32])
    requires
        call_ensures(derive_handshake_key, (shared,), r),
    ensures
        r@ == handshake::hkdf_sha256(
            None,
            shared@,
            seq![
                0x6du8, 0x6c, 0x6b, 0x65, 0x6d, 0x5f, 0x68, 0x61, 0x6e, 0x64, 0x73, 0x68, 0x61,
                0x6b, 0x65, 0x5f, 0x6b, 0x65, 0x79,
            ],
            32,
        ),
{
    reveal_strlit("mlkem_handshake_key");
    assert(crate::text::ascii_bytes("mlkem_handshake_key"@) =~= seq![
        0x6du8, 0x6c, 0x6b, 0x65, 0x6d, 0x5f, 0x68, 0x61, 0x6e, 0x64, 0x73, 0x68, 0x61, 0x6b, 0x65,
        0x5f, 0x6b, 0x65, 0x79,
    ]);
}

/// The master key of a session is expanded from both secrets, that of the
/// encapsulation first, under a salt of its own and no name.
pub proof fn law_master_needs_both_secrets(
    mlkem_ss: &[u8],
    x25519_ss: &[u8; 32],
    ikm: Seq<u8>,
    r: [u8; 32],
)
    requires
        call_ensures(derive_initial_master, (mlkem_ss, x25519_ss), r),
        ikm.len() == mlkem_ss@.len() + 32,
        ikm.take(mlkem_ss@.len() as int) == mlkem_ss@,
        ikm.skip(mlkem_ss@.len() as int) == x25519_ss@,
    ensures
        r@ == handshake::hkdf_sha256(
            Some(
                seq![
                    0x69u8, 0x6e, 0x69, 0x74, 0x69, 0x61, 0x6c, 0x5f, 0x6d, 0x61, 0x73, 0x74, 0x65,
                    0x72, 0x5f, 0x73, 0x61, 0x6c, 0x74,
                ],
            ),
            ikm,
            Seq::empty(),
            32,
        ),
{
    reveal_strlit("initial_master_salt");
    assert(crate::text::ascii_bytes("initial_master_salt"@) =~= seq![
        0x69u8, 0x6e, 0x69, 0x74, 0x69, 0x61, 0x6c, 0x5f, 0x6d, 0x61, 0x73, 0x74, 0x65, 0x72, 0x5f,
        0x73, 0x61, 0x6c, 0x74,
    ]);
    let n = mlkem_ss@.len() as int;
    assert forall|i: int| 0 <= i < ikm.len() implies ikm[i] == (mlkem_ss@ + x25519_ss@)[i] by {
        if i < n {
            assert(ikm[i] == ikm.take(n)[i]);
        } else {
            assert(ikm[i] == ikm.skip(n)[i - n]);
        }
    }
    assert(ikm =~= mlkem_ss@ + x25519_ss@);
}

/// The key that seals stream numbers is expanded from the master key without a salt,
/// under its own name.
pub proof fn law_stream_key_is_named(master: &[u8; 32], r: [u8; 32])
    requires
        call_ensures(derive_cookie_stream_key, (master,), r),
    ensures
        r@ == handshake::hkdf_sha256(
            None,
            master@,
            seq![
                0x63u8, 0x6f, 0x6f, 0x6b, 0x69, 0x65, 0x5f, 0x73, 0x74, 0x72, 0x65, 0x61, 0x6d,
                0x5f, 0x6b, 0x65, 0x79,
            ],
            32,
        ),
{
    reveal_strlit("cookie_stream_key");
    assert(crate::text::ascii_bytes("cookie_stream_key"@) =~= seq![
        0x63u8, 0x6f, 0x6f, 0x6b, 0x69, 0x65, 0x5f, 0x73, 0x74, 0x72, 0x65, 0x61, 0x6d, 0x5f, 0x6b,
        0x65, 0x79,
    ]);
}

/// The three keys of a stream are the thirds of one expansion of the master key, under
/// the stream's number and a name behind it.
pub proof fn law_connection_keys_are_thirds(
    master: &[u8; 32],
    stream_id: &[u8; 16],
    r: ([u8; 32], [u8; 32], [u8; 32]),
)
    requires
        call_ensures(derive_connection_keys, (master, stream_id), r),
    ensures
        r.0@ + r.1@ + r.2@ == handshake::hkdf_sha256(
            None,
            master@,
            stream_id@ + seq![
                0x63u8, 0x6f, 0x6e, 0x6e, 0x65, 0x63, 0x74, 0x69, 0x6f, 0x6e, 0x5f, 0x6b, 0x65,
                0x79, 0x73,
            ],
            96,
        ),
{
    reveal_strlit("connection_keys");
    assert(crate::text::ascii_bytes("connection_keys"@) =~= seq![
        0x63u8, 0x6f, 0x6e, 0x6e, 0x65, 0x63, 0x74, 0x69, 0x6f, 0x6e, 0x5f, 0x6b, 0x65, 0x79, 0x73,
    ]);
}

/// Two parties that hold each other's public keys share the same.
pub proof fn law_both_parties_share(
    our_sk: &[u8; 32],
    our_pk: &[u8; 32],
    their_sk: &[u8; 32],
    their_pk: &[u8; 32],
    ours: [u8; 32],
    theirs: [u8; 32],
)
    requires
        our_pk@ == keys::x25519_public(our_sk@),
        their_pk@ == keys::x25519_public(their_sk@),
        call_ensures(diffie_hellman, (our_sk, their_pk), ours),
        call_ensures(diffie_hellman, (their_sk, our_pk), theirs),
    ensures
        ours@ == theirs@,
        ours@ == keys::x25519_shared(our_sk@, their_pk@),
{
    assert(their_pk@ == keys::x25519_public(their_sk@));
}

/// A key is thirty-two bytes in Base64, and nothing else is one.
pub proof fn law_keys_are_thirty_two_bytes(s: &str, r: Result<[u8; 32], KeyError>)
    requires
        call_ensures(decode_fixed_32, (s,), r),
    ensures
        match base64url::base64_decoded(s@) {
            Ok(d) => if d.len() == 32 {
                r is Ok && r->Ok_0@ == d
            } else {
                r is Err && r->Err_0 == KeyError::Length
            },
            Err(e) => r is Err && r->Err_0 == KeyError::Encoding(e),
        },
{
}

/// A key that was written is read back, public or secret, from forty-three characters.
pub proof fn law_written_keys_are_read(
    key: &[u8; 32],
    public: String,
    secret: String,
    p: &str,
    s: &str,
    a: Result<[u8; 32], KeyError>,
    b: Result<[u8; 32], KeyError>,
)
    requires
        call_ensures(public_key_to_b64, (key,), public),
        call_ensures(private_key_to_b64, (key,), secret),
        p@ == public@,
        s@ == secret@,
        call_ensures(b64_to_public_key, (p,), a),
        call_ensures(b64_to_private_key, (s,), b),
    ensures
        public@.len() == 43,
        secret@.len() == 43,
        a is Ok && a->Ok_0@ == key@,
        b is Ok && b->Ok_0@ == key@,
{
}

/// An encapsulation key has 1184 bytes, is sound, and is taken as it is.
pub proof fn law_encapsulation_keys_are_checked(bytes: &[u8], r: Result<Vec<u8>, KeyError>)
    requires
        call_ensures(bytes_to_encapsulation_key, (bytes,), r),
    ensures
        bytes@.len() != 1184 ==> r is Err && r->Err_0 == KeyError::KemLength,
        bytes@.len() == 1184 && !keys::mlkem_key_valid(bytes@) ==> r is Err && r->Err_0
            == KeyError::Invalid,
        bytes@.len() == 1184 && keys::mlkem_key_valid(bytes@) ==> r is Ok && r->Ok_0@ == bytes@,
{
}

/// A sealed payload is the nonce, the ciphertext and the tag; what is sealed is opened
/// under the same key.
pub proof fn law_sealed_is_opened(
    key: &[u8; 32],
    plain: &[u8],
    sealed: Vec<u8>,
    data: &[u8],
    r: Result<Vec<u8>, FrameError>,
)
    requires
        call_ensures(encrypt_bytes, (key, plain), Ok::<Vec<u8>, FrameError>(sealed)),
        data@ == sealed@,
        call_ensures(decrypt_bytes, (key, data), r),
    ensures
        sealed@.len() == 12 + plain@.len() + 16,
        sealed@.skip(12) == cipher::aes_gcm_sealed(key@, sealed@.take(12), plain@),
        r is Ok && r->Ok_0@ == plain@,
{
    let n = sealed@.take(12);
    assert((n + cipher::aes_gcm_sealed(key@, n, plain@)).skip(12) =~= cipher::aes_gcm_sealed(
        key@,
        n,
        plain@,
    ));
}

/// The nonce that was given is the one in front.
pub proof fn law_nonce_stands_in_front(
    key: &[u8; 32],
    nonce: [u8; 12],
    plain: &[u8],
    r: Result<Vec<u8>, FrameError>,
)
    requires
        call_ensures(encrypt_with_nonce, (key, nonce, plain), r),
    ensures
        r is Ok <==> plain@.len() <= 68_719_476_736,
        r is Ok ==> r->Ok_0@.take(12) == nonce@ && r->Ok_0@.skip(12) == cipher::aes_gcm_sealed(
            key@,
            nonce@,
            plain@,
        ),
        r is Err ==> r->Err_0 == FrameError::EncryptionFailed,
{
    if r is Ok {
        assert(r->Ok_0@.take(12) =~= nonce@);
        assert(r->Ok_0@.skip(12) =~= cipher::aes_gcm_sealed(key@, nonce@, plain@));
    }
}

/// What is shorter than nonce and tag is refused as too short, and anything else that
/// is not sealed under the key as not decrypted.
pub proof fn law_what_is_not_sealed_is_refused(
    key: &[u8; 32],
    data: &[u8],
    r: Result<Vec<u8>, FrameError>,
)
    requires
        call_ensures(decrypt_bytes, (key, data), r),
    ensures
        data@.len() < 28 ==> r is Err && r->Err_0 == FrameError::CiphertextTooShort,
        data@.len() >= 28 ==> match cipher::aes_gcm_opened(key@, data@.take(12), data@.skip(12)) {
            Some(plain) => r is Ok && r->Ok_0@ == plain && plain.len() + 28 == data@.len(),
            None => r is Err && r->Err_0 == FrameError::DecryptionFailed,
        },
{
}

/// The client's message is two keys, each behind its length in two bytes.
pub proof fn law_client_hello_layout(kem_pk: &[u8], x25519_pk: &[u8; 32], r: Vec<u8>)
    requires
        call_ensures(build_client_hello, (kem_pk, x25519_pk), r),
        kem_pk@.len() <= 0xffff,
    ensures
        ({
            let n = kem_pk@.len() as int;
            &&& r@.len() == n + 36
            &&& r@[0] * 256 + r@[1] == n
            &&& r@.subrange(2, 2 + n) == kem_pk@
            &&& r@[2 + n] == 0
            &&& r@[3 + n] == 32
            &&& r@.skip(4 + n) == x25519_pk@
        }),
{
    let n = kem_pk@.len() as int;
    wire::lemma_be_bytes_len(kem_pk@.len(), 2);
    wire::lemma_be_bytes_len(32, 2);
    reveal_with_fuel(wire::be_bytes, 3);
    assert(r@.subrange(2, 2 + n) =~= kem_pk@);
    assert(r@.skip(4 + n) =~= x25519_pk@);
}

/// The client's message is cut where its lengths say. Each part that is cut short is
/// refused in its own words, the encapsulation key is checked, and the other key has
/// thirty-two bytes.
pub proof fn law_client_hello_is_cut(
    data: &[u8],
    n: int,
    m: int,
    r: Result<(Vec<u8>, [u8; 32]), ClientHelloError>,
)
    requires
        call_ensures(parse_client_hello, (data,), r),
        data@.len() >= 2 ==> n == data@[0] * 256 + data@[1],
        data@.len() >= 4 + n ==> m == data@[2 + n] * 256 + data@[3 + n],
    ensures
        data@.len() < 2 ==> r is Err && r->Err_0 == ClientHelloError::TooShort,
        2 <= data@.len() < 2 + n ==> r is Err && r->Err_0 == ClientHelloError::TruncatedKem,
        data@.len() >= 2 && data@.len() >= 2 + n && n != 1184 ==> r is Err && r->Err_0
            == ClientHelloError::InvalidKem(KeyError::KemLength),
        ({
            let sound = n == 1184 && keys::mlkem_key_valid(data@.subrange(2, 2 + n));
            &&& data@.len() >= 2 + n && n == 1184 && !sound && data@.len() >= 2 ==> r is Err
                && r->Err_0 == ClientHelloError::InvalidKem(KeyError::Invalid)
            &&& 2 <= data@.len() && 2 + n <= data@.len() < 4 + n && sound ==> r is Err && r->Err_0
                == ClientHelloError::MissingX25519
            &&& 4 + n <= data@.len() < 4 + n + m && sound ==> r is Err && r->Err_0
                == ClientHelloError::TruncatedX25519
            &&& data@.len() >= 4 + n && data@.len() >= 4 + n + m && sound && m != 32 ==> r is Err
                && r->Err_0 == ClientHelloError::InvalidX25519
            &&& data@.len() >= 4 + n && data@.len() >= 4 + n + m && sound && m == 32 ==> {
                &&& r is Ok
                &&& r->Ok_0.0@ == data@.subrange(2, 2 + n)
                &&& r->Ok_0.1@ == data@.subrange(4 + n, 36 + n)
            }
        }),
{
    reveal_with_fuel(wire::be_value, 3);
    if data@.len() >= 2 {
        let two = data@.take(2);
        assert(two.drop_last().drop_last() =~= Seq::empty());
        assert(wire::be_value(two) == n);
        if data@.len() >= 4 + n {
            let field = data@.subrange(2 + n, 4 + n);
            assert(field.drop_last().drop_last() =~= Seq::empty());
            assert(wire::be_value(field) == m);
        }
    }
}

/// The server's message is the session's name behind its length in two bytes, the
/// ciphertext and the key.
pub proof fn law_server_hello_layout(session_id: &str, ct: &[u8], x25519_pk: &[u8; 32], r: Vec<u8>)
    requires
        call_ensures(build_server_hello, (session_id, ct, x25519_pk), r),
        session_id.spec_bytes().len() <= 0xffff,
    ensures
        ({
            let n = session_id.spec_bytes().len() as int;
            let c = ct@.len() as int;
            &&& r@.len() == 2 + n + c + 32
            &&& r@[0] * 256 + r@[1] == n
            &&& r@.subrange(2, 2 + n) == session_id.spec_bytes()
            &&& r@.subrange(2 + n, 2 + n + c) == ct@
            &&& r@.skip(2 + n + c) == x25519_pk@
        }),
{
    let n = session_id.spec_bytes().len() as int;
    let c = ct@.len() as int;
    wire::lemma_be_bytes_len(session_id.spec_bytes().len(), 2);
    reveal_with_fuel(wire::be_bytes, 3);
    assert(r@.subrange(2, 2 + n) =~= session_id.spec_bytes());
    assert(r@.subrange(2 + n, 2 + n + c) =~= ct@);
    assert(r@.skip(2 + n + c) =~= x25519_pk@);
}

/// The server's message is cut behind the name, into 1088 bytes and thirty-two; what
/// follows is ignored, and a message that is shorter is refused.
pub proof fn law_server_hello_is_cut(
    data: &[u8],
    n: int,
    r: Result<(String, Vec<u8>, [u8; 32]), ServerHelloError>,
)
    requires
        call_ensures(parse_server_hello, (data,), r),
        data@.len() >= 2 ==> n == data@[0] * 256 + data@[1],
    ensures
        data@.len() < 2 ==> r is Err && r->Err_0 == ServerHelloError::TooShort,
        2 <= data@.len() && data@.len() < 2 + n + 1088 + 32 ==> r is Err && r->Err_0
            == ServerHelloError::Truncated,
        2 <= data@.len() && data@.len() >= 2 + n + 1120 && !valid_utf8(data@.subrange(2, 2 + n))
            ==> r is Err && r->Err_0 == ServerHelloError::InvalidSessionId,
        2 <= data@.len() && data@.len() >= 2 + n + 1120 && valid_utf8(data@.subrange(2, 2 + n)) ==> {
            &&& r is Ok
            &&& r->Ok_0.0@ == decode_utf8(data@.subrange(2, 2 + n))
            &&& r->Ok_0.1@ == data@.subrange(2 + n, 1090 + n)
            &&& r->Ok_0.2@ == data@.subrange(1090 + n, 1122 + n)
        },
{
    reveal_with_fuel(wire::be_value, 3);
    if data@.len() >= 2 {
        let two = data@.take(2);
        assert(two.drop_last().drop_last() =~= Seq::empty());
        assert(wire::be_value(two) == n);
    }
}

} // verus!
