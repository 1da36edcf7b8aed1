//! The two messages of the handshake.
use crate::crypto::keys;
use crate::crypto::keys::{KeyError, MLKEM_CT_LEN, X25519_KEY_LEN};
use crate::text;
use crate::wire;
use vstd::prelude::*;
use vstd::slice::{slice_subrange, slice_to_vec};
use vstd::string::*;
use vstd::utf8::*;

verus! {

/// What the client sends: an encapsulation key and an X25519 key, each behind its length.
pub open spec fn client_hello(kem_pk: Seq<u8>, x25519_pk: Seq<u8>) -> Seq<u8> {
    wire::be_bytes(kem_pk.len(), 2) + kem_pk + wire::be_bytes(x25519_pk.len(), 2) + x25519_pk
}

/// Why a client's message was refused.
#[derive(Debug, Clone, Copy, PartialEq, Eq, Structural)]
pub enum ClientHelloError {
    TooShort,
    TruncatedKem,
    InvalidKem(KeyError),
    MissingX25519,
    TruncatedX25519,
    InvalidX25519,
}

impl ClientHelloError {
    /// The error in words.
    pub open spec fn text(self) -> Seq<char> {
        match self {
            ClientHelloError::TooShort => "ClientHello too short"@,
            ClientHelloError::TruncatedKem => "ClientHello truncated (KEM part)"@,
            ClientHelloError::InvalidKem(e) => "invalid mlkem public key: "@ + e.text(),
            ClientHelloError::MissingX25519 => "ClientHello truncated (no X25519 part)"@,
            ClientHelloError::TruncatedX25519 => "ClientHello truncated (X25519 part)"@,
            ClientHelloError::InvalidX25519 => "invalid client x25519 pk length"@,
        }
    }

    /// The error in words.
    pub fn message(&self) -> (r: String)
        ensures
            r@ == self.text(),
    {
        let words: &str = match self {
            ClientHelloError::TooShort => "ClientHello too short",
            ClientHelloError::TruncatedKem => "ClientHello truncated (KEM part)",
            ClientHelloError::InvalidKem(e) => {
                let mut out = String::from_str("invalid mlkem public key: ");
                out.append(e.message().as_str());
                return out;
            },
            ClientHelloError::MissingX25519 => "ClientHello truncated (no X25519 part)",
            ClientHelloError::TruncatedX25519 => "ClientHello truncated (X25519 part)",
            ClientHelloError::InvalidX25519 => "invalid client x25519 pk length",
        };
        String::from_str(words)
    }
}

/// The two keys in a client's message.
pub open spec fn client_hello_keys(data: Seq<u8>) -> Result<(Seq<u8>, Seq<u8>), ClientHelloError> {
    if data.len() < 2 {
        Err(ClientHelloError::TooShort)
    } else {
        let kem_end = 2 + wire::be_value(data.take(2)) as int;
        if data.len() < kem_end {
            Err(ClientHelloError::TruncatedKem)
        } else {
            match keys::key_check(data.subrange(2, kem_end)) {
                Err(e) => Err(ClientHelloError::InvalidKem(e)),
                Ok(_) => if data.len() < kem_end + 2 {
                    Err(ClientHelloError::MissingX25519)
                } else {
                    let x_len = wire::be_value(data.subrange(kem_end, kem_end + 2)) as int;
                    if data.len() < kem_end + 2 + x_len {
                        Err(ClientHelloError::TruncatedX25519)
                    } else if x_len != X25519_KEY_LEN {
                        Err(ClientHelloError::InvalidX25519)
                    } else {
                        Ok(
                            (
                                data.subrange(2, kem_end),
                                data.subrange(kem_end + 2, kem_end + 2 + x_len),
                            ),
                        )
                    }
                },
            }
        }
    }
}

/// Writes the client's message.
pub fn build_client_hello(kem_pk: &[u8], x25519_pk: &[u8; 32]) -> (r: Vec<u8>)
    requires
        kem_pk@.len() <= 0xffff,
    ensures
        r@ == client_hello(kem_pk@, x25519_pk@),
        r@.len() == 4 + kem_pk@.len() + 32,
{
    proof {
        wire::lemma_be_bytes_len(kem_pk@.len(), 2);
        wire::lemma_be_bytes_len(32, 2);
    }
    let mut out: Vec<u8> = Vec::new();
    wire::push_u16_be(&mut out, kem_pk.len() as u16);
    out.extend_from_slice(kem_pk);
    wire::push_u16_be(&mut out, 32);
    out.extend_from_slice(x25519_pk);
    proof {
        assert(out@ =~= client_hello(kem_pk@, x25519_pk@));
    }
    out
}

/// Reads the client's message.
pub fn parse_client_hello(data: &[u8]) -> (r: Result<(Vec<u8>, [u8; 32]), ClientHelloError>)
    requires
        data@.len() <= isize::MAX,
    ensures
        match client_hello_keys(data@) {
            Ok((kem, x)) => r matches Ok((k, p)) && k@ == kem && p@ == x,
            Err(e) => r == Err::<(Vec<u8>, [u8; 32]), ClientHelloError>(e),
        },
{
    if data.len() < 2 {
        return Err(ClientHelloError::TooShort);
    }
    let kem_end: usize = 2 + wire::read_u16_be(data) as usize;
    if data.len() < kem_end {
        return Err(ClientHelloError::TruncatedKem);
    }
    let kem: Vec<u8> = match keys::bytes_to_encapsulation_key(slice_subrange(data, 2, kem_end)) {
        Ok(k) => k,
        Err(e) => {
            return Err(ClientHelloError::InvalidKem(e));
        },
    };
    if data.len() < kem_end + 2 {
        return Err(ClientHelloError::MissingX25519);
    }
    let len_field = slice_subrange(data, kem_end, kem_end + 2);
    proof {
        assert(len_field@.take(2) =~= data@.subrange(kem_end as int, kem_end + 2));
    }
    let x_len: usize = wire::read_u16_be(len_field) as usize;
    let x_end: usize = kem_end + 2 + x_len;
    if data.len() < x_end {
        return Err(ClientHelloError::TruncatedX25519);
    }
    if x_len != X25519_KEY_LEN {
        return Err(ClientHelloError::InvalidX25519);
    }
    Ok((kem, keys::array_32(slice_subrange(data, kem_end + 2, x_end))))
}

/// The server reads the keys that the client wrote.
pub proof fn law_client_hello_roundtrip(kem_pk: Seq<u8>, x25519_pk: Seq<u8>)
    requires
        keys::key_check(kem_pk) is Ok,
        x25519_pk.len() == X25519_KEY_LEN,
    ensures
        client_hello_keys(client_hello(kem_pk, x25519_pk)) == Ok::<
            (Seq<u8>, Seq<u8>),
            ClientHelloError,
        >((kem_pk, x25519_pk)),
{
    let data = client_hello(kem_pk, x25519_pk);
    let n = kem_pk.len() as int;
    wire::lemma_base_pow_values();
    wire::law_be_roundtrip(kem_pk.len(), 2);
    wire::law_be_roundtrip(x25519_pk.len(), 2);
    assert(data.take(2) =~= wire::be_bytes(kem_pk.len(), 2));
    assert(data.subrange(2, 2 + n) =~= kem_pk);
    assert(data.subrange(2 + n, 4 + n) =~= wire::be_bytes(x25519_pk.len(), 2));
    assert(data.subrange(4 + n, 36 + n) =~= x25519_pk);
}

/// What the server answers: the session's name behind its length, a ciphertext, an X25519 key.
pub open spec fn server_hello(session_id: Seq<u8>, ct: Seq<u8>, x25519_pk: Seq<u8>) -> Seq<u8> {
    wire::be_bytes(session_id.len(), 2) + session_id + ct + x25519_pk
}

/// Why a server's message was refused.
#[derive(Debug, Clone, Copy, PartialEq, Eq, Structural)]
pub enum ServerHelloError {
    TooShort,
    Truncated,
    InvalidSessionId,
}

impl ServerHelloError {
    /// The error in words.
    pub open spec fn text(self) -> Seq<char> {
        match self {
            ServerHelloError::TooShort => "ServerHello too short"@,
            ServerHelloError::Truncated => "ServerHello truncated"@,
            ServerHelloError::InvalidSessionId => "invalid session_id"@,
        }
    }

    /// The error in words.
    pub fn message(&self) -> (r: &'static str)
        ensures
            r@ == self.text(),
    {
        match self {
            ServerHelloError::TooShort => "ServerHello too short",
            ServerHelloError::Truncated => "ServerHello truncated",
            ServerHelloError::InvalidSessionId => "invalid session_id",
        }
    }
}

/// Session name, ciphertext and key in a server's message. What follows them is ignored.
pub open spec fn server_hello_parts(data: Seq<u8>) -> Result<
    (Seq<char>, Seq<u8>, Seq<u8>),
    ServerHelloError,
> {
    if data.len() < 2 {
        Err(ServerHelloError::TooShort)
    } else {
        let ct_start = 2 + wire::be_value(data.take(2)) as int;
        let ct_end = ct_start + MLKEM_CT_LEN;
        if data.len() < ct_end + X25519_KEY_LEN {
            Err(ServerHelloError::Truncated)
        } else if !valid_utf8(data.subrange(2, ct_start)) {
            Err(ServerHelloError::InvalidSessionId)
        } else {
            Ok(
                (
                    decode_utf8(data.subrange(2, ct_start)),
                    data.subrange(ct_start, ct_end),
                    data.subrange(ct_end, ct_end + X25519_KEY_LEN),
                ),
            )
        }
    }
}

/// Writes the server's message.
pub fn build_server_hello(session_id: &str, ct: &[u8], x25519_pk: &[u8; 32]) -> (r: Vec<u8>)
    requires
        session_id.spec_bytes().len() <= 0xffff,
    ensures
        r@ == server_hello(session_id.spec_bytes(), ct@, x25519_pk@),
        r@.len() == 2 + session_id.spec_bytes().len() + ct@.len() + 32,
{
    let sid = session_id.as_bytes();
    proof {
        wire::lemma_be_bytes_len(sid@.len(), 2);
    }
    let mut out: Vec<u8> = Vec::new();
    wire::push_u16_be(&mut out, sid.len() as u16);
    out.extend_from_slice(sid);
    out.extend_from_slice(ct);
    out.extend_from_slice(x25519_pk);
    proof {
        assert(out@ =~= server_hello(sid@, ct@, x25519_pk@));
    }
    out
}

/// Reads the server's message.
pub fn parse_server_hello(data: &[u8]) -> (r: Result<(String, Vec<u8>, [u8; 32]), ServerHelloError>)
    requires
        data@.len() <= isize::MAX,
    ensures
        match server_hello_parts(data@) {
            Ok((sid, ct, pk)) => r matches Ok((s, c, p)) && s@ == sid && c@ == ct && p@ == pk,
            Err(e) => r == Err::<(String, Vec<u8>, [u8; 32]), ServerHelloError>(e),
        },
{
    if data.len() < 2 {
        return Err(ServerHelloError::TooShort);
    }
    let ct_start: usize = 2 + wire::read_u16_be(data) as usize;
    let ct_end: usize = ct_start + MLKEM_CT_LEN;
    if data.len() < ct_end + X25519_KEY_LEN {
        return Err(ServerHelloError::Truncated);
    }
    let sid: &str = match text::utf8_text(slice_subrange(data, 2, ct_start)) {
        Some(s) => s,
        None => {
            return Err(ServerHelloError::InvalidSessionId);
        },
    };
    proof {
        encode_utf8_decode_utf8(sid@);
    }
    let ct: Vec<u8> = slice_to_vec(slice_subrange(data, ct_start, ct_end));
    let pk: [u8; 32] = keys::array_32(slice_subrange(data, ct_end, ct_end + X25519_KEY_LEN));
    Ok((String::from_str(sid), ct, pk))
}

/// The client reads what the server wrote.
pub proof fn law_server_hello_roundtrip(session_id: Seq<char>, ct: Seq<u8>, x25519_pk: Seq<u8>)
    requires
        encode_utf8(session_id).len() <= 0xffff,
        ct.len() == MLKEM_CT_LEN,
        x25519_pk.len() == X25519_KEY_LEN,
    ensures
        server_hello_parts(server_hello(encode_utf8(session_id), ct, x25519_pk)) == Ok::<
            (Seq<char>, Seq<u8>, Seq<u8>),
            ServerHelloError,
        >((session_id, ct, x25519_pk)),
{
    let sid = encode_utf8(session_id);
    let data = server_hello(sid, ct, x25519_pk);
    let n = sid.len() as int;
    wire::lemma_base_pow_values();
    wire::law_be_roundtrip(sid.len(), 2);
    encode_utf8_valid_utf8(session_id);
    encode_utf8_decode_utf8(session_id);
    assert(data.take(2) =~= wire::be_bytes(sid.len(), 2));
    assert(data.subrange(2, 2 + n) =~= sid);
    assert(data.subrange(2 + n, 2 + n + 1088) =~= ct);
    assert(data.subrange(2 + n + 1088, 2 + n + 1120) =~= x25519_pk);
}

} // verus!
