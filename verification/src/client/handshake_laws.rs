//! What holds of every handshake, from both of its ends.
use crate::base64url;
use crate::buffer;
use crate::chars;
use crate::client::handshake;
use crate::client::handshake::{
    ClientHandshake, HandshakeError, HandshakeRequest, PqSessionTicket,
};
use crate::client::utils;
use crate::client::utils::{build_tunnel_cookie, encode_initial_payload, random_cookie};
use crate::crypto::cipher;
use crate::crypto::cipher::AesFrameCipher;
use crate::crypto::handshake as derived;
use crate::crypto::keys;
use crate::hello;
use crate::hello::{ClientHelloError, ServerHelloError};
use crate::server::handlers;
use crate::server::handlers::{
    compose_reply, finish_handshake, handle_fresh_handshake, read_client_hello, HandshakeRefusal,
    HandshakeReply,
};
use crate::server::masters::MasterStore;
use crate::server::utils as server_utils;
use crate::session::{open_target, TunnelRefusal};
use crate::shaper::frame;
use crate::shaper::frame::EncodingType;
use crate::shaper::laws;
use crate::shaper::{FrameCipher, FrameError, TrafficConfig};
use bytes::Bytes;
use vstd::prelude::*;
use vstd::string::*;
use vstd::utf8::*;

verus! {

/// The server reads the client's keys from a frame sealed under the handshake's key,
/// whatever the frame's number and padding, and whatever follows it.
pub proof fn law_client_keys_are_read(
    key: &[u8; 32],
    seal: AesFrameCipher,
    f: Seq<u8>,
    seq: u64,
    pad: nat,
    kem: Seq<u8>,
    x: Seq<u8>,
    rest: Seq<u8>,
    body: &[u8],
    encoding: EncodingType,
    r: Result<(Vec<u8>, [u8; 32]), HandshakeRefusal>,
)
    requires
        seal.key() == key@,
        frame::is_frame(f, encoding, Some(&seal), seq, hello::client_hello(kem, x), pad),
        hello::client_hello(kem, x).len() + pad <= frame::raw_limit(true, encoding),
        keys::mlkem_key_valid(kem),
        kem.len() == 1184,
        x.len() == 32,
        body@ == f + rest,
        call_ensures(read_client_hello, (key, body, encoding), r),
    ensures
        r is Ok,
        r->Ok_0.0@ == kem,
        r->Ok_0.1@ == x,
{
    laws::law_decode_frame(f, encoding, Some(&seal), seq, hello::client_hello(kem, x), pad, rest);
    hello::law_client_hello_roundtrip(kem, x);
}

/// A body that holds no whole frame, and one whose frame is not sealed under the key, is
/// no handshake.
pub proof fn law_bad_bodies_are_refused(
    key: &[u8; 32],
    body: &[u8],
    r: Result<(Vec<u8>, [u8; 32]), HandshakeRefusal>,
)
    requires
        call_ensures(read_client_hello, (key, body, EncodingType::Binary), r),
    ensures
        body@.len() < 2 ==> r is Err && r->Err_0 == HandshakeRefusal::NoFrame,
        ({
            let len = body@[0] * 256 + body@[1];
            let sealed = body@.subrange(2, 2 + len);
            &&& 2 <= body@.len() < 2 + len && len <= 16_422 ==> r is Err && r->Err_0
                == HandshakeRefusal::NoFrame
            &&& 2 <= body@.len() && len > 16_422 ==> r is Err && r->Err_0 == HandshakeRefusal::Frame(
                FrameError::BinaryTooLong,
            )
            &&& 2 <= body@.len() && 2 + len <= body@.len() && len < 28 ==> r is Err && r->Err_0
                == HandshakeRefusal::Frame(FrameError::CiphertextTooShort)
            &&& 2 <= body@.len() && 2 + len <= body@.len() && 28 <= len <= 16_422
                && cipher::aes_gcm_opened(key@, sealed.take(12), sealed.skip(12)) is None ==> r is Err
                && r->Err_0 == HandshakeRefusal::Frame(FrameError::DecryptionFailed)
        }),
{
    let s = body@;
    reveal_with_fuel(crate::wire::be_value, 3);
    if s.len() >= 2 {
        let two = s.take(2);
        assert(two.drop_last().drop_last() =~= Seq::empty());
        assert(crate::wire::be_value(two) == s[0] * 256 + s[1]);
    }
}

/// A session's master key is made of the secret that was encapsulated for the client's
/// key and the one that the two X25519 keys share. The answer tells the client, under the
/// handshake's key, the session's name, the ciphertext and the server's key.
pub proof fn law_reply_is_made_of_both_secrets(
    key: &[u8; 32],
    body: &[u8],
    traffic: &TrafficConfig,
    kem: Vec<u8>,
    x: [u8; 32],
    reply: HandshakeReply,
)
    requires
        call_ensures(
            read_client_hello,
            (key, body, traffic.encoding_type),
            Ok::<(Vec<u8>, [u8; 32]), HandshakeRefusal>((kem, x)),
        ),
        call_ensures(
            finish_handshake,
            (key, body, traffic),
            Ok::<HandshakeReply, HandshakeRefusal>(reply),
        ),
    ensures
        reply.session_id@.len() == 36,
        !reply.session_id@.contains(':'),
        exists|secrets: handlers::ReplySecrets, random: Seq<u8>|
            {
                &&& (secrets.ct, secrets.mlkem_ss) == #[trigger] keys::mlkem_encapsulated(
                    kem@,
                    random,
                )
                &&& reply.master@ == derived::initial_master(
                    secrets.mlkem_ss,
                    keys::x25519_shared(secrets.server_sk, x@),
                )
                &&& secrets.seal.key() == key@
                &&& #[trigger] frame::is_frame(
                    reply.frame@,
                    traffic.encoding_type,
                    Some(&secrets.seal),
                    0,
                    hello::server_hello(
                        encode_utf8(reply.session_id@),
                        secrets.ct,
                        keys::x25519_public(secrets.server_sk),
                    ),
                    secrets.pad,
                )
            },
{
    let (secrets, random) = choose|secrets: handlers::ReplySecrets, random: Seq<u8>|
        {
            &&& #[trigger] handlers::made_of(
                secrets,
                key@,
                x@,
                traffic.encoding_type,
                reply.session_id@,
                reply.master@,
                reply.frame@,
            )
            &&& #[trigger] handlers::encapsulates(kem@, random, secrets)
            &&& frame::is_drawn_padding(
                secrets.pad,
                hello::server_hello(
                    encode_utf8(reply.session_id@),
                    secrets.ct,
                    keys::x25519_public(secrets.server_sk),
                ).len(),
                frame::raw_limit(true, traffic.encoding_type) as nat,
                traffic.global,
            )
        };
    assert(handlers::is_reply(
        key@,
        kem@,
        x@,
        traffic.encoding_type,
        traffic.global,
        reply.session_id@,
        reply.master@,
        reply.frame@,
    ));
    assert((secrets.ct, secrets.mlkem_ss) == keys::mlkem_encapsulated(kem@, random));
}

/// The client takes the session's name and the master key from the server's answer,
/// whatever the number and the padding of its frame, and whatever follows.
pub proof fn law_reply_gives_ticket(
    c: &mut ClientHandshake,
    seal: AesFrameCipher,
    f: Seq<u8>,
    seq: u64,
    pad: nat,
    session_id: Seq<char>,
    ct: Seq<u8>,
    server_pk: Seq<u8>,
    rest: Seq<u8>,
    chunk: &[u8],
    r: Result<Option<PqSessionTicket>, HandshakeError>,
)
    requires
        seal.key() == old(c).key(),
        frame::is_frame(
            f,
            old(c).encoding_view(),
            Some(&seal),
            seq,
            hello::server_hello(encode_utf8(session_id), ct, server_pk),
            pad,
        ),
        hello::server_hello(encode_utf8(session_id), ct, server_pk).len() + pad <= frame::raw_limit(
            true,
            old(c).encoding_view(),
        ),
        encode_utf8(session_id).len() <= 0xffff,
        ct.len() == 1088,
        server_pk.len() == 32,
        old(c).waiting() + chunk@ == f + rest,
        call_ensures(ClientHandshake::on_reply, (c, chunk), r),
    ensures
        r is Ok && r->Ok_0 is Some,
        r->Ok_0->0.session_id@ == session_id,
        r->Ok_0->0.master@ == derived::initial_master(
            keys::mlkem_decapsulated(old(c).seed(), ct),
            keys::x25519_shared(old(c).secret(), server_pk),
        ),
{
    let message = hello::server_hello(encode_utf8(session_id), ct, server_pk);
    laws::law_decode_frame(f, old(c).encoding_view(), Some(&seal), seq, message, pad, rest);
    hello::law_server_hello_roundtrip(session_id, ct, server_pk);
}

/// An answer that has not come whole is kept, and the rest is awaited.
pub proof fn law_partial_reply_waits(
    c: &mut ClientHandshake,
    chunk: &[u8],
    r: Result<Option<PqSessionTicket>, HandshakeError>,
)
    requires
        call_ensures(ClientHandshake::on_reply, (c, chunk), r),
        old(c).encoding_view() == EncodingType::Binary,
        (old(c).waiting() + chunk@).len() < 2,
    ensures
        r is Ok && r->Ok_0 is None,
        final(c).waiting() == old(c).waiting() + chunk@,
{
}

/// The two ends of a handshake agree: a request that the client has made is accepted by
/// the server that the public key belongs to, and its answer gives the client the session
/// and the master key that the server keeps for the user.
pub proof fn law_handshake_agrees(
    server_sk: &[u8; 32],
    server_pk: &[u8; 32],
    traffic: &TrafficConfig,
    hs: ClientHandshake,
    request: HandshakeRequest,
    header: &[u8],
    body: &[u8],
    user: &str,
    masters: &mut MasterStore,
    now: u64,
    served: Result<HandshakeReply, HandshakeRefusal>,
    c: &mut ClientHandshake,
    chunk: &[u8],
    r: Result<Option<PqSessionTicket>, HandshakeError>,
)
    requires
        server_pk@ == keys::x25519_public(server_sk@),
        call_ensures(
            ClientHandshake::begin,
            (server_pk, traffic),
            Ok::<(ClientHandshake, HandshakeRequest), HandshakeError>((hs, request)),
        ),
        header@ == encode_utf8(request.cookie@),
        body@ == request.body@,
        call_ensures(
            handle_fresh_handshake,
            (Some(server_sk), Some(header), body, traffic, user, masters, now),
            served,
        ),
        *old(c) == hs,
        served is Ok ==> chunk@ == served->Ok_0.frame@,
        call_ensures(ClientHandshake::on_reply, (c, chunk), r),
        forall|random: Seq<u8>|
            keys::mlkem_decapsulated(
                hs.seed(),
                (#[trigger] keys::mlkem_encapsulated(keys::mlkem_public(hs.seed()), random)).0,
            ) == keys::mlkem_encapsulated(keys::mlkem_public(hs.seed()), random).1,
    ensures
        served is Ok,
        r is Ok && r->Ok_0 is Some,
        r->Ok_0->0.session_id@ == served->Ok_0.session_id@,
        r->Ok_0->0.master@ == served->Ok_0.master@,
        final(masters).entries() == old(masters).entries().insert(
            served->Ok_0.session_id@,
            (user@, served->Ok_0.master@, now),
        ),
{
    let eph = choose|eph: Seq<char>|
        utils::is_padded_cookie(request.cookie@, "eph_pk_a"@, eph) && #[trigger] handshake::offers(
            eph,
            server_pk@,
            hs.key(),
        );
    let name = "eph_pk_a"@;
    let pad = choose|pad: nat|
        16 <= pad < 34 && request.cookie@ == #[trigger] utils::padded_cookie(name, eph, pad);
    reveal_strlit("eph_pk_a");
    assert forall|i: int| 0 <= i < eph.len() implies #[trigger] eph[i] != ';' && !chars::is_white(
        eph[i],
    ) by {
        assert(base64url::is_alphabet(eph[i]));
    }
    utils::law_cookie_is_read(name, eph, pad);
    encode_utf8_valid_utf8(request.cookie@);
    encode_utf8_decode_utf8(request.cookie@);
    assert(server_utils::cookie_value(decode_utf8(header@), name) == Some(eph));
    assert(handlers::first_key_cookie(Some(header@)) == Some(eph));
    assert(server_pk@ == keys::x25519_public(server_sk@));
    assert(handlers::key_for_handshake(Some(server_sk@), Some(eph)) == Ok::<
        Seq<u8>,
        HandshakeRefusal,
    >(hs.key()));
    let kem = keys::mlkem_public(hs.seed());
    let x = keys::x25519_public(hs.secret());
    let reply = served->Ok_0;
    assert(handlers::is_reply(
        hs.key(),
        kem,
        x,
        traffic.encoding_type,
        traffic.global,
        reply.session_id@,
        reply.master@,
        reply.frame@,
    ));
    let (secrets, random) = choose|secrets: handlers::ReplySecrets, random: Seq<u8>|
        {
            &&& #[trigger] handlers::made_of(
                secrets,
                hs.key(),
                x,
                traffic.encoding_type,
                reply.session_id@,
                reply.master@,
                reply.frame@,
            )
            &&& #[trigger] handlers::encapsulates(kem, random, secrets)
            &&& frame::is_drawn_padding(
                secrets.pad,
                hello::server_hello(
                    encode_utf8(reply.session_id@),
                    secrets.ct,
                    keys::x25519_public(secrets.server_sk),
                ).len(),
                frame::raw_limit(true, traffic.encoding_type) as nat,
                traffic.global,
            )
        };
    assert(keys::mlkem_encapsulated(kem, random) == (secrets.ct, secrets.mlkem_ss));
    assert(keys::mlkem_decapsulated(hs.seed(), secrets.ct) == secrets.mlkem_ss);
    assert(old(c).waiting() + chunk@ =~= reply.frame@ + Seq::<u8>::empty());
}

/// The target of a cookie is text sealed under the target's key; what does not decode,
/// does not open, or is no text is refused, each in its own words.
pub proof fn law_targets_are_opened(
    master: Seq<u8>,
    stream_id: Seq<u8>,
    target_key: &[u8; 32],
    part: &str,
    r: Result<String, TunnelRefusal>,
)
    requires
        target_key@ == derived::connection_secret(master, stream_id).subrange(64, 96),
        call_ensures(open_target, (target_key, part), r),
    ensures
        match base64url::base64_decoded(part@) {
            Err(_) => r is Err && r->Err_0 == TunnelRefusal::CookieEncoding,
            Ok(sealed) => match cipher::opened_payload(target_key@, sealed) {
                Err(_) => r is Err && r->Err_0 == TunnelRefusal::TargetSealed,
                Ok(bytes) => if valid_utf8(bytes) {
                    r is Ok && r->Ok_0@ == decode_utf8(bytes)
                } else {
                    r is Err && r->Err_0 == TunnelRefusal::TargetUtf8
                },
            },
        },
{
    assert(target_key@ == derived::connection_secret(master, stream_id).subrange(64, 96));
}

/// The first bytes of a connection go out in pieces of a frame each; those beyond what
/// may go out are left over, and nothing is lost between.
pub proof fn law_first_bytes_are_framed<C: FrameCipher + ?Sized>(
    payload: &[u8],
    max_bytes: usize,
    cipher: Option<&C>,
    config: &TrafficConfig,
    body: Vec<u8>,
    left: Bytes,
    next: u64,
)
    requires
        call_ensures(
            encode_initial_payload::<C>,
            (payload, max_bytes, cipher, config),
            Ok::<(Vec<u8>, Bytes, u64), FrameError>((body, left, next)),
        ),
    ensures
        ({
            let sent = if payload@.len() <= max_bytes {
                payload@
            } else {
                payload@.take(max_bytes as int)
            };
            &&& sent + buffer::frozen(left) == payload@
            &&& 16_384 * (next - 1) < sent.len() <= 16_384 * next || (sent.len() == 0 && next == 0)
            &&& exists|chunks: Seq<Seq<u8>>|
                {
                    &&& chunks.len() == next
                    &&& chunks.flatten() == sent
                    &&& #[trigger] laws::is_padded_stream(
                        body@,
                        config.encoding_type,
                        cipher,
                        0,
                        chunks,
                        config.global,
                    )
                }
        }),
{
    let sent = utils::head(payload@, max_bytes as nat);
    utils::law_pieces_join(sent);
    assert(sent + payload@.skip(sent.len() as int) =~= payload@);
    assert(laws::is_padded_stream(
        body@,
        config.encoding_type,
        cipher,
        0,
        utils::pieces(sent),
        config.global,
    ));
}

/// A cookie is padded by sixteen characters or more, and by fewer than thirty-four.
pub proof fn law_cookies_are_padded(name: &str, value: &str, r: String, buf: &mut String)
    requires
        call_ensures(random_cookie, (name, value), r),
        call_ensures(build_tunnel_cookie, (buf, value), ()),
    ensures
        name@.len() + value@.len() + 19 <= r@.len() < name@.len() + value@.len() + 37,
        r@.take(name@.len() as int) == name@,
        r@[name@.len() as int] == '=',
        r@.subrange(name@.len() as int + 1, name@.len() as int + 1 + value@.len()) == value@,
        final(buf)@.take(8) == "session="@,
        final(buf)@.subrange(8, 8int + value@.len()) == value@,
        value@.len() + 26 <= final(buf)@.len() < value@.len() + 44,
{
    reveal_strlit("=");
    reveal_strlit("; ");
    reveal_strlit("session");
    reveal_strlit("session=");
    reveal_strlit("padding=XXXXXXXXXXXXXXXXXXXXXXXXXX");
    let n = name@.len() as int;
    let m = value@.len() as int;
    assert(r@.take(n) =~= name@);
    assert(r@.subrange(n + 1, n + 1 + m) =~= value@);
    assert(final(buf)@.take(8) =~= "session="@);
    assert(final(buf)@.subrange(8, 8 + m) =~= value@);
}

} // verus!
