//! What holds of every request that the server decides on.
use crate::chars;
use crate::decimal;
use crate::error::ServerError;
use crate::server::handlers;
use crate::server::handlers::{
    ack_answer, admit_tunnel, authorize_tunnel, begin_handshake, dispatch_answer, dispatch_route,
    extract_bearer, plaintext_session, plaintext_target, setup_answer, token_claims, AckOutcome,
    BatchEnd, Claims, DispatchFailure, HandshakeRefusal, Route, SetupFailure, TunnelGrant,
    UploadBatch,
};
use crate::server::masters::{prune_expired_masters, stream_cutoff, MasterStore};
use crate::server::nonce_registry::{NonceConsumedError, NonceQueryResult, NonceRegistry};
use crate::server::state::{
    DownloadStream, DropAction, ReadGate, ReadOutcome, SourceAccess, SourceItem, UploadStream,
};
use crate::server::tunnel::DownloadSegment;
use crate::server::utils;
use crate::server::utils::{extract_cookie_value, padding_of};
use crate::session;
use crate::session::{seal_session_cookie, TunnelRefusal};
use crate::shaper::FrameError;
use vstd::prelude::*;
use vstd::string::*;
use vstd::utf8::*;

verus! {

/// A request with a target header and a cookie that holds no colon is one for an
/// unencrypted tunnel, whatever tunnels run and whatever sessions there are; so is
/// one with a target header and no cookie.
pub proof fn law_plain_requests_stay_plain(
    cookie: Option<&str>,
    tunnel_runs: bool,
    masters: &MasterStore,
    r: Route,
)
    requires
        call_ensures(dispatch_route, (true, cookie, tunnel_runs, masters), r),
        cookie is Some ==> forall|i: int| 0 <= i < cookie->0@.len() ==> cookie->0@[i] != ':',
    ensures
        r == Route::Plaintext,
{
    if cookie is Some && cookie->0@.contains(':') {
        let i = choose|i: int| 0 <= i < cookie->0@.len() && cookie->0@[i] == ':';
        assert(cookie->0@[i] != ':');
    }
}

/// Nothing else is one: a request without a target header, or with a cookie that
/// holds a colon, never goes to an unencrypted tunnel.
pub proof fn law_sealed_requests_stay_sealed(
    has_target: bool,
    cookie: Option<&str>,
    tunnel_runs: bool,
    masters: &MasterStore,
    i: int,
    r: Route,
)
    requires
        call_ensures(dispatch_route, (has_target, cookie, tunnel_runs, masters), r),
        !has_target || (cookie is Some && 0 <= i < cookie->0@.len() && cookie->0@[i] == ':'),
    ensures
        r != Route::Plaintext,
{
    if has_target {
        assert(cookie->0@.contains(cookie->0@[i]));
    }
}

/// A cookie whose tunnel runs leads there, and else opens a tunnel of its session,
/// where the session is known. Without a cookie a session is made.
pub proof fn law_cookie_leads_to_session(
    cookie: Option<&str>,
    sid: Seq<char>,
    rest: Seq<char>,
    tunnel_runs: bool,
    masters: &MasterStore,
    r: Route,
)
    requires
        call_ensures(dispatch_route, (false, cookie, tunnel_runs, masters), r),
        !sid.contains(':'),
        cookie is Some ==> cookie->0@ == sid || cookie->0@ == sid + seq![':'] + rest,
    ensures
        cookie is None ==> r == Route::Handshake,
        cookie is Some && tunnel_runs ==> r == Route::Tunnel,
        cookie is Some && !tunnel_runs && masters.entries().contains_key(sid) ==> r == Route::Spawn,
        cookie is Some && !tunnel_runs && !masters.entries().contains_key(sid) ==> r
            == Route::SessionNotFound,
{
    if cookie is Some {
        let c = cookie->0@;
        c.index_of_first_ensures(':');
        if c != sid {
            let i = sid.len() as int;
            assert forall|j: int| 0 <= j < i implies c[j] != ':' by {
                assert(sid.contains(sid[j]));
            }
            chars::lemma_first_index(c, ':', i);
            assert(c.take(i) =~= sid);
        }
    }
}

/// The cookie that was sealed for a target opens a tunnel to it, under the keys of
/// its stream, where the session is known and its key is no older than it may be
/// and the stream number is new. The host and the port are those that the target
/// was written with.
pub proof fn law_sealed_cookie_reaches_target(
    master: &[u8; 32],
    session_id: &str,
    stream_id: &[u8; 16],
    target: &str,
    host: Seq<char>,
    port: u16,
    cookie: String,
    presented: &str,
    masters: &mut MasterStore,
    nonces: &mut NonceRegistry,
    now: u64,
    r: Result<TunnelGrant, TunnelRefusal>,
)
    requires
        call_ensures(
            seal_session_cookie,
            (master, session_id, stream_id, target),
            Ok::<String, FrameError>(cookie),
        ),
        call_ensures(authorize_tunnel, (presented, masters, nonces, now), r),
        presented@ == cookie@,
        target@ == host + seq![':'] + decimal::decimal(port as nat),
        !session_id@.contains(':'),
        old(masters).entries().contains_key(session_id@),
        old(masters).entries()[session_id@].1 == master@,
        now <= old(masters).entries()[session_id@].2 + 1200,
        !old(nonces).entries().contains_key((session_id@, stream_id@)),
    ensures
        r matches Ok(grant) && grant.host@ == host && grant.port == port && grant.target@ == target@
            && grant.session_id@ == session_id@ && grant.stream_id@ == stream_id@ && grant.user@
            == old(masters).entries()[session_id@].0,
        final(nonces).entries().contains_key((session_id@, stream_id@)),
        final(masters).entries() == old(masters).entries(),
{
    let entry = old(masters).entries()[session_id@];
    assert(old(masters).entries().get(session_id@) == Some(entry));
    let (target_part, stream_part) = choose|target_part: Seq<char>, stream_part: Seq<char>|
        {
            &&& cookie@ == session_id@ + seq![':'] + target_part + seq![':'] + stream_part
            &&& #[trigger] session::opened_target(master@, stream_id@, target_part) == Ok::<
                Seq<char>,
                TunnelRefusal,
            >(target@)
            &&& #[trigger] session::opened_stream(master@, stream_part) == Ok::<
                Seq<u8>,
                TunnelRefusal,
            >(stream_id@)
            &&& (!session_id@.contains(':') ==> session::cookie_parts(cookie@) == Some(
                (session_id@, target_part, stream_part),
            ))
        };
    session::lemma_host_and_port(host, port as nat);
    assert(old(nonces).entries().get((session_id@, stream_id@)) is None);
}

/// A cookie is refused, and nothing is claimed for it, where it has not three
/// parts, where its session is unknown, and where the session's key is older than
/// twenty minutes. Such a key is forgotten, and no other.
pub proof fn law_stale_cookies_are_refused(
    cookie: &str,
    sid: Seq<char>,
    target_part: Seq<char>,
    stream_part: Seq<char>,
    masters: &mut MasterStore,
    nonces: &mut NonceRegistry,
    now: u64,
    r: Result<TunnelGrant, TunnelRefusal>,
)
    requires
        call_ensures(authorize_tunnel, (cookie, masters, nonces, now), r),
        !sid.contains(':'),
        !target_part.contains(':'),
        cookie@ == sid || cookie@ == sid + seq![':'] + target_part || cookie@ == sid + seq![':']
            + target_part + seq![':'] + stream_part,
    ensures
        ({
            let whole = cookie@ == sid + seq![':'] + target_part + seq![':'] + stream_part;
            let known = old(masters).entries().contains_key(sid);
            let created = old(masters).entries()[sid].2;
            &&& !whole ==> r == Err::<TunnelGrant, TunnelRefusal>(TunnelRefusal::CookieFormat)
            &&& whole && !known ==> r == Err::<TunnelGrant, TunnelRefusal>(
                TunnelRefusal::SessionNotFound,
            )
            &&& whole && known && now > created + 1200 ==> r == Err::<TunnelGrant, TunnelRefusal>(
                TunnelRefusal::MasterExpired,
            ) && final(masters).entries() == old(masters).entries().remove(sid)
            &&& !whole || !known || now > created + 1200 ==> final(nonces).entries() == old(nonces).entries()
            &&& !(whole && known && now > created + 1200) ==> final(masters).entries() == old(masters).entries()
        }),
{
    let c = cookie@;
    c.index_of_first_ensures(':');
    let i = sid.len() as int;
    if c != sid {
        assert forall|j: int| 0 <= j < i implies c[j] != ':' by {
            assert(sid.contains(sid[j]));
        }
        assert(c[i] == ':');
        chars::lemma_first_index(c, ':', i);
        assert(c.take(i) =~= sid);
        let rest = c.skip(i + 1);
        if c == sid + seq![':'] + target_part + seq![':'] + stream_part {
            let k = target_part.len() as int;
            assert forall|j: int| 0 <= j < k implies rest[j] != ':' by {
                assert(rest[j] == target_part[j]);
                assert(target_part.contains(target_part[j]));
            }
            assert(rest[k] == ':');
            chars::lemma_first_index(rest, ':', k);
            assert(rest.take(k) =~= target_part);
        } else {
            assert(rest =~= target_part);
            rest.index_of_first_ensures(':');
        }
    } else {
        if c == sid + seq![':'] + target_part + seq![':'] + stream_part {
            assert(c[i] == ':');
        }
    }
}

/// A stream number that was claimed before is refused, and differently once it is
/// spent; nothing is claimed a second time.
pub proof fn law_claimed_numbers_are_refused(
    registry: &mut NonceRegistry,
    session_id: &str,
    nonce: &[u8; 16],
    r: Result<bool, NonceConsumedError>,
)
    requires
        call_ensures(NonceRegistry::try_claim, (registry, session_id, nonce), r),
    ensures
        ({
            let before = old(registry).entries();
            let key = (session_id@, nonce@);
            &&& !before.contains_key(key) ==> r is Ok && r->Ok_0 && final(registry).entries()
                == before.insert(key, false)
            &&& before.contains_key(key) && !before[key] ==> r is Ok && !r->Ok_0
            &&& before.contains_key(key) && before[key] ==> r is Err
            &&& before.contains_key(key) ==> final(registry).entries() == before
        }),
{
}

/// Marking a number spent touches that number, and only where it was claimed.
pub proof fn law_only_claimed_numbers_are_spent(
    registry: &mut NonceRegistry,
    session_id: &str,
    nonce: &[u8; 16],
    key: (Seq<char>, Seq<u8>),
)
    requires
        call_ensures(NonceRegistry::mark_consumed, (registry, session_id, nonce), ()),
    ensures
        final(registry).entries().contains_key(key) <==> old(registry).entries().contains_key(key),
        key != (session_id@, nonce@) && old(registry).entries().contains_key(key) ==> final(registry).entries()[key] == old(registry).entries()[key],
        key == (session_id@, nonce@) && old(registry).entries().contains_key(key) ==> final(registry).entries()[key],
{
}

/// Looking a number up says of it what was done with it.
pub proof fn law_numbers_are_known_by_use(
    registry: &NonceRegistry,
    session_id: &str,
    nonce: &[u8; 16],
    r: NonceQueryResult,
)
    requires
        call_ensures(NonceRegistry::check_nonce, (registry, session_id, nonce), r),
    ensures
        ({
            let m = registry.entries();
            let key = (session_id@, nonce@);
            &&& r == NonceQueryResult::Fresh <==> !m.contains_key(key)
            &&& r == NonceQueryResult::Active <==> m.contains_key(key) && !m[key]
            &&& r == NonceQueryResult::Consumed <==> m.contains_key(key) && m[key]
        }),
{
}

/// A session that is removed takes its numbers with it, and no others.
pub proof fn law_numbers_go_with_session(
    registry: &mut NonceRegistry,
    session_id: &str,
    key: (Seq<char>, Seq<u8>),
)
    requires
        call_ensures(NonceRegistry::remove_session, (registry, session_id), ()),
    ensures
        key.0 == session_id@ ==> !final(registry).entries().contains_key(key),
        key.0 != session_id@ ==> (final(registry).entries().contains_key(key) <==> old(registry).entries().contains_key(key)),
        key.0 != session_id@ && old(registry).entries().contains_key(key) ==> final(registry).entries()[key] == old(registry).entries()[key],
{
}

/// A key that is twenty minutes old is forgotten, a younger one is kept as it is.
pub proof fn law_old_keys_are_forgotten(
    store: &mut MasterStore,
    now: u64,
    sid: Seq<char>,
    pruned: usize,
)
    requires
        call_ensures(prune_expired_masters, (store, now), pruned),
        old(store).entries().contains_key(sid),
    ensures
        now >= old(store).entries()[sid].2 + 1200 ==> !final(store).entries().contains_key(sid),
        now < old(store).entries()[sid].2 + 1200 ==> final(store).entries().contains_key(sid)
            && final(store).entries()[sid] == old(store).entries()[sid],
{
}

/// Pruning makes no sessions up, and counts those that it forgets.
pub proof fn law_pruning_adds_nothing(
    store: &mut MasterStore,
    now: u64,
    sid: Seq<char>,
    pruned: usize,
)
    requires
        call_ensures(prune_expired_masters, (store, now), pruned),
        !old(store).entries().contains_key(sid),
    ensures
        !final(store).entries().contains_key(sid),
        pruned + final(store).entries().dom().len() == old(store).entries().dom().len(),
{
}

/// Stream numbers are kept as long as a key lives.
pub proof fn law_cutoff_lies_back(now: u64, r: u64)
    requires
        call_ensures(stream_cutoff, (now,), r),
    ensures
        now >= 1200 ==> r + 1200 == now,
        now < 1200 ==> r == 0,
{
}

/// A stream is idle once more than two minutes have passed since something
/// happened, and a rotated download is left once more than ten seconds have
/// passed since; what lies ahead has not passed.
pub proof fn law_streams_time_out(s: &UploadStream, now: u64, idle: bool, stale: bool)
    requires
        call_ensures(UploadStream::is_idle, (s, now), idle),
        call_ensures(UploadStream::is_rotation_stale, (s, now), stale),
    ensures
        idle <==> now > s.active_at() + 120,
        stale <==> s.rotated_at() != 0 && now > s.rotated_at() + 10,
{
}

/// A segment is full when as many bytes were sent as it takes; one without a limit
/// never is.
pub proof fn law_segment_fills_up(s: &mut DownloadSegment, len: usize, r: bool)
    requires
        call_ensures(DownloadSegment::on_sent, (s, len), r),
    ensures
        final(s).sent() == old(s).sent() + len,
        final(s).limit() == old(s).limit(),
        old(s).limit() is None ==> !r,
        old(s).limit() is Some ==> (r <==> final(s).sent() >= old(s).limit()->0),
{
}

/// A download reads its source when it was let in, is not over, the stream runs
/// and the source is there, and only then.
pub proof fn law_download_reads_in_turn(
    d: &mut DownloadStream,
    let_in: bool,
    shutdown: bool,
    source: SourceAccess,
    r: ReadGate,
)
    requires
        call_ensures(DownloadStream::gate, (d, let_in, shutdown, source), r),
    ensures
        ({
            let before = old(d).model();
            let after = final(d).model();
            let enters = !before.waits || let_in;
            &&& r == ReadGate::Read <==> enters && !before.done && !shutdown && source
                == SourceAccess::Available
            &&& r == ReadGate::Wait <==> !enters
            &&& r == (ReadGate::End { release: true }) <==> enters && !before.done && (shutdown
                || source == SourceAccess::Taken)
            &&& r == (ReadGate::End { release: false }) <==> enters && (before.done || (!shutdown
                && source == SourceAccess::Poisoned))
            &&& after.done <==> before.done || r is End
            &&& after.waits <==> before.waits && !let_in
            &&& after.rotated == before.rotated
            &&& after.sent == before.sent
            &&& after.limit == before.limit
        }),
{
}

/// A download ends with an error, with the end of its source, and with the frame
/// that fills it. Only the last is a rotation, after which the stream is kept.
pub proof fn law_download_ends(
    d: &mut DownloadStream,
    item: SourceItem,
    r: ReadOutcome,
    left: DropAction,
)
    requires
        call_ensures(DownloadStream::on_item, (d, item), r),
        call_ensures(DownloadStream::drop_action, (&*final(d),), left),
        !old(d).model().rotated,
        !old(d).model().done,
    ensures
        ({
            let before = old(d).model();
            let after = final(d).model();
            &&& item == SourceItem::Error ==> r == ReadOutcome::Fail
            &&& item == SourceItem::End ==> r == ReadOutcome::End
            &&& item == SourceItem::Pending ==> r == ReadOutcome::Wait
            &&& item is Frame ==> after.sent == before.sent + item->len
            &&& item !is Frame ==> after.sent == before.sent
            &&& item is Frame && before.limit is Some && after.sent >= before.limit->0 ==> r
                == ReadOutcome::EmitAndRotate
            &&& item is Frame && (before.limit is None || after.sent < before.limit->0) ==> r
                == ReadOutcome::Emit
            &&& after.done <==> r == ReadOutcome::Fail || r == ReadOutcome::End || r
                == ReadOutcome::EmitAndRotate
            &&& left == DropAction::Keep <==> r == ReadOutcome::EmitAndRotate
            &&& left == DropAction::TearDown <==> r != ReadOutcome::EmitAndRotate
            &&& after.waits == before.waits
            &&& after.limit == before.limit
        }),
{
}

/// A token is what stands behind `Bearer `, all of it, and nothing is one without.
pub proof fn law_token_stands_behind_scheme(
    header: Option<&str>,
    token: Seq<char>,
    r: Option<String>,
)
    requires
        call_ensures(extract_bearer, (header,), r),
    ensures
        header is None ==> r is None,
        header is Some && header->0@ == "Bearer "@ + token ==> r is Some && r->0@ == token,
        header is Some && (header->0@.len() < 7 || header->0@.take(7) != "Bearer "@) ==> r is None,
{
    reveal_strlit("Bearer ");
    if header is Some {
        let h = header->0@;
        if h == "Bearer "@ + token {
            assert("Bearer "@.is_prefix_of(h));
            assert(h.skip(7) =~= token);
        }
        if h.len() >= 7 && "Bearer "@.is_prefix_of(h) {
            assert(h.take(7) =~= "Bearer "@);
        }
    }
}

/// A token speaks for its subject where both its subject and its expiry are there,
/// and is answered 401 otherwise.
pub proof fn law_claims_need_both(
    sub: Option<String>,
    exp: Option<u64>,
    none: Result<Claims, ServerError>,
    r: Result<Claims, ServerError>,
)
    requires
        call_ensures(token_claims, (Some((sub, exp)),), r),
        call_ensures(token_claims, (None::<(Option<String>, Option<u64>)>,), none),
    ensures
        r is Ok <==> sub is Some && exp is Some,
        r is Ok ==> r->Ok_0.sub == sub->0 && r->Ok_0.exp == exp->0,
        r is Err ==> r->Err_0.0 == 401,
        none is Err && none->Err_0.0 == 401,
{
}

/// The number that a batch of frames reaches up to is one of theirs, and none of
/// them is higher.
pub proof fn law_batch_reaches_highest(seqs: Seq<u64>)
    requires
        seqs.len() > 0,
    ensures
        seqs.contains(handlers::highest(seqs)),
        forall|i: int| 0 <= i < seqs.len() ==> seqs[i] <= handlers::highest(seqs),
    decreases seqs.len(),
{
    let front = seqs.drop_last();
    assert(seqs[seqs.len() - 1] == seqs.last());
    if front.len() > 0 {
        law_batch_reaches_highest(front);
        let k = choose|k: int| 0 <= k < front.len() && front[k] == handlers::highest(front);
        assert(seqs[k] == front[k]);
        assert forall|i: int| 0 <= i < seqs.len() implies seqs[i] <= handlers::highest(seqs) by {
            if i < front.len() {
                assert(front[i] == seqs[i]);
            }
        }
    }
}

/// A request that carried no frame continues the download, and one with frames asks for
/// the highest number among them.
pub proof fn law_batch_ends_with_highest(b: &UploadBatch, seqs: Seq<u64>, r: BatchEnd)
    requires
        call_ensures(UploadBatch::end, (b,), r),
        b.saw(seqs),
    ensures
        seqs.len() == 0 ==> r == BatchEnd::Continue,
        seqs.len() > 0 ==> {
            &&& r matches BatchEnd::Eos { max_seq }
            &&& seqs.contains(max_seq)
            &&& forall|i: int| 0 <= i < seqs.len() ==> seqs[i] <= max_seq
        },
{
    if seqs.len() > 0 {
        law_batch_reaches_highest(seqs);
        assert(r == (BatchEnd::Eos { max_seq: handlers::highest(seqs) }));
    }
}

/// A batch begins with no frame, and sees every frame that it is told of.
pub proof fn law_batch_sees_every_frame(
    fresh: UploadBatch,
    b: &mut UploadBatch,
    seq: u64,
    seqs: Seq<u64>,
)
    requires
        call_ensures(UploadBatch::new, (), fresh),
        call_ensures(UploadBatch::on_frame, (b, seq), ()),
        old(b).saw(seqs),
        seqs.len() < u64::MAX,
    ensures
        fresh.saw(Seq::empty()),
        final(b).saw(seqs.push(seq)),
{
}

/// The target of an unencrypted tunnel is read as it was written; none is a bad
/// request, as is one without a good port.
pub proof fn law_plain_target_is_read(
    target: &str,
    host: Seq<char>,
    port: u16,
    r: Result<(String, u16), ServerError>,
    none: Result<(String, u16), ServerError>,
)
    requires
        call_ensures(plaintext_target, (Some(target),), r),
        call_ensures(plaintext_target, (None::<&str>,), none),
    ensures
        target@ == host + seq![':'] + decimal::decimal(port as nat) ==> (r matches Ok((h, p)) && h@
            == host && p == port),
        !target@.contains(':') ==> r is Err,
        r is Err ==> r->Err_0.0 == 400,
        none is Err && none->Err_0.0 == 400,
{
    session::lemma_host_and_port(host, port as nat);
    target@.index_of_last_ensures(':');
}

/// An unencrypted tunnel is named by its cookie.
pub proof fn law_plain_tunnel_keeps_its_name(cookie: String, r: String)
    requires
        call_ensures(plaintext_session, (Some(cookie),), r),
    ensures
        r == cookie,
{
}

/// Tunnels are admitted below the limit and refused with 503 from the limit on.
pub proof fn law_tunnels_are_limited(running: usize, max: usize, r: Result<(), ServerError>)
    requires
        call_ensures(admit_tunnel, (running, max), r),
    ensures
        running < max ==> r is Ok,
        running >= max ==> r is Err && r->Err_0.0 == 503,
{
}

/// A request that was broken off is answered by whose fault it was: 400 for a frame
/// that could not be read, 502 for a tunnel that has closed or a target that could
/// not be reached, 504 for what took too long.
pub proof fn law_failures_are_answered(
    dispatch: DispatchFailure,
    setup: SetupFailure,
    outcome: AckOutcome,
    a: ServerError,
    b: ServerError,
    c: Result<(), ServerError>,
)
    requires
        call_ensures(dispatch_answer, (dispatch,), a),
        call_ensures(setup_answer, (setup,), b),
        call_ensures(ack_answer, (outcome,), c),
    ensures
        dispatch is Decode ==> a.0 == 400,
        dispatch is Closed ==> a.0 == 502,
        setup is ConnectTimeout ==> b.0 == 504,
        setup is Connect ==> b.0 == 502,
        setup is Decode ==> b.0 == 400,
        setup is UploadClosed ==> b.0 == 502,
        c is Ok <==> outcome is Done,
        outcome is Closed ==> c->Err_0.0 == 502,
        outcome is TimedOut ==> c->Err_0.0 == 504,
        outcome is Failed ==> c == Err::<(), ServerError>(outcome->Failed_0),
{
}

/// A handshake needs a cookie with the client's key, of the right length, and a
/// server with a key of its own.
pub proof fn law_handshake_needs_keys(
    private_key: Option<&[u8; 32]>,
    cookie: Option<&str>,
    r: Result<[u8; 32], HandshakeRefusal>,
)
    requires
        call_ensures(begin_handshake, (private_key, cookie), r),
    ensures
        cookie is None ==> r == Err::<[u8; 32], HandshakeRefusal>(HandshakeRefusal::MissingCookie),
        r is Ok ==> private_key is Some && cookie is Some,
        cookie is Some && private_key is None ==> r is Err && r->Err_0
            != HandshakeRefusal::MissingCookie,
        ({
            let public = crate::base64url::base64_decoded(cookie->0@);
            &&& cookie is Some && public is Err ==> r == Err::<[u8; 32], HandshakeRefusal>(
                HandshakeRefusal::CookieEncoding,
            )
            &&& cookie is Some && public is Ok && public->Ok_0.len() != 32 ==> r == Err::<
                [u8; 32],
                HandshakeRefusal,
            >(HandshakeRefusal::CookieLength)
            &&& cookie is Some && public is Ok && public->Ok_0.len() == 32 && private_key is None
                ==> r == Err::<[u8; 32], HandshakeRefusal>(HandshakeRefusal::NoPrivateKey)
            &&& cookie is Some && public is Ok && public->Ok_0.len() == 32 && private_key is Some
                ==> r is Ok
        }),
{
}

/// A cookie is found behind another one, whatever that is named and holds.
pub proof fn law_cookie_behind_another(
    header: &[u8],
    text: Seq<char>,
    first: Seq<char>,
    key: &str,
    value: Seq<char>,
    rest: Seq<char>,
    r: Option<String>,
)
    requires
        call_ensures(extract_cookie_value, (Some(header), key), r),
        header@ == encode_utf8(text),
        text == first + seq![';', ' '] + key@ + seq!['='] + value || text == first + seq![';', ' ']
            + key@ + seq!['='] + value + seq![';'] + rest,
        first.len() > 0,
        first[0] != ' ',
        !first.contains(';'),
        key@.len() > 0,
        key@[0] != ' ',
        key@[0] != ';',
        !key@.push('=').is_prefix_of(first),
        !key@.contains('='),
        !key@.contains(';'),
        forall|i: int|
            0 <= i < value.len() ==> #[trigger] value[i] != ';' && !chars::is_white(value[i]),
    ensures
        r is Some && r->0@ == value,
{
    encode_utf8_valid_utf8(text);
    encode_utf8_decode_utf8(text);
    let k = key@;
    let n = first.len() as int;
    assert(text[0] == first[0]);
    assert(first[0] != ';') by {
        if first[0] == ';' {
            assert(first.contains(first[0]));
        }
    }
    assert(utils::skip_separators(text) == text);
    assert forall|j: int| 0 <= j < n implies text[j] != ';' by {
        assert(text[j] == first[j]);
        assert(first.contains(first[j]));
    }
    assert(text[n] == ';');
    chars::lemma_first_index(text, ';', n);
    if k.push('=').is_prefix_of(text) {
        let p = k.push('=');
        if p.len() <= n {
            assert(text.take(p.len() as int) =~= first.take(p.len() as int));
            assert(p.is_prefix_of(first));
        } else {
            assert(p[n] == text[n]);
            if n < k.len() {
                assert(k[n] == ';');
                assert(k.contains(k[n]));
            } else {
                assert(p[n] == '=');
            }
        }
    }
    let tail = text.skip(n + 1);
    assert(tail[0] == ' ');
    let item = text.skip(n + 2);
    assert(tail.skip(1) =~= item);
    assert(item[0] == k[0]);
    reveal_with_fuel(utils::skip_separators, 3);
    assert(utils::skip_separators(tail) == item);
    assert(item.take(k.len() as int + 1) =~= k.push('='));
    assert(k.push('=').is_prefix_of(item));
    let found = item.skip(k.len() as int + 1);
    let m = value.len() as int;
    if text == first + seq![';', ' '] + k + seq!['='] + value {
        assert(found =~= value);
        found.index_of_first_ensures(';');
    } else {
        assert(found =~= value + seq![';'] + rest);
        assert forall|j: int| 0 <= j < m implies found[j] != ';' by {
            assert(found[j] == value[j]);
        }
        chars::lemma_first_index(found, ';', m);
        assert(found.take(m) =~= value);
    }
    assert(utils::up_to_semicolon(found) == value);
    chars::lemma_nothing_to_trim(value);
    assert(utils::cookie_value(tail, k) == Some(value));
    assert(utils::cookie_value(text, k) == utils::cookie_value(tail, k));
}

/// The padding of an answer is a name and a run of one character.
pub proof fn law_answer_padding(len: usize, r: String)
    requires
        call_ensures(padding_of, (len,), r),
        len <= 64,
    ensures
        r@.len() == len,
        len >= 8 ==> r@.take(8) == "padding="@,
        forall|i: int| 8 <= i < len ==> r@[i] == 'X',
{
    reveal_strlit("padding=XXXXXXXXXXXXXXXXXXXXXXXXXXXXXXXXXXXXXXXXXXXXXXXXXXXXXXXX");
    reveal_strlit("padding=");
    if len >= 8 {
        assert(r@.take(8) =~= "padding="@);
    }
}

} // verus!
