//! What holds of the client's settings, its sessions and its uploads.
use crate::base64url;
use crate::buffer;
use crate::bypass::BypassRules;
use crate::client::handshake::{ConnectVerdict, PqSessionTicket};
use crate::client::setup;
use crate::client::setup::{
    address_for_host, build_state, check_limits, expected_auth, ClientConfigError, SharedState,
};
use crate::client::state::{ticket_is_valid, ClientPqFsm, FsmStep, ManualResolver, TicketStore};
use crate::client::tunnel::{UploadWindow, WindowTurn};
use crate::client::upload_loop::{PostOutcome, SealOutcome, UploadError, UploadLoopActor};
use crate::config::{ClientProxyAuth, ClientTopConfig};
use crate::crypto::keys::KeyError;
use crate::shaper::PaddingRangeError;
use bytes::Bytes;
use vstd::prelude::*;
use vstd::string::*;
use vstd::utf8::*;

verus! {

/// A ticket is used for 1170 seconds from when it was made; one from the future is
/// used.
pub proof fn law_tickets_last(created: u64, now: u64, r: bool)
    requires
        call_ensures(ticket_is_valid, (created, now), r),
    ensures
        r <==> now < created + 1170,
{
}

/// A ticket that was stored comes back, session and key, for as long as it lasts, and
/// is dropped after.
pub proof fn law_stored_ticket_comes_back(
    store: &mut TicketStore,
    ticket: &PqSessionTicket,
    stored: u64,
    later: &mut TicketStore,
    now: u64,
    r: Option<PqSessionTicket>,
)
    requires
        call_ensures(TicketStore::store, (store, ticket, stored), ()),
        old(later).entry() == final(store).entry(),
        call_ensures(TicketStore::load_and_validate_ticket, (later, now), r),
    ensures
        now < stored + 1170 ==> r is Some && r->0.session_id@ == ticket.session_id@ && r->0.master@
            == ticket.master@ && final(later).entry() == old(later).entry(),
        now >= stored + 1170 ==> r is None && final(later).entry() is None,
{
}

/// Only the ticket of the session that was refused is dropped.
pub proof fn law_only_refused_ticket_goes(store: &mut TicketStore, rejected: &str)
    requires
        call_ensures(TicketStore::invalidate_stale_master, (store, rejected), ()),
    ensures
        old(store).entry() is Some && old(store).entry().unwrap().0 == rejected@ ==> final(store).entry() is None,
        old(store).entry() is None || old(store).entry().unwrap().0 != rejected@ ==> final(store).entry() == old(store).entry(),
{
}

/// A connection resumes with a ticket that lasts, and shakes hands without one.
pub proof fn law_connection_resumes_with_ticket(store: &mut TicketStore, now: u64, r: ClientPqFsm)
    requires
        call_ensures(ClientPqFsm::new, (store, now), r),
    ensures
        ({
            let entry = old(store).entry();
            &&& r is Resuming <==> entry is Some && now < entry.unwrap().2 + 1170
            &&& r is Handshaking <==> !(r is Resuming)
            &&& r is Resuming ==> r->Resuming_0.session_id@ == entry.unwrap().0
                && r->Resuming_0.master@ == entry.unwrap().1 && final(store).entry() == entry
            &&& r is Handshaking ==> final(store).entry() is None
        }),
{
}

/// A server that asks for a handshake gets one, once: a connection that resumes begins
/// a new session, and one that already has gives up. Every other answer ends the
/// matter.
pub proof fn law_one_new_handshake(
    fsm: &mut ClientPqFsm,
    verdict: ConnectVerdict,
    store: &mut TicketStore,
    r: FsmStep,
)
    requires
        call_ensures(ClientPqFsm::on_connect, (fsm, verdict, store), r),
    ensures
        r is Finished <==> verdict is Open,
        r is Handshake <==> verdict is Rehandshake && *old(fsm) is Resuming,
        r is Failed <==> verdict is Rejected || (verdict is Rehandshake && *old(fsm) is Handshaking),
        verdict is Rejected ==> r->Failed_0 == verdict->Rejected_0,
        r is Handshake ==> *final(fsm) is Handshaking,
        !(r is Handshake) ==> final(store).entry() == old(store).entry(),
        r is Handshake && old(store).entry() is Some && old(store).entry().unwrap().0
            == old(fsm)->Resuming_0.session_id@ ==> final(store).entry() is None,
        r is Handshake && old(store).entry() is Some && old(store).entry().unwrap().0
            != old(fsm)->Resuming_0.session_id@ ==> final(store).entry() == old(store).entry(),
{
}

/// Every name is looked up at the configured address, with port zero.
pub proof fn law_one_address_for_all(m: &ManualResolver, r: String)
    requires
        call_ensures(ManualResolver::lookup_target, (m,), r),
    ensures
        r@.len() == m.target_addr@.len() + 2,
        r@.take(m.target_addr@.len() as int) == m.target_addr@,
        r@.skip(m.target_addr@.len() as int) == seq![':', '0'],
{
    reveal_strlit(":0");
    assert(r@.take(m.target_addr@.len() as int) =~= m.target_addr@);
    assert(r@.skip(m.target_addr@.len() as int) =~= seq![':', '0']);
}

/// Limits hold where one frame of 18780 bytes and one request may be in flight. A
/// limit that is not set is two megabytes, or 128 requests, and holds.
pub proof fn law_limits_take_one_frame(cfg: &ClientTopConfig, r: Result<(), ClientConfigError>)
    requires
        call_ensures(check_limits, (cfg,), r),
        cfg.traffic_shaping.global.padding_range[0] <= cfg.traffic_shaping.global.padding_range[1],
        cfg.traffic_shaping.stages@.len() == 0,
    ensures
        ({
            let bytes = cfg.client.max_in_flight_bytes;
            let requests = cfg.client.upload_concurrency;
            &&& bytes is Some && bytes->0 < 18_780 ==> r is Err && r->Err_0
                == ClientConfigError::InFlight(bytes->0)
            &&& (bytes is None || bytes->0 >= 18_780) && requests == Some(0usize) ==> r is Err
                && r->Err_0 == ClientConfigError::Concurrency
            &&& (bytes is None || bytes->0 >= 18_780) && requests != Some(0usize) ==> r is Ok
        }),
{
}

/// A padding range that runs downwards is reported before anything else.
pub proof fn law_bad_padding_comes_first(cfg: &ClientTopConfig, r: Result<(), ClientConfigError>)
    requires
        call_ensures(check_limits, (cfg,), r),
        cfg.traffic_shaping.global.padding_range[0] > cfg.traffic_shaping.global.padding_range[1],
    ensures
        r is Err && r->Err_0 == ClientConfigError::Traffic(
            PaddingRangeError::Global {
                low: cfg.traffic_shaping.global.padding_range[0],
                high: cfg.traffic_shaping.global.padding_range[1],
            },
        ),
{
}

/// What the client works with is what was set, and what was not set is 1024
/// connections, two megabytes and 128 requests. It sends the token behind its scheme,
/// and rules that cover nothing are dropped.
pub proof fn law_state_is_what_was_set(
    cfg: &ClientTopConfig,
    bypass: Option<BypassRules>,
    s: SharedState,
)
    requires
        call_ensures(
            build_state,
            (cfg, bypass),
            Ok::<SharedState, ClientConfigError>(s),
        ),
    ensures
        cfg.client.max_connections is Some ==> s.max_connections == cfg.client.max_connections->0,
        cfg.client.max_connections is None ==> s.max_connections == 1024,
        cfg.client.max_in_flight_bytes is Some ==> s.max_in_flight_bytes
            == cfg.client.max_in_flight_bytes->0,
        cfg.client.max_in_flight_bytes is None ==> s.max_in_flight_bytes == 2_097_152,
        cfg.client.upload_concurrency is Some ==> s.upload_concurrency
            == cfg.client.upload_concurrency->0,
        cfg.client.upload_concurrency is None ==> s.upload_concurrency == 128,
        s.max_in_flight_bytes >= 18_780,
        s.upload_concurrency >= 1,
        s.max_download_bytes == cfg.traffic_shaping.max_download_bytes,
        s.auth_header@.len() == 7 + cfg.auth.token@.len(),
        s.auth_header@.take(7) == "Bearer "@,
        s.auth_header@.skip(7) == cfg.auth.token@,
        s.server_public_key is Some <==> cfg.client.public_key is Some,
        s.server_public_key is Some ==> base64url::base64_decoded(cfg.client.public_key->0@) == Ok::<
            Seq<u8>,
            base64url::Base64Error,
        >(s.server_public_key->0@),
        s.proxy_auth is Some <==> cfg.client.auth is Some,
        s.proxy_auth is Some ==> s.proxy_auth.unwrap().1@ == cfg.client.auth->0.username@,
        s.resolved_traffic.global_threshold == cfg.traffic_shaping.global.padding_threshold,
        s.resolved_traffic.global_range == cfg.traffic_shaping.global.padding_range,
        s.resolved_traffic.encoding == cfg.traffic_shaping.encoding_type,
        bypass is None ==> s.bypass is None,
        bypass is Some && bypass->0.keys().is_empty() && bypass->0.networks().is_empty()
            ==> s.bypass is None,
        bypass is Some && !(bypass->0.keys().is_empty() && bypass->0.networks().is_empty())
            ==> s.bypass == bypass,
{
    reveal_strlit("Bearer ");
    assert(s.auth_header@.take(7) =~= "Bearer "@);
    assert(s.auth_header@.skip(7) =~= cfg.auth.token@);
}

/// A key that is none and an address that is no URL are reported, the key first.
pub proof fn law_bad_addresses_are_reported(
    cfg: &ClientTopConfig,
    bypass: Option<BypassRules>,
    checked: Result<(), ClientConfigError>,
    r: Result<SharedState, ClientConfigError>,
)
    requires
        call_ensures(build_state, (cfg, bypass), r),
        call_ensures(check_limits, (cfg,), checked),
    ensures
        checked is Err ==> r is Err && r->Err_0 == checked->Err_0,
        ({
            let key = base64url::base64_decoded(cfg.client.public_key->0@);
            let bad = cfg.client.public_key is Some && (key is Err || key->Ok_0.len() != 32);
            let url = crate::client::proxy::url_parts(cfg.client.remote@);
            &&& checked is Ok && bad && key is Err ==> r is Err && r->Err_0
                == ClientConfigError::PublicKey(KeyError::Encoding(key->Err_0))
            &&& checked is Ok && bad && key is Ok ==> r is Err && r->Err_0
                == ClientConfigError::PublicKey(KeyError::Length)
            &&& checked is Ok && !bad && url is None ==> r is Err && r->Err_0
                == ClientConfigError::Remote
            &&& checked is Ok && !bad && url is Some ==> r is Ok && r->Ok_0.remote_str@ == url.unwrap().0
        }),
{
}

/// A server is connected at the address that was set, and else at its host; without a
/// host it is not.
pub proof fn law_address_overrides_host(
    address: Option<&str>,
    host: Option<&str>,
    r: Option<String>,
)
    requires
        call_ensures(address_for_host, (address, host), r),
    ensures
        r is Some <==> host is Some,
        host is Some && address is Some ==> r->0@ == address->0@,
        host is Some && address is None ==> r->0@ == host->0@,
{
}

/// The credentials of a local program are its name, a colon and its password, in Base64
/// behind the scheme.
pub proof fn law_basic_credentials(auth: &ClientProxyAuth, pair: Seq<char>, r: String)
    requires
        call_ensures(expected_auth, (auth,), r),
        pair.len() == auth.username@.len() + 1 + auth.password@.len(),
        pair.take(auth.username@.len() as int) == auth.username@,
        pair[auth.username@.len() as int] == ':',
        pair.skip(auth.username@.len() as int + 1) == auth.password@,
    ensures
        r@.take(6) == "Basic "@,
        r@.skip(6) == setup::standard_base64(encode_utf8(pair)),
{
    reveal_strlit("Basic ");
    let n = auth.username@.len() as int;
    let whole = auth.username@ + seq![':'] + auth.password@;
    assert forall|i: int| 0 <= i < pair.len() implies pair[i] == whole[i] by {
        if i < n {
            assert(pair.take(n)[i] == pair[i]);
        } else if i > n {
            assert(pair.skip(n + 1)[i - n - 1] == pair[i]);
        }
    }
    assert(pair =~= whole);
    assert(r@.take(6) =~= "Basic "@);
    assert(r@.skip(6) =~= setup::standard_base64(encode_utf8(pair)));
}

/// A frame goes into the next body as long as the body stays within a megabyte, or is
/// empty, and what is in flight within two; else it is kept for the body after.
pub proof fn law_frames_fill_bodies(w: &mut UploadWindow, frame: Bytes)
    requires
        call_ensures(UploadWindow::on_seal, (w, SealOutcome::Sealed, frame), ()),
        old(w).model().kept is None,
    ensures
        ({
            let before = old(w).model();
            let after = final(w).model();
            let n = buffer::frozen(frame).len();
            let fits = before.held + n <= 2_097_152 && (before.batch.len() == 0
                || before.batch.len() + n <= 1_048_576);
            &&& fits ==> after.batch == before.batch + buffer::frozen(frame) && after.held
                == before.held + n && after.kept is None && !after.paused
            &&& !fits ==> after.batch == before.batch && after.held == before.held && after.kept
                == Some(buffer::frozen(frame))
            &&& after.requests == before.requests
            &&& after.ended == before.ended
        }),
{
}

/// That no frame is ready, and that none will come, is noted and changes nothing else.
pub proof fn law_pauses_and_ends_are_noted(
    w: &mut UploadWindow,
    outcome: SealOutcome,
    frame: Bytes,
)
    requires
        call_ensures(UploadWindow::on_seal, (w, outcome, frame), ()),
        !(outcome is Sealed),
    ensures
        final(w).model().paused <==> old(w).model().paused || outcome is NotReady,
        final(w).model().ended <==> old(w).model().ended || outcome is Ended,
        final(w).model().batch == old(w).model().batch,
        final(w).model().kept == old(w).model().kept,
        final(w).model().held == old(w).model().held,
        final(w).model().requests == old(w).model().requests,
{
}

/// A body goes out when it holds frames and no further frame joins it now, as long as
/// fewer than 128 requests are in flight. With nothing collected the window waits for
/// a frame, for a request, or is over.
pub proof fn law_bodies_go_out(w: &mut UploadWindow, r: WindowTurn)
    requires
        call_ensures(UploadWindow::next_turn, (w,), r),
        old(w).model().kept is None,
    ensures
        ({
            let m = old(w).model();
            let after = final(w).model();
            let ready = m.batch.len() > 0 && (m.ended || m.paused);
            &&& r is Send <==> ready && m.requests < 128
            &&& r is Send ==> buffer::frozen(r->Send_0) == m.batch && after.batch.len() == 0
                && after.requests == m.requests + 1 && after.held == m.held && !after.paused
            &&& r is TryFrame <==> m.batch.len() > 0 && !m.ended && !m.paused
            &&& r is WaitFrame <==> m.batch.len() == 0 && !m.ended
            &&& r is WaitRequest <==> (ready && m.requests >= 128) || (m.batch.len() == 0 && m.ended
                && m.requests > 0)
            &&& r is Over <==> m.batch.len() == 0 && m.ended && m.requests == 0
            &&& !(r is Send) ==> after == m
        }),
{
}

/// A frame that was kept lets the body before it go, and begins the next one as soon as
/// there is room in flight.
pub proof fn law_kept_frames_follow(w: &mut UploadWindow, r: WindowTurn)
    requires
        call_ensures(UploadWindow::next_turn, (w,), r),
        old(w).model().kept is Some,
    ensures
        ({
            let m = old(w).model();
            let frame = m.kept->0;
            let after = final(w).model();
            &&& m.batch.len() > 0 && m.requests < 128 ==> r is Send && buffer::frozen(r->Send_0)
                == m.batch && after.kept == m.kept && after.batch.len() == 0
            &&& m.batch.len() > 0 && m.requests >= 128 ==> r is WaitRequest && after == m
            &&& m.batch.len() == 0 && m.held + frame.len() > 2_097_152 ==> r is WaitRequest && after
                == m
            &&& m.batch.len() == 0 && frame.len() > 0 && m.held + frame.len() <= 2_097_152
                && m.requests < 128 && m.ended ==> r is Send && buffer::frozen(r->Send_0) == frame
                && after.kept is None && after.held == m.held + frame.len()
            &&& m.batch.len() == 0 && frame.len() > 0 && m.held + frame.len() <= 2_097_152
                && !m.ended ==> r is TryFrame && after.batch == frame && after.kept is None
                && after.held == m.held + frame.len()
        }),
{
    let m = old(w).model();
    assert(m.batch.len() == 0 ==> m.batch + m.kept->0 =~= m.kept->0);
}

/// A request that is over gives its bytes back. It ends the upload where it failed, with
/// its reason kept to itself where frames were still to come.
pub proof fn law_requests_give_room(
    w: &mut UploadWindow,
    len: usize,
    outcome: PostOutcome,
    r: Result<(), UploadError>,
)
    requires
        call_ensures(UploadWindow::on_post_done, (w, len, outcome), r),
        len <= old(w).model().held,
        old(w).model().requests > 0,
    ensures
        ({
            let m = old(w).model();
            let after = final(w).model();
            let last = m.ended && m.batch.len() == 0 && m.kept is None;
            &&& after.held == m.held - len
            &&& after.requests == m.requests - 1
            &&& after.batch == m.batch
            &&& after.kept == m.kept
            &&& r is Ok <==> outcome is Accepted
            &&& outcome is Failed && last ==> r->Err_0 == UploadError::LastPostFailed(
                outcome->Failed_0,
            )
            &&& outcome is Failed && !last ==> r->Err_0 == UploadError::PostFailed(
                outcome->Failed_0,
            )
            &&& outcome is Panicked ==> r->Err_0 == UploadError::Panicked(outcome->Panicked_0)
        }),
{
}

/// An upload starts with nothing in flight, and collects as much as may be in flight,
/// a megabyte at most.
pub proof fn law_upload_starts_empty(bytes: usize, requests: usize, r: UploadLoopActor)
    requires
        call_ensures(UploadLoopActor::new, (bytes, requests), r),
    ensures
        r.model().phase is Waiting,
        r.model().batch.len() == 0,
        r.model().requests == 0,
        r.model().bytes == 0,
        !r.model().ended,
        r.model().failed is None,
        r.limits().bytes == bytes,
        r.limits().requests == requests,
        bytes < 1_048_576 ==> r.limits().batch == bytes,
        bytes >= 1_048_576 ==> r.limits().batch == 1_048_576,
{
}

/// Frames are collected until they make a body, or none is ready, or none will come;
/// then they go out. Where nothing was collected the upload waits, or hears of the
/// requests in flight, or is done; and a failure noted before comes out.
pub proof fn law_frames_are_collected(
    u: &mut UploadLoopActor,
    outcome: SealOutcome,
    frame: &[u8],
    r: Result<(), UploadError>,
)
    requires
        call_ensures(UploadLoopActor::on_seal, (u, outcome, frame), r),
    ensures
        ({
            let m = old(u).model();
            let after = final(u).model();
            let empty = m.batch.len() == 0;
            &&& outcome is Sealed ==> after.batch == m.batch + frame@ && r is Ok
            &&& outcome is Sealed && m.batch.len() + frame@.len() < old(u).limits().batch
                ==> after.phase is Filling
            &&& outcome is Sealed && m.batch.len() + frame@.len() >= old(u).limits().batch
                ==> after.phase is Posting
            &&& !(outcome is Sealed) ==> after.batch == m.batch
            &&& !(outcome is Sealed) && !empty ==> after.phase is Posting && r is Ok
            &&& outcome is NotReady && empty ==> after.phase is Waiting
            &&& outcome is Ended && empty && m.requests == 0 && m.failed is None ==> after.phase is Done
            &&& outcome is Ended && empty && (m.requests > 0 || m.failed is Some)
                ==> after.phase is Draining
            &&& after.ended <==> m.ended || outcome is Ended
            &&& !(outcome is Sealed) && empty && m.failed is None ==> r is Ok
            &&& !(outcome is Sealed) && empty && m.failed is Some ==> after.failed is None && (r is Ok
                <==> m.failed->0 is Accepted)
            &&& outcome is NotReady && empty && m.failed is Some && m.failed->0 is Failed ==> r is Err
                && r->Err_0 == UploadError::PostFailed(m.failed->0->Failed_0)
            &&& outcome is Ended && empty && m.failed is Some && m.failed->0 is Failed ==> r is Err
                && r->Err_0 == UploadError::LastPostFailed(m.failed->0->Failed_0)
            &&& after.requests == m.requests
            &&& after.bytes == m.bytes
        }),
{
}

/// A body goes out where a request is free and its bytes keep within the limit; where
/// nothing is in flight it goes out whatever its size. Else it waits, and nothing
/// changes.
pub proof fn law_bodies_wait_for_room(
    u: &mut UploadLoopActor,
    r: Result<Option<Bytes>, UploadError>,
)
    requires
        call_ensures(UploadLoopActor::try_post, (u,), r),
        old(u).model().failed is None,
    ensures
        ({
            let m = old(u).model();
            let after = final(u).model();
            let limits = old(u).limits();
            let room = m.requests < limits.requests && (m.bytes == 0 || m.bytes + m.batch.len()
                <= limits.bytes);
            &&& !room ==> (r matches Ok(b) && b is None) && after == m
            &&& room ==> {
                &&& r matches Ok(Some(body)) && buffer::frozen(body) == m.batch
                &&& after.batch.len() == 0
                &&& after.requests == m.requests + 1
                &&& after.bytes == m.bytes + m.batch.len()
                &&& m.ended ==> after.phase is Draining
                &&& !m.ended ==> after.phase is Waiting
                &&& after.ended == m.ended
            }
        }),
{
}

/// A failure that was noted stops the body that would go out next.
pub proof fn law_failures_stop_bodies(
    u: &mut UploadLoopActor,
    reason: String,
    r: Result<Option<Bytes>, UploadError>,
)
    requires
        call_ensures(UploadLoopActor::try_post, (u,), r),
        old(u).model().failed == Some(PostOutcome::Failed(reason)),
        old(u).model().bytes == 0,
        old(u).model().requests < old(u).limits().requests,
    ensures
        r is Err && r->Err_0 == UploadError::PostFailed(reason),
        final(u).model().batch == old(u).model().batch,
        final(u).model().requests == old(u).model().requests,
{
}

/// A request that is over gives its bytes back. A success lets a waiting upload go on
/// and, as the last one, ends a draining one. A failure comes out at once while the
/// upload waits or drains; else it is noted, the first one only.
pub proof fn law_answers_are_heard(
    u: &mut UploadLoopActor,
    len: usize,
    outcome: PostOutcome,
    r: Result<(), UploadError>,
)
    requires
        call_ensures(UploadLoopActor::on_post_done, (u, len, outcome), r),
        old(u).model().requests > 0,
        len <= old(u).model().bytes,
    ensures
        ({
            let m = old(u).model();
            let after = final(u).model();
            let at_once = m.phase is Waiting || m.phase is Draining || m.phase is Done;
            &&& after.requests == m.requests - 1
            &&& after.bytes == m.bytes - len
            &&& after.batch == m.batch
            &&& after.ended == m.ended
            &&& r is Ok <==> outcome is Accepted || !at_once
            &&& m.phase is Waiting && outcome is Failed ==> r->Err_0 == UploadError::PostFailed(
                outcome->Failed_0,
            )
            &&& (m.phase is Draining || m.phase is Done) && outcome is Failed ==> r->Err_0
                == UploadError::LastPostFailed(outcome->Failed_0)
            &&& m.phase is Waiting && outcome is Accepted ==> after.phase is Filling
            &&& m.phase is Draining && outcome is Accepted && m.requests == 1 ==> after.phase is Done
            &&& m.phase is Draining && (!(outcome is Accepted) || m.requests > 1)
                ==> after.phase is Draining
            &&& !at_once ==> after.phase == m.phase
            &&& !at_once && m.failed is None && !(outcome is Accepted) ==> after.failed == Some(
                outcome,
            )
            &&& !at_once && (m.failed is Some || outcome is Accepted) ==> after.failed == m.failed
        }),
{
}

} // verus!
