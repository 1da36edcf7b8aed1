//! What holds of tunnels, of the streams in them, and of the server's settings.
use crate::base64url;
use crate::buffer;
use crate::config::ServerTopConfig;
use crate::crypto::keys::KeyError;
use crate::server::setup::{build_state, listens_on_path, ServerConfigError, ServerPlan};
use crate::server::stream::{DecoderStep, FrameDecoder, StreamError};
use crate::server::stream_registry::{StreamQueryResult, StreamRegistry};
use crate::server::tunnel::{ContinueVerdict, IdleVerdict, Phase, SegmentEnd, TunnelActor};
use crate::shaper::frame::EncodingType;
use crate::shaper::{FrameCipher, PaddingRangeError};
use crate::wire;
use vstd::prelude::*;
use vstd::string::*;

verus! {

/// A tunnel begins unconnected, with nobody waiting.
pub proof fn law_tunnel_begins<R>(
    has_download: bool,
    max: Option<u64>,
    now: u64,
    r: TunnelActor<R>,
)
    requires
        call_ensures(TunnelActor::<R>::new, (has_download, max, now), r),
    ensures
        r.model().phase == Phase::Connecting,
        !r.model().parked,
        r.model().direct <==> !has_download,
        r.model().waiting.len() == 0,
        r.model().last_activity == now,
        r.model().max_download_bytes == max,
{
}

/// A connected tunnel has its source, and starting it starts a segment unless it is
/// direct.
pub proof fn law_tunnel_starts<R>(t: &mut TunnelActor<R>, s: &mut TunnelActor<R>, r: bool)
    requires
        call_ensures(TunnelActor::<R>::on_upstream_connected, (t,), ()),
        old(s).model() == final(t).model(),
        call_ensures(TunnelActor::<R>::start, (s,), r),
    ensures
        final(t).model().phase == Phase::Active,
        r <==> !old(t).model().direct,
        final(s).model().phase == Phase::Active,
        final(s).model().parked <==> old(t).model().direct,
        final(s).model().waiting == old(t).model().waiting,
{
}

/// A request to continue starts a segment where one is full, waits behind the others
/// while one runs, and is refused otherwise.
pub proof fn law_continuations_take_turns<R>(
    t: &mut TunnelActor<R>,
    reply: R,
    r: ContinueVerdict<R>,
)
    requires
        call_ensures(TunnelActor::<R>::on_continue, (t, reply), r),
    ensures
        ({
            let before = old(t).model();
            let after = final(t).model();
            let runs = before.phase == Phase::Active && !before.parked;
            &&& r is Start <==> before.phase == Phase::Rotating
            &&& r is Queued <==> runs
            &&& r is Refuse <==> before.phase != Phase::Rotating && !runs
            &&& r is Start ==> r->Start_0 == reply && after.phase == Phase::Active && !after.parked
            &&& r is Refuse ==> r->Refuse_0 == reply && after == before
            &&& r is Queued ==> after.waiting.len() == before.waiting.len() + 1
                && after.waiting.last() == reply && after.waiting.drop_last() == before.waiting
                && after.phase == before.phase && after.parked == before.parked
            &&& !(r is Queued) ==> after.waiting == before.waiting
            &&& after.last_activity == before.last_activity
        }),
{
    let before = old(t).model();
    assert(before.waiting.push(reply).drop_last() =~= before.waiting);
}

/// A full segment leaves its source for the next one; a segment that ends in any other
/// way ends the tunnel.
pub proof fn law_segments_end<R>(t: &mut TunnelActor<R>, end: SegmentEnd, stops: bool)
    requires
        call_ensures(TunnelActor::<R>::on_segment_done, (t, end), ()),
        call_ensures(TunnelActor::<R>::should_stop, (&*final(t),), stops),
    ensures
        end == SegmentEnd::Rotated ==> final(t).model().phase == Phase::Rotating && final(t).model().parked,
        end != SegmentEnd::Rotated ==> final(t).model().phase == Phase::Draining,
        end == SegmentEnd::Ended ==> !final(t).model().parked,
        stops <==> end != SegmentEnd::Rotated,
        final(t).model().waiting == old(t).model().waiting,
{
}

/// Whoever waits longest comes first: with a segment where the source is here, with a
/// refusal where it is not.
pub proof fn law_first_waiter_first<R>(t: &mut TunnelActor<R>, r: Option<ContinueVerdict<R>>)
    requires
        call_ensures(TunnelActor::<R>::next_waiting, (t,), r),
    ensures
        ({
            let before = old(t).model();
            let after = final(t).model();
            &&& r is None <==> before.waiting.len() == 0
            &&& before.waiting.len() > 0 ==> {
                &&& before.parked ==> r == Some(ContinueVerdict::Start(before.waiting[0]))
                &&& !before.parked ==> r == Some(ContinueVerdict::Refuse(before.waiting[0]))
                &&& after.waiting.len() == before.waiting.len() - 1
                &&& forall|i: int|
                    0 <= i < after.waiting.len() ==> after.waiting[i] == before.waiting[i + 1]
            }
            &&& after.phase == before.phase
            &&& after.parked == before.parked
        }),
{
}

/// An offer that was taken starts a segment, and one that was not leaves the source for
/// the next.
pub proof fn law_offers_move_the_source<R>(t: &mut TunnelActor<R>, accepted: bool)
    requires
        call_ensures(TunnelActor::<R>::on_offer, (t, accepted), ()),
    ensures
        accepted ==> final(t).model().phase == Phase::Active && !final(t).model().parked,
        !accepted ==> final(t).model() == old(t).model(),
        final(t).model().waiting == old(t).model().waiting,
{
}

/// A tunnel is closed after two minutes in which nothing happened, and looked at again
/// when they could be over.
pub proof fn law_idle_tunnels_close<R>(t: &TunnelActor<R>, now: u64, r: IdleVerdict)
    requires
        call_ensures(TunnelActor::<R>::on_idle_timer, (t, now), r),
    ensures
        r == IdleVerdict::Close <==> now >= t.model().last_activity + 120,
        t.model().last_activity <= now < t.model().last_activity + 120 ==> r == (
        IdleVerdict::Rearm { secs: (t.model().last_activity + 120 - now) as u64 }),
        now < t.model().last_activity ==> r == (IdleVerdict::Rearm { secs: 120 }),
{
}

/// The rotation timer counts only while a tunnel waits to be continued.
pub proof fn law_rotation_timer_counts<R>(t: &TunnelActor<R>, timer: bool, stops: bool, p: Phase)
    requires
        call_ensures(TunnelActor::<R>::rotation_timer_applies, (t,), timer),
        call_ensures(TunnelActor::<R>::should_stop, (t,), stops),
        call_ensures(TunnelActor::<R>::phase, (t,), p),
    ensures
        p == t.model().phase,
        timer <==> p == Phase::Rotating,
        stops <==> p == Phase::Draining || p == Phase::Closed,
{
}

/// Closing a tunnel hands everyone out who waits, in order.
pub proof fn law_closing_hands_out<R>(t: &mut TunnelActor<R>, r: Vec<R>)
    requires
        call_ensures(TunnelActor::<R>::cleanup, (t,), r),
    ensures
        r@ == old(t).model().waiting,
        final(t).model().phase == Phase::Closed,
        final(t).model().waiting.len() == 0,
{
}

/// A number is registered once, spent where it was registered, and known by that.
pub proof fn law_stream_numbers_are_used_once(
    registry: &mut StreamRegistry,
    id: u128,
    now: u64,
    fresh: bool,
    other: u128,
)
    requires
        call_ensures(StreamRegistry::register, (registry, id, now), fresh),
    ensures
        fresh <==> !old(registry).entries().contains_key(id),
        final(registry).entries().contains_key(id),
        fresh ==> final(registry).entries()[id] == (false, now),
        !fresh ==> final(registry).entries() == old(registry).entries(),
        other != id ==> (final(registry).entries().contains_key(other) <==> old(registry).entries().contains_key(other)),
        other != id && old(registry).entries().contains_key(other) ==> final(registry).entries()[other] == old(registry).entries()[other],
{
}

/// A spent number keeps its time, and no other is touched.
pub proof fn law_spent_numbers_keep_their_time(
    registry: &mut StreamRegistry,
    id: u128,
    other: u128,
    after: StreamQueryResult,
)
    requires
        call_ensures(StreamRegistry::mark_consumed, (registry, id), ()),
        call_ensures(StreamRegistry::check, (&*final(registry), id), after),
    ensures
        old(registry).entries().contains_key(id) ==> final(registry).entries()[id] == (
            true,
            old(registry).entries()[id].1,
        ) && after == StreamQueryResult::Consumed,
        !old(registry).entries().contains_key(id) ==> final(registry).entries() == old(registry).entries() && after == StreamQueryResult::Fresh,
        other != id && old(registry).entries().contains_key(other) ==> final(registry).entries().contains_key(other) && final(registry).entries()[other] == old(registry).entries()[other],
{
}

/// Looking a number up says of it what was done with it.
pub proof fn law_stream_numbers_are_known_by_use(
    registry: &StreamRegistry,
    id: u128,
    r: StreamQueryResult,
)
    requires
        call_ensures(StreamRegistry::check, (registry, id), r),
    ensures
        ({
            let m = registry.entries();
            &&& r == StreamQueryResult::Fresh <==> !m.contains_key(id)
            &&& r == StreamQueryResult::Active <==> m.contains_key(id) && !m[id].0
            &&& r == StreamQueryResult::Consumed <==> m.contains_key(id) && m[id].0
        }),
{
}

/// Forgotten are the numbers that are spent and older than the cutoff, and no others.
pub proof fn law_old_spent_numbers_are_forgotten(
    registry: &mut StreamRegistry,
    cutoff: u64,
    id: u128,
    removed: usize,
)
    requires
        call_ensures(StreamRegistry::remove_consumed_before, (registry, cutoff), removed),
        old(registry).entries().contains_key(id),
    ensures
        ({
            let (spent, time) = old(registry).entries()[id];
            &&& final(registry).entries().contains_key(id) <==> !spent || time >= cutoff
            &&& final(registry).entries().contains_key(id) ==> final(registry).entries()[id] == (
                spent,
                time,
            )
        }),
        removed + final(registry).entries().dom().len() == old(registry).entries().dom().len(),
{
}

/// A decoder waits for a frame that has not come whole, as long as no more waits than
/// may. Once the stream has ended, what is left over is trailing, and nothing left is
/// the end.
pub proof fn law_partial_streams_wait<C: FrameCipher>(d: &mut FrameDecoder<C>, r: DecoderStep)
    requires
        call_ensures(FrameDecoder::<C>::poll_next, (d,), r),
        old(d).encoding_view() == EncodingType::Binary,
        old(d).waiting().len() < 2 || (old(d).waiting()[0] * 256 + old(d).waiting()[1] <= 16_422
            && old(d).waiting().len() < 2 + old(d).waiting()[0] * 256 + old(d).waiting()[1]),
    ensures
        final(d).waiting() == old(d).waiting(),
        old(d).ended() && old(d).waiting().len() == 0 ==> r is Finished,
        old(d).ended() && old(d).waiting().len() > 0 ==> r == DecoderStep::Failed(
            StreamError::TrailingData,
        ),
        !old(d).ended() && old(d).waiting().len() <= old(d).limit() ==> r is NeedInput,
        !old(d).ended() && old(d).waiting().len() > old(d).limit() ==> r == DecoderStep::Failed(
            StreamError::BufferExceeded,
        ),
{
    let s = old(d).waiting();
    reveal_with_fuel(wire::be_value, 3);
    if s.len() >= 2 {
        let two = s.take(2);
        assert(two.drop_last().drop_last() =~= Seq::empty());
        assert(wire::be_value(two) == s[0] * 256 + s[1]);
    }
}

/// A frame that was read leaves what stands behind it, and carries the number and the
/// data that its header names.
pub proof fn law_whole_frames_are_given<C: FrameCipher>(
    d: &mut FrameDecoder<C>,
    len: int,
    n: int,
    r: DecoderStep,
)
    requires
        call_ensures(FrameDecoder::<C>::poll_next, (d,), r),
        old(d).encoding_view() == EncodingType::Binary,
        old(d).cipher_view() is None,
        old(d).waiting().len() >= 12,
        len == old(d).waiting()[0] * 256 + old(d).waiting()[1],
        n == old(d).waiting()[10] * 256 + old(d).waiting()[11],
        len <= 16_422,
        old(d).waiting().len() >= 2 + len,
        len >= 10 + n,
    ensures
        r is Frame,
        r->seq == wire::be_value(old(d).waiting().subrange(2, 10)) as u64,
        buffer::frozen(r->data) == old(d).waiting().subrange(12, 12 + n),
        final(d).waiting() == old(d).waiting().skip(2 + len),
{
    let s = old(d).waiting();
    reveal_with_fuel(wire::be_value, 3);
    let two = s.take(2);
    assert(two.drop_last().drop_last() =~= Seq::empty());
    assert(wire::be_value(two) == len);
    let body = s.subrange(2, 2 + len);
    let field = body.subrange(8, 10);
    assert(field.drop_last().drop_last() =~= Seq::empty());
    assert(wire::be_value(field) == n);
    assert(body.take(8) =~= s.subrange(2, 10));
    assert(body.subrange(10, 10 + n) =~= s.subrange(12, 12 + n));
}

/// Settings are of use where every padding range runs upwards and a private key, if
/// there is one, is one. What is not set is 1024 tunnels and no proxy.
pub proof fn law_server_plan_is_what_was_set(
    config: &ServerTopConfig,
    r: Result<ServerPlan, ServerConfigError>,
)
    requires
        call_ensures(build_state, (config,), r),
        config.traffic_shaping.stages@.len() == 0,
    ensures
        ({
            let range = config.traffic_shaping.global.padding_range;
            let key = base64url::base64_decoded(config.server.private_key->0@);
            let bad = config.server.private_key is Some && (key is Err || key->Ok_0.len() != 32);
            &&& range[0] > range[1] ==> r is Err && r->Err_0 == ServerConfigError::Traffic(
                PaddingRangeError::Global { low: range[0], high: range[1] },
            )
            &&& range[0] <= range[1] && bad && key is Err ==> r is Err && r->Err_0
                == ServerConfigError::PrivateKey(KeyError::Encoding(key->Err_0))
            &&& range[0] <= range[1] && bad && key is Ok ==> r is Err && r->Err_0
                == ServerConfigError::PrivateKey(KeyError::Length)
            &&& range[0] <= range[1] && !bad ==> r is Ok
            &&& r is Ok && config.server.max_tunnels is Some ==> r->Ok_0.max_tunnels
                == config.server.max_tunnels->0
            &&& r is Ok && config.server.max_tunnels is None ==> r->Ok_0.max_tunnels == 1024
            &&& r is Ok ==> (r->Ok_0.private_key is Some <==> config.server.private_key is Some)
            &&& r is Ok && config.server.private_key is Some ==> r->Ok_0.private_key->0@ == key->Ok_0
            &&& r is Ok && config.proxy is None ==> r->Ok_0.socks5_proxy is None
            &&& r is Ok && config.proxy is Some && config.proxy->0.socks5 is None
                ==> r->Ok_0.socks5_proxy is None
            &&& r is Ok && config.proxy is Some && config.proxy->0.socks5 is Some
                ==> r->Ok_0.socks5_proxy is Some && r->Ok_0.socks5_proxy->0@
                == config.proxy->0.socks5->0@
        }),
{
}

/// An address with a slash in it, and one that ends in `.sock`, is a path; no other is.
pub proof fn law_paths_are_told(listen: &str, r: bool)
    requires
        call_ensures(listens_on_path, (listen,), r),
    ensures
        ({
            let n = listen@.len() as int;
            let slash = exists|i: int| 0 <= i < n && listen@[i] == '/';
            let sock = n >= 5 && listen@[n - 5] == '.' && listen@[n - 4] == 's' && listen@[n - 3]
                == 'o' && listen@[n - 2] == 'c' && listen@[n - 1] == 'k';
            r <==> slash || sock
        }),
{
    reveal_strlit(".sock");
    let n = listen@.len() as int;
    if exists|i: int| 0 <= i < n && listen@[i] == '/' {
        let i = choose|i: int| 0 <= i < n && listen@[i] == '/';
        assert(listen@.contains(listen@[i]));
    }
    if listen@.contains('/') {
        let i = choose|i: int| 0 <= i < n && listen@[i] == '/';
        assert(listen@[i] == '/');
    }
    if ".sock"@.is_suffix_of(listen@) {
        let tail = listen@.subrange(n - 5, n);
        assert(tail =~= ".sock"@);
        assert(tail[0] == listen@[n - 5]);
        assert(tail[1] == listen@[n - 4]);
        assert(tail[2] == listen@[n - 3]);
        assert(tail[3] == listen@[n - 2]);
        assert(tail[4] == listen@[n - 1]);
    } else if n >= 5 && listen@[n - 5] == '.' && listen@[n - 4] == 's' && listen@[n - 3] == 'o'
        && listen@[n - 2] == 'c' && listen@[n - 1] == 'k' {
        assert(listen@.subrange(n - 5, n) =~= ".sock"@);
    }
}

} // verus!
