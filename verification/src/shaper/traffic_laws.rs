//! What holds of the shaper's settings and of every step that it takes.
use crate::buffer;
use crate::shaper::frame;
use crate::shaper::frame::EncodingType;
use crate::shaper::traffic;
use crate::shaper::traffic::{full_frame_len, ShaperAction, ShaperEvent, TrafficShaper};
use crate::shaper::{
    FrameCipher, FrameError, PaddingRangeError, ResolvedShaperConfig, ResolvedStage, StageConfig,
    TrafficConfig,
};
use bytes::BytesMut;
use vstd::prelude::*;

verus! {

/// The data that fills a frame leaves room for all that is put round it.
pub proof fn law_full_frames(encoding: EncodingType, sealed: usize, plain: usize)
    requires
        call_ensures(full_frame_len, (true, encoding), sealed),
        call_ensures(full_frame_len, (false, encoding), plain),
    ensures
        encoding == EncodingType::Binary ==> sealed + 12 + 16 + 10 + 2 == 16_384 && plain + 10 + 2
            == 16_384,
        encoding == EncodingType::Json ==> sealed == 14_282 && plain == 14_310,
{
}

/// The first stage whose last frame has not passed yields threshold and range for
/// a frame; behind the last stage the global ones hold.
proof fn lemma_rule(
    stages: Seq<ResolvedStage>,
    global: (usize, [usize; 2]),
    packet: nat,
    i: int,
)
    requires
        0 <= i <= stages.len(),
        i < stages.len() ==> packet <= stages[i].end_count,
        forall|j: int| 0 <= j < i ==> (#[trigger] stages[j]).end_count < packet,
    ensures
        i < stages.len() ==> traffic::padding_rule(stages, global, packet) == (
            stages[i].padding_threshold,
            stages[i].padding_range,
        ),
        i == stages.len() ==> traffic::padding_rule(stages, global, packet) == global,
{
    traffic::lemma_covers_first(stages, packet, i);
}

/// The padding of the next frame follows the stage that its number falls into:
/// none from that stage's threshold on, below it what was drawn, as far as there
/// is room. The payload is as long as header, data and padding.
pub proof fn law_stage_sets_padding<C: FrameCipher>(
    s: &mut TrafficShaper<C>,
    raw_len: usize,
    wanted: usize,
    i: int,
    full: usize,
    r: (usize, usize),
)
    requires
        call_ensures(TrafficShaper::<C>::resolve_padding, (s, raw_len, wanted), r),
        call_ensures(
            full_frame_len,
            (old(s).cipher_view() is Some, old(s).encoding_view()),
            full,
        ),
        raw_len <= full,
        0 <= i <= old(s).stages_view().len(),
        i < old(s).stages_view().len() ==> old(s).model().packets + 1
            <= old(s).stages_view()[i].end_count,
        forall|j: int|
            0 <= j < i ==> (#[trigger] old(s).stages_view()[j]).end_count < old(s).model().packets
                + 1,
    ensures
        ({
            let threshold = if i < old(s).stages_view().len() {
                old(s).stages_view()[i].padding_threshold
            } else {
                old(s).global_view().0
            };
            &&& r.0 == 10 + raw_len + r.1
            &&& raw_len >= threshold ==> r.1 == 0
            &&& raw_len < threshold && raw_len + wanted <= full ==> r.1 == wanted
            &&& raw_len < threshold && raw_len + wanted > full ==> raw_len + r.1 == full
        }),
        final(s).model().packets == old(s).model().packets + 1,
        final(s).model().seq == old(s).model().seq,
        final(s).model().raw == old(s).model().raw,
{
    lemma_rule(old(s).stages_view(), old(s).global_view(), old(s).model().packets + 1, i);
}

/// A frame that the shaper has written carries the first waiting bytes, as many as
/// fill a frame, under the next number. Its padding lies in the range of the stage
/// that its number falls into, as far as there is room. The other bytes wait on.
pub proof fn law_sealed_frame_follows_stage<C: FrameCipher>(
    s: &mut TrafficShaper<C>,
    out: &mut BytesMut,
    i: int,
    full: usize,
    n: int,
    threshold: usize,
    range: [usize; 2],
    seq: u64,
)
    requires
        call_ensures(TrafficShaper::<C>::seal_into, (s, out), Ok::<u64, FrameError>(seq)),
        call_ensures(
            full_frame_len,
            (old(s).cipher_view() is Some, old(s).encoding_view()),
            full,
        ),
        0 <= i <= old(s).stages_view().len(),
        i < old(s).stages_view().len() ==> old(s).model().packets + 1
            <= old(s).stages_view()[i].end_count,
        forall|j: int|
            0 <= j < i ==> (#[trigger] old(s).stages_view()[j]).end_count < old(s).model().packets
                + 1,
        n == if old(s).model().raw.len() < full {
            old(s).model().raw.len() as int
        } else {
            full as int
        },
        i < old(s).stages_view().len() ==> threshold == old(s).stages_view()[i].padding_threshold
            && range == old(s).stages_view()[i].padding_range,
        i == old(s).stages_view().len() ==> threshold == old(s).global_view().0 && range
            == old(s).global_view().1,
    ensures
        seq == old(s).model().seq,
        final(s).model().seq == old(s).model().seq + 1,
        final(s).model().packets == old(s).model().packets + 1,
        !final(s).model().timer_armed,
        buffer::buffered(*old(out)).is_prefix_of(buffer::buffered(*final(out))),
        final(s).model().raw == old(s).model().raw.skip(n),
        exists|pad: nat|
            {
                &&& #[trigger] frame::is_frame(
                    buffer::buffered(*final(out)).skip(buffer::buffered(*old(out)).len() as int),
                    old(s).encoding_view(),
                    old(s).cipher_view(),
                    seq,
                    old(s).model().raw.take(n),
                    pad,
                )
                &&& n >= threshold ==> pad == 0
                &&& n < threshold && n + range[1] <= full ==> range[0] <= pad <= range[1]
                &&& n < threshold && n + range[0] >= full ==> n + pad == full
            },
{
    let before = *old(s);
    let out_before = buffer::buffered(*old(out));
    let out_after = buffer::buffered(*final(out));
    lemma_rule(before.stages_view(), before.global_view(), before.model().packets + 1, i);
    let wanted = choose|wanted: nat| #[trigger]
        traffic::drawn_within(before, wanted) && traffic::sealed_step(
            before.model(),
            (*final(s)).model(),
            out_after.skip(out_before.len() as int),
            before.encoding_view(),
            before.cipher_view(),
            traffic::next_padding(before, wanted),
        );
    let pad = traffic::next_padding(before, wanted);
    assert(frame::is_frame(
        out_after.skip(out_before.len() as int),
        before.encoding_view(),
        before.cipher_view(),
        seq,
        before.model().raw.take(n),
        pad,
    ));
}

/// The shaper reads on while less than a frame waits, never past the high-water
/// mark, and seals at once what fills a frame.
pub proof fn law_shaper_reads_until_full<C: FrameCipher>(
    s: &mut TrafficShaper<C>,
    data: &[u8],
    out: &mut BytesMut,
    full: usize,
    r: Result<ShaperAction, FrameError>,
)
    requires
        call_ensures(
            TrafficShaper::<C>::poll_fill_and_seal,
            (s, ShaperEvent::Data(data), out),
            r,
        ),
        call_ensures(
            full_frame_len,
            (old(s).cipher_view() is Some, old(s).encoding_view()),
            full,
        ),
        old(s).model().raw.len() + data@.len() <= 32_768,
    ensures
        ({
            let raw = old(s).model().raw + data@;
            &&& raw.len() < full ==> {
                &&& r == Ok::<ShaperAction, FrameError>(
                    ShaperAction::Read { limit: (32_768 - raw.len()) as usize },
                )
                &&& final(s).model().raw == raw
                &&& final(s).model().seq == old(s).model().seq
                &&& final(s).model().timer_armed == old(s).model().timer_armed
                &&& buffer::buffered(*final(out)) == buffer::buffered(*old(out))
            }
            &&& raw.len() >= full && r is Ok ==> {
                &&& r->Ok_0 == ShaperAction::Sealed { seq: old(s).model().seq as u64 }
                &&& final(s).model().raw == raw.skip(full as int)
                &&& !final(s).model().timer_armed
            }
            &&& raw.len() >= full && r is Err ==> final(s).model().raw == raw
        }),
{
    if old(s).model().raw.len() + data@.len() >= full {
        let mid = choose|mid: TrafficShaper<C>| #[trigger]
            traffic::filled(*old(s), mid, data@) && traffic::action_outcome(
                mid,
                *final(s),
                buffer::buffered(*old(out)),
                buffer::buffered(*final(out)),
                r,
            );
    }
}

/// A shaper that is asked for a frame reads, unless a full one waits.
pub proof fn law_polled_shaper_reads<C: FrameCipher>(
    s: &mut TrafficShaper<C>,
    out: &mut BytesMut,
    full: usize,
    r: Result<ShaperAction, FrameError>,
)
    requires
        call_ensures(TrafficShaper::<C>::poll_fill_and_seal, (s, ShaperEvent::Polled, out), r),
        call_ensures(
            full_frame_len,
            (old(s).cipher_view() is Some, old(s).encoding_view()),
            full,
        ),
        old(s).model().raw.len() <= 32_768,
    ensures
        old(s).model().raw.len() < full ==> {
            &&& r == Ok::<ShaperAction, FrameError>(
                ShaperAction::Read { limit: (32_768 - old(s).model().raw.len()) as usize },
            )
            &&& final(s).model() == old(s).model()
            &&& buffer::buffered(*final(out)) == buffer::buffered(*old(out))
        },
        old(s).model().raw.len() >= full && r is Ok ==> {
            &&& r->Ok_0 == ShaperAction::Sealed { seq: old(s).model().seq as u64 }
            &&& final(s).model().raw == old(s).model().raw.skip(full as int)
        },
{
}

/// At the end of the source what still waits is sealed, and nothing is left to do
/// once nothing waits.
pub proof fn law_end_flushes_shaper<C: FrameCipher>(
    s: &mut TrafficShaper<C>,
    out: &mut BytesMut,
    full: usize,
    r: Result<ShaperAction, FrameError>,
)
    requires
        call_ensures(TrafficShaper::<C>::poll_fill_and_seal, (s, ShaperEvent::Eof, out), r),
        call_ensures(
            full_frame_len,
            (old(s).cipher_view() is Some, old(s).encoding_view()),
            full,
        ),
    ensures
        old(s).model().raw.len() == 0 ==> r == Ok::<ShaperAction, FrameError>(ShaperAction::Finished)
            && final(s).model() == old(s).model() && buffer::buffered(*final(out))
            == buffer::buffered(*old(out)),
        0 < old(s).model().raw.len() <= full && r is Ok ==> r->Ok_0 == (ShaperAction::Sealed {
            seq: old(s).model().seq as u64,
        }) && final(s).model().raw.len() == 0,
        full < old(s).model().raw.len() && r is Ok ==> r->Ok_0 == (ShaperAction::Sealed {
            seq: old(s).model().seq as u64,
        }) && final(s).model().raw == old(s).model().raw.skip(full as int),
{
}

/// A source that has nothing: with nothing waiting the shaper waits for it, with a
/// full frame it seals, and with less it sets the flush timer, once, from entry
/// after entry of the delay table.
pub proof fn law_timer_is_set_once<C: FrameCipher>(
    s: &mut TrafficShaper<C>,
    out: &mut BytesMut,
    full: usize,
    r: Result<ShaperAction, FrameError>,
)
    requires
        call_ensures(TrafficShaper::<C>::poll_fill_and_seal, (s, ShaperEvent::NotReady, out), r),
        call_ensures(
            full_frame_len,
            (old(s).cipher_view() is Some, old(s).encoding_view()),
            full,
        ),
        old(s).model().cursor < 8192,
    ensures
        ({
            let before = old(s).model();
            let after = final(s).model();
            &&& before.raw.len() == 0 ==> r == Ok::<ShaperAction, FrameError>(ShaperAction::Wait)
                && after == before
            &&& before.raw.len() >= full && r is Ok ==> r->Ok_0 is Sealed && after.raw
                == before.raw.skip(full as int)
            &&& 0 < before.raw.len() < full && before.timer_armed ==> r == Ok::<
                ShaperAction,
                FrameError,
            >(ShaperAction::WaitTimer) && after == before
            &&& 0 < before.raw.len() < full && !before.timer_armed ==> {
                &&& r == Ok::<ShaperAction, FrameError>(
                    ShaperAction::ArmTimer { slot: before.cursor as usize },
                )
                &&& after.timer_armed
                &&& after.raw == before.raw
                &&& after.seq == before.seq
                &&& before.cursor < 8191 ==> after.cursor == before.cursor + 1
                &&& before.cursor == 8191 ==> after.cursor == 0
            }
            &&& before.raw.len() < full ==> buffer::buffered(*final(out)) == buffer::buffered(
                *old(out),
            )
        }),
{
}

/// When the flush timer has run out, what waits is sealed, up to a full frame.
pub proof fn law_timer_flushes_shaper<C: FrameCipher>(
    s: &mut TrafficShaper<C>,
    out: &mut BytesMut,
    full: usize,
    r: Result<ShaperAction, FrameError>,
)
    requires
        call_ensures(TrafficShaper::<C>::poll_fill_and_seal, (s, ShaperEvent::TimerFired, out), r),
        call_ensures(
            full_frame_len,
            (old(s).cipher_view() is Some, old(s).encoding_view()),
            full,
        ),
    ensures
        r is Ok ==> r->Ok_0 == (ShaperAction::Sealed { seq: old(s).model().seq as u64 }),
        r is Ok && old(s).model().raw.len() <= full ==> final(s).model().raw.len() == 0,
        r is Ok && old(s).model().raw.len() > full ==> final(s).model().raw
            == old(s).model().raw.skip(full as int),
        r is Err ==> final(s).model().raw == old(s).model().raw,
        !final(s).model().timer_armed,
{
}

/// A shaper starts with nothing waiting and no frame counted, at the number and
/// the table entry that it was given.
pub proof fn law_shaper_starts_empty<C: FrameCipher>(
    config: &ResolvedShaperConfig,
    cipher: Option<C>,
    start_seq: u64,
    cursor: usize,
    r: TrafficShaper<C>,
)
    requires
        call_ensures(
            TrafficShaper::<C>::with_cursor,
            (config, cipher, start_seq, cursor),
            r,
        ),
    ensures
        r.model().raw.len() == 0,
        r.model().seq == start_seq,
        r.model().packets == 0,
        !r.model().timer_armed,
        r.model().cursor < 8192,
        cursor < 8192 ==> r.model().cursor == cursor,
        r.stages_view() == config.stages@,
        r.global_view() == (config.global_threshold, config.global_range),
        r.encoding_view() == config.encoding,
{
}

/// Settings hold exactly where no range runs downwards. The global range is
/// reported first, and else the first stage whose range does.
pub proof fn law_first_bad_range_is_reported(
    config: &TrafficConfig,
    i: int,
    r: Result<(), PaddingRangeError>,
)
    requires
        call_ensures(TrafficConfig::validate, (config,), r),
        0 <= i <= config.stages@.len(),
        forall|j: int|
            0 <= j < i ==> (#[trigger] config.stages@[j]).padding_range[0]
                <= config.stages@[j].padding_range[1],
        i < config.stages@.len() ==> config.stages@[i].padding_range[0]
            > config.stages@[i].padding_range[1],
    ensures
        config.global.padding_range[0] > config.global.padding_range[1] ==> r == Err::<
            (),
            PaddingRangeError,
        >(
            PaddingRangeError::Global {
                low: config.global.padding_range[0],
                high: config.global.padding_range[1],
            },
        ),
        config.global.padding_range[0] <= config.global.padding_range[1] && i
            == config.stages@.len() ==> r is Ok,
        config.global.padding_range[0] <= config.global.padding_range[1] && i < config.stages@.len()
            ==> r == Err::<(), PaddingRangeError>(
            PaddingRangeError::Stage {
                index: i as usize,
                low: config.stages@[i].padding_range[0],
                high: config.stages@[i].padding_range[1],
            },
        ),
{
    lemma_stage_defect(config.stages@, 0, i);
}

proof fn lemma_stage_defect(stages: Seq<StageConfig>, from: int, i: int)
    requires
        0 <= from <= i <= stages.len(),
        forall|j: int|
            from <= j < i ==> (#[trigger] stages[j]).padding_range[0] <= stages[j].padding_range[1],
        i < stages.len() ==> stages[i].padding_range[0] > stages[i].padding_range[1],
    ensures
        crate::shaper::config::stage_defect(stages, from as nat) == if i < stages.len() {
            Some(
                PaddingRangeError::Stage {
                    index: i as usize,
                    low: stages[i].padding_range[0],
                    high: stages[i].padding_range[1],
                },
            )
        } else {
            None
        },
    decreases i - from,
{
    if from < i {
        lemma_stage_defect(stages, from + 1, i);
    }
}

/// A stage ends with the frame that its count names, or else the upper end of its
/// range of counts; without either it covers no frame. No stage is lost or added,
/// and a stage that ends sooner stands first.
pub proof fn law_stages_are_resolved(config: &TrafficConfig, i: int, r: ResolvedShaperConfig)
    requires
        call_ensures(ResolvedShaperConfig::resolve, (config,), r),
        0 <= i < config.stages@.len(),
    ensures
        r.stages@.len() == config.stages@.len(),
        exists|k: int|
            {
                let s = config.stages@[i];
                &&& 0 <= k < r.stages@.len()
                &&& (#[trigger] r.stages@[k]).padding_threshold == s.padding_threshold
                &&& r.stages@[k].padding_range == s.padding_range
                &&& s.count is Some ==> r.stages@[k].end_count == s.count->0
                &&& s.count is None && s.count_range is Some ==> r.stages@[k].end_count
                    == s.count_range->0[1]
                &&& s.count is None && s.count_range is None ==> r.stages@[k].end_count == 0
            },
        forall|a: int, b: int|
            0 <= a <= b < r.stages@.len() ==> (#[trigger] r.stages@[a]).end_count <= (
            #[trigger] r.stages@[b]).end_count,
        r.global_threshold == config.global.padding_threshold,
        r.global_range == config.global.padding_range,
        r.encoding == config.encoding_type,
{
    broadcast use vstd::seq_lib::group_to_multiset_ensures;

    let mapped = config.stages@.map_values(
        |s: StageConfig| crate::shaper::config::resolved_stage(s),
    );
    let stage = mapped[i];
    assert(r.stages@.to_multiset().len() == mapped.to_multiset().len());
    assert(mapped.contains(stage));
    assert(mapped.to_multiset().count(stage) > 0);
    assert(r.stages@.to_multiset().count(stage) > 0);
    assert(r.stages@.contains(stage));
    let k = choose|k: int| 0 <= k < r.stages@.len() && r.stages@[k] == stage;
    assert(r.stages@[k] == stage);
}

/// With the number that was drawn, the padding of a frame is that number where the frame
/// is below its stage's threshold and has room, and fills the frame where it has not.
pub proof fn law_drawn_frame_follows_stage<C: FrameCipher>(
    s: &mut TrafficShaper<C>,
    wanted: usize,
    out: &mut BytesMut,
    i: int,
    full: usize,
    n: int,
    threshold: usize,
    pad: nat,
    seq: u64,
)
    requires
        call_ensures(
            TrafficShaper::<C>::seal_drawn,
            (s, wanted, out),
            Ok::<u64, FrameError>(seq),
        ),
        call_ensures(
            full_frame_len,
            (old(s).cipher_view() is Some, old(s).encoding_view()),
            full,
        ),
        0 <= i <= old(s).stages_view().len(),
        i < old(s).stages_view().len() ==> old(s).model().packets + 1
            <= old(s).stages_view()[i].end_count,
        forall|j: int|
            0 <= j < i ==> (#[trigger] old(s).stages_view()[j]).end_count < old(s).model().packets
                + 1,
        n == if old(s).model().raw.len() < full {
            old(s).model().raw.len() as int
        } else {
            full as int
        },
        i < old(s).stages_view().len() ==> threshold == old(s).stages_view()[i].padding_threshold,
        i == old(s).stages_view().len() ==> threshold == old(s).global_view().0,
        n >= threshold ==> pad == 0,
        n < threshold && n + wanted <= full ==> pad == wanted,
        n < threshold && n + wanted > full ==> n + pad == full,
    ensures
        seq == old(s).model().seq,
        final(s).model().seq == old(s).model().seq + 1,
        final(s).model().packets == old(s).model().packets + 1,
        final(s).model().raw == old(s).model().raw.skip(n),
        buffer::buffered(*old(out)).is_prefix_of(buffer::buffered(*final(out))),
        frame::is_frame(
            buffer::buffered(*final(out)).skip(buffer::buffered(*old(out)).len() as int),
            old(s).encoding_view(),
            old(s).cipher_view(),
            seq,
            old(s).model().raw.take(n),
            pad,
        ),
{
    lemma_rule(old(s).stages_view(), old(s).global_view(), old(s).model().packets + 1, i);
    assert(traffic::next_padding(*old(s), wanted as nat) == pad);
}

/// A shaper that starts anywhere in the delay table starts within it.
pub proof fn law_shaper_starts_in_table<C: FrameCipher>(
    config: &ResolvedShaperConfig,
    cipher: Option<C>,
    start_seq: u64,
    r: TrafficShaper<C>,
)
    requires
        call_ensures(TrafficShaper::<C>::with_seq, (config, cipher, start_seq), r),
    ensures
        r.model().raw.len() == 0,
        r.model().seq == start_seq,
        r.model().packets == 0,
        !r.model().timer_armed,
        r.model().cursor < 8192,
        r.stages_view() == config.stages@,
        r.global_view() == (config.global_threshold, config.global_range),
        r.encoding_view() == config.encoding,
        r.cipher_view() is Some <==> cipher is Some,
{
}

} // verus!
