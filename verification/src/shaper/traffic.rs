//! The traffic shaper: collects bytes, decides when to send them and seals them into padded frames.
use crate::buffer;
use crate::crypto::{NONCE_LEN, TAG_LEN};
use crate::shaper::cipher;
use crate::shaper::config;
use crate::shaper::frame;
use crate::shaper::laws;
use crate::shaper::frame::{
    EncodingType, HEADER_LEN, JSON_PAYLOAD_CAP_CIPHER, JSON_PAYLOAD_CAP_PLAIN,
    MAX_BINARY_FRAME_LEN, MAX_RAW_PAYLOAD,
};
use crate::shaper::{FrameCipher, FrameError, ResolvedShaperConfig, ResolvedStage};
use crate::wire;
use bytes::BytesMut;
use vstd::prelude::*;
use vstd::slice::slice_subrange;

verus! {

/// The most bytes that wait to be sealed.
pub const READ_HIGH_WATER: usize = 32768;

/// Entries of the delay table.
pub const TABLE_SIZE: usize = 8192;

/// The data that fills a frame.
pub open spec fn full_frame(sealed: bool, encoding: EncodingType) -> usize {
    match encoding {
        EncodingType::Binary => if sealed {
            (MAX_RAW_PAYLOAD - (NONCE_LEN + TAG_LEN + HEADER_LEN + 2)) as usize
        } else {
            (MAX_RAW_PAYLOAD - (HEADER_LEN + 2)) as usize
        },
        EncodingType::Json => if sealed {
            JSON_PAYLOAD_CAP_CIPHER
        } else {
            JSON_PAYLOAD_CAP_PLAIN
        },
    }
}

/// The data that fills a frame.
pub fn full_frame_len(sealed: bool, encoding: EncodingType) -> (r: usize)
    ensures
        r == full_frame(sealed, encoding),
{
    match encoding {
        EncodingType::Binary => if sealed {
            MAX_RAW_PAYLOAD - (NONCE_LEN + TAG_LEN + HEADER_LEN + 2)
        } else {
            MAX_RAW_PAYLOAD - (HEADER_LEN + 2)
        },
        EncodingType::Json => if sealed {
            JSON_PAYLOAD_CAP_CIPHER
        } else {
            JSON_PAYLOAD_CAP_PLAIN
        },
    }
}

/// `i` is the first stage that covers frame number `packet`, or the number of stages.
pub open spec fn covers_first(stages: Seq<ResolvedStage>, packet: nat, i: int) -> bool {
    &&& 0 <= i <= stages.len()
    &&& i < stages.len() ==> packet <= stages[i].end_count
    &&& forall|j: int| 0 <= j < i ==> (#[trigger] stages[j]).end_count < packet
}

/// Threshold and range for frame number `packet`: those of the first stage
/// that covers it, else the global ones.
pub open spec fn padding_rule(
    stages: Seq<ResolvedStage>,
    global: (usize, [usize; 2]),
    packet: nat,
) -> (usize, [usize; 2]) {
    let i = choose|i: int| covers_first(stages, packet, i);
    if i < stages.len() {
        (stages[i].padding_threshold, stages[i].padding_range)
    } else {
        global
    }
}

/// Only one stage covers a frame first.
pub proof fn lemma_covers_first(stages: Seq<ResolvedStage>, packet: nat, i: int)
    requires
        covers_first(stages, packet, i),
    ensures
        (choose|k: int| covers_first(stages, packet, k)) == i,
{
    let k = choose|k: int| covers_first(stages, packet, k);
    if k < i {
        assert(stages[k].end_count < packet);
    } else if i < k {
        assert(stages[i].end_count < packet);
    }
}

/// A frame number past the end of one stage in packet order is past the ends
/// of all earlier ones: once a stage is left it never returns.
pub proof fn law_stages_progress(stages: Seq<ResolvedStage>, packet: nat, later: nat, i: int, j: int)
    requires
        config::in_packet_order(stages),
        packet <= later,
        covers_first(stages, packet, i),
        covers_first(stages, later, j),
    ensures
        i <= j,
{
    if j < i {
        assert(stages[j].end_count < packet);
    }
}

/// Behind the last stage the global rule holds.
pub proof fn law_fall_back_to_global(
    stages: Seq<ResolvedStage>,
    global: (usize, [usize; 2]),
    packet: nat,
)
    requires
        forall|i: int| 0 <= i < stages.len() ==> (#[trigger] stages[i]).end_count < packet,
    ensures
        padding_rule(stages, global, packet) == global,
{
    assert(covers_first(stages, packet, stages.len() as int));
    lemma_covers_first(stages, packet, stages.len() as int);
}

/// What a shaper has done and holds.
pub struct ShaperModel {
    /// Bytes that wait to be sealed.
    pub raw: Seq<u8>,
    /// The next frame's sequence number.
    pub seq: nat,
    /// Frames begun so far.
    pub packets: nat,
    /// Whether the flush timer runs.
    pub timer_armed: bool,
    /// The next entry of the delay table.
    pub cursor: nat,
}

/// Collects bytes and seals them into frames.
pub struct TrafficShaper<C: FrameCipher> {
    raw_buf: BytesMut,
    timer_armed: bool,
    cursor: usize,
    stages: Vec<ResolvedStage>,
    global_threshold: usize,
    global_range: [usize; 2],
    packet_count: usize,
    stage_idx: usize,
    cipher: Option<C>,
    encoding: EncodingType,
    seal_threshold: usize,
    seq: u64,
}

/// What happened to the shaper's source.
pub enum ShaperEvent<'a> {
    /// The shaper was asked for a frame.
    Polled,
    /// The source gave bytes.
    Data(&'a [u8]),
    /// The source has ended.
    Eof,
    /// The source has nothing now.
    NotReady,
    /// The flush timer has run out.
    TimerFired,
}

/// What is to be done next.
#[derive(Debug, Clone, Copy, PartialEq, Eq, Structural)]
pub enum ShaperAction {
    /// Read at most `limit` bytes from the source.
    Read { limit: usize },
    /// A frame with this number was written.
    Sealed { seq: u64 },
    /// Everything was sent.
    Finished,
    /// Wait for the source.
    Wait,
    /// Wait for the source or the flush timer, which is first set to the
    /// delay in the given entry of the delay table.
    ArmTimer { slot: usize },
    /// Wait for the source or the flush timer.
    WaitTimer,
}

/// `n` bytes of the model's data were written as one frame with `pad` bytes of padding.
pub open spec fn sealed_step<C: FrameCipher>(
    before: ShaperModel,
    after: ShaperModel,
    written: Seq<u8>,
    encoding: EncodingType,
    cipher: Option<&C>,
    pad: nat,
) -> bool {
    let n = frame_share(before.raw, cipher is Some, encoding);
    &&& after.raw == before.raw.skip(n)
    &&& frame::is_frame(written, encoding, cipher, before.seq as u64, before.raw.take(n), pad)
    &&& begun(before, after)
}

/// How much of the waiting bytes goes into the next frame.
pub open spec fn frame_share(raw: Seq<u8>, sealed: bool, encoding: EncodingType) -> int {
    if raw.len() < full_frame(sealed, encoding) {
        raw.len() as int
    } else {
        full_frame(sealed, encoding) as int
    }
}

/// A frame was begun: its number is spent and the flush timer is off.
pub open spec fn begun(before: ShaperModel, after: ShaperModel) -> bool {
    &&& after.seq == before.seq + 1
    &&& after.packets == before.packets + 1
    &&& !after.timer_armed
    &&& after.cursor == before.cursor
}

impl<C: FrameCipher> TrafficShaper<C> {
    /// The shaper's state.
    pub closed spec fn model(self) -> ShaperModel {
        ShaperModel {
            raw: buffer::buffered(self.raw_buf),
            seq: self.seq as nat,
            packets: self.packet_count as nat,
            timer_armed: self.timer_armed,
            cursor: self.cursor as nat,
        }
    }

    /// The cipher.
    pub closed spec fn cipher_view(&self) -> Option<&C> {
        match &self.cipher {
            Some(c) => Some(c),
            None => None,
        }
    }

    /// How frames are written.
    pub closed spec fn encoding_view(&self) -> EncodingType {
        self.encoding
    }

    /// The stages.
    pub closed spec fn stages_view(&self) -> Seq<ResolvedStage> {
        self.stages@
    }

    /// Threshold and range outside all stages.
    pub closed spec fn global_view(&self) -> (usize, [usize; 2]) {
        (self.global_threshold, self.global_range)
    }

    /// Everything but the state is as in `other`.
    pub open spec fn same_settings(&self, other: &Self) -> bool {
        &&& self.cipher_view() == other.cipher_view()
        &&& self.encoding_view() == other.encoding_view()
        &&& self.stages_view() == other.stages_view()
        &&& self.global_view() == other.global_view()
    }

    /// The waiting bytes stay below the high-water mark, every stage already
    /// left lies behind, and every padding range runs upwards.
    pub closed spec fn wf(&self) -> bool {
        &&& buffer::buffered(self.raw_buf).len() <= READ_HIGH_WATER
        &&& self.cursor < TABLE_SIZE
        &&& self.seal_threshold == full_frame(self.cipher is Some, self.encoding)
        &&& self.stage_idx <= self.stages@.len()
        &&& forall|i: int|
            0 <= i < self.stage_idx ==> (#[trigger] self.stages@[i]).end_count < self.packet_count
        &&& config::is_ordered(self.global_range)
        &&& forall|i: int|
            0 <= i < self.stages@.len() ==> config::is_ordered(
                #[trigger] self.stages@[i].padding_range,
            )
    }

    /// There is a number left for one more frame.
    pub open spec fn has_number(&self) -> bool {
        self.model().seq < u64::MAX && self.model().packets < usize::MAX
    }

    /// A shaper that numbers its frames from `start_seq` and starts anywhere in the delay table.
    pub fn with_seq(config: &ResolvedShaperConfig, cipher: Option<C>, start_seq: u64) -> (r: Self)
        requires
            config::is_ordered(config.global_range),
            forall|i: int|
                0 <= i < config.stages@.len() ==> config::is_ordered(
                    #[trigger] config.stages@[i].padding_range,
                ),
        ensures
            r.wf(),
            r.model() == (ShaperModel {
                raw: Seq::empty(),
                seq: start_seq as nat,
                packets: 0,
                timer_armed: false,
                cursor: r.model().cursor,
            }),
            r.model().cursor < TABLE_SIZE,
            r.cipher_view() == (match cipher {
                Some(c) => Some(&c),
                None => None,
            }),
            r.encoding_view() == config.encoding,
            r.stages_view() == config.stages@,
            r.global_view() == (config.global_threshold, config.global_range),
    {
        let cursor: usize = frame::random_between(0, TABLE_SIZE - 1);
        Self::with_cursor(config, cipher, start_seq, cursor)
    }

    /// A shaper that numbers its frames from `start_seq` and starts with entry `cursor` of the
    /// delay table.
    pub fn with_cursor(
        config: &ResolvedShaperConfig,
        cipher: Option<C>,
        start_seq: u64,
        cursor: usize,
    ) -> (r: Self)
        requires
            config::is_ordered(config.global_range),
            forall|i: int|
                0 <= i < config.stages@.len() ==> config::is_ordered(
                    #[trigger] config.stages@[i].padding_range,
                ),
        ensures
            r.wf(),
            r.model() == (ShaperModel {
                raw: Seq::empty(),
                seq: start_seq as nat,
                packets: 0,
                timer_armed: false,
                cursor: cursor as nat % TABLE_SIZE as nat,
            }),
            r.cipher_view() == (match cipher {
                Some(c) => Some(&c),
                None => None,
            }),
            r.encoding_view() == config.encoding,
            r.stages_view() == config.stages@,
            r.global_view() == (config.global_threshold, config.global_range),
    {
        let seal_threshold: usize = full_frame_len(cipher.is_some(), config.encoding);
        let mut stages: Vec<ResolvedStage> = Vec::with_capacity(config.stages.len());
        let mut i: usize = 0;
        while i < config.stages.len()
            invariant
                i <= config.stages@.len(),
                stages@ =~= config.stages@.take(i as int),
            decreases config.stages@.len() - i,
        {
            stages.push(config.stages[i]);
            i = i + 1;
        }
        TrafficShaper {
            raw_buf: buffer::buf_new(),
            timer_armed: false,
            cursor: cursor % TABLE_SIZE,
            stages,
            global_threshold: config.global_threshold,
            global_range: config.global_range,
            packet_count: 0,
            stage_idx: 0,
            cipher,
            encoding: config.encoding,
            seal_threshold,
            seq: start_seq,
        }
    }

    /// Counts a frame and returns threshold and range that hold for it.
    fn next_rule(&mut self) -> (r: (usize, [usize; 2]))
        requires
            old(self).wf(),
            old(self).packet_count < usize::MAX,
        ensures
            final(self).wf(),
            final(self).same_settings(old(self)),
            final(self).model() == (ShaperModel {
                packets: old(self).model().packets + 1,
                ..old(self).model()
            }),
            r == padding_rule(
                old(self).stages_view(),
                old(self).global_view(),
                old(self).model().packets + 1,
            ),
            config::is_ordered(r.1),
    {
        self.packet_count = self.packet_count + 1;
        let pc: usize = self.packet_count;
        let mut si: usize = self.stage_idx;
        while si < self.stages.len() && pc > self.stages[si].end_count
            invariant
                si <= self.stages@.len(),
                pc == self.packet_count,
                forall|i: int| 0 <= i < si ==> (#[trigger] self.stages@[i]).end_count < pc,
            decreases self.stages@.len() - si,
        {
            si = si + 1;
        }
        self.stage_idx = si;
        proof {
            assert(covers_first(self.stages@, pc as nat, si as int));
            lemma_covers_first(self.stages@, pc as nat, si as int);
        }
        if si < self.stages.len() {
            (self.stages[si].padding_threshold, self.stages[si].padding_range)
        } else {
            (self.global_threshold, self.global_range)
        }
    }

    /// Counts a frame of `raw_len` bytes for which `wanted` bytes of padding
    /// were drawn, and returns the lengths of payload and padding.
    pub fn resolve_padding(&mut self, raw_len: usize, wanted: usize) -> (r: (usize, usize))
        requires
            old(self).wf(),
            old(self).model().packets < usize::MAX,
            raw_len <= full_frame(old(self).cipher_view() is Some, old(self).encoding_view()),
        ensures
            final(self).wf(),
            final(self).same_settings(old(self)),
            final(self).model() == (ShaperModel {
                packets: old(self).model().packets + 1,
                ..old(self).model()
            }),
            r.1 == frame::padding_for(
                raw_len as nat,
                full_frame(old(self).cipher_view() is Some, old(self).encoding_view()) as nat,
                padding_rule(
                    old(self).stages_view(),
                    old(self).global_view(),
                    old(self).model().packets + 1,
                ).0 as nat,
                wanted as nat,
            ),
            r.0 == HEADER_LEN + raw_len + r.1,
    {
        let (threshold, _range): (usize, [usize; 2]) = self.next_rule();
        let pad: usize = frame::padding_len(raw_len, self.seal_threshold, threshold, wanted);
        (HEADER_LEN + raw_len + pad, pad)
    }

    /// Writes the sealed or plain form of `payload` as one frame behind `out`.
    fn write_frame(&self, payload: &[u8], out: &mut BytesMut) -> (r: Result<(), FrameError>)
        requires
            self.wf(),
            payload@.len() <= HEADER_LEN + full_frame(self.cipher is Some, self.encoding),
            buffer::buffered(*old(out)).len() + 0x10_0000 <= isize::MAX,
        ensures
            buffer::buffered(*old(out)).is_prefix_of(buffer::buffered(*final(out))),
            r is Ok <==> frame::can_seal(self.cipher_view(), payload@.len()),
            r is Ok ==> exists|body: Seq<u8>| #[trigger]
                frame::is_body(self.cipher_view(), body, payload@) && frame::is_writable(
                    self.encoding,
                    body,
                ) && buffer::buffered(*final(out)) == buffer::buffered(*old(out)) + frame::framed(
                    self.encoding,
                    body,
                ),
    {
        let ghost start = buffer::buffered(*out);
        match (&self.cipher, self.encoding) {
            (Some(c), EncodingType::Binary) => {
                // The length and room for the nonce come first; the payload is sealed in place.
                let enc_len: usize = NONCE_LEN + payload.len() + TAG_LEN;
                let mut head: Vec<u8> = Vec::with_capacity(2 + NONCE_LEN);
                wire::push_u16_be(&mut head, enc_len as u16);
                proof {
                    wire::lemma_be_bytes_len(enc_len as nat, 2);
                }
                buffer::buf_put(out, &head);
                let nonce_start: usize = buffer::buf_len(out);
                let gap: [u8; 12] = [0u8; 12];
                buffer::buf_put(out, &gap);
                let ct_start: usize = buffer::buf_len(out);
                buffer::buf_put(out, payload);
                let ghost placed = buffer::buffered(*out);
                proof {
                    assert(placed.skip(ct_start as int) =~= payload@);
                    assert(placed.take(nonce_start as int) =~= start + wire::be_bytes(
                        enc_len as nat,
                        2,
                    ));
                }
                match c.seal_in_place(out, nonce_start, ct_start) {
                    Ok(_) => {
                        proof {
                            let done = buffer::buffered(*out);
                            let body = done.skip(nonce_start as int);
                            assert(done.take(nonce_start as int) =~= placed.take(nonce_start as int));
                            assert(done =~= done.take(nonce_start as int) + body);
                            assert(frame::is_body(self.cipher_view(), body, payload@));
                            assert(done =~= start + frame::framed(self.encoding, body));
                        }
                        Ok(())
                    },
                    Err(e) => {
                        proof {
                            let done = buffer::buffered(*out);
                            assert(start =~= placed.take(nonce_start as int).take(start.len() as int));
                            assert(start =~= done.take(start.len() as int));
                        }
                        Err(e)
                    },
                }
            },
            (Some(c), EncodingType::Json) => {
                let mut sealed: BytesMut = buffer::buf_new();
                match c.encrypt_into(payload, &mut sealed) {
                    Ok(_) => {
                        proof {
                            let body = buffer::buffered(sealed);
                            assert(body.skip(0) =~= body);
                            assert(frame::is_body(self.cipher_view(), body, payload@));
                        }
                        frame::write_encoded_frame(out, buffer::buf_slice(&sealed), self.encoding);
                        Ok(())
                    },
                    Err(e) => Err(e),
                }
            },
            (None, _) => {
                proof {
                    assert(frame::is_body(self.cipher_view(), payload@, payload@));
                }
                frame::write_encoded_frame(out, payload, self.encoding);
                Ok(())
            },
        }
    }

    /// Writes the next frame behind `out`, with padding as if `wanted` bytes had been drawn.
    pub fn seal_drawn(&mut self, wanted: usize, out: &mut BytesMut) -> (r: Result<u64, FrameError>)
        requires
            old(self).wf(),
            old(self).has_number(),
            buffer::buffered(*old(out)).len() + 0x10_0000 <= isize::MAX,
        ensures
            final(self).wf(),
            final(self).same_settings(old(self)),
            begun(old(self).model(), final(self).model()),
            buffer::buffered(*old(out)).is_prefix_of(buffer::buffered(*final(out))),
            r is Ok <==> frame::can_seal(
                old(self).cipher_view(),
                (HEADER_LEN + frame_share(
                    old(self).model().raw,
                    old(self).cipher_view() is Some,
                    old(self).encoding_view(),
                ) + next_padding(*old(self), wanted as nat)) as nat,
            ),
            r is Err ==> final(self).model().raw == old(self).model().raw,
            r matches Ok(seq) ==> seq == old(self).model().seq && sealed_step(
                old(self).model(),
                final(self).model(),
                buffer::buffered(*final(out)).skip(buffer::buffered(*old(out)).len() as int),
                old(self).encoding_view(),
                old(self).cipher_view(),
                next_padding(*old(self), wanted as nat),
            ),
    {
        let waiting: usize = buffer::buf_len(&self.raw_buf);
        let raw_len: usize = if waiting < self.seal_threshold {
            waiting
        } else {
            self.seal_threshold
        };
        self.timer_armed = false;
        let seq: u64 = self.seq;
        self.seq = seq + 1;
        let (_payload_len, pad): (usize, usize) = self.resolve_padding(raw_len, wanted);
        let share = slice_subrange(buffer::buf_slice(&self.raw_buf), 0, raw_len);
        let payload: Vec<u8> = frame::build_payload(share, seq, pad);
        let ghost start = buffer::buffered(*out);
        match self.write_frame(&payload, out) {
            Ok(_) => {
                proof {
                    let body = choose|body: Seq<u8>| #[trigger]
                        frame::is_body(self.cipher_view(), body, payload@) && frame::is_writable(
                            self.encoding,
                            body,
                        ) && buffer::buffered(*out) == start + frame::framed(self.encoding, body);
                    assert(buffer::buffered(*out).skip(start.len() as int) =~= frame::framed(
                        self.encoding,
                        body,
                    ));
                    assert(share@ =~= old(self).model().raw.take(raw_len as int));
                }
                buffer::buf_advance(&mut self.raw_buf, raw_len);
                Ok(seq)
            },
            Err(e) => Err(e),
        }
    }

    /// Writes the next frame behind `out`. Its padding is drawn from the range
    /// of the stage that covers it.
    pub fn seal_into(&mut self, out: &mut BytesMut) -> (r: Result<u64, FrameError>)
        requires
            old(self).wf(),
            old(self).has_number(),
            buffer::buffered(*old(out)).len() + 0x10_0000 <= isize::MAX,
        ensures
            final(self).wf(),
            final(self).same_settings(old(self)),
            seal_outcome(*old(self), *final(self), buffer::buffered(*old(out)), buffer::buffered(*final(out)), r),
    {
        let range: [usize; 2] = self.upcoming_range();
        let wanted: usize = frame::random_between(range[0], range[1]);
        let r = self.seal_drawn(wanted, out);
        proof {
            if r is Ok {
                assert(drawn_within(*old(self), wanted as nat));
            }
        }
        r
    }

    /// Takes one event of the source and says what is to be done next.
    ///
    /// A full frame is sealed at once. Less than that waits for more data, for
    /// the end of the source, or for the flush timer, which is set once per frame.
    pub fn poll_fill_and_seal(&mut self, event: ShaperEvent, out: &mut BytesMut) -> (r: Result<
        ShaperAction,
        FrameError,
    >)
        requires
            old(self).wf(),
            old(self).has_number(),
            buffer::buffered(*old(out)).len() + 0x10_0000 <= isize::MAX,
            event matches ShaperEvent::Data(d) ==> old(self).model().raw.len() + d@.len()
                <= READ_HIGH_WATER,
            event is TimerFired ==> old(self).model().raw.len() > 0,
        ensures
            final(self).wf(),
            final(self).same_settings(old(self)),
            step_outcome(
                *old(self),
                *final(self),
                event,
                buffer::buffered(*old(out)),
                buffer::buffered(*final(out)),
                r,
            ),
    {
        match event {
            ShaperEvent::Polled => {},
            ShaperEvent::Data(d) => {
                buffer::buf_put(&mut self.raw_buf, d);
                proof {
                    assert(filled(*old(self), *self, d@));
                }
            },
            ShaperEvent::Eof => {
                if buffer::buf_len(&self.raw_buf) == 0 {
                    return Ok(ShaperAction::Finished);
                }
                return self.seal_action(out);
            },
            ShaperEvent::NotReady => {
                let waiting: usize = buffer::buf_len(&self.raw_buf);
                if waiting == 0 {
                    return Ok(ShaperAction::Wait);
                }
                if waiting >= self.seal_threshold {
                    return self.seal_action(out);
                }
                if self.timer_armed {
                    return Ok(ShaperAction::WaitTimer);
                }
                let slot: usize = self.cursor;
                self.cursor = (slot + 1) % TABLE_SIZE;
                self.timer_armed = true;
                return Ok(ShaperAction::ArmTimer { slot });
            },
            ShaperEvent::TimerFired => {
                return self.seal_action(out);
            },
        }
        let waiting: usize = buffer::buf_len(&self.raw_buf);
        if waiting >= self.seal_threshold {
            self.seal_action(out)
        } else {
            Ok(ShaperAction::Read { limit: READ_HIGH_WATER - waiting })
        }
    }

    /// `seal_into` with its number as an action.
    fn seal_action(&mut self, out: &mut BytesMut) -> (r: Result<ShaperAction, FrameError>)
        requires
            old(self).wf(),
            old(self).has_number(),
            buffer::buffered(*old(out)).len() + 0x10_0000 <= isize::MAX,
        ensures
            final(self).wf(),
            final(self).same_settings(old(self)),
            action_outcome(
                *old(self),
                *final(self),
                buffer::buffered(*old(out)),
                buffer::buffered(*final(out)),
                r,
            ),
    {
        match self.seal_into(out) {
            Ok(seq) => Ok(ShaperAction::Sealed { seq }),
            Err(e) => Err(e),
        }
    }

    /// The padding range that holds for the next frame.
    fn upcoming_range(&self) -> (r: [usize; 2])
        requires
            self.wf(),
            self.packet_count < usize::MAX,
        ensures
            r == padding_rule(
                self.stages_view(),
                self.global_view(),
                self.model().packets + 1,
            ).1,
            config::is_ordered(r),
    {
        let pc: usize = self.packet_count + 1;
        let mut si: usize = self.stage_idx;
        while si < self.stages.len() && pc > self.stages[si].end_count
            invariant
                si <= self.stages@.len(),
                pc == self.packet_count + 1,
                forall|i: int| 0 <= i < si ==> (#[trigger] self.stages@[i]).end_count < pc,
            decreases self.stages@.len() - si,
        {
            si = si + 1;
        }
        proof {
            assert(covers_first(self.stages@, pc as nat, si as int));
            lemma_covers_first(self.stages@, pc as nat, si as int);
        }
        if si < self.stages.len() {
            self.stages[si].padding_range
        } else {
            self.global_range
        }
    }
}

/// `wanted` lies in the padding range that holds for the shaper's next frame.
pub open spec fn drawn_within<C: FrameCipher>(s: TrafficShaper<C>, wanted: nat) -> bool {
    let range = padding_rule(s.stages_view(), s.global_view(), s.model().packets + 1).1;
    range[0] <= wanted <= range[1]
}

/// The padding that the shaper's next frame gets where `wanted` bytes were drawn.
pub open spec fn next_padding<C: FrameCipher>(s: TrafficShaper<C>, wanted: nat) -> nat {
    frame::padding_for(
        frame_share(s.model().raw, s.cipher_view() is Some, s.encoding_view()) as nat,
        full_frame(s.cipher_view() is Some, s.encoding_view()) as nat,
        padding_rule(s.stages_view(), s.global_view(), s.model().packets + 1).0 as nat,
        wanted,
    )
}

/// What sealing one frame does, whatever padding was drawn.
pub open spec fn seal_outcome<C: FrameCipher>(
    before: TrafficShaper<C>,
    after: TrafficShaper<C>,
    out_before: Seq<u8>,
    out_after: Seq<u8>,
    r: Result<u64, FrameError>,
) -> bool {
    &&& begun(before.model(), after.model())
    &&& out_before.is_prefix_of(out_after)
    &&& (forall|n: nat|
        n <= MAX_BINARY_FRAME_LEN ==> #[trigger] frame::can_seal(before.cipher_view(), n))
        ==> r is Ok
    &&& r is Err ==> after.model().raw == before.model().raw
    &&& r matches Ok(seq) ==> seq == before.model().seq && exists|wanted: nat| #[trigger]
        drawn_within(before, wanted) && sealed_step(
            before.model(),
            after.model(),
            out_after.skip(out_before.len() as int),
            before.encoding_view(),
            before.cipher_view(),
            next_padding(before, wanted),
        )
}

/// What sealing one frame does, its number told as an action.
pub open spec fn action_outcome<C: FrameCipher>(
    before: TrafficShaper<C>,
    after: TrafficShaper<C>,
    out_before: Seq<u8>,
    out_after: Seq<u8>,
    r: Result<ShaperAction, FrameError>,
) -> bool {
    match r {
        Ok(action) => action matches ShaperAction::Sealed { seq } && seal_outcome(
            before,
            after,
            out_before,
            out_after,
            Ok(seq),
        ),
        Err(e) => seal_outcome(before, after, out_before, out_after, Err(e)),
    }
}

/// `mid` differs from `before` in the waiting bytes only: `data` was added.
pub open spec fn filled<C: FrameCipher>(
    before: TrafficShaper<C>,
    mid: TrafficShaper<C>,
    data: Seq<u8>,
) -> bool {
    &&& mid.model() == (ShaperModel { raw: before.model().raw + data, ..before.model() })
    &&& mid.same_settings(&before)
}

/// What one event does to a shaper.
pub open spec fn step_outcome<C: FrameCipher>(
    before: TrafficShaper<C>,
    after: TrafficShaper<C>,
    event: ShaperEvent,
    out_before: Seq<u8>,
    out_after: Seq<u8>,
    r: Result<ShaperAction, FrameError>,
) -> bool {
    let m = before.model();
    let full = full_frame(before.cipher_view() is Some, before.encoding_view());
    match event {
        ShaperEvent::Polled => if m.raw.len() >= full {
            action_outcome(before, after, out_before, out_after, r)
        } else {
            &&& r == Ok::<ShaperAction, FrameError>(
                ShaperAction::Read { limit: (READ_HIGH_WATER - m.raw.len()) as usize },
            )
            &&& after.model() == m
            &&& out_after == out_before
        },
        ShaperEvent::Data(d) => if m.raw.len() + d@.len() >= full {
            exists|mid: TrafficShaper<C>| #[trigger]
                filled(before, mid, d@) && action_outcome(mid, after, out_before, out_after, r)
        } else {
            &&& r == Ok::<ShaperAction, FrameError>(
                ShaperAction::Read { limit: (READ_HIGH_WATER - m.raw.len() - d@.len()) as usize },
            )
            &&& after.model() == (ShaperModel { raw: m.raw + d@, ..m })
            &&& out_after == out_before
        },
        ShaperEvent::Eof => if m.raw.len() == 0 {
            &&& r == Ok::<ShaperAction, FrameError>(ShaperAction::Finished)
            &&& after.model() == m
            &&& out_after == out_before
        } else {
            action_outcome(before, after, out_before, out_after, r)
        },
        ShaperEvent::NotReady => if m.raw.len() >= full {
            action_outcome(before, after, out_before, out_after, r)
        } else if m.raw.len() == 0 {
            &&& r == Ok::<ShaperAction, FrameError>(ShaperAction::Wait)
            &&& after.model() == m
            &&& out_after == out_before
        } else if m.timer_armed {
            &&& r == Ok::<ShaperAction, FrameError>(ShaperAction::WaitTimer)
            &&& after.model() == m
            &&& out_after == out_before
        } else {
            &&& r == Ok::<ShaperAction, FrameError>(ShaperAction::ArmTimer { slot: m.cursor as usize })
            &&& after.model() == (ShaperModel {
                timer_armed: true,
                cursor: (m.cursor + 1) % TABLE_SIZE as nat,
                ..m
            })
            &&& out_after == out_before
        },
        ShaperEvent::TimerFired => action_outcome(before, after, out_before, out_after, r),
    }
}

/// Every frame that the shaper writes continues the run of frames before it,
/// and what was read equals what was written followed by what still waits:
/// nothing is lost, doubled or reordered.
pub proof fn law_shaper_keeps_stream<C: FrameCipher>(
    before: TrafficShaper<C>,
    after: TrafficShaper<C>,
    sent: Seq<u8>,
    frame: Seq<u8>,
    first: nat,
    chunks: Seq<Seq<u8>>,
    input: Seq<u8>,
    wanted: nat,
)
    requires
        laws::is_stream(sent, before.encoding_view(), before.cipher_view(), first, chunks),
        before.model().seq == first + chunks.len(),
        before.model().seq < u64::MAX,
        chunks.flatten() + before.model().raw == input,
        sealed_step(
            before.model(),
            after.model(),
            frame,
            before.encoding_view(),
            before.cipher_view(),
            next_padding(before, wanted),
        ),
    ensures
        ({
            let n = frame_share(
                before.model().raw,
                before.cipher_view() is Some,
                before.encoding_view(),
            );
            let grown = chunks.push(before.model().raw.take(n));
            &&& laws::is_stream(
                sent + frame,
                before.encoding_view(),
                before.cipher_view(),
                first,
                grown,
            )
            &&& after.model().seq == first + grown.len()
            &&& grown.flatten() + after.model().raw == input
        }),
{
    let n = frame_share(before.model().raw, before.cipher_view() is Some, before.encoding_view());
    let share = before.model().raw.take(n);
    laws::law_stream_append(
        sent,
        before.encoding_view(),
        before.cipher_view(),
        first,
        chunks,
        frame,
        share,
        next_padding(before, wanted),
    );
    chunks.lemma_flatten_push(share);
    assert(share + before.model().raw.skip(n) =~= before.model().raw);
    assert(chunks.push(share).flatten() + after.model().raw =~= input);
}

/// One call of `poll_fill_and_seal`.
pub struct ShaperCall<'a, C: FrameCipher> {
    pub before: TrafficShaper<C>,
    pub event: ShaperEvent<'a>,
    pub after: TrafficShaper<C>,
    pub r: Result<ShaperAction, FrameError>,
    /// What the output held before and after the call.
    pub out_before: Seq<u8>,
    pub out_after: Seq<u8>,
}

/// The bytes that an event brings.
pub open spec fn event_data(event: ShaperEvent) -> Seq<u8> {
    match event {
        ShaperEvent::Data(d) => d@,
        _ => Seq::empty(),
    }
}

/// The call was one that a shaper takes, and did what such a call does.
pub open spec fn is_call<C: FrameCipher>(c: ShaperCall<C>) -> bool {
    &&& c.before.has_number()
    &&& c.event is TimerFired ==> c.before.model().raw.len() > 0
    &&& c.after.same_settings(&c.before)
    &&& step_outcome(c.before, c.after, c.event, c.out_before, c.out_after, c.r)
}

/// The shaper behind some calls.
pub open spec fn run_end<C: FrameCipher>(
    start: TrafficShaper<C>,
    calls: Seq<ShaperCall<C>>,
) -> TrafficShaper<C> {
    if calls.len() == 0 {
        start
    } else {
        calls.last().after
    }
}

/// The output behind some calls.
pub open spec fn run_out<C: FrameCipher>(out: Seq<u8>, calls: Seq<ShaperCall<C>>) -> Seq<u8> {
    if calls.len() == 0 {
        out
    } else {
        calls.last().out_after
    }
}

/// The calls were made one behind the other, on one shaper and one output.
pub open spec fn is_shaper_run<C: FrameCipher>(
    start: TrafficShaper<C>,
    out: Seq<u8>,
    calls: Seq<ShaperCall<C>>,
) -> bool
    decreases calls.len(),
{
    calls.len() > 0 ==> {
        &&& is_shaper_run(start, out, calls.drop_last())
        &&& calls.last().before == run_end(start, calls.drop_last())
        &&& calls.last().out_before == run_out(out, calls.drop_last())
        &&& is_call(calls.last())
    }
}

/// What the source gave in some calls.
pub open spec fn run_data<C: FrameCipher>(calls: Seq<ShaperCall<C>>) -> Seq<u8>
    decreases calls.len(),
{
    if calls.len() == 0 {
        Seq::empty()
    } else {
        run_data(calls.drop_last()) + event_data(calls.last().event)
    }
}

/// The numbers of the frames that some calls told of.
pub open spec fn run_numbers<C: FrameCipher>(calls: Seq<ShaperCall<C>>) -> Seq<u64>
    decreases calls.len(),
{
    if calls.len() == 0 {
        Seq::empty()
    } else {
        let before = run_numbers(calls.drop_last());
        match calls.last().r {
            Ok(ShaperAction::Sealed { seq }) => before.push(seq),
            _ => before,
        }
    }
}

/// The frames behind `out` carry `chunks`, none of them empty, under the numbers
/// that the calls told of, from the shaper's first number on; the chunks and what
/// still waits are what the source gave.
pub open spec fn run_carries<C: FrameCipher>(
    start: TrafficShaper<C>,
    out: Seq<u8>,
    calls: Seq<ShaperCall<C>>,
    chunks: Seq<Seq<u8>>,
) -> bool {
    let end = run_end(start, calls);
    &&& end.same_settings(&start)
    &&& out.is_prefix_of(run_out(out, calls))
    &&& laws::is_stream(
        run_out(out, calls).skip(out.len() as int),
        start.encoding_view(),
        start.cipher_view(),
        start.model().seq,
        chunks,
    )
    &&& forall|i: int| 0 <= i < chunks.len() ==> (#[trigger] chunks[i]).len() > 0
    &&& chunks.flatten() + end.model().raw == run_data(calls)
    &&& end.model().seq == start.model().seq + chunks.len()
    &&& run_numbers(calls) == Seq::new(chunks.len(), |i: int| (start.model().seq + i) as u64)
}

/// One more frame, taken from the waiting bytes of `mid`, is carried too.
proof fn lemma_run_seals<C: FrameCipher>(
    start: TrafficShaper<C>,
    out: Seq<u8>,
    calls: Seq<ShaperCall<C>>,
    chunks: Seq<Seq<u8>>,
    mid: TrafficShaper<C>,
) -> (grown: Seq<Seq<u8>>)
    requires
        calls.len() > 0,
        run_carries(start, out, calls.drop_last(), chunks),
        ({
            let c = calls.last();
            &&& c.before == run_end(start, calls.drop_last())
            &&& c.out_before == run_out(out, calls.drop_last())
            &&& c.before.has_number()
            &&& c.after.same_settings(&c.before)
            &&& filled(c.before, mid, event_data(c.event))
            &&& mid.model().raw.len() > 0
            &&& c.r is Ok
            &&& action_outcome(mid, c.after, c.out_before, c.out_after, c.r)
        }),
    ensures
        run_carries(start, out, calls, grown),
{
    let c = calls.last();
    let input = run_data(calls);
    let sent = c.out_before.skip(out.len() as int);
    let frame = c.out_after.skip(c.out_before.len() as int);
    let wanted = choose|wanted: nat| #[trigger]
        drawn_within(mid, wanted) && sealed_step(
            mid.model(),
            c.after.model(),
            frame,
            mid.encoding_view(),
            mid.cipher_view(),
            next_padding(mid, wanted),
        );
    assert(chunks.flatten() + mid.model().raw =~= input);
    law_shaper_keeps_stream(
        mid,
        c.after,
        sent,
        frame,
        start.model().seq,
        chunks,
        input,
        wanted,
    );
    let n = frame_share(mid.model().raw, mid.cipher_view() is Some, mid.encoding_view());
    let share = mid.model().raw.take(n);
    let grown = chunks.push(share);
    assert(c.out_after =~= c.out_before + frame);
    assert(c.out_after.skip(out.len() as int) =~= sent + frame);
    assert(out.is_prefix_of(c.out_after)) by {
        assert(out =~= c.out_after.take(out.len() as int)) by {
            assert forall|i: int| 0 <= i < out.len() implies out[i] == c.out_after[i] by {
                assert(out[i] == c.out_before.take(out.len() as int)[i]);
            }
        }
    }
    assert forall|i: int| 0 <= i < grown.len() implies (#[trigger] grown[i]).len() > 0 by {
        if i < chunks.len() {
            assert(grown[i] == chunks[i]);
        }
    }
    assert(run_numbers(calls) =~= Seq::new(
        grown.len(),
        |i: int| (start.model().seq + i) as u64,
    ));
    grown
}

/// Over a whole run of calls nothing is lost, doubled or reordered: what was
/// written is a run of frames under consecutive numbers, and these are the numbers
/// told; none of the frames is empty; their payloads, followed by what still waits,
/// are what the source gave. No call fails where the cipher seals every frame.
pub proof fn law_shaper_run<C: FrameCipher>(
    start: TrafficShaper<C>,
    out: Seq<u8>,
    calls: Seq<ShaperCall<C>>,
) -> (chunks: Seq<Seq<u8>>)
    requires
        start.model().raw.len() == 0,
        is_shaper_run(start, out, calls),
        forall|n: nat|
            n <= MAX_BINARY_FRAME_LEN ==> #[trigger] frame::can_seal(start.cipher_view(), n),
    ensures
        run_carries(start, out, calls, chunks),
        forall|i: int| 0 <= i < calls.len() ==> (#[trigger] calls[i]).r is Ok,
    decreases calls.len(),
{
    if calls.len() == 0 {
        let none = Seq::<Seq<u8>>::empty();
        assert(out.take(out.len() as int) =~= out);
        assert(none.flatten() + start.model().raw =~= Seq::empty());
        assert(run_numbers(calls) =~= Seq::new(0, |i: int| (start.model().seq + i) as u64));
        none
    } else {
        let c = calls.last();
        let earlier = calls.drop_last();
        let chunks = law_shaper_run(start, out, earlier);
        let m = c.before.model();
        let full = full_frame(c.before.cipher_view() is Some, c.before.encoding_view());
        let given = event_data(c.event);
        let seals = match c.event {
            ShaperEvent::Polled => m.raw.len() >= full,
            ShaperEvent::Data(d) => m.raw.len() + d@.len() >= full,
            ShaperEvent::Eof => m.raw.len() > 0,
            ShaperEvent::NotReady => m.raw.len() >= full,
            ShaperEvent::TimerFired => true,
        };
        assert forall|i: int| 0 <= i < earlier.len() implies (#[trigger] calls[i]).r is Ok by {
            assert(earlier[i].r is Ok);
        }
        if seals {
            let mid = if c.event is Data {
                choose|mid: TrafficShaper<C>| #[trigger]
                    filled(c.before, mid, given) && action_outcome(
                        mid,
                        c.after,
                        c.out_before,
                        c.out_after,
                        c.r,
                    )
            } else {
                assert(m.raw + given =~= m.raw);
                c.before
            };
            assert(filled(c.before, mid, given));
            let grown = lemma_run_seals(start, out, calls, chunks, mid);
            assert(calls[calls.len() - 1].r is Ok);
            grown
        } else {
            assert(chunks.flatten() + c.after.model().raw =~= run_data(calls));
            assert(calls[calls.len() - 1].r is Ok);
            chunks
        }
    }
}

/// A shaper that was run to the end of its source has sent all of it: the frames
/// that it wrote decode to just what the source gave, in pieces that are not empty,
/// under the numbers that the calls told of. Where the source gave nothing, and only
/// there, there are no frames.
pub proof fn law_shaper_sends_all<C: FrameCipher>(
    start: TrafficShaper<C>,
    out: Seq<u8>,
    calls: Seq<ShaperCall<C>>,
) -> (items: Seq<(u64, Seq<u8>)>)
    requires
        start.model().raw.len() == 0,
        is_shaper_run(start, out, calls),
        forall|n: nat|
            n <= MAX_BINARY_FRAME_LEN ==> #[trigger] frame::can_seal(start.cipher_view(), n),
        calls.len() > 0,
        calls.last().r == Ok::<ShaperAction, FrameError>(ShaperAction::Finished),
    ensures
        laws::decode_all(
            run_out(out, calls).skip(out.len() as int),
            start.encoding_view(),
            start.cipher_view(),
        ) == Some(items),
        items.map_values(|item: (u64, Seq<u8>)| item.1).flatten() == run_data(calls),
        items.map_values(|item: (u64, Seq<u8>)| item.0) == run_numbers(calls),
        forall|i: int|
            0 <= i < items.len() ==> (#[trigger] items[i]).0 == start.model().seq + i
                && items[i].1.len() > 0,
        items.len() == 0 <==> run_data(calls).len() == 0,
{
    let chunks = law_shaper_run(start, out, calls);
    let seq = start.model().seq;
    let sent = run_out(out, calls).skip(out.len() as int);
    laws::law_stream_roundtrip(sent, start.encoding_view(), start.cipher_view(), seq, chunks);
    let items = Seq::new(chunks.len(), |i: int| ((seq + i) as u64, chunks[i]));
    assert(items.map_values(|item: (u64, Seq<u8>)| item.1) =~= chunks);
    assert(items.map_values(|item: (u64, Seq<u8>)| item.0) =~= run_numbers(calls));
    assert(calls.last().after.model().raw.len() == 0);
    assert(chunks.flatten() + calls.last().after.model().raw =~= chunks.flatten());
    if chunks.len() > 0 {
        assert(chunks.flatten() == chunks.first() + chunks.drop_first().flatten());
        assert(chunks[0].len() > 0);
    }
    items
}

/// Once the source has ended, a shaper comes to an end: each further call sends some
/// of what waits, and where nothing waits the call says so.
pub proof fn law_shaper_drains<C: FrameCipher>(c: ShaperCall<C>)
    requires
        is_call(c),
        c.event is Eof,
        forall|n: nat|
            n <= MAX_BINARY_FRAME_LEN ==> #[trigger] frame::can_seal(c.before.cipher_view(), n),
    ensures
        c.before.model().raw.len() == 0 ==> c.r == Ok::<ShaperAction, FrameError>(
            ShaperAction::Finished,
        ),
        c.before.model().raw.len() > 0 ==> c.r is Ok && c.after.model().raw.len()
            < c.before.model().raw.len(),
{
}

} // verus!
