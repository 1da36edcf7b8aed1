//! Frames out of a stream of chunks.
use crate::buffer;
use crate::shaper::frame;
use crate::shaper::frame::{DecodedFrame, EncodingType, Front, MAX_BINARY_FRAME_LEN};
use crate::shaper::laws;
use crate::shaper::{FrameCipher, FrameError};
use crate::text;
use bytes::{Bytes, BytesMut};
use vstd::prelude::*;
use vstd::string::*;

verus! {

/// Why a stream of frames broke off.
#[derive(Debug, Clone, Copy, PartialEq, Eq, Structural)]
pub enum StreamError {
    /// A frame could not be read.
    Frame(FrameError),
    /// The stream ended inside a frame.
    TrailingData,
    /// Too much came without making a frame.
    BufferExceeded,
}

impl StreamError {
    /// The error in words.
    pub open spec fn text(self) -> Seq<char> {
        match self {
            StreamError::Frame(e) => e.text(),
            StreamError::TrailingData => "trailing data after last frame"@,
            StreamError::BufferExceeded => "frame buffer exceeded maximum size"@,
        }
    }

    /// The error in words.
    pub fn message(&self) -> (r: String)
        ensures
            r@ == self.text(),
    {
        match self {
            StreamError::Frame(e) => e.message(),
            StreamError::TrailingData => String::from_str("trailing data after last frame"),
            StreamError::BufferExceeded => String::from_str("frame buffer exceeded maximum size"),
        }
    }
}

/// What a decoder gives next.
#[derive(Debug)]
pub enum DecoderStep {
    /// A frame's number and data.
    Frame { seq: u64, data: Bytes },
    /// The stream broke off.
    Failed(StreamError),
    /// The stream has ended between frames.
    Finished,
    /// More of the stream is needed.
    NeedInput,
}

/// What taking the next frame off what waits does.
pub open spec fn poll_outcome<C: FrameCipher>(
    before: FrameDecoder<C>,
    after: FrameDecoder<C>,
    r: DecoderStep,
) -> bool {
    match frame::front(before.waiting(), before.encoding_view()) {
        Front::Whole { used, body } => {
            &&& after.waiting() == before.waiting().skip(used)
            &&& match frame::body_content(before.cipher_view(), body) {
                Ok((seq, data)) => r matches DecoderStep::Frame { seq: s, data: d } && s == seq
                    && buffer::frozen(d) == data,
                Err(e) => r == DecoderStep::Failed(StreamError::Frame(e)),
            }
        },
        Front::Reject(e) => r == DecoderStep::Failed(StreamError::Frame(e)) && after.waiting()
            == before.waiting(),
        Front::Partial => {
            &&& after.waiting() == before.waiting()
            &&& r == (if before.ended() {
                if before.waiting().len() == 0 {
                    DecoderStep::Finished
                } else {
                    DecoderStep::Failed(StreamError::TrailingData)
                }
            } else if before.waiting().len() > before.limit() {
                DecoderStep::Failed(StreamError::BufferExceeded)
            } else {
                DecoderStep::NeedInput
            })
        },
    }
}

/// Collects chunks and takes frames off them.
pub struct FrameDecoder<C: FrameCipher> {
    buf: BytesMut,
    scratch: BytesMut,
    json_scratch: Vec<u8>,
    cipher: Option<C>,
    encoding: EncodingType,
    max_buf_size: usize,
    eos: bool,
}

impl<C: FrameCipher> FrameDecoder<C> {
    /// The bytes not yet read as frames.
    pub closed spec fn waiting(&self) -> Seq<u8> {
        buffer::buffered(self.buf)
    }

    /// Whether the stream has ended.
    pub closed spec fn ended(&self) -> bool {
        self.eos
    }

    /// The most bytes that may wait.
    pub closed spec fn limit(&self) -> usize {
        self.max_buf_size
    }

    /// How frames are written.
    pub closed spec fn encoding_view(&self) -> EncodingType {
        self.encoding
    }

    /// The cipher.
    pub closed spec fn cipher_view(&self) -> Option<&C> {
        match &self.cipher {
            Some(c) => Some(c),
            None => None,
        }
    }

    /// Settings are as in `other`.
    pub open spec fn same_settings(&self, other: &Self) -> bool {
        &&& self.limit() == other.limit()
        &&& self.encoding_view() == other.encoding_view()
        &&& self.cipher_view() == other.cipher_view()
    }

    /// A decoder that lets at most `max_buf_size` bytes wait.
    pub fn new(cipher: Option<C>, encoding: EncodingType, max_buf_size: usize) -> (r: Self)
        ensures
            r.waiting() == Seq::<u8>::empty(),
            !r.ended(),
            r.limit() == max_buf_size,
            r.encoding_view() == encoding,
            r.cipher_view() == (match cipher {
                Some(c) => Some(&c),
                None => None,
            }),
    {
        FrameDecoder {
            buf: buffer::buf_new(),
            scratch: buffer::buf_new(),
            json_scratch: Vec::new(),
            cipher,
            encoding,
            max_buf_size,
            eos: false,
        }
    }

    /// Adds a chunk of the stream.
    pub fn push_chunk(&mut self, chunk: &[u8])
        requires
            old(self).waiting().len() + chunk@.len() <= isize::MAX,
        ensures
            final(self).waiting() == old(self).waiting() + chunk@,
            final(self).ended() == old(self).ended(),
            final(self).same_settings(old(self)),
    {
        buffer::buf_put(&mut self.buf, chunk);
    }

    /// Notes that the stream has ended.
    pub fn finish(&mut self)
        ensures
            final(self).waiting() == old(self).waiting(),
            final(self).ended(),
            final(self).same_settings(old(self)),
    {
        self.eos = true;
    }

    /// Takes the next frame off what waits, or says why there is none.
    pub fn poll_next(&mut self) -> (r: DecoderStep)
        ensures
            final(self).ended() == old(self).ended(),
            final(self).same_settings(old(self)),
            poll_outcome(*old(self), *final(self), r),
    {
        let cipher: Option<&C> = match &self.cipher {
            Some(c) => Some(c),
            None => None,
        };
        match frame::decode_frame_with(
            &mut self.buf,
            &mut self.scratch,
            &mut self.json_scratch,
            cipher,
            self.encoding,
        ) {
            Ok(Some(DecodedFrame::InScratch { seq, start, end })) => {
                let mut plain: BytesMut = buffer::buf_new();
                std::mem::swap(&mut plain, &mut self.scratch);
                let whole: Bytes = buffer::buf_freeze(plain);
                DecoderStep::Frame { seq, data: buffer::bytes_slice(&whole, start, end) }
            },
            Ok(Some(DecodedFrame::Owned { seq, data })) => DecoderStep::Frame { seq, data },
            Ok(None) => {
                if self.eos {
                    if buffer::buf_len(&self.buf) == 0 {
                        DecoderStep::Finished
                    } else {
                        DecoderStep::Failed(StreamError::TrailingData)
                    }
                } else if buffer::buf_len(&self.buf) > self.max_buf_size {
                    DecoderStep::Failed(StreamError::BufferExceeded)
                } else {
                    DecoderStep::NeedInput
                }
            },
            Err(e) => DecoderStep::Failed(StreamError::Frame(e)),
        }
    }
}

/// What is done with a decoder.
pub enum DecoderOp {
    /// A chunk of the stream is added.
    Chunk(Seq<u8>),
    /// The end of the stream is noted.
    Finish,
    /// The next frame is asked for, with this answer.
    Poll(DecoderStep),
}

/// One call on a decoder.
pub struct DecoderCall<C: FrameCipher> {
    pub before: FrameDecoder<C>,
    pub op: DecoderOp,
    pub after: FrameDecoder<C>,
}

/// The call did what such a call does.
pub open spec fn is_decoder_call<C: FrameCipher>(c: DecoderCall<C>) -> bool {
    &&& c.after.same_settings(&c.before)
    &&& match c.op {
        DecoderOp::Chunk(chunk) => {
            &&& c.after.waiting() == c.before.waiting() + chunk
            &&& c.after.ended() == c.before.ended()
        },
        DecoderOp::Finish => c.after.waiting() == c.before.waiting() && c.after.ended(),
        DecoderOp::Poll(r) => c.after.ended() == c.before.ended() && poll_outcome(
            c.before,
            c.after,
            r,
        ),
    }
}

/// The decoder behind some calls.
pub open spec fn decoder_end<C: FrameCipher>(
    start: FrameDecoder<C>,
    calls: Seq<DecoderCall<C>>,
) -> FrameDecoder<C> {
    if calls.len() == 0 {
        start
    } else {
        calls.last().after
    }
}

/// The chunks that some calls added, joined.
pub open spec fn received<C: FrameCipher>(calls: Seq<DecoderCall<C>>) -> Seq<u8>
    decreases calls.len(),
{
    if calls.len() == 0 {
        Seq::empty()
    } else {
        match calls.last().op {
            DecoderOp::Chunk(chunk) => received(calls.drop_last()) + chunk,
            _ => received(calls.drop_last()),
        }
    }
}

/// The frames that some calls gave.
pub open spec fn given_frames<C: FrameCipher>(calls: Seq<DecoderCall<C>>) -> Seq<(u64, Seq<u8>)>
    decreases calls.len(),
{
    if calls.len() == 0 {
        Seq::empty()
    } else {
        match calls.last().op {
            DecoderOp::Poll(DecoderStep::Frame { seq, data }) => given_frames(
                calls.drop_last(),
            ).push((seq, buffer::frozen(data))),
            _ => given_frames(calls.drop_last()),
        }
    }
}

/// The calls were made one behind the other on one decoder, and brought `stream`:
/// chunk after chunk, and its end once all of it had come.
pub open spec fn brings_stream<C: FrameCipher>(
    start: FrameDecoder<C>,
    calls: Seq<DecoderCall<C>>,
    stream: Seq<u8>,
) -> bool
    decreases calls.len(),
{
    &&& received(calls).is_prefix_of(stream)
    &&& calls.len() > 0 ==> {
        &&& brings_stream(start, calls.drop_last(), stream)
        &&& calls.last().before == decoder_end(start, calls.drop_last())
        &&& is_decoder_call(calls.last())
        &&& calls.last().op is Finish ==> received(calls) == stream
    }
}

/// What a decoder has made of the part of a stream that has come: `rest` of the
/// stream is not yet read, and the frames in front of it were given.
pub open spec fn has_read<C: FrameCipher>(
    start: FrameDecoder<C>,
    calls: Seq<DecoderCall<C>>,
    stream: Seq<u8>,
    items: Seq<(u64, Seq<u8>)>,
    rest: Seq<u8>,
) -> bool {
    let end = decoder_end(start, calls);
    let given = given_frames(calls);
    let used = stream.len() - rest.len();
    &&& end.same_settings(&start)
    &&& end.ended() ==> received(calls) == stream
    &&& given.is_prefix_of(items)
    &&& laws::is_frame_run(
        rest,
        start.encoding_view(),
        start.cipher_view(),
        items.skip(given.len() as int),
    )
    &&& 0 <= used <= received(calls).len()
    &&& stream.skip(used) == rest
    &&& end.waiting() == received(calls).skip(used)
}

/// An empty buffer holds no frame and is no error.
proof fn lemma_empty_front(encoding: EncodingType)
    ensures
        frame::front(Seq::empty(), encoding) is Partial,
{
    text::lemma_no_index_of_first(Seq::empty(), 0x0au8);
}

/// Asking for a frame gives the next one of the stream where it has come whole.
proof fn lemma_poll_reads<C: FrameCipher>(
    start: FrameDecoder<C>,
    calls: Seq<DecoderCall<C>>,
    stream: Seq<u8>,
    items: Seq<(u64, Seq<u8>)>,
    rest: Seq<u8>,
    r: DecoderStep,
) -> (left: Seq<u8>)
    requires
        calls.len() > 0,
        start.limit() >= MAX_BINARY_FRAME_LEN + 2,
        brings_stream(start, calls, stream),
        has_read(start, calls.drop_last(), stream, items, rest),
        calls.last().op == DecoderOp::Poll(r),
    ensures
        has_read(start, calls, stream, items, left),
        r !is Failed,
        r !is Frame && received(calls) == stream ==> given_frames(calls) == items,
        r is Finished ==> given_frames(calls) == items,
{
    let c = calls.last();
    let earlier = calls.drop_last();
    let given = given_frames(earlier);
    let got = received(earlier);
    let used = stream.len() - rest.len();
    let waiting = c.before.waiting();
    let encoding = start.encoding_view();
    let cipher = start.cipher_view();
    let later = items.skip(given.len() as int);
    assert(got =~= stream.take(got.len() as int));
    assert(waiting =~= rest.take(waiting.len() as int)) by {
        assert forall|i: int| 0 <= i < waiting.len() implies waiting[i] == rest[i] by {
            assert(waiting[i] == got[used + i]);
            assert(rest[i] == stream[used + i]);
        }
    }
    if later.len() == 0 {
        assert(waiting =~= Seq::empty());
        lemma_empty_front(encoding);
        assert(given =~= items);
        rest
    } else {
        let (frame, rest2, pad) = choose|frame: Seq<u8>, rest2: Seq<u8>, pad: nat|
            {
                &&& #[trigger] frame::is_frame(frame, encoding, cipher, later[0].0, later[0].1, pad)
                &&& later[0].1.len() + pad <= frame::raw_limit(cipher is Some, encoding)
                &&& rest == #[trigger] (frame + rest2)
                &&& laws::is_frame_run(rest2, encoding, cipher, later.skip(1))
            };
        laws::law_frame_fits(frame, encoding, cipher, later[0].0, later[0].1, pad);
        if waiting.len() < frame.len() {
            assert(waiting =~= frame.take(waiting.len() as int));
            laws::law_partial_frame(
                frame,
                encoding,
                cipher,
                later[0].0,
                later[0].1,
                pad,
                waiting.len() as int,
            );
            rest
        } else {
            let tail = waiting.skip(frame.len() as int);
            assert(waiting =~= frame + tail) by {
                assert forall|i: int| 0 <= i < waiting.len() implies waiting[i] == (frame
                    + tail)[i] by {
                    assert(waiting[i] == rest[i]);
                }
            }
            laws::law_decode_frame(frame, encoding, cipher, later[0].0, later[0].1, pad, tail);
            let grown = given_frames(calls);
            assert(grown =~= given.push(later[0]));
            assert(grown =~= items.take(grown.len() as int)) by {
                assert forall|i: int| 0 <= i < grown.len() implies grown[i] == items[i] by {
                    if i < given.len() {
                        assert(given[i] == items.take(given.len() as int)[i]);
                    }
                }
            }
            assert(items.skip(grown.len() as int) =~= later.skip(1));
            assert(stream.skip(used + frame.len()) =~= rest2) by {
                assert(stream.skip(used + frame.len()) =~= rest.skip(frame.len() as int));
            }
            assert(c.after.waiting() =~= got.skip(used + frame.len()));
            rest2
        }
    }
}

proof fn lemma_decoder_run<C: FrameCipher>(
    start: FrameDecoder<C>,
    calls: Seq<DecoderCall<C>>,
    stream: Seq<u8>,
    items: Seq<(u64, Seq<u8>)>,
) -> (rest: Seq<u8>)
    requires
        start.waiting().len() == 0,
        !start.ended(),
        start.limit() >= MAX_BINARY_FRAME_LEN + 2,
        laws::is_frame_run(stream, start.encoding_view(), start.cipher_view(), items),
        brings_stream(start, calls, stream),
    ensures
        has_read(start, calls, stream, items, rest),
        forall|i: int|
            0 <= i < calls.len() ==> !((#[trigger] calls[i]).op matches DecoderOp::Poll(r) && r
                is Failed),
    decreases calls.len(),
{
    if calls.len() == 0 {
        assert(items.skip(0) =~= items);
        assert(given_frames(calls) =~= items.take(0));
        assert(stream.skip(0) =~= stream);
        assert(start.waiting() =~= received(calls).skip(0));
        stream
    } else {
        let c = calls.last();
        let earlier = calls.drop_last();
        let rest = lemma_decoder_run(start, earlier, stream, items);
        let used = stream.len() - rest.len();
        assert forall|i: int| 0 <= i < earlier.len() implies !((#[trigger] calls[i]).op matches
            DecoderOp::Poll(r) && r is Failed) by {
            assert(earlier[i] == calls[i]);
        }
        match c.op {
            DecoderOp::Chunk(chunk) => {
                if c.before.ended() {
                    assert(received(calls).len() <= stream.len());
                    assert(chunk =~= Seq::empty());
                    assert(received(calls) =~= received(earlier));
                }
                assert(c.after.waiting() =~= received(calls).skip(used));
                rest
            },
            DecoderOp::Finish => rest,
            DecoderOp::Poll(r) => lemma_poll_reads(start, calls, stream, items, rest, r),
        }
    }
}

/// A stream of frames comes out whole, wherever it is cut into chunks and whenever
/// frames are asked for: the frames given are the first ones of the stream, each with
/// its number and data, and no answer is a failure. Where all of the stream has come,
/// the decoder gives frames until the last one is out, and says that the stream is
/// finished only then.
pub proof fn law_decoder_reads_stream<C: FrameCipher>(
    start: FrameDecoder<C>,
    calls: Seq<DecoderCall<C>>,
    stream: Seq<u8>,
    items: Seq<(u64, Seq<u8>)>,
)
    requires
        start.waiting().len() == 0,
        !start.ended(),
        start.limit() >= MAX_BINARY_FRAME_LEN + 2,
        laws::is_frame_run(stream, start.encoding_view(), start.cipher_view(), items),
        brings_stream(start, calls, stream),
    ensures
        given_frames(calls).is_prefix_of(items),
        forall|i: int|
            0 <= i < calls.len() ==> !((#[trigger] calls[i]).op matches DecoderOp::Poll(r) && r
                is Failed),
        calls.len() > 0 && calls.last().op == DecoderOp::Poll(DecoderStep::Finished)
            ==> given_frames(calls) == items,
        calls.len() > 0 && received(calls) == stream ==> (calls.last().op matches DecoderOp::Poll(r)
            && r !is Frame ==> given_frames(calls) == items),
        calls.len() > 0 && calls.last().before.ended() ==> (calls.last().op matches DecoderOp::Poll(
            r,
        ) ==> r is Frame || r is Finished),
{
    let rest = lemma_decoder_run(start, calls, stream, items);
    if calls.len() > 0 {
        let before = lemma_decoder_run(start, calls.drop_last(), stream, items);
        match calls.last().op {
            DecoderOp::Poll(r) => {
                let left = lemma_poll_reads(start, calls, stream, items, before, r);
            },
            _ => {},
        }
    }
}

} // verus!
