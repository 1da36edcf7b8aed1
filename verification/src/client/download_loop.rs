//! Downloading: frames are taken off one answer after the other, in order.
use crate::buffer;
use crate::client::constants::PREFETCH_LEAD_BYTES;
use crate::decimal;
use crate::shaper::frame;
use crate::shaper::frame::{EncodingType, Front};
use crate::shaper::laws;
use crate::server::state::{DownloadStream, ReadOutcome, SourceItem};
use crate::server::tunnel::DownloadSegment;
use crate::shaper::{FrameCipher, FrameError};
use crate::text;
use bytes::BytesMut;
use vstd::prelude::*;
use vstd::string::*;

verus! {

/// Why a download broke off.
#[derive(Debug, Clone, Copy, PartialEq, Eq, Structural)]
pub enum DownloadError {
    /// A frame could not be read.
    Frame(FrameError),
    /// A frame came out of order.
    OutOfOrder { seq: u64, expected: u64 },
}

impl DownloadError {
    /// The error in words.
    pub open spec fn text(self) -> Seq<char> {
        match self {
            DownloadError::Frame(e) => e.text(),
            DownloadError::OutOfOrder { seq, expected } => "download frame seq "@
                + decimal::decimal(seq as nat) + " out of order, expected "@ + decimal::decimal(
                expected as nat,
            ),
        }
    }

    /// The error in words.
    pub fn message(&self) -> (r: String)
        ensures
            r@ == self.text(),
    {
        let mut out: String = String::new();
        match self {
            DownloadError::Frame(e) => {
                out.append(e.message().as_str());
            },
            DownloadError::OutOfOrder { seq, expected } => {
                out.append("download frame seq ");
                decimal::push_decimal(&mut out, *seq);
                out.append(" out of order, expected ");
                decimal::push_decimal(&mut out, *expected);
            },
        }
        proof {
            assert(out@ =~= self.text());
        }
        out
    }
}

/// What comes of taking frames off a buffer.
#[verifier::ext_equal]
pub struct Drained {
    /// The data of the frames, one behind the other.
    pub data: Seq<u8>,
    /// What stays in the buffer.
    pub rest: Seq<u8>,
    /// The number that the next frame must have.
    pub next: nat,
    /// Why it stopped before the buffer held no whole frame.
    pub error: Option<DownloadError>,
}

/// Takes frames off `src` as long as there is a whole one, each numbered one
/// more than the one before.
pub open spec fn drained<C: FrameCipher + ?Sized>(
    src: Seq<u8>,
    encoding: EncodingType,
    cipher: Option<&C>,
    expected: nat,
) -> Drained
    decreases src.len(),
{
    let stop = Drained { data: Seq::empty(), rest: src, next: expected, error: None };
    match frame::front(src, encoding) {
        Front::Partial => stop,
        Front::Reject(e) => Drained { error: Some(DownloadError::Frame(e)), ..stop },
        Front::Whole { used, body } => if 0 < used <= src.len() {
            let rest = src.skip(used);
            match frame::body_content(cipher, body) {
                Err(e) => Drained { rest, error: Some(DownloadError::Frame(e)), ..stop },
                Ok((seq, data)) => if seq != expected {
                    Drained {
                        rest,
                        error: Some(DownloadError::OutOfOrder { seq, expected: expected as u64 }),
                        ..stop
                    }
                } else {
                    let later = drained(rest, encoding, cipher, expected + 1);
                    Drained { data: data + later.data, ..later }
                },
            }
        } else {
            stop
        },
    }
}

/// A whole frame at the front is not empty and lies within the buffer.
proof fn lemma_front_bounds(src: Seq<u8>, encoding: EncodingType)
    ensures
        frame::front(src, encoding) matches Front::Whole { used, .. } ==> 0 < used <= src.len(),
{
    src.index_of_first_ensures(0x0au8);
}

/// A whole frame stays the same when more follows.
proof fn lemma_front_append(a: Seq<u8>, b: Seq<u8>, encoding: EncodingType)
    ensures
        frame::front(a, encoding) is Whole ==> frame::front(a + b, encoding) == frame::front(
            a,
            encoding,
        ),
{
    match encoding {
        EncodingType::Binary => {
            if a.len() >= 2 {
                assert((a + b).take(2) =~= a.take(2));
                let len = crate::wire::be_value(a.take(2)) as int;
                if a.len() >= 2 + len {
                    assert((a + b).subrange(2, 2 + len) =~= a.subrange(2, 2 + len));
                }
            }
        },
        EncodingType::Json => {
            a.index_of_first_ensures(0x0au8);
            if let Some(pos) = a.index_of_first(0x0au8) {
                text::lemma_index_of_first(a + b, 0x0au8, pos);
                assert((a + b).take(pos) =~= a.take(pos));
            }
        },
    }
}

/// How a stream is cut into chunks makes no difference: as long as nothing is
/// refused, what comes of the first part and then of the rest is what comes of
/// the whole.
pub proof fn law_chunking<C: FrameCipher + ?Sized>(
    a: Seq<u8>,
    b: Seq<u8>,
    encoding: EncodingType,
    cipher: Option<&C>,
    expected: nat,
)
    requires
        drained(a, encoding, cipher, expected).error is None,
    ensures
        ({
            let first = drained(a, encoding, cipher, expected);
            let second = drained(first.rest + b, encoding, cipher, first.next);
            drained(a + b, encoding, cipher, expected) == (Drained {
                data: first.data + second.data,
                ..second
            })
        }),
    decreases a.len(),
{
    lemma_front_bounds(a, encoding);
    lemma_front_append(a, b, encoding);
    let first = drained(a, encoding, cipher, expected);
    match frame::front(a, encoding) {
        Front::Whole { used, body } => {
            let (seq, data) = frame::body_content(cipher, body)->Ok_0;
            let later = drained(a.skip(used), encoding, cipher, expected + 1);
            law_chunking(a.skip(used), b, encoding, cipher, expected + 1);
            assert((a + b).skip(used) =~= a.skip(used) + b);
            let second = drained(first.rest + b, encoding, cipher, first.next);
            assert(data + (later.data + second.data) =~= (data + later.data) + second.data);
        },
        _ => {
            let second = drained(a + b, encoding, cipher, expected);
            assert(first.data + second.data =~= second.data);
        },
    }
}

/// Consecutively numbered frames give their data back in order, and leave nothing.
pub proof fn law_download_reads_stream<C: FrameCipher + ?Sized>(
    bytes: Seq<u8>,
    encoding: EncodingType,
    cipher: Option<&C>,
    seq: nat,
    chunks: Seq<Seq<u8>>,
)
    requires
        laws::is_stream(bytes, encoding, cipher, seq, chunks),
    ensures
        drained(bytes, encoding, cipher, seq) == (Drained {
            data: chunks.flatten(),
            rest: Seq::empty(),
            next: seq + chunks.len(),
            error: None,
        }),
    decreases chunks.len(),
{
    if chunks.len() == 0 {
        lemma_front_bounds(bytes, encoding);
        bytes.index_of_first_ensures(0x0au8);
        assert(bytes =~= Seq::empty());
    } else {
        let (f, rest, pad) = choose|f: Seq<u8>, rest: Seq<u8>, pad: nat|
            {
                &&& seq <= u64::MAX
                &&& #[trigger] frame::is_frame(f, encoding, cipher, seq as u64, chunks[0], pad)
                &&& chunks[0].len() + pad <= frame::raw_limit(cipher is Some, encoding)
                &&& bytes == #[trigger] (f + rest)
                &&& laws::is_stream(rest, encoding, cipher, seq + 1, chunks.skip(1))
            };
        laws::law_decode_frame(f, encoding, cipher, seq as u64, chunks[0], pad, rest);
        lemma_front_bounds(bytes, encoding);
        law_download_reads_stream(rest, encoding, cipher, seq + 1, chunks.skip(1));
        assert(bytes.skip(f.len() as int) =~= rest);
        assert(chunks.skip(1) =~= chunks.drop_first());
    }
}

/// A stream cut off anywhere is waited for, not refused.
proof fn lemma_prefix_waits<C: FrameCipher + ?Sized>(
    bytes: Seq<u8>,
    encoding: EncodingType,
    cipher: Option<&C>,
    seq: nat,
    chunks: Seq<Seq<u8>>,
    n: int,
)
    requires
        laws::is_stream(bytes, encoding, cipher, seq, chunks),
        0 <= n <= bytes.len(),
    ensures
        drained(bytes.take(n), encoding, cipher, seq).error is None,
    decreases chunks.len(),
{
    let src = bytes.take(n);
    if chunks.len() == 0 {
        src.index_of_first_ensures(0x0au8);
    } else {
        let (f, rest, pad) = choose|f: Seq<u8>, rest: Seq<u8>, pad: nat|
            {
                &&& seq <= u64::MAX
                &&& #[trigger] frame::is_frame(f, encoding, cipher, seq as u64, chunks[0], pad)
                &&& chunks[0].len() + pad <= frame::raw_limit(cipher is Some, encoding)
                &&& bytes == #[trigger] (f + rest)
                &&& laws::is_stream(rest, encoding, cipher, seq + 1, chunks.skip(1))
            };
        if n < f.len() {
            laws::law_partial_frame(f, encoding, cipher, seq as u64, chunks[0], pad, n);
            assert(src =~= f.take(n));
        } else {
            let tail = rest.take(n - f.len());
            assert(src =~= f + tail);
            laws::law_decode_frame(f, encoding, cipher, seq as u64, chunks[0], pad, tail);
            lemma_front_bounds(src, encoding);
            lemma_prefix_waits(rest, encoding, cipher, seq + 1, chunks.skip(1), n - f.len());
            assert(src.skip(f.len() as int) =~= tail);
        }
    }
}

/// Frames written in order are read back whole wherever the connection cuts
/// them: a first part is never refused, and with the rest it gives all the data.
pub proof fn law_download_survives_cuts<C: FrameCipher + ?Sized>(
    bytes: Seq<u8>,
    encoding: EncodingType,
    cipher: Option<&C>,
    seq: nat,
    chunks: Seq<Seq<u8>>,
    n: int,
)
    requires
        laws::is_stream(bytes, encoding, cipher, seq, chunks),
        0 <= n <= bytes.len(),
    ensures
        ({
            let first = drained(bytes.take(n), encoding, cipher, seq);
            let second = drained(first.rest + bytes.skip(n), encoding, cipher, first.next);
            &&& first.error is None
            &&& second.error is None
            &&& first.data + second.data == chunks.flatten()
            &&& second.rest.len() == 0
            &&& second.next == seq + chunks.len()
        }),
{
    lemma_prefix_waits(bytes, encoding, cipher, seq, chunks, n);
    law_chunking(bytes.take(n), bytes.skip(n), encoding, cipher, seq);
    law_download_reads_stream(bytes, encoding, cipher, seq, chunks);
    assert(bytes.take(n) + bytes.skip(n) =~= bytes);
}

/// Whether the continuation of a segment is asked for ahead.
pub open spec fn prefetches(max_bytes: Option<u64>) -> bool {
    max_bytes matches Some(m) && m > PREFETCH_LEAD_BYTES
}

/// Whether a segment of `received` bytes is followed by another.
pub open spec fn rotates(max_bytes: Option<u64>, received: nat) -> bool {
    received > 0 && (max_bytes matches Some(m) && received >= m)
}

/// What a download has come to.
#[verifier::ext_equal]
pub struct DownloadModel {
    /// The bytes not yet read as frames.
    pub waiting: Seq<u8>,
    /// The number that the next frame must have.
    pub expected: nat,
    /// How many bytes of this segment have come.
    pub received: nat,
    /// Whether the next segment is still to be asked for ahead.
    pub armed: bool,
}

/// What a chunk gave.
#[derive(Debug)]
pub struct ChunkOutcome {
    /// The data to write out.
    pub data: Vec<u8>,
    /// Whether the next segment is asked for now.
    pub fire_prefetch: bool,
    /// Why the download breaks off, once the data is written out.
    pub error: Option<DownloadError>,
}

/// What the end of an answer means.
#[derive(Debug, Clone, Copy, PartialEq, Eq, Structural)]
pub enum ResponseEnd {
    /// The next segment follows.
    Rotate,
    /// The download is over.
    Done,
}

/// What became of a request for the next segment that was sent ahead.
#[derive(Debug, Clone, Copy, PartialEq, Eq, Structural)]
pub enum PrefetchOutcome {
    /// It was answered.
    Answered,
    /// It failed, or its task died.
    Failed,
    /// It took too long.
    TimedOut,
}

/// Whether the answer to a request sent ahead is used. Otherwise the next
/// segment is asked for now.
pub fn use_prefetched(prefetch: Option<PrefetchOutcome>) -> (r: bool)
    ensures
        r == (prefetch == Some(PrefetchOutcome::Answered)),
{
    match prefetch {
        Some(PrefetchOutcome::Answered) => true,
        _ => false,
    }
}

/// Reads the frames of a download, segment after segment.
pub struct DownloadLoopActor<C: FrameCipher> {
    cipher: Option<C>,
    encoding: EncodingType,
    max_bytes: Option<u64>,
    buffer: BytesMut,
    expected_seq: u64,
    bytes_received: u64,
    armed: bool,
}

impl<C: FrameCipher> DownloadLoopActor<C> {
    /// What the download has come to.
    pub closed spec fn model(&self) -> DownloadModel {
        DownloadModel {
            waiting: buffer::buffered(self.buffer),
            expected: self.expected_seq as nat,
            received: self.bytes_received as nat,
            armed: self.armed,
        }
    }

    /// The cipher.
    pub closed spec fn cipher_view(&self) -> Option<&C> {
        match &self.cipher {
            Some(c) => Some(c),
            None => None,
        }
    }

    /// How frames are written.
    pub closed spec fn encoding_view(&self) -> EncodingType {
        self.encoding
    }

    /// The length of a segment.
    pub closed spec fn segment(&self) -> Option<u64> {
        self.max_bytes
    }

    /// Settings are as in `other`.
    pub open spec fn same_settings(&self, other: &Self) -> bool {
        &&& self.cipher_view() == other.cipher_view()
        &&& self.encoding_view() == other.encoding_view()
        &&& self.segment() == other.segment()
    }

    /// Another `n` bytes can be counted, and a number given to every frame in them.
    pub open spec fn has_numbers(&self, n: nat) -> bool {
        let m = self.model();
        &&& m.waiting.len() + n <= isize::MAX
        &&& m.expected + m.waiting.len() + n <= u64::MAX
        &&& m.received + n <= u64::MAX
    }

    /// A download in segments of `max_bytes`, or in one piece.
    pub fn new(cipher: Option<C>, encoding: EncodingType, max_bytes: Option<u64>) -> (r: Self)
        ensures
            r.model() == (DownloadModel {
                waiting: Seq::empty(),
                expected: 0,
                received: 0,
                armed: prefetches(max_bytes),
            }),
            r.cipher_view() == (match cipher {
                Some(c) => Some(&c),
                None => None,
            }),
            r.encoding_view() == encoding,
            r.segment() == max_bytes,
    {
        DownloadLoopActor {
            cipher,
            encoding,
            max_bytes,
            buffer: buffer::buf_new(),
            expected_seq: 0,
            bytes_received: 0,
            armed: match max_bytes {
                Some(m) => m > PREFETCH_LEAD_BYTES,
                None => false,
            },
        }
    }

    /// Whether the next segment is still to be asked for ahead.
    pub fn armed(&self) -> (r: bool)
        ensures
            r == self.model().armed,
    {
        self.armed
    }

    /// Takes the frames off the buffer, their data into `out`.
    fn drain(&mut self, out: &mut Vec<u8>) -> (r: Option<DownloadError>)
        requires
            old(self).model().expected + old(self).model().waiting.len() <= u64::MAX,
        ensures
            final(self).same_settings(old(self)),
            ({
                let d = drained(
                    old(self).model().waiting,
                    old(self).encoding_view(),
                    old(self).cipher_view(),
                    old(self).model().expected,
                );
                &&& final(self).model() == (DownloadModel {
                    waiting: d.rest,
                    expected: d.next,
                    ..old(self).model()
                })
                &&& final(out)@ == old(out)@ + d.data
                &&& r == d.error
            }),
    {
        let ghost begin = self.model();
        let ghost encoding = self.encoding;
        let ghost whole = drained(
            begin.waiting,
            self.encoding,
            self.cipher_view(),
            begin.expected,
        );
        proof {
            assert(out@ + drained(
                begin.waiting,
                encoding,
                self.cipher_view(),
                begin.expected,
            ).data =~= old(out)@ + whole.data);
        }
        loop
            invariant
                self.same_settings(old(self)),
                self.model().received == begin.received,
                self.model().armed == begin.armed,
                self.model().expected + self.model().waiting.len() <= u64::MAX,
                begin == old(self).model(),
                whole == drained(
                    begin.waiting,
                    old(self).encoding_view(),
                    old(self).cipher_view(),
                    begin.expected,
                ),
                ({
                    let d = drained(
                        self.model().waiting,
                        self.encoding_view(),
                        self.cipher_view(),
                        self.model().expected,
                    );
                    &&& d.rest == whole.rest
                    &&& d.next == whole.next
                    &&& d.error == whole.error
                    &&& out@ + d.data == old(out)@ + whole.data
                }),
            decreases self.model().waiting.len(),
        {
            let ghost src = self.model().waiting;
            let ghost left = drained(
                src,
                self.encoding_view(),
                self.cipher_view(),
                self.model().expected,
            );
            let ghost kept = out@;
            proof {
                lemma_front_bounds(src, self.encoding);
            }
            let cipher: Option<&C> = match &self.cipher {
                Some(c) => Some(c),
                None => None,
            };
            match frame::decode_from_buffer_with(&mut self.buffer, cipher, self.encoding) {
                Err(e) => {
                    proof {
                        assert(out@ + left.data =~= out@);
                    }
                    return Some(DownloadError::Frame(e));
                },
                Ok(None) => {
                    proof {
                        assert(out@ + left.data =~= out@);
                    }
                    return None;
                },
                Ok(Some((seq, data))) => {
                    if seq != self.expected_seq {
                        proof {
                            assert(out@ + left.data =~= out@);
                        }
                        return Some(
                            DownloadError::OutOfOrder { seq, expected: self.expected_seq },
                        );
                    }
                    self.expected_seq = self.expected_seq + 1;
                    out.extend_from_slice(buffer::bytes_as_slice(&data));
                    proof {
                        let later = drained(
                            self.model().waiting,
                            self.encoding_view(),
                            self.cipher_view(),
                            self.model().expected,
                        );
                        assert(left.data == buffer::frozen(data) + later.data);
                        assert(out@ + later.data =~= kept + left.data);
                    }
                },
            }
        }
    }

    /// Takes a chunk of the current answer.
    pub fn on_chunk(&mut self, chunk: &[u8]) -> (r: ChunkOutcome)
        requires
            old(self).has_numbers(chunk@.len()),
        ensures
            final(self).same_settings(old(self)),
            ({
                let before = old(self).model();
                let received = before.received + chunk@.len();
                let d = drained(
                    before.waiting + chunk@,
                    old(self).encoding_view(),
                    old(self).cipher_view(),
                    before.expected,
                );
                let fires = before.armed && (old(self).segment() matches Some(m) && received + PREFETCH_LEAD_BYTES >= m);
                &&& final(self).model() == (DownloadModel {
                    waiting: d.rest,
                    expected: d.next,
                    received: received as nat,
                    armed: before.armed && !fires,
                })
                &&& r.data@ == d.data
                &&& r.fire_prefetch == fires
                &&& r.error == d.error
            }),
    {
        self.bytes_received = self.bytes_received + chunk.len() as u64;
        let fire_prefetch: bool = match self.max_bytes {
            Some(m) => self.armed && self.bytes_received >= m.saturating_sub(PREFETCH_LEAD_BYTES),
            None => false,
        };
        if fire_prefetch {
            self.armed = false;
        }
        buffer::buf_put(&mut self.buffer, chunk);
        let mut data: Vec<u8> = Vec::new();
        let error: Option<DownloadError> = self.drain(&mut data);
        ChunkOutcome { data, fire_prefetch, error }
    }

    /// Ends the current answer. Where another segment follows, it continues the
    /// numbers and starts with an empty buffer. Also gives how many bytes were
    /// left over.
    pub fn on_end(&mut self) -> (r: (ResponseEnd, usize))
        ensures
            final(self).same_settings(old(self)),
            r.1 == old(self).model().waiting.len(),
            if rotates(old(self).segment(), old(self).model().received) {
                &&& r.0 is Rotate
                &&& final(self).model() == (DownloadModel {
                    waiting: Seq::empty(),
                    expected: old(self).model().expected,
                    received: 0,
                    armed: prefetches(old(self).segment()),
                })
            } else {
                r.0 is Done && final(self).model() == old(self).model()
            },
    {
        let left: usize = buffer::buf_len(&self.buffer);
        let rotate: bool = match self.max_bytes {
            Some(m) => self.bytes_received > 0 && self.bytes_received >= m,
            None => false,
        };
        if !rotate {
            return (ResponseEnd::Done, left);
        }
        buffer::buf_clear(&mut self.buffer);
        self.bytes_received = 0;
        self.armed = match self.max_bytes {
            Some(m) => m > PREFETCH_LEAD_BYTES,
            None => false,
        };
        (ResponseEnd::Rotate, left)
    }
}

/// Segments that continue each other's numbers give the data back as if they
/// had come in one piece.
pub proof fn law_segments_join<C: FrameCipher + ?Sized>(
    first: Seq<u8>,
    second: Seq<u8>,
    encoding: EncodingType,
    cipher: Option<&C>,
    seq: nat,
    chunks: Seq<Seq<u8>>,
    later: Seq<Seq<u8>>,
)
    requires
        laws::is_stream(first, encoding, cipher, seq, chunks),
        laws::is_stream(second, encoding, cipher, seq + chunks.len(), later),
    ensures
        ({
            let a = drained(first, encoding, cipher, seq);
            let b = drained(second, encoding, cipher, a.next);
            &&& a.error is None
            &&& b.error is None
            &&& a.data + b.data == (chunks + later).flatten()
            &&& a.rest.len() == 0
            &&& b.rest.len() == 0
        }),
{
    law_download_reads_stream(first, encoding, cipher, seq, chunks);
    law_download_reads_stream(second, encoding, cipher, seq + chunks.len(), later);
    lemma_flatten_concat(chunks, later);
}

proof fn lemma_flatten_concat(a: Seq<Seq<u8>>, b: Seq<Seq<u8>>)
    ensures
        (a + b).flatten() == a.flatten() + b.flatten(),
    decreases a.len(),
{
    if a.len() == 0 {
        assert(a + b =~= b);
        assert(Seq::<u8>::empty() + b.flatten() =~= b.flatten());
    } else {
        lemma_flatten_concat(a.drop_first(), b);
        assert((a + b).drop_first() =~= a.drop_first() + b);
        assert((a + b).first() == a.first());
        assert(a.first() + (a.drop_first().flatten() + b.flatten()) =~= (a.first()
            + a.drop_first().flatten()) + b.flatten());
    }
}

/// A segment length gives one answer after the other: an answer that brought as
/// many bytes as a segment holds, or more, is followed by the next one, and an
/// answer that brought fewer was the last. The numbers of the frames go on, and
/// the count of bytes and the buffer start anew.
pub proof fn law_full_segment_is_followed<C: FrameCipher>(
    actor: &mut DownloadLoopActor<C>,
    m: u64,
    r: (ResponseEnd, usize),
)
    requires
        call_ensures(DownloadLoopActor::<C>::on_end, (actor,), r),
        old(actor).segment() == Some(m),
        m >= 1,
    ensures
        old(actor).model().received >= m ==> r.0 == ResponseEnd::Rotate,
        old(actor).model().received < m ==> r.0 == ResponseEnd::Done,
        final(actor).segment() == Some(m),
        final(actor).model().expected == old(actor).model().expected,
        r.0 == ResponseEnd::Rotate ==> {
            &&& final(actor).model().received == 0
            &&& final(actor).model().waiting.len() == 0
            &&& final(actor).model().armed == (m > 16_777_216)
        },
        r.0 == ResponseEnd::Done ==> final(actor).model() == old(actor).model(),
{
}

/// Without a segment length, or with no byte received, the end of an answer is
/// the end of the download.
pub proof fn law_unsegmented_download_ends<C: FrameCipher>(
    actor: &mut DownloadLoopActor<C>,
    r: (ResponseEnd, usize),
)
    requires
        call_ensures(DownloadLoopActor::<C>::on_end, (actor,), r),
        old(actor).segment() is None || old(actor).model().received == 0,
    ensures
        r.0 == ResponseEnd::Done,
        final(actor).model() == old(actor).model(),
{
}

/// The two ends agree on where a segment ends: where the server has counted its
/// segment full, a client that got those bytes asks for the next one, and where
/// the server has not, the client takes the end of the answer for the end of the
/// download.
pub proof fn law_segment_ends_agree<C: FrameCipher>(
    served: &mut DownloadSegment,
    len: usize,
    full: bool,
    actor: &mut DownloadLoopActor<C>,
    r: (ResponseEnd, usize),
)
    requires
        call_ensures(DownloadSegment::on_sent, (served, len), full),
        call_ensures(DownloadLoopActor::<C>::on_end, (actor,), r),
        len > 0,
        old(actor).segment() == old(served).limit(),
        old(actor).model().received == final(served).sent(),
    ensures
        r.0 == ResponseEnd::Rotate <==> full,
        r.0 == ResponseEnd::Done <==> !full,
{
}

/// The same of a download that reads its source frame by frame: it lets its
/// successor in with the frame that makes the client ask for one.
pub proof fn law_rotation_is_asked_for<C: FrameCipher>(
    served: &mut DownloadStream,
    len: u64,
    outcome: ReadOutcome,
    actor: &mut DownloadLoopActor<C>,
    r: (ResponseEnd, usize),
)
    requires
        call_ensures(DownloadStream::on_item, (served, SourceItem::Frame { len }), outcome),
        call_ensures(DownloadLoopActor::<C>::on_end, (actor,), r),
        len > 0,
        old(actor).segment() == old(served).model().limit,
        old(actor).model().received == old(served).model().sent + len,
    ensures
        r.0 == ResponseEnd::Rotate <==> outcome == ReadOutcome::EmitAndRotate,
        r.0 == ResponseEnd::Done <==> outcome == ReadOutcome::Emit,
{
}

/// A download begins with frame zero and with nothing received.
pub proof fn law_download_begins_empty<C: FrameCipher>(
    cipher: Option<C>,
    encoding: EncodingType,
    max_bytes: Option<u64>,
    r: DownloadLoopActor<C>,
)
    requires
        call_ensures(DownloadLoopActor::<C>::new, (cipher, encoding, max_bytes), r),
    ensures
        r.model().expected == 0,
        r.model().received == 0,
        r.model().waiting.len() == 0,
        r.segment() == max_bytes,
        r.encoding_view() == encoding,
        r.model().armed <==> max_bytes is Some && max_bytes->0 > 16_777_216,
{
}

/// Every byte of a chunk counts. The next segment is asked for ahead once in a
/// segment, with the chunk that leaves no more than the lead to come.
pub proof fn law_prefetch_fires_once<C: FrameCipher>(
    actor: &mut DownloadLoopActor<C>,
    chunk: &[u8],
    m: u64,
    r: ChunkOutcome,
)
    requires
        call_ensures(DownloadLoopActor::<C>::on_chunk, (actor, chunk), r),
        old(actor).segment() == Some(m),
    ensures
        final(actor).model().received == old(actor).model().received + chunk@.len(),
        old(actor).model().armed && m - final(actor).model().received <= 16_777_216 ==> r.fire_prefetch
            && !final(actor).model().armed,
        old(actor).model().armed && m - final(actor).model().received > 16_777_216
            ==> !r.fire_prefetch && final(actor).model().armed,
        !old(actor).model().armed ==> !r.fire_prefetch && !final(actor).model().armed,
{
}

/// Frames that come in one chunk give their data and leave nothing behind, for
/// every way of sealing and writing them.
pub proof fn law_chunk_of_frames_is_read<C: FrameCipher>(
    actor: &mut DownloadLoopActor<C>,
    chunk: &[u8],
    chunks: Seq<Seq<u8>>,
    r: ChunkOutcome,
)
    requires
        call_ensures(DownloadLoopActor::<C>::on_chunk, (actor, chunk), r),
        old(actor).model().waiting.len() == 0,
        laws::is_stream(
            chunk@,
            old(actor).encoding_view(),
            old(actor).cipher_view(),
            old(actor).model().expected,
            chunks,
        ),
    ensures
        r.error is None,
        r.data@ == chunks.flatten(),
        final(actor).model().waiting.len() == 0,
        final(actor).model().expected == old(actor).model().expected + chunks.len(),
{
    law_download_reads_stream(
        chunk@,
        old(actor).encoding_view(),
        old(actor).cipher_view(),
        old(actor).model().expected,
        chunks,
    );
    assert(old(actor).model().waiting + chunk@ =~= chunk@);
}

/// Only an answer to the request sent ahead is used in its place.
pub proof fn law_only_answers_are_used(outcome: PrefetchOutcome, r: bool, none: bool)
    requires
        call_ensures(use_prefetched, (Some(outcome),), r),
        call_ensures(use_prefetched, (None::<PrefetchOutcome>,), none),
    ensures
        r <==> outcome == PrefetchOutcome::Answered,
        !none,
{
}

} // verus!
