//! Frames: a header, the data and its padding, sealed or plain, in binary or as a line of text.
use crate::buffer;
use crate::shaper::base122;
use crate::shaper::cipher;
use crate::shaper::json;
use crate::shaper::config::PaddingConfig;
use crate::shaper::{FrameCipher, FrameError};
use crate::text;
use crate::wire;
use bytes::{Bytes, BytesMut};
use vstd::prelude::*;
use vstd::slice::slice_subrange;

verus! {

/// The most data that one binary frame carries.
pub const MAX_RAW_PAYLOAD: usize = 16384;

/// Bytes of header in front of the data: sequence number and data length.
pub const HEADER_LEN: usize = 10;

/// The most data that one plain text frame carries.
pub const JSON_PAYLOAD_CAP_PLAIN: usize = 14310;

/// The most data that one sealed text frame carries.
pub const JSON_PAYLOAD_CAP_CIPHER: usize = 14282;

/// The longest body of a binary frame.
pub const MAX_BINARY_FRAME_LEN: usize = 16422;

/// The longest line of a text frame, without its line feed.
pub const MAX_JSON_LINE_LEN: usize = 18780;

/// How a frame is written.
#[derive(Debug, Clone, Copy, PartialEq, Eq, Structural)]
pub enum EncodingType {
    /// One JSON object per line.
    Json,
    /// A two-byte length, then the body.
    Binary,
}

impl Default for EncodingType {
    fn default() -> (r: Self)
        ensures
            r == EncodingType::Binary,
    {
        EncodingType::Binary
    }
}

/// `n` zero bytes.
pub open spec fn zeros(n: nat) -> Seq<u8> {
    Seq::new(n, |i: int| 0u8)
}

/// The payload of a frame: sequence number, data length, data, padding.
pub open spec fn payload(seq: u64, data: Seq<u8>, pad: nat) -> Seq<u8> {
    wire::be_bytes(seq as nat, 8) + wire::be_bytes(data.len(), 2) + data + zeros(pad)
}

/// Sequence number and data that a payload carries.
pub open spec fn extracted(payload: Seq<u8>) -> Result<(u64, Seq<u8>), FrameError> {
    if payload.len() < HEADER_LEN {
        Err(FrameError::PayloadTooShort)
    } else {
        let seq = wire::be_value(payload.take(8)) as u64;
        let len = wire::be_value(payload.subrange(8, 10));
        if payload.len() < HEADER_LEN + len {
            Err(FrameError::PayloadTruncated)
        } else {
            Ok((seq, payload.subrange(HEADER_LEN as int, HEADER_LEN + len)))
        }
    }
}

/// The frame that carries `body`.
pub open spec fn framed(encoding: EncodingType, body: Seq<u8>) -> Seq<u8> {
    match encoding {
        EncodingType::Binary => wire::be_bytes(body.len(), 2) + body,
        EncodingType::Json => json::line_head() + base122::base122_encoded(body) + json::line_tail(),
    }
}

/// The payload behind the body of a frame.
pub open spec fn opened_body<C: FrameCipher + ?Sized>(cipher: Option<&C>, body: Seq<u8>) -> Result<
    Seq<u8>,
    FrameError,
> {
    match cipher {
        Some(c) => c.opened(body),
        None => Ok(body),
    }
}

/// Whether a payload of `n` bytes can be put into a frame.
pub open spec fn can_seal<C: FrameCipher + ?Sized>(cipher: Option<&C>, n: nat) -> bool {
    match cipher {
        Some(c) => c.seals_len(n),
        None => true,
    }
}

/// `body` is a payload as it stands in a frame: sealed under the cipher, or as it is.
pub open spec fn is_body<C: FrameCipher + ?Sized>(
    cipher: Option<&C>,
    body: Seq<u8>,
    payload: Seq<u8>,
) -> bool {
    match cipher {
        Some(c) => cipher::seals(c.opened(body), body, payload),
        None => body == payload,
    }
}

/// Where text is written, the codec's text for `body` reads back as `body`.
pub open spec fn is_writable(encoding: EncodingType, body: Seq<u8>) -> bool {
    encoding == EncodingType::Json ==> base122::is_encoding(base122::base122_encoded(body), body)
}

/// `frame` carries `data` under the number `seq` with `pad` bytes of padding.
pub open spec fn is_frame<C: FrameCipher + ?Sized>(
    frame: Seq<u8>,
    encoding: EncodingType,
    cipher: Option<&C>,
    seq: u64,
    data: Seq<u8>,
    pad: nat,
) -> bool {
    exists|body: Seq<u8>| #[trigger]
        is_body(cipher, body, payload(seq, data, pad)) && frame == framed(encoding, body)
            && is_writable(encoding, body)
}

/// What the front of a buffer is.
pub enum Front {
    /// Not yet a whole frame.
    Partial,
    /// No frame.
    Reject(FrameError),
    /// A frame of `used` bytes with its body, where the body can be read.
    Whole { used: int, body: Result<Seq<u8>, FrameError> },
}

/// The front of a buffer of binary frames.
pub open spec fn binary_front(src: Seq<u8>) -> Front {
    if src.len() < 2 {
        Front::Partial
    } else {
        let len = wire::be_value(src.take(2)) as int;
        if len > MAX_BINARY_FRAME_LEN {
            Front::Reject(FrameError::BinaryTooLong)
        } else if src.len() < 2 + len {
            Front::Partial
        } else {
            Front::Whole { used: 2 + len, body: Ok(src.subrange(2, 2 + len)) }
        }
    }
}

/// The front of a buffer of text frames.
pub open spec fn json_front(src: Seq<u8>) -> Front {
    match src.index_of_first(0x0au8) {
        Some(pos) => if pos > MAX_JSON_LINE_LEN {
            Front::Reject(FrameError::LineTooLong)
        } else if pos == 0 {
            Front::Whole { used: 1, body: Err(FrameError::EmptyLine) }
        } else {
            Front::Whole { used: pos + 1, body: json::line_payload(src.take(pos)) }
        },
        None => if src.len() > MAX_JSON_LINE_LEN {
            Front::Reject(FrameError::LineIncomplete)
        } else {
            Front::Partial
        },
    }
}

/// The front of a buffer of frames.
pub open spec fn front(src: Seq<u8>, encoding: EncodingType) -> Front {
    match encoding {
        EncodingType::Binary => binary_front(src),
        EncodingType::Json => json_front(src),
    }
}

/// Sequence number and data that a frame's body carries.
pub open spec fn body_content<C: FrameCipher + ?Sized>(
    cipher: Option<&C>,
    body: Result<Seq<u8>, FrameError>,
) -> Result<(u64, Seq<u8>), FrameError> {
    match body {
        Err(e) => Err(e),
        Ok(b) => match opened_body(cipher, b) {
            Err(e) => Err(e),
            Ok(p) => extracted(p),
        },
    }
}

/// A frame that was read. Opened data stays in the caller's scratch buffer.
#[derive(Debug)]
pub enum DecodedFrame {
    InScratch { seq: u64, start: usize, end: usize },
    Owned { seq: u64, data: Bytes },
}

impl DecodedFrame {
    /// The frame's sequence number.
    pub open spec fn seq_no(self) -> u64 {
        match self {
            DecodedFrame::InScratch { seq, .. } => seq,
            DecodedFrame::Owned { seq, .. } => seq,
        }
    }

    /// The frame's data, given what the scratch buffer holds.
    pub open spec fn content(self, scratch: Seq<u8>) -> Seq<u8> {
        match self {
            DecodedFrame::InScratch { start, end, .. } => scratch.subrange(start as int, end as int),
            DecodedFrame::Owned { data, .. } => buffer::frozen(data),
        }
    }

    /// The frame's data lies inside the scratch buffer.
    pub open spec fn fits(self, scratch: Seq<u8>) -> bool {
        match self {
            DecodedFrame::InScratch { start, end, .. } => start <= end <= scratch.len(),
            DecodedFrame::Owned { .. } => true,
        }
    }
}

/// Sequence number, start and end of the data in a payload.
pub fn extract_frame_range(payload: &[u8]) -> (r: Result<(u64, usize, usize), FrameError>)
    ensures
        match extracted(payload@) {
            Ok((seq, data)) => r matches Ok((s, start, end)) && s == seq && start == HEADER_LEN && start
                <= end <= payload@.len() && data == payload@.subrange(start as int, end as int),
            Err(e) => r == Err::<(u64, usize, usize), FrameError>(e),
        },
{
    if payload.len() < HEADER_LEN {
        return Err(FrameError::PayloadTooShort);
    }
    let seq: u64 = wire::read_u64_be(payload);
    let len_field = slice_subrange(payload, 8, 10);
    let orig_len: usize = wire::read_u16_be(len_field) as usize;
    proof {
        assert(len_field@.take(2) =~= payload@.subrange(8, 10));
    }
    let total: usize = HEADER_LEN + orig_len;
    if payload.len() < total {
        return Err(FrameError::PayloadTruncated);
    }
    Ok((seq, HEADER_LEN, total))
}

/// The most data that a frame carries.
pub open spec fn raw_limit(sealed: bool, encoding: EncodingType) -> usize {
    match encoding {
        EncodingType::Json => if sealed {
            JSON_PAYLOAD_CAP_CIPHER
        } else {
            JSON_PAYLOAD_CAP_PLAIN
        },
        EncodingType::Binary => MAX_RAW_PAYLOAD,
    }
}

/// The most data that a frame carries.
pub fn frame_raw_limit(sealed: bool, encoding: EncodingType) -> (r: usize)
    ensures
        r == raw_limit(sealed, encoding),
{
    match encoding {
        EncodingType::Json => if sealed {
            JSON_PAYLOAD_CAP_CIPHER
        } else {
            JSON_PAYLOAD_CAP_PLAIN
        },
        EncodingType::Binary => MAX_RAW_PAYLOAD,
    }
}

/// The padding for `raw_len` bytes of data of which `wanted` bytes were asked:
/// none from the threshold on, and never more than the frame has room for.
pub open spec fn padding_for(raw_len: nat, limit: nat, threshold: nat, wanted: nat) -> nat {
    if raw_len < threshold {
        if wanted < limit - raw_len {
            wanted
        } else {
            (limit - raw_len) as nat
        }
    } else {
        0
    }
}

/// `pad` bytes of padding go with `len` bytes of data in a frame that takes `limit`
/// bytes: below the threshold some number of the range, as far as the frame has room
/// for it, and from the threshold on none.
pub open spec fn is_drawn_padding(pad: nat, len: nat, limit: nat, padding: PaddingConfig) -> bool {
    &&& len <= limit
    &&& exists|wanted: nat|
        {
            &&& len < padding.padding_threshold ==> padding.padding_range[0] <= wanted
                <= padding.padding_range[1]
            &&& pad == #[trigger] padding_for(len, limit, padding.padding_threshold as nat, wanted)
        }
}

/// The padding for `raw_len` bytes of data of which `wanted` bytes were asked.
pub fn padding_len(raw_len: usize, limit: usize, threshold: usize, wanted: usize) -> (r: usize)
    requires
        raw_len <= limit,
    ensures
        r == padding_for(raw_len as nat, limit as nat, threshold as nat, wanted as nat),
{
    if raw_len < threshold {
        let max_pad: usize = limit - raw_len;
        if wanted < max_pad {
            wanted
        } else {
            max_pad
        }
    } else {
        0
    }
}

/// Writes the payload of a frame.
pub fn build_payload(data: &[u8], seq: u64, pad: usize) -> (r: Vec<u8>)
    requires
        data@.len() + pad <= MAX_RAW_PAYLOAD,
    ensures
        r@ == payload(seq, data@, pad as nat),
        r@.len() == HEADER_LEN + data@.len() + pad,
{
    let mut out: Vec<u8> = Vec::with_capacity(HEADER_LEN + data.len() + pad);
    wire::push_u64_be(&mut out, seq);
    wire::push_u16_be(&mut out, data.len() as u16);
    out.extend_from_slice(data);
    let ghost head = out@;
    proof {
        wire::lemma_be_bytes_len(seq as nat, 8);
        wire::lemma_be_bytes_len(data@.len(), 2);
        assert(head =~= wire::be_bytes(seq as nat, 8) + wire::be_bytes(data@.len(), 2) + data@);
        assert(zeros(0) =~= Seq::<u8>::empty());
    }
    let mut i: usize = 0;
    while i < pad
        invariant
            i <= pad,
            out@ =~= head + zeros(i as nat),
        decreases pad - i,
    {
        out.push(0u8);
        i = i + 1;
    }
    out
}

/// Appends the frame that carries `data`.
pub fn write_encoded_frame(buf: &mut BytesMut, data: &[u8], encoding: EncodingType)
    requires
        data@.len() <= 0xffff,
        buffer::buffered(*old(buf)).len() + 0x8_0000 <= isize::MAX,
    ensures
        buffer::buffered(*final(buf)) == buffer::buffered(*old(buf)) + framed(encoding, data@),
        is_writable(encoding, data@),
{
    let ghost start = buffer::buffered(*buf);
    match encoding {
        EncodingType::Binary => {
            let mut len: Vec<u8> = Vec::with_capacity(2);
            wire::push_u16_be(&mut len, data.len() as u16);
            proof {
                wire::lemma_be_bytes_len(data@.len(), 2);
            }
            buffer::buf_put(buf, &len);
            buffer::buf_put(buf, data);
            proof {
                assert(buffer::buffered(*buf) =~= start + framed(encoding, data@));
            }
        },
        EncodingType::Json => {
            let len: usize = data.len();
            let mut spare: Vec<u8> = Vec::with_capacity(len + 1);
            spare.extend_from_slice(data);
            spare.push(0);
            let mut encoded: Vec<u8> = Vec::new();
            let _n: usize = base122::encode_into(&spare, len, &mut encoded);
            proof {
                reveal_strlit("{\"data\":\"");
                reveal_strlit("\"}\n");
            }
            buffer::buf_put(buf, text::literal_bytes("{\"data\":\""));
            buffer::buf_put(buf, &encoded);
            buffer::buf_put(buf, text::literal_bytes("\"}\n"));
            proof {
                assert(spare@.take(len as int) =~= data@);
                assert(buffer::buffered(*buf) =~= start + framed(encoding, data@));
            }
        },
    }
}

/// Writes the frame that carries `data` under the number `seq` with `pad` bytes of padding.
pub fn encode_padded<C: FrameCipher + ?Sized>(
    data: &[u8],
    seq: u64,
    cipher: Option<&C>,
    pad: usize,
    encoding: EncodingType,
) -> (r: Result<Vec<u8>, FrameError>)
    requires
        data@.len() + pad <= raw_limit(cipher is Some, encoding),
    ensures
        r is Ok <==> can_seal(cipher, (HEADER_LEN + data@.len() + pad) as nat),
        r matches Ok(f) ==> is_frame(f@, encoding, cipher, seq, data@, pad as nat),
{
    let plain = build_payload(data, seq, pad);
    let body: Vec<u8> = match cipher {
        Some(c) => match c.encrypt(&plain) {
            Ok(sealed) => sealed,
            Err(e) => {
                return Err(e);
            },
        },
        None => plain,
    };
    let mut frame: BytesMut = buffer::buf_new();
    write_encoded_frame(&mut frame, &body, encoding);
    let out = vstd::slice::slice_to_vec(buffer::buf_slice(&frame));
    proof {
        assert(is_body(cipher, body@, payload(seq, data@, pad as nat)));
        assert(out@ =~= framed(encoding, body@));
    }
    Ok(out)
}

/// `rand::RngExt::random_range` on the thread's generator: some number between the bounds.
/// It panics on an empty range.
#[verifier::external_body]
pub(crate) fn random_between(low: usize, high: usize) -> (r: usize)
    requires
        low <= high,
    ensures
        low <= r <= high,
{
    rand::RngExt::random_range(&mut rand::rng(), low..=high)
}

/// Writes the frame that carries `data` under the number `seq`. Data below the
/// threshold is padded by a random number of bytes from the range, as far as
/// the frame has room.
pub fn encode_frame(
    data: &[u8],
    seq: u64,
    cipher: Option<&dyn FrameCipher>,
    padding_threshold: usize,
    padding_range: [usize; 2],
    encoding: EncodingType,
) -> (r: Result<Vec<u8>, FrameError>)
    requires
        data@.len() < padding_threshold ==> padding_range[0] <= padding_range[1],
    ensures
        data@.len() > raw_limit(cipher is Some, encoding) ==> r == Err::<Vec<u8>, FrameError>(
            FrameError::PayloadTooLarge {
                len: data@.len() as usize,
                limit: raw_limit(cipher is Some, encoding),
            },
        ),
        data@.len() <= raw_limit(cipher is Some, encoding) && (forall|n: nat|
            n <= MAX_BINARY_FRAME_LEN ==> #[trigger] can_seal(cipher, n)) ==> r is Ok,
        r matches Ok(f) ==> exists|wanted: nat|
            (data@.len() < padding_threshold ==> padding_range[0] <= wanted <= padding_range[1])
                && #[trigger] is_frame(
                f@,
                encoding,
                cipher,
                seq,
                data@,
                padding_for(
                    data@.len(),
                    raw_limit(cipher is Some, encoding) as nat,
                    padding_threshold as nat,
                    wanted,
                ),
            ),
{
    encode_frame_with(data, seq, cipher, padding_threshold, padding_range, encoding)
}

/// `encode_frame` for a cipher of a known type.
pub fn encode_frame_with<C: FrameCipher + ?Sized>(
    data: &[u8],
    seq: u64,
    cipher: Option<&C>,
    padding_threshold: usize,
    padding_range: [usize; 2],
    encoding: EncodingType,
) -> (r: Result<Vec<u8>, FrameError>)
    requires
        data@.len() < padding_threshold ==> padding_range[0] <= padding_range[1],
    ensures
        data@.len() > raw_limit(cipher is Some, encoding) ==> r == Err::<Vec<u8>, FrameError>(
            FrameError::PayloadTooLarge {
                len: data@.len() as usize,
                limit: raw_limit(cipher is Some, encoding),
            },
        ),
        data@.len() <= raw_limit(cipher is Some, encoding) && (forall|n: nat|
            n <= MAX_BINARY_FRAME_LEN ==> #[trigger] can_seal(cipher, n)) ==> r is Ok,
        r matches Ok(f) ==> exists|wanted: nat|
            (data@.len() < padding_threshold ==> padding_range[0] <= wanted <= padding_range[1])
                && #[trigger] is_frame(
                f@,
                encoding,
                cipher,
                seq,
                data@,
                padding_for(
                    data@.len(),
                    raw_limit(cipher is Some, encoding) as nat,
                    padding_threshold as nat,
                    wanted,
                ),
            ),
{
    let limit: usize = frame_raw_limit(cipher.is_some(), encoding);
    if data.len() > limit {
        return Err(FrameError::PayloadTooLarge { len: data.len(), limit });
    }
    let wanted: usize = if data.len() < padding_threshold {
        random_between(padding_range[0], padding_range[1])
    } else {
        0
    };
    let pad: usize = padding_len(data.len(), limit, padding_threshold, wanted);
    encode_padded(data, seq, cipher, pad, encoding)
}

/// The payload of a sealed body, opened into `scratch`.
fn open_into_scratch<C: FrameCipher + ?Sized>(c: &C, body: &[u8], scratch: &mut BytesMut) -> (r:
    Result<DecodedFrame, FrameError>)
    requires
        body@.len() <= isize::MAX,
    ensures
        match body_content(Some(c), Ok::<Seq<u8>, FrameError>(body@)) {
            Ok((seq, data)) => r matches Ok(f) && f is InScratch && f.seq_no() == seq && f.fits(
                buffer::buffered(*final(scratch)),
            ) && f.content(buffer::buffered(*final(scratch))) == data,
            Err(e) => r == Err::<DecodedFrame, FrameError>(e),
        },
        c.opened(body@) matches Ok(p) ==> buffer::buffered(*final(scratch)) == p,
{
    buffer::buf_clear(scratch);
    match c.decrypt_into(body, scratch) {
        Ok(_) => {},
        Err(e) => {
            return Err(e);
        },
    }
    proof {
        assert(buffer::buffered(*scratch) =~= c.opened(body@)->Ok_0);
    }
    match extract_frame_range(buffer::buf_slice(scratch)) {
        Ok((seq, start, end)) => Ok(DecodedFrame::InScratch { seq, start, end }),
        Err(e) => Err(e),
    }
}

/// Takes one frame off the front of `src`. A frame that cannot be read is
/// taken off too; what is no frame, or not yet one, stays, and so do the two
/// buffers that frames are opened in.
pub fn decode_frame(
    src: &mut BytesMut,
    scratch: &mut BytesMut,
    json_scratch: &mut Vec<u8>,
    cipher: Option<&dyn FrameCipher>,
    encoding: EncodingType,
) -> (r: Result<Option<DecodedFrame>, FrameError>)
    ensures
        match front(buffer::buffered(*old(src)), encoding) {
            Front::Partial => {
                &&& r matches Ok(f) && f is None
                &&& buffer::buffered(*final(src)) == buffer::buffered(*old(src))
                &&& buffer::buffered(*final(scratch)) == buffer::buffered(*old(scratch))
                &&& final(json_scratch)@ == old(json_scratch)@
            },
            Front::Reject(e) => {
                &&& r == Err::<Option<DecodedFrame>, FrameError>(e)
                &&& buffer::buffered(*final(src)) == buffer::buffered(*old(src))
                &&& buffer::buffered(*final(scratch)) == buffer::buffered(*old(scratch))
                &&& final(json_scratch)@ == old(json_scratch)@
            },
            Front::Whole { used, body } => {
                &&& buffer::buffered(*final(src)) == buffer::buffered(*old(src)).skip(used)
                &&& match body_content(cipher, body) {
                    Err(e) => r == Err::<Option<DecodedFrame>, FrameError>(e),
                    Ok((seq, data)) => {
                        &&& r matches Ok(Some(f))
                        &&& (f is InScratch <==> cipher is Some)
                        &&& f.seq_no() == seq
                        &&& f.fits(buffer::buffered(*final(scratch)))
                        &&& f.content(buffer::buffered(*final(scratch))) == data
                    },
                }
            },
        },
        cipher is None ==> buffer::buffered(*final(scratch)) == buffer::buffered(*old(scratch)),
        encoding is Binary ==> final(json_scratch)@ == old(json_scratch)@,
{
    decode_frame_with(src, scratch, json_scratch, cipher, encoding)
}

/// `decode_frame` for a cipher of a known type.
pub fn decode_frame_with<C: FrameCipher + ?Sized>(
    src: &mut BytesMut,
    scratch: &mut BytesMut,
    json_scratch: &mut Vec<u8>,
    cipher: Option<&C>,
    encoding: EncodingType,
) -> (r: Result<Option<DecodedFrame>, FrameError>)
    ensures
        match front(buffer::buffered(*old(src)), encoding) {
            Front::Partial => {
                &&& r matches Ok(f) && f is None
                &&& buffer::buffered(*final(src)) == buffer::buffered(*old(src))
                &&& buffer::buffered(*final(scratch)) == buffer::buffered(*old(scratch))
                &&& final(json_scratch)@ == old(json_scratch)@
            },
            Front::Reject(e) => {
                &&& r == Err::<Option<DecodedFrame>, FrameError>(e)
                &&& buffer::buffered(*final(src)) == buffer::buffered(*old(src))
                &&& buffer::buffered(*final(scratch)) == buffer::buffered(*old(scratch))
                &&& final(json_scratch)@ == old(json_scratch)@
            },
            Front::Whole { used, body } => {
                &&& buffer::buffered(*final(src)) == buffer::buffered(*old(src)).skip(used)
                &&& match body_content(cipher, body) {
                    Err(e) => r == Err::<Option<DecodedFrame>, FrameError>(e),
                    Ok((seq, data)) => {
                        &&& r matches Ok(Some(f))
                        &&& (f is InScratch <==> cipher is Some)
                        &&& f.seq_no() == seq
                        &&& f.fits(buffer::buffered(*final(scratch)))
                        &&& f.content(buffer::buffered(*final(scratch))) == data
                    },
                }
            },
        },
        cipher is None ==> buffer::buffered(*final(scratch)) == buffer::buffered(*old(scratch)),
        encoding is Binary ==> final(json_scratch)@ == old(json_scratch)@,
{
    match encoding {
        EncodingType::Binary => {
            if buffer::buf_len(src) < 2 {
                return Ok(None);
            }
            let frame_len: usize = wire::read_u16_be(buffer::buf_slice(src)) as usize;
            if frame_len > MAX_BINARY_FRAME_LEN {
                return Err(FrameError::BinaryTooLong);
            }
            if buffer::buf_len(src) < 2 + frame_len {
                return Ok(None);
            }
            let ghost start_src = buffer::buffered(*src);
            buffer::buf_advance(src, 2);
            let view: BytesMut = buffer::buf_split_to(src, frame_len);
            proof {
                assert(buffer::buffered(view) =~= start_src.subrange(2, 2 + frame_len));
                assert(buffer::buffered(*src) =~= start_src.skip(2 + frame_len));
            }
            match cipher {
                Some(c) => match open_into_scratch(c, buffer::buf_slice(&view), scratch) {
                    Ok(f) => Ok(Some(f)),
                    Err(e) => Err(e),
                },
                None => match extract_frame_range(buffer::buf_slice(&view)) {
                    Ok((seq, start, end)) => {
                        let data: Bytes = buffer::bytes_slice(&buffer::buf_freeze(view), start, end);
                        Ok(Some(DecodedFrame::Owned { seq, data }))
                    },
                    Err(e) => Err(e),
                },
            }
        },
        EncodingType::Json => {
            match text::find_byte(0x0a, buffer::buf_slice(src)) {
                Some(pos) => {
                    if pos > MAX_JSON_LINE_LEN {
                        return Err(FrameError::LineTooLong);
                    }
                    let ghost start_src = buffer::buffered(*src);
                    let line: BytesMut = buffer::buf_split_to(src, pos);
                    buffer::buf_advance(src, 1);
                    proof {
                        assert(buffer::buffered(*src) =~= start_src.skip(pos as int + 1));
                    }
                    if buffer::buf_len(&line) == 0 {
                        return Err(FrameError::EmptyLine);
                    }
                    match json::parse_json_payload_into(buffer::buf_slice(&line), json_scratch) {
                        Ok(_) => {},
                        Err(e) => {
                            return Err(e);
                        },
                    }
                    match cipher {
                        Some(c) => match open_into_scratch(c, json_scratch, scratch) {
                            Ok(f) => Ok(Some(f)),
                            Err(e) => Err(e),
                        },
                        None => {
                            let mut taken: Vec<u8> = Vec::new();
                            std::mem::swap(&mut taken, json_scratch);
                            let whole: Bytes = buffer::bytes_from_vec(taken);
                            match extract_frame_range(buffer::bytes_as_slice(&whole)) {
                                Ok((seq, start, end)) => {
                                    let data: Bytes = buffer::bytes_slice(&whole, start, end);
                                    Ok(Some(DecodedFrame::Owned { seq, data }))
                                },
                                Err(e) => Err(e),
                            }
                        },
                    }
                },
                None => {
                    if buffer::buf_len(src) > MAX_JSON_LINE_LEN {
                        return Err(FrameError::LineIncomplete);
                    }
                    Ok(None)
                },
            }
        },
    }
}

/// Takes one frame off the front of `src`, with buffers of its own.
pub fn decode_from_buffer(
    src: &mut BytesMut,
    cipher: Option<&dyn FrameCipher>,
    encoding: EncodingType,
) -> (r: Result<Option<(u64, Bytes)>, FrameError>)
    ensures
        match front(buffer::buffered(*old(src)), encoding) {
            Front::Partial => r matches Ok(f) && f is None && buffer::buffered(*final(src))
                == buffer::buffered(*old(src)),
            Front::Reject(e) => r == Err::<Option<(u64, Bytes)>, FrameError>(e)
                && buffer::buffered(*final(src)) == buffer::buffered(*old(src)),
            Front::Whole { used, body } => {
                &&& buffer::buffered(*final(src)) == buffer::buffered(*old(src)).skip(used)
                &&& match body_content(cipher, body) {
                    Err(e) => r == Err::<Option<(u64, Bytes)>, FrameError>(e),
                    Ok((seq, data)) => r matches Ok(Some((s, d))) && s == seq && buffer::frozen(d)
                        == data,
                }
            },
        },
{
    decode_from_buffer_with(src, cipher, encoding)
}

/// `decode_from_buffer` for a cipher of a known type.
pub fn decode_from_buffer_with<C: FrameCipher + ?Sized>(
    src: &mut BytesMut,
    cipher: Option<&C>,
    encoding: EncodingType,
) -> (r: Result<Option<(u64, Bytes)>, FrameError>)
    ensures
        match front(buffer::buffered(*old(src)), encoding) {
            Front::Partial => r matches Ok(f) && f is None && buffer::buffered(*final(src))
                == buffer::buffered(*old(src)),
            Front::Reject(e) => r == Err::<Option<(u64, Bytes)>, FrameError>(e)
                && buffer::buffered(*final(src)) == buffer::buffered(*old(src)),
            Front::Whole { used, body } => {
                &&& buffer::buffered(*final(src)) == buffer::buffered(*old(src)).skip(used)
                &&& match body_content(cipher, body) {
                    Err(e) => r == Err::<Option<(u64, Bytes)>, FrameError>(e),
                    Ok((seq, data)) => r matches Ok(Some((s, d))) && s == seq && buffer::frozen(d)
                        == data,
                }
            },
        },
{
    let mut scratch: BytesMut = buffer::buf_new();
    let mut json_scratch: Vec<u8> = Vec::new();
    match decode_frame_with(src, &mut scratch, &mut json_scratch, cipher, encoding) {
        Ok(Some(DecodedFrame::InScratch { seq, start, end })) => {
            let plain: Bytes = buffer::buf_freeze(scratch);
            Ok(Some((seq, buffer::bytes_slice(&plain, start, end))))
        },
        Ok(Some(DecodedFrame::Owned { seq, data })) => Ok(Some((seq, data))),
        Ok(None) => Ok(None),
        Err(e) => Err(e),
    }
}

} // verus!
