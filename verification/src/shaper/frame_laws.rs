//! What holds of every frame that is written or read, byte by byte.
use crate::buffer;
use crate::shaper::frame;
use crate::shaper::frame::{
    build_payload, decode_frame, decode_from_buffer, decode_from_buffer_with, encode_frame,
    encode_frame_with, encode_padded, extract_frame_range, frame_raw_limit, padding_len,
    write_encoded_frame, DecodedFrame, EncodingType,
};
use crate::shaper::json;
use crate::shaper::json::{parse_json_payload_into, trim_bytes};
use crate::shaper::laws;
use crate::shaper::{base122, FrameCipher, FrameError, PaddingConfig};
use crate::text;
use crate::wire;
use bytes::{Bytes, BytesMut};
use vstd::prelude::*;
use vstd::utf8::*;

verus! {

/// Data from the threshold on is not padded. Shorter data is padded by the
/// number that was drawn where the frame has room for it, and else to the very
/// limit of the frame.
pub proof fn law_padding_is_what_was_drawn(
    raw_len: usize,
    limit: usize,
    threshold: usize,
    wanted: usize,
    pad: usize,
)
    requires
        call_ensures(padding_len, (raw_len, limit, threshold, wanted), pad),
        raw_len <= limit,
    ensures
        raw_len >= threshold ==> pad == 0,
        raw_len < threshold && wanted <= limit - raw_len ==> pad == wanted,
        raw_len < threshold && wanted > limit - raw_len ==> raw_len + pad == limit,
{
}

/// The payload of a frame is as long as header, data and padding together. Below
/// the threshold the padding is the number drawn, as long as the frame takes it.
pub proof fn law_payload_length(
    data: &[u8],
    seq: u64,
    limit: usize,
    threshold: usize,
    wanted: usize,
    pad: usize,
    r: Vec<u8>,
)
    requires
        call_ensures(padding_len, (data@.len() as usize, limit, threshold, wanted), pad),
        call_ensures(build_payload, (data, seq, pad), r),
        data@.len() <= limit <= 16_384,
    ensures
        data@.len() >= threshold ==> r@.len() == 10 + data@.len(),
        data@.len() < threshold && data@.len() + wanted <= limit ==> r@.len() == 10 + data@.len()
            + wanted,
        data@.len() < threshold && data@.len() + wanted > limit ==> r@.len() == 10 + limit,
        r@.subrange(10, 10int + data@.len()) == data@,
        forall|i: int| 10 + data@.len() <= i < r@.len() ==> r@[i] == 0,
{
    laws::law_extract(seq, data@, pad as nat);
    assert(r@.subrange(10, 10int + data@.len()) =~= data@) by {
        wire::lemma_be_bytes_len(seq as nat, 8);
        wire::lemma_be_bytes_len(data@.len(), 2);
    }
    wire::lemma_be_bytes_len(seq as nat, 8);
    wire::lemma_be_bytes_len(data@.len(), 2);
}

/// Padding that goes with data in a frame lies in the range, below the threshold
/// and with room in the frame for the longest; fills the frame where even the
/// shortest has no room; and is none from the threshold on.
pub proof fn law_drawn_padding_lies_in_range(
    pad: nat,
    len: nat,
    limit: nat,
    padding: PaddingConfig,
)
    requires
        frame::is_drawn_padding(pad, len, limit, padding),
    ensures
        len + pad <= limit,
        len >= padding.padding_threshold ==> pad == 0,
        len < padding.padding_threshold && len + padding.padding_range[1] <= limit
            ==> padding.padding_range[0] <= pad <= padding.padding_range[1],
        len < padding.padding_threshold && len + padding.padding_range[0] >= limit ==> len + pad == limit,
        len < padding.padding_threshold && len + padding.padding_range[0] <= limit
            ==> padding.padding_range[0] <= pad,
{
}

/// The most that a frame carries: 16384 bytes, less where it is written as text.
pub proof fn law_frame_limits(encoding: EncodingType, plain: usize, sealed: usize)
    requires
        call_ensures(frame_raw_limit, (false, encoding), plain),
        call_ensures(frame_raw_limit, (true, encoding), sealed),
    ensures
        encoding == EncodingType::Binary ==> plain == 16_384 && sealed == 16_384,
        encoding == EncodingType::Json ==> plain == 14_310 && sealed == 14_282,
{
}

/// A frame that was written carries the data under its number. Its padding lies
/// in the range that was asked for, as far as the frame has room.
pub proof fn law_written_frame_is_padded<C: FrameCipher + ?Sized>(
    data: &[u8],
    seq: u64,
    cipher: Option<&C>,
    threshold: usize,
    range: [usize; 2],
    encoding: EncodingType,
    limit: usize,
    f: Vec<u8>,
)
    requires
        call_ensures(
            encode_frame_with::<C>,
            (data, seq, cipher, threshold, range, encoding),
            Ok::<Vec<u8>, FrameError>(f),
        ),
        call_ensures(frame_raw_limit, (cipher is Some, encoding), limit),
    ensures
        data@.len() <= limit,
        exists|pad: nat|
            {
                &&& #[trigger] frame::is_frame(f@, encoding, cipher, seq, data@, pad)
                &&& data@.len() + pad <= limit
                &&& data@.len() >= threshold ==> pad == 0
                &&& data@.len() < threshold && data@.len() + range[1] <= limit ==> range[0] <= pad
                    <= range[1]
                &&& data@.len() < threshold && data@.len() + range[0] >= limit ==> data@.len() + pad
                    == limit
            },
{
    let wanted = choose|wanted: nat|
        (data@.len() < threshold ==> range[0] <= wanted <= range[1]) && #[trigger] frame::is_frame(
            f@,
            encoding,
            cipher,
            seq,
            data@,
            frame::padding_for(data@.len(), limit as nat, threshold as nat, wanted),
        );
    let pad = frame::padding_for(data@.len(), limit as nat, threshold as nat, wanted);
    assert(frame::is_frame(f@, encoding, cipher, seq, data@, pad));
}

/// A frame that is not sealed, written as bytes, is two bytes of length, eight of
/// number and two of data length, the data, and zeros.
pub proof fn law_binary_frame_layout<C: FrameCipher + ?Sized>(
    data: &[u8],
    seq: u64,
    pad: usize,
    f: Vec<u8>,
)
    requires
        call_ensures(
            encode_padded::<C>,
            (data, seq, None::<&C>, pad, EncodingType::Binary),
            Ok::<Vec<u8>, FrameError>(f),
        ),
        data@.len() + pad <= 16_384,
    ensures
        f@.len() == 12 + data@.len() + pad,
        f@[0] * 256 + f@[1] == 10 + data@.len() + pad,
        wire::be_value(f@.subrange(2, 10)) == seq,
        f@[10] * 256 + f@[11] == data@.len(),
        f@.subrange(12, 12int + data@.len()) == data@,
        forall|i: int| 12 + data@.len() <= i < f@.len() ==> f@[i] == 0,
{
    let p = frame::payload(seq, data@, pad as nat);
    laws::law_extract(seq, data@, pad as nat);
    let body = choose|body: Seq<u8>| #[trigger]
        frame::is_body(None::<&C>, body, p) && f@ == frame::framed(EncodingType::Binary, body)
            && frame::is_writable(EncodingType::Binary, body);
    assert(body == p);
    wire::lemma_be_bytes_len(p.len(), 2);
    wire::lemma_be_bytes_len(seq as nat, 8);
    wire::lemma_be_bytes_len(data@.len(), 2);
    wire::lemma_base_pow_values();
    wire::law_be_roundtrip(seq as nat, 8);
    assert(f@.subrange(2, 10) =~= wire::be_bytes(seq as nat, 8));
    reveal_with_fuel(wire::be_bytes, 3);
    assert(f@.subrange(12, 12int + data@.len()) =~= data@);
}

/// The number and the data of a payload stand where its header says, and a
/// payload that is too short for them is refused.
pub proof fn law_payload_is_cut_by_its_header(
    payload: &[u8],
    r: Result<(u64, usize, usize), FrameError>,
)
    requires
        call_ensures(extract_frame_range, (payload,), r),
    ensures
        payload@.len() < 10 ==> r == Err::<(u64, usize, usize), FrameError>(
            FrameError::PayloadTooShort,
        ),
        payload@.len() >= 10 ==> {
            let len = payload@[8] * 256 + payload@[9];
            &&& payload@.len() < 10 + len ==> r == Err::<(u64, usize, usize), FrameError>(
                FrameError::PayloadTruncated,
            )
            &&& payload@.len() >= 10 + len ==> r == Ok::<(u64, usize, usize), FrameError>(
                (wire::be_value(payload@.take(8)) as u64, 10, (10 + len) as usize),
            )
        },
{
    if payload@.len() >= 10 {
        let two = payload@.subrange(8, 10);
        assert(two.drop_last().drop_last() =~= Seq::empty());
        reveal_with_fuel(wire::be_value, 3);
        let len = payload@[8] * 256 + payload@[9];
        if payload@.len() >= 10 + len {
            let end = r->Ok_0.2;
            assert(payload@.subrange(10, 10 + len).len() == len);
            assert(payload@.subrange(10, end as int).len() == end - 10);
        }
    }
}

/// Reading frames written as bytes: a frame is waited for until it has come
/// whole, refused where it says that it is too long, and else taken off with all
/// its bytes and no more.
pub proof fn law_binary_frames_are_taken_whole<C: FrameCipher + ?Sized>(
    src: &mut BytesMut,
    r: Result<Option<(u64, Bytes)>, FrameError>,
)
    requires
        call_ensures(
            decode_from_buffer_with::<C>,
            (src, None::<&C>, EncodingType::Binary),
            r,
        ),
    ensures
        ({
            let s = buffer::buffered(*old(src));
            let after = buffer::buffered(*final(src));
            let len = s[0] * 256 + s[1];
            &&& s.len() < 2 ==> (r matches Ok(f) && f is None && after == s)
            &&& s.len() >= 2 && len > 16_422 ==> r is Err && r->Err_0 == FrameError::BinaryTooLong
                && after == s
            &&& s.len() >= 2 && len <= 16_422 && s.len() < 2 + len ==> (r matches Ok(f) && f is None
                && after == s)
            &&& s.len() >= 2 && len <= 16_422 && s.len() >= 2 + len ==> after == s.skip(2 + len)
            &&& s.len() >= 2 + len && 10 <= len <= 16_422 && len >= 10 + s[10] * 256 + s[11] ==> {
                &&& r matches Ok(Some((seq, data)))
                &&& seq == wire::be_value(s.subrange(2, 10)) as u64
                &&& buffer::frozen(data) == s.subrange(12, 12 + s[10] * 256 + s[11])
            }
            &&& s.len() >= 2 + len && 2 <= s.len() && len < 10 ==> r is Err && r->Err_0
                == FrameError::PayloadTooShort
            &&& s.len() >= 2 + len && 10 <= len <= 16_422 && len < 10 + s[10] * 256 + s[11] ==> r is Err
                && r->Err_0 == FrameError::PayloadTruncated
        }),
{
    let s = buffer::buffered(*old(src));
    let len = s[0] * 256 + s[1];
    reveal_with_fuel(wire::be_value, 3);
    if s.len() >= 2 {
        let two = s.take(2);
        assert(two.drop_last().drop_last() =~= Seq::empty());
        assert(wire::be_value(two) == len);
        if s.len() >= 2 + len && len >= 10 {
            let body = s.subrange(2, 2 + len);
            let field = body.subrange(8, 10);
            assert(field.drop_last().drop_last() =~= Seq::empty());
            assert(wire::be_value(field) == s[10] * 256 + s[11]);
            assert(body.take(8) =~= s.subrange(2, 10));
            let n = s[10] * 256 + s[11];
            if len >= 10 + n {
                assert(body.subrange(10, 10 + n) =~= s.subrange(12, 12 + n));
            }
        }
    }
}

/// Reading frames written as text: a line is waited for up to its end, refused
/// where it is too long, and else taken off with its line feed.
pub proof fn law_lines_are_taken_whole<C: FrameCipher + ?Sized>(
    src: &mut BytesMut,
    cipher: Option<&C>,
    end: int,
    r: Result<Option<(u64, Bytes)>, FrameError>,
)
    requires
        call_ensures(decode_from_buffer_with::<C>, (src, cipher, EncodingType::Json), r),
        0 <= end <= buffer::buffered(*old(src)).len(),
        forall|i: int| 0 <= i < end ==> buffer::buffered(*old(src))[i] != 0x0a,
        end < buffer::buffered(*old(src)).len() ==> buffer::buffered(*old(src))[end] == 0x0a,
    ensures
        ({
            let s = buffer::buffered(*old(src));
            let after = buffer::buffered(*final(src));
            &&& end == s.len() && end <= 18_780 ==> (r matches Ok(f) && f is None && after == s)
            &&& end == s.len() && end > 18_780 ==> r is Err && r->Err_0 == FrameError::LineIncomplete
                && after == s
            &&& end < s.len() && end > 18_780 ==> r is Err && r->Err_0 == FrameError::LineTooLong
                && after == s
            &&& end < s.len() && end == 0 ==> r is Err && r->Err_0 == FrameError::EmptyLine && after
                == s.skip(1)
            &&& end < s.len() && end <= 18_780 ==> after == s.skip(end + 1)
        }),
{
    let s = buffer::buffered(*old(src));
    s.index_of_first_ensures(0x0au8);
    if end < s.len() {
        text::lemma_index_of_first(s, 0x0au8, end);
    }
}

/// White space goes from both ends and from nowhere else.
pub proof fn law_white_space_is_cut(b: &[u8], r: &[u8], i: int, j: int)
    requires
        call_ensures(trim_bytes, (b,), r),
        0 <= i < j <= b@.len(),
        forall|k: int|
            0 <= k < i || j <= k < b@.len() ==> (#[trigger] b@[k] == 0x20 || b@[k] == 0x09 || b@[k]
                == 0x0a || b@[k] == 0x0c || b@[k] == 0x0d),
        b@[i] != 0x20 && b@[i] != 0x09 && b@[i] != 0x0a && b@[i] != 0x0c && b@[i] != 0x0d,
        b@[j - 1] != 0x20 && b@[j - 1] != 0x09 && b@[j - 1] != 0x0a && b@[j - 1] != 0x0c && b@[j - 1]
            != 0x0d,
    ensures
        r@ == b@.subrange(i, j),
{
    lemma_trim_start(b@, i);
    lemma_trim_end(b@.skip(i), j - i);
    assert(b@.skip(i).take(j - i) =~= b@.subrange(i, j));
}

proof fn lemma_trim_start(s: Seq<u8>, i: int)
    requires
        0 <= i < s.len(),
        forall|k: int| 0 <= k < i ==> json::is_space(#[trigger] s[k]),
        !json::is_space(s[i]),
    ensures
        json::trim_start(s) == s.skip(i),
    decreases i,
{
    if i > 0 {
        assert(json::is_space(s[0]));
        lemma_trim_start(s.skip(1), i - 1);
        assert(s.skip(1).skip(i - 1) =~= s.skip(i));
    } else {
        assert(s.skip(0) =~= s);
    }
}

proof fn lemma_trim_end(s: Seq<u8>, j: int)
    requires
        0 < j <= s.len(),
        forall|k: int| j <= k < s.len() ==> json::is_space(#[trigger] s[k]),
        !json::is_space(s[j - 1]),
    ensures
        json::trim_end(s) == s.take(j),
    decreases s.len(),
{
    if j < s.len() {
        assert(json::is_space(s[s.len() - 1]));
        lemma_trim_end(s.drop_last(), j);
        assert(s.drop_last().take(j) =~= s.take(j));
    } else {
        assert(s.take(j) =~= s);
    }
}

/// The bytes of `"data":"`.
proof fn lemma_field_head()
    ensures
        json::field_head() == seq![0x22u8, 0x64, 0x61, 0x74, 0x61, 0x22, 0x3a, 0x22],
{
    reveal_strlit("\"data\":\"");
    assert(json::field_head() =~= seq![0x22u8, 0x64, 0x61, 0x74, 0x61, 0x22, 0x3a, 0x22]);
}

/// A line holds its payload between the first `"data":"` and the quotation mark
/// that follows, whatever stands before and behind.
pub proof fn law_line_holds_its_field(
    line: &[u8],
    out: &mut Vec<u8>,
    at: int,
    end: int,
    r: Result<usize, FrameError>,
)
    requires
        call_ensures(parse_json_payload_into, (line, out), r),
        0 <= at,
        at + 8 <= end < line@.len(),
        !json::is_space(line@[0]),
        !json::is_space(line@.last()),
        line@.subrange(at, at + 8) == seq![0x22u8, 0x64, 0x61, 0x74, 0x61, 0x22, 0x3a, 0x22],
        forall|k: int|
            0 <= k < at ==> #[trigger] line@.subrange(k, k + 8) != seq![
                0x22u8,
                0x64,
                0x61,
                0x74,
                0x61,
                0x22,
                0x3a,
                0x22,
            ],
        forall|k: int| at + 8 <= k < end ==> line@[k] != 0x22,
        line@[end] == 0x22,
    ensures
        ({
            let body = line@.subrange(at + 8, end);
            &&& !valid_utf8(body) ==> r == Err::<usize, FrameError>(FrameError::InvalidUtf8)
                && final(out)@ == old(out)@
            &&& valid_utf8(body) && !base122::plain_leads(body) ==> r == Err::<usize, FrameError>(
                FrameError::InvalidBase122,
            )
            &&& valid_utf8(body) && base122::plain_leads(body) ==> match base122::base122_decoded(
                decode_utf8(body),
            ) {
                Some(data) => r == Ok::<usize, FrameError>(data.len() as usize) && final(out)@
                    == data,
                None => r == Err::<usize, FrameError>(FrameError::InvalidBase122),
            }
        }),
{
    lemma_field_head();
    let s = line@;
    lemma_trim_start(s, 0);
    assert(s.skip(0) =~= s);
    lemma_trim_end(s, s.len() as int);
    assert(s.take(s.len() as int) =~= s);
    text::lemma_first_occurrence(s, json::field_head(), at);
    let rest = s.skip(at + 8);
    text::lemma_index_of_first(rest, 0x22u8, end - at - 8);
    assert(rest.take(end - at - 8) =~= s.subrange(at + 8, end));
}

/// A line without `"data":"` holds no payload.
pub proof fn law_line_without_field_is_refused(
    line: &[u8],
    out: &mut Vec<u8>,
    r: Result<usize, FrameError>,
)
    requires
        call_ensures(parse_json_payload_into, (line, out), r),
        line@.len() > 0,
        !json::is_space(line@[0]),
        !json::is_space(line@.last()),
        forall|k: int|
            0 <= k && k + 8 <= line@.len() ==> #[trigger] line@.subrange(k, k + 8) != seq![
                0x22u8,
                0x64,
                0x61,
                0x74,
                0x61,
                0x22,
                0x3a,
                0x22,
            ],
    ensures
        r == Err::<usize, FrameError>(FrameError::MissingData),
        final(out)@ == old(out)@,
{
    lemma_field_head();
    let s = line@;
    lemma_trim_start(s, 0);
    assert(s.skip(0) =~= s);
    lemma_trim_end(s, s.len() as int);
    assert(s.take(s.len() as int) =~= s);
}

/// A body is written behind what was there: as bytes behind its length in two bytes, as
/// text in the `data` field of a line of its own.
pub proof fn law_bodies_are_written(
    a: &mut BytesMut,
    b: &mut BytesMut,
    data: &[u8],
)
    requires
        call_ensures(write_encoded_frame, (a, data, EncodingType::Binary), ()),
        call_ensures(write_encoded_frame, (b, data, EncodingType::Json), ()),
        data@.len() <= 0xffff,
    ensures
        buffer::buffered(*final(a)) == buffer::buffered(*old(a)) + seq![
            (data@.len() / 256) as u8,
            (data@.len() % 256) as u8,
        ] + data@,
        buffer::buffered(*final(b)) == buffer::buffered(*old(b)) + seq![
            0x7bu8, 0x22, 0x64, 0x61, 0x74, 0x61, 0x22, 0x3a, 0x22,
        ] + base122::base122_encoded(data@) + seq![0x22u8, 0x7d, 0x0a],
        base122::base122_decoded(decode_utf8(base122::base122_encoded(data@))) == Some(data@),
{
    reveal_strlit("{\"data\":\"");
    reveal_strlit("\"}\n");
    let n = data@.len();
    reveal_with_fuel(wire::be_bytes, 3);
    assert((n / 256) % 256 == n / 256);
    assert(wire::be_bytes(n, 2) =~= seq![(n / 256) as u8, (n % 256) as u8]);
    assert(json::line_head() =~= seq![0x7bu8, 0x22, 0x64, 0x61, 0x74, 0x61, 0x22, 0x3a, 0x22]);
    assert(json::line_tail() =~= seq![0x22u8, 0x7d, 0x0a]);
    assert(buffer::buffered(*final(a)) =~= buffer::buffered(*old(a)) + seq![
        (n / 256) as u8,
        (n % 256) as u8,
    ] + data@);
    assert(buffer::buffered(*final(b)) =~= buffer::buffered(*old(b)) + json::line_head()
        + base122::base122_encoded(data@) + json::line_tail());
}

/// Data beyond what a frame carries is refused, with both lengths; anything less is
/// written under a cipher that seals it, and without one.
pub proof fn law_only_long_data_is_refused<C: FrameCipher + ?Sized>(
    data: &[u8],
    seq: u64,
    cipher: Option<&C>,
    threshold: usize,
    range: [usize; 2],
    encoding: EncodingType,
    limit: usize,
    r: Result<Vec<u8>, FrameError>,
)
    requires
        call_ensures(
            encode_frame_with::<C>,
            (data, seq, cipher, threshold, range, encoding),
            r,
        ),
        call_ensures(frame_raw_limit, (cipher is Some, encoding), limit),
        data@.len() <= usize::MAX,
    ensures
        data@.len() > limit ==> r is Err && r->Err_0 == (FrameError::PayloadTooLarge {
            len: data@.len() as usize,
            limit,
        }),
        data@.len() <= limit && cipher is None ==> r is Ok,
        data@.len() <= limit && cipher is Some && (forall|n: nat|
            n <= 16_422 ==> #[trigger] cipher->0.seals_len(n)) ==> r is Ok,
{
    if data@.len() <= limit && (cipher is None || forall|n: nat|
        n <= 16_422 ==> #[trigger] cipher->0.seals_len(n)) {
        assert forall|n: nat| n <= 16_422 implies #[trigger] frame::can_seal(cipher, n) by {
            if cipher is Some {
                assert(cipher->0.seals_len(n));
            }
        }
    }
}

/// The same of a cipher that is known by what it does alone.
pub proof fn law_frames_of_any_cipher(
    data: &[u8],
    seq: u64,
    cipher: Option<&dyn FrameCipher>,
    threshold: usize,
    range: [usize; 2],
    encoding: EncodingType,
    limit: usize,
    r: Result<Vec<u8>, FrameError>,
)
    requires
        call_ensures(encode_frame, (data, seq, cipher, threshold, range, encoding), r),
        call_ensures(frame_raw_limit, (cipher is Some, encoding), limit),
    ensures
        data@.len() > limit ==> r is Err,
        data@.len() <= limit && cipher is None ==> r is Ok,
        r is Ok ==> exists|pad: nat|
            {
                &&& #[trigger] frame::is_frame(r->Ok_0@, encoding, cipher, seq, data@, pad)
                &&& data@.len() + pad <= limit
                &&& data@.len() >= threshold ==> pad == 0
                &&& data@.len() < threshold && data@.len() + range[1] <= limit ==> range[0] <= pad
                    <= range[1]
                &&& data@.len() < threshold && data@.len() + range[0] >= limit ==> data@.len() + pad
                    == limit
            },
{
    if data@.len() <= limit && cipher is None {
        assert forall|n: nat| n <= 16_422 implies #[trigger] frame::can_seal(cipher, n) by {}
    }
    if r is Ok {
        let f = r->Ok_0;
        let wanted = choose|wanted: nat|
            (data@.len() < threshold ==> range[0] <= wanted <= range[1])
                && #[trigger] frame::is_frame(
                f@,
                encoding,
                cipher,
                seq,
                data@,
                frame::padding_for(data@.len(), limit as nat, threshold as nat, wanted),
            );
        let pad = frame::padding_for(data@.len(), limit as nat, threshold as nat, wanted);
        assert(frame::is_frame(f@, encoding, cipher, seq, data@, pad));
    }
}

/// A frame that was written is read back, number and data, by whoever reads it, and what
/// follows it stays.
pub proof fn law_any_reader_reads_back(
    f: Seq<u8>,
    encoding: EncodingType,
    cipher: Option<&dyn FrameCipher>,
    seq: u64,
    data: Seq<u8>,
    pad: nat,
    rest: Seq<u8>,
    a: &mut BytesMut,
    b: &mut BytesMut,
    scratch: &mut BytesMut,
    spare: &mut Vec<u8>,
    r: Result<Option<(u64, Bytes)>, FrameError>,
    s: Result<Option<DecodedFrame>, FrameError>,
)
    requires
        frame::is_frame(f, encoding, cipher, seq, data, pad),
        data.len() + pad <= frame::raw_limit(cipher is Some, encoding),
        buffer::buffered(*old(a)) == f + rest,
        buffer::buffered(*old(b)) == f + rest,
        call_ensures(decode_from_buffer, (a, cipher, encoding), r),
        call_ensures(decode_frame, (b, scratch, spare, cipher, encoding), s),
    ensures
        r matches Ok(Some((n, d))) && n == seq && buffer::frozen(d) == data,
        s matches Ok(Some(d)) && d.seq_no() == seq && d.content(buffer::buffered(*final(scratch)))
            == data,
        buffer::buffered(*final(a)) == rest,
        buffer::buffered(*final(b)) == rest,
{
    laws::law_decode_frame(f, encoding, cipher, seq, data, pad, rest);
    assert((f + rest).skip(f.len() as int) =~= rest);
}

/// The data of a frame that was read is what its place in the scratch buffer holds, or
/// what it carries itself.
pub proof fn law_read_frames_are_found(
    seq: u64,
    start: usize,
    end: usize,
    data: Bytes,
    scratch: Seq<u8>,
    i: int,
)
    requires
        start <= end <= scratch.len(),
        0 <= i < end - start,
    ensures
        (DecodedFrame::InScratch { seq, start, end }).seq_no() == seq,
        (DecodedFrame::InScratch { seq, start, end }).content(scratch).len() == end - start,
        (DecodedFrame::InScratch { seq, start, end }).content(scratch)[i] == scratch[start + i],
        (DecodedFrame::Owned { seq, data }).seq_no() == seq,
        (DecodedFrame::Owned { seq, data }).content(scratch) == buffer::frozen(data),
{
}

} // verus!
