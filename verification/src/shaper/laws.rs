//! What a reader makes of what a writer wrote.
use crate::shaper::base122;
use crate::shaper::frame;
use crate::shaper::frame::{EncodingType, Front, HEADER_LEN, MAX_BINARY_FRAME_LEN};
use crate::shaper::json;
use crate::shaper::config::PaddingConfig;
use crate::shaper::{FrameCipher, FrameError};
use crate::text;
use crate::wire;
use vstd::prelude::*;
use vstd::utf8::*;

verus! {

/// A payload gives back the number and the data that were put into it,
/// whatever its padding.
pub proof fn law_extract(seq: u64, data: Seq<u8>, pad: nat)
    requires
        data.len() <= 0xffff,
    ensures
        frame::extracted(frame::payload(seq, data, pad)) == Ok::<(u64, Seq<u8>), FrameError>((seq, data)),
        frame::payload(seq, data, pad).len() == HEADER_LEN + data.len() + pad,
{
    let p = frame::payload(seq, data, pad);
    wire::lemma_base_pow_values();
    wire::law_be_roundtrip(seq as nat, 8);
    wire::law_be_roundtrip(data.len(), 2);
    assert(p.take(8) =~= wire::be_bytes(seq as nat, 8));
    assert(p.subrange(8, 10) =~= wire::be_bytes(data.len(), 2));
    assert(p.subrange(10, 10int + data.len()) =~= data);
}

proof fn lemma_binary_front(body: Seq<u8>, rest: Seq<u8>)
    requires
        body.len() <= MAX_BINARY_FRAME_LEN,
    ensures
        frame::binary_front(frame::framed(EncodingType::Binary, body) + rest) == (Front::Whole {
            used: frame::framed(EncodingType::Binary, body).len() as int,
            body: Ok(body),
        }),
        frame::framed(EncodingType::Binary, body).len() == 2 + body.len(),
{
    let f = frame::framed(EncodingType::Binary, body);
    let src = f + rest;
    wire::lemma_base_pow_values();
    wire::law_be_roundtrip(body.len(), 2);
    assert(src.take(2) =~= wire::be_bytes(body.len(), 2));
    assert(src.subrange(2, 2int + body.len()) =~= body);
}

proof fn lemma_line_parts()
    ensures
        json::line_head() == seq![0x7bu8, 0x22, 0x64, 0x61, 0x74, 0x61, 0x22, 0x3a, 0x22],
        json::line_tail() == seq![0x22u8, 0x7d, 0x0a],
        json::field_head() == seq![0x22u8, 0x64, 0x61, 0x74, 0x61, 0x22, 0x3a, 0x22],
{
    reveal_strlit("{\"data\":\"");
    reveal_strlit("\"}\n");
    reveal_strlit("\"data\":\"");
    assert(json::line_head() =~= seq![0x7bu8, 0x22, 0x64, 0x61, 0x74, 0x61, 0x22, 0x3a, 0x22]);
    assert(json::line_tail() =~= seq![0x22u8, 0x7d, 0x0a]);
    assert(json::field_head() =~= seq![0x22u8, 0x64, 0x61, 0x74, 0x61, 0x22, 0x3a, 0x22]);
}

/// A line carries the payload that was encoded into it.
proof fn lemma_line_payload(text: Seq<u8>, data: Seq<u8>)
    requires
        base122::is_encoding(text, data),
    ensures
        json::line_payload(json::line_head() + text + seq![0x22u8, 0x7d]) == Ok::<
            Seq<u8>,
            FrameError,
        >(data),
{
    lemma_line_parts();
    let line = json::line_head() + text + seq![0x22u8, 0x7d];
    assert(line[0] == 0x7b);
    assert(line.last() == 0x7d);
    assert(json::trimmed(line) == line);
    let name = json::field_head();
    assert(line.subrange(1, 1int + name.len()) =~= name);
    assert(text::occurs_at(line, name, 1));
    assert forall|j: int| 0 <= j < 1 implies !#[trigger] text::occurs_at(line, name, j) by {
        if text::occurs_at(line, name, j) {
            assert(line.subrange(0, name.len() as int)[0] == line[0]);
        }
    }
    text::lemma_first_occurrence(line, name, 1);
    let rest = line.skip(1int + name.len());
    assert(rest =~= text + seq![0x22u8, 0x7d]);
    assert forall|j: int| 0 <= j < text.len() implies rest[j] != 0x22u8 by {
        assert(base122::line_safe(text[j]));
    }
    text::lemma_index_of_first(rest, 0x22u8, text.len() as int);
    assert(rest.take(text.len() as int) =~= text);
}

proof fn lemma_json_front(body: Seq<u8>, rest: Seq<u8>)
    requires
        frame::is_writable(EncodingType::Json, body),
        body.len() <= 14320,
    ensures
        frame::json_front(frame::framed(EncodingType::Json, body) + rest) == (Front::Whole {
            used: frame::framed(EncodingType::Json, body).len() as int,
            body: Ok(body),
        }),
        frame::framed(EncodingType::Json, body).len() <= 16384,
{
    lemma_line_parts();
    let text = base122::base122_encoded(body);
    let f = frame::framed(EncodingType::Json, body);
    let src = f + rest;
    let end = json::line_head().len() + text.len() + 2;
    assert(src[end as int] == 0x0a);
    assert forall|j: int| 0 <= j < end implies src[j] != 0x0au8 by {
        if 9 <= j < 9 + text.len() {
            assert(src[j] == text[j - 9]);
            assert(base122::line_safe(text[j - 9]));
        }
    }
    text::lemma_index_of_first(src, 0x0au8, end as int);
    assert(src.take(end as int) =~= json::line_head() + text + seq![0x22u8, 0x7d]);
    lemma_line_payload(text, body);
}

/// The body of a frame within the limit fits the frame.
proof fn lemma_body_len<C: FrameCipher + ?Sized>(
    encoding: EncodingType,
    cipher: Option<&C>,
    body: Seq<u8>,
    seq: u64,
    data: Seq<u8>,
    pad: nat,
)
    requires
        frame::is_body(cipher, body, frame::payload(seq, data, pad)),
        data.len() + pad <= frame::raw_limit(cipher is Some, encoding),
    ensures
        body.len() <= MAX_BINARY_FRAME_LEN,
        encoding == EncodingType::Json ==> body.len() <= 14320,
{
    law_extract(seq, data, pad);
}

/// A reader takes exactly one frame off a buffer that starts with one, and
/// gets the number and the data that were written, whatever follows.
pub proof fn law_decode_frame<C: FrameCipher + ?Sized>(
    frame: Seq<u8>,
    encoding: EncodingType,
    cipher: Option<&C>,
    seq: u64,
    data: Seq<u8>,
    pad: nat,
    rest: Seq<u8>,
)
    requires
        frame::is_frame(frame, encoding, cipher, seq, data, pad),
        data.len() + pad <= frame::raw_limit(cipher is Some, encoding),
    ensures
        frame::front(frame + rest, encoding) matches Front::Whole { used, body } && used == frame.len()
            && frame::body_content(cipher, body) == Ok::<(u64, Seq<u8>), FrameError>((seq, data)),
{
    let body = choose|body: Seq<u8>| #[trigger]
        frame::is_body(cipher, body, frame::payload(seq, data, pad)) && frame == frame::framed(encoding, body)
            && frame::is_writable(encoding, body);
    lemma_body_len(encoding, cipher, body, seq, data, pad);
    law_extract(seq, data, pad);
    match encoding {
        EncodingType::Binary => {
            lemma_binary_front(body, rest);
        },
        EncodingType::Json => {
            lemma_json_front(body, rest);
        },
    }
}

/// A frame cut short is waited for: no proper beginning of a frame is taken or refused.
pub proof fn law_partial_frame<C: FrameCipher + ?Sized>(
    frame: Seq<u8>,
    encoding: EncodingType,
    cipher: Option<&C>,
    seq: u64,
    data: Seq<u8>,
    pad: nat,
    n: int,
)
    requires
        frame::is_frame(frame, encoding, cipher, seq, data, pad),
        data.len() + pad <= frame::raw_limit(cipher is Some, encoding),
        0 <= n < frame.len(),
    ensures
        frame::front(frame.take(n), encoding) is Partial,
{
    let body = choose|body: Seq<u8>| #[trigger]
        frame::is_body(cipher, body, frame::payload(seq, data, pad)) && frame == frame::framed(encoding, body)
            && frame::is_writable(encoding, body);
    lemma_body_len(encoding, cipher, body, seq, data, pad);
    let src = frame.take(n);
    match encoding {
        EncodingType::Binary => {
            wire::lemma_base_pow_values();
            wire::law_be_roundtrip(body.len(), 2);
            if n >= 2 {
                assert(src.take(2) =~= wire::be_bytes(body.len(), 2));
            }
        },
        EncodingType::Json => {
            lemma_line_parts();
            let text = base122::base122_encoded(body);
            lemma_json_front(body, Seq::empty());
            assert forall|j: int| 0 <= j < n implies src[j] != 0x0au8 by {
                if 9 <= j < 9 + text.len() {
                    assert(src[j] == text[j - 9]);
                    assert(base122::line_safe(text[j - 9]));
                }
            }
            text::lemma_no_index_of_first(src, 0x0au8);
        },
    }
}

/// A text frame within the limit fits one HTTP/2 DATA frame of 16384 bytes.
pub proof fn law_json_frame_fits<C: FrameCipher + ?Sized>(
    frame: Seq<u8>,
    cipher: Option<&C>,
    seq: u64,
    data: Seq<u8>,
    pad: nat,
)
    requires
        frame::is_frame(frame, EncodingType::Json, cipher, seq, data, pad),
        data.len() + pad <= frame::raw_limit(cipher is Some, EncodingType::Json),
    ensures
        frame.len() <= 16384,
{
    let body = choose|body: Seq<u8>| #[trigger]
        frame::is_body(cipher, body, frame::payload(seq, data, pad)) && frame == frame::framed(EncodingType::Json, body)
            && frame::is_writable(EncodingType::Json, body);
    lemma_body_len(EncodingType::Json, cipher, body, seq, data, pad);
    lemma_json_front(body, Seq::empty());
}

/// `bytes` is a run of frames that carry `chunks` under consecutive numbers from `seq` on.
pub open spec fn is_stream<C: FrameCipher + ?Sized>(
    bytes: Seq<u8>,
    encoding: EncodingType,
    cipher: Option<&C>,
    seq: nat,
    chunks: Seq<Seq<u8>>,
) -> bool
    decreases chunks.len(),
{
    if chunks.len() == 0 {
        bytes.len() == 0
    } else {
        exists|frame: Seq<u8>, rest: Seq<u8>, pad: nat|
            {
                &&& seq <= u64::MAX
                &&& #[trigger] frame::is_frame(frame, encoding, cipher, seq as u64, chunks[0], pad)
                &&& chunks[0].len() + pad <= frame::raw_limit(cipher is Some, encoding)
                &&& bytes == #[trigger] (frame + rest)
                &&& is_stream(rest, encoding, cipher, seq + 1, chunks.skip(1))
            }
    }
}

/// `bytes` is a run of frames that carry `chunks` under consecutive numbers from `seq`
/// on, each with padding as `padding` asks for it.
pub open spec fn is_padded_stream<C: FrameCipher + ?Sized>(
    bytes: Seq<u8>,
    encoding: EncodingType,
    cipher: Option<&C>,
    seq: nat,
    chunks: Seq<Seq<u8>>,
    padding: PaddingConfig,
) -> bool
    decreases chunks.len(),
{
    if chunks.len() == 0 {
        bytes.len() == 0
    } else {
        exists|frame: Seq<u8>, rest: Seq<u8>, pad: nat|
            {
                &&& seq <= u64::MAX
                &&& #[trigger] frame::is_frame(frame, encoding, cipher, seq as u64, chunks[0], pad)
                &&& frame::is_drawn_padding(
                    pad,
                    chunks[0].len(),
                    frame::raw_limit(cipher is Some, encoding) as nat,
                    padding,
                )
                &&& bytes == #[trigger] (frame + rest)
                &&& is_padded_stream(rest, encoding, cipher, seq + 1, chunks.skip(1), padding)
            }
    }
}

/// A run of frames with such padding is a run of frames, each within its limit.
pub proof fn law_padded_stream_is_stream<C: FrameCipher + ?Sized>(
    bytes: Seq<u8>,
    encoding: EncodingType,
    cipher: Option<&C>,
    seq: nat,
    chunks: Seq<Seq<u8>>,
    padding: PaddingConfig,
)
    requires
        is_padded_stream(bytes, encoding, cipher, seq, chunks, padding),
    ensures
        is_stream(bytes, encoding, cipher, seq, chunks),
    decreases chunks.len(),
{
    if chunks.len() > 0 {
        let (frame, rest, pad) = choose|frame: Seq<u8>, rest: Seq<u8>, pad: nat|
            {
                &&& seq <= u64::MAX
                &&& #[trigger] frame::is_frame(frame, encoding, cipher, seq as u64, chunks[0], pad)
                &&& frame::is_drawn_padding(
                    pad,
                    chunks[0].len(),
                    frame::raw_limit(cipher is Some, encoding) as nat,
                    padding,
                )
                &&& bytes == #[trigger] (frame + rest)
                &&& is_padded_stream(rest, encoding, cipher, seq + 1, chunks.skip(1), padding)
            };
        law_padded_stream_is_stream(rest, encoding, cipher, seq + 1, chunks.skip(1), padding);
        assert(frame::is_frame(frame, encoding, cipher, seq as u64, chunks[0], pad));
        assert(bytes == frame + rest);
    }
}

/// A frame with such padding, written behind such a run under the next number,
/// continues the run.
pub proof fn law_padded_stream_append<C: FrameCipher + ?Sized>(
    bytes: Seq<u8>,
    encoding: EncodingType,
    cipher: Option<&C>,
    seq: nat,
    chunks: Seq<Seq<u8>>,
    padding: PaddingConfig,
    frame: Seq<u8>,
    data: Seq<u8>,
    pad: nat,
)
    requires
        is_padded_stream(bytes, encoding, cipher, seq, chunks, padding),
        seq + chunks.len() <= u64::MAX,
        frame::is_frame(frame, encoding, cipher, (seq + chunks.len()) as u64, data, pad),
        frame::is_drawn_padding(
            pad,
            data.len(),
            frame::raw_limit(cipher is Some, encoding) as nat,
            padding,
        ),
    ensures
        is_padded_stream(bytes + frame, encoding, cipher, seq, chunks.push(data), padding),
    decreases chunks.len(),
{
    let grown = chunks.push(data);
    if chunks.len() == 0 {
        let none = Seq::<u8>::empty();
        assert(bytes + frame =~= frame + none);
        assert(grown.skip(1) =~= Seq::<Seq<u8>>::empty());
        assert(is_padded_stream(none, encoding, cipher, seq + 1, grown.skip(1), padding));
        assert(frame::is_frame(frame, encoding, cipher, seq as u64, grown[0], pad));
        assert(bytes + frame == frame + none);
    } else {
        let (head, rest, hpad) = choose|head: Seq<u8>, rest: Seq<u8>, hpad: nat|
            {
                &&& seq <= u64::MAX
                &&& #[trigger] frame::is_frame(head, encoding, cipher, seq as u64, chunks[0], hpad)
                &&& frame::is_drawn_padding(
                    hpad,
                    chunks[0].len(),
                    frame::raw_limit(cipher is Some, encoding) as nat,
                    padding,
                )
                &&& bytes == #[trigger] (head + rest)
                &&& is_padded_stream(rest, encoding, cipher, seq + 1, chunks.skip(1), padding)
            };
        law_padded_stream_append(
            rest,
            encoding,
            cipher,
            seq + 1,
            chunks.skip(1),
            padding,
            frame,
            data,
            pad,
        );
        assert(grown.skip(1) =~= chunks.skip(1).push(data));
        assert(bytes + frame =~= head + (rest + frame));
        assert(frame::is_frame(head, encoding, cipher, seq as u64, grown[0], hpad));
    }
}

/// The numbers and data that a reader takes off `bytes`, where it reads them to the end.
pub open spec fn decode_all<C: FrameCipher + ?Sized>(
    bytes: Seq<u8>,
    encoding: EncodingType,
    cipher: Option<&C>,
) -> Option<Seq<(u64, Seq<u8>)>>
    decreases bytes.len(),
{
    if bytes.len() == 0 {
        Some(Seq::empty())
    } else {
        match frame::front(bytes, encoding) {
            Front::Whole { used, body } => if 0 < used <= bytes.len() {
                match (
                    frame::body_content(cipher, body),
                    decode_all(bytes.skip(used), encoding, cipher),
                ) {
                    (Ok(item), Some(items)) => Some(seq![item] + items),
                    _ => None,
                }
            } else {
                None
            },
            _ => None,
        }
    }
}

/// Frames written one behind the other are read back in order, each with its
/// own number and its own data.
#[verifier::spinoff_prover]
#[verifier::rlimit(30)]
pub proof fn law_stream_roundtrip<C: FrameCipher + ?Sized>(
    bytes: Seq<u8>,
    encoding: EncodingType,
    cipher: Option<&C>,
    seq: nat,
    chunks: Seq<Seq<u8>>,
)
    requires
        is_stream(bytes, encoding, cipher, seq, chunks),
    ensures
        decode_all(bytes, encoding, cipher) == Some(
            Seq::new(chunks.len(), |i: int| ((seq + i) as u64, chunks[i])),
        ),
    decreases chunks.len(),
{
    let expected = Seq::new(chunks.len(), |i: int| ((seq + i) as u64, chunks[i]));
    if chunks.len() == 0 {
        assert(expected =~= Seq::empty());
    } else {
        let (frame, rest, pad) = choose|frame: Seq<u8>, rest: Seq<u8>, pad: nat|
            {
                &&& seq <= u64::MAX
                &&& #[trigger] frame::is_frame(frame, encoding, cipher, seq as u64, chunks[0], pad)
                &&& chunks[0].len() + pad <= frame::raw_limit(cipher is Some, encoding)
                &&& bytes == #[trigger] (frame + rest)
                &&& is_stream(rest, encoding, cipher, seq + 1, chunks.skip(1))
            };
        law_decode_frame(frame, encoding, cipher, seq as u64, chunks[0], pad, rest);
        law_stream_roundtrip(rest, encoding, cipher, seq + 1, chunks.skip(1));
        lemma_frame_not_empty(frame, encoding, cipher, seq as u64, chunks[0], pad);
        assert(bytes.len() > 0);
        assert(bytes.skip(frame.len() as int) =~= rest);
        let later = Seq::new(
            chunks.skip(1).len(),
            |i: int| ((seq + 1 + i) as u64, chunks.skip(1)[i]),
        );
        assert(expected =~= seq![(seq as u64, chunks[0])] + later);
    }
}

proof fn lemma_frame_not_empty<C: FrameCipher + ?Sized>(
    frame: Seq<u8>,
    encoding: EncodingType,
    cipher: Option<&C>,
    seq: u64,
    data: Seq<u8>,
    pad: nat,
)
    requires
        frame::is_frame(frame, encoding, cipher, seq, data, pad),
    ensures
        frame.len() > 0,
{
    let body = choose|body: Seq<u8>| #[trigger]
        frame::is_body(cipher, body, frame::payload(seq, data, pad)) && frame == frame::framed(encoding, body)
            && frame::is_writable(encoding, body);
    wire::lemma_be_bytes_len(body.len(), 2);
    lemma_line_parts();
}

/// A frame written behind a run of frames, under the next number, continues the run.
pub proof fn law_stream_append<C: FrameCipher + ?Sized>(
    bytes: Seq<u8>,
    encoding: EncodingType,
    cipher: Option<&C>,
    seq: nat,
    chunks: Seq<Seq<u8>>,
    frame: Seq<u8>,
    data: Seq<u8>,
    pad: nat,
)
    requires
        is_stream(bytes, encoding, cipher, seq, chunks),
        seq + chunks.len() <= u64::MAX,
        frame::is_frame(frame, encoding, cipher, (seq + chunks.len()) as u64, data, pad),
        data.len() + pad <= frame::raw_limit(cipher is Some, encoding),
    ensures
        is_stream(bytes + frame, encoding, cipher, seq, chunks.push(data)),
    decreases chunks.len(),
{
    let grown = chunks.push(data);
    if chunks.len() == 0 {
        let none = Seq::<u8>::empty();
        assert(bytes + frame =~= frame + none);
        assert(grown.skip(1) =~= Seq::<Seq<u8>>::empty());
        assert(is_stream(none, encoding, cipher, seq + 1, grown.skip(1)));
        assert(frame::is_frame(frame, encoding, cipher, seq as u64, grown[0], pad));
        assert(bytes + frame == frame + none);
    } else {
        let (head, rest, hpad) = choose|head: Seq<u8>, rest: Seq<u8>, hpad: nat|
            {
                &&& seq <= u64::MAX
                &&& #[trigger] frame::is_frame(head, encoding, cipher, seq as u64, chunks[0], hpad)
                &&& chunks[0].len() + hpad <= frame::raw_limit(cipher is Some, encoding)
                &&& bytes == #[trigger] (head + rest)
                &&& is_stream(rest, encoding, cipher, seq + 1, chunks.skip(1))
            };
        law_stream_append(rest, encoding, cipher, seq + 1, chunks.skip(1), frame, data, pad);
        assert(grown.skip(1) =~= chunks.skip(1).push(data));
        assert(bytes + frame =~= head + (rest + frame));
        assert(frame::is_frame(head, encoding, cipher, seq as u64, grown[0], hpad));
    }
}

/// No frame within the limit is longer than the longest binary frame with its length.
pub proof fn law_frame_fits<C: FrameCipher + ?Sized>(
    frame: Seq<u8>,
    encoding: EncodingType,
    cipher: Option<&C>,
    seq: u64,
    data: Seq<u8>,
    pad: nat,
)
    requires
        frame::is_frame(frame, encoding, cipher, seq, data, pad),
        data.len() + pad <= frame::raw_limit(cipher is Some, encoding),
    ensures
        0 < frame.len() <= MAX_BINARY_FRAME_LEN + 2,
{
    lemma_frame_not_empty(frame, encoding, cipher, seq, data, pad);
    let body = choose|body: Seq<u8>| #[trigger]
        frame::is_body(cipher, body, frame::payload(seq, data, pad)) && frame == frame::framed(encoding, body)
            && frame::is_writable(encoding, body);
    lemma_body_len(encoding, cipher, body, seq, data, pad);
    match encoding {
        EncodingType::Binary => {
            wire::lemma_be_bytes_len(body.len(), 2);
        },
        EncodingType::Json => {
            law_json_frame_fits(frame, cipher, seq, data, pad);
        },
    }
}

/// `bytes` is a run of frames that carry `items`, each a number and its data.
pub open spec fn is_frame_run<C: FrameCipher + ?Sized>(
    bytes: Seq<u8>,
    encoding: EncodingType,
    cipher: Option<&C>,
    items: Seq<(u64, Seq<u8>)>,
) -> bool
    decreases items.len(),
{
    if items.len() == 0 {
        bytes.len() == 0
    } else {
        exists|frame: Seq<u8>, rest: Seq<u8>, pad: nat|
            {
                &&& #[trigger] frame::is_frame(frame, encoding, cipher, items[0].0, items[0].1, pad)
                &&& items[0].1.len() + pad <= frame::raw_limit(cipher is Some, encoding)
                &&& bytes == #[trigger] (frame + rest)
                &&& is_frame_run(rest, encoding, cipher, items.skip(1))
            }
    }
}

/// `chunks` with consecutive numbers from `seq` on.
pub open spec fn numbered(seq: nat, chunks: Seq<Seq<u8>>) -> Seq<(u64, Seq<u8>)> {
    Seq::new(chunks.len(), |i: int| ((seq + i) as u64, chunks[i]))
}

/// A run of frames under consecutive numbers is a run of frames.
pub proof fn law_stream_is_frame_run<C: FrameCipher + ?Sized>(
    bytes: Seq<u8>,
    encoding: EncodingType,
    cipher: Option<&C>,
    seq: nat,
    chunks: Seq<Seq<u8>>,
)
    requires
        is_stream(bytes, encoding, cipher, seq, chunks),
    ensures
        is_frame_run(bytes, encoding, cipher, numbered(seq, chunks)),
    decreases chunks.len(),
{
    if chunks.len() > 0 {
        let items = numbered(seq, chunks);
        let (frame, rest, pad) = choose|frame: Seq<u8>, rest: Seq<u8>, pad: nat|
            {
                &&& seq <= u64::MAX
                &&& #[trigger] frame::is_frame(frame, encoding, cipher, seq as u64, chunks[0], pad)
                &&& chunks[0].len() + pad <= frame::raw_limit(cipher is Some, encoding)
                &&& bytes == #[trigger] (frame + rest)
                &&& is_stream(rest, encoding, cipher, seq + 1, chunks.skip(1))
            };
        law_stream_is_frame_run(rest, encoding, cipher, seq + 1, chunks.skip(1));
        assert(items.skip(1) =~= numbered(seq + 1, chunks.skip(1)));
        assert(frame::is_frame(frame, encoding, cipher, items[0].0, items[0].1, pad));
        assert(bytes == frame + rest);
    }
}

} // verus!
