//! Text frames: one JSON object with a `data` field per line.
use crate::shaper::base122;
use crate::shaper::FrameError;
use crate::text;
use vstd::prelude::*;
use vstd::slice::slice_subrange;
use vstd::string::*;
use vstd::utf8::*;

verus! {

/// What stands before the encoded payload in a line.
pub open spec fn line_head() -> Seq<u8> {
    text::ascii_bytes("{\"data\":\""@)
}

/// What stands behind the encoded payload, the line's end included.
pub open spec fn line_tail() -> Seq<u8> {
    text::ascii_bytes("\"}\n"@)
}

/// The name of the payload field, up to the quotation mark that opens it.
pub open spec fn field_head() -> Seq<u8> {
    text::ascii_bytes("\"data\":\""@)
}

/// Space, tab, line feed, form feed or carriage return.
pub open spec fn is_space(b: u8) -> bool {
    b == 0x20 || b == 0x09 || b == 0x0a || b == 0x0c || b == 0x0d
}

/// `s` without the white space in front.
pub open spec fn trim_start(s: Seq<u8>) -> Seq<u8>
    decreases s.len(),
{
    if s.len() > 0 && is_space(s[0]) {
        trim_start(s.skip(1))
    } else {
        s
    }
}

/// `s` without the white space behind.
pub open spec fn trim_end(s: Seq<u8>) -> Seq<u8>
    decreases s.len(),
{
    if s.len() > 0 && is_space(s.last()) {
        trim_end(s.drop_last())
    } else {
        s
    }
}

/// `s` without the white space on either side.
pub open spec fn trimmed(s: Seq<u8>) -> Seq<u8> {
    trim_end(trim_start(s))
}

/// The payload that a line carries in its `data` field.
pub open spec fn line_payload(line: Seq<u8>) -> Result<Seq<u8>, FrameError> {
    let json = trimmed(line);
    match text::first_occurrence(json, field_head()) {
        None => Err(FrameError::MissingData),
        Some(at) => {
            let rest = json.skip(at + field_head().len());
            match rest.index_of_first(0x22u8) {
                None => Err(FrameError::MalformedJson),
                Some(end) => if !valid_utf8(rest.take(end)) {
                    Err(FrameError::InvalidUtf8)
                } else if !base122::plain_leads(rest.take(end)) {
                    Err(FrameError::InvalidBase122)
                } else {
                    match base122::base122_decoded(decode_utf8(rest.take(end))) {
                        None => Err(FrameError::InvalidBase122),
                        Some(data) => Ok(data),
                    }
                },
            }
        },
    }
}

fn is_space_byte(b: u8) -> (r: bool)
    ensures
        r == is_space(b),
{
    b == 0x20 || b == 0x09 || b == 0x0a || b == 0x0c || b == 0x0d
}

/// Cuts the white space off both ends.
pub fn trim_bytes(b: &[u8]) -> (r: &[u8])
    ensures
        r@ == trimmed(b@),
        r@.len() <= b@.len(),
{
    let mut start: usize = 0;
    proof {
        assert(b@.skip(0) =~= b@);
    }
    while start < b.len() && is_space_byte(b[start])
        invariant
            start <= b@.len(),
            trim_start(b@) == trim_start(b@.skip(start as int)),
        decreases b@.len() - start,
    {
        proof {
            assert(b@.skip(start as int)[0] == b@[start as int]);
            assert(b@.skip(start as int).skip(1) =~= b@.skip(start as int + 1));
        }
        start = start + 1;
    }
    let ghost front = b@.skip(start as int);
    proof {
        assert(start < b@.len() ==> front[0] == b@[start as int]);
        assert(trim_start(b@) == front);
    }
    let mut end: usize = b.len();
    proof {
        assert(b@.subrange(start as int, end as int) =~= front);
    }
    while end > start && is_space_byte(b[end - 1])
        invariant
            start <= end <= b@.len(),
            trim_end(front) == trim_end(b@.subrange(start as int, end as int)),
        decreases end - start,
    {
        proof {
            let cur = b@.subrange(start as int, end as int);
            assert(cur.last() == b@[end as int - 1]);
            assert(cur.drop_last() =~= b@.subrange(start as int, end as int - 1));
        }
        end = end - 1;
    }
    proof {
        let cur = b@.subrange(start as int, end as int);
        assert(end > start ==> cur.last() == b@[end as int - 1]);
    }
    slice_subrange(b, start, end)
}

/// Reads the payload of a line into `out` and returns its length.
pub fn parse_json_payload_into(json: &[u8], out: &mut Vec<u8>) -> (r: Result<usize, FrameError>)
    requires
        json@.len() + 16 <= isize::MAX,
    ensures
        match line_payload(json@) {
            Ok(data) => r == Ok::<usize, FrameError>(data.len() as usize) && final(out)@ == data
                && data.len() <= json@.len(),
            Err(e) => r == Err::<usize, FrameError>(e) && final(out)@ == (if e
                == FrameError::InvalidBase122 {
                Seq::empty()
            } else {
                old(out)@
            }),
        },
{
    let body = trim_bytes(json);
    proof {
        reveal_strlit("\"data\":\"");
    }
    let name = text::literal_bytes("\"data\":\"");
    let start: usize = match text::find_bytes(body, name) {
        Some(i) => {
            proof {
                text::lemma_first_occurrence(body@, field_head(), i as int);
            }
            i
        },
        None => {
            return Err(FrameError::MissingData);
        },
    };
    let rest = slice_subrange(body, start + name.len(), body.len());
    proof {
        assert(rest@ =~= body@.skip(start + field_head().len()));
    }
    let end: usize = match text::find_byte(0x22, rest) {
        Some(i) => i,
        None => {
            return Err(FrameError::MalformedJson);
        },
    };
    let encoded = slice_subrange(rest, 0, end);
    proof {
        assert(encoded@ =~= rest@.take(end as int));
    }
    let encoded_text: &str = match text::utf8_text(encoded) {
        Some(s) => s,
        None => {
            return Err(FrameError::InvalidUtf8);
        },
    };
    proof {
        encode_utf8_decode_utf8(encoded_text@);
        assert(decode_utf8(encoded@) == encoded_text@);
    }
    if !base122::has_plain_leads(encoded) {
        out.clear();
        return Err(FrameError::InvalidBase122);
    }
    match base122::decode_into(encoded_text, out) {
        Ok(n) => Ok(n),
        Err(words) => {
            proof {
                assert(words@ == FrameError::InvalidBase122.text());
            }
            Err(FrameError::InvalidBase122)
        },
    }
}

} // verus!
