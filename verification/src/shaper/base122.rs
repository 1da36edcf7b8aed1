//! The Base122 codec of the `base122-fast` crate.
use vstd::prelude::*;
use vstd::string::*;
use vstd::utf8::*;

verus! {

/// The UTF-8 text that Base122 makes of `data`.
pub uninterp spec fn base122_encoded(data: Seq<u8>) -> Seq<u8>;

/// The bytes behind Base122 text without the leads that stand for nothing, where it
/// is well formed.
pub uninterp spec fn base122_decoded(text: Seq<char>) -> Option<Seq<u8>>;

/// Neither a quotation mark nor a line feed: both are among the bytes that Base122 escapes.
pub open spec fn line_safe(b: u8) -> bool {
    b != 0x22 && b != 0x0a
}

/// The first of two lead bytes that stand for nothing.
pub const SPARE_LEAD_LOW: u8 = 0xda;

/// The second of two lead bytes that stand for nothing.
pub const SPARE_LEAD_HIGH: u8 = 0xdb;

/// Whether no byte is one of the two leads that stand for nothing. Not every
/// kernel of the decoder tells these from leads that stand for something.
#[verifier::opaque]
pub open spec fn plain_leads(text: Seq<u8>) -> bool {
    forall|i: int|
        0 <= i < text.len() ==> #[trigger] text[i] != SPARE_LEAD_LOW && text[i] != SPARE_LEAD_HIGH
}

/// Looks for the two leads that stand for nothing.
pub fn has_plain_leads(b: &[u8]) -> (r: bool)
    ensures
        r == plain_leads(b@),
{
    proof {
        reveal(plain_leads);
    }
    let mut i: usize = 0;
    while i < b.len()
        invariant
            i <= b@.len(),
            forall|j: int|
                0 <= j < i ==> #[trigger] b@[j] != SPARE_LEAD_LOW && b@[j] != SPARE_LEAD_HIGH,
        decreases b@.len() - i,
    {
        if b[i] == SPARE_LEAD_LOW || b[i] == SPARE_LEAD_HIGH {
            proof {
                reveal(plain_leads);
                assert(b@[i as int] == SPARE_LEAD_LOW || b@[i as int] == SPARE_LEAD_HIGH);
            }
            return false;
        }
        i = i + 1;
    }
    true
}

/// `text` is UTF-8 that decodes to `data`, holds neither quotation marks nor
/// line feeds nor leads that stand for nothing, and has at most one byte for every
/// seven bits and one more.
pub open spec fn is_encoding(text: Seq<u8>, data: Seq<u8>) -> bool {
    &&& valid_utf8(text)
    &&& base122_decoded(decode_utf8(text)) == Some(data)
    &&& forall|i: int| 0 <= i < text.len() ==> line_safe(#[trigger] text[i])
    &&& plain_leads(text)
    &&& 7 * text.len() <= 8 * data.len() + 13
}

/// `base122_fast::encode_into` on the first `len` bytes of `data`: replaces `out` by
/// the encoded text and returns its length. The text is UTF-8, holds neither quotation
/// marks nor line feeds nor leads that stand for nothing, decodes to those bytes again,
/// and has at most one byte for every seven bits and one more. The encoder loads one
/// byte more than it uses, so one more has to be there.
#[verifier::external_body]
pub(crate) fn encode_into(data: &Vec<u8>, len: usize, out: &mut Vec<u8>) -> (n: usize)
    requires
        len < data@.len(),
        3 * len + 16 <= isize::MAX,
    ensures
        final(out)@ == base122_encoded(data@.take(len as int)),
        n == final(out)@.len(),
        is_encoding(final(out)@, data@.take(len as int)),
{
    base122_fast::encode_into(&data[..len], out)
}

/// `base122_fast::decode_into`: replaces `out` by the decoded bytes and
/// returns their number; text that is not Base122 leaves `out` empty. The
/// result is no longer than the text. In UTF-8 every lead byte has its
/// continuation, so the one thing wrong can be a lead byte that Base122 lacks. Of text
/// with the leads that stand for nothing no one answer could be given: the decoder's
/// vector kernels read on where its scalar code refuses.
#[verifier::external_body]
pub(crate) fn decode_into(text: &str, out: &mut Vec<u8>) -> (r: Result<usize, &'static str>)
    requires
        text.spec_bytes().len() + 16 <= isize::MAX,
        plain_leads(text.spec_bytes()),
    ensures
        match base122_decoded(text@) {
            Some(d) => r matches Ok(n) && n == d.len() && final(out)@ == d && d.len()
                <= text.spec_bytes().len(),
            None => r matches Err(words) && words@ == "Invalid lead byte"@ && final(out)@
                == Seq::<u8>::empty(),
        },
{
    base122_fast::decode_into(text, out)
}

} // verus!
