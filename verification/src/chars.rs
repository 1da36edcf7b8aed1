//! Text as a sequence of characters: searching, trimming, splitting, numbers.
use crate::decimal;
use vstd::prelude::*;
use vstd::slice::slice_subrange;
use vstd::string::*;

verus! {

/// The characters of a text.
pub fn chars_of(s: &str) -> (r: Vec<char>)
    ensures
        r@ == s@,
{
    let mut out: Vec<char> = Vec::new();
    for c in it: s.chars()
        invariant
            it.seq() == s@,
            out@ =~= s@.take(it.index()),
    {
        out.push(c);
    }
    proof {
        assert(s@.take(s@.len() as int) =~= s@);
    }
    out
}

/// `String::from_iter`: the text made of these characters.
#[verifier::external_body]
pub(crate) fn string_from(s: &[char]) -> (r: String)
    ensures
        r@ == s@,
{
    String::from_iter(s)
}

/// Whether Unicode counts a character beyond ASCII as white space.
pub uninterp spec fn unicode_white(c: char) -> bool;

/// Whether a character is white space.
pub open spec fn is_white(c: char) -> bool {
    if (c as u32) < 128 {
        c == ' ' || '\t' <= c <= '\r'
    } else {
        unicode_white(c)
    }
}

/// `char::is_whitespace`. Among the ASCII characters it holds of the space and
/// of those from tab to carriage return.
#[verifier::external_body]
fn is_white_char(c: char) -> (r: bool)
    ensures
        (c as u32) < 128 ==> r == (c == ' ' || '\t' <= c <= '\r'),
        (c as u32) >= 128 ==> r == unicode_white(c),
{
    c.is_whitespace()
}

/// Text without white space has nothing to trim.
pub proof fn lemma_nothing_to_trim(s: Seq<char>)
    requires
        forall|i: int| 0 <= i < s.len() ==> !is_white(#[trigger] s[i]),
    ensures
        trimmed(s) == s,
{
    if s.len() > 0 {
        assert(!is_white(s[0]));
        assert(!is_white(s.last()));
    }
}

/// The first position of a character.
pub fn find_char(s: &[char], c: char) -> (r: Option<usize>)
    ensures
        match r {
            Some(i) => s@.index_of_first(c) == Some(i as int) && i < s@.len() && s@[i as int] == c
                && forall|j: int| 0 <= j < i ==> s@[j] != c,
            None => s@.index_of_first(c) is None && forall|j: int| 0 <= j < s@.len() ==> s@[j] != c,
        },
{
    let mut i: usize = 0;
    while i < s.len()
        invariant
            i <= s@.len(),
            forall|j: int| 0 <= j < i ==> s@[j] != c,
        decreases s@.len() - i,
    {
        if s[i] == c {
            proof {
                lemma_first_index(s@, c, i as int);
            }
            return Some(i);
        }
        i = i + 1;
    }
    proof {
        s@.index_of_first_ensures(c);
    }
    None
}

/// The last position of a character.
pub fn rfind_char(s: &[char], c: char) -> (r: Option<usize>)
    ensures
        match r {
            Some(i) => s@.index_of_last(c) == Some(i as int) && i < s@.len() && s@[i as int] == c
                && forall|j: int| i < j < s@.len() ==> s@[j] != c,
            None => s@.index_of_last(c) is None && forall|j: int| 0 <= j < s@.len() ==> s@[j] != c,
        },
{
    let mut i: usize = s.len();
    while i > 0
        invariant
            i <= s@.len(),
            forall|j: int| i <= j < s@.len() ==> s@[j] != c,
        decreases i,
    {
        i = i - 1;
        if s[i] == c {
            proof {
                s@.index_of_last_ensures(c);
                assert(s@.contains(c));
                let k = s@.index_of_last(c)->0;
                assert(k <= i);
                assert(!(k < i));
            }
            return Some(i);
        }
    }
    proof {
        s@.index_of_last_ensures(c);
    }
    None
}

/// The position of the first `c` is where everything before differs.
pub proof fn lemma_first_index(s: Seq<char>, c: char, i: int)
    requires
        0 <= i < s.len(),
        s[i] == c,
        forall|j: int| 0 <= j < i ==> s[j] != c,
    ensures
        s.index_of_first(c) == Some(i),
{
    s.index_of_first_ensures(c);
    assert(s.contains(c));
    let k = s.index_of_first(c)->0;
    if k < i {
        assert(s[k] != c);
    } else if i < k {
        assert(s[i] != c);
    }
}

/// Two texts are the same.
pub fn same_chars(a: &[char], b: &[char]) -> (r: bool)
    ensures
        r == (a@ == b@),
{
    if a.len() != b.len() {
        return false;
    }
    let mut i: usize = 0;
    while i < a.len()
        invariant
            i <= a@.len(),
            a@.len() == b@.len(),
            a@.take(i as int) =~= b@.take(i as int),
        decreases a@.len() - i,
    {
        if a[i] != b[i] {
            proof {
                assert(a@[i as int] != b@[i as int]);
            }
            return false;
        }
        i = i + 1;
    }
    proof {
        assert(a@.take(i as int) =~= a@);
        assert(b@.take(i as int) =~= b@);
    }
    true
}

/// `s` without the white space in front.
pub open spec fn trim_front(s: Seq<char>) -> Seq<char>
    decreases s.len(),
{
    if s.len() > 0 && is_white(s[0]) {
        trim_front(s.skip(1))
    } else {
        s
    }
}

/// `s` without the white space behind.
pub open spec fn trim_back(s: Seq<char>) -> Seq<char>
    decreases s.len(),
{
    if s.len() > 0 && is_white(s.last()) {
        trim_back(s.drop_last())
    } else {
        s
    }
}

/// `s` without the white space on either side.
pub open spec fn trimmed(s: Seq<char>) -> Seq<char> {
    trim_back(trim_front(s))
}

/// Cuts the white space off both ends.
pub fn trim_chars(s: &[char]) -> (r: &[char])
    ensures
        r@ == trimmed(s@),
{
    let mut start: usize = 0;
    proof {
        assert(s@.skip(0) =~= s@);
    }
    while start < s.len() && is_white_char(s[start])
        invariant
            start <= s@.len(),
            trim_front(s@) == trim_front(s@.skip(start as int)),
        decreases s@.len() - start,
    {
        proof {
            assert(s@.skip(start as int)[0] == s@[start as int]);
            assert(s@.skip(start as int).skip(1) =~= s@.skip(start as int + 1));
        }
        start = start + 1;
    }
    let ghost front = s@.skip(start as int);
    proof {
        assert(start < s@.len() ==> front[0] == s@[start as int]);
    }
    let mut end: usize = s.len();
    proof {
        assert(s@.subrange(start as int, end as int) =~= front);
    }
    while end > start && is_white_char(s[end - 1])
        invariant
            start <= end <= s@.len(),
            trim_back(front) == trim_back(s@.subrange(start as int, end as int)),
        decreases end - start,
    {
        proof {
            let cur = s@.subrange(start as int, end as int);
            assert(cur.last() == s@[end as int - 1]);
            assert(cur.drop_last() =~= s@.subrange(start as int, end as int - 1));
        }
        end = end - 1;
    }
    proof {
        let cur = s@.subrange(start as int, end as int);
        assert(end > start ==> cur.last() == s@[end as int - 1]);
    }
    slice_subrange(s, start, end)
}

/// The number that digits write, behind a plus sign that may stand in front,
/// where it does not exceed `max`.
pub open spec fn parsed_number(s: Seq<char>, max: nat) -> Option<nat> {
    let digits = if s.len() > 0 && s[0] == '+' {
        s.skip(1)
    } else {
        s
    };
    if digits.len() > 0 && decimal::all_digits(digits) && decimal::decimal_value(digits) <= max {
        Some(decimal::decimal_value(digits))
    } else {
        None
    }
}

proof fn lemma_value_mono(s: Seq<char>, i: int)
    requires
        0 <= i <= s.len(),
    ensures
        decimal::decimal_value(s.take(i)) <= decimal::decimal_value(s),
    decreases s.len() - i,
{
    if i == s.len() {
        assert(s.take(i) =~= s);
    } else {
        lemma_value_mono(s, i + 1);
        assert(s.take(i + 1).drop_last() =~= s.take(i));
    }
}

/// Reads a decimal number of at most `max`.
pub fn parse_number(s: &[char], max: u64) -> (r: Option<u64>)
    requires
        max <= 0xffff_ffff,
    ensures
        match r {
            Some(n) => parsed_number(s@, max as nat) == Some(n as nat),
            None => parsed_number(s@, max as nat) is None,
        },
{
    let digits: &[char] = if s.len() > 0 && s[0] == '+' {
        slice_subrange(s, 1, s.len())
    } else {
        s
    };
    proof {
        if s@.len() > 0 && s@[0] == '+' {
            assert(digits@ =~= s@.skip(1));
        }
    }
    if digits.len() == 0 {
        return None;
    }
    let mut value: u64 = 0;
    let mut i: usize = 0;
    proof {
        assert(digits@.take(0) =~= Seq::<char>::empty());
    }
    while i < digits.len()
        invariant
            i <= digits@.len(),
            max <= 0xffff_ffff,
            value <= max,
            value == decimal::decimal_value(digits@.take(i as int)),
            forall|j: int| 0 <= j < i ==> '0' <= #[trigger] digits@[j] <= '9',
            digits@ == (if s@.len() > 0 && s@[0] == '+' {
                s@.skip(1)
            } else {
                s@
            }),
        decreases digits@.len() - i,
    {
        let c: char = digits[i];
        if c < '0' || c > '9' {
            proof {
                assert(!('0' <= digits@[i as int] <= '9'));
            }
            return None;
        }
        let d: u64 = c as u64 - 0x30;
        proof {
            assert(digits@.take(i as int + 1).drop_last() =~= digits@.take(i as int));
            assert(digits@.take(i as int + 1).last() == c);
        }
        value = value * 10 + d;
        if value > max {
            proof {
                lemma_value_mono(digits@, i as int + 1);
            }
            return None;
        }
        i = i + 1;
    }
    proof {
        assert(digits@.take(i as int) =~= digits@);
    }
    Some(value)
}

/// A letter in lower case, where it is an ASCII letter.
pub open spec fn ascii_lower(c: char) -> char {
    if 'A' <= c <= 'Z' {
        (c as u32 + 32) as char
    } else {
        c
    }
}

/// The text with its ASCII letters in lower case.
pub open spec fn ascii_lower_all(s: Seq<char>) -> Seq<char> {
    s.map_values(|c: char| ascii_lower(c))
}

/// A letter in lower case, where it is an ASCII letter.
pub fn lower_char(c: char) -> (r: char)
    ensures
        r == ascii_lower(c),
{
    if 'A' <= c && c <= 'Z' {
        (c as u8 + 32) as char
    } else {
        c
    }
}

/// Whether two texts differ in the case of ASCII letters at most.
pub fn same_ignoring_case(a: &[char], b: &[char]) -> (r: bool)
    ensures
        r == (ascii_lower_all(a@) == ascii_lower_all(b@)),
{
    if a.len() != b.len() {
        proof {
            assert(ascii_lower_all(a@).len() != ascii_lower_all(b@).len());
        }
        return false;
    }
    let mut i: usize = 0;
    while i < a.len()
        invariant
            i <= a@.len(),
            a@.len() == b@.len(),
            forall|j: int| 0 <= j < i ==> ascii_lower(a@[j]) == ascii_lower(b@[j]),
        decreases a@.len() - i,
    {
        if lower_char(a[i]) != lower_char(b[i]) {
            proof {
                assert(ascii_lower_all(a@)[i as int] != ascii_lower_all(b@)[i as int]);
            }
            return false;
        }
        i = i + 1;
    }
    proof {
        assert(ascii_lower_all(a@) =~= ascii_lower_all(b@));
    }
    true
}

/// A number in decimal notation, with or without a plus sign, is read as itself
/// up to the greatest that is allowed, and refused beyond.
pub proof fn law_decimal_number_is_read(s: &[char], n: u64, max: u64, r: Option<u64>)
    requires
        call_ensures(parse_number, (s, max), r),
        s@ == decimal::decimal(n as nat) || s@ == seq!['+'] + decimal::decimal(n as nat),
    ensures
        n <= max ==> r == Some(n),
        n > max ==> r is None,
{
    decimal::law_decimal_roundtrip(n as nat);
    if s@ == seq!['+'] + decimal::decimal(n as nat) {
        assert(s@.skip(1) =~= decimal::decimal(n as nat));
    } else {
        assert('0' <= s@[0] <= '9');
    }
}

/// What is read is digits, behind a plus sign at most, and no greater than allowed.
pub proof fn law_number_is_digits(s: &[char], max: u64, r: Option<u64>)
    requires
        call_ensures(parse_number, (s, max), r),
    ensures
        r is Some ==> r->0 <= max,
        s@.len() == 0 ==> r is None,
        s@ == seq!['+'] ==> r is None,
        (exists|i: int| 0 < i < s@.len() && !('0' <= #[trigger] s@[i] <= '9')) ==> r is None,
        s@.len() > 0 && s@[0] != '+' && !('0' <= s@[0] <= '9') ==> r is None,
{
    if s@ == seq!['+'] {
        assert(s@.skip(1).len() == 0);
    }
    if exists|i: int| 0 < i < s@.len() && !('0' <= #[trigger] s@[i] <= '9') {
        let i = choose|i: int| 0 < i < s@.len() && !('0' <= #[trigger] s@[i] <= '9');
        if s@[0] == '+' {
            assert(s@.skip(1)[i - 1] == s@[i]);
        }
    }
}

proof fn lemma_leading_zero(t: Seq<char>)
    ensures
        decimal::decimal_value(seq!['0'] + t) == decimal::decimal_value(t),
    decreases t.len(),
{
    let s = seq!['0'] + t;
    reveal_with_fuel(decimal::decimal_value, 2);
    if t.len() == 0 {
        assert(s.drop_last() =~= Seq::<char>::empty());
    } else {
        lemma_leading_zero(t.drop_last());
        assert(s.drop_last() =~= seq!['0'] + t.drop_last());
        assert(s.last() == t.last());
    }
}

/// Zeros in front of a number change nothing.
pub proof fn law_leading_zeros_are_skipped(
    s: &[char],
    t: &[char],
    max: u64,
    r: Option<u64>,
    rest: Option<u64>,
)
    requires
        call_ensures(parse_number, (s, max), r),
        call_ensures(parse_number, (t, max), rest),
        s@ == seq!['0'] + t@,
        t@.len() > 0,
        t@[0] != '+',
    ensures
        r == rest,
{
    lemma_leading_zero(t@);
    if decimal::all_digits(t@) {
        assert(decimal::all_digits(s@)) by {
            assert forall|i: int| 0 <= i < s@.len() implies '0' <= #[trigger] s@[i] <= '9' by {
                if i > 0 {
                    assert(s@[i] == t@[i - 1]);
                }
            }
        }
    } else {
        let i = choose|i: int| 0 <= i < t@.len() && !('0' <= #[trigger] t@[i] <= '9');
        assert(s@[i + 1] == t@[i]);
    }
}

/// White space goes from both ends and from nowhere else.
pub proof fn law_white_space_is_cut(s: &[char], r: &[char], i: int, j: int)
    requires
        call_ensures(trim_chars, (s,), r),
        0 <= i < j <= s@.len(),
        forall|k: int| 0 <= k < i || j <= k < s@.len() ==> is_white(#[trigger] s@[k]),
        !is_white(s@[i]),
        !is_white(s@[j - 1]),
    ensures
        r@ == s@.subrange(i, j),
{
    lemma_trimmed(s@, i, j);
}

/// Nothing is left of white space.
pub proof fn law_white_space_alone_is_nothing(s: &[char], r: &[char])
    requires
        call_ensures(trim_chars, (s,), r),
        forall|k: int| 0 <= k < s@.len() ==> is_white(#[trigger] s@[k]),
    ensures
        r@.len() == 0,
{
    lemma_trim_all(s@);
}

proof fn lemma_trim_all(s: Seq<char>)
    requires
        forall|k: int| 0 <= k < s.len() ==> is_white(#[trigger] s[k]),
    ensures
        trim_front(s).len() == 0,
    decreases s.len(),
{
    if s.len() > 0 {
        assert(is_white(s[0]));
        lemma_trim_all(s.skip(1));
    }
}

proof fn lemma_trim_front(s: Seq<char>, i: int)
    requires
        0 <= i < s.len(),
        forall|k: int| 0 <= k < i ==> is_white(#[trigger] s[k]),
        !is_white(s[i]),
    ensures
        trim_front(s) == s.skip(i),
    decreases i,
{
    if i > 0 {
        assert(is_white(s[0]));
        lemma_trim_front(s.skip(1), i - 1);
        assert(s.skip(1).skip(i - 1) =~= s.skip(i));
    } else {
        assert(s.skip(0) =~= s);
    }
}

proof fn lemma_trim_back(s: Seq<char>, j: int)
    requires
        0 < j <= s.len(),
        forall|k: int| j <= k < s.len() ==> is_white(#[trigger] s[k]),
        !is_white(s[j - 1]),
    ensures
        trim_back(s) == s.take(j),
    decreases s.len(),
{
    if j < s.len() {
        assert(is_white(s[s.len() - 1]));
        lemma_trim_back(s.drop_last(), j);
        assert(s.drop_last().take(j) =~= s.take(j));
    } else {
        assert(s.take(j) =~= s);
    }
}

/// Of the ASCII characters the space and those from tab to carriage return are
/// white space.
pub proof fn law_ascii_white_space(c: char)
    requires
        (c as u32) < 128,
    ensures
        is_white(c) <==> c as u32 == 0x20 || 0x09 <= c as u32 <= 0x0d,
{
}

/// The twenty-six capital letters of ASCII have small ones, thirty-two further on;
/// every other character stays.
pub proof fn law_capitals_become_small(c: char, r: char)
    requires
        call_ensures(lower_char, (c,), r),
    ensures
        0x41 <= c as u32 <= 0x5a ==> r as u32 == c as u32 + 32,
        !(0x41 <= c as u32 <= 0x5a) ==> r == c,
{
}

/// Texts are the same but for case exactly where each two characters are.
pub proof fn law_case_is_ignored(a: &[char], b: &[char], r: bool)
    requires
        call_ensures(same_ignoring_case, (a, b), r),
    ensures
        a@.len() != b@.len() ==> !r,
        a@ == b@ ==> r,
        r ==> forall|i: int|
            0 <= i < a@.len() ==> (#[trigger] a@[i] == b@[i] || (a@[i] as u32 == b@[i] as u32 + 32
                && 0x41 <= b@[i] as u32 <= 0x5a) || (b@[i] as u32 == a@[i] as u32 + 32 && 0x41
                <= a@[i] as u32 <= 0x5a)),
        a@.len() == b@.len() && (forall|i: int|
            0 <= i < a@.len() ==> (#[trigger] a@[i] == b@[i] || (a@[i] as u32 == b@[i] as u32 + 32
                && 0x41 <= b@[i] as u32 <= 0x5a) || (b@[i] as u32 == a@[i] as u32 + 32 && 0x41
                <= a@[i] as u32 <= 0x5a))) ==> r,
{
    if r {
        assert(ascii_lower_all(a@).len() == ascii_lower_all(b@).len());
        assert forall|i: int| 0 <= i < a@.len() implies ascii_lower(#[trigger] a@[i])
            == ascii_lower(b@[i]) by {
            assert(ascii_lower_all(a@)[i] == ascii_lower_all(b@)[i]);
        }
    } else if a@.len() == b@.len() {
        assert(!(ascii_lower_all(a@) =~= ascii_lower_all(b@)));
        let i = choose|i: int|
            0 <= i < a@.len() && #[trigger] ascii_lower_all(a@)[i] != ascii_lower_all(b@)[i];
        assert(ascii_lower(a@[i]) != ascii_lower(b@[i]));
    }
}

/// What is trimmed is what stands between the white space at the ends.
pub proof fn lemma_trimmed(s: Seq<char>, i: int, j: int)
    requires
        0 <= i < j <= s.len(),
        forall|k: int| 0 <= k < i || j <= k < s.len() ==> is_white(#[trigger] s[k]),
        !is_white(s[i]),
        !is_white(s[j - 1]),
    ensures
        trimmed(s) == s.subrange(i, j),
{
    lemma_trim_front(s, i);
    lemma_trim_back(s.skip(i), j - i);
    assert(s.skip(i).take(j - i) =~= s.subrange(i, j));
}

} // verus!
