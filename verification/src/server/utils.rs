//! Cookies, stream numbers and padding of requests and answers.
use crate::chars;
use crate::error::ServerError;
use crate::shaper::frame;
use crate::text;
use vstd::prelude::*;
use vstd::slice::slice_subrange;
use vstd::string::*;
use vstd::utf8::*;

verus! {

/// `s` without the spaces and semicolons in front.
pub open spec fn skip_separators(s: Seq<char>) -> Seq<char>
    decreases s.len(),
{
    if s.len() > 0 && (s[0] == ' ' || s[0] == ';') {
        skip_separators(s.skip(1))
    } else {
        s
    }
}

/// `s` up to the first semicolon.
pub open spec fn up_to_semicolon(s: Seq<char>) -> Seq<char> {
    match s.index_of_first(';') {
        Some(i) => s.take(i),
        None => s,
    }
}

/// The value of the first cookie named `key`, without white space around it.
pub open spec fn cookie_value(s: Seq<char>, key: Seq<char>) -> Option<Seq<char>>
    decreases s.len(),
    via cookie_value_decreases
{
    let item = skip_separators(s);
    if item.len() == 0 {
        None
    } else if key.push('=').is_prefix_of(item) {
        Some(chars::trimmed(up_to_semicolon(item.skip(key.len() as int + 1))))
    } else {
        match item.index_of_first(';') {
            Some(i) => cookie_value(item.skip(i + 1), key),
            None => None,
        }
    }
}

#[via_fn]
proof fn cookie_value_decreases(s: Seq<char>, key: Seq<char>) {
    lemma_skip_separators_len(s);
    let item = skip_separators(s);
    item.index_of_first_ensures(';');
}

proof fn lemma_skip_separators_len(s: Seq<char>)
    ensures
        skip_separators(s).len() <= s.len(),
    decreases s.len(),
{
    if s.len() > 0 && (s[0] == ' ' || s[0] == ';') {
        lemma_skip_separators_len(s.skip(1));
    }
}

/// Whether `key` and an equals sign stand at the front of `s`.
fn starts_with_key(s: &[char], key: &[char]) -> (r: bool)
    ensures
        r == key@.push('=').is_prefix_of(s@),
{
    if s.len() <= key.len() {
        return false;
    }
    let n: usize = key.len();
    let name = slice_subrange(s, 0, n);
    let r: bool = chars::same_chars(name, key) && s[n] == '=';
    proof {
        let want = key@.push('=');
        if r {
            assert(want =~= s@.take(want.len() as int));
        } else if want.is_prefix_of(s@) {
            assert(name@ =~= key@) by {
                assert forall|i: int| 0 <= i < n implies name@[i] == key@[i] by {
                    assert(want[i] == s@[i]);
                }
            }
            assert(want[n as int] == s@[n as int]);
        }
    }
    r
}

/// The value of the first cookie named `key` in a Cookie header.
pub fn extract_cookie_value(cookie_header: Option<&[u8]>, key: &str) -> (r: Option<String>)
    ensures
        match cookie_header {
            None => r is None,
            Some(bytes) => if !valid_utf8(bytes@) {
                r is None
            } else {
                match cookie_value(decode_utf8(bytes@), key@) {
                    Some(v) => r matches Some(s) && s@ == v,
                    None => r is None,
                }
            },
        },
{
    let header: &str = match cookie_header {
        None => {
            return None;
        },
        Some(bytes) => match text::utf8_text(bytes) {
            None => {
                return None;
            },
            Some(s) => {
                proof {
                    encode_utf8_decode_utf8(s@);
                }
                s
            },
        },
    };
    let all: Vec<char> = chars::chars_of(header);
    let name: Vec<char> = chars::chars_of(key);
    let total: usize = all.len();
    let mut pos: usize = 0;
    proof {
        assert(all@.skip(0) =~= all@);
    }
    while pos < total
        invariant
            pos <= total,
            total == all@.len(),
            all@ == header@,
            name@ == key@,
            cookie_value(all@, key@) == cookie_value(all@.skip(pos as int), key@),
            cookie_header matches Some(bytes) && valid_utf8(bytes@) && decode_utf8(bytes@)
                == header@,
        decreases total - pos,
    {
        let ghost from = all@.skip(pos as int);
        let mut start: usize = pos;
        while start < total && (all[start] == ' ' || all[start] == ';')
            invariant
                pos <= start <= total,
                total == all@.len(),
                skip_separators(from) == skip_separators(all@.skip(start as int)),
            decreases total - start,
        {
            proof {
                assert(all@.skip(start as int)[0] == all@[start as int]);
                assert(all@.skip(start as int).skip(1) =~= all@.skip(start as int + 1));
            }
            start = start + 1;
        }
        let item = slice_subrange(&all, start, total);
        proof {
            assert(item@ =~= all@.skip(start as int));
            assert(start < total ==> item@[0] == all@[start as int]);
            assert(skip_separators(from) == item@);
        }
        if start >= total {
            return None;
        }
        if starts_with_key(item, &name) {
            let rest = slice_subrange(item, name.len() + 1, item.len());
            proof {
                assert(rest@ =~= item@.skip(key@.len() as int + 1));
            }
            let value = match chars::find_char(rest, ';') {
                Some(i) => {
                    let v = slice_subrange(rest, 0, i);
                    proof {
                        assert(v@ =~= rest@.take(i as int));
                    }
                    v
                },
                None => rest,
            };
            return Some(chars::string_from(chars::trim_chars(value)));
        }
        match chars::find_char(item, ';') {
            Some(i) => {
                pos = start + i + 1;
                proof {
                    assert(item@.skip(i as int + 1) =~= all@.skip(pos as int));
                }
            },
            None => {
                return None;
            },
        }
    }
    proof {
        assert(all@.skip(pos as int).len() == 0);
    }
    None
}

/// The number that a UUID writes.
pub uninterp spec fn uuid_parsed(s: Seq<char>) -> Option<u128>;

/// `Uuid::parse_str`, the UUID taken as its number.
#[verifier::external_body]
fn uuid_number(s: &str) -> (r: Option<u128>)
    ensures
        r == uuid_parsed(s@),
{
    uuid::Uuid::parse_str(s).ok().map(|u| u.as_u128())
}

/// Reads a UUID.
pub fn validate_uuid(s: &str) -> (r: Result<u128, ServerError>)
    ensures
        match uuid_parsed(s@) {
            Some(n) => r == Ok::<u128, ServerError>(n),
            None => r matches Err(e) && e.says(400, "invalid UUID format"@),
        },
{
    match uuid_number(s) {
        Some(n) => Ok(n),
        None => Err(ServerError::bad_request("invalid UUID format")),
    }
}

/// What padding is cut from.
pub open spec fn padding_pool() -> Seq<char> {
    "padding=XXXXXXXXXXXXXXXXXXXXXXXXXXXXXXXXXXXXXXXXXXXXXXXXXXXXXXXX"@
}

/// The shortest padding.
pub const MIN_ANSWER_PADDING: usize = 30;

/// The longest padding.
pub const MAX_ANSWER_PADDING: usize = 64;

/// The first `len` characters of the padding pool.
pub fn padding_of(len: usize) -> (r: String)
    requires
        len <= MAX_ANSWER_PADDING,
    ensures
        r@ == padding_pool().take(len as int),
{
    proof {
        reveal_strlit("padding=XXXXXXXXXXXXXXXXXXXXXXXXXXXXXXXXXXXXXXXXXXXXXXXXXXXXXXXX");
    }
    let pool: Vec<char> = chars::chars_of(
        "padding=XXXXXXXXXXXXXXXXXXXXXXXXXXXXXXXXXXXXXXXXXXXXXXXXXXXXXXXX",
    );
    let part = slice_subrange(&pool, 0, len);
    proof {
        assert(part@ =~= padding_pool().take(len as int));
    }
    chars::string_from(part)
}

/// Padding of a random length for an answer.
pub fn random_padding() -> (r: String)
    ensures
        MIN_ANSWER_PADDING <= r@.len() <= MAX_ANSWER_PADDING,
        r@ == padding_pool().take(r@.len() as int),
{
    proof {
        reveal_strlit("padding=XXXXXXXXXXXXXXXXXXXXXXXXXXXXXXXXXXXXXXXXXXXXXXXXXXXXXXXX");
    }
    padding_of(frame::random_between(MIN_ANSWER_PADDING, MAX_ANSWER_PADDING))
}

} // verus!
