//! Queries to a resolver, and what its answers say.
use crate::chars;
use crate::decimal;
use crate::dns::config::DnsOptions;
use crate::ip::IpAddress;
use crate::wire;
use domain::base::iana::Class;
use domain::base::opt::{ClientSubnet, Opt};
use domain::base::rdata::ComposeRecordData;
use domain::base::{MessageBuilder, Name, Question, Record, Ttl};
use domain::rdata::{Aaaa, A};
use vstd::prelude::*;
use vstd::slice::slice_subrange;
use vstd::string::*;

verus! {

/// The type of records with an IPv4 address.
pub const RTYPE_A: u16 = 1;

/// The type of records with an IPv6 address.
pub const RTYPE_AAAA: u16 = 28;

/// The code of an answer without error.
pub const RCODE_NOERROR: u8 = 0;

/// The code of a name that does not exist.
pub const RCODE_NXDOMAIN: u8 = 3;

/// The length of a message's header.
pub const DNS_HEADER_LEN: usize = 12;

/// The size of answers over UDP that is asked for.
pub const UDP_PAYLOAD_SIZE: u16 = 1232;

/// Why an answer is of no use.
#[derive(Debug)]
pub enum DnsError {
    /// It is no message.
    Invalid,
    /// It answers another query.
    IdMismatch { expected: u16, got: u16 },
    /// It does not repeat one question.
    Question,
    /// It repeats another question than was asked of this name.
    QuestionMismatch(String),
    /// It was cut off.
    Truncated,
    /// It carries an error code.
    Rcode(u8),
    /// The name asked for is none.
    InvalidName,
}

/// The words for an error code.
pub uninterp spec fn rcode_text(code: u8) -> Seq<char>;

/// `Display` of a `domain::base::iana::Rcode`, of which the low four bits count.
#[verifier::external_body]
fn rcode_words(code: u8) -> (r: String)
    ensures
        r@ == rcode_text(code),
{
    domain::base::iana::Rcode::masked_from_int(code).to_string()
}

impl DnsError {
    /// The error in words.
    pub open spec fn text(self) -> Seq<char> {
        match self {
            DnsError::Invalid => "invalid DNS response"@,
            DnsError::IdMismatch { expected, got } => "DNS ID mismatch: expected "@
                + decimal::decimal(expected as nat) + ", got "@ + decimal::decimal(got as nat),
            DnsError::Question => "DNS response question missing or malformed"@,
            DnsError::QuestionMismatch(domain) => "DNS response question does not match query for "@
                + domain@,
            DnsError::Truncated => "DNS response truncated (TC set)"@,
            DnsError::Rcode(code) => "DNS Rcode Error: "@ + rcode_text(code),
            DnsError::InvalidName => "invalid domain name"@,
        }
    }

    /// The error in words.
    pub fn message(&self) -> (r: String)
        ensures
            r@ == self.text(),
    {
        match self {
            DnsError::Invalid => String::from_str("invalid DNS response"),
            DnsError::IdMismatch { expected, got } => {
                let mut out = String::from_str("DNS ID mismatch: expected ");
                decimal::push_decimal(&mut out, *expected as u64);
                out.append(", got ");
                decimal::push_decimal(&mut out, *got as u64);
                out
            },
            DnsError::Question => String::from_str("DNS response question missing or malformed"),
            DnsError::QuestionMismatch(domain) => {
                let mut out = String::from_str("DNS response question does not match query for ");
                out.append(domain.as_str());
                out
            },
            DnsError::Truncated => String::from_str("DNS response truncated (TC set)"),
            DnsError::Rcode(code) => {
                let mut out = String::from_str("DNS Rcode Error: ");
                out.append(rcode_words(*code).as_str());
                out
            },
            DnsError::InvalidName => String::from_str("invalid domain name"),
        }
    }
}

/// Number, truncation mark and error code in the header of a message.
pub open spec fn header_of(data: Seq<u8>) -> Option<(u16, bool, u8)> {
    if data.len() < DNS_HEADER_LEN {
        None
    } else {
        Some((wire::be_value(data.take(2)) as u16, data[2] / 2 % 2 == 1, data[3] % 16))
    }
}

/// Reads the header of a message.
pub fn read_header(data: &[u8]) -> (r: Option<(u16, bool, u8)>)
    ensures
        r == header_of(data@),
{
    if data.len() < DNS_HEADER_LEN {
        return None;
    }
    Some((wire::read_u16_be(data), data[2] / 2 % 2 == 1, data[3] % 16))
}

/// Name and type of the question of a message, where there is exactly one.
pub uninterp spec fn message_question(data: Seq<u8>) -> Option<(Seq<char>, u16)>;

/// `domain::base::Message::sole_question`, with `qname` and `qtype` of the result.
#[verifier::external_body]
fn read_question(data: &[u8]) -> (r: Option<(String, u16)>)
    ensures
        match r {
            Some((name, rtype)) => message_question(data@) == Some((name@, rtype)),
            None => message_question(data@) is None,
        },
{
    let message = domain::base::Message::from_octets(data).ok()?;
    let question = message.sole_question().ok()?;
    Some((question.qname().to_string(), question.qtype().to_int()))
}

/// The answers of a message, in order: type, time to live, and the IPv4 or IPv6
/// address that it carries. One that cannot be read is there without content.
pub uninterp spec fn message_answers(data: Seq<u8>) -> Seq<
    Option<(u16, u32, Option<u32>, Option<u128>)>,
>;

/// `domain::base::Message::answer`, with `rtype`, `ttl` and the data of each
/// record as `A` and as `Aaaa`.
#[verifier::external_body]
fn read_answers(data: &[u8]) -> (r: Vec<Option<(u16, u32, Option<u32>, Option<u128>)>>)
    ensures
        r@ == message_answers(data@),
{
    let message = match domain::base::Message::from_octets(data) {
        Ok(m) => m,
        Err(_) => return Vec::new(),
    };
    let section = message.answer().into_iter().flatten();
    section.map(|record| {
        let rec = record.ok()?;
        let v4 = rec.to_record::<A>().ok().flatten().map(|r| r.data().addr().into());
        let v6 = rec.to_record::<Aaaa>().ok().flatten().map(|r| r.data().addr().into());
        Some((rec.rtype().to_int(), rec.ttl().as_secs(), v4, v6))
    }).collect()
}

/// The address that a record of type `qtype` carries.
pub open spec fn record_address(
    record: Option<(u16, u32, Option<u32>, Option<u128>)>,
    qtype: u16,
) -> Option<IpAddress> {
    match record {
        Some((rtype, _, v4, v6)) => if rtype != qtype {
            None
        } else if qtype == RTYPE_A && v4 is Some {
            Some(IpAddress::V4(v4->0))
        } else if qtype == RTYPE_AAAA && v6 is Some {
            Some(IpAddress::V6(v6->0))
        } else {
            None
        },
        None => None,
    }
}

/// The addresses in records of type `qtype`, in order.
pub open spec fn addresses(
    records: Seq<Option<(u16, u32, Option<u32>, Option<u128>)>>,
    qtype: u16,
) -> Seq<IpAddress>
    decreases records.len(),
{
    if records.len() == 0 {
        Seq::empty()
    } else {
        let earlier = addresses(records.drop_last(), qtype);
        match record_address(records.last(), qtype) {
            Some(ip) => earlier.push(ip),
            None => earlier,
        }
    }
}

/// The least time to live of the records of type `qtype`, or the greatest
/// number where there is none.
pub open spec fn least_ttl(
    records: Seq<Option<(u16, u32, Option<u32>, Option<u128>)>>,
    qtype: u16,
) -> u32
    decreases records.len(),
{
    if records.len() == 0 {
        u32::MAX
    } else {
        let earlier = least_ttl(records.drop_last(), qtype);
        match records.last() {
            Some((rtype, ttl, _, _)) => if rtype == qtype && ttl < earlier {
                ttl
            } else {
                earlier
            },
            None => earlier,
        }
    }
}

/// A time to live brought between two bounds, whichever way round they are.
pub open spec fn bounded_ttl(ttl: u64, a: u64, b: u64) -> u64 {
    let low = if a <= b {
        a
    } else {
        b
    };
    let high = if a <= b {
        b
    } else {
        a
    };
    if ttl < low {
        low
    } else if ttl > high {
        high
    } else {
        ttl
    }
}

/// A name without the dots behind.
pub open spec fn without_last_dots(s: Seq<char>) -> Seq<char>
    decreases s.len(),
{
    if s.len() > 0 && s.last() == '.' {
        without_last_dots(s.drop_last())
    } else {
        s
    }
}

/// Two names are the same but for the case of ASCII letters and dots behind.
pub open spec fn same_name(a: Seq<char>, b: Seq<char>) -> bool {
    chars::ascii_lower_all(without_last_dots(a)) == chars::ascii_lower_all(without_last_dots(b))
}

fn trim_last_dots(s: &[char]) -> (r: &[char])
    ensures
        r@ == without_last_dots(s@),
{
    let mut end: usize = s.len();
    proof {
        assert(s@.take(end as int) =~= s@);
    }
    while end > 0 && s[end - 1] == '.'
        invariant
            end <= s@.len(),
            without_last_dots(s@) == without_last_dots(s@.take(end as int)),
        decreases end,
    {
        proof {
            assert(s@.take(end as int).last() == s@[end as int - 1]);
            assert(s@.take(end as int).drop_last() =~= s@.take(end as int - 1));
        }
        end = end - 1;
    }
    proof {
        assert(end > 0 ==> s@.take(end as int).last() == s@[end as int - 1]);
        assert(s@.take(end as int) =~= s@.subrange(0, end as int));
    }
    slice_subrange(s, 0, end)
}

fn names_match(a: &str, b: &str) -> (r: bool)
    ensures
        r == same_name(a@, b@),
{
    let first: Vec<char> = chars::chars_of(a);
    let second: Vec<char> = chars::chars_of(b);
    chars::same_ignoring_case(trim_last_dots(&first), trim_last_dots(&second))
}

/// What a message says of a name: its addresses and how long that holds, or why
/// it is of no use. The checks come in this order.
pub open spec fn judged_response(
    header: Option<(u16, bool, u8)>,
    question: Option<(Seq<char>, u16)>,
    answers: Seq<Option<(u16, u32, Option<u32>, Option<u128>)>>,
    id: u16,
    qtype: u16,
    domain: Seq<char>,
    options: DnsOptions,
    r: Result<(Vec<IpAddress>, u64), DnsError>,
) -> bool {
    match header {
        None => r matches Err(DnsError::Invalid),
        Some((got, truncated, rcode)) => if got != id {
            r == Err::<(Vec<IpAddress>, u64), DnsError>(
                DnsError::IdMismatch { expected: id, got },
            )
        } else {
            match question {
                None => r matches Err(DnsError::Question),
                Some((name, rtype)) => if rtype != qtype || !same_name(name, domain) {
                    r matches Err(DnsError::QuestionMismatch(d)) && d@ == domain
                } else if truncated {
                    r matches Err(DnsError::Truncated)
                } else if rcode == RCODE_NXDOMAIN {
                    r matches Ok((ips, ttl)) && ips@.len() == 0 && ttl == options.empty_ttl
                } else if rcode != RCODE_NOERROR {
                    r == Err::<(Vec<IpAddress>, u64), DnsError>(DnsError::Rcode(rcode))
                } else {
                    &&& r matches Ok((ips, ttl))
                    &&& ips@ == addresses(answers, qtype)
                    &&& ttl == (if ips@.len() == 0 {
                        options.empty_ttl
                    } else {
                        bounded_ttl(
                            least_ttl(answers, qtype) as u64,
                            options.min_ttl,
                            options.max_ttl,
                        )
                    })
                },
            }
        },
    }
}

fn bring_between(ttl: u64, a: u64, b: u64) -> (r: u64)
    ensures
        r == bounded_ttl(ttl, a, b),
{
    let (low, high): (u64, u64) = if a <= b {
        (a, b)
    } else {
        (b, a)
    };
    if ttl < low {
        low
    } else if ttl > high {
        high
    } else {
        ttl
    }
}

/// Decides what a message says of a name.
pub fn judge_response(
    header: Option<(u16, bool, u8)>,
    question: Option<(String, u16)>,
    answers: &[Option<(u16, u32, Option<u32>, Option<u128>)>],
    id: u16,
    qtype: u16,
    domain: &str,
    options: &DnsOptions,
) -> (r: Result<(Vec<IpAddress>, u64), DnsError>)
    ensures
        judged_response(
            header,
            (match question {
                Some((name, rtype)) => Some((name@, rtype)),
                None => None,
            }),
            answers@,
            id,
            qtype,
            domain@,
            *options,
            r,
        ),
{
    let (got, truncated, rcode): (u16, bool, u8) = match header {
        Some(h) => h,
        None => {
            return Err(DnsError::Invalid);
        },
    };
    if got != id {
        return Err(DnsError::IdMismatch { expected: id, got });
    }
    let (name, rtype): (String, u16) = match question {
        Some(q) => q,
        None => {
            return Err(DnsError::Question);
        },
    };
    if rtype != qtype || !names_match(name.as_str(), domain) {
        return Err(DnsError::QuestionMismatch(String::from_str(domain)));
    }
    if truncated {
        return Err(DnsError::Truncated);
    }
    if rcode == RCODE_NXDOMAIN {
        return Ok((Vec::new(), options.empty_ttl));
    }
    if rcode != RCODE_NOERROR {
        return Err(DnsError::Rcode(rcode));
    }
    let mut ips: Vec<IpAddress> = Vec::new();
    let mut min_ttl: u32 = u32::MAX;
    let mut i: usize = 0;
    proof {
        assert(answers@.take(0) =~= Seq::empty());
    }
    while i < answers.len()
        invariant
            i <= answers@.len(),
            ips@ == addresses(answers@.take(i as int), qtype),
            min_ttl == least_ttl(answers@.take(i as int), qtype),
        decreases answers@.len() - i,
    {
        proof {
            assert(answers@.take(i as int + 1).drop_last() =~= answers@.take(i as int));
            assert(answers@.take(i as int + 1).last() == answers@[i as int]);
        }
        match answers[i] {
            Some((kind, ttl, v4, v6)) => {
                if kind == qtype {
                    if ttl < min_ttl {
                        min_ttl = ttl;
                    }
                    if qtype == RTYPE_A {
                        if let Some(n) = v4 {
                            ips.push(IpAddress::V4(n));
                        }
                    } else if qtype == RTYPE_AAAA {
                        if let Some(n) = v6 {
                            ips.push(IpAddress::V6(n));
                        }
                    }
                }
            },
            None => {},
        }
        i = i + 1;
    }
    proof {
        assert(answers@.take(i as int) =~= answers@);
    }
    let ttl: u64 = if ips.len() == 0 {
        options.empty_ttl
    } else {
        bring_between(min_ttl as u64, options.min_ttl, options.max_ttl)
    };
    Ok((ips, ttl))
}

/// Reads what an answer says of a name.
pub fn parse_response(data: &[u8], id: u16, qtype: u16, domain: &str, options: &DnsOptions) -> (r:
    Result<(Vec<IpAddress>, u64), DnsError>)
    ensures
        judged_response(
            header_of(data@),
            message_question(data@),
            message_answers(data@),
            id,
            qtype,
            domain@,
            *options,
            r,
        ),
{
    let answers = read_answers(data);
    judge_response(
        read_header(data),
        read_question(data),
        &answers,
        id,
        qtype,
        domain,
        options,
    )
}

/// The EDNS option that tells the first `len` bits of an address, `len` being a
/// multiple of eight: its code, the length of what follows, the address family,
/// `len`, a scope of zero, and those bits.
pub open spec fn subnet_option(ip: IpAddress, len: u8) -> Seq<u8> {
    let bits = match ip {
        IpAddress::V4(n) => wire::be_bytes(n as nat, 4),
        IpAddress::V6(n) => wire::be_bytes(n as nat, 16),
    };
    let family: u8 = if ip is V4 {
        1
    } else {
        2
    };
    seq![0u8, 8u8, 0u8, (4 + len / 8) as u8, 0u8, family, len, 0u8] + bits.take(len as int / 8)
}

/// `domain::base::opt::ClientSubnet::new` with a scope of zero, pushed onto an
/// empty `domain::base::opt::Opt`, whose bytes are handed out.
#[verifier::external_body]
fn compose_subnet(ip: IpAddress, len: u8) -> (r: Vec<u8>)
    requires
        len % 8 == 0,
        len <= if ip is V4 {
            32u8
        } else {
            128u8
        },
    ensures
        r@ == subnet_option(ip, len),
{
    let address = match ip {
        IpAddress::V4(n) => n.to_be_bytes().into(),
        IpAddress::V6(n) => n.to_be_bytes().into(),
    };
    let mut opt = Opt::<Vec<u8>>::empty();
    opt.push(&ClientSubnet::new(len, 0, address)).unwrap();
    let mut bytes = Vec::new();
    opt.compose_rdata(&mut bytes).unwrap();
    bytes
}

/// The bytes of a query: its number, whether recursion is asked for, name and
/// type, the size of answers, and the EDNS options. None where the name is no
/// domain name or the options are no such sequence.
pub uninterp spec fn query_bytes(
    id: u16,
    recurse: bool,
    name: Seq<char>,
    rtype: u16,
    payload: u16,
    options: Seq<u8>,
) -> Option<Seq<u8>>;

/// `domain::base::MessageBuilder`: one question of class IN, and an OPT record
/// with the size of answers and the options. A message has a header, and its
/// number stands in front.
#[verifier::external_body]
fn compose_query(
    id: u16,
    recurse: bool,
    name: &str,
    rtype: u16,
    payload: u16,
    options: Vec<u8>,
) -> (r: Option<Vec<u8>>)
    ensures
        match r {
            Some(b) => query_bytes(id, recurse, name@, rtype, payload, options@) == Some(b@)
                && b@.len() >= DNS_HEADER_LEN && wire::be_value(b@.take(2)) == id,
            None => query_bytes(id, recurse, name@, rtype, payload, options@) is None,
        },
{
    let mut builder = MessageBuilder::new_vec();
    builder.header_mut().set_id(id);
    builder.header_mut().set_rd(recurse);
    let mut question = builder.question();
    question.push(Question::new(Name::vec_from_str(name).ok()?, rtype.into(), Class::IN)).ok()?;
    let mut additional = question.additional();
    let opt = Opt::from_octets(options).ok()?;
    additional.push(Record::new(Name::root_vec(), payload.into(), Ttl::ZERO, opt)).ok()?;
    Some(additional.into_message().into_octets())
}

/// How much of the client's address a query tells: the first twenty-four bits
/// of an IPv4 address, the first fifty-six of an IPv6 address.
pub open spec fn told_subnet(client: Option<IpAddress>) -> Seq<u8> {
    match client {
        Some(IpAddress::V4(n)) => subnet_option(IpAddress::V4(n), 24),
        Some(IpAddress::V6(n)) => subnet_option(IpAddress::V6(n), 56),
        None => Seq::empty(),
    }
}

/// Writes a query for records of type `rtype`.
pub fn build_query(domain: &str, rtype: u16, client: Option<IpAddress>, id: u16) -> (r: Result<
    Vec<u8>,
    DnsError,
>)
    ensures
        match query_bytes(id, true, domain@, rtype, UDP_PAYLOAD_SIZE, told_subnet(client)) {
            Some(bytes) => r matches Ok(q) && q@ == bytes && q@.len() >= DNS_HEADER_LEN
                && wire::be_value(q@.take(2)) == id,
            None => r matches Err(DnsError::InvalidName),
        },
{
    let options: Vec<u8> = match client {
        Some(ip) => match ip {
            IpAddress::V4(_) => compose_subnet(ip, 24),
            IpAddress::V6(_) => compose_subnet(ip, 56),
        },
        None => Vec::new(),
    };
    match compose_query(id, true, domain, rtype, UDP_PAYLOAD_SIZE, options) {
        Some(q) => Ok(q),
        None => Err(DnsError::InvalidName),
    }
}

/// Bounds the wrong way round are as good as the right way round.
pub proof fn law_bounds_commute(ttl: u64, a: u64, b: u64)
    ensures
        bounded_ttl(ttl, a, b) == bounded_ttl(ttl, b, a),
        a <= b ==> a <= bounded_ttl(ttl, a, b) <= b,
{
}

/// An answer without an address of the type asked for is kept for the time
/// set for empty answers, and any other within the bounds.
pub proof fn law_ttl_kept(
    header: Option<(u16, bool, u8)>,
    question: Option<(Seq<char>, u16)>,
    answers: Seq<Option<(u16, u32, Option<u32>, Option<u128>)>>,
    id: u16,
    qtype: u16,
    domain: Seq<char>,
    options: DnsOptions,
    r: Result<(Vec<IpAddress>, u64), DnsError>,
)
    requires
        judged_response(header, question, answers, id, qtype, domain, options, r),
        r is Ok,
        options.min_ttl <= options.max_ttl,
    ensures
        r matches Ok((ips, ttl)) && if ips@.len() == 0 {
            ttl == options.empty_ttl
        } else {
            options.min_ttl <= ttl <= options.max_ttl
        },
{
}

/// Every address in an answer is of the kind that was asked for.
pub proof fn law_addresses_of_kind(
    records: Seq<Option<(u16, u32, Option<u32>, Option<u128>)>>,
    qtype: u16,
    i: int,
)
    requires
        0 <= i < addresses(records, qtype).len(),
    ensures
        addresses(records, qtype)[i] is V4 <==> qtype == RTYPE_A,
        addresses(records, qtype)[i] is V6 <==> qtype == RTYPE_AAAA,
    decreases records.len(),
{
    let earlier = addresses(records.drop_last(), qtype);
    if i < earlier.len() {
        law_addresses_of_kind(records.drop_last(), qtype, i);
    }
}

} // verus!
