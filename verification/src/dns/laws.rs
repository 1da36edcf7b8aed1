//! What holds of every name that is looked up and of every address that is tried.
use crate::chars;
use crate::dns::client;
use crate::dns::client::{
    init_dns, socks_address, CacheEntry, ConnectError, DnsClient, EyeballStep, HappyEyeballs,
    LookupStep,
};
use crate::dns::config::{complete_config, DnsConfig, DnsInitError, DnsOptions, Protocol};
use crate::dns::message;
use crate::dns::message::{build_query, judge_response, read_header, DnsError};
use crate::dns::transport::{
    frame_message, framed_len, DotAction, DotConnection, DotEvent, PendingQueries,
};
use crate::ip;
use crate::ip::IpAddress;
use crate::wire;
use vstd::prelude::*;
use vstd::string::*;

verus! {

/// A kept answer holds for its time, and is used for some more while it is asked for
/// anew; after that, and where none is kept, the resolver is asked. A clock that runs
/// backwards makes no answer old.
pub proof fn law_answers_grow_old(
    c: &DnsClient,
    e: &CacheEntry,
    now: u64,
    r: LookupStep,
    none: LookupStep,
)
    requires
        call_ensures(DnsClient::lookup, (c, Some(e), now), r),
        call_ensures(DnsClient::lookup, (c, None::<&CacheEntry>, now), none),
        e.ttl > 0,
    ensures
        r == LookupStep::Fresh <==> now < e.created_at + e.ttl,
        r == LookupStep::Stale <==> e.created_at + e.ttl <= now < e.created_at + e.ttl
            + c.options().swr_ttl,
        r == LookupStep::Query <==> now >= e.created_at + e.ttl + c.options().swr_ttl,
        none == LookupStep::Query,
{
}

/// Addresses are tried by turns, one of the preferred kind and one of the other, as long
/// as both last, and then what is left of the longer list.
pub proof fn law_addresses_take_turns(
    c: &DnsClient,
    v4: Vec<IpAddress>,
    v6: Vec<IpAddress>,
    first: Seq<IpAddress>,
    second: Seq<IpAddress>,
    i: int,
    r: Vec<IpAddress>,
)
    requires
        call_ensures(DnsClient::interleave_ips, (c, v4, v6), r),
        c.options().prefer_ipv6 ==> first == v6@ && second == v4@,
        !c.options().prefer_ipv6 ==> first == v4@ && second == v6@,
    ensures
        r@.len() == v4@.len() + v6@.len(),
        0 <= i < first.len() && i < second.len() ==> r@[2 * i] == first[i] && r@[2 * i + 1]
            == second[i],
        second.len() <= i < first.len() ==> r@[second.len() + i] == first[i],
        first.len() <= i < second.len() ==> r@[first.len() + i] == second[i],
{
    client::law_interleaving_keeps_all(first, second);
    lemma_interleaved(first, second, i);
}

proof fn lemma_interleaved(first: Seq<IpAddress>, second: Seq<IpAddress>, i: int)
    ensures
        0 <= i < first.len() && i < second.len() ==> client::interleaved(first, second)[2 * i]
            == first[i] && client::interleaved(first, second)[2 * i + 1] == second[i],
        second.len() <= i < first.len() ==> client::interleaved(first, second)[second.len() + i]
            == first[i],
        first.len() <= i < second.len() ==> client::interleaved(first, second)[first.len() + i]
            == second[i],
    decreases first.len(),
{
    if first.len() > 0 && second.len() > 0 && i > 0 {
        let rest = client::interleaved(first.skip(1), second.skip(1));
        client::law_interleaving_keeps_all(first, second);
        client::law_interleaving_keeps_all(first.skip(1), second.skip(1));
        lemma_interleaved(first.skip(1), second.skip(1), i - 1);
        let whole = client::interleaved(first, second);
        assert(whole == seq![first[0], second[0]] + rest);
        assert forall|k: int| 2 <= k < whole.len() implies whole[k] == #[trigger] rest[k - 2] by {}
        if i < first.len() && i < second.len() {
            assert(whole[2 * i] == rest[2 * i - 2]);
            assert(whole[2 * i + 1] == rest[2 * i - 1]);
        } else if second.len() <= i < first.len() {
            assert(whole[second.len() + i] == rest[second.len() + i - 2]);
        } else if first.len() <= i < second.len() {
            assert(whole[first.len() + i] == rest[first.len() + i - 2]);
        }
    }
}

/// A host with addresses is tried at all of them, at one of the preferred kind first,
/// where there is one. A host without any is reported.
pub proof fn law_every_address_is_tried(
    c: &DnsClient,
    host: &str,
    v4: Vec<IpAddress>,
    v6: Vec<IpAddress>,
    ip: IpAddress,
    r: Result<Vec<IpAddress>, ConnectError>,
)
    requires
        call_ensures(DnsClient::order_addresses, (c, host, Some(v4), Some(v6)), r),
    ensures
        r is Ok <==> v4@.len() > 0 || v6@.len() > 0,
        r is Ok ==> r->Ok_0@.len() == v4@.len() + v6@.len(),
        r is Ok ==> (r->Ok_0@.contains(ip) <==> v4@.contains(ip) || v6@.contains(ip)),
        r is Ok && c.options().prefer_ipv6 && v6@.len() > 0 ==> v6@.contains(r->Ok_0@[0]),
        r is Ok && !c.options().prefer_ipv6 && v4@.len() > 0 ==> v4@.contains(r->Ok_0@[0]),
        r is Err ==> (r->Err_0 matches ConnectError::NoRecords(h) && h@ == host@),
{
    if r is Ok {
        let ips = r->Ok_0@;
        let a = client::found(Some(v4));
        let b = client::found(Some(v6));
        if c.options().prefer_ipv6 {
            let (x, y) = choose|x: Seq<IpAddress>, y: Seq<IpAddress>|
                x.to_multiset() == a.to_multiset() && y.to_multiset() == b.to_multiset() && ips
                    == #[trigger] client::interleaved(y, x);
            lemma_tried(y, x, v6@, v4@, ip);
        } else {
            let (x, y) = choose|x: Seq<IpAddress>, y: Seq<IpAddress>|
                x.to_multiset() == a.to_multiset() && y.to_multiset() == b.to_multiset() && ips
                    == #[trigger] client::interleaved(x, y);
            lemma_tried(x, y, v4@, v6@, ip);
        }
    }
}

/// Lists of the same addresses in some order, tried by turns, hold them all.
proof fn lemma_tried(
    x: Seq<IpAddress>,
    y: Seq<IpAddress>,
    first: Seq<IpAddress>,
    second: Seq<IpAddress>,
    ip: IpAddress,
)
    requires
        x.to_multiset() == first.to_multiset(),
        y.to_multiset() == second.to_multiset(),
    ensures
        client::interleaved(x, y).len() == first.len() + second.len(),
        client::interleaved(x, y).contains(ip) <==> first.contains(ip) || second.contains(ip),
        first.len() > 0 ==> first.contains(client::interleaved(x, y)[0]),
{
    broadcast use vstd::seq_lib::group_to_multiset_ensures;

    let all = client::interleaved(x, y);
    client::law_interleaving_keeps_all(x, y);
    x.to_multiset_ensures();
    first.to_multiset_ensures();
    y.to_multiset_ensures();
    second.to_multiset_ensures();
    assert(x.len() == first.len());
    assert(y.len() == second.len());
    assert(all.to_multiset().count(ip) == first.to_multiset().count(ip)
        + second.to_multiset().count(ip));
    if first.len() > 0 {
        client::law_preferred_first(x, y);
        assert(x.contains(x[0]));
        assert(first.to_multiset().count(x[0]) > 0);
    }
}

/// The header of a message is its number in the first two bytes, the mark of truncation
/// in the third, and the code in the lower half of the fourth.
pub proof fn law_header_is_read(data: &[u8], r: Option<(u16, bool, u8)>)
    requires
        call_ensures(read_header, (data,), r),
    ensures
        r is Some <==> data@.len() >= 12,
        r is Some ==> {
            &&& r.unwrap().0 == data@[0] * 256 + data@[1]
            &&& r.unwrap().1 <==> data@[2] & 2 == 2
            &&& r.unwrap().2 == data@[3] & 15
        },
{
    if data@.len() >= 12 {
        let two = data@.take(2);
        assert(two.drop_last().drop_last() =~= Seq::empty());
        reveal_with_fuel(wire::be_value, 3);
        let a = data@[2];
        let b = data@[3];
        assert((a / 2u8) % 2u8 == 1u8 <==> a & 2u8 == 2u8) by (bit_vector);
        assert(b % 16u8 == b & 15u8) by (bit_vector);
    }
}

/// An answer is judged check by check: it must have a header, the number that was given,
/// the question that was asked, all of itself, and no error but that the name does not
/// exist.
pub proof fn law_answers_are_judged(
    header: Option<(u16, bool, u8)>,
    name: String,
    rtype: u16,
    answers: &[Option<(u16, u32, Option<u32>, Option<u128>)>],
    id: u16,
    qtype: u16,
    domain: &str,
    options: &DnsOptions,
    r: Result<(Vec<IpAddress>, u64), DnsError>,
)
    requires
        call_ensures(
            judge_response,
            (header, Some((name, rtype)), answers, id, qtype, domain, options),
            r,
        ),
        chars::ascii_lower_all(name@) == chars::ascii_lower_all(domain@),
        name@.len() == 0 || name@.last() != '.',
        domain@.len() == 0 || domain@.last() != '.',
    ensures
        header is None ==> r is Err && r->Err_0 is Invalid,
        header is Some ==> {
            let (got, truncated, rcode) = header->0;
            let asked = got == id && rtype == qtype;
            &&& got != id ==> r is Err && r->Err_0 == (DnsError::IdMismatch { expected: id, got })
            &&& got == id && rtype != qtype ==> r is Err && r->Err_0 is QuestionMismatch
            &&& asked && truncated ==> r is Err && r->Err_0 is Truncated
            &&& asked && !truncated && rcode == 3 ==> r is Ok && r->Ok_0.0@.len() == 0 && r->Ok_0.1
                == options.empty_ttl
            &&& asked && !truncated && rcode != 0 && rcode != 3 ==> r is Err && r->Err_0
                == DnsError::Rcode(rcode)
            &&& asked && !truncated && rcode == 0 ==> r is Ok
        },
{
    lemma_no_last_dots(name@);
    lemma_no_last_dots(domain@);
}

/// An answer to another question, or without one, is of no use.
pub proof fn law_other_questions_are_refused(
    header: Option<(u16, bool, u8)>,
    question: Option<(String, u16)>,
    answers: &[Option<(u16, u32, Option<u32>, Option<u128>)>],
    qtype: u16,
    domain: &str,
    options: &DnsOptions,
    r: Result<(Vec<IpAddress>, u64), DnsError>,
)
    requires
        header is Some,
        call_ensures(
            judge_response,
            (header, question, answers, header.unwrap().0, qtype, domain, options),
            r,
        ),
        question is Some ==> question.unwrap().0@.len() == 0 || question.unwrap().0@.last() != '.',
        domain@.len() == 0 || domain@.last() != '.',
        question is Some ==> chars::ascii_lower_all(question.unwrap().0@) != chars::ascii_lower_all(
            domain@,
        ),
    ensures
        question is None ==> r is Err && r->Err_0 is Question,
        question is Some ==> (r matches Err(DnsError::QuestionMismatch(d)) && d@ == domain@),
{
    if question is Some {
        lemma_no_last_dots(question.unwrap().0@);
    }
    lemma_no_last_dots(domain@);
}

proof fn lemma_no_last_dots(s: Seq<char>)
    requires
        s.len() == 0 || s.last() != '.',
    ensures
        message::without_last_dots(s) == s,
{
}

/// Dots behind a name make no other name of it.
pub proof fn law_last_dots_do_not_count(a: Seq<char>, b: Seq<char>, n: int)
    requires
        0 <= n <= b.len(),
        b.take(n) == a,
        forall|i: int| n <= i < b.len() ==> b[i] == '.',
    ensures
        message::same_name(a, b),
    decreases b.len(),
{
    if n < b.len() {
        assert(b.drop_last().take(n) =~= b.take(n));
        law_last_dots_do_not_count(a, b.drop_last(), n);
    } else {
        assert(b.take(n) =~= b);
    }
}

/// The answers that count are those of the type that was asked for, in their order: what
/// comes of two lists of records is what comes of the one and then of the other.
pub proof fn law_records_count_by_type(
    a: Seq<Option<(u16, u32, Option<u32>, Option<u128>)>>,
    b: Seq<Option<(u16, u32, Option<u32>, Option<u128>)>>,
    rtype: u16,
    ttl: u32,
    v4: Option<u32>,
    v6: Option<u128>,
    qtype: u16,
)
    ensures
        message::addresses(a + b, qtype) == message::addresses(a, qtype) + message::addresses(
            b,
            qtype,
        ),
        message::addresses(seq![None::<(u16, u32, Option<u32>, Option<u128>)>], qtype).len() == 0,
        ({
            let one = message::addresses(seq![Some((rtype, ttl, v4, v6))], qtype);
            &&& rtype != qtype ==> one.len() == 0
            &&& rtype == qtype && qtype == 1 && v4 is Some ==> one == seq![IpAddress::V4(v4->0)]
            &&& rtype == qtype && qtype == 28 && v6 is Some ==> one == seq![IpAddress::V6(v6->0)]
            &&& qtype == 1 && v4 is None ==> one.len() == 0
            &&& qtype == 28 && v6 is None ==> one.len() == 0
            &&& qtype != 1 && qtype != 28 ==> one.len() == 0
        }),
{
    lemma_addresses_join(a, b, qtype);
    let x = seq![Some((rtype, ttl, v4, v6))];
    let y = seq![None::<(u16, u32, Option<u32>, Option<u128>)>];
    assert(x.drop_last() =~= Seq::empty());
    assert(y.drop_last() =~= Seq::empty());
    reveal_with_fuel(message::addresses, 2);
}

proof fn lemma_addresses_join(
    a: Seq<Option<(u16, u32, Option<u32>, Option<u128>)>>,
    b: Seq<Option<(u16, u32, Option<u32>, Option<u128>)>>,
    qtype: u16,
)
    ensures
        message::addresses(a + b, qtype) == message::addresses(a, qtype) + message::addresses(
            b,
            qtype,
        ),
    decreases b.len(),
{
    if b.len() == 0 {
        assert(a + b =~= a);
        assert(message::addresses(a, qtype) + message::addresses(b, qtype) =~= message::addresses(
            a,
            qtype,
        ));
    } else {
        lemma_addresses_join(a, b.drop_last(), qtype);
        assert((a + b).drop_last() =~= a + b.drop_last());
        assert((a + b).last() == b.last());
    }
}

/// The time that counts is the least among the records of the type that was asked for,
/// and those of other types do not count.
pub proof fn law_least_time_counts(
    records: Seq<Option<(u16, u32, Option<u32>, Option<u128>)>>,
    qtype: u16,
    i: int,
)
    requires
        0 <= i < records.len(),
        records[i] is Some,
        records[i].unwrap().0 == qtype,
    ensures
        message::least_ttl(records, qtype) <= records[i].unwrap().1,
        exists|k: int|
            0 <= k < records.len() && (#[trigger] records[k]) is Some && records[k].unwrap().0 == qtype
                && records[k].unwrap().1 == message::least_ttl(records, qtype),
    decreases records.len(),
{
    lemma_least_ttl(records, qtype);
    assert(message::least_ttl(records, qtype) <= records[i].unwrap().1);
    if message::least_ttl(records, qtype) == u32::MAX {
        assert(records[i].unwrap().1 == message::least_ttl(records, qtype));
    }
}

proof fn lemma_least_ttl(
    records: Seq<Option<(u16, u32, Option<u32>, Option<u128>)>>,
    qtype: u16,
)
    ensures
        forall|i: int|
            0 <= i < records.len() && (#[trigger] records[i]) is Some && records[i].unwrap().0 == qtype
                ==> message::least_ttl(records, qtype) <= records[i].unwrap().1,
        message::least_ttl(records, qtype) < u32::MAX ==> exists|k: int|
            0 <= k < records.len() && (#[trigger] records[k]) is Some && records[k].unwrap().0 == qtype
                && records[k].unwrap().1 == message::least_ttl(records, qtype),
    decreases records.len(),
{
    if records.len() > 0 {
        let front = records.drop_last();
        lemma_least_ttl(front, qtype);
        assert forall|i: int|
            0 <= i < records.len() && (#[trigger] records[i]) is Some && records[i].unwrap().0
                == qtype implies message::least_ttl(records, qtype) <= records[i].unwrap().1 by {
            if i < front.len() {
                assert(front[i] == records[i]);
            }
        }
        let n = records.len() - 1;
        if message::least_ttl(records, qtype) < u32::MAX {
            if message::least_ttl(front, qtype) == message::least_ttl(records, qtype) {
                let k = choose|k: int|
                    0 <= k < front.len() && (#[trigger] front[k]) is Some && front[k].unwrap().0
                        == qtype && front[k].unwrap().1 == message::least_ttl(front, qtype);
                assert(records[k] == front[k]);
            } else {
                assert(records[n] == records.last());
            }
        }
    }
}

/// A time is kept as it is between the bounds, and brought to the nearer one outside.
pub proof fn law_times_are_bounded(ttl: u64, min: u64, max: u64)
    requires
        min <= max,
    ensures
        min <= ttl <= max ==> message::bounded_ttl(ttl, min, max) == ttl,
        ttl < min ==> message::bounded_ttl(ttl, min, max) == min,
        ttl > max ==> message::bounded_ttl(ttl, min, max) == max,
{
}

/// The digits of a number, cut behind the first of them, write the number without its
/// last digits.
proof fn lemma_high_digits(x: nat, n: nat, k: nat)
    requires
        x < wire::base_pow(n),
        k <= n,
    ensures
        wire::be_value(wire::be_bytes(x, n).take(k as int)) == x / wire::base_pow((n - k) as nat),
    decreases n,
{
    wire::lemma_be_bytes_len(x, n);
    if k == n {
        wire::law_be_roundtrip(x, n);
        assert(wire::be_bytes(x, n).take(n as int) =~= wire::be_bytes(x, n));
        assert(x / 1 == x);
    } else {
        let m = (n - 1) as nat;
        assert(x / 256 < wire::base_pow(m)) by (nonlinear_arith)
            requires
                x < 256 * wire::base_pow(m),
        ;
        lemma_high_digits(x / 256, m, k);
        wire::lemma_be_bytes_len(x / 256, m);
        assert(wire::be_bytes(x, n).take(k as int) =~= wire::be_bytes(x / 256, m).take(k as int));
        let d = wire::base_pow((m - k) as nat);
        lemma_base_pow_positive((m - k) as nat);
        vstd::arithmetic::div_mod::lemma_div_denominator(x as int, 256, d as int);
        assert(wire::base_pow((n - k) as nat) == 256 * d);
    }
}

proof fn lemma_base_pow_positive(n: nat)
    ensures
        wire::base_pow(n) > 0,
    decreases n,
{
    if n > 0 {
        lemma_base_pow_positive((n - 1) as nat);
    }
}

/// A query asks for recursion and for answers of 1232 bytes. It tells the resolver the
/// first twenty-four bits of an IPv4 client and the first fifty-six of an IPv6 client,
/// and nothing where there is no client.
pub proof fn law_query_tells_subnet(
    domain: &str,
    rtype: u16,
    client: Option<IpAddress>,
    id: u16,
    options: Seq<u8>,
    r: Result<Vec<u8>, DnsError>,
)
    requires
        call_ensures(build_query, (domain, rtype, client, id), r),
        client is None ==> options.len() == 0,
        client is Some && client->0 is V4 ==> {
            &&& options.len() == 11
            &&& options.take(8) == seq![0u8, 8, 0, 7, 0, 1, 24, 0]
            &&& wire::be_value(options.skip(8)) == client->0->V4_0 / 256
        },
        client is Some && client->0 is V6 ==> {
            &&& options.len() == 15
            &&& options.take(8) == seq![0u8, 8, 0, 11, 0, 2, 56, 0]
            &&& wire::be_value(options.skip(8)) == client->0->V6_0 / 0x100_0000_0000_0000_0000
        },
    ensures
        r is Ok <==> message::query_bytes(id, true, domain@, rtype, 1232, options) is Some,
        r is Ok ==> message::query_bytes(id, true, domain@, rtype, 1232, options) == Some(
            r->Ok_0@,
        ),
        r is Ok ==> r->Ok_0@.len() >= 12 && wire::be_value(r->Ok_0@.take(2)) == id,
{
    let told = message::told_subnet(client);
    reveal_with_fuel(wire::base_pow, 17);
    match client {
        None => {
            assert(told =~= options);
        },
        Some(IpAddress::V4(n)) => {
            lemma_high_digits(n as nat, 4, 3);
            wire::lemma_be_bytes_len(n as nat, 4);
            let bits = wire::be_bytes(n as nat, 4).take(3);
            assert(bits.len() == 3);
            lemma_digits_decide(bits, options.skip(8));
            assert(told =~= options.take(8) + options.skip(8));
            assert(options =~= options.take(8) + options.skip(8));
        },
        Some(IpAddress::V6(n)) => {
            lemma_high_digits(n as nat, 16, 7);
            wire::lemma_be_bytes_len(n as nat, 16);
            let bits = wire::be_bytes(n as nat, 16).take(7);
            assert(wire::base_pow(9) == 0x100_0000_0000_0000_0000);
            lemma_digits_decide(bits, options.skip(8));
            assert(told =~= options.take(8) + options.skip(8));
            assert(options =~= options.take(8) + options.skip(8));
        },
    }
}

/// Equally many digits that write the same number are the same digits.
proof fn lemma_digits_decide(a: Seq<u8>, b: Seq<u8>)
    requires
        a.len() == b.len(),
        wire::be_value(a) == wire::be_value(b),
    ensures
        a == b,
    decreases a.len(),
{
    if a.len() == 0 {
        assert(a =~= b);
    } else {
        assert(a.last() == b.last());
        lemma_digits_decide(a.drop_last(), b.drop_last());
        assert(a =~= a.drop_last().push(a.last()));
        assert(b =~= b.drop_last().push(b.last()));
    }
}

/// The address of a proxy is what stands behind either scheme, and anything else as it
/// is.
pub proof fn law_proxy_scheme_is_cut(url: &str, rest: Seq<char>, r: String)
    requires
        call_ensures(socks_address, (url,), r),
    ensures
        url@ == "socks5://"@ + rest ==> r@ == rest,
        url@ == "socks5h://"@ + rest ==> r@ == rest,
        (url@.len() < 9 || url@.take(9) != "socks5://"@) && (url@.len() < 10 || url@.take(10)
            != "socks5h://"@) ==> r@ == url@,
{
    reveal_strlit("socks5://");
    reveal_strlit("socks5h://");
    let u = url@;
    if u == "socks5://"@ + rest {
        assert("socks5://"@.is_prefix_of(u));
        assert(u.skip(9) =~= rest);
    }
    if u == "socks5h://"@ + rest {
        assert("socks5h://"@.is_prefix_of(u));
        assert(u.skip(10) =~= rest);
        if "socks5://"@.is_prefix_of(u) {
            assert(u[6] == "socks5://"@[6]);
        }
    }
    if "socks5://"@.is_prefix_of(u) {
        assert(u.take(9) =~= "socks5://"@);
    }
    if "socks5h://"@.is_prefix_of(u) {
        assert(u.take(10) =~= "socks5h://"@);
    }
}

/// Settings are of use where the least time does not exceed the greatest. TLS checks the
/// name that was set, or else the address of the resolver.
pub proof fn law_settings_are_completed(
    config: &mut DnsConfig,
    r: Result<(), DnsInitError>,
)
    requires
        call_ensures(complete_config, (config,), r),
    ensures
        r is Ok <==> old(config).options.min_ttl <= old(config).options.max_ttl,
        r is Err ==> r->Err_0 == (DnsInitError::TtlBounds {
            min_ttl: old(config).options.min_ttl,
            max_ttl: old(config).options.max_ttl,
        }),
        final(config).options == old(config).options,
        final(config).upstream == old(config).upstream,
        old(config).tls_domain is Some ==> final(config).tls_domain is Some && final(config).tls_domain->0@ == old(config).tls_domain->0@,
        old(config).tls_domain is None && old(config).options.protocol == Protocol::Dot ==> final(config).tls_domain is Some && final(config).tls_domain->0@ == ip::ip_text(
            old(config).upstream.ip,
        ),
        old(config).tls_domain is None && old(config).options.protocol == Protocol::Udp ==> final(config).tls_domain is None,
{
}

/// Name resolution starts where its bounds are the right way round, with the settings
/// that it was given; without a name to check, TLS does not.
pub proof fn law_resolution_starts(
    config: DnsConfig,
    bare: DnsConfig,
    r: Result<DnsClient, DnsInitError>,
    s: Result<DnsClient, DnsInitError>,
)
    requires
        call_ensures(init_dns, (config,), r),
        call_ensures(DnsClient::new, (bare,), s),
    ensures
        r is Ok <==> config.options.min_ttl <= config.options.max_ttl,
        r is Ok ==> r->Ok_0.options() == config.options,
        s is Ok <==> bare.options.protocol == Protocol::Udp || bare.tls_domain is Some,
        s is Ok ==> s->Ok_0.options() == bare.options,
        s is Err ==> s->Err_0 == DnsInitError::NoTlsDomain,
{
}

/// What is not set is: UDP, IPv4 first, 1024 kept answers and 1024 queries, times
/// between half a minute and an hour, an hour of use beyond, five minutes for empty
/// answers, and a quarter of a second between attempts.
pub proof fn law_default_options(r: DnsOptions)
    requires
        call_ensures(DnsOptions::default, (), r),
    ensures
        r.protocol == Protocol::Udp,
        !r.prefer_ipv6,
        r.cache_size == 1024,
        r.client_subnet is None,
        r.min_ttl == 30,
        r.max_ttl == 3600,
        r.swr_ttl == 3600,
        r.empty_ttl == 300,
        r.happy_eyeballs_delay_ms == 250,
        r.max_concurrent_queries == 1024,
{
}

/// The first address is tried at once; without any there is nothing to try.
pub proof fn law_attempts_begin(
    total: usize,
    r: Result<(HappyEyeballs, EyeballStep), ConnectError>,
)
    requires
        call_ensures(HappyEyeballs::begin, (total,), r),
    ensures
        r is Ok <==> total > 0,
        r is Ok ==> r->Ok_0.1 == EyeballStep::Connect(0) && (r->Ok_0).0.total() == total
            && (r->Ok_0).0.started() == 1 && (r->Ok_0).0.running() == 1 && !(r->Ok_0).0.exhausted(),
        r is Err ==> r->Err_0 is NoAddresses,
{
}

/// One attempt that succeeds is enough. All have failed when none is left to start and
/// none goes on.
pub proof fn law_one_success_is_enough(h: &mut HappyEyeballs, succeeded: bool, r: EyeballStep)
    requires
        call_ensures(HappyEyeballs::on_attempt, (h, succeeded), r),
        old(h).running() > 0,
    ensures
        r == EyeballStep::Connected <==> succeeded,
        r == EyeballStep::AllFailed <==> !succeeded && old(h).exhausted() && old(h).running() == 1,
        r == EyeballStep::Wait <==> !succeeded && !(old(h).exhausted() && old(h).running() == 1),
        final(h).running() + 1 == old(h).running(),
        final(h).started() == old(h).started(),
        final(h).exhausted() == old(h).exhausted(),
        final(h).total() == old(h).total(),
{
}

/// Each delay starts the attempt at the next address, until the last was started.
pub proof fn law_delays_start_attempts(h: &mut HappyEyeballs, r: EyeballStep)
    requires
        call_ensures(HappyEyeballs::on_delay, (h,), r),
    ensures
        old(h).started() < old(h).total() ==> {
            &&& r == EyeballStep::Connect(old(h).started() as usize)
            &&& final(h).started() == old(h).started() + 1
            &&& final(h).running() == old(h).running() + 1
            &&& !final(h).exhausted()
        },
        old(h).started() >= old(h).total() ==> {
            &&& final(h).exhausted()
            &&& final(h).started() == old(h).started()
            &&& final(h).running() == old(h).running()
            &&& r == EyeballStep::AllFailed <==> old(h).running() == 0
            &&& r == EyeballStep::Wait <==> old(h).running() > 0
        },
{
}

/// A number is given to one query at a time. It stands in the first two bytes of the
/// query, and the rest of the query stays.
pub proof fn law_numbers_are_written_in_front(
    q: &mut PendingQueries,
    id: u16,
    data: &mut Vec<u8>,
    r: bool,
)
    requires
        call_ensures(PendingQueries::try_register, (q, id, data), r),
        old(data)@.len() >= 2,
    ensures
        r <==> !old(q).ids().contains(id),
        final(q).ids().contains(id),
        r ==> final(q).ids() == old(q).ids().insert(id),
        r ==> final(data)@[0] * 256 + final(data)@[1] == id,
        r ==> final(data)@.len() == old(data)@.len() && final(data)@.skip(2) == old(data)@.skip(2),
        !r ==> final(data)@ == old(data)@ && final(q).ids() == old(q).ids(),
{
    wire::lemma_be_bytes_len(id as nat, 2);
    reveal_with_fuel(wire::be_bytes, 3);
    if r {
        assert(final(data)@.skip(2) =~= old(data)@.skip(2));
    }
}

/// A message answers the query whose number it has in front, once.
pub proof fn law_messages_answer_once(q: &mut PendingQueries, data: &[u8], r: Option<u16>)
    requires
        call_ensures(PendingQueries::on_message, (q, data), r),
    ensures
        data@.len() < 2 ==> r is None,
        data@.len() >= 2 ==> {
            let id = (data@[0] * 256 + data@[1]) as u16;
            &&& old(q).ids().contains(id) ==> r == Some(id) && final(q).ids() == old(q).ids().remove(
                id,
            )
            &&& !old(q).ids().contains(id) ==> r is None
        },
        r is None ==> final(q).ids() == old(q).ids(),
{
    if data@.len() >= 2 {
        let two = data@.take(2);
        assert(two.drop_last().drop_last() =~= Seq::empty());
        reveal_with_fuel(wire::be_value, 3);
        assert(wire::be_value(two) == data@[0] * 256 + data@[1]);
    }
}

/// Giving a query up frees its number and no other; giving all up frees every one.
pub proof fn law_forgotten_numbers_are_free(
    q: &mut PendingQueries,
    p: &mut PendingQueries,
    id: u16,
    other: u16,
)
    requires
        call_ensures(PendingQueries::forget, (q, id), ()),
        call_ensures(PendingQueries::forget_all, (p,), ()),
    ensures
        !final(q).ids().contains(id),
        other != id ==> (final(q).ids().contains(other) <==> old(q).ids().contains(other)),
        !final(p).ids().contains(other),
{
}

/// A message goes over a stream behind its length in two bytes, from which it is read.
pub proof fn law_messages_are_framed(data: &[u8], prefix: &[u8; 2], r: Vec<u8>, n: usize)
    requires
        call_ensures(frame_message, (data,), r),
        data@.len() <= 0xffff,
        prefix@ == r@.take(2),
        call_ensures(framed_len, (prefix,), n),
    ensures
        r@.len() == 2 + data@.len(),
        r@[0] * 256 + r@[1] == data@.len(),
        r@.skip(2) == data@,
        n == data@.len(),
{
    wire::lemma_be_bytes_len(data@.len(), 2);
    wire::lemma_base_pow_values();
    wire::law_be_roundtrip(data@.len(), 2);
    reveal_with_fuel(wire::be_bytes, 3);
    assert(r@.take(2) =~= wire::be_bytes(data@.len(), 2));
    assert(r@.skip(2) =~= data@);
}

/// A query is written where there is a connection, and one is made where there is none.
/// A connection that fails takes every query with it, and one that cannot be made only
/// the query that it was for.
pub proof fn law_connections_are_made_when_needed(
    c: &mut DotConnection,
    event: DotEvent,
    r: DotAction,
)
    requires
        call_ensures(DotConnection::on_event, (c, event), r),
    ensures
        event is Query && old(c).connected() ==> r == (DotAction::Write { id: event->Query_id }),
        event is Query && !old(c).connected() ==> r == (DotAction::Connect { id: event->Query_id }),
        event is Connected ==> r == (DotAction::Write { id: event->Connected_id }),
        event is ConnectFailed ==> r is FailOne && r->FailOne_id == event->ConnectFailed_id,
        event is Written ==> r is Wait,
        r is FailAll <==> event is WriteFailed || event is ReaderEnded,
        final(c).connected() <==> event is Connected || (old(c).connected() && !(event is WriteFailed
            || event is ReaderEnded)),
{
}

} // verus!
