//! What is kept of answers, and which address of a host is tried when.
use crate::chars;
use crate::dns::config;
use crate::dns::config::{DnsConfig, DnsInitError, DnsOptions, Protocol};
use crate::dns::message;
use crate::dns::message::DnsError;
use crate::ip::IpAddress;
use vstd::prelude::*;
use vstd::slice::slice_subrange;
use vstd::string::*;

verus! {

/// An answer that is kept: since when, and for how many seconds.
#[derive(Debug)]
pub struct CacheEntry {
    pub ips: Vec<IpAddress>,
    pub created_at: u64,
    pub ttl: u64,
}

/// What to do about a name that is looked up.
#[derive(Debug, Clone, Copy, PartialEq, Eq, Structural)]
pub enum LookupStep {
    /// The kept answer holds.
    Fresh,
    /// The kept answer is used once more, and may be asked for anew in the background.
    Stale,
    /// The resolver is asked.
    Query,
}

/// What to do about a name whose answer was kept at `created_at` for `ttl`
/// seconds, and may be used for another `swr` seconds meanwhile.
pub open spec fn lookup_step(created_at: u64, ttl: u64, swr: u64, now: u64) -> LookupStep {
    let age = if now >= created_at {
        now - created_at
    } else {
        0
    };
    if age < ttl {
        LookupStep::Fresh
    } else if age < ttl + swr {
        LookupStep::Stale
    } else {
        LookupStep::Query
    }
}

/// The order in which addresses are tried: by turns one of each kind, beginning
/// with the preferred kind, and the rest of the longer list at the end.
pub open spec fn interleaved(first: Seq<IpAddress>, second: Seq<IpAddress>) -> Seq<IpAddress>
    decreases first.len(),
{
    if first.len() == 0 {
        second
    } else if second.len() == 0 {
        first
    } else {
        seq![first[0], second[0]] + interleaved(first.skip(1), second.skip(1))
    }
}

/// Every address is tried, none of them more often than it is listed.
pub proof fn law_interleaving_keeps_all(first: Seq<IpAddress>, second: Seq<IpAddress>)
    ensures
        interleaved(first, second).to_multiset() == first.to_multiset().add(second.to_multiset()),
        interleaved(first, second).len() == first.len() + second.len(),
    decreases first.len(),
{
    broadcast use vstd::seq_lib::group_to_multiset_ensures;

    if first.len() == 0 {
        assert(first =~= Seq::empty());
        assert(interleaved(first, second).to_multiset() =~= first.to_multiset().add(
            second.to_multiset(),
        ));
    } else if second.len() == 0 {
        assert(second =~= Seq::empty());
        assert(interleaved(first, second).to_multiset() =~= first.to_multiset().add(
            second.to_multiset(),
        ));
    } else {
        law_interleaving_keeps_all(first.skip(1), second.skip(1));
        let rest = interleaved(first.skip(1), second.skip(1));
        let pair = seq![first[0], second[0]];
        vstd::seq_lib::lemma_multiset_commutative(pair, rest);
        vstd::seq_lib::lemma_multiset_commutative(seq![first[0]], first.skip(1));
        vstd::seq_lib::lemma_multiset_commutative(seq![second[0]], second.skip(1));
        vstd::seq_lib::lemma_multiset_commutative(seq![first[0]], seq![second[0]]);
        assert(seq![first[0]] + seq![second[0]] =~= pair);
        assert(seq![first[0]] + first.skip(1) =~= first);
        assert(seq![second[0]] + second.skip(1) =~= second);
        assert(interleaved(first, second).to_multiset() =~= first.to_multiset().add(
            second.to_multiset(),
        ));
    }
}

/// The first address tried is of the preferred kind, where there is one.
pub proof fn law_preferred_first(first: Seq<IpAddress>, second: Seq<IpAddress>)
    requires
        first.len() > 0,
    ensures
        interleaved(first, second)[0] == first[0],
{
}

/// `rand::seq::SliceRandom::shuffle` with the thread's generator: the same
/// addresses in some order.
#[verifier::external_body]
fn shuffle(ips: &mut Vec<IpAddress>)
    ensures
        final(ips)@.to_multiset() == old(ips)@.to_multiset(),
{
    rand::seq::SliceRandom::shuffle(ips.as_mut_slice(), &mut rand::rng())
}

/// A text that may be missing, as it is shown to developers.
pub uninterp spec fn debug_text(s: Option<Seq<char>>) -> Seq<char>;

/// `Debug` of an `Option<String>`.
#[verifier::external_body]
fn debug_words(s: &Option<String>) -> (r: String)
    ensures
        r@ == debug_text(
            (match s {
                Some(t) => Some(t@),
                None => None,
            }),
        ),
{
    format!("{s:?}")
}

/// Why a host could not be connected to.
#[derive(Debug)]
pub enum ConnectError {
    /// The host has no address.
    NoRecords(String),
    /// There is no address to try.
    NoAddresses,
    /// Every attempt failed.
    AllFailed(Option<String>),
}

impl ConnectError {
    /// The error in words.
    pub open spec fn text(self) -> Seq<char> {
        match self {
            ConnectError::NoRecords(host) => "DNS resolution failed for "@ + host@
                + ": no A/AAAA records found"@,
            ConnectError::NoAddresses => "no IPs to connect"@,
            ConnectError::AllFailed(proxy) => "all connection attempts failed (via proxy: "@
                + debug_text(
                (match proxy {
                    Some(p) => Some(p@),
                    None => None,
                }),
            ) + ")"@,
        }
    }

    /// The error in words.
    pub fn message(&self) -> (r: String)
        ensures
            r@ == self.text(),
    {
        match self {
            ConnectError::NoRecords(host) => {
                let mut out = String::from_str("DNS resolution failed for ");
                out.append(host.as_str());
                out.append(": no A/AAAA records found");
                out
            },
            ConnectError::NoAddresses => String::from_str("no IPs to connect"),
            ConnectError::AllFailed(proxy) => {
                let mut out = String::from_str("all connection attempts failed (via proxy: ");
                out.append(debug_words(proxy).as_str());
                out.append(")");
                proof {
                    assert(out@ =~= self.text());
                }
                out
            },
        }
    }
}

/// Looks names up and orders addresses, as its settings say.
pub struct DnsClient {
    config: DnsConfig,
}

impl DnsClient {
    /// The settings.
    pub closed spec fn options(&self) -> DnsOptions {
        self.config.options
    }

    /// A client with these settings. TLS needs a name to check.
    pub fn new(config: DnsConfig) -> (r: Result<Self, DnsInitError>)
        ensures
            if config.options.protocol == Protocol::Dot && config.tls_domain is None {
                r == Err::<Self, DnsInitError>(DnsInitError::NoTlsDomain)
            } else {
                r matches Ok(c) && c.options() == config.options
            },
    {
        if config.options.protocol == Protocol::Dot && config.tls_domain.is_none() {
            return Err(DnsInitError::NoTlsDomain);
        }
        Ok(DnsClient { config })
    }

    /// What to do about a name, by what is kept of it.
    pub fn lookup(&self, entry: Option<&CacheEntry>, now: u64) -> (r: LookupStep)
        requires
            entry matches Some(e) ==> e.ttl + self.options().swr_ttl <= u64::MAX,
        ensures
            r == (match entry {
                Some(e) => lookup_step(e.created_at, e.ttl, self.options().swr_ttl, now),
                None => LookupStep::Query,
            }),
    {
        match entry {
            None => LookupStep::Query,
            Some(e) => {
                let age: u64 = now.saturating_sub(e.created_at);
                if age < e.ttl {
                    LookupStep::Fresh
                } else if age < e.ttl + self.config.options.swr_ttl {
                    LookupStep::Stale
                } else {
                    LookupStep::Query
                }
            },
        }
    }

    /// Writes a query for a name.
    pub fn build_query(&self, domain: &str, rtype: u16, client: Option<IpAddress>, id: u16) -> (r:
        Result<Vec<u8>, DnsError>)
        ensures
            match message::query_bytes(
                id,
                true,
                domain@,
                rtype,
                message::UDP_PAYLOAD_SIZE,
                message::told_subnet(client),
            ) {
                Some(bytes) => r matches Ok(q) && q@ == bytes && q@.len()
                    >= message::DNS_HEADER_LEN && crate::wire::be_value(q@.take(2)) == id,
                None => r matches Err(DnsError::InvalidName),
            },
    {
        message::build_query(domain, rtype, client, id)
    }

    /// Reads what an answer says of a name.
    pub fn parse_response(&self, data: &[u8], id: u16, qtype: u16, domain: &str) -> (r: Result<
        (Vec<IpAddress>, u64),
        DnsError,
    >)
        ensures
            message::judged_response(
                message::header_of(data@),
                message::message_question(data@),
                message::message_answers(data@),
                id,
                qtype,
                domain@,
                self.options(),
                r,
            ),
    {
        message::parse_response(data, id, qtype, domain, &self.config.options)
    }

    /// The order in which addresses are tried.
    pub fn interleave_ips(&self, v4: Vec<IpAddress>, v6: Vec<IpAddress>) -> (r: Vec<IpAddress>)
        ensures
            r@ == (if self.options().prefer_ipv6 {
                interleaved(v6@, v4@)
            } else {
                interleaved(v4@, v6@)
            }),
    {
        let (first, second): (Vec<IpAddress>, Vec<IpAddress>) = if self.config.options.prefer_ipv6 {
            (v6, v4)
        } else {
            (v4, v6)
        };
        let mut r: Vec<IpAddress> = Vec::new();
        let mut i: usize = 0;
        let ghost whole = interleaved(first@, second@);
        proof {
            assert(first@.skip(0) =~= first@);
            assert(second@.skip(0) =~= second@);
            assert(r@ + whole =~= whole);
        }
        while i < first.len() && i < second.len()
            invariant
                i <= first@.len(),
                i <= second@.len(),
                r@ + interleaved(first@.skip(i as int), second@.skip(i as int)) == whole,
            decreases first@.len() - i,
        {
            let ghost before = r@;
            r.push(first[i]);
            r.push(second[i]);
            proof {
                let a = first@.skip(i as int);
                let b = second@.skip(i as int);
                assert(a.skip(1) =~= first@.skip(i as int + 1));
                assert(b.skip(1) =~= second@.skip(i as int + 1));
                let rest = interleaved(a.skip(1), b.skip(1));
                assert(r@ + rest =~= before + (seq![a[0], b[0]] + rest));
            }
            i = i + 1;
        }
        let ghost a = first@.skip(i as int);
        let ghost b = second@.skip(i as int);
        proof {
            assert(interleaved(a, b) =~= a + b);
        }
        let tail_first = slice_subrange(first.as_slice(), i, first.len());
        let tail_second = slice_subrange(second.as_slice(), i, second.len());
        let ghost before = r@;
        push_all(&mut r, tail_first);
        push_all(&mut r, tail_second);
        proof {
            assert(tail_first@ =~= a);
            assert(tail_second@ =~= b);
            assert(r@ =~= before + (a + b));
        }
        r
    }

    /// The addresses of a host in the order in which they are tried, from what
    /// came of looking up either kind. Those of one kind stand in a random order.
    pub fn order_addresses(
        &self,
        host: &str,
        v4: Option<Vec<IpAddress>>,
        v6: Option<Vec<IpAddress>>,
    ) -> (r: Result<Vec<IpAddress>, ConnectError>)
        ensures
            ({
                let a = found(v4);
                let b = found(v6);
                if a.len() == 0 && b.len() == 0 {
                    r matches Err(ConnectError::NoRecords(h)) && h@ == host@
                } else {
                    &&& r matches Ok(ips)
                    &&& exists|x: Seq<IpAddress>, y: Seq<IpAddress>|
                        x.to_multiset() == a.to_multiset() && y.to_multiset() == b.to_multiset()
                            && ips@ == (if self.options().prefer_ipv6 {
                            #[trigger] interleaved(y, x)
                        } else {
                            interleaved(x, y)
                        })
                }
            }),
    {
        let mut a: Vec<IpAddress> = match v4 {
            Some(ips) => ips,
            None => Vec::new(),
        };
        let mut b: Vec<IpAddress> = match v6 {
            Some(ips) => ips,
            None => Vec::new(),
        };
        proof {
            assert(a@ =~= found(v4));
            assert(b@ =~= found(v6));
        }
        if a.len() == 0 && b.len() == 0 {
            return Err(ConnectError::NoRecords(String::from_str(host)));
        }
        shuffle(&mut a);
        shuffle(&mut b);
        let ghost x = a@;
        let ghost y = b@;
        let ips: Vec<IpAddress> = self.interleave_ips(a, b);
        proof {
            let forth = interleaved(x, y);
            let back = interleaved(y, x);
            assert(ips@ == (if self.options().prefer_ipv6 {
                back
            } else {
                forth
            }));
        }
        Ok(ips)
    }
}

/// What a lookup found; nothing where it failed.
pub open spec fn found(ips: Option<Vec<IpAddress>>) -> Seq<IpAddress> {
    match ips {
        Some(v) => v@,
        None => Seq::empty(),
    }
}

fn push_all(out: &mut Vec<IpAddress>, ips: &[IpAddress])
    ensures
        final(out)@ == old(out)@ + ips@,
{
    let mut i: usize = 0;
    proof {
        assert(out@ =~= old(out)@ + ips@.take(0));
    }
    while i < ips.len()
        invariant
            i <= ips@.len(),
            out@ == old(out)@ + ips@.take(i as int),
        decreases ips@.len() - i,
    {
        out.push(ips[i]);
        proof {
            assert(out@ =~= old(out)@ + ips@.take(i as int + 1));
        }
        i = i + 1;
    }
    proof {
        assert(ips@.take(i as int) =~= ips@);
    }
}

/// Completes the settings, checks them, and makes a client of them.
pub fn init_dns(config: DnsConfig) -> (r: Result<DnsClient, DnsInitError>)
    ensures
        if config.options.min_ttl > config.options.max_ttl {
            r == Err::<DnsClient, DnsInitError>(
                DnsInitError::TtlBounds {
                    min_ttl: config.options.min_ttl,
                    max_ttl: config.options.max_ttl,
                },
            )
        } else {
            r matches Ok(c) && c.options() == config.options
        },
{
    let mut completed: DnsConfig = config;
    match config::complete_config(&mut completed) {
        Ok(_) => DnsClient::new(completed),
        Err(e) => Err(e),
    }
}

/// What to do next about the attempts to connect.
#[derive(Debug, Clone, Copy, PartialEq, Eq, Structural)]
pub enum EyeballStep {
    /// Try the address at this place of the list, and start the delay anew.
    Connect(usize),
    /// Wait for an attempt or for the delay.
    Wait,
    /// Stop: one attempt succeeded.
    Connected,
    /// Stop: every attempt failed.
    AllFailed,
}

/// Attempts to connect to the addresses of a host, one started after the other
/// with a delay between, all going on side by side.
pub struct HappyEyeballs {
    total: usize,
    started: usize,
    running: usize,
    all_started: bool,
}

impl HappyEyeballs {
    /// How many addresses there are.
    pub closed spec fn total(&self) -> nat {
        self.total as nat
    }

    /// How many were tried.
    pub closed spec fn started(&self) -> nat {
        self.started as nat
    }

    /// How many attempts go on.
    pub closed spec fn running(&self) -> nat {
        self.running as nat
    }

    /// Whether the delay ran out after the last address.
    pub closed spec fn exhausted(&self) -> bool {
        self.all_started
    }

    /// Addresses are tried in order, and each at most once.
    pub open spec fn wf(&self) -> bool {
        &&& 0 < self.started() <= self.total() <= usize::MAX
        &&& self.running() <= self.started()
        &&& self.exhausted() ==> self.started() == self.total()
    }

    /// Begins with the first of `total` addresses.
    pub fn begin(total: usize) -> (r: Result<(Self, EyeballStep), ConnectError>)
        ensures
            if total == 0 {
                r matches Err(ConnectError::NoAddresses)
            } else {
                r matches Ok((h, step)) && h.wf() && h.total() == total && h.started() == 1
                    && h.running() == 1 && !h.exhausted() && step == EyeballStep::Connect(0)
            },
    {
        if total == 0 {
            return Err(ConnectError::NoAddresses);
        }
        Ok(
            (
                HappyEyeballs { total, started: 1, running: 1, all_started: false },
                EyeballStep::Connect(0),
            ),
        )
    }

    /// An attempt is over.
    pub fn on_attempt(&mut self, succeeded: bool) -> (r: EyeballStep)
        requires
            old(self).wf(),
            old(self).running() > 0,
        ensures
            final(self).wf(),
            final(self).total() == old(self).total(),
            final(self).started() == old(self).started(),
            final(self).running() == old(self).running() - 1,
            final(self).exhausted() == old(self).exhausted(),
            r == (if succeeded {
                EyeballStep::Connected
            } else if old(self).exhausted() && final(self).running() == 0 {
                EyeballStep::AllFailed
            } else {
                EyeballStep::Wait
            }),
    {
        self.running = self.running - 1;
        if succeeded {
            EyeballStep::Connected
        } else if self.all_started && self.running == 0 {
            EyeballStep::AllFailed
        } else {
            EyeballStep::Wait
        }
    }

    /// The delay ran out.
    pub fn on_delay(&mut self) -> (r: EyeballStep)
        requires
            old(self).wf(),
            !old(self).exhausted(),
        ensures
            final(self).wf(),
            final(self).total() == old(self).total(),
            if old(self).started() < old(self).total() {
                &&& r == EyeballStep::Connect(old(self).started() as usize)
                &&& final(self).started() == old(self).started() + 1
                &&& final(self).running() == old(self).running() + 1
                &&& !final(self).exhausted()
            } else {
                &&& r == (if old(self).running() == 0 {
                    EyeballStep::AllFailed
                } else {
                    EyeballStep::Wait
                })
                &&& final(self).started() == old(self).started()
                &&& final(self).running() == old(self).running()
                &&& final(self).exhausted()
            },
    {
        if self.started < self.total {
            let index: usize = self.started;
            self.started = self.started + 1;
            self.running = self.running + 1;
            return EyeballStep::Connect(index);
        }
        self.all_started = true;
        if self.running == 0 {
            EyeballStep::AllFailed
        } else {
            EyeballStep::Wait
        }
    }
}

/// `url` without `prefix`, where it begins with it.
pub open spec fn after_prefix(url: Seq<char>, prefix: Seq<char>) -> Option<Seq<char>> {
    if prefix.is_prefix_of(url) {
        Some(url.skip(prefix.len() as int))
    } else {
        None
    }
}

/// The address of a SOCKS proxy, without the scheme in front.
pub open spec fn proxy_address(url: Seq<char>) -> Seq<char> {
    match after_prefix(url, "socks5://"@) {
        Some(rest) => rest,
        None => match after_prefix(url, "socks5h://"@) {
            Some(rest) => rest,
            None => url,
        },
    }
}

fn strip_prefix(url: &[char], prefix: &str) -> (r: Option<String>)
    ensures
        match after_prefix(url@, prefix@) {
            Some(rest) => r matches Some(s) && s@ == rest,
            None => r is None,
        },
{
    let lead: Vec<char> = chars::chars_of(prefix);
    let total: usize = url.len();
    if total < lead.len() {
        return None;
    }
    let front = slice_subrange(url, 0, lead.len());
    proof {
        assert(front@ =~= url@.take(prefix@.len() as int));
        assert(prefix@.is_prefix_of(url@) <==> front@ == prefix@) by {
            if prefix@.is_prefix_of(url@) {
                assert(front@ =~= prefix@);
            }
        }
    }
    if !chars::same_chars(front, &lead) {
        return None;
    }
    let rest = slice_subrange(url, lead.len(), total);
    proof {
        assert(rest@ =~= url@.skip(prefix@.len() as int));
    }
    Some(chars::string_from(rest))
}

/// The address of a SOCKS proxy, without the scheme in front.
pub fn socks_address(url: &str) -> (r: String)
    ensures
        r@ == proxy_address(url@),
{
    let all: Vec<char> = chars::chars_of(url);
    match strip_prefix(&all, "socks5://") {
        Some(rest) => rest,
        None => match strip_prefix(&all, "socks5h://") {
            Some(rest) => rest,
            None => String::from_str(url),
        },
    }
}

} // verus!
