//! The rules that tell which targets are reached directly.
use crate::bypass::cidr;
use crate::bypass::cidr::{CidrError, IpCidrTable};
use crate::bypass::domain;
use crate::bypass::domain::{domain_to_fst_key, DomainFst, FstError};
use crate::chars;
use crate::ip;
use crate::ip::IpAddress;
use vstd::prelude::*;
use vstd::slice::slice_subrange;
use vstd::string::*;
use vstd::utf8::*;

verus! {

/// Where the rules are kept.
#[derive(Debug)]
pub struct BypassConfig {
    pub bypass_files: Vec<String>,
}

impl Default for BypassConfig {
    fn default() -> (r: Self)
        ensures
            r.bypass_files@.len() == 0,
    {
        BypassConfig { bypass_files: Vec::new() }
    }
}

/// The rules of one file.
#[derive(Debug)]
pub struct BypassFile {
    pub domain_suffix: Vec<String>,
    pub ip_cidr: Vec<String>,
}

/// The host of a target: what stands in square brackets in front, or before the
/// first colon.
pub open spec fn host_of(target: Seq<char>) -> Seq<char> {
    if target.len() > 0 && target[0] == '[' {
        let rest = target.skip(1);
        match rest.index_of_first(']') {
            Some(i) => rest.take(i),
            None => rest,
        }
    } else {
        match target.index_of_first(':') {
            Some(i) => target.take(i),
            None => target,
        }
    }
}

/// The host of a target.
pub fn extract_host(target: &str) -> (r: String)
    ensures
        r@ == host_of(target@),
{
    let all: Vec<char> = chars::chars_of(target);
    let total: usize = all.len();
    if total > 0 && all[0] == '[' {
        let rest = slice_subrange(&all, 1, total);
        proof {
            assert(rest@ =~= target@.skip(1));
        }
        return match chars::find_char(rest, ']') {
            Some(i) => {
                let host = slice_subrange(rest, 0, i);
                proof {
                    assert(host@ =~= rest@.take(i as int));
                }
                chars::string_from(host)
            },
            None => chars::string_from(rest),
        };
    }
    match chars::find_char(&all, ':') {
        Some(i) => {
            let host = slice_subrange(&all, 0, i);
            proof {
                assert(host@ =~= target@.take(i as int));
            }
            chars::string_from(host)
        },
        None => chars::string_from(&all),
    }
}

/// The keys of those of some domains that are more than dots.
pub open spec fn keys_of(domains: Seq<Seq<char>>) -> Set<Seq<u8>>
    decreases domains.len(),
{
    if domains.len() == 0 {
        Set::empty()
    } else {
        let name = domain::undotted(encode_utf8(domains.last()));
        let earlier = keys_of(domains.drop_last());
        if name.len() == 0 {
            earlier
        } else {
            earlier.insert(domain::domain_key(name))
        }
    }
}

/// The networks that some texts write, where they do.
pub open spec fn networks_of(cidrs: Seq<Seq<char>>) -> Set<(bool, u128, u8)>
    decreases cidrs.len(),
{
    if cidrs.len() == 0 {
        Set::empty()
    } else {
        let earlier = networks_of(cidrs.drop_last());
        match cidr::parsed_cidr(cidrs.last()) {
            Ok((base, prefix)) => earlier.insert(cidr::plain_network(base, prefix)),
            Err(_) => earlier,
        }
    }
}

/// All of the texts write networks.
pub open spec fn all_parse(cidrs: Seq<Seq<char>>) -> bool {
    forall|i: int| 0 <= i < cidrs.len() ==> #[trigger] cidr::parsed_cidr(cidrs[i]) is Ok
}

/// The characters of each text.
pub open spec fn text_views(texts: Seq<String>) -> Seq<Seq<char>> {
    texts.map_values(|t: String| t@)
}

/// The keys of the suffixes in some files.
pub open spec fn file_keys(files: Seq<(String, BypassFile)>) -> Set<Seq<u8>>
    decreases files.len(),
{
    if files.len() == 0 {
        Set::empty()
    } else {
        file_keys(files.drop_last()).union(keys_of(text_views(files.last().1.domain_suffix@)))
    }
}

/// The networks in some files.
pub open spec fn file_networks(files: Seq<(String, BypassFile)>) -> Set<(bool, u128, u8)>
    decreases files.len(),
{
    if files.len() == 0 {
        Set::empty()
    } else {
        file_networks(files.drop_last()).union(networks_of(text_views(files.last().1.ip_cidr@)))
    }
}

/// Why rules were refused.
#[derive(Debug)]
pub enum BypassLoadError {
    /// A network in a file is none.
    Network { path: String, cidr: String, error: CidrError },
    /// The suffixes could not be put together.
    Build(FstError),
}

impl BypassLoadError {
    /// The error in words.
    pub open spec fn text(self) -> Seq<char> {
        match self {
            BypassLoadError::Network { path, .. } => "in file "@ + path@,
            BypassLoadError::Build(_) => "fst insert domain key"@,
        }
    }

    /// The error in words.
    pub fn message(&self) -> (r: String)
        ensures
            r@ == self.text(),
    {
        match self {
            BypassLoadError::Network { path, .. } => {
                let mut out = String::from_str("in file ");
                out.append(path.as_str());
                out
            },
            BypassLoadError::Build(_) => String::from_str("fst insert domain key"),
        }
    }
}

/// The first network of the files that is none.
pub open spec fn is_first_bad(files: Seq<(String, BypassFile)>, f: int, i: int) -> bool {
    &&& 0 <= f < files.len()
    &&& 0 <= i < files[f].1.ip_cidr@.len()
    &&& forall|g: int| 0 <= g < f ==> all_parse(text_views((#[trigger] files[g]).1.ip_cidr@))
    &&& all_parse(text_views(files[f].1.ip_cidr@).take(i))
    &&& cidr::parsed_cidr(files[f].1.ip_cidr@[i]@) is Err
}

/// Whether rules of these suffixes and networks cover a target.
pub open spec fn bypasses(
    keys: Set<Seq<u8>>,
    networks: Set<(bool, u128, u8)>,
    target: Seq<char>,
) -> bool {
    let host = host_of(target);
    match ip::parsed_ip(host) {
        Some(ip) => cidr::covered(networks, ip),
        None => domain::suffix_in(keys, domain::undotted(encode_utf8(host))),
    }
}

/// Collects rules.
pub struct BypassRulesBuilder {
    domain_keys: Vec<Vec<u8>>,
    ip_table: IpCidrTable,
}

impl BypassRulesBuilder {
    /// The keys of the suffixes so far.
    pub closed spec fn keys(&self) -> Set<Seq<u8>> {
        domain::key_views(self.domain_keys@).to_set()
    }

    /// The networks so far.
    pub closed spec fn networks(&self) -> Set<(bool, u128, u8)> {
        self.ip_table.networks()
    }

    /// No key is empty.
    pub closed spec fn wf(&self) -> bool {
        forall|i: int|
            0 <= i < self.domain_keys@.len() ==> (#[trigger] self.domain_keys@[i])@.len() > 0
    }

    /// No rules.
    pub fn new() -> (r: Self)
        ensures
            r.wf(),
            r.keys() == Set::<Seq<u8>>::empty(),
            r.networks().is_empty(),
    {
        let r = BypassRulesBuilder { domain_keys: Vec::new(), ip_table: IpCidrTable::new() };
        proof {
            assert(r.keys() =~= Set::<Seq<u8>>::empty());
        }
        r
    }

    /// Adds a domain and everything under it. One of nothing but dots is ignored.
    pub fn add_domain(&mut self, domain: &str)
        requires
            old(self).wf(),
        ensures
            final(self).wf(),
            final(self).networks() == old(self).networks(),
            final(self).keys() == ({
                let name = domain::undotted(encode_utf8(domain@));
                if name.len() == 0 {
                    old(self).keys()
                } else {
                    old(self).keys().insert(domain::domain_key(name))
                }
            }),
    {
        match domain_to_fst_key(domain) {
            Some(key) => {
                let ghost before = domain::key_views(self.domain_keys@);
                self.domain_keys.push(key);
                proof {
                    assert(domain::key_views(self.domain_keys@) =~= before.push(key@));
                    assert(before.push(key@).to_set() =~= before.to_set().insert(key@)) by {
                        domain::lemma_push_contains(before, key@);
                    }
                }
            },
            None => {},
        }
    }

    /// Adds a network.
    pub fn add_cidr(&mut self, cidr: &str) -> (r: Result<(), CidrError>)
        requires
            old(self).wf(),
        ensures
            final(self).wf(),
            final(self).keys() == old(self).keys(),
            match cidr::parsed_cidr(cidr@) {
                Ok((base, prefix)) => r is Ok && final(self).networks()
                    == old(self).networks().insert(cidr::plain_network(base, prefix)),
                Err(e) => r == Err::<(), CidrError>(e) && final(self).networks()
                    == old(self).networks(),
            },
    {
        self.ip_table.insert_cidr(cidr)
    }

    /// Adds the rules of a file, up to the first network that is none.
    pub fn add_file(&mut self, file: &BypassFile) -> (r: Result<(), (usize, CidrError)>)
        requires
            old(self).wf(),
        ensures
            final(self).wf(),
            final(self).keys() == old(self).keys().union(keys_of(text_views(file.domain_suffix@))),
            match r {
                Ok(_) => all_parse(text_views(file.ip_cidr@)) && final(self).networks()
                    == old(self).networks().union(networks_of(text_views(file.ip_cidr@))),
                Err((i, e)) => i < file.ip_cidr@.len() && all_parse(
                    text_views(file.ip_cidr@).take(i as int),
                ) && cidr::parsed_cidr(file.ip_cidr@[i as int]@) == Err::<
                    (IpAddress, u8),
                    CidrError,
                >(e),
            },
    {
        let ghost domains = text_views(file.domain_suffix@);
        let ghost cidrs = text_views(file.ip_cidr@);
        let mut i: usize = 0;
        proof {
            assert(self.keys() =~= old(self).keys().union(keys_of(domains.take(0))));
        }
        while i < file.domain_suffix.len()
            invariant
                i <= file.domain_suffix@.len(),
                domains == text_views(file.domain_suffix@),
                self.wf(),
                self.networks() == old(self).networks(),
                self.keys() == old(self).keys().union(keys_of(domains.take(i as int))),
            decreases file.domain_suffix@.len() - i,
        {
            self.add_domain(file.domain_suffix[i].as_str());
            proof {
                assert(domains.take(i as int + 1).drop_last() =~= domains.take(i as int));
                assert(domains.take(i as int + 1).last() == file.domain_suffix@[i as int]@);
                assert(self.keys() =~= old(self).keys().union(keys_of(domains.take(i as int + 1))));
            }
            i = i + 1;
        }
        proof {
            assert(domains.take(i as int) =~= domains);
            assert(self.networks() =~= old(self).networks().union(networks_of(cidrs.take(0))));
        }
        let mut k: usize = 0;
        while k < file.ip_cidr.len()
            invariant
                k <= file.ip_cidr@.len(),
                cidrs == text_views(file.ip_cidr@),
                self.wf(),
                self.keys() == old(self).keys().union(keys_of(domains)),
                self.networks() == old(self).networks().union(networks_of(cidrs.take(k as int))),
                all_parse(cidrs.take(k as int)),
                domains == text_views(file.domain_suffix@),
            decreases file.ip_cidr@.len() - k,
        {
            match self.add_cidr(file.ip_cidr[k].as_str()) {
                Ok(_) => {},
                Err(e) => {
                    return Err((k, e));
                },
            }
            proof {
                let more = cidrs.take(k as int + 1);
                assert(more.drop_last() =~= cidrs.take(k as int));
                assert(more.last() == file.ip_cidr@[k as int]@);
                assert(self.networks() =~= old(self).networks().union(networks_of(more)));
                assert forall|j: int| 0 <= j < more.len() implies #[trigger] cidr::parsed_cidr(
                    more[j],
                ) is Ok by {
                    if j < k {
                        assert(cidr::parsed_cidr(cidrs.take(k as int)[j]) is Ok);
                    }
                }
            }
            k = k + 1;
        }
        proof {
            assert(cidrs.take(k as int) =~= cidrs);
        }
        Ok(())
    }

    /// The rules collected.
    pub fn build(self) -> (r: Result<BypassRules, FstError>)
        requires
            self.wf(),
        ensures
            r matches Ok(rules) && rules.keys() == self.keys() && rules.networks()
                == self.networks(),
    {
        let ip_table = self.ip_table;
        match DomainFst::from_keys(self.domain_keys) {
            Ok(domain_fst) => Ok(BypassRules { domain_fst, ip_table }),
            Err(e) => Err(e),
        }
    }
}

impl Default for BypassRulesBuilder {
    fn default() -> (r: Self)
        ensures
            r.wf(),
            r.keys() == Set::<Seq<u8>>::empty(),
            r.networks().is_empty(),
    {
        BypassRulesBuilder::new()
    }
}

/// Tells which targets are reached directly.
pub struct BypassRules {
    domain_fst: DomainFst,
    ip_table: IpCidrTable,
}

impl BypassRules {
    /// The keys of the suffixes.
    pub closed spec fn keys(&self) -> Set<Seq<u8>> {
        self.domain_fst.keys()
    }

    /// The networks.
    pub closed spec fn networks(&self) -> Set<(bool, u128, u8)> {
        self.ip_table.networks()
    }

    /// The rules of some files, each with its name.
    pub fn load(files: &[(String, BypassFile)]) -> (r: Result<Self, BypassLoadError>)
        ensures
            match r {
                Ok(rules) => rules.keys() == file_keys(files@) && rules.networks()
                    == file_networks(files@) && forall|f: int|
                    0 <= f < files@.len() ==> all_parse(
                        text_views((#[trigger] files@[f]).1.ip_cidr@),
                    ),
                Err(e) => exists|f: int, i: int|
                    #[trigger] is_first_bad(files@, f, i) && (e matches BypassLoadError::Network {
                        path,
                        cidr,
                        error,
                    } && path@ == files@[f].0@ && cidr@ == files@[f].1.ip_cidr@[i]@
                        && cidr::parsed_cidr(cidr@) == Err::<(IpAddress, u8), CidrError>(error)),
            },
    {
        let mut builder: BypassRulesBuilder = BypassRulesBuilder::new();
        let mut f: usize = 0;
        proof {
            assert(files@.take(0) =~= Seq::empty());
            assert(builder.networks() =~= Set::empty());
        }
        while f < files.len()
            invariant
                f <= files@.len(),
                builder.wf(),
                builder.keys() == file_keys(files@.take(f as int)),
                builder.networks() == file_networks(files@.take(f as int)),
                forall|g: int|
                    0 <= g < f ==> all_parse(text_views((#[trigger] files@[g]).1.ip_cidr@)),
            decreases files@.len() - f,
        {
            match builder.add_file(&files[f].1) {
                Ok(_) => {},
                Err((i, error)) => {
                    proof {
                        assert(is_first_bad(files@, f as int, i as int));
                    }
                    return Err(
                        BypassLoadError::Network {
                            path: String::from_str(files[f].0.as_str()),
                            cidr: String::from_str(files[f].1.ip_cidr[i].as_str()),
                            error,
                        },
                    );
                },
            }
            proof {
                assert(files@.take(f as int + 1).drop_last() =~= files@.take(f as int));
            }
            f = f + 1;
        }
        proof {
            assert(files@.take(f as int) =~= files@);
        }
        match builder.build() {
            Ok(rules) => Ok(rules),
            Err(e) => Err(BypassLoadError::Build(e)),
        }
    }

    /// Whether a domain is covered.
    pub fn match_domain(&self, domain: &str) -> (r: bool)
        ensures
            r == domain::suffix_in(self.keys(), domain::undotted(encode_utf8(domain@))),
    {
        self.domain_fst.matches(domain)
    }

    /// Whether an address is covered.
    pub fn match_ip(&self, ip: IpAddress) -> (r: bool)
        ensures
            r == cidr::covered(self.networks(), ip),
    {
        self.ip_table.contains(ip)
    }

    /// Whether a target is reached directly: its address by the networks, its
    /// name by the suffixes.
    pub fn should_bypass(&self, target: &str) -> (r: bool)
        ensures
            r == bypasses(self.keys(), self.networks(), target@),
    {
        let host: String = extract_host(target);
        match ip::parse_ip(host.as_str()) {
            Some(ip) => self.match_ip(ip),
            None => self.match_domain(host.as_str()),
        }
    }

    /// Whether there are no rules.
    pub fn is_empty(&self) -> (r: bool)
        ensures
            r == (self.keys().is_empty() && self.networks().is_empty()),
    {
        self.domain_fst.is_empty() && self.ip_table.is_empty()
    }
}

} // verus!
