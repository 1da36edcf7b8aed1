//! Tries of labels and of bits: the two kinds of rules in a form that takes new
//! ones at any time.
use crate::chars;
use crate::ip;
use crate::ip::IpAddress;
use vstd::arithmetic::power2::pow2;
use vstd::prelude::*;
use vstd::slice::{slice_subrange, slice_to_vec};

verus! {

/// Whether every item is zero or one.
pub open spec fn all_bits(bits: Seq<u8>) -> bool {
    forall|i: int| 0 <= i < bits.len() ==> #[trigger] bits[i] <= 1
}

/// A node of a trie of bits. It stands for a prefix.
#[derive(Debug)]
pub struct IpTrieNode {
    zero: Option<Box<IpTrieNode>>,
    one: Option<Box<IpTrieNode>>,
    is_terminal: bool,
}

impl Default for IpTrieNode {
    /// A trie that holds nothing.
    fn default() -> (r: Self)
        ensures
            forall|bits: Seq<u8>| !(#[trigger] r.covers(bits)),
    {
        IpTrieNode { zero: None, one: None, is_terminal: false }
    }
}

impl IpTrieNode {
    /// Whether a prefix of `bits` was inserted.
    pub closed spec fn covers(&self, bits: Seq<u8>) -> bool
        decreases self,
    {
        if self.is_terminal {
            true
        } else if bits.len() == 0 {
            false
        } else if bits[0] == 0 {
            match &self.zero {
                Some(child) => child.covers(bits.skip(1)),
                None => false,
            }
        } else {
            match &self.one {
                Some(child) => child.covers(bits.skip(1)),
                None => false,
            }
        }
    }

    /// Inserts what stands behind `pos` in `bits`.
    fn insert_behind(&mut self, bits: &[u8], pos: usize)
        requires
            pos <= bits@.len(),
            all_bits(bits@),
        ensures
            forall|b: Seq<u8>|
                all_bits(b) ==> #[trigger] final(self).covers(b) == (old(self).covers(b)
                    || bits@.skip(pos as int).is_prefix_of(b)),
        decreases bits@.len() - pos,
    {
        let ghost before = *self;
        let ghost rest = bits@.skip(pos as int);
        if pos == bits.len() {
            self.is_terminal = true;
            self.zero = None;
            self.one = None;
            return ;
        }
        let bit: u8 = bits[pos];
        let slot = if bit == 0 {
            self.zero.take()
        } else {
            self.one.take()
        };
        let ghost below = slot;
        let mut child = match slot {
            Some(child) => child,
            None => Box::new(IpTrieNode::default()),
        };
        if !child.is_terminal {
            child.insert_behind(bits, pos + 1);
        }
        let ghost after = *child;
        if bit == 0 {
            self.zero = Some(child);
        } else {
            self.one = Some(child);
        }
        proof {
            let tail = bits@.skip(pos as int + 1);
            assert(rest[0] == bit);
            assert(rest.skip(1) =~= tail);
            assert forall|b: Seq<u8>| all_bits(b) implies #[trigger] self.covers(b) == (
            before.covers(b) || rest.is_prefix_of(b)) by {
                if b.len() > 0 {
                    let t = b.skip(1);
                    assert(b[0] <= 1);
                    assert(all_bits(t)) by {
                        assert forall|i: int| 0 <= i < t.len() implies #[trigger] t[i] <= 1 by {
                            assert(t[i] == b[i + 1]);
                        }
                    }
                    assert(rest.is_prefix_of(b) <==> (b[0] == bit && tail.is_prefix_of(t))) by {
                        if b[0] == bit && tail.is_prefix_of(t) {
                            assert(rest =~= b.take(rest.len() as int)) by {
                                assert forall|i: int| 0 <= i < rest.len() implies rest[i] == b[i] by {
                                    if i > 0 {
                                        assert(rest[i] == tail[i - 1]);
                                        assert(tail[i - 1] == t[i - 1]);
                                    }
                                }
                            }
                        }
                        if rest.is_prefix_of(b) {
                            assert(b[0] == rest[0]);
                            assert(tail =~= t.take(tail.len() as int)) by {
                                assert forall|i: int| 0 <= i < tail.len() implies tail[i] == t[i] by {
                                    assert(rest[i + 1] == b[i + 1]);
                                }
                            }
                        }
                    }
                    if b[0] == bit && !self.is_terminal {
                        assert(self.covers(b) == after.covers(t));
                    }
                } else {
                    assert(!rest.is_prefix_of(b));
                }
            }
        }
    }

    /// Inserts a prefix.
    pub fn insert_bits(&mut self, bits: &[u8])
        requires
            all_bits(bits@),
        ensures
            final(self).covers(bits@),
            forall|b: Seq<u8>|
                all_bits(b) ==> #[trigger] final(self).covers(b) == (old(self).covers(b)
                    || bits@.is_prefix_of(b)),
    {
        proof {
            assert(bits@.skip(0) =~= bits@);
            assert(bits@.subrange(0, bits@.len() as int) =~= bits@);
        }
        self.insert_behind(bits, 0);
    }

    /// Whether a prefix of `bits` was inserted.
    pub fn match_bits(&self, bits: &[u8]) -> (r: bool)
        requires
            all_bits(bits@),
        ensures
            r == self.covers(bits@),
    {
        let mut node: &IpTrieNode = self;
        let mut i: usize = 0;
        proof {
            assert(bits@.skip(0) =~= bits@);
        }
        while i < bits.len()
            invariant
                i <= bits@.len(),
                all_bits(bits@),
                self.covers(bits@) == node.covers(bits@.skip(i as int)),
            decreases bits@.len() - i,
        {
            if node.is_terminal {
                return true;
            }
            let bit: u8 = bits[i];
            proof {
                assert(bits@.skip(i as int)[0] == bit);
                assert(bits@.skip(i as int).skip(1) =~= bits@.skip(i as int + 1));
            }
            let below = if bit == 0 {
                &node.zero
            } else {
                &node.one
            };
            match below {
                Some(child) => {
                    node = child;
                },
                None => {
                    return false;
                },
            }
            i = i + 1;
        }
        node.is_terminal
    }
}

/// The first `prefix` bits of a number of `width` bits.
pub open spec fn leading_bits(n: nat, width: nat, prefix: nat) -> Seq<u8> {
    Seq::new(prefix, |i: int| (n / pow2((width - 1 - i) as nat) % 2) as u8)
}

/// The first bits of an IPv4 address.
pub fn ipv4_to_bits(addr: u32, prefix_len: u8) -> (r: Vec<u8>)
    requires
        prefix_len <= 32,
    ensures
        r@ == leading_bits(addr as nat, 32, prefix_len as nat),
        all_bits(r@),
{
    let mut bits: Vec<u8> = Vec::new();
    let mut i: u8 = 0;
    while i < prefix_len
        invariant
            i <= prefix_len <= 32,
            bits@ == leading_bits(addr as nat, 32, i as nat),
            all_bits(bits@),
        decreases prefix_len - i,
    {
        let shift: u32 = 31 - i as u32;
        let high: u32 = addr >> shift;
        proof {
            vstd::bits::lemma_u32_shr_is_div(addr, shift);
        }
        bits.push((high % 2) as u8);
        i = i + 1;
        proof {
            assert(bits@ =~= leading_bits(addr as nat, 32, i as nat));
        }
    }
    bits
}

/// The first bits of an IPv6 address.
pub fn ipv6_to_bits(addr: u128, prefix_len: u8) -> (r: Vec<u8>)
    requires
        prefix_len <= 128,
    ensures
        r@ == leading_bits(addr as nat, 128, prefix_len as nat),
        all_bits(r@),
{
    let mut bits: Vec<u8> = Vec::new();
    let mut i: u8 = 0;
    while i < prefix_len
        invariant
            i <= prefix_len <= 128,
            bits@ == leading_bits(addr as nat, 128, i as nat),
            all_bits(bits@),
        decreases prefix_len - i,
    {
        let shift: u128 = 127 - i as u128;
        let high: u128 = addr >> shift;
        proof {
            vstd::bits::lemma_u128_shr_is_div(addr, shift);
        }
        bits.push((high % 2) as u8);
        i = i + 1;
        proof {
            assert(bits@ =~= leading_bits(addr as nat, 128, i as nat));
        }
    }
    bits
}

/// Numbers with the same first bits agree in what these bits write.
proof fn lemma_leading_bits(a: nat, b: nat, width: nat, prefix: nat)
    requires
        prefix <= width,
        a < pow2(width),
        b < pow2(width),
    ensures
        leading_bits(a, width, prefix) == leading_bits(b, width, prefix) <==> a / pow2(
            (width - prefix) as nat,
        ) == b / pow2((width - prefix) as nat),
    decreases prefix,
{
    let low = pow2((width - prefix) as nat) as int;
    vstd::arithmetic::power2::lemma_pow2_pos((width - prefix) as nat);
    if prefix == 0 {
        vstd::arithmetic::div_mod::lemma_basic_div(a as int, low);
        vstd::arithmetic::div_mod::lemma_basic_div(b as int, low);
        assert(leading_bits(a, width, 0) =~= leading_bits(b, width, 0));
    } else {
        let less = (prefix - 1) as nat;
        lemma_leading_bits(a, b, width, less);
        vstd::arithmetic::power2::lemma_pow2_unfold((width - less) as nat);
        let high = pow2((width - less) as nat) as int;
        assert(high == low * 2);
        vstd::arithmetic::div_mod::lemma_div_denominator(a as int, low, 2);
        vstd::arithmetic::div_mod::lemma_div_denominator(b as int, low, 2);
        let x = leading_bits(a, width, prefix);
        let y = leading_bits(b, width, prefix);
        assert(x.take(less as int) =~= leading_bits(a, width, less));
        assert(y.take(less as int) =~= leading_bits(b, width, less));
        assert(x[less as int] == (a / pow2((width - prefix) as nat) % 2) as u8);
        assert(y[less as int] == (b / pow2((width - prefix) as nat) % 2) as u8);
        let p = a as int / low;
        let q = b as int / low;
        assert(a as int / high == p / 2);
        assert(b as int / high == q / 2);
        if x == y {
            assert(p % 2 == q % 2);
            assert(p == q);
        }
        if p == q {
            assert(x =~= y) by {
                assert forall|i: int| 0 <= i < prefix implies x[i] == y[i] by {
                    if i < less {
                        assert(x[i] == x.take(less as int)[i]);
                        assert(y[i] == y.take(less as int)[i]);
                    }
                }
            }
        }
    }
}

/// The first bits of a network's base are a prefix of an address's bits just
/// where the network holds the address.
pub proof fn law_prefix_is_network(base: IpAddress, prefix: u8, ip: IpAddress)
    requires
        ip::width(base) == ip::width(ip),
        prefix <= ip::width(base),
    ensures
        leading_bits(ip::number(base), ip::width(base), prefix as nat).is_prefix_of(
            leading_bits(ip::number(ip), ip::width(ip), ip::width(ip)),
        ) <==> ip::in_network(base, prefix, ip),
{
    let width = ip::width(base);
    vstd::arithmetic::power2::lemma2_to64();
    vstd::arithmetic::power2::lemma_pow2_adds(64, 64);
    lemma_leading_bits(ip::number(base), ip::number(ip), width, prefix as nat);
    let all = leading_bits(ip::number(ip), width, width);
    assert(all.take(prefix as int) =~= leading_bits(ip::number(ip), width, prefix as nat));
}

/// The labels of a name: what stands between its dots.
pub open spec fn labels(s: Seq<char>) -> Seq<Seq<char>>
    decreases s.len(),
    via labels_decreases
{
    match s.index_of_first('.') {
        None => seq![s],
        Some(i) => seq![s.take(i)] + labels(s.skip(i + 1)),
    }
}

#[via_fn]
proof fn labels_decreases(s: Seq<char>) {
    s.index_of_first_ensures('.');
}

/// Labels with a dot between two of them.
pub open spec fn joined(labels: Seq<Seq<char>>) -> Seq<char>
    decreases labels.len(),
{
    if labels.len() == 0 {
        seq![]
    } else if labels.len() == 1 {
        labels[0]
    } else {
        labels[0] + seq!['.'] + joined(labels.skip(1))
    }
}

/// A name without the dots behind it.
pub open spec fn without_last_dots(s: Seq<char>) -> Seq<char>
    decreases s.len(),
{
    if s.len() > 0 && s.last() == '.' {
        without_last_dots(s.drop_last())
    } else {
        s
    }
}

/// A rule without one dot in front.
pub open spec fn without_first_dot(s: Seq<char>) -> Seq<char> {
    if s.len() > 0 && s[0] == '.' {
        s.skip(1)
    } else {
        s
    }
}

/// Whether a name is `rule` or lies under it.
pub open spec fn is_under(name: Seq<char>, rule: Seq<char>) -> bool {
    name == rule || seq!['.'].add(rule).is_suffix_of(name)
}

/// The views of labels.
pub open spec fn label_views(labels: Seq<Vec<char>>) -> Seq<Seq<char>> {
    labels.map_values(|l: Vec<char>| l@)
}

/// Cuts a name at its dots.
fn split_labels(s: &[char]) -> (r: Vec<Vec<char>>)
    ensures
        label_views(r@) == labels(s@),
        r@.len() > 0,
{
    let mut out: Vec<Vec<char>> = Vec::new();
    let mut pos: usize = 0;
    proof {
        assert(s@.skip(0) =~= s@);
        assert(label_views(out@) + labels(s@) =~= labels(s@));
    }
    loop
        invariant
            pos <= s@.len(),
            label_views(out@) + labels(s@.skip(pos as int)) == labels(s@),
        decreases s@.len() - pos,
    {
        let rest = slice_subrange(s, pos, s.len());
        proof {
            assert(rest@ =~= s@.skip(pos as int));
        }
        let ghost before = label_views(out@);
        match chars::find_char(rest, '.') {
            None => {
                out.push(slice_to_vec(rest));
                proof {
                    assert(label_views(out@) =~= before.push(rest@));
                    assert(label_views(out@) =~= before + seq![rest@]);
                }
                return out;
            },
            Some(i) => {
                let label = slice_subrange(rest, 0, i);
                out.push(slice_to_vec(label));
                proof {
                    assert(label@ =~= rest@.take(i as int));
                    assert(rest@.skip(i as int + 1) =~= s@.skip(pos + i + 1));
                    assert(label_views(out@) =~= before.push(label@));
                    assert(label_views(out@) + labels(s@.skip(pos + i + 1)) =~= before + (
                    seq![label@] + labels(rest@.skip(i as int + 1))));
                }
                pos = pos + i + 1;
            },
        }
    }
}

/// A node takes a rule by its child under the rule's last label, which takes the
/// rest.
proof fn lemma_grown(
    before: DomainTrieNode,
    at: Option<int>,
    below: DomainTrieNode,
    grown: DomainTrieNode,
    after: DomainTrieNode,
    rule: Seq<Seq<char>>,
)
    requires
        before.wf(),
        grown.wf(),
        rule.len() > 0,
        match at {
            Some(i) => 0 <= i < before.children@.len() && before.children@[i].0@ == rule.last()
                && before.children@[i].1 == below,
            None => (forall|name: Seq<Seq<char>>| !(#[trigger] below.covers(name))) && (forall|i: int|
                #![trigger before.children@[i]]
                0 <= i < before.children@.len() ==> before.children@[i].0@ != rule.last()),
        },
        forall|name: Seq<Seq<char>>| #[trigger]
            grown.covers(name) == (below.covers(name) || rule.drop_last().is_suffix_of(name)),
        after.is_terminal == before.is_terminal,
        after.children@.len() > 0,
        after.children@.drop_last() == (match at {
            Some(i) => before.children@.remove(i),
            None => before.children@,
        }),
        after.children@.last().0@ == rule.last(),
        after.children@.last().1 == grown,
    ensures
        after.wf(),
        forall|name: Seq<Seq<char>>| #[trigger]
            after.covers(name) == (before.covers(name) || rule.is_suffix_of(name)),
{
    let old_kids = before.children@;
    let kids = after.children@;
    let rest = kids.drop_last();
    let n = rest.len() as int;
    assert forall|i: int| 0 <= i < n implies #[trigger] kids[i] == rest[i] by {}
    // Where a child that stays stood before.
    let from = |i: int|
        match at {
            Some(k) => if i < k {
                i
            } else {
                i + 1
            },
            None => i,
        };
    assert forall|i: int| #![trigger kids[i]] 0 <= i < n implies {
        &&& 0 <= from(i) < old_kids.len()
        &&& kids[i] == old_kids[from(i)]
        &&& kids[i].0@ != rule.last()
    } by {
        assert(kids[i] == rest[i]);
        let f = from(i);
        assert(rest[i] == old_kids[f]);
        match at {
            Some(k) => {
                assert(f != k);
                assert(old_kids[f].0@ != old_kids[k].0@);
            },
            None => {},
        }
    }
    assert(after.wf()) by {
        assert forall|i: int, j: int|
            #![trigger kids[i], kids[j]]
            0 <= i < j < kids.len() implies kids[i].0@ != kids[j].0@ by {
            if j < n {
                let a = from(i);
                let b = from(j);
                assert(old_kids[a].0@ != old_kids[b].0@);
            }
        }
        assert forall|i: int| #![trigger kids[i]] 0 <= i < kids.len() implies kids[i].1.wf() by {
            if i < n {
                assert(old_kids[from(i)].1.wf());
            }
        }
    }
    assert forall|name: Seq<Seq<char>>| #[trigger] after.covers(name) == (before.covers(name)
        || rule.is_suffix_of(name)) by {
        if name.len() == 0 {
            assert(!rule.is_suffix_of(name));
        } else {
            let front = name.drop_last();
            lemma_suffix_last(rule, name);
            assert(kids[n] == kids.last());
            if name.last() == rule.last() {
                assert(grown.covers(front) == (below.covers(front)
                    || rule.drop_last().is_suffix_of(front)));
            }
            if after.covers(name) && !after.is_terminal {
                let i = choose|i: int|
                    #![trigger kids[i]]
                    0 <= i < kids.len() && kids[i].0@ == name.last() && kids[i].1.covers(front);
                if i < n {
                    assert(old_kids[from(i)].1.covers(front));
                } else if below.covers(front) {
                    assert(old_kids[at->0].1.covers(front));
                }
            }
            if before.covers(name) && !before.is_terminal {
                let i = choose|i: int|
                    #![trigger old_kids[i]]
                    0 <= i < old_kids.len() && old_kids[i].0@ == name.last()
                        && old_kids[i].1.covers(front);
                if name.last() == rule.last() {
                    assert(at is Some);
                    assert(i == at->0) by {
                        if i != at->0 {
                            assert(old_kids[i].0@ != old_kids[at->0].0@);
                        }
                    }
                    assert(kids[n].1.covers(front));
                } else {
                    let j = match at {
                        Some(k) => if i < k {
                            i
                        } else {
                            i - 1
                        },
                        None => i,
                    };
                    assert(from(j) == i);
                    assert(kids[j].1.covers(front));
                }
            }
            if rule.is_suffix_of(name) {
                assert(kids[n].1.covers(front));
            }
        }
    }
}

/// A suffix has the same last item, and what stands in front of it is a suffix of
/// what stands in front there.
proof fn lemma_suffix_last(rule: Seq<Seq<char>>, name: Seq<Seq<char>>)
    requires
        rule.len() > 0,
        name.len() > 0,
    ensures
        rule.is_suffix_of(name) <==> rule.last() == name.last() && rule.drop_last().is_suffix_of(
            name.drop_last(),
        ),
{
    let a = rule.drop_last();
    let b = name.drop_last();
    let d = name.len() - rule.len();
    if rule.is_suffix_of(name) {
        assert(rule.last() == name.subrange(d, name.len() as int)[rule.len() - 1]);
        assert forall|i: int| 0 <= i < a.len() implies a[i] == b.subrange(d, b.len() as int)[i] by {
            assert(rule[i] == name.subrange(d, name.len() as int)[i]);
        }
        assert(a =~= b.subrange(d, b.len() as int));
    }
    if rule.last() == name.last() && a.is_suffix_of(b) {
        assert forall|i: int| 0 <= i < rule.len() implies rule[i] == name.subrange(
            d,
            name.len() as int,
        )[i] by {
            if i < a.len() {
                assert(a[i] == b.subrange(d, b.len() as int)[i]);
            }
        }
        assert(rule =~= name.subrange(d, name.len() as int));
    }
}

/// A node of a trie of labels, the last label of a name first.
#[derive(Debug)]
pub struct DomainTrieNode {
    children: Vec<(Vec<char>, DomainTrieNode)>,
    is_terminal: bool,
}

impl Default for DomainTrieNode {
    /// A trie that holds nothing.
    fn default() -> (r: Self)
        ensures
            r.wf(),
            forall|name: Seq<Seq<char>>| !(#[trigger] r.covers(name)),
    {
        DomainTrieNode { children: Vec::new(), is_terminal: false }
    }
}

impl DomainTrieNode {
    /// Whether a suffix of a name's labels was inserted.
    pub closed spec fn covers(&self, name: Seq<Seq<char>>) -> bool
        decreases self,
    {
        self.is_terminal || (name.len() > 0 && exists|i: int|
            #![trigger self.children@[i]]
            0 <= i < self.children@.len() && self.children@[i].0@ == name.last()
                && self.children@[i].1.covers(name.drop_last()))
    }

    /// Whether no label occurs twice below a node.
    pub closed spec fn wf(&self) -> bool
        decreases self,
    {
        &&& forall|i: int, j: int|
            #![trigger self.children@[i], self.children@[j]]
            0 <= i < j < self.children@.len() ==> self.children@[i].0@ != self.children@[j].0@
        &&& forall|i: int|
            #![trigger self.children@[i]]
            0 <= i < self.children@.len() ==> self.children@[i].1.wf()
    }

    /// Where the child under a label stands.
    fn find(&self, label: &[char]) -> (r: Option<usize>)
        ensures
            match r {
                Some(i) => i < self.children@.len() && self.children@[i as int].0@ == label@,
                None => forall|i: int|
                    #![trigger self.children@[i]]
                    0 <= i < self.children@.len() ==> self.children@[i].0@ != label@,
            },
    {
        let mut i: usize = 0;
        while i < self.children.len()
            invariant
                i <= self.children@.len(),
                forall|j: int|
                    #![trigger self.children@[j]]
                    0 <= j < i ==> self.children@[j].0@ != label@,
            decreases self.children@.len() - i,
        {
            if chars::same_chars(&self.children[i].0, label) {
                return Some(i);
            }
            i = i + 1;
        }
        None
    }

    /// Inserts the first `idx` labels of a rule.
    fn insert_labels(&mut self, labels: &[Vec<char>], idx: usize)
        requires
            old(self).wf(),
            idx <= labels@.len(),
        ensures
            final(self).wf(),
            forall|name: Seq<Seq<char>>| #[trigger]
                final(self).covers(name) == (old(self).covers(name) || label_views(
                    labels@,
                ).take(idx as int).is_suffix_of(name)),
        decreases idx,
    {
        let ghost before = *self;
        let ghost rule = label_views(labels@).take(idx as int);
        if idx == 0 {
            self.is_terminal = true;
            proof {
                assert forall|name: Seq<Seq<char>>| rule.is_suffix_of(name) by {
                    assert(rule =~= name.subrange(name.len() as int, name.len() as int));
                }
            }
            return ;
        }
        let label = &labels[idx - 1];
        let ghost front = label_views(labels@).take(idx - 1);
        proof {
            assert(rule.last() == label@);
            assert(rule.drop_last() =~= front);
        }
        let found: Option<usize> = self.find(label);
        let mut child = match found {
            Some(i) => self.children.remove(i).1,
            None => DomainTrieNode::default(),
        };
        let ghost below = child;
        child.insert_labels(labels, idx - 1);
        let ghost grown = child;
        self.children.push((slice_to_vec(label), child));
        proof {
            let at: Option<int> = match found {
                Some(i) => Some(i as int),
                None => None,
            };
            let stay = match at {
                Some(i) => before.children@.remove(i),
                None => before.children@,
            };
            assert(self.children@.drop_last() =~= stay);
            lemma_grown(before, at, below, grown, *self, rule);
        }
    }

    /// Inserts a name. One dot in front of it is dropped.
    pub fn insert(&mut self, domain: &str)
        requires
            old(self).wf(),
        ensures
            final(self).wf(),
            forall|name: Seq<Seq<char>>| #[trigger]
                final(self).covers(name) == (old(self).covers(name) || labels(
                    without_first_dot(domain@),
                ).is_suffix_of(name)),
    {
        let all: Vec<char> = chars::chars_of(domain);
        let rule = if all.len() > 0 && all[0] == '.' {
            slice_subrange(&all, 1, all.len())
        } else {
            slice_subrange(&all, 0, all.len())
        };
        proof {
            assert(rule@ =~= without_first_dot(domain@));
        }
        let parts: Vec<Vec<char>> = split_labels(rule);
        let n: usize = parts.len();
        proof {
            assert(label_views(parts@).take(n as int) =~= label_views(parts@));
        }
        self.insert_labels(&parts, n);
    }

    /// Whether a suffix of the first `idx` labels was inserted below a node.
    pub fn search(node: &DomainTrieNode, labels: &[Vec<char>], idx: usize) -> (r: bool)
        requires
            node.wf(),
            idx <= labels@.len(),
        ensures
            r == node.covers(label_views(labels@).take(idx as int)),
        decreases idx,
    {
        if node.is_terminal {
            return true;
        }
        if idx == 0 {
            return false;
        }
        let label = &labels[idx - 1];
        let ghost name = label_views(labels@).take(idx as int);
        proof {
            assert(name.last() == label@);
            assert(name.drop_last() =~= label_views(labels@).take(idx - 1));
        }
        match node.find(label) {
            Some(i) => {
                let r: bool = DomainTrieNode::search(&node.children[i].1, labels, idx - 1);
                proof {
                    let hit = node.children@[i as int];
                    assert(r == hit.1.covers(name.drop_last()));
                    assert forall|j: int|
                        #![trigger node.children@[j]]
                        0 <= j < node.children@.len() && node.children@[j].0@ == label@ implies j
                        == i by {
                        assert(node.children@[i as int].0@ == label@);
                    }
                }
                r
            },
            None => false,
        }
    }

    /// Whether a name, or one that it lies under, was inserted. Dots behind it are
    /// dropped.
    pub fn matches(&self, domain: &str) -> (r: bool)
        requires
            self.wf(),
        ensures
            r == self.covers(labels(without_last_dots(domain@))),
    {
        let all: Vec<char> = chars::chars_of(domain);
        let mut end: usize = all.len();
        proof {
            assert(all@.take(end as int) =~= all@);
        }
        while end > 0 && all[end - 1] == '.'
            invariant
                end <= all@.len(),
                without_last_dots(all@) == without_last_dots(all@.take(end as int)),
            decreases end,
        {
            proof {
                let cur = all@.take(end as int);
                assert(cur.last() == all@[end as int - 1]);
                assert(cur.drop_last() =~= all@.take(end as int - 1));
            }
            end = end - 1;
        }
        let name = slice_subrange(&all, 0, end);
        proof {
            assert(name@ =~= all@.take(end as int));
            assert(end > 0 ==> name@.last() == all@[end as int - 1]);
        }
        let parts: Vec<Vec<char>> = split_labels(name);
        let n: usize = parts.len();
        proof {
            assert(label_views(parts@).take(n as int) =~= label_views(parts@));
        }
        DomainTrieNode::search(self, &parts, n)
    }
}

/// The labels of a name, joined again, are the name.
proof fn lemma_labels_join(s: Seq<char>)
    ensures
        labels(s).len() > 0,
        joined(labels(s)) == s,
    decreases s.len(),
{
    s.index_of_first_ensures('.');
    match s.index_of_first('.') {
        None => {},
        Some(i) => {
            let tail = s.skip(i + 1);
            lemma_labels_join(tail);
            assert(labels(s).skip(1) =~= labels(tail));
            assert(labels(s)[0] == s.take(i));
            assert(s.take(i) + seq!['.'] + tail =~= s);
        },
    }
}

/// What is joined in two parts has a dot between them.
proof fn lemma_joined_parts(a: Seq<Seq<char>>, b: Seq<Seq<char>>)
    requires
        a.len() > 0,
        b.len() > 0,
    ensures
        joined(a + b) == joined(a) + seq!['.'] + joined(b),
    decreases a.len(),
{
    let all = a + b;
    assert(all[0] == a[0]);
    if a.len() == 1 {
        assert(all.skip(1) =~= b);
    } else {
        assert(all.skip(1) =~= a.skip(1) + b);
        lemma_joined_parts(a.skip(1), b);
        assert(joined(all) =~= joined(a) + seq!['.'] + joined(b));
    }
}

/// The labels on both sides of a dot make up those of the whole.
proof fn lemma_labels_parts(p: Seq<char>, r: Seq<char>)
    ensures
        labels(p + seq!['.'] + r) == labels(p) + labels(r),
    decreases p.len(),
{
    let all = p + seq!['.'] + r;
    p.index_of_first_ensures('.');
    match p.index_of_first('.') {
        None => {
            chars::lemma_first_index(all, '.', p.len() as int);
            assert(all.take(p.len() as int) =~= p);
            assert(all.skip(p.len() as int + 1) =~= r);
        },
        Some(i) => {
            chars::lemma_first_index(all, '.', i);
            let tail = p.skip(i + 1);
            assert(all.take(i) =~= p.take(i));
            assert(all.skip(i + 1) =~= tail + seq!['.'] + r);
            lemma_labels_parts(tail, r);
            assert(labels(all) =~= labels(p) + labels(r));
        },
    }
}

/// A rule's labels are the last labels of a name just where the name is the rule
/// or lies under it.
pub proof fn law_suffix_is_under(rule: Seq<char>, name: Seq<char>)
    ensures
        labels(rule).is_suffix_of(labels(name)) <==> is_under(name, rule),
{
    let a = labels(rule);
    let b = labels(name);
    lemma_labels_join(rule);
    lemma_labels_join(name);
    let dotted = seq!['.'].add(rule);
    if a.is_suffix_of(b) {
        let d = b.len() - a.len();
        let front = b.take(d);
        assert(b =~= front + a);
        if d == 0 {
            assert(b =~= a);
        } else {
            lemma_joined_parts(front, a);
            let cut = joined(front).len() as int;
            assert(name.subrange(cut, name.len() as int) =~= dotted);
        }
    }
    if name == rule {
        assert(b.subrange(0, b.len() as int) =~= b);
    }
    if dotted.is_suffix_of(name) {
        let cut = name.len() - dotted.len();
        let front = name.take(cut);
        assert(name =~= front + seq!['.'] + rule) by {
            let tail = name.subrange(cut, name.len() as int);
            assert forall|i: int| 0 <= i < name.len() implies name[i] == (front + seq!['.']
                + rule)[i] by {
                if i >= cut {
                    assert(name[i] == tail[i - cut]);
                    assert(tail[i - cut] == dotted[i - cut]);
                }
            }
        }
        lemma_labels_parts(front, rule);
        let d = b.len() - a.len();
        assert(b.subrange(d, b.len() as int) =~= a);
    }
}

/// A trie of addresses with one prefix in it covers what begins with the prefix, and
/// nothing else.
pub proof fn law_bit_trie_covers_prefixes(
    empty: IpTrieNode,
    t: &mut IpTrieNode,
    bits: &[u8],
    probe: &[u8],
    r: bool,
)
    requires
        call_ensures(IpTrieNode::default, (), empty),
        *old(t) == empty,
        call_ensures(IpTrieNode::insert_bits, (t, bits), ()),
        forall|i: int| 0 <= i < bits@.len() ==> #[trigger] bits@[i] <= 1,
        forall|i: int| 0 <= i < probe@.len() ==> #[trigger] probe@[i] <= 1,
        call_ensures(IpTrieNode::match_bits, (&*final(t), probe), r),
    ensures
        r <==> bits@.len() <= probe@.len() && probe@.take(bits@.len() as int) == bits@,
{
    assert(all_bits(probe@));
    assert(!empty.covers(probe@));
    if bits@.len() <= probe@.len() {
        assert(probe@.subrange(0, bits@.len() as int) =~= probe@.take(bits@.len() as int));
    }
}

} // verus!
