//! Domain suffixes, kept as the keys of a finite-state set.
use vstd::prelude::*;
use vstd::slice::slice_subrange;
use vstd::string::*;

verus! {

/// An ASCII letter in lower case; any other byte as it is.
pub open spec fn lower(b: u8) -> u8 {
    if 0x41 <= b <= 0x5a {
        (b + 32) as u8
    } else {
        b
    }
}

/// ASCII letters in lower case.
pub open spec fn lower_all(s: Seq<u8>) -> Seq<u8> {
    s.map_values(|b: u8| lower(b))
}

/// The dot.
pub const DOT: u8 = 0x2e;

/// `s` without the dots in front.
pub open spec fn skip_dots(s: Seq<u8>) -> Seq<u8>
    decreases s.len(),
{
    if s.len() > 0 && s[0] == DOT {
        skip_dots(s.skip(1))
    } else {
        s
    }
}

/// `s` without the dots behind.
pub open spec fn drop_dots(s: Seq<u8>) -> Seq<u8>
    decreases s.len(),
{
    if s.len() > 0 && s.last() == DOT {
        drop_dots(s.drop_last())
    } else {
        s
    }
}

/// `s` without the dots around it.
pub open spec fn undotted(s: Seq<u8>) -> Seq<u8> {
    drop_dots(skip_dots(s))
}

/// The labels of a name in lower case, the last one first, with a zero byte
/// between two of them.
pub open spec fn domain_key(s: Seq<u8>) -> Seq<u8>
    decreases s.len(),
    via domain_key_decreases
{
    match s.index_of_first(DOT) {
        None => lower_all(s),
        Some(i) => domain_key(s.skip(i + 1)) + seq![0u8] + lower_all(s.take(i)),
    }
}

#[via_fn]
proof fn domain_key_decreases(s: Seq<u8>) {
    s.index_of_first_ensures(DOT);
}

/// Whether a label of `s` begins at `j`.
pub open spec fn is_label_start(s: Seq<u8>, j: int) -> bool {
    0 <= j < s.len() && (j == 0 || s[j - 1] == DOT)
}

/// Whether `keys` holds the key of a name, or of a name that it lies under.
pub open spec fn suffix_in(keys: Set<Seq<u8>>, s: Seq<u8>) -> bool {
    exists|j: int| #[trigger] is_label_start(s, j) && keys.contains(domain_key(s.skip(j)))
}

/// Cuts the dots off both ends.
fn trim_dots(s: &[u8]) -> (r: &[u8])
    ensures
        r@ == undotted(s@),
        r@.len() > 0 ==> r@[0] != DOT && r@.last() != DOT,
{
    let mut start: usize = 0;
    proof {
        assert(s@.skip(0) =~= s@);
    }
    while start < s.len() && s[start] == DOT
        invariant
            start <= s@.len(),
            skip_dots(s@) == skip_dots(s@.skip(start as int)),
        decreases s@.len() - start,
    {
        proof {
            assert(s@.skip(start as int)[0] == s@[start as int]);
            assert(s@.skip(start as int).skip(1) =~= s@.skip(start as int + 1));
        }
        start = start + 1;
    }
    let ghost front = s@.skip(start as int);
    proof {
        assert(start < s@.len() ==> front[0] == s@[start as int]);
    }
    let mut end: usize = s.len();
    proof {
        assert(s@.subrange(start as int, end as int) =~= front);
    }
    while end > start && s[end - 1] == DOT
        invariant
            start <= end <= s@.len(),
            drop_dots(front) == drop_dots(s@.subrange(start as int, end as int)),
        decreases end - start,
    {
        proof {
            let cur = s@.subrange(start as int, end as int);
            assert(cur.last() == s@[end as int - 1]);
            assert(cur.drop_last() =~= s@.subrange(start as int, end as int - 1));
        }
        end = end - 1;
    }
    proof {
        let cur = s@.subrange(start as int, end as int);
        assert(end > start ==> cur.last() == s@[end as int - 1]);
        assert(end > start ==> cur[0] == s@[start as int]);
    }
    slice_subrange(s, start, end)
}

/// Appends a label in lower case.
fn push_lower(out: &mut Vec<u8>, s: &[u8])
    ensures
        final(out)@ == old(out)@ + lower_all(s@),
{
    let mut i: usize = 0;
    proof {
        assert(out@ =~= old(out)@ + lower_all(s@.take(0)));
    }
    while i < s.len()
        invariant
            i <= s@.len(),
            out@ == old(out)@ + lower_all(s@.take(i as int)),
        decreases s@.len() - i,
    {
        let b: u8 = s[i];
        let low: u8 = if 0x41 <= b && b <= 0x5a {
            b + 32
        } else {
            b
        };
        out.push(low);
        proof {
            assert(lower_all(s@.take(i as int + 1)) =~= lower_all(s@.take(i as int)).push(lower(b)));
            assert(out@ =~= old(out)@ + lower_all(s@.take(i as int + 1)));
        }
        i = i + 1;
    }
    proof {
        assert(s@.take(i as int) =~= s@);
    }
}

/// Where the label that ends before `end` begins.
fn label_start(s: &[u8], end: usize) -> (r: usize)
    requires
        end <= s@.len(),
    ensures
        r <= end,
        r == 0 || s@[r - 1] == DOT,
        forall|k: int| r <= k < end ==> s@[k] != DOT,
{
    let mut start: usize = end;
    while start > 0 && s[start - 1] != DOT
        invariant
            start <= end <= s@.len(),
            forall|k: int| start <= k < end ==> s@[k] != DOT,
        decreases start,
    {
        start = start - 1;
    }
    start
}

/// A further label in front of a name goes behind its key.
proof fn lemma_key_grows(s: Seq<u8>, start: int, end: int)
    requires
        0 <= start <= end < s.len(),
        s[end] == DOT,
        forall|k: int| start <= k < end ==> s[k] != DOT,
    ensures
        domain_key(s.skip(start)) == domain_key(s.skip(end + 1)) + seq![0u8] + lower_all(
            s.subrange(start, end),
        ),
{
    let t = s.skip(start);
    crate::text::lemma_index_of_first(t, DOT, end - start);
    assert(t.skip(end - start + 1) =~= s.skip(end + 1));
    assert(t.take(end - start) =~= s.subrange(start, end));
}

/// The key of a single label.
proof fn lemma_key_of_label(s: Seq<u8>)
    requires
        forall|k: int| 0 <= k < s.len() ==> s[k] != DOT,
    ensures
        domain_key(s) == lower_all(s),
{
    crate::text::lemma_no_index_of_first(s, DOT);
}

/// The key of a domain; none where there is nothing but dots.
pub fn domain_to_fst_key(domain: &str) -> (r: Option<Vec<u8>>)
    ensures
        ({
            let name = undotted(domain.spec_bytes());
            if name.len() == 0 {
                r is None
            } else {
                r matches Some(k) && k@ == domain_key(name) && k@.len() > 0
            }
        }),
{
    let bytes = trim_dots(domain.as_bytes());
    if bytes.len() == 0 {
        return None;
    }
    let total: usize = bytes.len();
    let mut buf: Vec<u8> = Vec::new();
    let mut end: usize = total;
    let mut first: bool = true;
    while end > 0
        invariant
            total == bytes@.len(),
            total > 0,
            bytes@[0] != DOT,
            bytes@.last() != DOT,
            end <= total,
            first <==> end == total,
            first ==> buf@.len() == 0,
            !first ==> buf@.len() > 0,
            !first && end > 0 ==> bytes@[end as int] == DOT && buf@ == domain_key(
                bytes@.skip(end as int + 1),
            ),
            !first && end == 0 ==> buf@ == domain_key(bytes@),
        decreases end,
    {
        let start: usize = label_start(bytes, end);
        if !first {
            buf.push(0u8);
        }
        let label = slice_subrange(bytes, start, end);
        push_lower(&mut buf, label);
        proof {
            let name = bytes@.skip(start as int);
            if first {
                assert(name =~= label@);
                lemma_key_of_label(name);
                assert(buf@ =~= domain_key(name));
                assert(start < end);
            } else {
                lemma_key_grows(bytes@, start as int, end as int);
                assert(buf@ =~= domain_key(name));
            }
            if start == 0 {
                assert(name =~= bytes@);
            }
        }
        first = false;
        end = if start > 0 {
            start - 1
        } else {
            0
        };
    }
    Some(buf)
}

/// The finite-state set of the `fst` crate.
#[verifier::external_type_specification]
#[verifier::external_body]
#[verifier::reject_recursive_types(D)]
pub struct ExSet<D>(fst::Set<D>);

/// The builder of a finite-state set.
#[verifier::external_type_specification]
#[verifier::external_body]
#[verifier::reject_recursive_types(W)]
pub struct ExSetBuilder<W>(fst::SetBuilder<W>);

/// The keys that a finite-state set holds.
pub uninterp spec fn fst_keys(s: fst::Set<Vec<u8>>) -> Set<Seq<u8>>;

/// The keys that a builder was given, in order.
pub uninterp spec fn built_keys(b: fst::SetBuilder<Vec<u8>>) -> Seq<Seq<u8>>;

/// `a` stands before `b` in lexicographic order, or is the same.
pub open spec fn lex_le(a: Seq<u8>, b: Seq<u8>) -> bool
    decreases a.len(),
{
    if a.len() == 0 {
        true
    } else if b.len() == 0 {
        false
    } else {
        a[0] < b[0] || (a[0] == b[0] && lex_le(a.skip(1), b.skip(1)))
    }
}

/// Keys stand in lexicographic order.
pub open spec fn in_key_order(keys: Seq<Seq<u8>>) -> bool {
    forall|i: int, j: int| 0 <= i < j < keys.len() ==> lex_le(#[trigger] keys[i], #[trigger] keys[j])
}

/// The bytes of each key.
pub open spec fn key_views(keys: Seq<Vec<u8>>) -> Seq<Seq<u8>> {
    keys.map_values(|k: Vec<u8>| k@)
}

/// `SetBuilder::memory`: a builder without keys.
#[verifier::external_body]
fn fst_builder() -> (b: fst::SetBuilder<Vec<u8>>)
    ensures
        built_keys(b).len() == 0,
{
    fst::SetBuilder::memory()
}

/// `SetBuilder::insert`. A key that stands before the one given last is refused;
/// nothing else is, in memory.
#[verifier::external_body]
fn fst_insert(b: &mut fst::SetBuilder<Vec<u8>>, key: &[u8]) -> (r: bool)
    requires
        key@.len() > 0,
    ensures
        r == (built_keys(*old(b)).len() > 0 ==> lex_le(built_keys(*old(b)).last(), key@)),
        r ==> built_keys(*final(b)) == built_keys(*old(b)).push(key@),
{
    b.insert(key).is_ok()
}

/// `SetBuilder::into_set`: the set of the keys given.
#[verifier::external_body]
fn fst_finish(b: fst::SetBuilder<Vec<u8>>) -> (r: fst::Set<Vec<u8>>)
    ensures
        fst_keys(r) == built_keys(b).to_set(),
{
    b.into_set()
}

/// `Set::contains`.
#[verifier::external_body]
fn fst_contains(s: &fst::Set<Vec<u8>>, key: &[u8]) -> (r: bool)
    ensures
        r == fst_keys(*s).contains(key@),
{
    s.contains(key)
}

/// `Set::is_empty`.
#[verifier::external_body]
fn fst_is_empty(s: &fst::Set<Vec<u8>>) -> (r: bool)
    ensures
        r == fst_keys(*s).is_empty(),
{
    s.is_empty()
}

/// `slice::sort_unstable` on byte strings: the same keys, in lexicographic order.
#[verifier::external_body]
fn sort_keys(keys: &mut Vec<Vec<u8>>)
    ensures
        in_key_order(key_views(final(keys)@)),
        key_views(final(keys)@).to_multiset() == key_views(old(keys)@).to_multiset(),
{
    keys.sort_unstable()
}

/// Two byte strings are the same.
fn same_bytes(a: &[u8], b: &[u8]) -> (r: bool)
    ensures
        r == (a@ == b@),
{
    if a.len() != b.len() {
        return false;
    }
    let mut i: usize = 0;
    while i < a.len()
        invariant
            i <= a@.len(),
            a@.len() == b@.len(),
            a@.take(i as int) =~= b@.take(i as int),
        decreases a@.len() - i,
    {
        if a[i] != b[i] {
            proof {
                assert(a@[i as int] != b@[i as int]);
            }
            return false;
        }
        i = i + 1;
    }
    proof {
        assert(a@.take(i as int) =~= a@);
        assert(b@.take(i as int) =~= b@);
    }
    true
}

/// The set refused a key.
#[derive(Debug, Clone, Copy, PartialEq, Eq, Structural)]
pub struct FstError;

/// Domain suffixes.
pub struct DomainFst {
    set: fst::Set<Vec<u8>>,
}

impl DomainFst {
    /// The keys of the suffixes.
    pub closed spec fn keys(&self) -> Set<Seq<u8>> {
        fst_keys(self.set)
    }

    /// The set of these keys, whatever their order, and whether or not some are
    /// the same.
    pub fn from_keys(keys: Vec<Vec<u8>>) -> (r: Result<Self, FstError>)
        requires
            forall|i: int| 0 <= i < keys@.len() ==> (#[trigger] keys@[i])@.len() > 0,
        ensures
            r matches Ok(d) && d.keys() == key_views(keys@).to_set(),
    {
        let mut sorted: Vec<Vec<u8>> = keys;
        sort_keys(&mut sorted);
        let ghost all = key_views(sorted@);
        proof {
            lemma_same_elements(key_views(keys@), all);
            assert forall|i: int| 0 <= i < all.len() implies (#[trigger] all[i]).len() > 0 by {
                let given = key_views(keys@);
                assert(all.contains(all[i]));
                assert(given.contains(all[i]));
                let j = choose|j: int| 0 <= j < given.len() && given[j] == all[i];
                assert(keys@[j]@.len() > 0);
            }
        }
        let mut builder = fst_builder();
        let mut i: usize = 0;
        while i < sorted.len()
            invariant
                i <= sorted@.len(),
                all == key_views(sorted@),
                in_key_order(all),
                forall|k: int| 0 <= k < all.len() ==> (#[trigger] all[k]).len() > 0,
                i == 0 <==> built_keys(builder).len() == 0,
                i > 0 ==> built_keys(builder).last() == all[i - 1],
                forall|key: Seq<u8>|
                    built_keys(builder).contains(key) <==> #[trigger] all.take(i as int).contains(
                        key,
                    ),
            decreases sorted@.len() - i,
        {
            let ghost before = built_keys(builder);
            proof {
                assert(all[i as int] == sorted@[i as int]@);
                lemma_take_contains(all, i as int);
            }
            if i > 0 && same_bytes(sorted[i].as_slice(), sorted[i - 1].as_slice()) {
                proof {
                    assert(all[i as int] == all[i - 1]);
                    assert(before.contains(before.last()));
                }
            } else {
                if i > 0 {
                    proof {
                        assert(lex_le(all[i - 1], all[i as int]));
                    }
                }
                if !fst_insert(&mut builder, sorted[i].as_slice()) {
                    return Err(FstError);
                }
                proof {
                    lemma_push_contains(before, all[i as int]);
                }
            }
            i = i + 1;
        }
        proof {
            assert(all.take(i as int) =~= all);
        }
        let set = fst_finish(builder);
        proof {
            assert(fst_keys(set) =~= key_views(keys@).to_set()) by {
                assert forall|key: Seq<u8>| fst_keys(set).contains(key) <==> key_views(
                    keys@,
                ).to_set().contains(key) by {
                    assert(built_keys(builder).contains(key) <==> all.take(i as int).contains(key));
                }
            }
        }
        Ok(DomainFst { set })
    }

    /// Whether a domain is one of the suffixes or lies under one.
    pub fn matches(&self, domain: &str) -> (r: bool)
        ensures
            r == suffix_in(self.keys(), undotted(domain.spec_bytes())),
    {
        let bytes = trim_dots(domain.as_bytes());
        let ghost name = bytes@;
        let total: usize = bytes.len();
        if total == 0 {
            return false;
        }
        let mut buf: Vec<u8> = Vec::new();
        let mut end: usize = total;
        let mut first: bool = true;
        while end > 0
            invariant
                name == bytes@,
                name == undotted(domain.spec_bytes()),
                total == name.len(),
                total > 0,
                name[0] != DOT,
                name.last() != DOT,
                end <= total,
                first <==> end == total,
                first ==> buf@.len() == 0,
                !first && end > 0 ==> name[end as int] == DOT && buf@ == domain_key(
                    name.skip(end as int + 1),
                ),
                forall|j: int|
                    #[trigger] is_label_start(name, j) && (j > end || (end == 0 && !first))
                        ==> !self.keys().contains(domain_key(name.skip(j))),
            decreases end,
        {
            let start: usize = label_start(bytes, end);
            if !first {
                buf.push(0u8);
            }
            let label = slice_subrange(bytes, start, end);
            push_lower(&mut buf, label);
            proof {
                let rest = name.skip(start as int);
                if first {
                    assert(rest =~= label@);
                    lemma_key_of_label(rest);
                    assert(buf@ =~= domain_key(rest));
                } else {
                    lemma_key_grows(name, start as int, end as int);
                    assert(buf@ =~= domain_key(rest));
                }
                assert(is_label_start(name, start as int));
            }
            if fst_contains(&self.set, &buf) {
                return true;
            }
            proof {
                assert forall|j: int|
                    #[trigger] is_label_start(name, j) && j >= start implies !self.keys().contains(
                    domain_key(name.skip(j)),
                ) by {
                    if j > start && j <= end {
                        assert(name[j - 1] == DOT);
                        if j < end {
                            assert(name[j - 1] != DOT);
                        } else {
                            assert(name[end - 1] != DOT || start == end);
                        }
                    }
                }
            }
            first = false;
            end = if start > 0 {
                start - 1
            } else {
                0
            };
        }
        false
    }

    /// Whether there is no suffix.
    pub fn is_empty(&self) -> (r: bool)
        ensures
            r == self.keys().is_empty(),
    {
        fst_is_empty(&self.set)
    }
}

/// Sequences with the same multiset have the same elements.
proof fn lemma_same_elements(a: Seq<Seq<u8>>, b: Seq<Seq<u8>>)
    requires
        a.to_multiset() == b.to_multiset(),
    ensures
        forall|k: Seq<u8>| #[trigger] a.contains(k) <==> b.contains(k),
        a.to_set() == b.to_set(),
{
    broadcast use vstd::seq_lib::group_to_multiset_ensures;

    assert forall|k: Seq<u8>| #[trigger] a.contains(k) <==> b.contains(k) by {
        assert(a.contains(k) <==> a.to_multiset().count(k) > 0);
        assert(b.contains(k) <==> b.to_multiset().count(k) > 0);
    }
    assert(a.to_set() =~= b.to_set());
}

/// One more element of `s` is taken.
proof fn lemma_take_contains(s: Seq<Seq<u8>>, i: int)
    requires
        0 <= i < s.len(),
    ensures
        forall|k: Seq<u8>|
            #[trigger] s.take(i + 1).contains(k) <==> s.take(i).contains(k) || k == s[i],
{
    assert forall|k: Seq<u8>|
        #[trigger] s.take(i + 1).contains(k) <==> s.take(i).contains(k) || k == s[i] by {
        if s.take(i + 1).contains(k) {
            let longer = s.take(i + 1);
            let j = choose|j: int| 0 <= j < longer.len() && longer[j] == k;
            if j < i {
                assert(s.take(i)[j] == k);
            }
        }
        if s.take(i).contains(k) {
            let j = choose|j: int| 0 <= j < i && s.take(i)[j] == k;
            assert(s.take(i + 1)[j] == k);
        }
        if k == s[i] {
            assert(s.take(i + 1)[i] == k);
        }
    }
}

/// What a longer sequence contains.
pub proof fn lemma_push_contains(s: Seq<Seq<u8>>, x: Seq<u8>)
    ensures
        forall|k: Seq<u8>| #[trigger] s.push(x).contains(k) <==> s.contains(k) || k == x,
{
    assert forall|k: Seq<u8>| #[trigger] s.push(x).contains(k) <==> s.contains(k) || k == x by {
        if s.push(x).contains(k) {
            let longer = s.push(x);
            let j = choose|j: int| 0 <= j < longer.len() && longer[j] == k;
            if j < s.len() {
                assert(s[j] == k);
            }
        }
        if s.contains(k) {
            let j = choose|j: int| 0 <= j < s.len() && s[j] == k;
            assert(s.push(x)[j] == k);
        }
        if k == x {
            assert(s.push(x)[s.len() as int] == k);
        }
    }
}

/// No byte is zero.
pub open spec fn no_zeros(s: Seq<u8>) -> bool {
    forall|i: int| 0 <= i < s.len() ==> #[trigger] s[i] != 0
}

/// Where the last label of a name's key begins: behind its last zero byte.
proof fn lemma_last_zero(front: Seq<u8>, label: Seq<u8>, other: Seq<u8>, tail: Seq<u8>)
    requires
        front + seq![0u8] + label == other + seq![0u8] + tail,
        no_zeros(label),
        no_zeros(tail),
    ensures
        front == other,
        label == tail,
{
    let k = front + seq![0u8] + label;
    let i = front.len() as int;
    let j = other.len() as int;
    let same = other + seq![0u8] + tail;
    assert(k.len() == i + 1 + label.len());
    assert(same.len() == j + 1 + tail.len());
    assert(k[i] == 0);
    assert(same[j] == 0);
    if i < j {
        let n = j - (i + 1);
        assert(0 <= n < label.len());
        assert(k[j] == label[n]);
    } else if j < i {
        let n = i - (j + 1);
        assert(0 <= n < tail.len());
        assert(same[i] == tail[n]);
    }
    assert(front =~= k.take(i));
    assert(other =~= k.take(i));
    assert(label =~= k.skip(i + 1));
    assert(tail =~= k.skip(i + 1));
}

/// A key with a label in front of another is not the key of a single label.
proof fn lemma_zero_in_key(front: Seq<u8>, label: Seq<u8>, single: Seq<u8>)
    requires
        no_zeros(single),
    ensures
        front + seq![0u8] + label != single,
{
    let k = front + seq![0u8] + label;
    assert(k[front.len() as int] == 0);
    if k == single {
        assert(single[front.len() as int] != 0);
    }
}

/// Two parts of a name around a dot are put into lower case each for itself.
proof fn lemma_lower_join(label: Seq<u8>, rest: Seq<u8>)
    ensures
        lower_all(label + seq![DOT] + rest) == lower_all(label) + seq![DOT] + lower_all(rest),
{
    assert(lower_all(label + seq![DOT] + rest) =~= lower_all(label) + seq![DOT] + lower_all(rest));
}

/// Two names have the same key if and only if they differ at most in the case
/// of ASCII letters.
pub proof fn law_key_ignores_case_only(a: Seq<u8>, b: Seq<u8>)
    requires
        no_zeros(a),
        no_zeros(b),
    ensures
        domain_key(a) == domain_key(b) <==> lower_all(a) == lower_all(b),
    decreases a.len(),
{
    a.index_of_first_ensures(DOT);
    b.index_of_first_ensures(DOT);
    match (a.index_of_first(DOT), b.index_of_first(DOT)) {
        (None, None) => {},
        (Some(i), None) => {
            assert(no_zeros(lower_all(b)));
            lemma_zero_in_key(domain_key(a.skip(i + 1)), lower_all(a.take(i)), lower_all(b));
            if lower_all(a) == lower_all(b) {
                assert(lower_all(a)[i] == DOT);
                assert(lower_all(b)[i] == lower(b[i]));
                assert(b.contains(b[i]));
            }
        },
        (None, Some(j)) => {
            assert(no_zeros(lower_all(a)));
            lemma_zero_in_key(domain_key(b.skip(j + 1)), lower_all(b.take(j)), lower_all(a));
            if lower_all(a) == lower_all(b) {
                assert(lower_all(b)[j] == DOT);
                assert(lower_all(a)[j] == lower(a[j]));
                assert(a.contains(a[j]));
            }
        },
        (Some(i), Some(j)) => {
            let (ra, la) = (a.skip(i + 1), a.take(i));
            let (rb, lb) = (b.skip(j + 1), b.take(j));
            law_key_ignores_case_only(ra, rb);
            assert(no_zeros(lower_all(la)));
            assert(no_zeros(lower_all(lb)));
            if domain_key(a) == domain_key(b) {
                lemma_last_zero(domain_key(ra), lower_all(la), domain_key(rb), lower_all(lb));
                lemma_lower_join(la, ra);
                lemma_lower_join(lb, rb);
                assert(a =~= la + seq![DOT] + ra);
                assert(b =~= lb + seq![DOT] + rb);
            }
            if lower_all(a) == lower_all(b) {
                assert(a.len() == lower_all(a).len());
                assert(b.len() == lower_all(b).len());
                if i < j {
                    assert(lower_all(a)[i] == DOT);
                    assert(lower_all(b)[i] == lower(b[i]));
                } else if j < i {
                    assert(lower_all(b)[j] == DOT);
                    assert(lower_all(a)[j] == lower(a[j]));
                }
                assert(lower_all(la) =~= lower_all(a).take(i));
                assert(lower_all(lb) =~= lower_all(b).take(i));
                assert(lower_all(ra) =~= lower_all(a).skip(i + 1));
                assert(lower_all(rb) =~= lower_all(b).skip(i + 1));
            }
        },
    }
}

/// A rule covers a name if and only if the name is the rule's, or ends in a dot
/// and the rule's, whatever the case of the letters: a rule for `example.com`
/// covers `sub.example.com` and not `notexample.com`.
pub proof fn law_rule_covers_subdomains(rule: Seq<u8>, name: Seq<u8>)
    requires
        no_zeros(rule),
        no_zeros(name),
        name.len() > 0,
    ensures
        suffix_in(set![domain_key(rule)], name) <==> exists|j: int|
            #[trigger] is_label_start(name, j) && lower_all(name.skip(j)) == lower_all(rule),
{
    let keys = set![domain_key(rule)];
    assert forall|j: int| is_label_start(name, j) implies (keys.contains(domain_key(name.skip(j)))
        <==> lower_all(name.skip(j)) == lower_all(rule)) by {
        law_key_ignores_case_only(name.skip(j), rule);
    }
}

/// What a rule covers, more rules cover too.
pub proof fn law_more_rules_cover_more(some: Set<Seq<u8>>, more: Set<Seq<u8>>, name: Seq<u8>)
    requires
        some.subset_of(more),
        suffix_in(some, name),
    ensures
        suffix_in(more, name),
{
    let j = choose|j: int| #[trigger] is_label_start(name, j) && some.contains(
        domain_key(name.skip(j)),
    );
    assert(is_label_start(name, j) && more.contains(domain_key(name.skip(j))));
}

} // verus!
