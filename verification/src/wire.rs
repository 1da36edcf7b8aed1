//! Big-endian integers on byte sequences.
use vstd::prelude::*;

verus! {

/// The number written by `s` in base 256, most significant byte first.
pub open spec fn be_value(s: Seq<u8>) -> nat
    decreases s.len(),
{
    if s.len() == 0 {
        0
    } else {
        be_value(s.drop_last()) * 256 + s.last() as nat
    }
}

/// The lowest `n` base-256 digits of `x`, most significant first.
pub open spec fn be_bytes(x: nat, n: nat) -> Seq<u8>
    decreases n,
{
    if n == 0 {
        Seq::empty()
    } else {
        be_bytes(x / 256, (n - 1) as nat).push((x % 256) as u8)
    }
}

/// 256 to the power `n`.
pub open spec fn base_pow(n: nat) -> nat
    decreases n,
{
    if n == 0 {
        1
    } else {
        256 * base_pow((n - 1) as nat)
    }
}

/// `n` digits are written as `n` bytes.
pub proof fn lemma_be_bytes_len(x: nat, n: nat)
    ensures
        be_bytes(x, n).len() == n,
    decreases n,
{
    if n > 0 {
        lemma_be_bytes_len(x / 256, (n - 1) as nat);
    }
}

/// A number that fits in `n` digits is read back from them.
pub proof fn law_be_roundtrip(x: nat, n: nat)
    requires
        x < base_pow(n),
    ensures
        be_value(be_bytes(x, n)) == x,
        be_bytes(x, n).len() == n,
    decreases n,
{
    lemma_be_bytes_len(x, n);
    if n > 0 {
        let m = (n - 1) as nat;
        assert(x / 256 < base_pow(m)) by (nonlinear_arith)
            requires
                x < 256 * base_pow(m),
        ;
        law_be_roundtrip(x / 256, m);
        assert(be_bytes(x, n).drop_last() =~= be_bytes(x / 256, m));
    }
}

/// What two and eight digits can tell apart.
pub proof fn lemma_base_pow_values()
    ensures
        base_pow(2) == 0x1_0000,
        base_pow(8) == 0x1_0000_0000_0000_0000,
{
    reveal_with_fuel(base_pow, 9);
}

proof fn lemma_be_value_bound(s: Seq<u8>)
    ensures
        be_value(s) < base_pow(s.len()),
    decreases s.len(),
{
    if s.len() > 0 {
        lemma_be_value_bound(s.drop_last());
    }
}

proof fn lemma_base_pow_mono(a: nat, b: nat)
    requires
        a <= b,
    ensures
        base_pow(a) <= base_pow(b),
    decreases b,
{
    if a < b {
        lemma_base_pow_mono(a, (b - 1) as nat);
    }
}

/// Reads the first eight bytes as a big-endian number.
pub fn read_u64_be(data: &[u8]) -> (r: u64)
    requires
        data@.len() >= 8,
    ensures
        r == be_value(data@.take(8)),
{
    let mut acc: u64 = 0;
    let mut i: usize = 0;
    while i < 8
        invariant
            i <= 8,
            data@.len() >= 8,
            acc == be_value(data@.take(i as int)),
        decreases 8 - i,
    {
        proof {
            let next = data@.take(i as int + 1);
            assert(next.drop_last() =~= data@.take(i as int));
            lemma_be_value_bound(next);
            lemma_base_pow_mono(i as nat + 1, 8);
            lemma_base_pow_values();
        }
        acc = acc * 256 + data[i] as u64;
        i = i + 1;
    }
    acc
}

/// Reads the first two bytes as a big-endian number.
pub fn read_u16_be(data: &[u8]) -> (r: u16)
    requires
        data@.len() >= 2,
    ensures
        r == be_value(data@.take(2)),
{
    proof {
        let two = data@.take(2);
        assert(two.drop_last().drop_last() =~= Seq::<u8>::empty());
        assert(two.drop_last().last() == data@[0]);
        reveal_with_fuel(be_value, 3);
    }
    data[0] as u16 * 256 + data[1] as u16
}

/// Appends `x` as eight big-endian bytes.
pub fn push_u64_be(out: &mut Vec<u8>, x: u64)
    ensures
        final(out)@ == old(out)@ + be_bytes(x as nat, 8),
{
    let mut digits: Vec<u8> = Vec::with_capacity(8);
    let mut rest: u64 = x;
    let mut i: usize = 0;
    // `digits` collects the least significant byte first.
    while i < 8
        invariant
            i <= 8,
            digits@.len() == i,
            be_bytes(x as nat, 8) =~= be_bytes(rest as nat, (8 - i) as nat) + digits@.reverse(),
        decreases 8 - i,
    {
        let ghost before = digits@;
        let ghost n = (8 - i) as nat;
        let digit: u8 = (rest % 256) as u8;
        digits.push(digit);
        proof {
            lemma_be_bytes_len(rest as nat, n);
            assert(be_bytes(rest as nat, n) == be_bytes(rest as nat / 256, (n - 1) as nat).push(digit));
            assert(digits@.reverse() =~= seq![digit] + before.reverse());
            assert(be_bytes(rest as nat, n) + before.reverse() =~= be_bytes(
                rest as nat / 256,
                (n - 1) as nat,
            ) + digits@.reverse());
        }
        rest = rest / 256;
        i = i + 1;
    }
    let ghost start = out@;
    let ghost all = digits@.reverse();
    proof {
        assert(all =~= be_bytes(x as nat, 8));
    }
    let mut j: usize = 8;
    while j > 0
        invariant
            j <= 8,
            digits@.len() == 8,
            all == digits@.reverse(),
            out@ =~= start + all.take(8 - j),
        decreases j,
    {
        j = j - 1;
        out.push(digits[j]);
        proof {
            assert(all.take(8 - j) =~= all.take(8 - (j + 1)).push(digits@[j as int]));
        }
    }
    proof {
        assert(all.take(8) =~= all);
    }
}

/// Appends `x` as two big-endian bytes.
pub fn push_u16_be(out: &mut Vec<u8>, x: u16)
    ensures
        final(out)@ == old(out)@ + be_bytes(x as nat, 2),
{
    proof {
        reveal_with_fuel(be_bytes, 3);
        assert(be_bytes(x as nat, 2) =~= seq![(x / 256) as u8, (x % 256) as u8]);
    }
    out.push((x / 256) as u8);
    out.push((x % 256) as u8);
    proof {
        assert(out@ =~= old(out)@ + be_bytes(x as nat, 2));
    }
}

/// Two bytes are read high byte first.
pub proof fn law_u16_is_read_high_byte_first(data: &[u8], r: u16)
    requires
        call_ensures(read_u16_be, (data,), r),
        data@.len() >= 2,
    ensures
        r == data@[0] * 256 + data@[1],
{
    let two = data@.take(2);
    assert(two.drop_last().drop_last() =~= Seq::empty());
    reveal_with_fuel(be_value, 3);
}

/// Eight bytes are read high byte first.
pub proof fn law_u64_is_read_high_byte_first(data: &[u8], r: u64)
    requires
        call_ensures(read_u64_be, (data,), r),
        data@.len() >= 8,
    ensures
        r == data@[0] * 0x100_0000_0000_0000 + data@[1] * 0x1_0000_0000_0000 + data@[2]
            * 0x100_0000_0000 + data@[3] * 0x1_0000_0000 + data@[4] * 0x100_0000 + data@[5]
            * 0x1_0000 + data@[6] * 0x100 + data@[7],
{
    let s = data@;
    assert(s.take(0) =~= Seq::empty());
    assert forall|i: int| 0 <= i < 8 implies #[trigger] be_value(s.take(i + 1)) == be_value(
        s.take(i),
    ) * 256 + s[i] by {
        assert(s.take(i + 1).drop_last() =~= s.take(i));
    }
    assert(be_value(s.take(0)) == 0);
    assert(be_value(s.take(0int + 1)) == s[0]);
    assert(be_value(s.take(1int + 1)) == s[0] * 256 + s[1]);
    assert(be_value(s.take(2int + 1)) == (s[0] * 256 + s[1]) * 256 + s[2]);
    assert(be_value(s.take(3int + 1)) == ((s[0] * 256 + s[1]) * 256 + s[2]) * 256 + s[3]);
    assert(be_value(s.take(4int + 1)) == (((s[0] * 256 + s[1]) * 256 + s[2]) * 256 + s[3]) * 256 + s[4]);
    let high = (((s[0] * 256 + s[1]) * 256 + s[2]) * 256 + s[3]) * 256 + s[4];
    assert(be_value(s.take(5int + 1)) == high * 256 + s[5]);
    assert(be_value(s.take(6int + 1)) == (high * 256 + s[5]) * 256 + s[6]);
    assert(be_value(s.take(7int + 1)) == ((high * 256 + s[5]) * 256 + s[6]) * 256 + s[7]);
}

/// What is written in two or eight bytes is what was written, behind what was
/// there.
pub proof fn law_written_numbers_are_read(
    out: &mut Vec<u8>,
    x: u64,
    out2: &mut Vec<u8>,
    y: u16,
    long: &[u8],
    short: &[u8],
    a: u64,
    b: u16,
)
    requires
        call_ensures(push_u64_be, (out, x), ()),
        call_ensures(push_u16_be, (out2, y), ()),
        long@ == final(out)@.skip(old(out)@.len() as int),
        short@ == final(out2)@.skip(old(out2)@.len() as int),
        call_ensures(read_u64_be, (long,), a),
        call_ensures(read_u16_be, (short,), b),
    ensures
        long@.len() == 8,
        short@.len() == 2,
        final(out)@.take(old(out)@.len() as int) == old(out)@,
        final(out2)@.take(old(out2)@.len() as int) == old(out2)@,
        a == x,
        b == y,
{
    lemma_base_pow_values();
    law_be_roundtrip(x as nat, 8);
    law_be_roundtrip(y as nat, 2);
    assert(long@ =~= be_bytes(x as nat, 8));
    assert(short@ =~= be_bytes(y as nat, 2));
    assert(long@.take(8) =~= long@);
    assert(short@.take(2) =~= short@);
}

} // verus!
