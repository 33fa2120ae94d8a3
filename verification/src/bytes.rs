//! Fixed-width integers as bytes, in both orders.

use vstd::prelude::*;

verus! {

/// 256 to the power `k`.
pub open spec fn pow256(k: nat) -> nat
    decreases k,
{
    if k == 0 {
        1
    } else {
        256 * pow256((k - 1) as nat)
    }
}

/// The value of a byte sequence, least significant byte first.
pub open spec fn le_value(b: Seq<u8>) -> nat
    decreases b.len(),
{
    if b.len() == 0 {
        0
    } else {
        b[0] as nat + 256 * le_value(b.skip(1))
    }
}

/// The `k` low bytes of `n`, least significant byte first.
pub open spec fn le_bytes(n: nat, k: nat) -> Seq<u8>
    decreases k,
{
    if k == 0 {
        Seq::empty()
    } else {
        seq![(n % 256) as u8] + le_bytes(n / 256, (k - 1) as nat)
    }
}

/// The value of a byte sequence, most significant byte first.
pub open spec fn be_value(b: Seq<u8>) -> nat
    decreases b.len(),
{
    if b.len() == 0 {
        0
    } else {
        256 * be_value(b.drop_last()) + b.last() as nat
    }
}

/// The `k` low bytes of `n`, most significant byte first.
pub open spec fn be_bytes(n: nat, k: nat) -> Seq<u8>
    decreases k,
{
    if k == 0 {
        Seq::empty()
    } else {
        be_bytes(n / 256, (k - 1) as nat).push((n % 256) as u8)
    }
}

/// Reading back what was written gives the number, if it fits in the width.
pub proof fn le_round_trip(n: nat, k: nat)
    requires
        n < pow256(k),
    ensures
        le_bytes(n, k).len() == k,
        le_value(le_bytes(n, k)) == n,
    decreases k,
{
    if k > 0 {
        le_round_trip(n / 256, (k - 1) as nat);
        let b = le_bytes(n, k);
        assert(b.skip(1) =~= le_bytes(n / 256, (k - 1) as nat));
    }
}

/// The width of an encoding does not depend on the number.
pub proof fn lemma_le_len(n: nat, k: nat)
    ensures
        le_bytes(n, k).len() == k,
    decreases k,
{
    if k > 0 {
        lemma_le_len(n / 256, (k - 1) as nat);
    }
}

/// Reading back what was written gives the number, if it fits in the width.
pub proof fn be_round_trip(n: nat, k: nat)
    requires
        n < pow256(k),
    ensures
        be_bytes(n, k).len() == k,
        be_value(be_bytes(n, k)) == n,
    decreases k,
{
    if k > 0 {
        be_round_trip(n / 256, (k - 1) as nat);
        let b = be_bytes(n, k);
        assert(b.drop_last() =~= be_bytes(n / 256, (k - 1) as nat));
    }
}

/// A value of `k` bytes is below 256 to the power `k`.
pub proof fn lemma_le_bound(b: Seq<u8>)
    ensures
        le_value(b) < pow256(b.len()),
    decreases b.len(),
{
    if b.len() > 0 {
        lemma_le_bound(b.skip(1));
    }
}

/// A value of `k` bytes is below 256 to the power `k`.
pub proof fn lemma_be_bound(b: Seq<u8>)
    ensures
        be_value(b) < pow256(b.len()),
    decreases b.len(),
{
    if b.len() > 0 {
        lemma_be_bound(b.drop_last());
    }
}

/// The powers of 256 up to the width of 64 bits.
pub proof fn lemma_pow256()
    ensures
        pow256(0) == 1,
        pow256(1) == 0x100,
        pow256(2) == 0x1_0000,
        pow256(3) == 0x100_0000,
        pow256(4) == 0x1_0000_0000,
        pow256(5) == 0x100_0000_0000,
        pow256(6) == 0x1_0000_0000_0000,
        pow256(7) == 0x100_0000_0000_0000,
        pow256(8) == 0x1_0000_0000_0000_0000,
{
    reveal_with_fuel(pow256, 9);
}

/// A shorter value is below the bound of 64 bits.
proof fn lemma_pow256_small(k: nat)
    requires
        k <= 7,
    ensures
        pow256(k) <= 0x100_0000_0000_0000,
{
    lemma_pow256();
}

/// Appends the `k` low bytes of `n`, least significant byte first.
pub fn push_le(out: &mut Vec<u8>, n: u64, k: usize)
    ensures
        final(out)@ == old(out)@ + le_bytes(n as nat, k as nat),
    decreases k,
{
    if k > 0 {
        out.push((n % 256) as u8);
        push_le(out, n / 256, k - 1);
    }
    assert(final(out)@ =~= old(out)@ + le_bytes(n as nat, k as nat));
}

/// Appends the `k` low bytes of `n`, most significant byte first.
pub fn push_be(out: &mut Vec<u8>, n: u64, k: usize)
    ensures
        final(out)@ == old(out)@ + be_bytes(n as nat, k as nat),
    decreases k,
{
    if k > 0 {
        push_be(out, n / 256, k - 1);
        out.push((n % 256) as u8);
    }
    assert(final(out)@ =~= old(out)@ + be_bytes(n as nat, k as nat));
}

/// The contents of byte vectors.
pub open spec fn contents(v: Seq<Vec<u8>>) -> Seq<Seq<u8>> {
    v.map_values(|b: Vec<u8>| b@)
}

/// Appends all bytes of a slice.
pub fn push_all(out: &mut Vec<u8>, b: &[u8])
    ensures
        final(out)@ == old(out)@ + b@,
{
    let mut i: usize = 0;
    proof {
        assert(b@.take(0) =~= Seq::<u8>::empty());
        assert(out@ =~= old(out)@ + b@.take(0));
    }
    while i < b.len()
        invariant
            i <= b@.len(),
            out@ == old(out)@ + b@.take(i as int),
        decreases b@.len() - i,
    {
        out.push(b[i]);
        proof {
            assert(b@.take(i as int).push(b@[i as int]) =~= b@.take(i + 1));
            assert(out@ =~= old(out)@ + b@.take(i + 1));
        }
        i += 1;
    }
    assert(b@.take(i as int) =~= b@);
}

/// The value of the `k` bytes from `from` on, least significant byte first.
pub fn read_le(b: &[u8], from: usize, k: usize) -> (r: u64)
    requires
        k <= 8,
        from + k <= b@.len(),
    ensures
        r == le_value(b@.subrange(from as int, from + k)),
    decreases k,
{
    if k == 0 {
        return 0;
    }
    let n: usize = b.len();
    let rest = read_le(b, from + 1, k - 1);
    proof {
        let whole = b@.subrange(from as int, from + k);
        assert(whole.skip(1) =~= b@.subrange(from + 1, from + k));
        lemma_le_bound(whole.skip(1));
        lemma_pow256_small((k - 1) as nat);
    }
    (b[from] as u64) + 256 * rest
}

/// The value of the `k` bytes from `from` on, most significant byte first.
pub fn read_be(b: &[u8], from: usize, k: usize) -> (r: u64)
    requires
        k <= 8,
        from + k <= b@.len(),
    ensures
        r == be_value(b@.subrange(from as int, from + k)),
    decreases k,
{
    if k == 0 {
        return 0;
    }
    let n: usize = b.len();
    let rest = read_be(b, from, k - 1);
    proof {
        let whole = b@.subrange(from as int, from + k);
        assert(whole.drop_last() =~= b@.subrange(from as int, from + k - 1));
        lemma_be_bound(whole.drop_last());
        lemma_pow256_small((k - 1) as nat);
    }
    256 * rest + (b[from + k - 1] as u64)
}

/// The bytes of a number come in the order that is named: the first byte counts ones in
/// the one order, and the last in the other, and each further byte counts 256 times as
/// much.
pub proof fn bytes_are_in_order(n: nat, k: nat, i: int)
    requires
        0 <= i < k,
    ensures
        le_bytes(n, k).len() == k,
        be_bytes(n, k).len() == k,
        le_bytes(n, k)[i] == (n / pow256(i as nat)) % 256,
        be_bytes(n, k)[k - 1 - i] == (n / pow256(i as nat)) % 256,
    decreases k,
{
    lemma_le_len(n, k);
    lemma_be_len(n, k);
    lemma_be_len(n / 256, (k - 1) as nat);
    if i == 0 {
        assert(pow256(0) == 1);
        assert(n / 1 == n);
    } else {
        let m = n / 256;
        bytes_are_in_order(m, (k - 1) as nat, i - 1);
        assert(le_bytes(n, k)[i] == le_bytes(m, (k - 1) as nat)[i - 1]);
        assert(be_bytes(n, k)[k - 1 - i] == be_bytes(m, (k - 1) as nat)[k - 2 - (i - 1)]);
        let p = pow256((i - 1) as nat);
        lemma_pow_positive((i - 1) as nat);
        vstd::arithmetic::div_mod::lemma_div_denominator(n as int, 256, p as int);
        assert(pow256(i as nat) == 256 * p);
    }
}

proof fn lemma_pow_positive(k: nat)
    ensures
        pow256(k) > 0,
    decreases k,
{
    if k > 0 {
        lemma_pow_positive((k - 1) as nat);
    }
}

proof fn lemma_be_len(n: nat, k: nat)
    ensures
        be_bytes(n, k).len() == k,
    decreases k,
{
    if k > 0 {
        lemma_be_len(n / 256, (k - 1) as nat);
    }
}


} // verus!
