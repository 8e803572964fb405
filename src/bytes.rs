//! Unsigned integers as bytes, in either byte order, and the byte swap that
//! turns one order into the other.
use vstd::prelude::*;
use vstd::arithmetic::div_mod::{lemma_div_denominator, lemma_fundamental_div_mod};

verus! {

/// `256` to the power `n`.
pub open spec fn pow256(n: nat) -> nat
    decreases n,
{
    if n == 0 {
        1
    } else {
        256 * pow256((n - 1) as nat)
    }
}

/// The number whose little-endian bytes are `b`.
pub open spec fn le_value(b: Seq<u8>) -> nat
    decreases b.len(),
{
    if b.len() == 0 {
        0
    } else {
        (b[0] + 256 * le_value(b.drop_first())) as nat
    }
}

/// The number whose big-endian bytes are `b`.
pub open spec fn be_value(b: Seq<u8>) -> nat {
    le_value(b.reverse())
}

/// The number that `b` holds, big-endian where `big`, else little-endian.
pub open spec fn uint_value(b: Seq<u8>, big: bool) -> nat {
    if big {
        be_value(b)
    } else {
        le_value(b)
    }
}

/// The `n` low bytes of `x`, least significant first.
pub open spec fn le_bytes(x: nat, n: nat) -> Seq<u8> {
    Seq::new(n, |i: int| ((x / pow256(i as nat)) % 256) as u8)
}

/// The `n` low bytes of `x`, most significant first where `big`.
pub open spec fn uint_bytes(x: nat, n: nat, big: bool) -> Seq<u8> {
    if big {
        le_bytes(x, n).reverse()
    } else {
        le_bytes(x, n)
    }
}

pub proof fn lemma_pow256_positive(n: nat)
    ensures
        pow256(n) > 0,
    decreases n,
{
    if n > 0 {
        lemma_pow256_positive((n - 1) as nat);
    }
}

pub proof fn lemma_pow256_values()
    ensures
        pow256(1) == 0x100,
        pow256(2) == 0x1_0000,
        pow256(4) == 0x1_0000_0000,
        pow256(8) == 0x1_0000_0000_0000_0000,
{
    reveal_with_fuel(pow256, 9);
}

/// `n` bytes hold less than `256^n`.
pub proof fn lemma_le_value_bound(b: Seq<u8>)
    ensures
        le_value(b) < pow256(b.len()),
    decreases b.len(),
{
    if b.len() > 0 {
        lemma_le_value_bound(b.drop_first());
        let r = le_value(b.drop_first());
        let p = pow256((b.len() - 1) as nat);
        assert(b[0] + 256 * r < 256 * p) by (nonlinear_arith)
            requires
                r < p,
                b[0] < 256,
        ;
    }
}

/// One byte reads the same in either order.
pub proof fn lemma_one_byte(b: Seq<u8>)
    requires
        b.len() == 1,
    ensures
        le_value(b) == b[0],
        be_value(b) == b[0],
{
    assert(b.reverse() =~= b);
    assert(b.drop_first() =~= Seq::<u8>::empty());
    assert(le_value(b.drop_first()) == 0);
}

/// Reversing the bytes exchanges the two orders.
pub proof fn lemma_reverse_swaps(b: Seq<u8>)
    ensures
        be_value(b.reverse()) == le_value(b),
        uint_value(b.reverse(), true) == uint_value(b, false),
        uint_value(b.reverse(), false) == uint_value(b, true),
{
    assert(b.reverse().reverse() =~= b);
}

/// Writing `x` in `n` bytes and reading them back gives `x`.
pub proof fn lemma_le_round_trip(x: nat, n: nat)
    requires
        x < pow256(n),
    ensures
        le_value(le_bytes(x, n)) == x,
    decreases n,
{
    let b = le_bytes(x, n);
    if n == 0 {
    } else {
        lemma_pow256_positive((n - 1) as nat);
        assert(b.drop_first() =~= le_bytes(x / 256, (n - 1) as nat)) by {
            assert forall|i: int| 0 <= i < n - 1 implies #[trigger] b.drop_first()[i] == le_bytes(
                x / 256,
                (n - 1) as nat,
            )[i] by {
                lemma_pow256_positive(i as nat);
                lemma_div_denominator(x as int, 256, pow256(i as nat) as int);
                assert(pow256((i + 1) as nat) == 256 * pow256(i as nat));
            }
        }
        assert(x / 256 < pow256((n - 1) as nat)) by (nonlinear_arith)
            requires
                x < 256 * pow256((n - 1) as nat),
        ;
        lemma_le_round_trip(x / 256, (n - 1) as nat);
        assert(pow256(0) == 1);
        assert(x / 1 == x) by (nonlinear_arith);
        assert(b[0] == x % 256);
        lemma_fundamental_div_mod(x as int, 256);
    }
}

/// Writing `x` in `n` bytes of either order and reading them back in that
/// order gives `x`.
pub proof fn lemma_uint_round_trip(x: nat, n: nat, big: bool)
    requires
        x < pow256(n),
    ensures
        uint_value(uint_bytes(x, n, big), big) == x,
{
    lemma_le_round_trip(x, n);
    assert(le_bytes(x, n).reverse().reverse() =~= le_bytes(x, n));
}

/// Reads the little-endian number in the first `n` bytes.
pub fn read_le(bytes: &[u8], n: usize) -> (r: u64)
    requires
        n <= 8,
        n <= bytes@.len(),
    ensures
        r == le_value(bytes@.subrange(0, n as int)),
{
    let mut k: usize = n;
    let mut acc: u64 = 0;
    while k > 0
        invariant
            k <= n,
            n <= 8,
            n <= bytes@.len(),
            acc == le_value(bytes@.subrange(k as int, n as int)),
        decreases k,
    {
        let ghost tail = bytes@.subrange(k as int, n as int);
        proof {
            lemma_le_value_bound(tail);
            lemma_pow256_values();
            lemma_pow256_mono((n - k) as nat, 7);
            let s = bytes@.subrange(k - 1, n as int);
            assert(s.drop_first() =~= tail);
            assert(s[0] == bytes@[k - 1]);
            assert(acc * 256 + 255 <= u64::MAX) by (nonlinear_arith)
                requires
                    acc < pow256(7),
                    pow256(7) == 0x100_0000_0000_0000,
            ;
        }
        acc = bytes[k - 1] as u64 + 256 * acc;
        k = k - 1;
    }
    acc
}

pub proof fn lemma_pow256_mono(a: nat, b: nat)
    requires
        a <= b,
    ensures
        pow256(a) <= pow256(b),
        pow256(7) == 0x100_0000_0000_0000,
    decreases b,
{
    reveal_with_fuel(pow256, 8);
    if a < b {
        lemma_pow256_mono(a, (b - 1) as nat);
        lemma_pow256_positive((b - 1) as nat);
    }
}

/// The `n` low bytes of `x`, least significant first.
pub fn write_le(x: u64, n: usize) -> (r: Vec<u8>)
    requires
        n <= 8,
    ensures
        r@ == le_bytes(x as nat, n as nat),
{
    let mut out: Vec<u8> = Vec::new();
    let mut rest: u64 = x;
    let mut k: usize = 0;
    proof {
        assert(pow256(0) == 1);
        assert(x as nat / 1 == x) by (nonlinear_arith);
    }
    while k < n
        invariant
            k <= n,
            rest == x as nat / pow256(k as nat),
            out@ =~= le_bytes(x as nat, k as nat),
        decreases n - k,
    {
        proof {
            lemma_pow256_positive(k as nat);
            lemma_div_denominator(x as int, pow256(k as nat) as int, 256);
            assert(pow256((k + 1) as nat) == 256 * pow256(k as nat));
        }
        out.push((rest % 256) as u8);
        rest = rest / 256;
        k = k + 1;
    }
    out
}

/// Reverses `v` in place.
pub fn reverse_bytes(v: &mut Vec<u8>)
    ensures
        final(v)@ == old(v)@.reverse(),
{
    let n = v.len();
    let mut out: Vec<u8> = Vec::new();
    let mut k: usize = n;
    while k > 0
        invariant
            k <= n,
            n == v@.len(),
            v@ == old(v)@,
            out@ =~= old(v)@.subrange(k as int, n as int).reverse(),
        decreases k,
    {
        out.push(v[k - 1]);
        k = k - 1;
    }
    proof {
        assert(old(v)@.subrange(0, n as int) =~= old(v)@);
    }
    *v = out;
}

} // verus!
