//! Random linear combinations of bytes.

use crate::field::{is_inverse, pow_mod, Field};
use vstd::arithmetic::div_mod::{
    lemma_add_mod_noop, lemma_mod_bound, lemma_mod_twice, lemma_mul_mod_noop_left,
    lemma_mul_mod_noop_right, lemma_small_mod,
};
use vstd::arithmetic::power::pow;
use vstd::prelude::*;

verus! {

/// The random linear combination of `bytes`, read as a polynomial in `r` with the coefficient of
/// the highest degree first, modulo `m`.
pub open spec fn rlc_be(bytes: Seq<u8>, r: int, m: int) -> int
    decreases bytes.len(),
{
    if bytes.len() == 0 {
        0
    } else {
        (rlc_be(bytes.drop_last(), r, m) * r + bytes.last()) % m
    }
}

/// A random linear combination is a residue.
pub proof fn lemma_rlc_be_range(bytes: Seq<u8>, r: int, m: int)
    requires
        m > 0,
    ensures
        0 <= rlc_be(bytes, r, m) < m,
{
    if bytes.len() > 0 {
        lemma_mod_bound(rlc_be(bytes.drop_last(), r, m) * r + bytes.last(), m);
    }
}

/// Combining a concatenation shifts the front part by the length of the back part.
pub proof fn lemma_rlc_be_concat(a: Seq<u8>, b: Seq<u8>, r: int, m: int)
    requires
        m > 0,
    ensures
        rlc_be(a + b, r, m) == (rlc_be(a, r, m) * pow_mod(r, b.len(), m) + rlc_be(b, r, m)) % m,
    decreases b.len(),
{
    let x = rlc_be(a, r, m);
    if b.len() == 0 {
        assert(a + b =~= a);
        lemma_rlc_be_range(a, r, m);
        lemma_small_mod(x as nat, m as nat);
        reveal(pow);
        assert(pow(r, 0) == 1);
        lemma_mul_mod_noop_right(x, 1, m);
        assert(x * 1 == x);
    } else {
        let b0 = b.drop_last();
        let y = rlc_be(b0, r, m);
        let l = b.last() as int;
        let k = b0.len();
        assert((a + b).drop_last() =~= a + b0);
        lemma_rlc_be_concat(a, b0, r, m);
        // ((x * P + y) % m * r + l) % m
        let s = x * pow_mod(r, k, m) + y;
        lemma_shift_step(s, r, l, m);
        lemma_shift_step(y, r, l, m);
        assert(rlc_be(a + b, r, m) == (s * r + l) % m);
        lemma_rlc_be_range(b0, r, m);
        lemma_small_mod(y as nat, m as nat);
        // rlc_be(b) = (y * r + l) % m
        let t = y * r + l;
        assert(rlc_be(b, r, m) == t % m);
        assert(pow(r, k + 1) == pow(r, k) * r) by {
            reveal(pow);
            assert(r * pow(r, k) == pow(r, k) * r) by (nonlinear_arith);
        }
        lemma_mul_mod_noop_left(pow(r, k), r, m);
        assert(pow_mod(r, k + 1, m) == (pow_mod(r, k, m) * r) % m);
        let q = pow_mod(r, k, m);
        // (x * ((q * r) % m) + t % m) % m == (x * (q * r) + t) % m
        lemma_mul_mod_noop_right(x, q * r, m);
        lemma_add_mod_noop(x * (q * r), t, m);
        lemma_add_mod_noop(x * ((q * r) % m), t % m, m);
        lemma_mod_twice(t, m);
        assert(s * r + l == x * (q * r) + t) by (nonlinear_arith)
            requires
                s == x * q + y,
                t == y * r + l,
        ;
        assert(b.len() == k + 1);
    }
}

proof fn lemma_shift_step(s: int, r: int, l: int, m: int)
    requires
        m > 0,
    ensures
        ((s % m) * r + l) % m == (s * r + l) % m,
{
    lemma_mul_mod_noop_left(s, r, m);
    lemma_add_mod_noop((s % m) * r, l, m);
    lemma_add_mod_noop(s * r, l, m);
}

/// A combination of zeros is zero.
pub proof fn lemma_rlc_be_zeros(k: nat, r: int, m: int)
    requires
        m > 0,
    ensures
        rlc_be(Seq::new(k, |i: int| 0u8), r, m) == 0,
    decreases k,
{
    if k > 0 {
        let s = Seq::new(k, |i: int| 0u8);
        assert(s.drop_last() =~= Seq::new((k - 1) as nat, |i: int| 0u8));
        lemma_rlc_be_zeros((k - 1) as nat, r, m);
        assert(0 * r + 0 == 0);
        lemma_small_mod(0, m as nat);
    }
}

/// Appending `k` zeros to the bytes multiplies the combination by `r` raised to `k`.
pub proof fn lemma_rlc_be_pad(bytes: Seq<u8>, k: nat, r: int, m: int)
    requires
        m > 0,
    ensures
        rlc_be(bytes + Seq::new(k, |i: int| 0u8), r, m) == (rlc_be(bytes, r, m) * pow_mod(r, k, m))
            % m,
{
    lemma_rlc_be_concat(bytes, Seq::new(k, |i: int| 0u8), r, m);
    lemma_rlc_be_zeros(k, r, m);
}

/// A factor with an inverse can be cancelled.
pub proof fn lemma_cancel(x: int, y: int, c: int, m: int)
    requires
        m > 1,
        0 <= x < m,
        0 <= y < m,
        (x * c) % m == (y * c) % m,
        exists|i: int| is_inverse(i, c, m),
    ensures
        x == y,
{
    let i = choose|i: int| is_inverse(i, c, m);
    lemma_undo(x, i, c, m);
    lemma_undo(y, i, c, m);
}

/// Multiplying by `c` and then by its inverse restores a residue.
pub proof fn lemma_undo(x: int, i: int, c: int, m: int)
    requires
        m > 1,
        0 <= x < m,
        is_inverse(i, c, m),
    ensures
        (((x * c) % m) * i) % m == x,
{
    lemma_mul_mod_noop_left(x * c, i, m);
    assert((x * c) * i == x * (i * c)) by (nonlinear_arith);
    lemma_mul_mod_noop_right(x, i * c, m);
    assert(x * 1 == x);
    lemma_small_mod(x as nat, m as nat);
}

/// The random linear combination of `values` with the first of them as the constant term.
pub fn value<F: Field>(values: &Vec<u8>, randomness: F) -> (r: F)
    ensures
        r.val() == rlc_be(values@.reverse(), randomness.val(), F::modulus()),
{
    let mut acc: F = F::zero();
    let mut i: usize = values.len();
    let ghost rev = values@.reverse();
    proof {
        randomness.val_range();
        assert(rev.take(0) =~= Seq::<u8>::empty());
    }
    while i > 0
        invariant
            i <= values@.len(),
            rev == values@.reverse(),
            F::modulus() > 0,
            acc.val() == rlc_be(rev.take(values@.len() - i), randomness.val(), F::modulus()),
        decreases i,
    {
        let term = F::from_u64(values[i - 1] as u64);
        let ghost before = acc.val();
        acc = acc.mul(&randomness).add(&term);
        proof {
            let k = values@.len() - i;
            assert(rev.take(k + 1).drop_last() =~= rev.take(k));
            assert(rev.take(k + 1).last() == values@[i - 1]);
            lemma_add_mod_noop(before * randomness.val(), values@[i - 1] as int, F::modulus());
            lemma_add_mod_noop(
                (before * randomness.val()) % F::modulus(),
                values@[i - 1] as int,
                F::modulus(),
            );
            lemma_mod_twice(before * randomness.val(), F::modulus());
        }
        i = i - 1;
    }
    proof {
        assert(rev.take(values@.len() as int) =~= rev);
    }
    acc
}

/// The bytes, the last one first.
fn reversed(bytes: &Vec<u8>) -> (r: Vec<u8>)
    ensures
        r@ == bytes@.reverse(),
{
    let mut out: Vec<u8> = Vec::new();
    let mut i: usize = bytes.len();
    while i > 0
        invariant
            i <= bytes@.len(),
            out@ =~= bytes@.reverse().take(bytes@.len() - i),
        decreases i,
    {
        i = i - 1;
        out.push(bytes[i]);
    }
    out
}

/// The combination of the bytes, the first of them with the highest power.
pub fn combine<F: Field>(bytes: &Vec<u8>, r: F) -> (acc: F)
    ensures
        acc.val() == rlc_be(bytes@, r.val(), F::modulus()),
{
    let rev = reversed(bytes);
    assert(rev@.reverse() =~= bytes@);
    value(&rev, r)
}

} // verus!
