//! Prime field elements as the circuits use them.

use vstd::arithmetic::power::pow;
use vstd::prelude::*;

verus! {

/// The value of a little endian sequence of bytes.
pub open spec fn le_value(bytes: Seq<u8>) -> int
    decreases bytes.len(),
{
    if bytes.len() == 0 {
        0
    } else {
        bytes[0] as int + 256 * le_value(bytes.skip(1))
    }
}

/// Byte `k` of the little endian form of `value`.
pub open spec fn le_byte(value: int, k: nat) -> int
    decreases k,
{
    if k == 0 {
        value % 256
    } else {
        le_byte(value / 256, (k - 1) as nat)
    }
}

/// The bytes of a little endian form are those of its value.
pub proof fn lemma_le_byte(bytes: Seq<u8>, k: nat)
    requires
        k < bytes.len(),
    ensures
        bytes[k as int] == le_byte(le_value(bytes), k),
    decreases k,
{
    let rest = bytes.skip(1);
    let v = le_value(bytes);
    assert(v == bytes[0] as int + 256 * le_value(rest));
    assert(v % 256 == bytes[0] && v / 256 == le_value(rest));
    if k > 0 {
        lemma_le_byte(rest, (k - 1) as nat);
    }
}

/// `x` raised to `e`, reduced modulo `m`.
pub open spec fn pow_mod(x: int, e: nat, m: int) -> int {
    pow(x, e) % m
}

/// `inverse` is the multiplicative inverse of `x` modulo `m`.
pub open spec fn is_inverse(inverse: int, x: int, m: int) -> bool {
    0 <= inverse < m && (inverse * x) % m == 1
}

/// A finite field of prime order, with its elements identified with the integers below the order.
pub trait Field: Sized + Copy {
    /// The order of the field.
    spec fn modulus() -> int;

    /// The canonical integer that an element stands for.
    spec fn val(&self) -> int;

    /// Every element stands for an integer below the order, and the order exceeds any `u64`.
    proof fn val_range(&self)
        ensures
            0 <= self.val() < Self::modulus(),
            Self::modulus() > 0x1_0000_0000_0000_0000,
    ;

    fn from_u64(v: u64) -> (r: Self)
        ensures
            r.val() == v,
    ;

    fn add(&self, other: &Self) -> (r: Self)
        ensures
            r.val() == (self.val() + other.val()) % Self::modulus(),
    ;

    fn mul(&self, other: &Self) -> (r: Self)
        ensures
            r.val() == (self.val() * other.val()) % Self::modulus(),
    ;

    fn sub(&self, other: &Self) -> (r: Self)
        ensures
            r.val() == (self.val() - other.val()) % Self::modulus(),
    ;

    /// The little endian form of the canonical integer.
    fn to_repr(&self) -> (r: [u8; 32])
        ensures
            le_value(r@) == self.val(),
    ;

    /// A power of a non-zero element is not zero.
    fn pow(&self, e: u64) -> (r: Self)
        ensures
            r.val() == pow_mod(self.val(), e as nat, Self::modulus()),
            self.val() != 0 ==> r.val() != 0,
    ;

    /// The multiplicative inverse, which zero alone lacks.
    fn invert(&self) -> (r: Option<Self>)
        ensures
            r is None <==> self.val() == 0,
            r matches Some(i) ==> is_inverse(i.val(), self.val(), Self::modulus()),
    ;

    fn zero() -> (r: Self)
        ensures
            r.val() == 0,
    {
        Self::from_u64(0)
    }

    fn one() -> (r: Self)
        ensures
            r.val() == 1,
    {
        Self::from_u64(1)
    }
}

/// The order of the scalar field of the curve BN254.
pub open spec fn bn256_order() -> int {
    0x30644e72e131a029b85045b68181585d2833e84879b9709143e1f593f0000001int
}

/// The bytes are the canonical little endian form of a scalar of BN254.
pub open spec fn is_canonical(bytes: Seq<u8>) -> bool {
    bytes.len() == 32 && 0 <= le_value(bytes) < bn256_order()
}

/// Calls `halo2curves::bn256::Fr::from(u64)`: the scalar of that value.
#[verifier::external_body]
fn bn256_from_u64(v: u64) -> (r: [u8; 32])
    ensures
        is_canonical(r@),
        le_value(r@) == v,
{
    halo2curves::bn256::Fr::from(v).to_bytes()
}

/// Calls `+` of `halo2curves::bn256::Fr`: the sum modulo the order of the field.
#[verifier::external_body]
fn bn256_add(a: &[u8; 32], b: &[u8; 32]) -> (r: [u8; 32])
    requires
        is_canonical(a@),
        is_canonical(b@),
    ensures
        is_canonical(r@),
        le_value(r@) == (le_value(a@) + le_value(b@)) % bn256_order(),
{
    let x = halo2curves::bn256::Fr::from_bytes(a).unwrap();
    let y = halo2curves::bn256::Fr::from_bytes(b).unwrap();
    (x + y).to_bytes()
}

/// Calls `-` of `halo2curves::bn256::Fr`: the difference modulo the order of the field.
#[verifier::external_body]
fn bn256_sub(a: &[u8; 32], b: &[u8; 32]) -> (r: [u8; 32])
    requires
        is_canonical(a@),
        is_canonical(b@),
    ensures
        is_canonical(r@),
        le_value(r@) == (le_value(a@) - le_value(b@)) % bn256_order(),
{
    let x = halo2curves::bn256::Fr::from_bytes(a).unwrap();
    let y = halo2curves::bn256::Fr::from_bytes(b).unwrap();
    (x - y).to_bytes()
}

/// Calls `*` of `halo2curves::bn256::Fr`: the product modulo the order of the field.
#[verifier::external_body]
fn bn256_mul(a: &[u8; 32], b: &[u8; 32]) -> (r: [u8; 32])
    requires
        is_canonical(a@),
        is_canonical(b@),
    ensures
        is_canonical(r@),
        le_value(r@) == (le_value(a@) * le_value(b@)) % bn256_order(),
{
    let x = halo2curves::bn256::Fr::from_bytes(a).unwrap();
    let y = halo2curves::bn256::Fr::from_bytes(b).unwrap();
    (x * y).to_bytes()
}

/// Calls `pow` of `halo2curves::bn256::Fr`, with the exponent as a single limb: the power modulo
/// the order of the field. The order is prime, so a power of a non-zero scalar is not zero.
#[verifier::external_body]
fn bn256_pow(a: &[u8; 32], e: u64) -> (r: [u8; 32])
    requires
        is_canonical(a@),
    ensures
        is_canonical(r@),
        le_value(r@) == pow_mod(le_value(a@), e as nat, bn256_order()),
        le_value(a@) != 0 ==> le_value(r@) != 0,
{
    let x = halo2curves::bn256::Fr::from_bytes(a).unwrap();
    halo2curves::ff::Field::pow(&x, [e, 0, 0, 0]).to_bytes()
}

/// Calls `invert` of `halo2curves::bn256::Fr`: the inverse modulo the order of the field, which
/// every scalar but zero has.
#[verifier::external_body]
fn bn256_invert(a: &[u8; 32]) -> (r: Option<[u8; 32]>)
    requires
        is_canonical(a@),
    ensures
        r is None <==> le_value(a@) == 0,
        r matches Some(i) ==> is_canonical(i@) && is_inverse(
            le_value(i@),
            le_value(a@),
            bn256_order(),
        ),
{
    let x = halo2curves::bn256::Fr::from_bytes(a).unwrap();
    let inverse: Option<halo2curves::bn256::Fr> = halo2curves::ff::Field::invert(&x).into();
    inverse.map(|i| i.to_bytes())
}

/// A scalar of the curve BN254, held in its canonical little endian form.
#[derive(Clone, Copy, Debug, PartialEq, Eq)]
pub struct Fr {
    bytes: [u8; 32],
}

impl Fr {
    #[verifier::type_invariant]
    spec fn canonical(self) -> bool {
        is_canonical(self.bytes@)
    }

    /// The little endian form of the integer below the order that the scalar stands for.
    pub fn to_bytes(&self) -> (r: [u8; 32])
        ensures
            is_canonical(r@),
            le_value(r@) == self.val(),
    {
        proof {
            use_type_invariant(self);
            vstd::arithmetic::div_mod::lemma_small_mod(
                le_value(self.bytes@) as nat,
                bn256_order() as nat,
            );
        }
        self.bytes
    }
}

impl Field for Fr {
    open spec fn modulus() -> int {
        bn256_order()
    }

    closed spec fn val(&self) -> int {
        le_value(self.bytes@) % bn256_order()
    }

    proof fn val_range(&self) {
    }

    fn from_u64(v: u64) -> (r: Self) {
        let r = Fr { bytes: bn256_from_u64(v) };
        proof {
            vstd::arithmetic::div_mod::lemma_small_mod(
                le_value(r.bytes@) as nat,
                bn256_order() as nat,
            );
        }
        r
    }

    fn add(&self, other: &Self) -> (r: Self) {
        let r = Fr { bytes: bn256_add(&self.to_bytes(), &other.to_bytes()) };
        proof {
            vstd::arithmetic::div_mod::lemma_small_mod(
                le_value(r.bytes@) as nat,
                bn256_order() as nat,
            );
        }
        r
    }

    fn sub(&self, other: &Self) -> (r: Self) {
        let r = Fr { bytes: bn256_sub(&self.to_bytes(), &other.to_bytes()) };
        proof {
            vstd::arithmetic::div_mod::lemma_small_mod(
                le_value(r.bytes@) as nat,
                bn256_order() as nat,
            );
        }
        r
    }

    fn to_repr(&self) -> (r: [u8; 32]) {
        self.to_bytes()
    }

    fn mul(&self, other: &Self) -> (r: Self) {
        let r = Fr { bytes: bn256_mul(&self.to_bytes(), &other.to_bytes()) };
        proof {
            vstd::arithmetic::div_mod::lemma_small_mod(
                le_value(r.bytes@) as nat,
                bn256_order() as nat,
            );
        }
        r
    }

    fn pow(&self, e: u64) -> (r: Self) {
        let r = Fr { bytes: bn256_pow(&self.to_bytes(), e) };
        proof {
            vstd::arithmetic::div_mod::lemma_small_mod(
                le_value(r.bytes@) as nat,
                bn256_order() as nat,
            );
        }
        r
    }

    fn invert(&self) -> (r: Option<Self>) {
        match bn256_invert(&self.to_bytes()) {
            Some(bytes) => {
                let r = Fr { bytes };
                proof {
                    vstd::arithmetic::div_mod::lemma_small_mod(
                        le_value(r.bytes@) as nat,
                        bn256_order() as nat,
                    );
                }
                Some(r)
            },
            None => None,
        }
    }
}

} // verus!
