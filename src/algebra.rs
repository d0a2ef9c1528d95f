use crate::bignum::BigNat;
use curv::arithmetic::traits::{Converter, Modulo};
use curv::BigInt;
use vstd::arithmetic::power::*;
use vstd::prelude::*;

verus! {

/// Greatest common divisor, by Euclid's rule.
pub open spec fn gcd(a: nat, b: nat) -> nat
    decreases b,
{
    if b == 0 {
        a
    } else {
        gcd(b, a % b)
    }
}

/// `x` is an inverse of `v` modulo `m`, taken in `[0, m)`.
pub open spec fn is_inverse(v: int, x: int, m: int) -> bool {
    0 <= x < m && (v * x) % m == 1
}

/// Reducing the first argument modulo the second leaves the gcd unchanged.
pub proof fn lemma_gcd_reduce(a: nat, m: nat)
    requires
        m > 0,
    ensures
        gcd(a % m, m) == gcd(a, m),
{
    assert((a % m) % m == a % m) by {
        vstd::arithmetic::div_mod::lemma_mod_twice(a as int, m as int);
    }
    assert(gcd(a % m, m) == gcd(m, (a % m) % m));
    assert(gcd(a, m) == gcd(m, a % m));
}

/// The error of `mod_inverse`: the value shares a factor with the modulus.
#[derive(Clone, Copy, Debug, PartialEq, Eq)]
pub struct NoInverse;

/// Relies on curv's `Modulo::mod_pow` (GMP `mpz_powm`): `base^exponent mod
/// modulus`, in `[0, modulus)`.
#[verifier::external_body]
fn curv_mod_pow(base: &BigNat, exponent: &BigNat, modulus: &BigNat) -> (r: BigNat)
    requires
        modulus@ > 0,
    ensures
        r@ == pow(base@ as int, exponent@) % (modulus@ as int),
{
    let b = BigInt::from_bytes(&base.bytes);
    let e = BigInt::from_bytes(&exponent.bytes);
    let m = BigInt::from_bytes(&modulus.bytes);
    BigNat { bytes: BigInt::mod_pow(&b, &e, &m).to_bytes() }
}

/// Relies on curv's `Modulo::mod_mul`: the product reduced by `mod_floor`.
#[verifier::external_body]
fn curv_mod_mul(a: &BigNat, b: &BigNat, modulus: &BigNat) -> (r: BigNat)
    requires
        modulus@ > 0,
    ensures
        r@ == (a@ * b@) % modulus@,
{
    let x = BigInt::from_bytes(&a.bytes);
    let y = BigInt::from_bytes(&b.bytes);
    let m = BigInt::from_bytes(&modulus.bytes);
    BigNat { bytes: BigInt::mod_mul(&x, &y, &m).to_bytes() }
}

/// Relies on curv's `Modulo::mod_add`: the sum reduced by `mod_floor`.
#[verifier::external_body]
fn curv_mod_add(a: &BigNat, b: &BigNat, modulus: &BigNat) -> (r: BigNat)
    requires
        modulus@ > 0,
    ensures
        r@ == (a@ + b@) % modulus@,
{
    let x = BigInt::from_bytes(&a.bytes);
    let y = BigInt::from_bytes(&b.bytes);
    let m = BigInt::from_bytes(&modulus.bytes);
    BigNat { bytes: BigInt::mod_add(&x, &y, &m).to_bytes() }
}

/// Relies on curv's `Modulo::mod_inv` (GMP `mpz_invert`): an inverse in
/// `[0, modulus)` exactly when the value and the modulus are coprime.
#[verifier::external_body]
fn curv_mod_inv(value: &BigNat, modulus: &BigNat) -> (r: Option<BigNat>)
    requires
        modulus@ > 1,
    ensures
        r.is_some() == (gcd(value@ % modulus@, modulus@) == 1),
        r matches Some(x) ==> is_inverse(value@ as int, x@ as int, modulus@ as int),
{
    let v = BigInt::from_bytes(&value.bytes);
    let m = BigInt::from_bytes(&modulus.bytes);
    BigInt::mod_inv(&v, &m).map(|x| BigNat { bytes: x.to_bytes() })
}

/// `base^exponent mod modulus`.
pub fn mod_pow(base: &BigNat, exponent: &BigNat, modulus: &BigNat) -> (r: BigNat)
    requires
        modulus@ > 0,
    ensures
        r@ == pow(base@ as int, exponent@) % (modulus@ as int),
{
    curv_mod_pow(base, exponent, modulus)
}

/// `a * b mod modulus`.
pub fn mod_mul(a: &BigNat, b: &BigNat, modulus: &BigNat) -> (r: BigNat)
    requires
        modulus@ > 0,
    ensures
        r@ == (a@ * b@) % modulus@,
{
    curv_mod_mul(a, b, modulus)
}

/// `a + b mod modulus`.
pub fn mod_add(a: &BigNat, b: &BigNat, modulus: &BigNat) -> (r: BigNat)
    requires
        modulus@ > 0,
    ensures
        r@ == (a@ + b@) % modulus@,
{
    curv_mod_add(a, b, modulus)
}

/// The inverse of `value` modulo `modulus`; `NoInverse` exactly when the two
/// share a factor.
pub fn mod_inverse(value: &BigNat, modulus: &BigNat) -> (r: Result<BigNat, NoInverse>)
    requires
        modulus@ > 1,
    ensures
        r.is_ok() == (gcd(value@, modulus@) == 1),
        r matches Ok(x) ==> is_inverse(value@ as int, x@ as int, modulus@ as int),
{
    proof {
        lemma_gcd_reduce(value@, modulus@);
    }
    match curv_mod_inv(value, modulus) {
        Some(x) => Ok(x),
        None => Err(NoInverse),
    }
}

/// The product of a sequence of naturals.
pub open spec fn product(xs: Seq<nat>) -> nat
    decreases xs.len(),
{
    if xs.len() == 0 {
        1
    } else {
        product(xs.drop_last()) * xs.last()
    }
}

/// `c` raised to each exponent of `xs` in turn, reduced modulo `m` after
/// every step, as the parties of the ring do with their inputs.
pub open spec fn pow_chain(c: int, xs: Seq<nat>, m: int) -> int
    decreases xs.len(),
{
    if xs.len() == 0 {
        c % m
    } else {
        pow(pow_chain(c, xs.drop_last(), m), xs.last()) % m
    }
}

/// Raising a running value to each input in turn modulo `m` gives the same
/// result as one exponentiation by the product of all inputs.
pub proof fn lemma_pow_chain(c: int, xs: Seq<nat>, m: int)
    requires
        m > 0,
    ensures
        pow_chain(c, xs, m) == pow(c, product(xs)) % m,
    decreases xs.len(),
{
    if xs.len() == 0 {
        lemma_pow1(c);
    } else {
        let prefix = xs.drop_last();
        lemma_pow_chain(c, prefix, m);
        lemma_pow_mod_noop(pow(c, product(prefix)), xs.last(), m);
        lemma_pow_multiplies(c, product(prefix), xs.last());
    }
}

/// Multiplying a value by the inverse that `mod_inverse` returned for it
/// gives one, for every modulus above one.
pub proof fn lemma_inverse_round_trip(v: nat, m: nat, x: nat)
    requires
        m > 1,
        gcd(v, m) == 1,
        is_inverse(v as int, x as int, m as int),
    ensures
        (v * x) % m == 1,
{
}

} // verus!
