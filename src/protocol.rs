use crate::algebra::{is_inverse, mod_add, pow_chain, product};
use crate::bignum::BigNat;
use crate::paillier::{
    decrypts_correctly, encrypts, formed_by_encryption, inverts, is_unit, lemma_encrypts_pow,
    lemma_encrypts_unmask, lemma_formed_encrypts, paillier_decryption,
};
use vstd::arithmetic::div_mod::*;
use vstd::arithmetic::mul::lemma_mul_is_commutative;
use vstd::arithmetic::power::*;
use vstd::prelude::*;

verus! {

/// The sum of a sequence of integers.
pub open spec fn sum(xs: Seq<int>) -> int
    decreases xs.len(),
{
    if xs.len() == 0 {
        0
    } else {
        sum(xs.drop_last()) + xs.last()
    }
}

/// The running ciphertext after the unwind leg: `c` multiplied by each of
/// `invs` in turn, reduced modulo `nn` after every step.
pub open spec fn unwind_chain(c: int, invs: Seq<int>, nn: int) -> int
    decreases invs.len(),
{
    if invs.len() == 0 {
        c
    } else {
        (unwind_chain(c, invs.drop_last(), nn) * invs.last()) % nn
    }
}

/// An encryption lies in `[0, n²)`.
proof fn lemma_encrypts_range(n: int, c: int, m: int)
    requires
        n > 0,
        encrypts(n, c, m),
    ensures
        0 <= c < n * n,
{
    assert(n * n > 0) by (nonlinear_arith)
        requires
            n > 0,
    ;
    let r = choose|r: int| c == ((1 + m * n) * #[trigger] pow(r, n as nat)) % (n * n);
    lemma_mod_bound((1 + m * n) * pow(r, n as nat), n * n);
}

/// A value congruent to an invertible one is invertible.
proof fn lemma_unit_cong(a: int, b: int, m: int)
    requires
        m > 1,
        a % m == b % m,
        is_unit(a, m),
    ensures
        is_unit(b, m),
{
    let x = choose|x: int| #[trigger] inverts(a, x, m);
    lemma_mul_mod_noop_left(a, x, m);
    lemma_mul_mod_noop_left(b, x, m);
    assert(inverts(b, x, m));
}

/// A product of invertible values is invertible.
proof fn lemma_unit_mul(a: int, b: int, m: int)
    requires
        m > 1,
        is_unit(a, m),
        is_unit(b, m),
    ensures
        is_unit(a * b, m),
{
    let x = choose|x: int| #[trigger] inverts(a, x, m);
    let y = choose|y: int| #[trigger] inverts(b, y, m);
    assert((a * b) * (x * y) == (a * x) * (b * y)) by (nonlinear_arith);
    lemma_mul_mod_noop(a * x, b * y, m);
    lemma_small_mod(1, m as nat);
    assert(inverts(a * b, x * y, m));
}

/// A power of an invertible value is invertible.
proof fn lemma_unit_pow(c: int, k: nat, m: int)
    requires
        m > 1,
        is_unit(c, m),
    ensures
        is_unit(pow(c, k), m),
    decreases k,
{
    reveal(pow);
    if k == 0 {
        lemma_small_mod(1, m as nat);
        assert(inverts(1, 1, m));
    } else {
        lemma_unit_pow(c, (k - 1) as nat, m);
        lemma_unit_mul(c, pow(c, (k - 1) as nat), m);
    }
}

/// Reducing an invertible value keeps it invertible.
proof fn lemma_unit_mod(c: int, m: int)
    requires
        m > 1,
        is_unit(c, m),
    ensures
        is_unit(c % m, m),
{
    lemma_mod_twice(c, m);
    lemma_unit_cong(c, c % m, m);
}

/// The forward leg keeps an invertible encryption of the product so far.
proof fn lemma_forward_leg(n: int, c0: int, x0: int, xs: Seq<nat>)
    requires
        n > 1,
        encrypts(n, c0, x0),
        is_unit(c0, n * n),
    ensures
        encrypts(n, pow_chain(c0, xs, n * n), x0 * product(xs)),
        is_unit(pow_chain(c0, xs, n * n), n * n),
    decreases xs.len(),
{
    let nn = n * n;
    assert(nn > 1) by (nonlinear_arith)
        requires
            n > 1,
            nn == n * n,
    ;
    if xs.len() == 0 {
        let r = choose|r: int| c0 == ((1 + x0 * n) * #[trigger] pow(r, n as nat)) % (n * n);
        lemma_mod_twice((1 + x0 * n) * pow(r, n as nat), nn);
        assert(pow_chain(c0, xs, nn) == c0);
        assert(product(xs) == 1);
        assert(x0 * product(xs) == x0);
    } else {
        let prefix = xs.drop_last();
        lemma_forward_leg(n, c0, x0, prefix);
        let c = pow_chain(c0, prefix, nn);
        lemma_encrypts_pow(n, c, x0 * product(prefix), xs.last());
        assert(x0 * product(prefix) * xs.last() == x0 * product(xs)) by (nonlinear_arith)
            requires
                product(xs) == product(prefix) * xs.last(),
        ;
        lemma_unit_pow(c, xs.last(), nn);
        lemma_unit_mod(pow(c, xs.last()), nn);
        assert(pow_chain(c0, xs, nn) == pow(c, xs.last()) % nn);
        assert(encrypts(n, pow(c, xs.last()) % nn, x0 * product(prefix) * xs.last()));
    }
}

/// The unwind leg keeps an invertible encryption of the value minus the
/// masks removed so far.
proof fn lemma_unwind_leg(
    n: int,
    c: int,
    m: int,
    masks: Seq<int>,
    mask_cts: Seq<int>,
    invs: Seq<int>,
)
    requires
        n > 1,
        encrypts(n, c, m),
        is_unit(c, n * n),
        masks.len() == mask_cts.len() == invs.len(),
        forall|j: int|
            0 <= j < invs.len() ==> encrypts(n, #[trigger] mask_cts[j], masks[j])
                && is_inverse(mask_cts[j], invs[j], n * n),
    ensures
        encrypts(n, unwind_chain(c, invs, n * n), m - sum(masks)),
        is_unit(unwind_chain(c, invs, n * n), n * n),
    decreases invs.len(),
{
    let nn = n * n;
    assert(nn > 1) by (nonlinear_arith)
        requires
            n > 1,
            nn == n * n,
    ;
    if invs.len() > 0 {
        let k = invs.len() - 1;
        lemma_unwind_leg(n, c, m, masks.drop_last(), mask_cts.drop_last(), invs.drop_last());
        let cur = unwind_chain(c, invs.drop_last(), nn);
        assert(encrypts(n, mask_cts[k], masks[k]));
        lemma_encrypts_unmask(n, cur, m - sum(masks.drop_last()), mask_cts[k], masks[k], invs[k]);
        assert(m - sum(masks.drop_last()) - masks[k] == m - sum(masks));
        assert((invs[k] * mask_cts[k]) % nn == 1) by {
            lemma_mul_is_commutative(invs[k], mask_cts[k]);
        }
        assert(inverts(invs[k], mask_cts[k], nn));
        lemma_unit_mul(cur, invs[k], nn);
        lemma_unit_mod(cur * invs[k], nn);
    }
}

/// The sum of the values of `xs`.
pub open spec fn sum_values(xs: Seq<BigNat>) -> int
    decreases xs.len(),
{
    if xs.len() == 0 {
        0
    } else {
        sum_values(xs.drop_last()) + xs.last()@
    }
}

/// Adds up additive shares modulo `modulus`: the masks removed on the unwind
/// leg together with the value party 0 decrypted give back the product.
pub fn sum_shares(shares: &Vec<BigNat>, modulus: &BigNat) -> (r: BigNat)
    requires
        modulus@ > 0,
    ensures
        r@ == sum_values(shares@) % (modulus@ as int),
{
    let mut acc = BigNat::from_u64(0);
    let mut i: usize = 0;
    while i < shares.len()
        invariant
            modulus@ > 0,
            i <= shares@.len(),
            acc@ == sum_values(shares@.subrange(0, i as int)) % (modulus@ as int),
        decreases shares@.len() - i,
    {
        let ghost prefix = shares@.subrange(0, i as int);
        let next = mod_add(&shares[i], &acc, modulus);
        proof {
            let m = modulus@ as int;
            assert(shares@.subrange(0, i + 1).drop_last() =~= prefix);
            lemma_add_mod_noop_right(shares@[i as int]@ as int, sum_values(prefix), m);
            assert(next@ == (sum_values(prefix) + shares@[i as int]@) % m);
        }
        acc = next;
        i = i + 1;
    }
    assert(shares@.subrange(0, i as int) =~= shares@);
    acc
}

/// A full run of the ring: party 0 encrypts its input `x0`, the forward leg
/// folds in the inputs `xs` one modular exponentiation at a time, and the
/// unwind leg removes, one party at a time, an encryption of each mask by
/// multiplying with its inverse modulo `n²`. When party 0's ciphertext is
/// invertible and its key decrypts correctly, the value it decrypts is the
/// product of the folded inputs minus the sum of the masks, modulo `n`.
pub proof fn lemma_ring_result(
    p: nat,
    q: nat,
    x0: nat,
    c0: nat,
    xs: Seq<nat>,
    masks: Seq<nat>,
    mask_cts: Seq<nat>,
    invs: Seq<int>,
)
    requires
        p > 1,
        q > 1,
        decrypts_correctly(p, q),
        encrypts((p * q) as int, c0 as int, x0 as int),
        is_unit(c0 as int, ((p * q) * (p * q)) as int),
        masks.len() == mask_cts.len() == invs.len(),
        forall|j: int|
            0 <= j < invs.len() ==> formed_by_encryption(
                p * q,
                (p * q) * (p * q),
                masks[j],
                #[trigger] mask_cts[j],
            ) && is_inverse(mask_cts[j] as int, invs[j], ((p * q) * (p * q)) as int),
    ensures
        paillier_decryption(
            p,
            q,
            unwind_chain(
                pow_chain(c0 as int, xs, ((p * q) * (p * q)) as int),
                invs,
                ((p * q) * (p * q)) as int,
            )
                as nat,
        ) == (x0 * product(xs) - sum(masks.map_values(|x: nat| x as int))) % ((p * q) as int),
{
    let n = (p * q) as int;
    let nn = n * n;
    assert(n > 1) by (nonlinear_arith)
        requires
            p > 1,
            q > 1,
            n == p * q,
    ;
    let ms = masks.map_values(|x: nat| x as int);
    let cts = mask_cts.map_values(|x: nat| x as int);
    assert forall|j: int| 0 <= j < invs.len() implies encrypts(n, #[trigger] cts[j], ms[j])
        && is_inverse(cts[j], invs[j], n * n) by {
        lemma_formed_encrypts((p * q) as nat, masks[j], mask_cts[j]);
    }
    lemma_forward_leg(n, c0 as int, x0 as int, xs);
    let c = pow_chain(c0 as int, xs, nn);
    lemma_unwind_leg(n, c, (x0 * product(xs)) as int, ms, cts, invs);
    let fin = unwind_chain(c, invs, nn);
    lemma_encrypts_range(n, fin, x0 * product(xs) - sum(ms));
    assert(encrypts(n, (fin as nat) as int, x0 * product(xs) - sum(ms)));
}


/// When the masks removed on the unwind leg sum to a multiple of `n`, party 0
/// decrypts exactly the product of the inputs folded in on the forward leg,
/// modulo `n`.
pub proof fn lemma_ring_product(
    p: nat,
    q: nat,
    x0: nat,
    c0: nat,
    xs: Seq<nat>,
    masks: Seq<nat>,
    mask_cts: Seq<nat>,
    invs: Seq<int>,
)
    requires
        p > 1,
        q > 1,
        decrypts_correctly(p, q),
        encrypts((p * q) as int, c0 as int, x0 as int),
        is_unit(c0 as int, ((p * q) * (p * q)) as int),
        masks.len() == mask_cts.len() == invs.len(),
        forall|j: int|
            0 <= j < invs.len() ==> formed_by_encryption(
                p * q,
                (p * q) * (p * q),
                masks[j],
                #[trigger] mask_cts[j],
            ) && is_inverse(mask_cts[j] as int, invs[j], ((p * q) * (p * q)) as int),
        sum(masks.map_values(|x: nat| x as int)) % ((p * q) as int) == 0,
    ensures
        paillier_decryption(
            p,
            q,
            unwind_chain(
                pow_chain(c0 as int, xs, ((p * q) * (p * q)) as int),
                invs,
                ((p * q) * (p * q)) as int,
            ) as nat,
        ) == ((x0 * product(xs)) as int) % ((p * q) as int),
{
    lemma_ring_result(p, q, x0, c0, xs, masks, mask_cts, invs);
    let n = (p * q) as int;
    assert(n > 0) by (nonlinear_arith)
        requires
            p > 1,
            q > 1,
            n == p * q,
    ;
    let s = sum(masks.map_values(|x: nat| x as int));
    lemma_sub_mod_noop_right((x0 * product(xs)) as int, s, n);
    lemma_mod_self_0(n);
}

} // verus!
