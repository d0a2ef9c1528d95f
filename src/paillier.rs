use crate::algebra::gcd;
use crate::bignum::BigNat;
use curv::arithmetic::traits::Converter;
use curv::BigInt;
use kzen_paillier::{Decrypt, Encrypt, KeyGeneration, Paillier, RawCiphertext, RawPlaintext};
use vstd::arithmetic::div_mod::*;
use vstd::arithmetic::power::*;
use vstd::prelude::*;

verus! {

/// `c` is a Paillier encryption of `m` under the modulus `n` with generator
/// `n + 1`: `c = (1 + m·n) · r^n mod n²` for some `r`.
pub open spec fn encrypts(n: int, c: int, m: int) -> bool {
    exists|r: int| c == ((1 + m * n) * #[trigger] pow(r, n as nat)) % (n * n)
}

/// `x` inverts `c` modulo `m`.
pub open spec fn inverts(c: int, x: int, m: int) -> bool {
    (c * x) % m == 1
}

/// `c` has an inverse modulo `m`.
pub open spec fn is_unit(c: int, m: int) -> bool {
    exists|x: int| #[trigger] inverts(c, x, m)
}

/// The plaintext that the private key `(p, q)` recovers from ciphertext `c`.
pub uninterp spec fn paillier_decryption(p: nat, q: nat, c: nat) -> nat;

/// The private key `(p, q)` turns every invertible encryption under
/// `n = p·q` back into its plaintext modulo `n`.
pub open spec fn decrypts_correctly(p: nat, q: nat) -> bool {
    forall|c: nat, m: int|
        #![trigger encrypts((p * q) as int, c as int, m)]
        encrypts((p * q) as int, c as int, m) && is_unit(c as int, ((p * q) * (p * q)) as int)
            ==> paillier_decryption(p, q, c) == m % ((p * q) as int)
}

/// The ciphertext that encryption forms from plaintext `m` and randomness
/// `r` under modulus `n`, with `nn` standing for `n²`.
pub open spec fn raw_ciphertext(n: nat, nn: nat, m: nat, r: int) -> int {
    (((m * n + 1) % nn) * (pow(r, n) % (nn as int))) % (nn as int)
}

/// `c` is what encryption forms from plaintext `m` with some randomness
/// below `n`.
pub open spec fn formed_by_encryption(n: nat, nn: nat, m: nat, c: nat) -> bool {
    exists|r: int| 0 <= r < n && c == #[trigger] raw_ciphertext(n, nn, m, r)
}

/// Congruence modulo `m` is kept by multiplication.
proof fn lemma_cong_mul(a: int, b: int, c: int, d: int, m: int)
    requires
        m > 0,
        a % m == b % m,
        c % m == d % m,
    ensures
        (a * c) % m == (b * d) % m,
{
    lemma_mul_mod_noop(a, c, m);
    lemma_mul_mod_noop(b, d, m);
}

/// `(1 + a·n)^k ≡ 1 + k·a·n (mod n²)`.
proof fn lemma_generator_pow(n: int, a: int, k: nat)
    requires
        n > 0,
    ensures
        pow(1 + a * n, k) % (n * n) == (1 + k * a * n) % (n * n),
    decreases k,
{
    let nn = n * n;
    assert(nn > 0) by (nonlinear_arith)
        requires
            n > 0,
            nn == n * n,
    ;
    let g = 1 + a * n;
    if k == 0 {
        lemma_pow0(g);
        assert(k * a * n == 0) by (nonlinear_arith)
            requires
                k == 0,
        ;
    } else {
        let k1 = (k - 1) as nat;
        lemma_generator_pow(n, a, k1);
        reveal(pow);
        assert(pow(g, k) == g * pow(g, k1));
        lemma_cong_mul(g, g, pow(g, k1), 1 + k1 * a * n, nn);
        assert(g * (1 + k1 * a * n) == nn * (k1 * a * a) + (1 + k * a * n)) by (nonlinear_arith)
            requires
                k == k1 + 1,
                nn == n * n,
                g == 1 + a * n,
        ;
        lemma_mod_multiples_vanish(k1 * a * a, 1 + k * a * n, nn);
        assert(pow(g, k) % nn == (g * (1 + k1 * a * n)) % nn);
    }
}

/// Raising an encryption of `m` to the power `k` gives an encryption of
/// `m·k`.
pub proof fn lemma_encrypts_pow(n: int, c: int, m: int, k: nat)
    requires
        n > 0,
        encrypts(n, c, m),
    ensures
        encrypts(n, pow(c, k) % (n * n), m * k),
{
    let nn = n * n;
    assert(nn > 0) by (nonlinear_arith)
        requires
            n > 0,
            nn == n * n,
    ;
    let r = choose|r: int| c == ((1 + m * n) * #[trigger] pow(r, n as nat)) % (n * n);
    let g = 1 + m * n;
    let rn = pow(r, n as nat);
    let x = g * rn;
    lemma_pow_mod_noop(x, k, nn);
    lemma_pow_distributes(g, rn, k);
    lemma_pow_multiplies(r, n as nat, k);
    let t = pow(r, k);
    lemma_pow_multiplies(r, k, n as nat);
    assert((n as nat) * k == k * (n as nat)) by (nonlinear_arith);
    assert(pow(rn, k) == pow(t, n as nat));
    lemma_generator_pow(n, m, k);
    lemma_cong_mul(pow(g, k), 1 + k * m * n, pow(t, n as nat), pow(t, n as nat), nn);
    assert(1 + k * m * n == 1 + (m * k) * n) by (nonlinear_arith);
    assert(pow(c, k) % nn == ((1 + (m * k) * n) * pow(t, n as nat)) % nn);
}

/// Multiplying an encryption of `m` by an inverse of an encryption of `rho`
/// gives an encryption of `m - rho`.
pub proof fn lemma_encrypts_unmask(n: int, c: int, m: int, cm: int, rho: int, inv: int)
    requires
        n > 0,
        encrypts(n, c, m),
        encrypts(n, cm, rho),
        (cm * inv) % (n * n) == 1,
    ensures
        encrypts(n, (c * inv) % (n * n), m - rho),
{
    let nn = n * n;
    assert(nn > 0) by (nonlinear_arith)
        requires
            n > 0,
            nn == n * n,
    ;
    let r = choose|r: int| c == ((1 + m * n) * #[trigger] pow(r, n as nat)) % (n * n);
    let s = choose|s: int| cm == ((1 + rho * n) * #[trigger] pow(s, n as nat)) % (n * n);
    let a = 1 + rho * n;
    let sn = pow(s, n as nat);
    let sp = pow(s, (n - 1) as nat);
    reveal(pow);
    assert(sn == s * sp);
    // `s1` inverts `s` modulo n².
    let s1 = sp * a * inv;
    assert(s * s1 == (a * sn) * inv) by (nonlinear_arith)
        requires
            s1 == sp * a * inv,
            sn == s * sp,
    ;
    lemma_mod_twice(a * sn, nn);
    lemma_cong_mul(a * sn, cm, inv, inv, nn);
    assert((s * s1) % nn == 1);
    assert(nn > 1);
    lemma_small_mod(1, nn as nat);
    lemma_pow_mod_noop(s * s1, n as nat, nn);
    lemma1_pow(n as nat);
    assert(pow(s * s1, n as nat) % nn == 1);
    // `u` is the inverse of `cm` written as an encryption of `-rho`.
    let s1n = pow(s1, n as nat);
    let u = (1 - rho * n) * s1n;
    lemma_pow_distributes(s, s1, n as nat);
    assert((a * sn) * u == (nn * (-rho * rho) + 1) * pow(s * s1, n as nat)) by (nonlinear_arith)
        requires
            a == 1 + rho * n,
            u == (1 - rho * n) * s1n,
            pow(s * s1, n as nat) == sn * s1n,
            nn == n * n,
    ;
    lemma_mod_multiples_vanish(-rho * rho, 1, nn);
    lemma_cong_mul(nn * (-rho * rho) + 1, 1, pow(s * s1, n as nat), 1, nn);
    lemma_cong_mul(cm, a * sn, u, u, nn);
    assert((cm * u) % nn == 1);
    lemma_cong_mul(inv, inv, cm * u, 1, nn);
    lemma_cong_mul(cm * inv, 1, u, u, nn);
    assert(inv * (cm * u) == (cm * inv) * u) by (nonlinear_arith);
    assert(inv % nn == u % nn);
    let x = (1 + m * n) * pow(r, n as nat);
    lemma_mod_twice(x, nn);
    lemma_cong_mul(c, x, inv, u, nn);
    let t = r * s1;
    lemma_pow_distributes(r, s1, n as nat);
    let e = 1 + (m - rho) * n;
    let rn = pow(r, n as nat);
    let tn = pow(t, n as nat);
    let g = 1 + m * n;
    let h = 1 - rho * n;
    assert(x * u == (g * h) * tn) by (nonlinear_arith)
        requires
            x == g * rn,
            u == h * s1n,
            tn == rn * s1n,
    ;
    assert(g * h == nn * (-m * rho) + e) by (nonlinear_arith)
        requires
            g == 1 + m * n,
            h == 1 - rho * n,
            nn == n * n,
            e == 1 + (m - rho) * n,
    ;
    lemma_mod_multiples_vanish(-m * rho, e, nn);
    lemma_cong_mul(nn * (-m * rho) + e, e, pow(t, n as nat), pow(t, n as nat), nn);
    assert((c * inv) % nn == (e * pow(t, n as nat)) % nn);
}

/// The public half of a key: the modulus and its square.
#[derive(Clone, Debug)]
pub struct EncryptionKey {
    pub n: BigNat,
    pub nn: BigNat,
}

/// The private half of a key: the two factors of the modulus.
#[derive(Clone, Debug)]
pub struct DecryptionKey {
    pub p: BigNat,
    pub q: BigNat,
}

/// A freshly generated key.
#[derive(Clone, Debug)]
pub struct KeyPair {
    pub public: EncryptionKey,
    pub private: DecryptionKey,
}

impl KeyPair {
    /// The public modulus is the product of the private factors, and its
    /// square is held beside it.
    pub open spec fn wf(&self) -> bool {
        &&& self.public.n@ == self.private.p@ * self.private.q@
        &&& self.public.nn@ == self.public.n@ * self.public.n@
        &&& self.private.p@ > 1
        &&& self.private.q@ > 1
    }
}

/// Relies on kzen_paillier's `keypair_with_modulus_size`: two odd factors with
/// their top bit set, each `bits / 2` long, and `Keypair::keys`, which sets
/// `n = p·q` and `nn = n·n`. Below 64 bits the prime search may not end.
#[verifier::external_body]
fn generate_keypair(bits: usize) -> (r: KeyPair)
    requires
        bits >= 64,
    ensures
        r.wf(),
{
    let (ek, dk) = Paillier::keypair_with_modulus_size(bits).keys();
    KeyPair {
        public: EncryptionKey { n: BigNat { bytes: ek.n.to_bytes() }, nn: BigNat { bytes: ek.nn.to_bytes() } },
        private: DecryptionKey { p: BigNat { bytes: dk.p.to_bytes() }, q: BigNat { bytes: dk.q.to_bytes() } },
    }
}

/// Relies on kzen_paillier's raw `Paillier::encrypt`: it draws `r` below `n`
/// and returns `((m·n + 1) mod nn) · (r^n mod nn) mod nn`.
#[verifier::external_body]
fn encrypt_raw(key: &EncryptionKey, m: &BigNat) -> (ct: BigNat)
    requires
        key.n@ > 0,
        key.nn@ > 0,
    ensures
        formed_by_encryption(key.n@, key.nn@, m@, ct@),
{
    let ek = kzen_paillier::EncryptionKey {
        n: BigInt::from_bytes(&key.n.bytes),
        nn: BigInt::from_bytes(&key.nn.bytes),
    };
    let pt = RawPlaintext::from(BigInt::from_bytes(&m.bytes));
    let ct: RawCiphertext = Paillier::encrypt(&ek, pt);
    BigNat { bytes: BigInt::from(ct).to_bytes() }
}

/// Relies on kzen_paillier's raw `Paillier::decrypt`, which inverts `p`
/// modulo `q` and `q` modulo `p` and so needs them coprime. The plaintext
/// depends on the key and the ciphertext alone.
#[verifier::external_body]
fn decrypt_raw(key: &DecryptionKey, c: &BigNat) -> (m: BigNat)
    requires
        key.p@ > 1,
        key.q@ > 1,
        gcd(key.p@, key.q@) == 1,
    ensures
        m@ == paillier_decryption(key.p@, key.q@, c@),
{
    let dk = kzen_paillier::DecryptionKey {
        p: BigInt::from_bytes(&key.p.bytes),
        q: BigInt::from_bytes(&key.q.bytes),
    };
    let ct = RawCiphertext::from(BigInt::from_bytes(&c.bytes));
    let pt: RawPlaintext = Paillier::decrypt(&dk, ct);
    BigNat { bytes: BigInt::from(pt).to_bytes() }
}

/// Generates a key whose modulus is `bits` long.
pub fn keypair_with_modulus_size(bits: usize) -> (r: KeyPair)
    requires
        bits >= 64,
    ensures
        r.wf(),
{
    generate_keypair(bits)
}

/// The modulus size, in bits, of a key made without a stated size.
pub const DEFAULT_MODULUS_BITS: usize = 2048;

/// Generates `n` independent keys of the default size.
pub fn key_setup(n: usize) -> (keys: Vec<KeyPair>)
    ensures
        keys@.len() == n,
        forall|i: int| 0 <= i < n ==> (#[trigger] keys@[i]).wf(),
{
    let mut keys: Vec<KeyPair> = Vec::new();
    let mut i: usize = 0;
    while i < n
        invariant
            i <= n,
            keys@.len() == i,
            forall|j: int| 0 <= j < i ==> (#[trigger] keys@[j]).wf(),
        decreases n - i,
    {
        keys.push(keypair_with_modulus_size(DEFAULT_MODULUS_BITS));
        i = i + 1;
    }
    keys
}

/// What encryption forms under a modulus `n > 0` and its square is a
/// Paillier encryption.
pub proof fn lemma_formed_encrypts(n: nat, m: nat, c: nat)
    requires
        n > 0,
        formed_by_encryption(n, n * n, m, c),
    ensures
        encrypts(n as int, c as int, m as int),
        c < n * n,
{
    let ni = n as int;
    let nn = ni * ni;
    assert(nn > 0) by (nonlinear_arith)
        requires
            ni > 0,
            nn == ni * ni,
    ;
    let sq: nat = n * n;
    let r = choose|r: int| 0 <= r < n && c == #[trigger] raw_ciphertext(n, sq, m, r);
    lemma_mul_mod_noop(m * ni + 1, pow(r, ni as nat), nn);
    assert(1 + m * ni == m * ni + 1);
    assert(c == ((1 + m * ni) * pow(r, ni as nat)) % nn);
}

/// Encrypts `m` under `key` with fresh randomness; when `nn` is the square
/// of `n` the result is a Paillier encryption of `m`.
pub fn encrypt(key: &EncryptionKey, m: &BigNat) -> (c: BigNat)
    requires
        key.n@ > 0,
        key.nn@ > 0,
    ensures
        formed_by_encryption(key.n@, key.nn@, m@, c@),
        c@ < key.nn@,
        key.nn@ == key.n@ * key.n@ ==> encrypts(key.n@ as int, c@ as int, m@ as int),
{
    let c = encrypt_raw(key, m);
    proof {
        if key.nn@ == key.n@ * key.n@ {
            lemma_formed_encrypts(key.n@, m@, c@);
        }
    }
    c
}

/// Whether `key` can be used to decrypt: its factors exceed one and are
/// coprime.
pub fn decryption_key_usable(key: &DecryptionKey) -> (r: bool)
    ensures
        r == (key.p@ > 1 && key.q@ > 1 && gcd(key.p@, key.q@) == 1),
{
    if !key.p.exceeds_one() || !key.q.exceeds_one() {
        return false;
    }
    crate::algebra::mod_inverse(&key.p, &key.q).is_ok()
}

/// Decrypts `c` with `key`.
pub fn decrypt(key: &DecryptionKey, c: &BigNat) -> (m: BigNat)
    requires
        key.p@ > 1,
        key.q@ > 1,
        gcd(key.p@, key.q@) == 1,
    ensures
        m@ == paillier_decryption(key.p@, key.q@, c@),
{
    decrypt_raw(key, c)
}

} // verus!
