use curv::arithmetic::traits::Converter;
use curv::BigInt;
use smpc::algebra::{mod_add, mod_inverse, mod_mul, mod_pow, NoInverse};
use smpc::bignum::BigNat;

fn big(v: u64) -> BigNat {
    BigNat::from_u64(v)
}

fn from_curv(b: &BigInt) -> BigNat {
    BigNat::from_be_bytes(b.to_bytes())
}

fn value(b: &BigNat) -> u64 {
    b.to_u64().unwrap()
}

#[test]
fn test_outputs() {
    let a_curv = BigInt::from_str_radix("363", 10).unwrap();
    let c_curv = BigInt::from_str_radix("ccdba028de01767d1946de20209389cf00f338346ffd4a49f4922f57aa788a4790de3c9915595fd8bfd6105348ceb09f6e19774d2b8e5efd832839633671c2377d15f874a8f9c9b86cccf834dbcee63093cb92cb1a21d535d748d5d61d9913bd192b3cc780f90df41e8d9dff9b05150309b44bb845b13bbeb86a945d79e10c20c158ee810fdd4d73a4c6cab047b8883898aff807d897d455d2a02214c817d53ca8429763d4847a110190e9327d75584c1a61a4825524bc952578b35f92b66a62cf60ef255019629ed64d0f752f14054aecfa14d5e56038db0ddb76565764149ffeb2e63d1e271f9024be1b60ae97dc491a5f053aa06e3bc8324f763ad7d04e27", 16).unwrap();
    let a = from_curv(&a_curv);
    let b = big(7);
    let c = from_curv(&c_curv);
    let result = mod_add(&a, &b, &c);
    assert!(a_curv < c_curv, "Decrypted value should be less than n");
    let mul = mod_mul(&big(10), &big(37), &c);
    assert!(result.to_be_bytes() == mul.to_be_bytes());
}

#[test]
fn mod_pow_small_values() {
    assert_eq!(value(&mod_pow(&big(3), &big(5), &big(7))), 5);
    assert_eq!(value(&mod_pow(&big(2), &big(10), &big(1000))), 24);
    assert_eq!(value(&mod_pow(&big(5), &big(0), &big(13))), 1);
    assert_eq!(value(&mod_pow(&big(5), &big(3), &big(1))), 0);
}

#[test]
fn mod_mul_and_add_reduce() {
    assert_eq!(value(&mod_mul(&big(10), &big(37), &big(100))), 70);
    assert_eq!(value(&mod_add(&big(363), &big(7), &big(100))), 70);
    assert_eq!(value(&mod_add(&big(0), &big(0), &big(5))), 0);
}

#[test]
fn mod_inverse_of_coprime_value() {
    let inv = mod_inverse(&big(3), &big(7)).unwrap();
    assert_eq!(value(&inv), 5);
    assert_eq!(value(&mod_mul(&big(3), &inv, &big(7))), 1);
}

#[test]
fn mod_inverse_fails_on_shared_factor() {
    assert_eq!(mod_inverse(&big(6), &big(9)).unwrap_err(), NoInverse);
    assert_eq!(mod_inverse(&big(0), &big(9)).unwrap_err(), NoInverse);
}

#[test]
fn inverse_round_trips_for_every_coprime_value() {
    let m = 35u64;
    for v in 0..m {
        let r = mod_inverse(&big(v), &big(m));
        let coprime = (1..m).any(|x| (v * x) % m == 1);
        assert_eq!(r.is_ok(), coprime);
        if let Ok(inv) = r {
            assert_eq!(value(&mod_mul(&big(v), &inv, &big(m))), 1);
        }
    }
}

#[test]
fn sequential_pow_matches_pow_by_product() {
    let m = big(1_000_003);
    let inputs = [2u64, 3, 5, 7];
    let mut running = big(12345);
    for x in inputs.iter() {
        running = mod_pow(&running, &big(*x), &m);
    }
    let once = mod_pow(&big(12345), &big(2 * 3 * 5 * 7), &m);
    assert_eq!(value(&running), value(&once));
}
