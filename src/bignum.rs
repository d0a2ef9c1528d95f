use curv::arithmetic::traits::Converter;
use curv::BigInt;
use vstd::prelude::*;

verus! {

/// The value of a big-endian byte string.
pub open spec fn be_value(s: Seq<u8>) -> nat
    decreases s.len(),
{
    if s.len() == 0 {
        0
    } else {
        be_value(s.drop_last()) * 256 + s.last() as nat
    }
}

/// A prefix never has a larger value than the whole string.
pub proof fn lemma_prefix_value_le(s: Seq<u8>, i: int)
    requires
        0 <= i <= s.len(),
    ensures
        be_value(s.subrange(0, i)) <= be_value(s),
    decreases s.len(),
{
    if i < s.len() {
        assert(s.drop_last() =~= s.subrange(0, s.len() - 1));
        assert(s.drop_last().subrange(0, i) =~= s.subrange(0, i));
        lemma_prefix_value_le(s.drop_last(), i);
    } else {
        assert(s.subrange(0, i) =~= s);
    }
}

/// A non-negative integer of any size, held as its big-endian bytes.
#[derive(Clone, Debug)]
pub struct BigNat {
    pub(crate) bytes: Vec<u8>,
}

impl View for BigNat {
    type V = nat;

    closed spec fn view(&self) -> nat {
        be_value(self.bytes@)
    }
}

/// Relies on curv's `BigInt::from(u64)` and `Converter::to_bytes`: the
/// big-endian bytes of `v`.
#[verifier::external_body]
fn bytes_of_u64(v: u64) -> (r: Vec<u8>)
    ensures
        be_value(r@) == v,
{
    BigInt::from(v).to_bytes()
}

impl BigNat {
    /// The number `v`.
    pub fn from_u64(v: u64) -> (r: BigNat)
        ensures
            r@ == v,
    {
        BigNat { bytes: bytes_of_u64(v) }
    }

    /// The number whose big-endian bytes are `bytes`.
    pub fn from_be_bytes(bytes: Vec<u8>) -> (r: BigNat)
        ensures
            r@ == be_value(bytes@),
    {
        BigNat { bytes }
    }

    /// The big-endian bytes this number is held as.
    pub fn to_be_bytes(&self) -> (r: Vec<u8>)
        ensures
            be_value(r@) == self@,
    {
        let mut r: Vec<u8> = Vec::new();
        let mut i: usize = 0;
        while i < self.bytes.len()
            invariant
                i <= self.bytes@.len(),
                r@ =~= self.bytes@.subrange(0, i as int),
            decreases self.bytes@.len() - i,
        {
            r.push(self.bytes[i]);
            i = i + 1;
        }
        assert(r@ =~= self.bytes@);
        r
    }

    /// The value as a `u64`, or `None` when it does not fit.
    pub fn to_u64(&self) -> (r: Option<u64>)
        ensures
            r == (if self@ <= u64::MAX {
                Some(self@ as u64)
            } else {
                None::<u64>
            }),
    {
        let mut acc: u64 = 0;
        let mut i: usize = 0;
        while i < self.bytes.len()
            invariant
                i <= self.bytes@.len(),
                acc == be_value(self.bytes@.subrange(0, i as int)),
            decreases self.bytes@.len() - i,
        {
            let b = self.bytes[i];
            let ghost next = self.bytes@.subrange(0, i + 1);
            assert(next.drop_last() =~= self.bytes@.subrange(0, i as int));
            if acc > (u64::MAX - b as u64) / 256 {
                proof {
                    lemma_prefix_value_le(self.bytes@, i + 1);
                    assert(be_value(next) == acc * 256 + b);
                }
                return None;
            }
            acc = acc * 256 + b as u64;
            i = i + 1;
        }
        assert(self.bytes@.subrange(0, i as int) =~= self.bytes@);
        Some(acc)
    }

    /// Whether the number is zero.
    pub fn is_zero(&self) -> (r: bool)
        ensures
            r == (self@ == 0),
    {
        match self.to_u64() {
            Some(v) => v == 0,
            None => false,
        }
    }

    /// Whether the number is greater than one.
    pub fn exceeds_one(&self) -> (r: bool)
        ensures
            r == (self@ > 1),
    {
        match self.to_u64() {
            Some(v) => v > 1,
            None => true,
        }
    }

    /// A copy of this number.
    pub fn copy(&self) -> (r: BigNat)
        ensures
            r@ == self@,
    {
        BigNat { bytes: self.to_be_bytes() }
    }
}

} // verus!
