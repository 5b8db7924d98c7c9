//! 256-bit unsigned words.
use vstd::prelude::*;

verus! {

/// Two to the power of 256: the number of values that a word can take.
pub open spec fn word_base() -> nat {
    0x1_0000_0000_0000_0000_0000_0000_0000_0000_0000_0000_0000_0000_0000_0000_0000_0000nat
}

/// An unsigned 256-bit word, as four 64-bit limbs with the least significant limb first.
#[derive(Clone, Copy, Debug, PartialEq, Eq)]
pub struct U256 {
    pub limbs: [u64; 4],
}

impl U256 {
    /// The number that the word stands for.
    pub open spec fn value(self) -> nat {
        (self.limbs@[0] + self.limbs@[1] * 0x1_0000_0000_0000_0000int + self.limbs@[2]
            * 0x1_0000_0000_0000_0000_0000_0000_0000_0000int + self.limbs@[3]
            * 0x1_0000_0000_0000_0000_0000_0000_0000_0000_0000_0000_0000_0000int) as nat
    }

    /// The word that stands for zero.
    pub fn zero() -> (r: U256)
        ensures
            r.value() == 0,
            forall|i: int| 0 <= i < 4 ==> (#[trigger] r.limbs@[i]) == 0,
    {
        U256 { limbs: [0, 0, 0, 0] }
    }

    /// The word that stands for a 64-bit number.
    pub fn from_u64(n: u64) -> (r: U256)
        ensures
            r.value() == n,
            r.limbs@[0] == n,
    {
        U256 { limbs: [n, 0, 0, 0] }
    }

    /// The word that stands for a 128-bit number.
    pub fn from_u128(n: u128) -> (r: U256)
        ensures
            r.value() == n,
            r.limbs@[0] == n % 0x1_0000_0000_0000_0000,
            r.limbs@[1] == n / 0x1_0000_0000_0000_0000,
    {
        let low: u64 = (n % 0x1_0000_0000_0000_0000) as u64;
        let high: u64 = (n / 0x1_0000_0000_0000_0000) as u64;
        U256 { limbs: [low, high, 0, 0] }
    }

    /// The word as a 64-bit number.
    pub fn to_u64(self) -> (r: u64)
        requires
            self.value() <= u64::MAX,
        ensures
            r == self.value(),
            r == self.limbs@[0],
    {
        self.limbs[0]
    }

    /// The word as a 64-bit number, where it fits.
    pub fn try_to_u64(self) -> (r: Option<u64>)
        ensures
            r == if self.value() <= u64::MAX { Some(self.value() as u64) } else { None },
    {
        if self.limbs[1] == 0 && self.limbs[2] == 0 && self.limbs[3] == 0 {
            Some(self.limbs[0])
        } else {
            None
        }
    }

    /// The word as a 64-bit number, or the greatest one where it does not fit.
    pub fn saturating_to_u64(self) -> (r: u64)
        ensures
            r == if self.value() <= u64::MAX { self.value() } else { u64::MAX as nat },
    {
        match self.try_to_u64() {
            Some(n) => n,
            None => u64::MAX,
        }
    }

    /// Whether two words are the same.
    pub fn equals(self, other: U256) -> (r: bool)
        ensures
            r == (self.value() == other.value()),
            r == (self == other),
    {
        let r = self.limbs[0] == other.limbs[0] && self.limbs[1] == other.limbs[1] && self.limbs[2]
            == other.limbs[2] && self.limbs[3] == other.limbs[3];
        proof {
            if r {
                assert(self.limbs@ =~= other.limbs@);
                assert(self.limbs == other.limbs);
            } else if self.value() == other.value() {
                lemma_value_injective(self, other);
            }
        }
        r
    }

    /// Sum of two words, modulo two to the power of 256.
    ///
    /// Calls `wrapping_add` of `alloy_primitives::U256`, which is what its `+` does: the contract
    /// claims that the sum is the mathematical one with the carry out of bit 255 dropped.
    #[verifier::external_body]
    pub(crate) fn wrapping_add(self, other: U256) -> (r: U256)
        ensures
            r.value() == (self.value() + other.value()) % word_base(),
    {
        let a = alloy_primitives::U256::from_limbs(self.limbs);
        let b = alloy_primitives::U256::from_limbs(other.limbs);
        U256 { limbs: a.wrapping_add(b).into_limbs() }
    }

    /// Product of two words, modulo two to the power of 256.
    ///
    /// Calls `wrapping_mul` of `alloy_primitives::U256`, which is what its `*` does: the contract
    /// claims that the product is the mathematical one with everything above bit 255 dropped.
    #[verifier::external_body]
    pub(crate) fn wrapping_mul(self, other: U256) -> (r: U256)
        ensures
            r.value() == (self.value() * other.value()) % word_base(),
    {
        let a = alloy_primitives::U256::from_limbs(self.limbs);
        let b = alloy_primitives::U256::from_limbs(other.limbs);
        U256 { limbs: a.wrapping_mul(b).into_limbs() }
    }
}

/// A word is below two to the power of 256.
pub proof fn lemma_value_bound(a: U256)
    ensures
        a.value() < word_base(),
{
}

/// A number's last limb and what is above it are determined.
proof fn lemma_limb(low: u64, high: int, other_low: u64, other_high: int)
    requires
        low + high * 0x1_0000_0000_0000_0000int == other_low + other_high * 0x1_0000_0000_0000_0000int,
    ensures
        low == other_low,
        high == other_high,
{
}

/// Two words that stand for the same number are the same word.
pub proof fn lemma_value_injective(a: U256, b: U256)
    requires
        a.value() == b.value(),
    ensures
        a == b,
{
    let base = 0x1_0000_0000_0000_0000int;
    let a2 = a.limbs@[2] + a.limbs@[3] * base;
    let b2 = b.limbs@[2] + b.limbs@[3] * base;
    let a1 = a.limbs@[1] + a2 * base;
    let b1 = b.limbs@[1] + b2 * base;
    lemma_limb(a.limbs@[0], a1, b.limbs@[0], b1);
    lemma_limb(a.limbs@[1], a2, b.limbs@[1], b2);
    lemma_limb(a.limbs@[2], a.limbs@[3] as int, b.limbs@[2], b.limbs@[3] as int);
    assert(a.limbs@ =~= b.limbs@);
    assert(a.limbs == b.limbs);
}

/// A word's number is made up of its limbs, the least one first: it is the first limb, and two to the
/// power of 64 times the number of the others.
pub proof fn law_limbs(a: U256, rest: U256)
    requires
        rest.limbs@[0] == a.limbs@[1],
        rest.limbs@[1] == a.limbs@[2],
        rest.limbs@[2] == a.limbs@[3],
        rest.limbs@[3] == 0,
    ensures
        a.value() == a.limbs@[0] + 0x1_0000_0000_0000_0000 * rest.value(),
        word_base() == 0x1_0000_0000_0000_0000_0000_0000_0000_0000 as nat
            * 0x1_0000_0000_0000_0000_0000_0000_0000_0000 as nat,
{
}

}
