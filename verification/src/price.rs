//! Prices as ordered integers.
//!
//! A price arrives as the bit pattern of an IEEE 754 double. Doubles that are
//! numbers order exactly as their sign-and-magnitude integers do, so the
//! library keeps that integer, the *key*, and never touches a float.

use vstd::prelude::*;

verus! {

/// The sign bit of a double's bit pattern.
pub const SIGN_BIT: u64 = 0x8000_0000_0000_0000;

/// Everything but the sign bit.
pub const MAGNITUDE_MASK: u64 = 0x7fff_ffff_ffff_ffff;

/// The magnitude of infinity: any larger magnitude is not a number.
pub const INFINITY_BITS: u64 = 0x7ff0_0000_0000_0000;

/// Whether a bit pattern stands for a number (infinities included).
pub open spec fn is_number(bits: u64) -> bool {
    (bits & MAGNITUDE_MASK) <= INFINITY_BITS
}

/// The key of a bit pattern: its magnitude, negated where the sign bit is set.
/// Both zeros have key 0.
pub open spec fn key_of_bits(bits: u64) -> int {
    if bits & SIGN_BIT != 0 {
        -((bits & MAGNITUDE_MASK) as int)
    } else {
        (bits & MAGNITUDE_MASK) as int
    }
}

/// The bit pattern of a key: the inverse of `key_of_bits` on numbers, with
/// positive zero for key 0.
pub open spec fn bits_of_key(key: int) -> u64 {
    if key < 0 {
        ((-key) as u64) | SIGN_BIT
    } else {
        key as u64
    }
}

/// Whether an integer is the key of some number.
pub open spec fn is_key(key: int) -> bool {
    -(INFINITY_BITS as int) <= key <= INFINITY_BITS as int
}

/// Whether a key is that of a positive, finite number: what a price source
/// may answer with.
pub open spec fn is_positive_key(key: int) -> bool {
    0 < key < INFINITY_BITS as int
}

/// A price or a threshold.
#[derive(Clone, Copy, PartialEq, Eq, Structural, Debug)]
pub struct Price {
    key: i64,
}

impl View for Price {
    type V = int;

    closed spec fn view(&self) -> int {
        self.key as int
    }
}

impl Price {
    #[verifier::type_invariant]
    closed spec fn in_range(self) -> bool {
        is_key(self.key as int)
    }

    /// Reads a price from the bit pattern of a double; `None` where the pattern
    /// is not a number.
    pub fn from_bits(bits: u64) -> (r: Option<Price>)
        ensures
            r is Some <==> is_number(bits),
            r matches Some(p) ==> p@ == key_of_bits(bits),
    {
        let magnitude: u64 = bits & MAGNITUDE_MASK;
        if magnitude > INFINITY_BITS {
            return None;
        }
        let negative: bool = bits & SIGN_BIT != 0;
        let m: i64 = magnitude as i64;
        if negative {
            Some(Price { key: -m })
        } else {
            Some(Price { key: m })
        }
    }

    /// The price zero.
    pub fn zero() -> (p: Price)
        ensures
            p@ == 0,
    {
        Price { key: 0 }
    }

    /// The bit pattern of the double that this price stands for.
    pub fn to_bits(&self) -> (bits: u64)
        ensures
            is_key(self@),
            bits == bits_of_key(self@),
            is_number(bits),
            key_of_bits(bits) == self@,
    {
        proof {
            use_type_invariant(self);
            lemma_bits_of_key(self@);
        }
        if self.key < 0 {
            ((-self.key) as u64) | SIGN_BIT
        } else {
            self.key as u64
        }
    }

    /// The key, for comparing prices.
    pub fn key(&self) -> (k: i64)
        ensures
            k == self@,
            is_key(k as int),
    {
        proof {
            use_type_invariant(self);
        }
        self.key
    }

    /// Whether the price is a positive, finite number.
    pub fn is_positive(&self) -> (b: bool)
        ensures
            b == is_positive_key(self@),
    {
        0 < self.key && self.key < 0x7ff0_0000_0000_0000i64
    }

    /// Two prices with the same key are the same price.
    pub proof fn lemma_same_key(self, other: Price)
        requires
            self@ == other@,
        ensures
            self == other,
    {
    }
}

/// Turning a key into bits and back gives the key again.
pub proof fn lemma_bits_of_key(key: int)
    requires
        is_key(key),
    ensures
        is_number(bits_of_key(key)),
        key_of_bits(bits_of_key(key)) == key,
{
    if key < 0 {
        let m: u64 = (-key) as u64;
        assert(m <= 0x7ff0_0000_0000_0000u64);
        assert(m != 0);
        assert((m | 0x8000_0000_0000_0000u64) & 0x7fff_ffff_ffff_ffffu64 == m) by (bit_vector)
            requires
                m <= 0x7ff0_0000_0000_0000u64,
        ;
        assert((m | 0x8000_0000_0000_0000u64) & 0x8000_0000_0000_0000u64 != 0) by (bit_vector);
    } else {
        let m: u64 = key as u64;
        assert(m & 0x7fff_ffff_ffff_ffffu64 == m) by (bit_vector)
            requires
                m <= 0x7ff0_0000_0000_0000u64,
        ;
        assert(m & 0x8000_0000_0000_0000u64 == 0) by (bit_vector)
            requires
                m <= 0x7ff0_0000_0000_0000u64,
        ;
    }
}

} // verus!
