//! The capability trait a fixed-width integer type offers this crate, and its
//! implementations for the six supported widths.

use vstd::prelude::*;

verus! {

use crate::encoding::{max_val, min_val};
use crate::power::lemma_pow2_facts;

/// The trait is used to determine the number of bits required to store a
/// number, and to move a value to and from its magnitude/sign shape.
pub trait SpecialBytes: Sized + Copy {
    /// The mathematical value.
    spec fn v(self) -> int;

    /// Width of the type in bits.
    spec fn bits_spec() -> nat;

    /// Whether the type is signed.
    spec fn signed_spec() -> bool;

    /// The width is one of the supported ones.
    proof fn width_properties()
        ensures
            Self::bits_spec() == 32 || Self::bits_spec() == 64 || Self::bits_spec() == 128,
    ;

    /// Every value lies in the type's range.
    proof fn value_in_range(self)
        ensures
            min_val(Self::bits_spec(), Self::signed_spec()) <= self.v(),
            self.v() <= max_val(Self::bits_spec(), Self::signed_spec()) as int,
    ;

    /// Returns the number of bits required to store a number.
    fn bits() -> (r: u8)
        ensures
            r as nat == Self::bits_spec(),
    ;

    /// Whether the type is signed.
    fn signed() -> (r: bool)
        ensures
            r == Self::signed_spec(),
    ;

    /// The zero of the type.
    fn zero() -> (r: Self)
        ensures
            r.v() == 0,
    ;

    /// Magnitude and sign of the value.
    fn to_parts(self) -> (r: (u128, bool))
        ensures
            r.1 == (self.v() < 0),
            r.0 as int == if self.v() < 0 {
                -self.v()
            } else {
                self.v()
            },
    ;

    /// The value with the given magnitude and sign.
    fn from_parts(mag: u128, neg: bool) -> (r: Self)
        requires
            mag as nat <= max_val(Self::bits_spec(), Self::signed_spec()),
            neg ==> Self::signed_spec() && mag >= 1,
        ensures
            r.v() == if neg {
                -(mag as int)
            } else {
                mag as int
            },
    ;
}

impl SpecialBytes for u32 {
    open spec fn v(self) -> int {
        self as int
    }

    open spec fn bits_spec() -> nat {
        32
    }

    open spec fn signed_spec() -> bool {
        false
    }

    proof fn width_properties() {
    }

    proof fn value_in_range(self) {
        lemma_pow2_facts();
    }

    fn bits() -> u8 {
        32
    }

    fn signed() -> bool {
        false
    }

    fn zero() -> Self {
        0
    }

    fn to_parts(self) -> (u128, bool) {
        (self as u128, false)
    }

    fn from_parts(mag: u128, neg: bool) -> Self {
        proof {
            lemma_pow2_facts();
        }
        mag as u32
    }
}

impl SpecialBytes for u64 {
    open spec fn v(self) -> int {
        self as int
    }

    open spec fn bits_spec() -> nat {
        64
    }

    open spec fn signed_spec() -> bool {
        false
    }

    proof fn width_properties() {
    }

    proof fn value_in_range(self) {
        lemma_pow2_facts();
    }

    fn bits() -> u8 {
        64
    }

    fn signed() -> bool {
        false
    }

    fn zero() -> Self {
        0
    }

    fn to_parts(self) -> (u128, bool) {
        (self as u128, false)
    }

    fn from_parts(mag: u128, neg: bool) -> Self {
        proof {
            lemma_pow2_facts();
        }
        mag as u64
    }
}

impl SpecialBytes for u128 {
    open spec fn v(self) -> int {
        self as int
    }

    open spec fn bits_spec() -> nat {
        128
    }

    open spec fn signed_spec() -> bool {
        false
    }

    proof fn width_properties() {
    }

    proof fn value_in_range(self) {
        lemma_pow2_facts();
    }

    fn bits() -> u8 {
        128
    }

    fn signed() -> bool {
        false
    }

    fn zero() -> Self {
        0
    }

    fn to_parts(self) -> (u128, bool) {
        (self, false)
    }

    fn from_parts(mag: u128, neg: bool) -> Self {
        proof {
            lemma_pow2_facts();
        }
        mag
    }
}

impl SpecialBytes for i32 {
    open spec fn v(self) -> int {
        self as int
    }

    open spec fn bits_spec() -> nat {
        32
    }

    open spec fn signed_spec() -> bool {
        true
    }

    proof fn width_properties() {
    }

    proof fn value_in_range(self) {
        lemma_pow2_facts();
    }

    fn bits() -> u8 {
        32
    }

    fn signed() -> bool {
        true
    }

    fn zero() -> Self {
        0
    }

    fn to_parts(self) -> (u128, bool) {
        if self < 0 {
            let wide = self as i64;
            ((-wide) as u128, true)
        } else {
            (self as u128, false)
        }
    }

    fn from_parts(mag: u128, neg: bool) -> Self {
        proof {
            lemma_pow2_facts();
        }
        if neg {
            (-(mag as i64)) as i32
        } else {
            mag as i32
        }
    }
}

impl SpecialBytes for i64 {
    open spec fn v(self) -> int {
        self as int
    }

    open spec fn bits_spec() -> nat {
        64
    }

    open spec fn signed_spec() -> bool {
        true
    }

    proof fn width_properties() {
    }

    proof fn value_in_range(self) {
        lemma_pow2_facts();
    }

    fn bits() -> u8 {
        64
    }

    fn signed() -> bool {
        true
    }

    fn zero() -> Self {
        0
    }

    fn to_parts(self) -> (u128, bool) {
        if self < 0 {
            let wide = self as i128;
            ((-wide) as u128, true)
        } else {
            (self as u128, false)
        }
    }

    fn from_parts(mag: u128, neg: bool) -> Self {
        proof {
            lemma_pow2_facts();
        }
        if neg {
            (-(mag as i128)) as i64
        } else {
            mag as i64
        }
    }
}

impl SpecialBytes for i128 {
    open spec fn v(self) -> int {
        self as int
    }

    open spec fn bits_spec() -> nat {
        128
    }

    open spec fn signed_spec() -> bool {
        true
    }

    proof fn width_properties() {
    }

    proof fn value_in_range(self) {
        lemma_pow2_facts();
    }

    fn bits() -> u8 {
        128
    }

    fn signed() -> bool {
        true
    }

    fn zero() -> Self {
        0
    }

    fn to_parts(self) -> (u128, bool) {
        if self < 0 {
            if self == i128::MIN {
                (0x80000000000000000000000000000000u128, true)
            } else {
                ((-self) as u128, true)
            }
        } else {
            (self as u128, false)
        }
    }

    fn from_parts(mag: u128, neg: bool) -> Self {
        proof {
            lemma_pow2_facts();
        }
        if neg {
            -(mag as i128)
        } else {
            mag as i128
        }
    }
}

} // verus!
