//! The compact value type: a bit length, a percentage and a sign flag,
//! together with reconstruction, bounds, ordering and arithmetic.

use vstd::prelude::*;

verus! {

use core::marker::PhantomData;
use crate::encoding::{
    encode_core, encode_of, max_for, max_val, min_val, recon_pair, recon_spec, sibling_pct,
};
use crate::numeric::SpecialBytes;
use crate::pairs::{pair_add, pair_div, pair_lo, pair_mul, pair_rem, pair_sub, trunc_div, trunc_rem};
use vstd::arithmetic::power2::pow2;
use vstd::std_specs::cmp::PartialOrdSpec;
use vstd::std_specs::convert::FromSpec;

/// The structure stores the resulting number in a compressed format from
/// which an approximated number can be obtained.
#[derive(Debug, Copy, Hash)]
pub struct SmallValue<T: SpecialBytes> {
    min_bits: u8,
    percent: u8,
    flag: bool,
    phantom: PhantomData<T>,
}

impl<T: SpecialBytes> Clone for SmallValue<T> {
    fn clone(&self) -> (r: Self)
        ensures
            r == *self,
    {
        *self
    }
}

impl<T: SpecialBytes> SmallValue<T> {
    /// The stored triple: bit length, percentage, sign flag.
    pub closed spec fn triple(self) -> (nat, nat, bool) {
        (self.min_bits as nat, self.percent as nat, self.flag)
    }

    /// The value this triple reconstructs to.
    pub open spec fn recon(self) -> int {
        recon_spec(
            self.triple().0,
            self.triple().1,
            self.triple().2,
            T::bits_spec(),
            T::signed_spec(),
        )
    }

    /// The pair `bounds` returns: the own reconstruction and the sibling
    /// bucket's.
    pub open spec fn bounds_spec(self) -> (int, int) {
        (
            self.recon(),
            recon_spec(
                self.triple().0,
                sibling_pct(self.triple().1, self.triple().2),
                self.triple().2,
                T::bits_spec(),
                T::signed_spec(),
            ),
        )
    }

    /// Create a new instance of SmallValue holding the triple that encodes
    /// `number`.
    pub fn new(number: T) -> (r: Self)
        ensures
            r.triple() == encode_of(number.v(), T::bits_spec(), T::signed_spec()),
    {
        proof {
            T::width_properties();
            number.value_in_range();
        }
        let (mag, neg) = number.to_parts();
        let w = T::bits();
        let s = T::signed();
        let maxv = max_for(w, s);
        let t = encode_core(mag, neg, w, s, maxv);
        SmallValue { min_bits: t.0, percent: t.1, flag: t.2, phantom: PhantomData }
    }

    /// Returns the approximate value of the number. The approximation usually
    /// undershoots the original; negative values and small magnitudes can
    /// overshoot.
    pub fn approximate(&self) -> (r: T)
        ensures
            r.v() == self.recon(),
    {
        proof {
            T::width_properties();
        }
        let w = T::bits();
        let s = T::signed();
        let maxv = max_for(w, s);
        let p = recon_pair(self.min_bits, self.percent, self.flag, w, s, maxv);
        T::from_parts(p.0, p.1)
    }

    /// Returns a tuple with the minimum and maximum values for this object:
    /// its own reconstruction and the reconstruction of the adjacent
    /// percentage bucket. The original value usually lies between them;
    /// values at the extremes of the type are the documented exceptions.
    pub fn bounds(&self) -> (r: (T, T))
        ensures
            r.0.v() == self.bounds_spec().0,
            r.1.v() == self.bounds_spec().1,
    {
        proof {
            T::width_properties();
        }
        let w = T::bits();
        let s = T::signed();
        let maxv = max_for(w, s);
        let own = recon_pair(self.min_bits, self.percent, self.flag, w, s, maxv);
        let sib: u8 = if self.flag {
            if self.percent >= 2 {
                self.percent - 2
            } else {
                0
            }
        } else {
            if self.percent == 255 {
                255
            } else {
                self.percent + 1
            }
        };
        let adj = recon_pair(self.min_bits, sib, self.flag, w, s, maxv);
        (T::from_parts(own.0, own.1), T::from_parts(adj.0, adj.1))
    }

    /// Returns the minimum number of bits required to represent the number.
    pub fn min_bits(&self) -> (r: u8)
        ensures
            r as nat == self.triple().0,
    {
        self.min_bits
    }

    /// This percentage is derived from the maximum value of the bit
    /// representation.
    pub fn percent(&self) -> (r: u8)
        ensures
            r as nat == self.triple().1,
    {
        self.percent
    }

    /// Returns the flag that indicates whether the number is negative.
    pub fn flag(&self) -> (r: bool)
        ensures
            r == self.triple().2,
    {
        self.flag
    }

    /// Checked addition over the reconstructions. Returns `None` exactly when
    /// the sum overflows the underlying type.
    pub fn checked_add(&self, rhs: Self) -> (r: Option<Self>)
        ensures
            ({
                let s = self.recon() + rhs.recon();
                &&& (r is Some <==> min_val(T::bits_spec(), T::signed_spec()) <= s <= max_val(
                    T::bits_spec(),
                    T::signed_spec(),
                ) as int)
                &&& (r matches Some(x) ==> x.triple() == encode_of(
                    s,
                    T::bits_spec(),
                    T::signed_spec(),
                ))
            }),
    {
        proof {
            lemma_type_facts::<T>();
        }
        let w = T::bits();
        let s = T::signed();
        let maxv = max_for(w, s);
        let a = recon_pair(self.min_bits, self.percent, self.flag, w, s, maxv);
        let b = recon_pair(rhs.min_bits, rhs.percent, rhs.flag, w, s, maxv);
        match pair_add(a.0, a.1, b.0, b.1, maxv, s) {
            Some(p) => {
                let t = encode_core(p.0, p.1, w, s, maxv);
                Some(SmallValue { min_bits: t.0, percent: t.1, flag: t.2, phantom: PhantomData })
            },
            None => None,
        }
    }

    /// Checked subtraction over the reconstructions. Returns `None` exactly
    /// when the difference overflows the underlying type.
    pub fn checked_sub(&self, rhs: Self) -> (r: Option<Self>)
        ensures
            ({
                let s = self.recon() - rhs.recon();
                &&& (r is Some <==> min_val(T::bits_spec(), T::signed_spec()) <= s <= max_val(
                    T::bits_spec(),
                    T::signed_spec(),
                ) as int)
                &&& (r matches Some(x) ==> x.triple() == encode_of(
                    s,
                    T::bits_spec(),
                    T::signed_spec(),
                ))
            }),
    {
        proof {
            lemma_type_facts::<T>();
        }
        let w = T::bits();
        let s = T::signed();
        let maxv = max_for(w, s);
        let a = recon_pair(self.min_bits, self.percent, self.flag, w, s, maxv);
        let b = recon_pair(rhs.min_bits, rhs.percent, rhs.flag, w, s, maxv);
        match pair_sub(a.0, a.1, b.0, b.1, maxv, s) {
            Some(p) => {
                let t = encode_core(p.0, p.1, w, s, maxv);
                Some(SmallValue { min_bits: t.0, percent: t.1, flag: t.2, phantom: PhantomData })
            },
            None => None,
        }
    }

    /// Checked multiplication over the reconstructions. Returns `None`
    /// exactly when the product overflows the underlying type.
    pub fn checked_mul(&self, rhs: Self) -> (r: Option<Self>)
        ensures
            ({
                let s = self.recon() * rhs.recon();
                &&& (r is Some <==> min_val(T::bits_spec(), T::signed_spec()) <= s <= max_val(
                    T::bits_spec(),
                    T::signed_spec(),
                ) as int)
                &&& (r matches Some(x) ==> x.triple() == encode_of(
                    s,
                    T::bits_spec(),
                    T::signed_spec(),
                ))
            }),
    {
        proof {
            lemma_type_facts::<T>();
        }
        let w = T::bits();
        let s = T::signed();
        let maxv = max_for(w, s);
        let a = recon_pair(self.min_bits, self.percent, self.flag, w, s, maxv);
        let b = recon_pair(rhs.min_bits, rhs.percent, rhs.flag, w, s, maxv);
        match pair_mul(a.0, a.1, b.0, b.1, maxv, s) {
            Some(p) => {
                let t = encode_core(p.0, p.1, w, s, maxv);
                Some(SmallValue { min_bits: t.0, percent: t.1, flag: t.2, phantom: PhantomData })
            },
            None => None,
        }
    }

    /// Checked division over the reconstructions, truncating toward zero.
    /// Returns `None` exactly when the divisor reconstructs to zero.
    pub fn checked_div(&self, rhs: Self) -> (r: Option<Self>)
        ensures
            (r is Some <==> rhs.recon() != 0),
            (r matches Some(x) ==> x.triple() == encode_of(
                trunc_div(self.recon(), rhs.recon()),
                T::bits_spec(),
                T::signed_spec(),
            )),
    {
        proof {
            lemma_type_facts::<T>();
        }
        let w = T::bits();
        let s = T::signed();
        let maxv = max_for(w, s);
        let a = recon_pair(self.min_bits, self.percent, self.flag, w, s, maxv);
        let b = recon_pair(rhs.min_bits, rhs.percent, rhs.flag, w, s, maxv);
        match pair_div(a.0, a.1, b.0, b.1, maxv, s) {
            Some(p) => {
                let t = encode_core(p.0, p.1, w, s, maxv);
                Some(SmallValue { min_bits: t.0, percent: t.1, flag: t.2, phantom: PhantomData })
            },
            None => None,
        }
    }

    /// Checked remainder over the reconstructions, with the dividend's sign.
    /// Returns `None` exactly when the divisor reconstructs to zero.
    pub fn checked_rem(&self, rhs: Self) -> (r: Option<Self>)
        ensures
            (r is Some <==> rhs.recon() != 0),
            (r matches Some(x) ==> x.triple() == encode_of(
                trunc_rem(self.recon(), rhs.recon()),
                T::bits_spec(),
                T::signed_spec(),
            )),
    {
        proof {
            lemma_type_facts::<T>();
        }
        let w = T::bits();
        let s = T::signed();
        let maxv = max_for(w, s);
        let a = recon_pair(self.min_bits, self.percent, self.flag, w, s, maxv);
        let b = recon_pair(rhs.min_bits, rhs.percent, rhs.flag, w, s, maxv);
        match pair_rem(a.0, a.1, b.0, b.1, maxv, s) {
            Some(p) => {
                let t = encode_core(p.0, p.1, w, s, maxv);
                Some(SmallValue { min_bits: t.0, percent: t.1, flag: t.2, phantom: PhantomData })
            },
            None => None,
        }
    }

    /// Addition by decode, native add, re-encode. The caller keeps the sum in
    /// the type's range, as the native operation would demand.
    pub fn add(self, rhs: Self) -> (r: Self)
        requires
            min_val(T::bits_spec(), T::signed_spec()) <= self.recon() + rhs.recon() <= max_val(
                T::bits_spec(),
                T::signed_spec(),
            ) as int,
        ensures
            r.triple() == encode_of(self.recon() + rhs.recon(), T::bits_spec(), T::signed_spec()),
    {
        self.checked_add(rhs).unwrap()
    }

    /// Subtraction by decode, native subtract, re-encode. The caller keeps
    /// the difference in the type's range.
    pub fn sub(self, rhs: Self) -> (r: Self)
        requires
            min_val(T::bits_spec(), T::signed_spec()) <= self.recon() - rhs.recon() <= max_val(
                T::bits_spec(),
                T::signed_spec(),
            ) as int,
        ensures
            r.triple() == encode_of(self.recon() - rhs.recon(), T::bits_spec(), T::signed_spec()),
    {
        self.checked_sub(rhs).unwrap()
    }

    /// Multiplication by decode, native multiply, re-encode. The caller keeps
    /// the product in the type's range.
    pub fn mul(self, rhs: Self) -> (r: Self)
        requires
            min_val(T::bits_spec(), T::signed_spec()) <= self.recon() * rhs.recon() <= max_val(
                T::bits_spec(),
                T::signed_spec(),
            ) as int,
        ensures
            r.triple() == encode_of(self.recon() * rhs.recon(), T::bits_spec(), T::signed_spec()),
    {
        self.checked_mul(rhs).unwrap()
    }

    /// Division by decode, native divide, re-encode. The divisor must not
    /// reconstruct to zero.
    pub fn div(self, rhs: Self) -> (r: Self)
        requires
            rhs.recon() != 0,
        ensures
            r.triple() == encode_of(
                trunc_div(self.recon(), rhs.recon()),
                T::bits_spec(),
                T::signed_spec(),
            ),
    {
        self.checked_div(rhs).unwrap()
    }

    /// Remainder by decode, native remainder, re-encode. The divisor must not
    /// reconstruct to zero.
    pub fn rem(self, rhs: Self) -> (r: Self)
        requires
            rhs.recon() != 0,
        ensures
            r.triple() == encode_of(
                trunc_rem(self.recon(), rhs.recon()),
                T::bits_spec(),
                T::signed_spec(),
            ),
    {
        self.checked_rem(rhs).unwrap()
    }
}

/// Law: order agrees with reconstruction order: a value compares below
/// another exactly when it reconstructs below it, and ties in reconstruction
/// are ties in order regardless of triple identity.
pub proof fn lemma_order_by_reconstruction<T: SpecialBytes>(a: SmallValue<T>, b: SmallValue<T>)
    ensures
        (a.partial_cmp_spec(&b) == Some(core::cmp::Ordering::Less)) <==> (a.recon() < b.recon()),
        (a.partial_cmp_spec(&b) == Some(core::cmp::Ordering::Equal)) <==> (a.recon() == b.recon()),
        (a.partial_cmp_spec(&b) == Some(core::cmp::Ordering::Greater)) <==> (a.recon()
            > b.recon()),
{
}

/// Law: the literal triple format round-trips exactly: a value built from any
/// triple converts back to that same triple.
pub proof fn lemma_triple_round_trip<T: SpecialBytes>(t: (u8, u8, bool))
    ensures
        ({
            let v = <SmallValue<T> as FromSpec<(u8, u8, bool)>>::from_spec(t);
            <(u8, u8, bool) as FromSpec<SmallValue<T>>>::from_spec(v) == t
        }),
{
}

/// Law: encoding the type's zero stores bit length one, and the zero value
/// round-trips exactly: its reconstruction and both of its bounds are zero.
pub proof fn lemma_zero_exact_value<T: SpecialBytes>(sv: SmallValue<T>)
    requires
        sv.triple() == encode_of(0, T::bits_spec(), T::signed_spec()),
    ensures
        sv.triple() == (1nat, 1nat, false),
        sv.recon() == 0,
        sv.bounds_spec() == (0int, 0int),
{
    T::width_properties();
    crate::encoding::lemma_zero_exact(T::bits_spec(), T::signed_spec());
}

/// Law: the stored bit length of an encoded value lies in `[1, width]` and is
/// the least bit count bounding the magnitude under the complement convention
/// for negatives, so both extremes of a signed type measure one below the
/// width. Minus one is the lone exception: its complement measures zero bits.
pub proof fn lemma_bit_length_range_value<T: SpecialBytes>(sv: SmallValue<T>, n: int)
    requires
        sv.triple() == encode_of(n, T::bits_spec(), T::signed_spec()),
        min_val(T::bits_spec(), T::signed_spec()) <= n <= max_val(
            T::bits_spec(),
            T::signed_spec(),
        ) as int,
        n != -1,
    ensures
        1 <= sv.triple().0 <= T::bits_spec(),
        T::signed_spec() ==> sv.triple().0 <= T::bits_spec() - 1,
        n == 0 ==> sv.triple().0 == 1,
        n > 0 ==> pow2((sv.triple().0 - 1) as nat) <= n < pow2(sv.triple().0),
        n < 0 ==> pow2((sv.triple().0 - 1) as nat) <= -n - 1 < pow2(sv.triple().0),
{
    T::width_properties();
    crate::encoding::lemma_bit_length_range(n, T::bits_spec(), T::signed_spec());
}

/// Law: the extreme values of every supported type reconstruct with a
/// relative error under two percent: the maximum undershoots and the minimum
/// overshoots, each by less than a fiftieth of the true magnitude.
pub proof fn lemma_extreme_error_value<T: SpecialBytes>(sv: SmallValue<T>, n: int)
    requires
        sv.triple() == encode_of(n, T::bits_spec(), T::signed_spec()),
        n == max_val(T::bits_spec(), T::signed_spec()) as int || (T::signed_spec() && n == min_val(
            T::bits_spec(),
            T::signed_spec(),
        )),
    ensures
        n > 0 ==> sv.recon() <= n && 50 * (n - sv.recon()) < n,
        n < 0 ==> n <= sv.recon() && 50 * (sv.recon() - n) < -n,
{
    T::width_properties();
    crate::encoding::lemma_extreme_error_bound(n, T::bits_spec(), T::signed_spec());
}

/// Law: the two bounds of an encoded value are ordered, low at or below high.
/// The exceptions are negative values so close to the type's minimum that the
/// upper sibling's reconstruction would overflow the type and collapses to
/// zero: those with a magnitude of at least one hundred whole percentage
/// steps of the maximum, the minimum itself excepted.
pub proof fn lemma_bounds_ordered_value<T: SpecialBytes>(sv: SmallValue<T>, n: int)
    requires
        sv.triple() == encode_of(n, T::bits_spec(), T::signed_spec()),
        min_val(T::bits_spec(), T::signed_spec()) <= n <= max_val(
            T::bits_spec(),
            T::signed_spec(),
        ) as int,
        n >= 0 || n == min_val(T::bits_spec(), T::signed_spec()) || -n < 100 * ((max_val(
            T::bits_spec(),
            T::signed_spec(),
        ) / 100) as int),
    ensures
        sv.bounds_spec().0 <= sv.bounds_spec().1,
{
    T::width_properties();
    crate::encoding::lemma_bounds_ordered(n, T::bits_spec(), T::signed_spec());
}

/// The type's range constants fit the pair arithmetic's expectations: the
/// maximum stays below the full 128-bit ceiling for a signed type, and the
/// minimum sits one past the negated maximum.
proof fn lemma_type_facts<T: SpecialBytes>()
    ensures
        T::bits_spec() == 32 || T::bits_spec() == 64 || T::bits_spec() == 128,
        T::signed_spec() ==> max_val(T::bits_spec(), T::signed_spec()) < u128::MAX,
        pair_lo(max_val(T::bits_spec(), T::signed_spec()), T::signed_spec()) == min_val(
            T::bits_spec(),
            T::signed_spec(),
        ),
        max_val(T::bits_spec(), T::signed_spec()) <= u128::MAX,
{
    T::width_properties();
    crate::power::lemma_pow2_facts();
}

impl<T: SpecialBytes> PartialEq for SmallValue<T> {
    /// Two values are equal exactly when their stored triples are: distinct
    /// triples that reconstruct to the same integer still compare unequal.
    fn eq(&self, other: &Self) -> (r: bool) {
        self.min_bits == other.min_bits && self.percent == other.percent && self.flag
            == other.flag
    }
}

impl<T: SpecialBytes> vstd::std_specs::cmp::PartialEqSpecImpl for SmallValue<T> {
    open spec fn obeys_eq_spec() -> bool {
        true
    }

    open spec fn eq_spec(&self, other: &Self) -> bool {
        self.triple() == other.triple()
    }
}

impl<T: SpecialBytes> Eq for SmallValue<T> {
}

impl<T: SpecialBytes> PartialOrd for SmallValue<T> {
    /// Total order by reconstructed value: ties in reconstruction are ties in
    /// order regardless of triple identity.
    fn partial_cmp(&self, other: &Self) -> (r: Option<core::cmp::Ordering>) {
        proof {
            T::width_properties();
        }
        let w = T::bits();
        let s = T::signed();
        let maxv = max_for(w, s);
        let a = recon_pair(self.min_bits, self.percent, self.flag, w, s, maxv);
        let b = recon_pair(other.min_bits, other.percent, other.flag, w, s, maxv);
        let c = if a.1 && b.1 {
            if b.0 < a.0 {
                core::cmp::Ordering::Less
            } else if a.0 == b.0 {
                core::cmp::Ordering::Equal
            } else {
                core::cmp::Ordering::Greater
            }
        } else if a.1 {
            core::cmp::Ordering::Less
        } else if b.1 {
            core::cmp::Ordering::Greater
        } else {
            if a.0 < b.0 {
                core::cmp::Ordering::Less
            } else if a.0 == b.0 {
                core::cmp::Ordering::Equal
            } else {
                core::cmp::Ordering::Greater
            }
        };
        Some(c)
    }
}

impl<T: SpecialBytes> vstd::std_specs::cmp::PartialOrdSpecImpl for SmallValue<T> {
    open spec fn obeys_partial_cmp_spec() -> bool {
        true
    }

    open spec fn partial_cmp_spec(&self, other: &Self) -> Option<core::cmp::Ordering> {
        if self.recon() < other.recon() {
            Some(core::cmp::Ordering::Less)
        } else if self.recon() == other.recon() {
            Some(core::cmp::Ordering::Equal)
        } else {
            Some(core::cmp::Ordering::Greater)
        }
    }
}

impl<T: SpecialBytes> From<(u8, u8, bool)> for SmallValue<T> {
    /// Stores a literal triple unchecked, as the canonical wire form.
    fn from(t: (u8, u8, bool)) -> (r: Self)
        ensures
            r.triple() == (t.0 as nat, t.1 as nat, t.2),
    {
        SmallValue { min_bits: t.0, percent: t.1, flag: t.2, phantom: PhantomData }
    }
}

impl<T: SpecialBytes> vstd::std_specs::convert::FromSpecImpl<(u8, u8, bool)> for SmallValue<T> {
    open spec fn obeys_from_spec() -> bool {
        true
    }

    closed spec fn from_spec(t: (u8, u8, bool)) -> Self {
        SmallValue { min_bits: t.0, percent: t.1, flag: t.2, phantom: PhantomData }
    }
}

impl<T: SpecialBytes> From<(u8, u8)> for SmallValue<T> {
    /// Stores a two-byte literal pair, for values known to be positive.
    fn from(t: (u8, u8)) -> (r: Self)
        ensures
            r.triple() == (t.0 as nat, t.1 as nat, false),
    {
        SmallValue { min_bits: t.0, percent: t.1, flag: false, phantom: PhantomData }
    }
}

impl<T: SpecialBytes> vstd::std_specs::convert::FromSpecImpl<(u8, u8)> for SmallValue<T> {
    open spec fn obeys_from_spec() -> bool {
        true
    }

    closed spec fn from_spec(t: (u8, u8)) -> Self {
        SmallValue { min_bits: t.0, percent: t.1, flag: false, phantom: PhantomData }
    }
}

impl<T: SpecialBytes> From<SmallValue<T>> for (u8, u8, bool) {
    /// The stored triple in its wire form.
    fn from(v: SmallValue<T>) -> (r: (u8, u8, bool))
        ensures
            (r.0 as nat, r.1 as nat, r.2) == v.triple(),
    {
        (v.min_bits, v.percent, v.flag)
    }
}

impl<T: SpecialBytes> vstd::std_specs::convert::FromSpecImpl<SmallValue<T>> for (u8, u8, bool) {
    open spec fn obeys_from_spec() -> bool {
        true
    }

    closed spec fn from_spec(v: SmallValue<T>) -> Self {
        (v.min_bits, v.percent, v.flag)
    }
}

impl<T: SpecialBytes> From<SmallValue<T>> for (u8, u8) {
    /// The stored triple without its sign, for values known to be positive.
    fn from(v: SmallValue<T>) -> (r: (u8, u8))
        ensures
            (r.0 as nat, r.1 as nat) == (v.triple().0, v.triple().1),
    {
        (v.min_bits, v.percent)
    }
}

impl<T: SpecialBytes> vstd::std_specs::convert::FromSpecImpl<SmallValue<T>> for (u8, u8) {
    open spec fn obeys_from_spec() -> bool {
        true
    }

    closed spec fn from_spec(v: SmallValue<T>) -> Self {
        (v.min_bits, v.percent)
    }
}

impl<T: SpecialBytes> From<T> for SmallValue<T> {
    /// Encodes a plain number, as [`SmallValue::new`] does.
    fn from(number: T) -> (r: Self)
        ensures
            r.triple() == encode_of(number.v(), T::bits_spec(), T::signed_spec()),
    {
        Self::new(number)
    }
}

impl<T: SpecialBytes> vstd::std_specs::convert::FromSpecImpl<T> for SmallValue<T> {
    open spec fn obeys_from_spec() -> bool {
        true
    }

    closed spec fn from_spec(number: T) -> Self {
        let t = encode_of(number.v(), T::bits_spec(), T::signed_spec());
        SmallValue { min_bits: t.0 as u8, percent: t.1 as u8, flag: t.2, phantom: PhantomData }
    }
}

impl<T: SpecialBytes> Default for SmallValue<T> {
    /// The encoding of the type's zero.
    fn default() -> (r: Self)
        ensures
            r.triple() == encode_of(0, T::bits_spec(), T::signed_spec()),
    {
        Self::new(T::zero())
    }
}

} // verus!
