//! The encode/decode core: measuring bit lengths, searching for the best
//! percentage bucket, and reconstructing a magnitude from a stored triple.
//!
//! Everything here works on an unsigned 128-bit magnitude plus a sign flag,
//! parametrised by the width and signedness of the integer type the triple
//! stands for. [`crate::numeric::SpecialBytes`] converts concrete machine
//! integers to and from this shape.

use vstd::prelude::*;

verus! {

use crate::percentage::{
    err_rate_spec, error_rate, lemma_err_rate_range, lemma_err_rate_small, lemma_part_monotone,
    part_from_percentage, part_spec,
};
use crate::power::{
    bit_len, bit_len_u128, lemma_bit_len_below, lemma_bit_len_exact, lemma_bit_len_range,
    lemma_pow2_facts, lemma_pow2_le, pow2_minus_one,
};
use vstd::arithmetic::power2::lemma_pow2_unfold;
use vstd::arithmetic::power2::pow2;

/// Largest value of an integer type of the given width and signedness.
pub open spec fn max_val(width: nat, signed: bool) -> nat {
    if signed {
        (pow2((width - 1) as nat) - 1) as nat
    } else {
        (pow2(width) - 1) as nat
    }
}

/// Smallest value of an integer type of the given width and signedness.
pub open spec fn min_val(width: nat, signed: bool) -> int {
    if signed {
        -(pow2((width - 1) as nat) as int)
    } else {
        0
    }
}

/// Bits needed for the magnitude of a value: zero still takes one bit, and a
/// negative value is measured through its bitwise complement (one below the
/// magnitude), so both extremes of a signed type measure the same.
pub open spec fn bit_size_spec(mag: nat, neg: bool) -> nat
    recommends
        neg ==> mag >= 1,
{
    if neg {
        bit_len((mag - 1) as nat)
    } else if mag == 0 {
        1
    } else {
        bit_len(mag)
    }
}

/// Ceiling of a bit length: the largest magnitude writable in `power` bits,
/// saturated to the type's maximum once `power` reaches the full width.
pub open spec fn bit_pow_spec(power: nat, width: nat, signed: bool) -> nat {
    if power >= width {
        max_val(width, signed)
    } else {
        (pow2(power) - 1) as nat
    }
}

/// The highest percentage in `[2, p]` whose reconstruction undershoots `mag`,
/// or 1 when none does.
pub open spec fn search_pct(p: int, mag: nat, total: nat, maxv: nat) -> int
    decreases p,
{
    if p <= 1 {
        1
    } else if mag > part_spec(p as nat, total, maxv) {
        p
    } else {
        search_pct(p - 1, mag, total, maxv)
    }
}

/// The triple stored for a magnitude and sign: bit length, percentage and
/// flag. The type's minimum, whose magnitude has no positive counterpart,
/// short-circuits to the top percentage; a negative value otherwise biases
/// the stored percentage upward by the relative error of the reconstruction.
pub open spec fn encode_spec(mag: nat, neg: bool, width: nat, signed: bool) -> (nat, nat, bool)
    recommends
        neg ==> mag >= 1,
{
    let maxv = max_val(width, signed);
    let mb = bit_size_spec(mag, neg);
    if neg && mag == maxv + 1 {
        (mb, 99, true)
    } else {
        let total = bit_pow_spec(mb, width, signed);
        let p = search_pct(99, mag, total, maxv);
        if p >= 2 {
            let bias = if neg {
                err_rate_spec(mag, part_spec(p as nat, total, maxv))
            } else {
                0
            };
            (mb, (p + bias) as nat, neg)
        } else {
            (mb, 1, neg)
        }
    }
}

/// The triple stored for a plain integer value.
pub open spec fn encode_of(n: int, width: nat, signed: bool) -> (nat, nat, bool) {
    encode_spec(if n < 0 { (-n) as nat } else { n as nat }, n < 0, width, signed)
}

/// The percentage a flagged triple decodes with: one step above the stored
/// one, saturated at the top of its byte.
pub open spec fn effective_pct(pct: nat, flag: bool) -> nat {
    if flag {
        if pct >= 255 {
            255
        } else {
            pct + 1
        }
    } else {
        pct
    }
}

/// Magnitude a triple reconstructs to.
pub open spec fn recon_mag_spec(mb: nat, pct: nat, flag: bool, width: nat, signed: bool) -> nat {
    part_spec(effective_pct(pct, flag), bit_pow_spec(mb, width, signed), max_val(width, signed))
}

/// Signed value a triple reconstructs to. A flagged triple of an unsigned
/// type cannot be negated and clamps to the type's minimum, zero.
pub open spec fn recon_spec(mb: nat, pct: nat, flag: bool, width: nat, signed: bool) -> int {
    let m = recon_mag_spec(mb, pct, flag, width, signed);
    if flag {
        if signed {
            -(m as int)
        } else {
            0
        }
    } else {
        m as int
    }
}

/// The percentage of the sibling triple that `bounds` compares against: one
/// step up for a positive value, two steps down for a negative one, both
/// saturating.
pub open spec fn sibling_pct(pct: nat, flag: bool) -> nat {
    if flag {
        if pct >= 2 {
            (pct - 2) as nat
        } else {
            0
        }
    } else {
        if pct >= 255 {
            255
        } else {
            pct + 1
        }
    }
}

/// Properties of the percentage search: the result stays in `[1, p]`, a
/// result above 1 names an undershooting percentage, and everything above the
/// result overshoots.
pub proof fn lemma_search_pct(p: int, mag: nat, total: nat, maxv: nat)
    requires
        p >= 1,
    ensures
        1 <= search_pct(p, mag, total, maxv) <= p,
        search_pct(p, mag, total, maxv) >= 2 ==> mag > part_spec(
            search_pct(p, mag, total, maxv) as nat,
            total,
            maxv,
        ),
        forall|q: int|
            search_pct(p, mag, total, maxv) < q <= p ==> mag <= #[trigger] part_spec(
                q as nat,
                total,
                maxv,
            ),
    decreases p,
{
    if p > 1 && mag <= part_spec(p as nat, total, maxv) {
        lemma_search_pct(p - 1, mag, total, maxv);
    }
}

/// Nothing undershoots a zero magnitude, so the search always falls through
/// to the lowest percentage.
proof fn lemma_search_zero(p: int, total: nat, maxv: nat)
    requires
        p >= 1,
    ensures
        search_pct(p, 0, total, maxv) == 1,
    decreases p,
{
    if p > 1 {
        lemma_search_zero(p - 1, total, maxv);
    }
}

/// Law: encoding zero stores bit length one and percentage one, its
/// reconstruction is exactly zero, and both of its bounds are zero as well.
pub proof fn lemma_zero_exact(width: nat, signed: bool)
    requires
        width == 32 || width == 64 || width == 128,
    ensures
        encode_of(0, width, signed) == (1nat, 1nat, false),
        recon_spec(1, 1, false, width, signed) == 0,
        recon_spec(1, sibling_pct(1, false), false, width, signed) == 0,
{
    lemma_pow2_facts();
    lemma_pow2_le(31, (width - 1) as nat);
    let maxv = max_val(width, signed);
    lemma_search_zero(99, 1, maxv);
}

/// Law: the stored bit length lies in `[1, width]` — for a signed type even
/// in `[1, width - 1]`, so both extremes of the type measure alike — and it
/// is the least number of bits bounding the magnitude, where a negative
/// value's magnitude is measured through its complement. Minus one is the
/// lone exception: its complement is empty and measures zero bits.
pub proof fn lemma_bit_length_range(n: int, width: nat, signed: bool)
    requires
        width == 32 || width == 64 || width == 128,
        min_val(width, signed) <= n <= max_val(width, signed) as int,
        n != -1,
    ensures
        1 <= encode_of(n, width, signed).0 <= width,
        signed ==> encode_of(n, width, signed).0 <= width - 1,
        n == 0 ==> encode_of(n, width, signed).0 == 1,
        n > 0 ==> pow2((encode_of(n, width, signed).0 - 1) as nat) <= n < pow2(
            encode_of(n, width, signed).0,
        ),
        n < 0 ==> pow2((encode_of(n, width, signed).0 - 1) as nat) <= -n - 1 < pow2(
            encode_of(n, width, signed).0,
        ),
{
    lemma_pow2_facts();
    let maxv = max_val(width, signed);
    let neg = n < 0;
    let mag = (if n < 0 {
        -n
    } else {
        n
    }) as nat;
    if neg && !signed {
        assert(min_val(width, signed) == 0);
    }
    if n > 0 {
        lemma_bit_len_range(mag);
        if signed {
            lemma_bit_len_below(mag, (width - 1) as nat);
        } else {
            lemma_bit_len_below(mag, width);
        }
    } else if n < 0 {
        lemma_bit_len_range((mag - 1) as nat);
        lemma_bit_len_below((mag - 1) as nat, (width - 1) as nat);
    }
}

/// Law: the extreme values of every supported type reconstruct with a
/// relative error under two percent. The maximum lands in the top percentage
/// bucket and undershoots by less than a fiftieth of itself; the minimum
/// decodes one bucket above its stored percentage and comes out at or above
/// the true value, again by less than a fiftieth.
pub proof fn lemma_extreme_error_bound(n: int, width: nat, signed: bool)
    requires
        width == 32 || width == 64 || width == 128,
        n == max_val(width, signed) as int || (signed && n == min_val(width, signed)),
    ensures
        ({
            let t = encode_of(n, width, signed);
            let r = recon_spec(t.0, t.1, t.2, width, signed);
            &&& (n > 0 ==> r <= n && 50 * (n - r) < n)
            &&& (n < 0 ==> n <= r && 50 * (r - n) < -n)
        }),
{
    lemma_pow2_facts();
    lemma_pow2_le(31, (width - 1) as nat);
    lemma_pow2_le((width - 1) as nat, width);
    vstd::arithmetic::power2::lemma_pow2_pos((width - 2) as nat);
    lemma_pow2_unfold((width - 1) as nat);
    lemma_pow2_unfold(width);
    let maxv = max_val(width, signed);
    let c = maxv / 100;
    vstd::arithmetic::div_mod::lemma_fundamental_div_mod(maxv as int, 100);
    vstd::arithmetic::div_mod::lemma_div_is_ordered(0x7fffffff, maxv as int, 100);
    assert(c >= 21474836);
    if n == maxv as int {
        if signed {
            lemma_bit_len_exact(maxv, (width - 1) as nat);
        } else {
            lemma_bit_len_exact(maxv, width);
        }
        assert(part_spec(99, maxv, maxv) == c * 99);
        assert(search_pct(99, maxv, maxv, maxv) == 99);
    } else {
        lemma_bit_len_exact(maxv, (width - 1) as nat);
        assert(part_spec(100, maxv, maxv) == c * 100);
    }
}

/// The ceiling of a stored bit length never exceeds the type's maximum.
proof fn lemma_total_le_max(mag: nat, neg: bool, width: nat, signed: bool)
    requires
        width >= 2,
        neg ==> signed && mag >= 1,
        mag <= max_val(width, signed) + (if neg {
            1nat
        } else {
            0nat
        }),
    ensures
        bit_pow_spec(bit_size_spec(mag, neg), width, signed) <= max_val(width, signed),
        signed ==> bit_size_spec(mag, neg) <= width - 1,
{
    let mb = bit_size_spec(mag, neg);
    vstd::arithmetic::power2::lemma_pow2_pos(width);
    vstd::arithmetic::power2::lemma_pow2_pos((width - 1) as nat);
    vstd::arithmetic::power2::lemma_pow2_pos(mb);
    if signed {
        if neg {
            lemma_bit_len_below((mag - 1) as nat, (width - 1) as nat);
        } else if mag > 0 {
            lemma_bit_len_below(mag, (width - 1) as nat);
        }
        assert(mb <= width - 1);
        if mb < width {
            lemma_pow2_le(mb, (width - 1) as nat);
            assert(bit_pow_spec(mb, width, signed) <= max_val(width, signed));
        }
    } else {
        if mag > 0 {
            lemma_bit_len_below(mag, width);
        }
        if mb < width {
            lemma_pow2_le(mb, width);
            assert(bit_pow_spec(mb, width, signed) <= max_val(width, signed));
        }
    }
}

/// A percentage of at most one hundred of a ceiling that fits the type also
/// fits the type.
proof fn lemma_step_fits(q: nat, total: nat, maxv: nat)
    requires
        q <= 100,
        total <= maxv,
        19800 <= maxv,
    ensures
        total < 100 ==> total * q <= maxv,
        total >= 100 ==> (total / 100) * q <= maxv,
{
    if total < 100 {
        assert(total * q <= 9900) by (nonlinear_arith)
            requires
                0 <= total <= 99,
                0 <= q <= 100,
        ;
    } else {
        let c = total / 100;
        vstd::arithmetic::div_mod::lemma_fundamental_div_mod(total as int, 100);
        assert(c * q <= c * 100) by (nonlinear_arith)
            requires
                q <= 100,
                c >= 0,
        ;
    }
}

/// Up to two hundred percent of a ceiling fits the type when twice the
/// ceiling does.
proof fn lemma_wide_step_fits(q: nat, total: nat, maxv: nat)
    requires
        q <= 200,
        19800 <= maxv,
        total < 100 || 2 * total <= maxv,
    ensures
        total < 100 ==> total * q <= maxv,
        total >= 100 ==> (total / 100) * q <= maxv,
{
    if total < 100 {
        assert(total * q <= 19800) by (nonlinear_arith)
            requires
                0 <= total <= 99,
                0 <= q <= 200,
        ;
    } else {
        let c = total / 100;
        vstd::arithmetic::div_mod::lemma_fundamental_div_mod(total as int, 100);
        assert(c * q <= c * 200) by (nonlinear_arith)
            requires
                q <= 200,
                c >= 0,
        ;
    }
}

/// Law: the two bounds of an encoded value are ordered, low at or below high.
/// The exceptions are negative values so close to the type's minimum that the
/// upper sibling's reconstruction would overflow the type and collapses to
/// zero: those with a magnitude of at least one hundred whole percentage
/// steps of the maximum, the minimum itself excepted.
#[verifier::rlimit(50)]
pub proof fn lemma_bounds_ordered(n: int, width: nat, signed: bool)
    requires
        width == 32 || width == 64 || width == 128,
        min_val(width, signed) <= n <= max_val(width, signed) as int,
        n >= 0 || n == min_val(width, signed) || -n < 100 * ((max_val(width, signed) / 100) as int),
    ensures
        ({
            let t = encode_of(n, width, signed);
            recon_spec(t.0, t.1, t.2, width, signed) <= recon_spec(
                t.0,
                sibling_pct(t.1, t.2),
                t.2,
                width,
                signed,
            )
        }),
{
    lemma_pow2_facts();
    lemma_pow2_le(31, (width - 1) as nat);
    lemma_pow2_le((width - 1) as nat, width);
    let maxv = max_val(width, signed);
    assert(19800 <= maxv);
    let neg = n < 0;
    let mag = (if n < 0 {
        -n
    } else {
        n
    }) as nat;
    if neg && !signed {
        assert(min_val(width, signed) == 0);
    }
    let mb = bit_size_spec(mag, neg);
    let total = bit_pow_spec(mb, width, signed);
    lemma_total_le_max(mag, neg, width, signed);
    if neg && mag == maxv + 1 {
        lemma_step_fits(100, total, maxv);
        lemma_part_monotone(98, 100, total, maxv);
    } else {
        let p = search_pct(99, mag, total, maxv);
        lemma_search_pct(99, mag, total, maxv);
        if p >= 2 {
            if !neg {
                lemma_step_fits((p + 1) as nat, total, maxv);
                lemma_part_monotone(p as nat, (p + 1) as nat, total, maxv);
            } else {
                let appr = part_spec(p as nat, total, maxv);
                let bias = err_rate_spec(mag, appr);
                lemma_err_rate_range(mag, appr);
                let s = p + bias;
                if total >= 100 && 2 * total > maxv {
                    vstd::arithmetic::power2::lemma_pow2_pos(mb);
                    if mb < width && mb + 1 < width {
                        lemma_pow2_le((mb + 1) as nat, (width - 1) as nat);
                        lemma_pow2_unfold((mb + 1) as nat);
                        assert(total == pow2(mb) - 1);
                        assert(2 * total == pow2((mb + 1) as nat) - 2);
                        assert(pow2((mb + 1) as nat) <= pow2((width - 1) as nat));
                        assert(false);
                    }
                    assert(total == maxv);
                    let c = total / 100;
                    lemma_step_fits(p as nat, total, maxv);
                    assert(appr == c * p);
                    lemma_err_rate_small(mag, c, p as nat);
                    lemma_step_fits((s + 1) as nat, total, maxv);
                    lemma_part_monotone((s - 1) as nat, (s + 1) as nat, total, maxv);
                } else {
                    lemma_wide_step_fits((s + 1) as nat, total, maxv);
                    lemma_part_monotone((s - 1) as nat, (s + 1) as nat, total, maxv);
                }
            }
        } else {
            lemma_step_fits(2, total, maxv);
            lemma_part_monotone(1, 2, total, maxv);
        }
    }
}

/// Computes `max_val` on machine integers.
pub fn max_for(width: u8, signed: bool) -> (r: u128)
    requires
        1 <= width <= 128,
        signed ==> width >= 2,
    ensures
        r as nat == max_val(width as nat, signed),
{
    if signed {
        pow2_minus_one(width - 1)
    } else {
        pow2_minus_one(width)
    }
}

/// Computes `bit_size_spec` on machine integers.
pub fn bit_size(mag: u128, neg: bool) -> (r: u8)
    requires
        neg ==> mag >= 1,
    ensures
        r as nat == bit_size_spec(mag as nat, neg),
{
    if neg {
        bit_len_u128(mag - 1)
    } else if mag == 0 {
        1
    } else {
        bit_len_u128(mag)
    }
}

/// Computes `bit_pow_spec` on machine integers.
pub fn bit_pow(power: u8, width: u8, signed: bool, maxv: u128) -> (r: u128)
    requires
        1 <= width <= 128,
        signed ==> width >= 2,
        maxv as nat == max_val(width as nat, signed),
    ensures
        r as nat == bit_pow_spec(power as nat, width as nat, signed),
{
    if power >= width {
        maxv
    } else {
        pow2_minus_one(power)
    }
}

/// Computes `encode_spec` on machine integers.
#[verifier::loop_isolation(false)]
pub fn encode_core(mag: u128, neg: bool, width: u8, signed: bool, maxv: u128) -> (r: (u8, u8, bool))
    requires
        1 <= width <= 128,
        signed ==> width >= 2,
        maxv as nat == max_val(width as nat, signed),
        neg ==> signed && mag >= 1,
        mag as nat <= max_val(width as nat, signed) + (if neg {
            1nat
        } else {
            0nat
        }),
    ensures
        (r.0 as nat, r.1 as nat, r.2) == encode_spec(mag as nat, neg, width as nat, signed),
{
    let mb = bit_size(mag, neg);
    if neg && mag - 1 == maxv {
        return (mb, 99, true);
    }
    let total = bit_pow(mb, width, signed, maxv);
    let ghost gmag = mag as nat;
    let ghost gtotal = total as nat;
    let ghost gmax = maxv as nat;
    let mut percent: u8 = 99;
    while percent > 1
        invariant
            1 <= percent <= 99,
            gmag == mag as nat,
            gtotal == total as nat,
            gmax == maxv as nat,
            search_pct(99, gmag, gtotal, gmax) == search_pct(percent as int, gmag, gtotal, gmax),
        decreases percent,
    {
        let approx = part_from_percentage(percent, total, maxv);
        if mag > approx {
            proof {
                assert(search_pct(percent as int, gmag, gtotal, gmax) == percent as int);
            }
            let stored: u8 = if neg {
                let bias = error_rate(mag, approx);
                percent + bias
            } else {
                percent
            };
            return (mb, stored, neg);
        }
        proof {
            assert(search_pct(percent as int, gmag, gtotal, gmax) == search_pct(
                percent as int - 1,
                gmag,
                gtotal,
                gmax,
            ));
        }
        percent = percent - 1;
    }
    (mb, 1, neg)
}

/// Computes the reconstruction of a triple as a canonical magnitude/sign
/// pair: the flag is kept only for a signed type and a nonzero magnitude.
pub fn recon_pair(mb: u8, pct: u8, flag: bool, width: u8, signed: bool, maxv: u128) -> (r: (
    u128,
    bool,
))
    requires
        1 <= width <= 128,
        signed ==> width >= 2,
        maxv as nat == max_val(width as nat, signed),
    ensures
        (if r.1 {
            -(r.0 as int)
        } else {
            r.0 as int
        }) == recon_spec(mb as nat, pct as nat, flag, width as nat, signed),
        r.0 as nat <= max_val(width as nat, signed),
        r.1 ==> signed && r.0 >= 1,
{
    let eff: u8 = if flag {
        if pct == 255 {
            255
        } else {
            pct + 1
        }
    } else {
        pct
    };
    let total = bit_pow(mb, width, signed, maxv);
    let m = part_from_percentage(eff, total, maxv);
    if flag && signed && m > 0 {
        (m, true)
    } else {
        (if flag {
            0
        } else {
            m
        }, false)
    }
}

} // verus!
