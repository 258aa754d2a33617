//! Exact arithmetic on magnitude/sign pairs.
//!
//! A signed value of any supported width is carried as a `u128` magnitude and
//! a flag, canonically: the flag is set only for a genuinely negative value.
//! Each operation reports `None` exactly when the mathematical result falls
//! outside the range `[lo, maxv]` of the underlying type, where `lo` is
//! `-(maxv + 1)` for a signed type and `0` otherwise — the same cases in
//! which the type's native operation would overflow.

use vstd::prelude::*;

verus! {

use vstd::math::abs;

/// The integer a magnitude/sign pair stands for.
pub open spec fn pair_v(m: nat, neg: bool) -> int {
    if neg {
        -(m as int)
    } else {
        m as int
    }
}

/// Division truncating toward zero, as machine integers divide.
pub open spec fn trunc_div(a: int, b: int) -> int
    recommends
        b != 0,
{
    if (a < 0) == (b < 0) {
        abs(a) as int / abs(b) as int
    } else {
        -(abs(a) as int / abs(b) as int)
    }
}

/// Remainder of truncating division: it carries the dividend's sign.
pub open spec fn trunc_rem(a: int, b: int) -> int
    recommends
        b != 0,
{
    a - trunc_div(a, b) * b
}

/// Smallest value of a type with maximum `maxv`.
pub open spec fn pair_lo(maxv: nat, signed: bool) -> int {
    if signed {
        -(maxv as int) - 1
    } else {
        0
    }
}

/// A well-formed operand: within the type's magnitude bound, and negative
/// only when the type is signed and the magnitude is nonzero.
pub open spec fn pair_ok(m: nat, neg: bool, maxv: nat, signed: bool) -> bool {
    &&& m <= maxv
    &&& (neg ==> signed && m >= 1)
}

/// A well-formed result: like an operand, except that a signed type also
/// admits the magnitude `maxv + 1` under the flag — its minimum value.
pub open spec fn pair_res_ok(m: nat, neg: bool, maxv: nat, signed: bool) -> bool {
    &&& (neg ==> signed && m >= 1)
    &&& m <= maxv + (if neg {
        1nat
    } else {
        0nat
    })
}

/// Sum of two pairs, `None` exactly on overflow of the type.
pub fn pair_add(am: u128, an: bool, bm: u128, bn: bool, maxv: u128, signed: bool) -> (r: Option<
    (u128, bool),
>)
    requires
        pair_ok(am as nat, an, maxv as nat, signed),
        pair_ok(bm as nat, bn, maxv as nat, signed),
        signed ==> maxv < u128::MAX,
    ensures
        ({
            let s = pair_v(am as nat, an) + pair_v(bm as nat, bn);
            &&& (r is Some <==> pair_lo(maxv as nat, signed) <= s <= maxv as int)
            &&& (r matches Some(p) ==> pair_v(p.0 as nat, p.1) == s && pair_res_ok(
                p.0 as nat,
                p.1,
                maxv as nat,
                signed,
            ))
        }),
{
    if an == bn {
        match am.checked_add(bm) {
            Some(m) => {
                if !an {
                    if m <= maxv {
                        Some((m, false))
                    } else {
                        None
                    }
                } else {
                    if m - 1 <= maxv {
                        Some((m, true))
                    } else {
                        None
                    }
                }
            },
            None => None,
        }
    } else {
        if am >= bm {
            let m = am - bm;
            if m == 0 || !an {
                Some((m, false))
            } else {
                Some((m, true))
            }
        } else {
            let m = bm - am;
            if !bn {
                Some((m, false))
            } else {
                Some((m, true))
            }
        }
    }
}

/// Difference of two pairs, `None` exactly on overflow of the type.
pub fn pair_sub(am: u128, an: bool, bm: u128, bn: bool, maxv: u128, signed: bool) -> (r: Option<
    (u128, bool),
>)
    requires
        pair_ok(am as nat, an, maxv as nat, signed),
        pair_ok(bm as nat, bn, maxv as nat, signed),
        signed ==> maxv < u128::MAX,
    ensures
        ({
            let s = pair_v(am as nat, an) - pair_v(bm as nat, bn);
            &&& (r is Some <==> pair_lo(maxv as nat, signed) <= s <= maxv as int)
            &&& (r matches Some(p) ==> pair_v(p.0 as nat, p.1) == s && pair_res_ok(
                p.0 as nat,
                p.1,
                maxv as nat,
                signed,
            ))
        }),
{
    if an != bn {
        match am.checked_add(bm) {
            Some(m) => {
                if !an {
                    if m <= maxv {
                        Some((m, false))
                    } else {
                        None
                    }
                } else {
                    if m - 1 <= maxv {
                        Some((m, true))
                    } else {
                        None
                    }
                }
            },
            None => None,
        }
    } else {
        if am >= bm {
            let m = am - bm;
            if m == 0 || !an {
                Some((m, false))
            } else {
                Some((m, true))
            }
        } else {
            let m = bm - am;
            if an {
                Some((m, false))
            } else {
                if signed {
                    Some((m, true))
                } else {
                    None
                }
            }
        }
    }
}

/// Product of two pairs, `None` exactly on overflow of the type.
pub fn pair_mul(am: u128, an: bool, bm: u128, bn: bool, maxv: u128, signed: bool) -> (r: Option<
    (u128, bool),
>)
    requires
        pair_ok(am as nat, an, maxv as nat, signed),
        pair_ok(bm as nat, bn, maxv as nat, signed),
        signed ==> maxv < u128::MAX,
    ensures
        ({
            let s = pair_v(am as nat, an) * pair_v(bm as nat, bn);
            &&& (r is Some <==> pair_lo(maxv as nat, signed) <= s <= maxv as int)
            &&& (r matches Some(p) ==> pair_v(p.0 as nat, p.1) == s && pair_res_ok(
                p.0 as nat,
                p.1,
                maxv as nat,
                signed,
            ))
        }),
{
    proof {
        lemma_mul_signs(am as nat, an, bm as nat, bn);
    }
    match am.checked_mul(bm) {
        Some(m) => {
            if m == 0 {
                Some((0, false))
            } else if an == bn {
                if m <= maxv {
                    Some((m, false))
                } else {
                    None
                }
            } else {
                if m - 1 <= maxv {
                    Some((m, true))
                } else {
                    None
                }
            }
        },
        None => {
            proof {
                assert(am as int * bm as int >= u128::MAX as int + 1);
                if an != bn {
                    assert(signed && maxv < u128::MAX);
                }
            }
            None
        },
    }
}

/// Truncating quotient of two pairs, `None` exactly when the divisor decodes
/// to zero. The quotient's magnitude never exceeds the dividend's, so this
/// never overflows the type.
pub fn pair_div(am: u128, an: bool, bm: u128, bn: bool, maxv: u128, signed: bool) -> (r: Option<
    (u128, bool),
>)
    requires
        pair_ok(am as nat, an, maxv as nat, signed),
        pair_ok(bm as nat, bn, maxv as nat, signed),
    ensures
        (r is Some <==> pair_v(bm as nat, bn) != 0),
        (r matches Some(p) ==> pair_v(p.0 as nat, p.1) == trunc_div(
            pair_v(am as nat, an),
            pair_v(bm as nat, bn),
        ) && pair_ok(p.0 as nat, p.1, maxv as nat, signed)),
{
    if bm == 0 {
        None
    } else {
        let m = am / bm;
        proof {
            assert(am as int / bm as int <= am as int) by (nonlinear_arith)
                requires
                    am >= 0,
                    bm >= 1,
            ;
        }
        if m > 0 && (an != bn) {
            Some((m, true))
        } else {
            Some((m, false))
        }
    }
}

/// Truncating remainder of two pairs, `None` exactly when the divisor decodes
/// to zero. The remainder keeps the dividend's sign and never overflows.
pub fn pair_rem(am: u128, an: bool, bm: u128, bn: bool, maxv: u128, signed: bool) -> (r: Option<
    (u128, bool),
>)
    requires
        pair_ok(am as nat, an, maxv as nat, signed),
        pair_ok(bm as nat, bn, maxv as nat, signed),
    ensures
        (r is Some <==> pair_v(bm as nat, bn) != 0),
        (r matches Some(p) ==> pair_v(p.0 as nat, p.1) == trunc_rem(
            pair_v(am as nat, an),
            pair_v(bm as nat, bn),
        ) && pair_ok(p.0 as nat, p.1, maxv as nat, signed)),
{
    if bm == 0 {
        None
    } else {
        proof {
            lemma_trunc_rem(am as nat, an, bm as nat, bn);
        }
        let m = am % bm;
        if m > 0 && an {
            Some((m, true))
        } else {
            Some((m, false))
        }
    }
}

/// The product of two pairs is the product of the magnitudes, negative
/// exactly when the signs differ.
proof fn lemma_mul_signs(am: nat, an: bool, bm: nat, bn: bool)
    ensures
        pair_v(am, an) * pair_v(bm, bn) == if an == bn {
            (am * bm) as int
        } else {
            -((am * bm) as int)
        },
{
    assert((-(am as int)) * (-(bm as int)) == am as int * bm as int && (-(am as int)) * (
    bm as int) == -(am as int * bm as int) && (am as int) * (-(bm as int)) == -(am as int
        * bm as int)) by (nonlinear_arith);
}

/// Truncating remainder over pairs is the remainder of the magnitudes under
/// the dividend's sign.
proof fn lemma_trunc_rem(am: nat, an: bool, bm: nat, bn: bool)
    requires
        bm >= 1,
        an ==> am >= 1,
        bn ==> bm >= 1,
    ensures
        trunc_rem(pair_v(am, an), pair_v(bm, bn)) == pair_v((am % bm) as nat, an),
        am % bm < bm,
{
    let a = pair_v(am, an);
    let b = pair_v(bm, bn);
    let q = am as int / bm as int;
    let m2 = am as int % bm as int;
    vstd::arithmetic::div_mod::lemma_fundamental_div_mod(am as int, bm as int);
    assert(q >= 0 && 0 <= m2 < bm) by (nonlinear_arith)
        requires
            am >= 0,
            bm >= 1,
            q == am as int / bm as int,
            m2 == am as int % bm as int,
    ;
    assert(abs(a) == am && abs(b) == bm);
    if an == bn {
        assert(trunc_div(a, b) == q);
        assert((if an {
            -(am as int)
        } else {
            am as int
        }) - q * (if bn {
            -(bm as int)
        } else {
            bm as int
        }) == (if an {
            -m2
        } else {
            m2
        })) by (nonlinear_arith)
            requires
                am as int == bm as int * q + m2,
                an == bn,
        ;
    } else {
        assert(trunc_div(a, b) == -q);
        assert((if an {
            -(am as int)
        } else {
            am as int
        }) - (-q) * (if bn {
            -(bm as int)
        } else {
            bm as int
        }) == (if an {
            -m2
        } else {
            m2
        })) by (nonlinear_arith)
            requires
                am as int == bm as int * q + m2,
                an != bn,
        ;
    }
}

} // verus!
