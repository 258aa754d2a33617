//! Percentage arithmetic: taking an integer percentage of a ceiling value
//! without overflowing, and measuring a relative error as a percentage.

use vstd::prelude::*;

verus! {

/// The magnitude reconstructed from a percentage of `total`, guarded against
/// exceeding `maxv`. Small ceilings multiply before dividing to keep
/// precision; larger ones divide first to avoid overflow; a product that
/// would not fit the type collapses to zero.
pub open spec fn part_spec(pct: nat, total: nat, maxv: nat) -> nat {
    if total < 100 && total * pct <= maxv {
        (total * pct) / 100
    } else if (total / 100) * pct <= maxv {
        (total / 100) * pct
    } else {
        0
    }
}

/// The reconstructed part never exceeds the ceiling bound.
pub proof fn lemma_part_le_max(pct: nat, total: nat, maxv: nat)
    ensures
        part_spec(pct, total, maxv) <= maxv,
{
    if total < 100 && total * pct <= maxv {
        assert((total * pct) / 100 <= total * pct) by {
            vstd::arithmetic::div_mod::lemma_div_is_ordered_by_denominator(
                total * pct as int,
                1,
                100,
            );
        }
    }
}

/// Computes `part_spec` on machine integers.
pub fn part_from_percentage(pct: u8, total: u128, maxv: u128) -> (r: u128)
    ensures
        r as nat == part_spec(pct as nat, total as nat, maxv as nat),
        r <= maxv,
{
    proof {
        lemma_part_le_max(pct as nat, total as nat, maxv as nat);
    }
    let p = pct as u128;
    if 100 > total {
        proof {
            assert(total * p <= 99 * 255) by (nonlinear_arith)
                requires
                    0 <= total < 100,
                    0 <= p <= 255,
            ;
        }
        let prod = total * p;
        if prod <= maxv {
            return prod / 100;
        }
    }
    let base = total / 100;
    if p == 0 {
        proof {
            assert(pct as nat == 0);
            assert(total as nat * 0 == 0) by (nonlinear_arith);
            assert((total as nat / 100) * 0 == 0) by (nonlinear_arith);
            assert(part_spec(0, total as nat, maxv as nat) == 0);
        }
        return 0;
    }
    let q = maxv / p;
    if base <= q {
        proof {
            assert(base * p <= q * p) by (nonlinear_arith)
                requires
                    0 <= base <= q,
                    p >= 0,
            ;
            assert(q * p <= maxv) by (nonlinear_arith)
                requires
                    q == maxv / p,
                    p >= 1,
                    maxv >= 0,
            ;
        }
        base * p
    } else {
        proof {
            assert(base * p > maxv) by (nonlinear_arith)
                requires
                    base > maxv / p,
                    p >= 1,
                    maxv >= 0,
            ;
        }
        0
    }
}

/// The reconstructed part never decreases as the percentage grows, as long as
/// the larger percentage's product still fits under `maxv`.
pub proof fn lemma_part_monotone(p1: nat, p2: nat, total: nat, maxv: nat)
    requires
        p1 <= p2,
        total < 100 ==> total * p2 <= maxv,
        total >= 100 ==> (total / 100) * p2 <= maxv,
    ensures
        part_spec(p1, total, maxv) <= part_spec(p2, total, maxv),
{
    if total < 100 {
        assert(total * p1 <= total * p2) by (nonlinear_arith)
            requires
                p1 <= p2,
                total >= 0,
        ;
        vstd::arithmetic::div_mod::lemma_div_is_ordered(
            (total * p1) as int,
            (total * p2) as int,
            100,
        );
    } else {
        assert((total / 100) * p1 <= (total / 100) * p2) by (nonlinear_arith)
            requires
                p1 <= p2,
                total / 100 >= 0,
        ;
    }
}

/// The shortfall of `approx` below `orig`, as a truncated percentage of
/// `orig`.
pub open spec fn err_rate_spec(orig: nat, approx: nat) -> int
    recommends
        approx <= orig,
        orig >= 1,
{
    (100 * (orig - approx)) / (orig as int)
}

/// Computes `err_rate_spec` on machine integers. The product `100 * (orig -
/// approx)` can exceed the machine width, so the quotient is found by
/// descending search instead, comparing through the split `orig == 100 * base
/// + rest`.
pub fn error_rate(orig: u128, approx: u128) -> (r: u8)
    requires
        approx < orig,
    ensures
        r as int == err_rate_spec(orig as nat, approx as nat),
        r <= 100,
{
    let d = orig - approx;
    let base = orig / 100;
    let rest = orig % 100;
    let ghost target = 100 * (d as int);
    let mut m: u8 = 100;
    while m > 0
        invariant
            m <= 100,
            approx < orig,
            d == orig - approx,
            base == orig / 100,
            rest == orig % 100,
            target == 100 * (d as int),
            forall|q: int| m < q <= 100 ==> #[trigger] (q * (orig as int)) > target,
        decreases m,
    {
        proof {
            lemma_percent_split(m as int, orig as int, base as int, rest as int, d as int);
        }
        let mu = m as u128;
        let hi = mu * base;
        let lo = mu * rest;
        let c = (lo + 99) / 100;
        if hi <= d && c <= d - hi {
            proof {
                if m == 100 {
                    assert((m + 1) * (orig as int) > target) by (nonlinear_arith)
                        requires
                            m == 100,
                            target == 100 * (d as int),
                            1 <= d <= orig,
                    ;
                }
                lemma_quotient_pinned(m as int, orig as int, target);
            }
            return m;
        }
        m = m - 1;
    }
    proof {
        lemma_quotient_pinned(0, orig as int, target);
    }
    0
}

/// `m * orig <= 100 * d` exactly when the overflow-free test over the split
/// `orig == 100 * base + rest` accepts `m`.
proof fn lemma_percent_split(m: int, orig: int, base: int, rest: int, d: int)
    requires
        0 <= m <= 100,
        orig >= 1,
        1 <= d <= orig,
        base == orig / 100,
        rest == orig % 100,
    ensures
        m * base <= 100 * (orig / 100),
        m * rest <= 100 * 99,
        (m * orig <= 100 * d) <==> (m * base <= d && m * base + (m * rest + 99) / 100 <= d),
{
    vstd::arithmetic::div_mod::lemma_fundamental_div_mod(orig, 100);
    assert(m * base <= 100 * base && m * rest <= 100 * 99 && m * orig == 100 * (m * base) + m
        * rest) by (nonlinear_arith)
        requires
            0 <= m <= 100,
            base >= 0,
            0 <= rest < 100,
            orig == 100 * base + rest,
    ;
    let t = m * rest;
    let c = (t + 99) / 100;
    assert(100 * c >= t && 100 * c <= t + 99 && c >= 0) by (nonlinear_arith)
        requires
            t >= 0,
            c == (t + 99) / 100,
    ;
    assert((100 * (m * base) + t <= 100 * d) <==> (m * base + c <= d)) by (nonlinear_arith)
        requires
            100 * c >= t >= 0,
            100 * c <= t + 99,
            c >= 0,
            d >= 1,
    ;
    assert((m * base <= d && m * base + c <= d) <==> (m * base + c <= d)) by (nonlinear_arith)
        requires
            c >= 0,
    ;
}

/// A value that reaches a multiple of `orig` while the next multiple is
/// already past `target` is the quotient.
proof fn lemma_quotient_pinned(m: int, orig: int, target: int)
    requires
        orig >= 1,
        target >= 0,
        m >= 0,
        m * orig <= target,
        (m + 1) * orig > target,
    ensures
        m == target / orig,
{
    assert(m == target / orig) by (nonlinear_arith)
        requires
            orig >= 1,
            target >= 0,
            m >= 0,
            m * orig <= target,
            (m + 1) * orig > target,
    ;
}

/// The error rate is a percentage: it lies between zero and one hundred.
pub proof fn lemma_err_rate_range(orig: nat, approx: nat)
    requires
        1 <= orig,
        approx < orig,
    ensures
        0 <= err_rate_spec(orig, approx) <= 100,
{
    let d = (orig - approx) as int;
    vstd::arithmetic::div_mod::lemma_div_pos_is_pos(100 * d, orig as int);
    assert(100 * d <= (orig as int) * 100) by (nonlinear_arith)
        requires
            1 <= d <= orig,
    ;
    vstd::arithmetic::div_mod::lemma_multiply_divide_le(100 * d, orig as int, 100);
}

/// When the magnitude stays below one hundred unit steps, biasing the found
/// percentage by the error rate keeps the stored percentage at or below 99.
pub proof fn lemma_err_rate_small(orig: nat, c: nat, p: nat)
    requires
        1 <= orig,
        c * p < orig,
        orig < 100 * c,
        1 <= p <= 99,
    ensures
        p + err_rate_spec(orig, c * p) <= 99,
{
    let d = (orig - c * p) as int;
    assert(100 * d < (orig as int) * (100 - p)) by (nonlinear_arith)
        requires
            d == orig - c * p,
            orig < 100 * c,
            p >= 1,
            orig >= 1,
    ;
    vstd::arithmetic::div_mod::lemma_multiply_divide_lt(100 * d, orig as int, 100 - p);
}

} // verus!
