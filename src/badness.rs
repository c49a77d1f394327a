//! The badness of a box: how far its glue has to be stretched or shrunk.
use vstd::prelude::*;
use vstd::arithmetic::div_mod::{
    lemma_div_by_multiple, lemma_div_denominator, lemma_div_is_ordered,
    lemma_div_is_ordered_by_denominator,
};

verus! {

/// Badness that counts as infinitely bad for a box whose glue can be set.
pub const INF_BAD: i64 = 10000;

/// Badness of an excess that no glue at all is available to make up.
pub const UNSETTABLE_BAD: i64 = 1_000_000;

/// The ratio `excess / total` scaled by 100 (an integer approximation of
/// `100 * excess / total`), computed without overflow.
pub open spec fn badness_ratio(excess: int, total: int) -> int {
    if excess <= 7230584 {
        (excess * 297) / total
    } else if total >= 1663497 {
        excess / (total / 297)
    } else {
        excess
    }
}

/// Badness of making up `excess` (a magnitude) with `total` units of glue:
/// about `100 * (excess / total)^3`, at most `INF_BAD` for a usable total,
/// and `UNSETTABLE_BAD` when there is no glue to use.
pub open spec fn badness_spec(excess: int, total: int) -> int {
    if excess == 0 {
        0
    } else if total <= 0 {
        UNSETTABLE_BAD as int
    } else {
        let r = badness_ratio(excess, total);
        if r > 1290 {
            INF_BAD as int
        } else {
            (r * r * r + 0x20000) / 0x40000
        }
    }
}

/// Computes `badness_spec(excess, total)`.
pub fn badness(excess: i64, total: i64) -> (b: i64)
    requires
        excess >= 0,
    ensures
        b == badness_spec(excess as int, total as int),
        0 <= b <= UNSETTABLE_BAD,
{
    if excess == 0 {
        0
    } else if total <= 0 {
        UNSETTABLE_BAD
    } else {
        let r: i64 = if excess <= 7230584 {
            (excess * 297) / total
        } else if total >= 1663497 {
            excess / (total / 297)
        } else {
            excess
        };
        if r > 1290 {
            INF_BAD
        } else {
            assert(0 <= r) by (nonlinear_arith)
                requires
                    r == badness_ratio(excess as int, total as int),
                    excess > 0,
                    total > 0,
            ;
            assert(0 <= r * r <= 1290 * 1290 && 0 <= r * r * r <= 1290 * 1290 * 1290) by (nonlinear_arith)
                requires
                    0 <= r <= 1290,
            ;
            (r * r * r + 0x20000) / 0x40000
        }
    }
}

/// The cubic part of the badness never exceeds `INF_BAD` and grows with the ratio.
proof fn lemma_cube_part_monotone(r1: int, r2: int)
    requires
        0 <= r1 <= r2,
    ensures
        (if r1 > 1290 { INF_BAD as int } else { (r1 * r1 * r1 + 0x20000) / 0x40000 })
            <= (if r2 > 1290 { INF_BAD as int } else { (r2 * r2 * r2 + 0x20000) / 0x40000 }),
        (if r1 > 1290 { INF_BAD as int } else { (r1 * r1 * r1 + 0x20000) / 0x40000 }) <= INF_BAD,
{
    if r1 <= 1290 {
        assert(r1 * r1 * r1 <= 1290 * 1290 * 1290) by (nonlinear_arith)
            requires
                0 <= r1 <= 1290,
        ;
        lemma_div_is_ordered(r1 * r1 * r1 + 0x20000, (1290 * 1290 * 1290 + 0x20000) as int, 0x40000);
        if r2 <= 1290 {
            assert(r1 * r1 * r1 <= r2 * r2 * r2) by (nonlinear_arith)
                requires
                    0 <= r1 <= r2,
            ;
            lemma_div_is_ordered(r1 * r1 * r1 + 0x20000, r2 * r2 * r2 + 0x20000, 0x40000);
        }
    }
}

/// The scaled ratio is non-negative and grows with the excess.
proof fn lemma_ratio_monotone(e1: int, e2: int, t: int)
    requires
        0 <= e1 <= e2,
        t > 0,
    ensures
        0 <= badness_ratio(e1, t),
        badness_ratio(e1, t) <= badness_ratio(e2, t) || badness_ratio(e2, t) > 1290,
{
    lemma_div_is_ordered(0, e1 * 297, t);
    if e1 > 7230584 && t >= 1663497 {
        lemma_div_is_ordered(0, e1, t / 297);
    }
    if e2 <= 7230584 {
        lemma_div_is_ordered(e1 * 297, e2 * 297, t);
    } else if t >= 1663497 {
        let q = t / 297;
        assert(q >= 5601);
        if e1 <= 7230584 {
            assert(297 * q <= t);
            lemma_div_is_ordered_by_denominator(e1 * 297, 297 * q, t);
            lemma_div_denominator(e1 * 297, 297, q);
            lemma_div_by_multiple(e1, 297);
            assert((e1 * 297) / (297 * q) == e1 / q);
        }
        lemma_div_is_ordered(e1, e2, q);
    }
}

/// With some glue to use, the badness is at most `INF_BAD`.
pub proof fn lemma_badness_settable(e: int, t: int)
    requires
        e >= 0,
        t > 0,
    ensures
        0 <= badness_spec(e, t) <= INF_BAD,
{
    lemma_ratio_monotone(e, e, t);
    let r = badness_ratio(e, t);
    lemma_cube_part_monotone(r, r);
    assert(0 <= r * r * r) by (nonlinear_arith)
        requires
            0 <= r,
    ;
}

/// Badness of a zero excess is zero, whatever the total.
pub proof fn lemma_badness_zero_excess(t: int)
    ensures
        badness_spec(0, t) == 0,
{
}

/// Badness of a positive excess with no glue at all is `UNSETTABLE_BAD`.
pub proof fn lemma_badness_no_glue(e: int)
    requires
        e > 0,
    ensures
        badness_spec(e, 0) == UNSETTABLE_BAD,
{
}

/// For a fixed positive total, badness never decreases as the (non-negative)
/// excess grows.
pub proof fn lemma_badness_monotone(e1: int, e2: int, t: int)
    requires
        0 <= e1 <= e2,
        t > 0,
    ensures
        badness_spec(e1, t) <= badness_spec(e2, t),
{
    lemma_ratio_monotone(e1, e2, t);
    lemma_ratio_monotone(e2, e2, t);
    let r1 = badness_ratio(e1, t);
    let r2 = badness_ratio(e2, t);
    if r1 <= r2 {
        lemma_cube_part_monotone(r1, r2);
    } else {
        lemma_cube_part_monotone(r1, r1);
    }
}

} // verus!
