//! Small numeric helpers: clamping a value to a range, and fitting a
//! requested tile dimension to an image dimension.

use vstd::prelude::*;
use vstd::std_specs::cmp::PartialOrdSpec;
use vstd::arithmetic::div_mod::{
    lemma_div_is_ordered_by_denominator,
    lemma_fundamental_div_mod,
    lemma_fundamental_div_mod_converse,
};
use core::cmp::Ordering;

verus! {

/// What `clamp` returns, read off the order's own specification: the value
/// pulled below the maximum first, then above the minimum (so an inverted
/// range answers with its minimum).
pub open spec fn spec_clamped<T: PartialOrd>(a: T, minimum: T, maximum: T) -> T {
    let capped = if a.partial_cmp_spec(&maximum) == Some(Ordering::Greater) {
        maximum
    } else {
        a
    };
    if capped.partial_cmp_spec(&minimum) == Some(Ordering::Less) {
        minimum
    } else {
        capped
    }
}

/// Clamps `a` into `[minimum, maximum]`: anything above the maximum becomes
/// the maximum, anything below the minimum becomes the minimum.
pub fn clamp<T: PartialOrd + Copy>(a: &T, minimum: &T, maximum: &T) -> (r: T)
    ensures
        T::obeys_partial_cmp_spec() ==> r == spec_clamped(*a, *minimum, *maximum),
{
    let b = if a.gt(maximum) {
        maximum
    } else {
        a
    };
    let b = if b.lt(minimum) {
        minimum
    } else {
        b
    };
    *b
}

/// The largest whole tile count no greater than `count` that divides the
/// image dimension evenly; one always exists, since a count of one does.
pub open spec fn closest_dividing_count(dimension: int, count: int) -> int
    decreases count,
{
    if count <= 1 {
        1
    } else if dimension % count == 0 {
        count
    } else {
        closest_dividing_count(dimension, count - 1)
    }
}

/// Steps a whole tile count down to the nearest count that divides the
/// image dimension evenly.
fn snap_count_to_divisor(factor_of: u32, count: u32) -> (r: u32)
    requires
        1 <= count,
        1 <= factor_of,
    ensures
        r == closest_dividing_count(factor_of as int, count as int),
        1 <= r <= count,
        factor_of as int % r as int == 0,
{
    let mut k: u32 = count;
    while factor_of % k != 0
        invariant
            1 <= k <= count,
            1 <= factor_of,
            closest_dividing_count(factor_of as int, count as int) == closest_dividing_count(
                factor_of as int,
                k as int,
            ),
        decreases k,
    {
        k = k - 1;
    }
    proof {
        assert(closest_dividing_count(factor_of as int, k as int) == k);
    }
    k
}

/// A tile size taken from a dividing count is itself an exact divisor of
/// the image dimension, and lies inside it.
proof fn lemma_count_to_size(fo: int, k: int)
    requires
        1 <= k <= fo,
        fo % k == 0,
    ensures
        1 <= fo / k <= fo,
        fo % (fo / k) == 0,
{
    let size = fo / k;
    assert(fo == k * size && 1 <= size <= fo && fo % size == 0) by (nonlinear_arith)
        requires
            1 <= k <= fo,
            fo % k == 0,
            size == fo / k,
    ;
}

/// Adjusts a requested tile dimension to an exact divisor of the image
/// dimension `factor_of`, never below the request: the whole tile count is
/// taken (rounding the quotient down), stepped to the nearest count that
/// divides the image evenly, and turned back into a tile size.
pub fn round_down_to_closest_factor(factor_to_round: u32, factor_of: u32) -> (r: u32)
    requires
        1 <= factor_to_round <= factor_of,
    ensures
        r == factor_of as int / closest_dividing_count(
            factor_of as int,
            factor_of as int / factor_to_round as int,
        ),
        factor_of as int % r as int == 0,
        factor_to_round <= r <= factor_of,
        factor_of % factor_to_round == 0 ==> r == factor_to_round,
{
    let requested_count = factor_of / factor_to_round;
    proof {
        lemma_div_bounds(factor_to_round as int, factor_of as int);
    }
    let count = snap_count_to_divisor(factor_of, requested_count);
    proof {
        lemma_count_to_size(factor_of as int, count as int);
        lemma_div_is_ordered_by_denominator(
            factor_of as int,
            count as int,
            requested_count as int,
        );
        if factor_of % factor_to_round == 0 {
            lemma_count_to_size(factor_of as int, factor_to_round as int);
            assert(closest_dividing_count(factor_of as int, requested_count as int)
                == requested_count);
        }
    }
    factor_of / count
}

/// Adjusts a requested tile dimension to an exact divisor of the image
/// dimension `factor_of`: the whole tile count is taken rounding the
/// quotient half away from zero, stepped to the nearest count that divides
/// the image evenly, and turned back into a tile size.
pub fn round_up_to_closest_factor(factor_to_round: u32, factor_of: u32) -> (r: u32)
    requires
        1 <= factor_to_round,
        factor_to_round <= 2 * factor_of,
    ensures
        r == factor_of as int / closest_dividing_count(
            factor_of as int,
            (2 * factor_of + factor_to_round) as int / (2 * factor_to_round) as int,
        ),
        factor_of as int % r as int == 0,
        1 <= r <= factor_of,
        factor_of % factor_to_round == 0 && factor_to_round <= factor_of ==> r == factor_to_round,
{
    let fo64: u64 = factor_of as u64;
    let ft64: u64 = factor_to_round as u64;
    let rounded64: u64 = (2 * fo64 + ft64) / (2 * ft64);
    proof {
        lemma_rounded_div_bounds(factor_to_round as int, factor_of as int);
    }
    let rounded_count: u32 = rounded64 as u32;
    let count = snap_count_to_divisor(factor_of, rounded_count);
    proof {
        lemma_count_to_size(factor_of as int, count as int);
        if factor_of % factor_to_round == 0 && factor_to_round <= factor_of {
            lemma_count_to_size(factor_of as int, factor_to_round as int);
            assert(closest_dividing_count(factor_of as int, rounded_count as int)
                == rounded_count);
        }
    }
    factor_of / count
}

/// The whole quotient of `fo / ft` lies between 1 and `fo`, and dividing `fo`
/// by it lands between `ft` and `fo`.
proof fn lemma_div_bounds(ft: int, fo: int)
    requires
        1 <= ft <= fo,
    ensures
        1 <= fo / ft <= fo,
        ft <= fo / (fo / ft) <= fo,
        fo % ft == 0 ==> fo / (fo / ft) == ft,
{
    let q = fo / ft;
    assert(1 <= q <= fo) by (nonlinear_arith)
        requires
            1 <= ft <= fo,
            q == fo / ft,
    ;
    assert(ft <= fo / q <= fo) by (nonlinear_arith)
        requires
            1 <= ft <= fo,
            q == fo / ft,
            1 <= q <= fo,
    ;
    assert(fo % ft == 0 ==> fo / q == ft) by (nonlinear_arith)
        requires
            1 <= ft <= fo,
            q == fo / ft,
            1 <= q,
    ;
}

/// The half-away-from-zero rounding of `fo / ft` is at least 1 when
/// `ft <= 2 * fo`, and when `ft` divides `fo` the final quotient comes back
/// to `ft` itself.
proof fn lemma_rounded_div_bounds(ft: int, fo: int)
    requires
        1 <= ft,
        ft <= 2 * fo,
    ensures
        1 <= (2 * fo + ft) / (2 * ft) <= fo,
        fo % ft == 0 && ft <= fo ==> (2 * fo + ft) / (2 * ft) == fo / ft && fo / ((2 * fo + ft) / (
        2 * ft)) == ft,
{
    let q = (2 * fo + ft) / (2 * ft);
    assert(1 <= q <= fo) by (nonlinear_arith)
        requires
            1 <= ft,
            ft <= 2 * fo,
            q == (2 * fo + ft) / (2 * ft),
    ;
    if fo % ft == 0 && ft <= fo {
        let k = fo / ft;
        lemma_fundamental_div_mod(fo, ft);
        assert(fo == ft * k);
        assert(k >= 1) by (nonlinear_arith)
            requires
                fo == ft * k,
                1 <= ft <= fo,
        ;
        assert(2 * fo + ft == (2 * ft) * k + ft) by (nonlinear_arith)
            requires
                fo == ft * k,
        ;
        lemma_fundamental_div_mod_converse(2 * fo + ft, 2 * ft, k, ft);
        assert(q == k);
        assert(fo == k * ft + 0) by (nonlinear_arith)
            requires
                fo == ft * k,
        ;
        lemma_fundamental_div_mod_converse(fo, k, ft, 0);
    }
}

} // verus!
