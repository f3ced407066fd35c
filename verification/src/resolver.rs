//! The period resolver: how many revolutions a curve is given to close.
//!
//! The resolver runs a fixed iteration on a ratio `num / den` and stops at the
//! first approximation that lies within one ten-thousandth of the ratio. The
//! iteration is stated here over exact fractions, and
//! [`lemma_resolve_closed_form`] shows what it amounts to: only the whole part
//! of the ratio matters.

use crate::binary64::{one_magnitude, saturate, Binary64, UNIT_EXPONENT};
use vstd::arithmetic::power2::lemma_pow2_pos;
use vstd::math::abs;
use vstd::prelude::*;

verus! {

/// The number of approximations that are tried.
pub const MAX_STEPS: u32 = 10;

/// The count that is returned when no approximation is close enough.
pub const FALLBACK_ROTATIONS: u32 = 100;

/// The largest count that is ever returned; larger denominators are cut to it.
pub const MAX_ROTATIONS: u32 = 2147483647;

/// An approximation is accepted when it differs from the ratio by less than
/// one over this number.
pub const TOLERANCE_INVERSE: u32 = 10000;

/// The state of the iteration for a ratio with denominator `den`.
///
/// The current approximation is the fraction `n / (den * d)`: the numerators
/// `n` and `prev_n` are kept in units of `1 / den`, so that they stay whole
/// numbers, while `d` and `prev_d` are plain denominators.
pub struct Convergents {
    pub n: int,
    pub d: int,
    pub prev_n: int,
    pub prev_d: int,
}

/// The state before the first step: the running value is the ratio itself,
/// over a denominator of one, and the pair before it is `1 / 0`.
pub open spec fn start(num: int, den: int) -> Convergents {
    Convergents { n: num, d: 1, prev_n: den, prev_d: 0 }
}

/// One step: take the whole part of the running value, and combine the two
/// latest pairs with it as the weight of the later one.
pub open spec fn advance(s: Convergents, den: int) -> Convergents {
    let whole = s.n / den;
    Convergents {
        n: s.prev_n + whole * s.n,
        d: s.prev_d + whole * s.d,
        prev_n: s.n,
        prev_d: s.d,
    }
}

/// The state after `k` steps.
pub open spec fn state_at(num: int, den: int, k: nat) -> Convergents
    decreases k,
{
    if k == 0 {
        start(num, den)
    } else {
        advance(state_at(num, den, (k - 1) as nat), den)
    }
}

/// Whether the approximation `s.n / (den * s.d)` differs from `num / den` by
/// less than one ten-thousandth. A pair with denominator zero approximates
/// nothing.
pub open spec fn within_tolerance(num: int, den: int, s: Convergents) -> bool {
    s.d != 0 && TOLERANCE_INVERSE * abs(num * s.d - s.n) < den * abs(s.d)
}

/// A denominator as a rotation count: cut to [`MAX_ROTATIONS`].
pub open spec fn clamp_rotations(d: int) -> int {
    if d > MAX_ROTATIONS {
        MAX_ROTATIONS as int
    } else {
        d
    }
}

/// The result of running at most `steps` further steps from state `s`: the
/// denominator of the first approximation within tolerance, or the fallback.
pub open spec fn search(num: int, den: int, s: Convergents, steps: nat) -> int
    decreases steps,
{
    if steps == 0 {
        FALLBACK_ROTATIONS as int
    } else {
        let t = advance(s, den);
        if within_tolerance(num, den, t) {
            clamp_rotations(t.d)
        } else {
            search(num, den, t, (steps - 1) as nat)
        }
    }
}

/// The rotation count of the ratio `num / den`.
pub open spec fn resolve_spec(num: int, den: int) -> int {
    search(num, den, start(num, den), MAX_STEPS as nat)
}

/// What the iteration amounts to, as a function of the whole part of the
/// ratio alone.
pub open spec fn rotations_of_whole(whole: int) -> int {
    if whole < TOLERANCE_INVERSE {
        FALLBACK_ROTATIONS as int
    } else if whole == TOLERANCE_INVERSE {
        MAX_ROTATIONS as int
    } else {
        clamp_rotations(whole)
    }
}

/// A state from which no later approximation can come within tolerance: both
/// pairs overshoot the ratio, each by at least a ten-thousandth of its own
/// denominator.
spec fn stuck(num: int, den: int, s: Convergents) -> bool {
    &&& s.n >= 0
    &&& s.prev_n >= 0
    &&& s.d >= 0
    &&& s.prev_d >= 0
    &&& den * s.d <= TOLERANCE_INVERSE * (s.n - num * s.d)
    &&& den * s.prev_d <= TOLERANCE_INVERSE * (s.prev_n - num * s.prev_d)
}

/// A stuck state stays stuck, and its next approximation is refused.
proof fn lemma_stuck_advances(num: int, den: int, s: Convergents)
    requires
        den > 0,
        stuck(num, den, s),
    ensures
        stuck(num, den, advance(s, den)),
        !within_tolerance(num, den, advance(s, den)),
{
    let whole = s.n / den;
    let t = advance(s, den);
    assert(whole >= 0) by (nonlinear_arith)
        requires
            whole == s.n / den,
            s.n >= 0,
            den > 0,
    ;
    let over = s.n - num * s.d;
    let prev_over = s.prev_n - num * s.prev_d;
    assert(t.n - num * t.d == prev_over + whole * over) by (nonlinear_arith)
        requires
            t.n == s.prev_n + whole * s.n,
            t.d == s.prev_d + whole * s.d,
            over == s.n - num * s.d,
            prev_over == s.prev_n - num * s.prev_d,
    ;
    assert(den * t.d == den * s.prev_d + whole * (den * s.d)) by (nonlinear_arith)
        requires
            t.d == s.prev_d + whole * s.d,
    ;
    assert(whole * (den * s.d) <= whole * (TOLERANCE_INVERSE * over)) by (nonlinear_arith)
        requires
            whole >= 0,
            den * s.d <= TOLERANCE_INVERSE * over,
    ;
    assert(whole * (TOLERANCE_INVERSE * over) == TOLERANCE_INVERSE * (whole * over))
        by (nonlinear_arith);
    assert(whole * s.n >= 0 && whole * s.d >= 0) by (nonlinear_arith)
        requires
            whole >= 0,
            s.n >= 0,
            s.d >= 0,
    ;
    assert(den * t.d <= TOLERANCE_INVERSE * (t.n - num * t.d));
    assert(den * t.d >= 0) by (nonlinear_arith)
        requires
            den > 0,
            t.d >= 0,
    ;
}

/// From a stuck state the search ends in the fallback, however long it runs.
proof fn lemma_stuck_falls_back(num: int, den: int, s: Convergents, steps: nat)
    requires
        den > 0,
        stuck(num, den, s),
    ensures
        search(num, den, s, steps) == FALLBACK_ROTATIONS,
    decreases steps,
{
    if steps > 0 {
        lemma_stuck_advances(num, den, s);
        lemma_stuck_falls_back(num, den, advance(s, den), (steps - 1) as nat);
    }
}

/// The search from the state after `from` steps stops at step `first`, if
/// that is the first later step within tolerance and the search reaches it.
proof fn lemma_search_from(num: int, den: int, from: nat, steps: nat, first: nat)
    requires
        from < first <= from + steps,
        within_tolerance(num, den, state_at(num, den, first)),
        forall|k: nat|
            from < k < first ==> !within_tolerance(num, den, #[trigger] state_at(num, den, k)),
    ensures
        search(num, den, state_at(num, den, from), steps) == clamp_rotations(
            state_at(num, den, first).d,
        ),
    decreases steps,
{
    let next = (from + 1) as nat;
    assert(state_at(num, den, next) == advance(state_at(num, den, from), den));
    if next < first {
        lemma_search_from(num, den, next, (steps - 1) as nat, first);
    }
}

/// The search from the state after `from` steps ends in the fallback, if
/// none of the steps it takes comes within tolerance.
proof fn lemma_search_exhausts(num: int, den: int, from: nat, steps: nat)
    requires
        forall|k: nat|
            from < k <= from + steps ==> !within_tolerance(
                num,
                den,
                #[trigger] state_at(num, den, k),
            ),
    ensures
        search(num, den, state_at(num, den, from), steps) == FALLBACK_ROTATIONS,
    decreases steps,
{
    if steps > 0 {
        let next = (from + 1) as nat;
        assert(state_at(num, den, next) == advance(state_at(num, den, from), den));
        lemma_search_exhausts(num, den, next, (steps - 1) as nat);
    }
}

/// The count is the denominator of the first approximation that lies within
/// tolerance, cut to the largest count.
pub proof fn lemma_first_within_tolerance(num: int, den: int, first: nat)
    requires
        1 <= first <= MAX_STEPS,
        within_tolerance(num, den, state_at(num, den, first)),
        forall|k: nat|
            1 <= k < first ==> !within_tolerance(num, den, #[trigger] state_at(num, den, k)),
    ensures
        resolve_spec(num, den) == clamp_rotations(state_at(num, den, first).d),
{
    lemma_search_from(num, den, 0, MAX_STEPS as nat, first);
}

/// A ratio of which none of the ten approximations lies within tolerance is
/// given the fallback count.
pub proof fn lemma_fallback_when_none_converges(num: int, den: int)
    requires
        forall|k: nat|
            1 <= k <= MAX_STEPS ==> !within_tolerance(
                num,
                den,
                #[trigger] state_at(num, den, k),
            ),
    ensures
        resolve_spec(num, den) == FALLBACK_ROTATIONS,
{
    lemma_search_exhausts(num, den, 0, MAX_STEPS as nat);
}

/// The iteration collapses: the rotation count of a ratio depends on its
/// whole part `w` only. Below ten thousand no approximation is ever within
/// tolerance and the fallback is returned; above it the first approximation
/// is accepted and its denominator is `w`; at exactly ten thousand the second
/// one is accepted, whose denominator exceeds the largest count.
pub proof fn lemma_resolve_closed_form(num: int, den: int)
    requires
        num >= 0,
        den > 0,
    ensures
        resolve_spec(num, den) == rotations_of_whole(num / den),
        resolve_spec(num, den) == FALLBACK_ROTATIONS || TOLERANCE_INVERSE < resolve_spec(num, den)
            <= MAX_ROTATIONS,
{
    let w0 = num / den;
    let s0 = start(num, den);
    let s1 = advance(s0, den);
    let s2 = advance(s1, den);
    let w1 = s1.n / den;
    reveal_with_fuel(search, 3);
    assert(0 <= w0 && w0 * den <= num) by (nonlinear_arith)
        requires
            w0 == num / den,
            num >= 0,
            den > 0,
    ;
    assert(s1.n == den + w0 * num && s1.d == w0);
    assert(num * s1.d - s1.n == -den) by (nonlinear_arith)
        requires
            s1.n == den + w0 * num,
            s1.d == w0,
    ;
    assert(within_tolerance(num, den, s1) <==> w0 > TOLERANCE_INVERSE) by (nonlinear_arith)
        requires
            within_tolerance(num, den, s1) <==> (w0 != 0 && TOLERANCE_INVERSE * den < den * w0),
            w0 >= 0,
            den > 0,
    ;
    if w0 <= TOLERANCE_INVERSE {
        assert(w0 * num >= w0 * (w0 * den)) by (nonlinear_arith)
            requires
                w0 >= 0,
                w0 * den <= num,
        ;
        assert(w0 * (w0 * den) == (w0 * w0) * den) by (nonlinear_arith);
        assert(w1 >= 1 + w0 * w0) by (nonlinear_arith)
            requires
                w1 == (den + w0 * num) / den,
                w0 * num >= (w0 * w0) * den,
                den > 0,
        ;
        assert(w0 * w0 >= 0) by (nonlinear_arith);
        assert(s2.n == num + w1 * (den + w0 * num) && s2.d == 1 + w1 * w0);
        assert(w1 * w0 >= 0) by (nonlinear_arith)
            requires
                w1 >= 1,
                w0 >= 0,
        ;
        assert(s2.n - num * s2.d == w1 * den) by (nonlinear_arith)
            requires
                s2.n == num + w1 * (den + w0 * num),
                s2.d == 1 + w1 * w0,
        ;
        assert(w1 * den >= 0) by (nonlinear_arith)
            requires
                w1 >= 1,
                den > 0,
        ;
        assert(den * s2.d == den + (w1 * den) * w0) by (nonlinear_arith)
            requires
                s2.d == 1 + w1 * w0,
        ;
        if w0 == TOLERANCE_INVERSE {
            assert((w1 * den) * w0 == TOLERANCE_INVERSE * (w1 * den)) by (nonlinear_arith)
                requires
                    w0 == TOLERANCE_INVERSE,
            ;
            assert(within_tolerance(num, den, s2));
            assert(w1 * w0 > MAX_ROTATIONS) by (nonlinear_arith)
                requires
                    w1 >= 1 + w0 * w0,
                    w0 == TOLERANCE_INVERSE,
            ;
        } else {
            assert((w1 * den) * w0 <= (w1 * den) * (TOLERANCE_INVERSE - 1)) by (nonlinear_arith)
                requires
                    w1 * den >= 0,
                    w0 <= TOLERANCE_INVERSE - 1,
            ;
            assert(den <= w1 * den) by (nonlinear_arith)
                requires
                    w1 >= 1,
                    den > 0,
            ;
            assert(den * s1.d <= TOLERANCE_INVERSE * den) by (nonlinear_arith)
                requires
                    s1.d == w0,
                    w0 <= TOLERANCE_INVERSE,
                    den > 0,
            ;
            assert(s1.n >= 0 && s2.n >= 0) by (nonlinear_arith)
                requires
                    s1.n == den + w0 * num,
                    s2.n == num + w1 * s1.n,
                    w0 >= 0,
                    w1 >= 1,
                    num >= 0,
                    den > 0,
            ;
            assert(stuck(num, den, s2));
            assert(!within_tolerance(num, den, s2));
            lemma_stuck_falls_back(num, den, s2, 8);
        }
    }
}

/// The rotation count of a ratio whose whole part is `whole`. A whole part
/// that was cut to 64 bits gives the same count as the one it was cut from.
pub fn rotations_for_whole(whole: u64) -> (rotations: u32)
    ensures
        rotations == rotations_of_whole(whole as int),
        forall|w: nat| saturate(w) == whole ==> rotations == rotations_of_whole(w as int),
        rotations >= 1,
{
    if whole < TOLERANCE_INVERSE as u64 {
        FALLBACK_ROTATIONS
    } else if whole == TOLERANCE_INVERSE as u64 || whole > MAX_ROTATIONS as u64 {
        MAX_ROTATIONS
    } else {
        whole as u32
    }
}

/// The number of revolutions that a curve with the given ratio is drawn for:
/// the result of the iteration on the exact value of `ratio`.
pub fn resolve_rotations(ratio: Binary64) -> (rotations: u32)
    requires
        ratio.positive(),
    ensures
        rotations == resolve_spec(ratio.magnitude() as int, one_magnitude() as int),
        rotations == rotations_of_whole(ratio.whole() as int),
        rotations >= 1,
{
    proof {
        lemma_pow2_pos(UNIT_EXPONENT as nat);
        lemma_resolve_closed_form(ratio.magnitude() as int, one_magnitude() as int);
    }
    rotations_for_whole(ratio.whole_part())
}

} // verus!
