//! Double-precision numbers as bit patterns.
//!
//! A [`Binary64`] is the 64 bits of an IEEE 754 double-precision number: one
//! sign bit, eleven exponent bits, fifty-two fraction bits. Every finite
//! double is a whole number of units of 2<sup>-1074</sup>, the smallest
//! positive double, and [`Binary64::magnitude`] is that whole number. All
//! that this module decides is decided on magnitudes, exactly.

use vstd::arithmetic::div_mod::{
    lemma_basic_div,
    lemma_div_by_multiple,
    lemma_div_is_ordered,
    lemma_div_is_ordered_by_denominator,
    lemma_div_multiples_vanish_quotient,
};
use vstd::arithmetic::power2::{
    lemma2_to64,
    lemma2_to64_rest,
    lemma_pow2_adds,
    lemma_pow2_pos,
    lemma_pow2_strictly_increases,
    lemma_pow2_unfold,
    pow2,
};
use vstd::prelude::*;

verus! {

/// The number of patterns of the fraction field, 2<sup>52</sup>.
pub const FRACTION_RANGE: u64 = 0x10_0000_0000_0000;

/// The number of patterns of the exponent field, 2<sup>11</sup>.
pub const EXPONENT_RANGE: u64 = 0x800;

/// The exponent field of infinities and of values that are not numbers.
pub const EXPONENT_SPECIAL: u64 = 0x7ff;

/// The weight of the sign bit, 2<sup>63</sup>.
pub const SIGN_BIT: u64 = 0x8000_0000_0000_0000;

/// The number of units of 2<sup>-1074</sup> in the number one is two to this
/// power.
pub const UNIT_EXPONENT: u32 = 1074;

/// An IEEE 754 double-precision number, held as its 64 bits.
#[derive(Clone, Copy, Debug)]
pub struct Binary64 {
    pub bits: u64,
}

/// The magnitude of the number one: 2<sup>1074</sup> units.
pub open spec fn one_magnitude() -> nat {
    pow2(UNIT_EXPONENT as nat)
}

impl Binary64 {
    /// Whether the sign bit is set.
    pub open spec fn negative(self) -> bool {
        self.bits >= SIGN_BIT
    }

    /// The eleven exponent bits, as a number.
    pub open spec fn exponent_field(self) -> nat {
        ((self.bits / FRACTION_RANGE) % EXPONENT_RANGE) as nat
    }

    /// The fifty-two fraction bits, as a number.
    pub open spec fn fraction_field(self) -> nat {
        (self.bits % FRACTION_RANGE) as nat
    }

    /// Whether the pattern is a number at all, and not an infinity.
    pub open spec fn finite(self) -> bool {
        self.exponent_field() != EXPONENT_SPECIAL
    }

    /// The fraction with its leading bit: implicit and set for a normal
    /// number, absent for a subnormal one.
    pub open spec fn significand(self) -> nat {
        if self.exponent_field() == 0 {
            self.fraction_field()
        } else {
            FRACTION_RANGE as nat + self.fraction_field()
        }
    }

    /// The power of two by which the significand is scaled, counted from the
    /// smallest one.
    pub open spec fn scale(self) -> nat {
        if self.exponent_field() == 0 {
            0
        } else {
            (self.exponent_field() - 1) as nat
        }
    }

    /// The absolute value of the number, in units of 2<sup>-1074</sup>. For a
    /// pattern that is not finite the same formula is used; it then stands for
    /// no number.
    pub open spec fn magnitude(self) -> nat {
        self.significand() * pow2(self.scale())
    }

    /// Whether the number is finite and greater than zero.
    pub open spec fn positive(self) -> bool {
        !self.negative() && self.finite() && self.magnitude() > 0
    }

    /// Whether the number is finite and not less than zero. Both zeros are.
    pub open spec fn non_negative(self) -> bool {
        self.finite() && (!self.negative() || self.magnitude() == 0)
    }

    /// The whole part of the absolute value: the magnitude divided by the
    /// magnitude of one, rounded down.
    pub open spec fn whole(self) -> nat {
        self.magnitude() / one_magnitude()
    }
}

/// A number as a count that fits 64 bits: cut to the largest such count.
pub open spec fn saturate(x: nat) -> nat {
    if x > u64::MAX {
        u64::MAX as nat
    } else {
        x
    }
}

/// The magnitude is zero exactly when all bits but the sign are clear.
pub proof fn lemma_magnitude_zero(x: Binary64)
    ensures
        x.magnitude() == 0 <==> x.bits % SIGN_BIT == 0,
{
    lemma_pow2_pos(x.scale());
    assert(x.magnitude() == 0 <==> x.significand() == 0) by (nonlinear_arith)
        requires
            x.magnitude() == x.significand() * pow2(x.scale()),
            pow2(x.scale()) > 0,
    ;
}

impl Binary64 {
    /// Whether the pattern is a number at all, and not an infinity.
    pub fn is_finite(&self) -> (r: bool)
        ensures
            r == self.finite(),
    {
        (self.bits / FRACTION_RANGE) % EXPONENT_RANGE != EXPONENT_SPECIAL
    }

    /// Whether the number is finite and greater than zero.
    pub fn is_positive(&self) -> (r: bool)
        ensures
            r == self.positive(),
    {
        proof {
            lemma_magnitude_zero(*self);
        }
        self.bits < SIGN_BIT && self.is_finite() && self.bits != 0
    }

    /// Whether the number is finite and not less than zero.
    pub fn is_non_negative(&self) -> (r: bool)
        ensures
            r == self.non_negative(),
    {
        proof {
            lemma_magnitude_zero(*self);
        }
        self.is_finite() && (self.bits < SIGN_BIT || self.bits == SIGN_BIT)
    }
}

/// The whole part, read off the fields: a subnormal number has none; a
/// number scaled above one is its significand times a power of two; one
/// scaled below is its significand divided by one.
pub proof fn lemma_whole_by_fields(x: Binary64)
    ensures
        x.exponent_field() == 0 ==> x.whole() == 0,
        x.exponent_field() > UNIT_EXPONENT ==> x.whole() == x.significand() * pow2(
            (x.exponent_field() - UNIT_EXPONENT - 1) as nat,
        ),
        0 < x.exponent_field() <= UNIT_EXPONENT ==> x.whole() == x.significand() / pow2(
            (UNIT_EXPONENT + 1 - x.exponent_field()) as nat,
        ),
{
    let sig = x.significand();
    let unit = one_magnitude();
    lemma_pow2_pos(UNIT_EXPONENT as nat);
    if x.exponent_field() == 0 {
        lemma2_to64();
        lemma2_to64_rest();
        lemma_pow2_strictly_increases(52, UNIT_EXPONENT as nat);
        assert(x.magnitude() == sig) by (nonlinear_arith)
            requires
                x.magnitude() == sig * pow2(0),
                pow2(0) == 1,
        ;
        lemma_basic_div(x.magnitude() as int, unit as int);
    } else if x.exponent_field() > UNIT_EXPONENT {
        let up = (x.exponent_field() - UNIT_EXPONENT - 1) as nat;
        lemma_pow2_adds(up, UNIT_EXPONENT as nat);
        assert(x.magnitude() == (sig * pow2(up)) * unit) by (nonlinear_arith)
            requires
                x.magnitude() == sig * pow2(x.scale()),
                pow2(x.scale()) == pow2(up) * unit,
        ;
        lemma_div_by_multiple((sig * pow2(up)) as int, unit as int);
    } else {
        let down = (UNIT_EXPONENT + 1 - x.exponent_field()) as nat;
        let low = pow2(x.scale());
        lemma_pow2_adds(x.scale(), down);
        lemma_pow2_pos(x.scale());
        lemma_pow2_pos(down);
        lemma_div_multiples_vanish_quotient(low as int, sig as int, pow2(down) as int);
        assert(x.magnitude() == low * sig) by (nonlinear_arith)
            requires
                x.magnitude() == sig * low,
        ;
    }
}

/// Two to the power `k`.
fn power_of_two(k: u32) -> (r: u128)
    requires
        k <= 126,
    ensures
        r == pow2(k as nat),
{
    let mut r: u128 = 1;
    let mut i: u32 = 0;
    proof {
        lemma2_to64();
    }
    while i < k
        invariant
            i <= k <= 126,
            r == pow2(i as nat),
        decreases k - i,
    {
        proof {
            lemma_pow2_unfold((i + 1) as nat);
            lemma2_to64_rest();
            lemma_pow2_adds(63, 63);
            if i + 1 < 126 {
                lemma_pow2_strictly_increases((i + 1) as nat, 126);
            }
            assert(pow2(63) * pow2(63) < 0x8000_0000_0000_0000_0000_0000_0000_0000)
                by (nonlinear_arith)
                requires
                    pow2(63) == 0x8000_0000_0000_0000,
            ;
        }
        r = r * 2;
        i = i + 1;
    }
    r
}

impl Binary64 {
    /// The whole part of the absolute value, cut to the largest count that
    /// fits 64 bits.
    pub fn whole_part(&self) -> (r: u64)
        ensures
            r == saturate(self.whole()),
    {
        let field: u64 = (self.bits / FRACTION_RANGE) % EXPONENT_RANGE;
        let fraction: u64 = self.bits % FRACTION_RANGE;
        proof {
            lemma_whole_by_fields(*self);
            lemma2_to64();
            lemma2_to64_rest();
        }
        if field == 0 {
            0
        } else if field > 1074 {
            let up: u64 = field - 1075;
            let significand: u64 = FRACTION_RANGE + fraction;
            if up >= 12 {
                proof {
                    if up > 12 {
                        lemma_pow2_strictly_increases(12, up as nat);
                    }
                    assert(significand * pow2(up as nat) > u64::MAX) by (nonlinear_arith)
                        requires
                            significand >= 0x10_0000_0000_0000,
                            pow2(up as nat) >= 0x1000,
                    ;
                }
                u64::MAX
            } else {
                let factor: u128 = power_of_two(up as u32);
                proof {
                    if up < 11 {
                        lemma_pow2_strictly_increases(up as nat, 11);
                    }
                    assert(significand * factor <= u64::MAX) by (nonlinear_arith)
                        requires
                            significand < 0x20_0000_0000_0000,
                            factor <= 0x800,
                    ;
                }
                significand * (factor as u64)
            }
        } else {
            let down: u64 = 1075 - field;
            let significand: u64 = FRACTION_RANGE + fraction;
            if down >= 53 {
                proof {
                    if down > 53 {
                        lemma_pow2_strictly_increases(53, down as nat);
                    }
                    lemma_basic_div(significand as int, pow2(down as nat) as int);
                }
                0
            } else {
                let divisor: u128 = power_of_two(down as u32);
                proof {
                    lemma_pow2_strictly_increases(down as nat, 53);
                    lemma_pow2_pos(down as nat);
                }
                significand / (divisor as u64)
            }
        }
    }
}

/// A pattern with smaller bits below the sign has the smaller magnitude.
proof fn lemma_magnitude_increases(a: Binary64, b: Binary64)
    requires
        a.bits % SIGN_BIT < b.bits % SIGN_BIT,
    ensures
        a.magnitude() < b.magnitude(),
{
    let pa = pow2(a.scale());
    let pb = pow2(b.scale());
    lemma_pow2_pos(a.scale());
    lemma_pow2_pos(b.scale());
    if a.exponent_field() == b.exponent_field() {
        assert(a.significand() * pa < b.significand() * pa) by (nonlinear_arith)
            requires
                a.significand() < b.significand(),
                pa > 0,
        ;
    } else {
        assert(a.exponent_field() < b.exponent_field());
        assert(b.magnitude() >= FRACTION_RANGE * pb) by (nonlinear_arith)
            requires
                b.magnitude() == b.significand() * pb,
                b.significand() >= FRACTION_RANGE,
                pb > 0,
        ;
        if a.exponent_field() == 0 {
            lemma2_to64();
            assert(FRACTION_RANGE * pb >= FRACTION_RANGE) by (nonlinear_arith)
                requires
                    pb > 0,
            ;
            assert(a.magnitude() == a.significand()) by (nonlinear_arith)
                requires
                    a.magnitude() == a.significand() * pa,
                    pa == 1,
            ;
        } else {
            lemma_pow2_unfold(a.exponent_field());
            if a.exponent_field() < b.scale() {
                lemma_pow2_strictly_increases(a.exponent_field(), b.scale());
            }
            assert(a.magnitude() < FRACTION_RANGE * pb) by (nonlinear_arith)
                requires
                    a.magnitude() == a.significand() * pa,
                    a.significand() < 2 * FRACTION_RANGE,
                    pa > 0,
                    2 * pa <= pb,
            ;
        }
    }
}

/// Among all patterns, the order of the magnitudes is the order of the bits
/// below the sign bit.
pub proof fn lemma_magnitude_order(a: Binary64, b: Binary64)
    ensures
        a.bits % SIGN_BIT < b.bits % SIGN_BIT <==> a.magnitude() < b.magnitude(),
        a.bits % SIGN_BIT == b.bits % SIGN_BIT <==> a.magnitude() == b.magnitude(),
{
    if a.bits % SIGN_BIT < b.bits % SIGN_BIT {
        lemma_magnitude_increases(a, b);
    } else if b.bits % SIGN_BIT < a.bits % SIGN_BIT {
        lemma_magnitude_increases(b, a);
    } else {
        assert(a.exponent_field() == b.exponent_field());
        assert(a.fraction_field() == b.fraction_field());
    }
}

/// The quotient of two magnitudes, read off the fields: the common power of
/// two cancels, and what is left of it stays with the significand that it
/// belonged to.
pub proof fn lemma_quotient_by_fields(a: Binary64, b: Binary64)
    requires
        b.magnitude() > 0,
    ensures
        b.significand() > 0,
        a.scale() >= b.scale() ==> a.magnitude() / b.magnitude() == (a.significand() * pow2(
            (a.scale() - b.scale()) as nat,
        )) / b.significand(),
        a.scale() < b.scale() ==> a.magnitude() / b.magnitude() == a.significand() / (
        b.significand() * pow2((b.scale() - a.scale()) as nat)),
{
    let sa = a.significand();
    let sb = b.significand();
    lemma_pow2_pos(a.scale());
    lemma_pow2_pos(b.scale());
    assert(sb > 0) by (nonlinear_arith)
        requires
            sb * pow2(b.scale()) > 0,
            pow2(b.scale()) > 0,
    ;
    if a.scale() >= b.scale() {
        let k = (a.scale() - b.scale()) as nat;
        let common = pow2(b.scale());
        lemma_pow2_adds(k, b.scale());
        lemma_pow2_pos(k);
        assert(a.magnitude() == common * (sa * pow2(k))) by (nonlinear_arith)
            requires
                a.magnitude() == sa * pow2(a.scale()),
                pow2(a.scale()) == pow2(k) * common,
        ;
        assert(b.magnitude() == common * sb) by (nonlinear_arith)
            requires
                b.magnitude() == sb * common,
        ;
        assert(sa * pow2(k) >= 0) by (nonlinear_arith)
            requires
                sa >= 0,
                pow2(k) > 0,
        ;
        lemma_div_multiples_vanish_quotient(common as int, (sa * pow2(k)) as int, sb as int);
    } else {
        let k = (b.scale() - a.scale()) as nat;
        let common = pow2(a.scale());
        lemma_pow2_adds(k, a.scale());
        lemma_pow2_pos(k);
        assert(b.magnitude() == common * (sb * pow2(k))) by (nonlinear_arith)
            requires
                b.magnitude() == sb * pow2(b.scale()),
                pow2(b.scale()) == pow2(k) * common,
        ;
        assert(a.magnitude() == common * sa) by (nonlinear_arith)
            requires
                a.magnitude() == sa * common,
        ;
        assert(sb * pow2(k) > 0) by (nonlinear_arith)
            requires
                sb > 0,
                pow2(k) > 0,
        ;
        lemma_div_multiples_vanish_quotient(common as int, sa as int, (sb * pow2(k)) as int);
    }
}

impl Binary64 {
    /// Whether the absolute value of `self` is less than that of `other`.
    pub fn magnitude_lt(&self, other: &Binary64) -> (r: bool)
        ensures
            r == (self.magnitude() < other.magnitude()),
    {
        proof {
            lemma_magnitude_order(*self, *other);
        }
        self.bits % SIGN_BIT < other.bits % SIGN_BIT
    }

    /// How many times the absolute value of `divisor` goes into that of
    /// `self`, cut to the largest count that fits 64 bits.
    pub fn whole_quotient(&self, divisor: &Binary64) -> (r: u64)
        requires
            divisor.magnitude() > 0,
        ensures
            r == saturate(self.magnitude() / divisor.magnitude()),
    {
        let field: u64 = (self.bits / FRACTION_RANGE) % EXPONENT_RANGE;
        let divisor_field: u64 = (divisor.bits / FRACTION_RANGE) % EXPONENT_RANGE;
        let fraction: u64 = self.bits % FRACTION_RANGE;
        let divisor_fraction: u64 = divisor.bits % FRACTION_RANGE;
        let scale: u64 = if field == 0 { 0 } else { field - 1 };
        let divisor_scale: u64 = if divisor_field == 0 { 0 } else { divisor_field - 1 };
        let significand: u128 = if field == 0 {
            fraction as u128
        } else {
            (FRACTION_RANGE + fraction) as u128
        };
        let divisor_significand: u128 = if divisor_field == 0 {
            divisor_fraction as u128
        } else {
            (FRACTION_RANGE + divisor_fraction) as u128
        };
        proof {
            lemma_quotient_by_fields(*self, *divisor);
            lemma2_to64();
            lemma2_to64_rest();
            lemma_pow2_adds(64, 10);
            lemma_pow2_adds(64, 11);
        }
        if scale >= divisor_scale {
            let k: u64 = scale - divisor_scale;
            if k >= 75 {
                proof {
                    if k > 75 {
                        lemma_pow2_strictly_increases(75, k as nat);
                    }
                    let top = significand * pow2(k as nat);
                    assert(top >= divisor_significand * 0x1_0000_0000_0000_0000) by (nonlinear_arith)
                        requires
                            top == significand * pow2(k as nat),
                            significand >= 0x10_0000_0000_0000,
                            pow2(k as nat) >= 0x800 * 0x1_0000_0000_0000_0000,
                            divisor_significand < 0x20_0000_0000_0000,
                    ;
                    lemma_div_is_ordered(
                        (divisor_significand * 0x1_0000_0000_0000_0000) as int,
                        top as int,
                        divisor_significand as int,
                    );
                    lemma_div_by_multiple(0x1_0000_0000_0000_0000, divisor_significand as int);
                    assert(divisor_significand * 0x1_0000_0000_0000_0000
                        == 0x1_0000_0000_0000_0000 * divisor_significand) by (nonlinear_arith);
                }
                u64::MAX
            } else {
                let factor: u128 = power_of_two(k as u32);
                proof {
                    if k < 74 {
                        lemma_pow2_strictly_increases(k as nat, 74);
                    }
                    assert(significand * factor < 0x8000_0000_0000_0000_0000_0000_0000_0000)
                        by (nonlinear_arith)
                        requires
                            significand < 0x20_0000_0000_0000,
                            factor <= 0x400 * 0x1_0000_0000_0000_0000,
                    ;
                }
                let quotient: u128 = (significand * factor) / divisor_significand;
                if quotient > u64::MAX as u128 {
                    u64::MAX
                } else {
                    quotient as u64
                }
            }
        } else {
            let k: u64 = divisor_scale - scale;
            if k >= 75 {
                proof {
                    if k > 75 {
                        lemma_pow2_strictly_increases(75, k as nat);
                    }
                    let bottom = divisor_significand * pow2(k as nat);
                    assert(bottom > significand) by (nonlinear_arith)
                        requires
                            bottom == divisor_significand * pow2(k as nat),
                            divisor_significand >= 0x10_0000_0000_0000,
                            pow2(k as nat) >= 0x800 * 0x1_0000_0000_0000_0000,
                            significand < 0x20_0000_0000_0000,
                    ;
                    lemma_basic_div(significand as int, bottom as int);
                }
                0
            } else {
                let factor: u128 = power_of_two(k as u32);
                proof {
                    if k < 74 {
                        lemma_pow2_strictly_increases(k as nat, 74);
                    }
                    lemma_pow2_pos(k as nat);
                    assert(0 < divisor_significand * factor
                        < 0x8000_0000_0000_0000_0000_0000_0000_0000) by (nonlinear_arith)
                        requires
                            0 < divisor_significand < 0x20_0000_0000_0000,
                            0 < factor <= 0x400 * 0x1_0000_0000_0000_0000,
                    ;
                    lemma_div_is_ordered_by_denominator(
                        significand as int,
                        1,
                        (divisor_significand * factor) as int,
                    );
                }
                let quotient: u128 = significand / (divisor_significand * factor);
                quotient as u64
            }
        }
    }
}

} // verus!
