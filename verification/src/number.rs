//! The numbers of the interpreter: exact decimal fractions.
//!
//! A finite number is a whole count of units of one billionth. Its magnitude
//! is at most [`LIMIT`] units, that is 10^20; what lies beyond is infinite,
//! and what has no value (zero divided by zero) is not a number. Results of
//! multiplication and division are cut off after the ninth decimal place.

use vstd::prelude::*;

verus! {

/// The units in one: a number holds nine decimal places.
pub const SCALE: i128 = 1_000_000_000;

/// The largest magnitude of a finite number, in units.
pub const LIMIT: i128 = 100_000_000_000_000_000_000_000_000_000;

/// The largest whole part of a finite number.
pub const WHOLE_LIMIT: i128 = 100_000_000_000_000_000_000;

/// A number: a finite decimal fraction, an infinity, or not a number.
#[derive(Debug, Clone, Copy, PartialEq, Eq, Structural)]
pub enum Number {
    /// The given count of units of one billionth.
    Finite(i128),
    /// Larger than every finite number.
    PosInf,
    /// Smaller than every finite number.
    NegInf,
    /// Not a number.
    Nan,
}

/// The number of `units` units, or the infinity on its side if the magnitude
/// is over the limit.
pub open spec fn clamp_units(units: int) -> Number {
    if units > LIMIT {
        Number::PosInf
    } else if units < -LIMIT {
        Number::NegInf
    } else {
        Number::Finite(units as i128)
    }
}

/// `m` with a minus sign if `negative`.
pub open spec fn signed(negative: bool, m: int) -> int {
    if negative {
        -m
    } else {
        m
    }
}

/// The magnitude of `x`.
pub open spec fn magnitude(x: int) -> int {
    if x < 0 {
        -x
    } else {
        x
    }
}

/// The value that a number stands for: a finite number whose magnitude is
/// over the limit stands for the infinity on its side.
pub open spec fn norm(a: Number) -> Number {
    match a {
        Number::Finite(u) => clamp_units(u as int),
        _ => a,
    }
}

/// The sum of two numbers.
pub open spec fn spec_plus(a: Number, b: Number) -> Number {
    match (norm(a), norm(b)) {
        (Number::Nan, _) => Number::Nan,
        (_, Number::Nan) => Number::Nan,
        (Number::PosInf, Number::NegInf) => Number::Nan,
        (Number::NegInf, Number::PosInf) => Number::Nan,
        (Number::PosInf, _) => Number::PosInf,
        (_, Number::PosInf) => Number::PosInf,
        (Number::NegInf, _) => Number::NegInf,
        (_, Number::NegInf) => Number::NegInf,
        (Number::Finite(x), Number::Finite(y)) => clamp_units(x + y),
    }
}

/// The number with the opposite sign.
pub open spec fn spec_negated(a: Number) -> Number {
    match norm(a) {
        Number::Nan => Number::Nan,
        Number::PosInf => Number::NegInf,
        Number::NegInf => Number::PosInf,
        Number::Finite(x) => Number::Finite((-x) as i128),
    }
}

/// The difference of two numbers.
pub open spec fn spec_minus(a: Number, b: Number) -> Number {
    spec_plus(a, spec_negated(b))
}

/// Whether a number is below zero.
pub open spec fn is_negative(a: Number) -> bool {
    match norm(a) {
        Number::NegInf => true,
        Number::Finite(x) => x < 0,
        _ => false,
    }
}

/// Whether a number is zero.
pub open spec fn is_zero(a: Number) -> bool {
    a == Number::Finite(0)
}

/// The infinity with the given sign.
pub open spec fn infinity(negative: bool) -> Number {
    if negative {
        Number::NegInf
    } else {
        Number::PosInf
    }
}

/// The product of two numbers, cut off after the ninth decimal place.
pub open spec fn spec_times(a: Number, b: Number) -> Number {
    match (norm(a), norm(b)) {
        (Number::Nan, _) => Number::Nan,
        (_, Number::Nan) => Number::Nan,
        (Number::Finite(x), Number::Finite(y)) => clamp_units(
            signed((x < 0) != (y < 0), (magnitude(x as int) * magnitude(y as int)) / (SCALE as int)),
        ),
        (x, y) => if is_zero(x) || is_zero(y) {
            Number::Nan
        } else {
            infinity(is_negative(x) != is_negative(y))
        },
    }
}

/// The quotient of two numbers, cut off after the ninth decimal place. A
/// number other than zero divided by zero is infinite; zero divided by zero
/// is not a number.
pub open spec fn spec_over(a: Number, b: Number) -> Number {
    match (norm(a), norm(b)) {
        (Number::Nan, _) => Number::Nan,
        (_, Number::Nan) => Number::Nan,
        (Number::Finite(x), Number::Finite(y)) => if y == 0 {
            if x == 0 {
                Number::Nan
            } else {
                infinity(x < 0)
            }
        } else {
            clamp_units(
                signed(
                    (x < 0) != (y < 0),
                    (magnitude(x as int) * (SCALE as int)) / magnitude(y as int),
                ),
            )
        },
        (Number::Finite(_), _) => Number::Finite(0),
        (x, Number::Finite(y)) => infinity(is_negative(x) != (y < 0)),
        (_, _) => Number::Nan,
    }
}

/// The remainder of the division of `a` by `b`, with the sign of `a`.
pub open spec fn spec_modulo(a: Number, b: Number) -> Number {
    match (norm(a), norm(b)) {
        (Number::Finite(x), Number::Finite(y)) => if y == 0 {
            Number::Nan
        } else {
            Number::Finite(signed(x < 0, magnitude(x as int) % magnitude(y as int)) as i128)
        },
        (Number::Finite(x), Number::PosInf) => Number::Finite(x),
        (Number::Finite(x), Number::NegInf) => Number::Finite(x),
        (_, _) => Number::Nan,
    }
}

/// Whether `a` is less than `b`. Nothing is less than what is not a number,
/// and what is not a number is less than nothing.
pub open spec fn spec_less(a: Number, b: Number) -> bool {
    match (norm(a), norm(b)) {
        (Number::Nan, _) => false,
        (_, Number::Nan) => false,
        (Number::NegInf, y) => y != Number::NegInf,
        (x, Number::PosInf) => x != Number::PosInf,
        (Number::Finite(x), Number::Finite(y)) => x < y,
        (_, _) => false,
    }
}

/// Whether `a` and `b` are the same value. What is not a number equals
/// nothing, not even itself.
pub open spec fn spec_same(a: Number, b: Number) -> bool {
    norm(a) != Number::Nan && norm(a) == norm(b)
}

/// The whole number `n`.
pub open spec fn spec_whole(n: int) -> Number {
    clamp_units(n * SCALE)
}

/// The whole part of a number, cut off towards zero and kept within
/// `lo ..= hi`; what is not a number gives 0.
pub open spec fn spec_whole_part(a: Number, lo: int, hi: int) -> int {
    match norm(a) {
        Number::Nan => 0,
        Number::PosInf => hi,
        Number::NegInf => lo,
        Number::Finite(x) => {
            let t = signed(x < 0, magnitude(x as int) / (SCALE as int));
            if t < lo {
                lo
            } else if t > hi {
                hi
            } else {
                t
            }
        },
    }
}

/// The product of two magnitudes of at most `LIMIT` units, in units, written
/// over their whole and fractional parts.
proof fn lemma_product_parts(ma: int, mb: int)
    requires
        0 <= ma,
        0 <= mb,
    ensures
        (ma * mb) / (SCALE as int) == (ma / (SCALE as int)) * (mb / (SCALE as int)) * SCALE + (ma
            / (SCALE as int)) * (mb % (SCALE as int)) + (ma % (SCALE as int)) * (mb / (
        SCALE as int)) + ((ma % (SCALE as int)) * (mb % (SCALE as int))) / (SCALE as int),
{
    let s = SCALE as int;
    let ai = ma / s;
    let af = ma % s;
    let bi = mb / s;
    let bf = mb % s;
    assert(ma == ai * s + af);
    assert(mb == bi * s + bf);
    let x = ai * s;
    let z = bi * s;
    assert((x + af) * (z + bf) == x * z + x * bf + af * z + af * bf) by (nonlinear_arith);
    assert(x * z == (ai * bi * s) * s) by (nonlinear_arith)
        requires
            x == ai * s,
            z == bi * s,
    ;
    assert(x * bf == (ai * bf) * s) by (nonlinear_arith)
        requires
            x == ai * s,
    ;
    assert(af * z == (af * bi) * s) by (nonlinear_arith)
        requires
            z == bi * s,
    ;
    let k = ai * bi * s + ai * bf + af * bi;
    assert(k * s == (ai * bi * s) * s + (ai * bf) * s + (af * bi) * s) by (nonlinear_arith)
        requires
            k == ai * bi * s + ai * bf + af * bi,
    ;
    assert(ma * mb == k * s + af * bf);
    let t = af * bf;
    assert((k * s + t) / s == k + t / s) by (nonlinear_arith)
        requires
            s > 0,
    ;
}

impl Number {
    /// The whole number `n`.
    pub fn whole(n: i64) -> (r: Number)
        ensures
            r == spec_whole(n as int),
            r == Number::Finite((n * SCALE) as i128),
    {
        let wide: i128 = n as i128;
        Number::Finite(wide * SCALE)
    }

    /// This number, with a finite value over the limit turned into the
    /// infinity on its side.
    pub fn normalized(self) -> (r: Number)
        ensures
            r == norm(self),
    {
        match self {
            Number::Finite(u) => {
                if u > LIMIT {
                    Number::PosInf
                } else if u < -LIMIT {
                    Number::NegInf
                } else {
                    Number::Finite(u)
                }
            },
            _ => self,
        }
    }

    /// Whether this number is below zero.
    pub fn negative(self) -> (r: bool)
        ensures
            r == is_negative(self),
    {
        match self.normalized() {
            Number::NegInf => true,
            Number::Finite(x) => x < 0,
            _ => false,
        }
    }

    /// The number with the opposite sign.
    pub fn negated(self) -> (r: Number)
        ensures
            r == spec_negated(self),
    {
        match self.normalized() {
            Number::Nan => Number::Nan,
            Number::PosInf => Number::NegInf,
            Number::NegInf => Number::PosInf,
            Number::Finite(x) => Number::Finite(-x),
        }
    }

    /// The sum of this number and `other`.
    pub fn plus(self, other: Number) -> (r: Number)
        ensures
            r == spec_plus(self, other),
    {
        match (self.normalized(), other.normalized()) {
            (Number::Nan, _) => Number::Nan,
            (_, Number::Nan) => Number::Nan,
            (Number::PosInf, Number::NegInf) => Number::Nan,
            (Number::NegInf, Number::PosInf) => Number::Nan,
            (Number::PosInf, _) => Number::PosInf,
            (_, Number::PosInf) => Number::PosInf,
            (Number::NegInf, _) => Number::NegInf,
            (_, Number::NegInf) => Number::NegInf,
            (Number::Finite(x), Number::Finite(y)) => Number::Finite(x + y).normalized(),
        }
    }

    /// The difference of this number and `other`.
    pub fn minus(self, other: Number) -> (r: Number)
        ensures
            r == spec_minus(self, other),
    {
        self.plus(other.negated())
    }

    /// The product of this number and `other`.
    pub fn times(self, other: Number) -> (r: Number)
        ensures
            r == spec_times(self, other),
    {
        match (self.normalized(), other.normalized()) {
            (Number::Nan, _) => Number::Nan,
            (_, Number::Nan) => Number::Nan,
            (Number::Finite(x), Number::Finite(y)) => {
                let negative = (x < 0) != (y < 0);
                let ma: i128 = if x < 0 {
                    -x
                } else {
                    x
                };
                let mb: i128 = if y < 0 {
                    -y
                } else {
                    y
                };
                let ai: i128 = ma / SCALE;
                let af: i128 = ma % SCALE;
                let bi: i128 = mb / SCALE;
                let bf: i128 = mb % SCALE;
                proof {
                    lemma_product_parts(ma as int, mb as int);
                }
                if ai > 0 && bi > WHOLE_LIMIT / ai {
                    proof {
                        let s = SCALE as int;
                        let w = WHOLE_LIMIT as int;
                        assert(ai * bi > w) by (nonlinear_arith)
                            requires
                                ai > 0,
                                bi >= w / (ai as int) + 1,
                        ;
                        assert(ai * bi * s >= (w + 1) * s) by (nonlinear_arith)
                            requires
                                ai * bi >= w + 1,
                                s > 0,
                        ;
                        assert(ai * bf >= 0) by (nonlinear_arith)
                            requires
                                ai >= 0,
                                bf >= 0,
                        ;
                        assert(af * bi >= 0) by (nonlinear_arith)
                            requires
                                af >= 0,
                                bi >= 0,
                        ;
                        assert((af * bf) / s >= 0) by (nonlinear_arith)
                            requires
                                af >= 0,
                                bf >= 0,
                                s > 0,
                        ;
                    }
                    if negative {
                        Number::NegInf
                    } else {
                        Number::PosInf
                    }
                } else {
                    proof {
                        let w = WHOLE_LIMIT as int;
                        assert(0 <= ai * bi <= w) by (nonlinear_arith)
                            requires
                                ai >= 0,
                                bi >= 0,
                                ai > 0 ==> bi <= w / (ai as int),
                                w >= 0,
                        ;
                        assert(0 <= ai * bf <= WHOLE_LIMIT * SCALE) by (nonlinear_arith)
                            requires
                                0 <= ai <= WHOLE_LIMIT,
                                0 <= bf < SCALE,
                        ;
                        assert(0 <= af * bi <= WHOLE_LIMIT * SCALE) by (nonlinear_arith)
                            requires
                                0 <= bi <= WHOLE_LIMIT,
                                0 <= af < SCALE,
                        ;
                        assert(0 <= af * bf <= SCALE * SCALE) by (nonlinear_arith)
                            requires
                                0 <= af < SCALE,
                                0 <= bf < SCALE,
                        ;
                    }
                    let whole: i128 = ai * bi;
                    let total: i128 = whole * SCALE + ai * bf + af * bi + (af * bf) / SCALE;
                    if negative {
                        Number::Finite(-total).normalized()
                    } else {
                        Number::Finite(total).normalized()
                    }
                }
            },
            (x, y) => {
                if x == Number::Finite(0) || y == Number::Finite(0) {
                    Number::Nan
                } else if x.negative() != y.negative() {
                    Number::NegInf
                } else {
                    Number::PosInf
                }
            },
        }
    }

    /// The quotient of this number and `other`.
    pub fn over(self, other: Number) -> (r: Number)
        ensures
            r == spec_over(self, other),
    {
        match (self.normalized(), other.normalized()) {
            (Number::Nan, _) => Number::Nan,
            (_, Number::Nan) => Number::Nan,
            (Number::Finite(x), Number::Finite(y)) => {
                if y == 0 {
                    if x == 0 {
                        Number::Nan
                    } else if x < 0 {
                        Number::NegInf
                    } else {
                        Number::PosInf
                    }
                } else {
                    let negative = (x < 0) != (y < 0);
                    let ma: i128 = if x < 0 {
                        -x
                    } else {
                        x
                    };
                    let mb: i128 = if y < 0 {
                        -y
                    } else {
                        y
                    };
                    assert(0 <= ma * SCALE <= LIMIT * SCALE) by (nonlinear_arith)
                        requires
                            0 <= ma <= LIMIT,
                    ;
                    let q: i128 = (ma * SCALE) / mb;
                    assert(0 <= q <= ma * SCALE) by (nonlinear_arith)
                        requires
                            q == (ma * SCALE) / (mb as int),
                            mb >= 1,
                            ma * SCALE >= 0,
                    ;
                    if negative {
                        Number::Finite(-q).normalized()
                    } else {
                        Number::Finite(q).normalized()
                    }
                }
            },
            (Number::Finite(_), _) => Number::Finite(0),
            (x, Number::Finite(y)) => {
                if x.negative() != (y < 0) {
                    Number::NegInf
                } else {
                    Number::PosInf
                }
            },
            (_, _) => Number::Nan,
        }
    }

    /// The remainder of the division of this number by `other`.
    pub fn modulo(self, other: Number) -> (r: Number)
        ensures
            r == spec_modulo(self, other),
    {
        match (self.normalized(), other.normalized()) {
            (Number::Finite(x), Number::Finite(y)) => {
                if y == 0 {
                    Number::Nan
                } else {
                    let ma: i128 = if x < 0 {
                        -x
                    } else {
                        x
                    };
                    let mb: i128 = if y < 0 {
                        -y
                    } else {
                        y
                    };
                    let r: i128 = ma % mb;
                    if x < 0 {
                        Number::Finite(-r)
                    } else {
                        Number::Finite(r)
                    }
                }
            },
            (Number::Finite(x), Number::PosInf) => Number::Finite(x),
            (Number::Finite(x), Number::NegInf) => Number::Finite(x),
            (_, _) => Number::Nan,
        }
    }

    /// Whether this number is less than `other`.
    pub fn less(self, other: Number) -> (r: bool)
        ensures
            r == spec_less(self, other),
    {
        match (self.normalized(), other.normalized()) {
            (Number::Nan, _) => false,
            (_, Number::Nan) => false,
            (Number::NegInf, y) => y != Number::NegInf,
            (x, Number::PosInf) => x != Number::PosInf,
            (Number::Finite(x), Number::Finite(y)) => x < y,
            (_, _) => false,
        }
    }

    /// Whether this number and `other` are the same value.
    pub fn same(self, other: Number) -> (r: bool)
        ensures
            r == spec_same(self, other),
    {
        let a = self.normalized();
        let b = other.normalized();
        a != Number::Nan && a == b
    }

    /// The whole part of this number, cut off towards zero and kept within
    /// `lo ..= hi`.
    pub fn whole_part(self, lo: i64, hi: i64) -> (r: i64)
        requires
            lo <= hi,
        ensures
            r == spec_whole_part(self, lo as int, hi as int),
    {
        match self.normalized() {
            Number::Nan => 0,
            Number::PosInf => hi,
            Number::NegInf => lo,
            Number::Finite(x) => {
                let m: i128 = if x < 0 {
                    -x
                } else {
                    x
                };
                let q: i128 = m / SCALE;
                let t: i128 = if x < 0 {
                    -q
                } else {
                    q
                };
                if t < lo as i128 {
                    lo
                } else if t > hi as i128 {
                    hi
                } else {
                    t as i64
                }
            },
        }
    }
}

/// `base` to the power of the natural number `n`, by squaring: each product
/// is cut off after the ninth decimal place.
pub open spec fn spec_power_whole(base: Number, n: nat) -> Number
    decreases n,
{
    if n == 0 {
        Number::Finite(SCALE)
    } else if n % 2 == 0 {
        spec_times(spec_power_whole(base, n / 2), spec_power_whole(base, n / 2))
    } else {
        spec_times(spec_power_whole(base, (n - 1) as nat), base)
    }
}

/// `base` to the power of `exponent`, for an exponent that is a whole
/// number; a negative exponent gives the inverse. For any other exponent the
/// result is not a number.
pub open spec fn spec_power(base: Number, exponent: Number) -> Number {
    match norm(exponent) {
        Number::Finite(e) => if magnitude(e as int) % (SCALE as int) != 0 {
            Number::Nan
        } else if e >= 0 {
            spec_power_whole(base, (e / SCALE) as nat)
        } else {
            spec_over(
                Number::Finite(SCALE),
                spec_power_whole(base, (magnitude(e as int) / (SCALE as int)) as nat),
            )
        },
        _ => Number::Nan,
    }
}

impl Number {
    /// This number to the power of the natural number `n`.
    pub fn power_whole(self, n: u128) -> (r: Number)
        ensures
            r == spec_power_whole(self, n as nat),
        decreases n,
    {
        if n == 0 {
            Number::Finite(SCALE)
        } else if n % 2 == 0 {
            let half = self.power_whole(n / 2);
            half.times(half)
        } else {
            self.power_whole(n - 1).times(self)
        }
    }

    /// This number to the power of `exponent`.
    pub fn power(self, exponent: Number) -> (r: Number)
        ensures
            r == spec_power(self, exponent),
    {
        match exponent.normalized() {
            Number::Finite(e) => {
                let m: i128 = if e < 0 {
                    -e
                } else {
                    e
                };
                if m % SCALE != 0 {
                    Number::Nan
                } else if e >= 0 {
                    self.power_whole((m / SCALE) as u128)
                } else {
                    Number::Finite(SCALE).over(self.power_whole((m / SCALE) as u128))
                }
            },
            _ => Number::Nan,
        }
    }
}

} // verus!
