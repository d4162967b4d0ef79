//! The relative / auxiliary number type.
//!
//! A finite value is represented as (a0 + a1*L) / (b0 + b1*L), where L stands
//! for log10(2).  L is irrational (even transcendental), so a linear form
//! c0 + c1*L is zero exactly when both coefficients are zero, and two finite
//! values are equal exactly when cross-multiplication of their forms matches
//! coefficientwise.  On top of the finite values the type carries the three
//! special values of floating-point arithmetic: not-a-number and the two
//! infinities.  Arithmetic follows the usual special-value tables; a finite
//! result that the representation cannot hold exactly (an irrational product,
//! or coefficients past the fixed size bound) becomes `Nan` rather than being
//! rounded.

use vstd::prelude::*;

verus! {

use vstd::arithmetic::power::{
    pow,
    lemma_pow_multiplies,
    lemma_pow_increases,
    lemma_pow_positive,
    lemma_pow_adds,
};

/// Largest coefficient magnitude a finite value may hold: 2^62 - 1, so that
/// any product of two coefficients, and any sum of two such products, stays
/// comfortably inside an `i128`.
pub const FIT_MAX: i64 = 4611686018427387903;

#[derive(Clone, Copy, Debug, PartialEq, Eq, Structural)]
pub enum Num {
    Nan,
    NegInf,
    PosInf,
    Fin { a0: i64, a1: i64, b0: i64, b1: i64 },
}

/// A coefficient small enough to keep all intermediate products representable.
pub open spec fn fits(v: int) -> bool {
    -(FIT_MAX as int) <= v <= FIT_MAX as int
}

/// The linear form c0 + c1*L is the number zero.
pub open spec fn lin_zero(c0: int, c1: int) -> bool {
    c0 == 0 && c1 == 0
}

/// The linear forms (x0, x1) and (y0, y1) are proportional.
pub open spec fn par(x0: int, x1: int, y0: int, y1: int) -> bool {
    x0 * y1 == x1 * y0
}

/// Canonical rational p / q with a positive denominator.
pub open spec fn norm_rat(p: int, q: int) -> Num {
    if q < 0 {
        Num::Fin { a0: (-p) as i64, a1: 0, b0: (-q) as i64, b1: 0 }
    } else {
        Num::Fin { a0: p as i64, a1: 0, b0: q as i64, b1: 0 }
    }
}

/// Builds the finite value (a0 + a1*L) / (b0 + b1*L) in canonical form:
/// an oversized coefficient or a zero denominator yields `Nan`; a zero
/// numerator yields the canonical zero; proportional numerator and
/// denominator collapse to a rational with a positive denominator; any other
/// value keeps its four coefficients, with the denominator sign-normalized so
/// that (b1, b0) is lexicographically positive.
pub open spec fn make_fin(a0: int, a1: int, b0: int, b1: int) -> Num {
    if !(fits(a0) && fits(a1) && fits(b0) && fits(b1)) {
        Num::Nan
    } else if lin_zero(b0, b1) {
        Num::Nan
    } else if lin_zero(a0, a1) {
        Num::Fin { a0: 0, a1: 0, b0: 1, b1: 0 }
    } else if par(a0, a1, b0, b1) {
        if b0 != 0 {
            norm_rat(a0, b0)
        } else {
            norm_rat(a1, b1)
        }
    } else {
        if b1 < 0 || (b1 == 0 && b0 < 0) {
            Num::Fin { a0: (-a0) as i64, a1: (-a1) as i64, b0: (-b0) as i64, b1: (-b1) as i64 }
        } else {
            Num::Fin { a0: a0 as i64, a1: a1 as i64, b0: b0 as i64, b1: b1 as i64 }
        }
    }
}

impl Num {
    /// Well-formed: coefficients within bounds, a nonzero denominator in
    /// sign-normalized position, rationals held in their canonical collapsed
    /// form, and zero held as 0 / 1.
    pub open spec fn wf(self) -> bool {
        match self {
            Num::Fin { a0, a1, b0, b1 } => {
                &&& fits(a0 as int) && fits(a1 as int) && fits(b0 as int) && fits(b1 as int)
                &&& !lin_zero(b0 as int, b1 as int)
                &&& (par(a0 as int, a1 as int, b0 as int, b1 as int) ==> a1 == 0 && b1 == 0)
                &&& (b1 > 0 || (b1 == 0 && b0 > 0))
                &&& (lin_zero(a0 as int, a1 as int) ==> b0 == 1 && b1 == 0)
            },
            _ => true,
        }
    }
}

/// The canonical zero.
pub open spec fn num_zero() -> Num {
    Num::Fin { a0: 0, a1: 0, b0: 1, b1: 0 }
}

/// The canonical one.
pub open spec fn num_one() -> Num {
    Num::Fin { a0: 1, a1: 0, b0: 1, b1: 0 }
}

/// The two values denote the same extended number.  Finite values are
/// compared by cross-multiplication: (A / B) == (C / D) exactly when the
/// polynomials A*D and C*B in L agree coefficientwise, which for the
/// irrational L is the same as agreeing as numbers.
pub open spec fn num_same(x: Num, y: Num) -> bool {
    match (x, y) {
        (Num::Nan, Num::Nan) => true,
        (Num::NegInf, Num::NegInf) => true,
        (Num::PosInf, Num::PosInf) => true,
        (
            Num::Fin { a0: xa0, a1: xa1, b0: xb0, b1: xb1 },
            Num::Fin { a0: ya0, a1: ya1, b0: yb0, b1: yb1 },
        ) => {
            &&& xa0 * yb0 == ya0 * xb0
            &&& xa0 * yb1 + xa1 * yb0 == ya0 * xb1 + ya1 * xb0
            &&& xa1 * yb1 == ya1 * xb1
        },
        _ => false,
    }
}

pub proof fn lemma_make_fin_wf(a0: int, a1: int, b0: int, b1: int)
    ensures
        make_fin(a0, a1, b0, b1).wf(),
{
    if fits(a0) && fits(a1) && fits(b0) && fits(b1) && !lin_zero(b0, b1) && !lin_zero(a0, a1) {
        if par(a0, a1, b0, b1) {
            if b0 != 0 {
                assert(a0 != 0) by {
                    if a0 == 0 {
                        assert(a1 * b0 == 0);
                        assert(a1 == 0) by (nonlinear_arith)
                            requires
                                a1 * b0 == 0,
                                b0 != 0,
                        ;
                    }
                };
            } else {
                assert(b1 != 0);
                assert(a1 != 0) by {
                    if a1 == 0 {
                        assert(a0 * b1 == a1 * b0);
                        assert(a0 == 0) by (nonlinear_arith)
                            requires
                                a0 * b1 == 0,
                                b1 != 0,
                        ;
                    }
                };
            }
        } else {
            if b1 < 0 || (b1 == 0 && b0 < 0) {
                assert(!par(-a0, -a1, -b0, -b1)) by (nonlinear_arith)
                    requires
                        !par(a0, a1, b0, b1),
                ;
                assert(!lin_zero(-a0, -a1));
            }
        }
    }
}

/// L = log10(2) lies strictly above p/q, for a positive q.  Exponentiating
/// with base 10 makes this equivalent to the integer comparison 2^q > 10^p.
pub open spec fn lambda_gt(p: int, q: int) -> bool
    recommends
        q > 0,
{
    p < 0 || pow(2, q as nat) > pow(10, p as nat)
}

pub open spec fn sgn(c: int) -> int {
    if c > 0 {
        1
    } else if c < 0 {
        -1
    } else {
        0
    }
}

/// True mathematical sign of the linear form c0 + c1*L.  For a nonzero c1
/// the form is never zero, since L is irrational.
pub open spec fn lin_sign(c0: int, c1: int) -> int {
    if c1 == 0 {
        sgn(c0)
    } else if c1 > 0 {
        if lambda_gt(-c0, c1) {
            1
        } else {
            -1
        }
    } else {
        if lambda_gt(c0, -c1) {
            -1
        } else {
            1
        }
    }
}

/// Sign of c0 + c1*L as far as the proven bounds 59/196 < L < 146/485
/// decide it: -1, 0 or 1 when decided, 2 when -c0/c1 falls inside the bound
/// window, whose width is below 0.0000106 (the bounds are neighbouring
/// continued-fraction convergents of L).
pub open spec fn win_sign(c0: int, c1: int) -> int {
    if c1 == 0 {
        sgn(c0)
    } else if c1 > 0 {
        if 196 * (-c0) <= 59 * c1 {
            1
        } else if 485 * (-c0) >= 146 * c1 {
            -1
        } else {
            2
        }
    } else {
        if 196 * c0 <= 59 * (-c1) {
            -1
        } else if 485 * c0 >= 146 * (-c1) {
            1
        } else {
            2
        }
    }
}

proof fn lemma_pow_base_le(x: int, y: int, n: nat)
    requires
        0 <= x <= y,
    ensures
        0 <= pow(x, n) <= pow(y, n),
    decreases n,
{
    if n == 0 {
        assert(pow(x, 0) == 1 && pow(y, 0) == 1) by {
            reveal_with_fuel(pow, 1);
        }
    } else {
        lemma_pow_base_le(x, y, (n - 1) as nat);
        assert(x * pow(x, (n - 1) as nat) <= y * pow(y, (n - 1) as nat) && 0 <= x * pow(
            x,
            (n - 1) as nat,
        )) by (nonlinear_arith)
            requires
                0 <= x <= y,
                0 <= pow(x, (n - 1) as nat) <= pow(y, (n - 1) as nat),
        ;
        assert(pow(x, n) == x * pow(x, (n - 1) as nat)) by {
            reveal_with_fuel(pow, 2);
        }
        assert(pow(y, n) == y * pow(y, (n - 1) as nat)) by {
            reveal_with_fuel(pow, 2);
        }
    }
}

proof fn lemma_pow_base_lt(x: int, y: int, n: nat)
    requires
        0 <= x < y,
        1 <= y,
        1 <= n,
    ensures
        pow(x, n) < pow(y, n),
    decreases n,
{
    lemma_pow_base_le(x, y, (n - 1) as nat);
    lemma_pow_positive(y, (n - 1) as nat);
    assert(x * pow(x, (n - 1) as nat) < y * pow(y, (n - 1) as nat)) by (nonlinear_arith)
        requires
            0 <= x < y,
            0 <= pow(x, (n - 1) as nat) <= pow(y, (n - 1) as nat),
            1 <= pow(y, (n - 1) as nat),
    ;
    assert(pow(x, n) == x * pow(x, (n - 1) as nat)) by {
        reveal_with_fuel(pow, 2);
    }
    assert(pow(y, n) == y * pow(y, (n - 1) as nat)) by {
        reveal_with_fuel(pow, 2);
    }
}

/// 2^196 > 10^59, shown without unfolding the full towers: both sides are
/// decomposed over nineteenth powers of 2^10 and 10^3.
proof fn lemma_two196_gt_ten59()
    ensures
        pow(2, 196) > pow(10, 59),
        1 <= pow(10, 59),
{
    assert(pow(2, 6) == 64 && pow(2, 10) == 1024 && pow(10, 2) == 100 && pow(10, 3) == 1000) by {
        reveal_with_fuel(pow, 11);
    }
    lemma_pow_adds(2, 6, 190);
    lemma_pow_multiplies(2, 10, 19);
    lemma_pow_adds(10, 2, 57);
    lemma_pow_multiplies(10, 3, 19);
    assert(pow(2, 196) == 64 * pow(1024, 19));
    assert(pow(10, 59) == 100 * pow(1000, 19));
    assert(64 * pow(1024, 19) > 100 * pow(1000, 19)) by {
        reveal_with_fuel(pow, 20);
    }
    lemma_pow_positive(10, 59);
}

/// 2^485 < 10^146, decomposed over eighth powers of 2^60 and 10^18.
#[verifier::rlimit(100)]
proof fn lemma_two485_lt_ten146()
    ensures
        pow(2, 485) < pow(10, 146),
        1 <= pow(2, 485),
{
    assert(pow(2, 5) == 32 && pow(10, 2) == 100) by {
        reveal_with_fuel(pow, 6);
    }
    assert(pow(2, 60) == 1152921504606846976 && pow(10, 18) == 1000000000000000000) by {
        reveal_with_fuel(pow, 61);
    }
    lemma_pow_adds(2, 5, 480);
    lemma_pow_multiplies(2, 60, 8);
    lemma_pow_adds(10, 2, 144);
    lemma_pow_multiplies(10, 18, 8);
    assert(pow(2, 485) == 32 * pow(1152921504606846976, 8));
    assert(pow(10, 146) == 100 * pow(1000000000000000000, 8));
    assert(32 * pow(1152921504606846976, 8) < 100 * pow(1000000000000000000, 8)) by {
        reveal_with_fuel(pow, 9);
    }
    lemma_pow_positive(2, 485);
}

/// Any ratio at or below 59/196 lies strictly below L, because 2^196 > 10^59.
proof fn lemma_lambda_above(p: int, q: int)
    requires
        q > 0,
        196 * p <= 59 * q,
    ensures
        lambda_gt(p, q),
{
    if p >= 0 {
        let pn: nat = p as nat;
        let qn: nat = q as nat;
        lemma_two196_gt_ten59();
        lemma_pow_multiplies(2, qn, 196);
        lemma_pow_multiplies(2, 196, qn);
        lemma_pow_base_lt(pow(10, 59), pow(2, 196), qn);
        lemma_pow_multiplies(10, 59, qn);
        lemma_pow_multiplies(10, pn, 196);
        lemma_pow_increases(10, (196 * pn) as nat, (59 * qn) as nat);
        assert(pow(pow(2, qn), 196) == pow(2, (qn * 196) as nat));
        assert(pow(2, (196 * qn) as nat) == pow(pow(2, 196), qn));
        assert(pow(pow(2, 196), qn) > pow(pow(10, 59), qn));
        assert(pow(pow(10, 59), qn) == pow(10, (59 * qn) as nat));
        assert(pow(10, (59 * qn) as nat) >= pow(10, (196 * pn) as nat));
        assert(pow(10, (pn * 196) as nat) == pow(pow(10, pn), 196));
        assert(pow(pow(2, qn), 196) > pow(pow(10, pn), 196));
        if pow(2, qn) <= pow(10, pn) {
            lemma_pow_positive(2, qn);
            lemma_pow_base_le(pow(2, qn), pow(10, pn), 196);
            assert(false);
        }
    }
}

/// Any ratio at or above 146/485 lies strictly above L, because
/// 2^485 < 10^146.
proof fn lemma_lambda_below(p: int, q: int)
    requires
        q > 0,
        485 * p >= 146 * q,
    ensures
        !lambda_gt(p, q),
{
    assert(p >= 1);
    let pn: nat = p as nat;
    let qn: nat = q as nat;
    lemma_two485_lt_ten146();
    lemma_pow_multiplies(2, qn, 485);
    lemma_pow_multiplies(2, 485, qn);
    lemma_pow_base_lt(pow(2, 485), pow(10, 146), qn);
    lemma_pow_multiplies(10, 146, qn);
    lemma_pow_multiplies(10, pn, 485);
    lemma_pow_increases(10, (146 * qn) as nat, (485 * pn) as nat);
    assert(pow(pow(2, qn), 485) == pow(2, (qn * 485) as nat));
    assert(pow(2, (485 * qn) as nat) == pow(pow(2, 485), qn));
    assert(pow(pow(2, 485), qn) < pow(pow(10, 146), qn));
    assert(pow(pow(10, 146), qn) == pow(10, (146 * qn) as nat));
    assert(pow(10, (146 * qn) as nat) <= pow(10, (485 * pn) as nat));
    assert(pow(10, (pn * 485) as nat) == pow(pow(10, pn), 485));
    assert(pow(pow(2, qn), 485) < pow(pow(10, pn), 485));
    if pow(2, qn) >= pow(10, pn) {
        lemma_pow_positive(10, pn);
        lemma_pow_base_le(pow(10, pn), pow(2, qn), 485);
        assert(false);
    }
}

/// The window sign, where it decides, agrees with the true sign.
pub proof fn lemma_win_sign_sound(c0: int, c1: int)
    ensures
        win_sign(c0, c1) != 2 ==> win_sign(c0, c1) == lin_sign(c0, c1),
{
    if c1 > 0 {
        if 196 * (-c0) <= 59 * c1 {
            lemma_lambda_above(-c0, c1);
        } else if 485 * (-c0) >= 146 * c1 {
            lemma_lambda_below(-c0, c1);
        }
    } else if c1 < 0 {
        if 196 * c0 <= 59 * (-c1) {
            lemma_lambda_above(c0, -c1);
        } else if 485 * c0 >= 146 * (-c1) {
            lemma_lambda_below(c0, -c1);
        }
    }
}

/// Window sign of a finite value: the product of the window signs of its
/// numerator and denominator, 2 when either is undecided (and for the
/// special values, where it is unused).
pub open spec fn fin_win_sign(x: Num) -> int {
    match x {
        Num::Fin { a0, a1, b0, b1 } => {
            let sa: int = win_sign(a0 as int, a1 as int);
            let sb: int = win_sign(b0 as int, b1 as int);
            if sa == 2 || sb == 2 {
                2
            } else {
                sa * sb
            }
        },
        _ => 2,
    }
}

/// True sign of a finite value.
pub open spec fn fin_sign(x: Num) -> int {
    match x {
        Num::Fin { a0, a1, b0, b1 } => lin_sign(a0 as int, a1 as int) * lin_sign(
            b0 as int,
            b1 as int,
        ),
        _ => 2,
    }
}

pub proof fn lemma_fin_sign_sound(x: Num)
    ensures
        fin_win_sign(x) != 2 ==> fin_win_sign(x) == fin_sign(x),
{
    match x {
        Num::Fin { a0, a1, b0, b1 } => {
            lemma_win_sign_sound(a0 as int, a1 as int);
            lemma_win_sign_sound(b0 as int, b1 as int);
        },
        _ => {},
    }
}

/// Negation: infinities swap, a finite value negates its numerator.
pub open spec fn num_neg(x: Num) -> Num {
    match x {
        Num::Nan => Num::Nan,
        Num::PosInf => Num::NegInf,
        Num::NegInf => Num::PosInf,
        Num::Fin { a0, a1, b0, b1 } => make_fin(-(a0 as int), -(a1 as int), b0 as int, b1 as int),
    }
}

/// Addition.  Special values follow the usual tables (opposite infinities
/// give `Nan`).  Two finite values combine exactly when their denominators
/// are proportional (which covers all rational denominators); otherwise the
/// exact sum has a quadratic denominator the representation cannot hold, and
/// the result is `Nan`.
pub open spec fn num_add(x: Num, y: Num) -> Num {
    match (x, y) {
        (Num::Nan, _) => Num::Nan,
        (_, Num::Nan) => Num::Nan,
        (Num::PosInf, Num::NegInf) => Num::Nan,
        (Num::NegInf, Num::PosInf) => Num::Nan,
        (Num::PosInf, _) => Num::PosInf,
        (_, Num::PosInf) => Num::PosInf,
        (Num::NegInf, _) => Num::NegInf,
        (_, Num::NegInf) => Num::NegInf,
        (
            Num::Fin { a0: xa0, a1: xa1, b0: xb0, b1: xb1 },
            Num::Fin { a0: ya0, a1: ya1, b0: yb0, b1: yb1 },
        ) => {
            if lin_zero(xa0 as int, xa1 as int) {
                y
            } else if lin_zero(ya0 as int, ya1 as int) {
                x
            } else if par(xb0 as int, xb1 as int, yb0 as int, yb1 as int) {
                if xb0 != 0 {
                    make_fin(
                        xa0 * yb0 + ya0 * xb0,
                        xa1 * yb0 + ya1 * xb0,
                        xb0 * yb0,
                        xb1 * yb0,
                    )
                } else {
                    make_fin(
                        xa0 * yb1 + ya0 * xb1,
                        xa1 * yb1 + ya1 * xb1,
                        xb0 * yb1,
                        xb1 * yb1,
                    )
                }
            } else {
                Num::Nan
            }
        },
    }
}

/// Subtraction, as addition of the negation.
pub open spec fn num_sub(x: Num, y: Num) -> Num {
    num_add(x, num_neg(y))
}

/// An infinity of sign s times the finite value f.
pub open spec fn inf_times_fin(s: int, f: Num) -> Num {
    let t: int = fin_win_sign(f);
    if t == 0 || t == 2 {
        Num::Nan
    } else if s * t == 1 {
        Num::PosInf
    } else {
        Num::NegInf
    }
}

/// Multiplication.  Two finite values multiply exactly when no quadratic
/// form arises: either each of the numerator and denominator pairs has a
/// rational member, or one numerator is proportional to the opposite
/// denominator and cancels.  Inexact (irrational) products, and products
/// whose infinite factor meets a zero or a sign the bound window cannot
/// decide, give `Nan`.
pub open spec fn num_mul(x: Num, y: Num) -> Num {
    match (x, y) {
        (Num::Nan, _) => Num::Nan,
        (_, Num::Nan) => Num::Nan,
        (Num::PosInf, Num::PosInf) => Num::PosInf,
        (Num::PosInf, Num::NegInf) => Num::NegInf,
        (Num::NegInf, Num::PosInf) => Num::NegInf,
        (Num::NegInf, Num::NegInf) => Num::PosInf,
        (Num::PosInf, Num::Fin { .. }) => inf_times_fin(1, y),
        (Num::Fin { .. }, Num::PosInf) => inf_times_fin(1, x),
        (Num::NegInf, Num::Fin { .. }) => inf_times_fin(-1, y),
        (Num::Fin { .. }, Num::NegInf) => inf_times_fin(-1, x),
        (
            Num::Fin { a0: xa0, a1: xa1, b0: xb0, b1: xb1 },
            Num::Fin { a0: ya0, a1: ya1, b0: yb0, b1: yb1 },
        ) => {
            if lin_zero(xa0 as int, xa1 as int) || lin_zero(ya0 as int, ya1 as int) {
                num_zero()
            } else if (xa1 == 0 || ya1 == 0) && (xb1 == 0 || yb1 == 0) {
                make_fin(
                    xa0 * ya0,
                    xa0 * ya1 + xa1 * ya0,
                    xb0 * yb0,
                    xb0 * yb1 + xb1 * yb0,
                )
            } else if par(xb0 as int, xb1 as int, ya0 as int, ya1 as int) {
                if xb0 != 0 {
                    make_fin(xa0 * ya0, xa1 * ya0, yb0 * xb0, yb1 * xb0)
                } else {
                    make_fin(xa0 * ya1, xa1 * ya1, yb0 * xb1, yb1 * xb1)
                }
            } else if par(xa0 as int, xa1 as int, yb0 as int, yb1 as int) {
                if yb0 != 0 {
                    make_fin(ya0 * xa0, ya1 * xa0, xb0 * yb0, xb1 * yb0)
                } else {
                    make_fin(ya0 * xa1, ya1 * xa1, xb0 * yb1, xb1 * yb1)
                }
            } else {
                Num::Nan
            }
        },
    }
}

/// An infinity of sign s divided by the finite value f; a zero divisor keeps
/// the sign of the infinity.
pub open spec fn inf_div_fin(s: int, f: Num) -> Num {
    match f {
        Num::Fin { a0, a1, b0, b1 } => {
            if lin_zero(a0 as int, a1 as int) {
                if s == 1 {
                    Num::PosInf
                } else {
                    Num::NegInf
                }
            } else {
                inf_times_fin(s, f)
            }
        },
        _ => Num::Nan,
    }
}

/// Division.  A finite value over a zero gives an infinity carrying the
/// dividend's sign (`Nan` for zero over zero, or when the bound window
/// cannot decide the sign); otherwise division is multiplication by the
/// inverted divisor.
pub open spec fn num_div(x: Num, y: Num) -> Num {
    match (x, y) {
        (Num::Nan, _) => Num::Nan,
        (_, Num::Nan) => Num::Nan,
        (Num::PosInf, Num::PosInf) => Num::Nan,
        (Num::PosInf, Num::NegInf) => Num::Nan,
        (Num::NegInf, Num::PosInf) => Num::Nan,
        (Num::NegInf, Num::NegInf) => Num::Nan,
        (Num::Fin { .. }, Num::PosInf) => num_zero(),
        (Num::Fin { .. }, Num::NegInf) => num_zero(),
        (Num::PosInf, Num::Fin { .. }) => inf_div_fin(1, y),
        (Num::NegInf, Num::Fin { .. }) => inf_div_fin(-1, y),
        (
            Num::Fin { a0: xa0, a1: xa1, b0: xb0, b1: xb1 },
            Num::Fin { a0: ya0, a1: ya1, b0: yb0, b1: yb1 },
        ) => {
            if lin_zero(ya0 as int, ya1 as int) {
                if lin_zero(xa0 as int, xa1 as int) {
                    Num::Nan
                } else {
                    let s: int = fin_win_sign(x);
                    if s == 1 {
                        Num::PosInf
                    } else if s == -1 {
                        Num::NegInf
                    } else {
                        Num::Nan
                    }
                }
            } else {
                num_mul(x, make_fin(yb0 as int, yb1 as int, ya0 as int, ya1 as int))
            }
        },
    }
}

/// The finite value minus one (other values unchanged; used for clamping).
pub open spec fn num_dec(x: Num) -> Num {
    match x {
        Num::Fin { a0, a1, b0, b1 } => make_fin(
            a0 as int - b0 as int,
            a1 as int - b1 as int,
            b0 as int,
            b1 as int,
        ),
        _ => x,
    }
}

/// Clamp to the unit interval.  `Nan` and negative infinity clamp to zero
/// (mirroring the floating-point max/min chain, where a `Nan` comparison
/// falls through to the bound), positive infinity to one.  A finite value
/// compares against both interval ends through the window sign, and either
/// decided comparison wins: decidedly at most zero gives zero, decidedly at
/// least one gives one, decidedly inside gives the value itself.  Where a
/// comparison stays undecided the result falls to an interval end - one when
/// the comparison with one is undecided, zero when the value is decidedly
/// below one but its sign is undecided - so it still lies in [0, 1], though
/// for such inputs it need not equal the exact clamp.
pub open spec fn num_clamp01(x: Num) -> Num {
    match x {
        Num::Nan => num_zero(),
        Num::NegInf => num_zero(),
        Num::PosInf => num_one(),
        Num::Fin { .. } => {
            let s0: int = fin_win_sign(x);
            let s1: int = fin_win_sign(num_dec(x));
            if s0 == -1 || s0 == 0 {
                num_zero()
            } else if s1 == 1 || s1 == 0 {
                num_one()
            } else if s0 == 1 && s1 == -1 {
                x
            } else if s1 == -1 {
                num_zero()
            } else {
                num_one()
            }
        },
    }
}

/// The value lies in the unit interval [0, 1], by the true mathematical
/// sign of the value and of its decrement.
pub open spec fn in_unit(x: Num) -> bool {
    match x {
        Num::Fin { .. } => fin_sign(x) != -1 && fin_sign(num_dec(x)) != 1,
        _ => false,
    }
}

/// Exact exec product of two bounded coefficients.
fn mprod(x: i64, y: i64) -> (r: i128)
    requires
        fits(x as int),
        fits(y as int),
    ensures
        r as int == x as int * y as int,
        -((FIT_MAX as int) * (FIT_MAX as int)) <= r as int <= (FIT_MAX as int) * (FIT_MAX as int),
{
    proof {
        assert(x as int * y as int <= (FIT_MAX as int) * (FIT_MAX as int)
            && x as int * y as int >= -((FIT_MAX as int) * (FIT_MAX as int))) by (nonlinear_arith)
            requires
                fits(x as int),
                fits(y as int),
        ;
    }
    (x as i128) * (y as i128)
}

/// Exact exec product of two `i128` values already known to be small.
fn pmul(x: i128, y: i128) -> (r: i128)
    requires
        -(FIT_MAX as int) <= x as int <= FIT_MAX as int,
        -(FIT_MAX as int) <= y as int <= FIT_MAX as int,
    ensures
        r as int == x as int * y as int,
{
    proof {
        assert(x as int * y as int <= (FIT_MAX as int) * (FIT_MAX as int)
            && x as int * y as int >= -((FIT_MAX as int) * (FIT_MAX as int))) by (nonlinear_arith)
            requires
                -(FIT_MAX as int) <= x as int <= FIT_MAX as int,
                -(FIT_MAX as int) <= y as int <= FIT_MAX as int,
        ;
    }
    x * y
}

/// Exact exec value of x*y + z*w for bounded coefficients.
fn msum(x: i64, y: i64, z: i64, w: i64) -> (r: i128)
    requires
        fits(x as int),
        fits(y as int),
        fits(z as int),
        fits(w as int),
    ensures
        r as int == x as int * y as int + z as int * w as int,
        -(2 * (FIT_MAX as int) * (FIT_MAX as int)) <= r as int <= 2 * (FIT_MAX as int) * (
        FIT_MAX as int),
{
    let p: i128 = mprod(x, y);
    let q: i128 = mprod(z, w);
    p + q
}

/// Exec constructor matching `make_fin`.
fn fin_make(a0: i128, a1: i128, b0: i128, b1: i128) -> (r: Num)
    requires
        a0 != i128::MIN,
        a1 != i128::MIN,
        b0 != i128::MIN,
        b1 != i128::MIN,
    ensures
        r == make_fin(a0 as int, a1 as int, b0 as int, b1 as int),
        r.wf(),
{
    proof {
        lemma_make_fin_wf(a0 as int, a1 as int, b0 as int, b1 as int);
    }
    let lim: i128 = FIT_MAX as i128;
    if !(-lim <= a0 && a0 <= lim && -lim <= a1 && a1 <= lim && -lim <= b0 && b0 <= lim && -lim
        <= b1 && b1 <= lim) {
        Num::Nan
    } else if b0 == 0 && b1 == 0 {
        Num::Nan
    } else if a0 == 0 && a1 == 0 {
        Num::Fin { a0: 0, a1: 0, b0: 1, b1: 0 }
    } else {
        let pab: bool = pmul(a0, b1) == pmul(a1, b0);
        if pab {
            let p: i128 = if b0 != 0 {
                a0
            } else {
                a1
            };
            let q: i128 = if b0 != 0 {
                b0
            } else {
                b1
            };
            if q < 0 {
                Num::Fin { a0: (-p) as i64, a1: 0, b0: (-q) as i64, b1: 0 }
            } else {
                Num::Fin { a0: p as i64, a1: 0, b0: q as i64, b1: 0 }
            }
        } else {
            if b1 < 0 || (b1 == 0 && b0 < 0) {
                Num::Fin { a0: (-a0) as i64, a1: (-a1) as i64, b0: (-b0) as i64, b1: (-b1) as i64 }
            } else {
                Num::Fin { a0: a0 as i64, a1: a1 as i64, b0: b0 as i64, b1: b1 as i64 }
            }
        }
    }
}

impl Num {
    /// The value (a0 + a1*L) / (b0 + b1*L), with L = log10(2), in canonical
    /// form; `Nan` when the denominator is zero or a coefficient is out of
    /// bounds.
    pub fn moebius(a0: i64, a1: i64, b0: i64, b1: i64) -> (r: Num)
        ensures
            r == make_fin(a0 as int, a1 as int, b0 as int, b1 as int),
            r.wf(),
    {
        fin_make(a0 as i128, a1 as i128, b0 as i128, b1 as i128)
    }

    /// The rational p / q; `Nan` when q is zero.
    pub fn rational(p: i64, q: i64) -> (r: Num)
        ensures
            r == make_fin(p as int, 0, q as int, 0),
            r.wf(),
    {
        Num::moebius(p, 0, q, 0)
    }

    /// The integer n.
    pub fn from_int(n: i64) -> (r: Num)
        ensures
            r == make_fin(n as int, 0, 1, 0),
            r.wf(),
    {
        Num::moebius(n, 0, 1, 0)
    }

    /// The canonical zero.
    pub fn zero() -> (r: Num)
        ensures
            r == num_zero(),
            r.wf(),
    {
        Num::Fin { a0: 0, a1: 0, b0: 1, b1: 0 }
    }

    /// The canonical one.
    pub fn one() -> (r: Num)
        ensures
            r == num_one(),
            r.wf(),
    {
        Num::Fin { a0: 1, a1: 0, b0: 1, b1: 0 }
    }

    pub fn is_nan(&self) -> (r: bool)
        ensures
            r == (*self is Nan),
    {
        match self {
            Num::Nan => true,
            _ => false,
        }
    }

    pub fn is_pos_inf(&self) -> (r: bool)
        ensures
            r == (*self is PosInf),
    {
        match self {
            Num::PosInf => true,
            _ => false,
        }
    }

    pub fn is_neg_inf(&self) -> (r: bool)
        ensures
            r == (*self is NegInf),
    {
        match self {
            Num::NegInf => true,
            _ => false,
        }
    }

    pub fn is_finite(&self) -> (r: bool)
        ensures
            r == (*self is Fin),
    {
        match self {
            Num::Fin { .. } => true,
            _ => false,
        }
    }

    /// Exact value equality of two extended numbers (`Nan` equals `Nan`).
    pub fn same_value(&self, other: &Num) -> (r: bool)
        requires
            self.wf(),
            other.wf(),
        ensures
            r == num_same(*self, *other),
    {
        match (self, other) {
            (Num::Nan, Num::Nan) => true,
            (Num::NegInf, Num::NegInf) => true,
            (Num::PosInf, Num::PosInf) => true,
            (
                Num::Fin { a0: xa0, a1: xa1, b0: xb0, b1: xb1 },
                Num::Fin { a0: ya0, a1: ya1, b0: yb0, b1: yb1 },
            ) => {
                let e0: bool = mprod(*xa0, *yb0) == mprod(*ya0, *xb0);
                let e1: bool = msum(*xa0, *yb1, *xa1, *yb0) == msum(*ya0, *xb1, *ya1, *xb0);
                let e2: bool = mprod(*xa1, *yb1) == mprod(*ya1, *xb1);
                e0 && e1 && e2
            },
            _ => false,
        }
    }
}

/// Exec window sign of a linear form.
fn win_sign_exec(c0: i64, c1: i64) -> (r: i8)
    requires
        fits(c0 as int),
        fits(c1 as int),
    ensures
        r as int == win_sign(c0 as int, c1 as int),
{
    if c1 == 0 {
        if c0 > 0 {
            1
        } else if c0 < 0 {
            -1
        } else {
            0
        }
    } else if c1 > 0 {
        if 196 * (-(c0 as i128)) <= 59 * (c1 as i128) {
            1
        } else if 485 * (-(c0 as i128)) >= 146 * (c1 as i128) {
            -1
        } else {
            2
        }
    } else {
        if 196 * (c0 as i128) <= 59 * (-(c1 as i128)) {
            -1
        } else if 485 * (c0 as i128) >= 146 * (-(c1 as i128)) {
            1
        } else {
            2
        }
    }
}

/// Exec window sign of a value (2 for special values).
pub(crate) fn fin_sign_exec(x: &Num) -> (r: i8)
    requires
        x.wf(),
    ensures
        r as int == fin_win_sign(*x),
{
    match x {
        Num::Fin { a0, a1, b0, b1 } => {
            let sa: i8 = win_sign_exec(*a0, *a1);
            let sb: i8 = win_sign_exec(*b0, *b1);
            if sa == 2 || sb == 2 {
                2
            } else {
                sa * sb
            }
        },
        _ => 2,
    }
}

impl Num {
    /// Negation.
    pub fn neg(self) -> (r: Num)
        requires
            self.wf(),
        ensures
            r == num_neg(self),
            r.wf(),
    {
        match self {
            Num::Nan => Num::Nan,
            Num::PosInf => Num::NegInf,
            Num::NegInf => Num::PosInf,
            Num::Fin { a0, a1, b0, b1 } => fin_make(
                -(a0 as i128),
                -(a1 as i128),
                b0 as i128,
                b1 as i128,
            ),
        }
    }

    /// Addition.
    pub fn add(self, other: Num) -> (r: Num)
        requires
            self.wf(),
            other.wf(),
        ensures
            r == num_add(self, other),
            r.wf(),
    {
        match (self, other) {
            (Num::Nan, _) => Num::Nan,
            (_, Num::Nan) => Num::Nan,
            (Num::PosInf, Num::NegInf) => Num::Nan,
            (Num::NegInf, Num::PosInf) => Num::Nan,
            (Num::PosInf, _) => Num::PosInf,
            (_, Num::PosInf) => Num::PosInf,
            (Num::NegInf, _) => Num::NegInf,
            (_, Num::NegInf) => Num::NegInf,
            (
                Num::Fin { a0: xa0, a1: xa1, b0: xb0, b1: xb1 },
                Num::Fin { a0: ya0, a1: ya1, b0: yb0, b1: yb1 },
            ) => {
                if xa0 == 0 && xa1 == 0 {
                    other
                } else if ya0 == 0 && ya1 == 0 {
                    self
                } else if mprod(xb0, yb1) == mprod(xb1, yb0) {
                    if xb0 != 0 {
                        fin_make(
                            msum(xa0, yb0, ya0, xb0),
                            msum(xa1, yb0, ya1, xb0),
                            mprod(xb0, yb0),
                            mprod(xb1, yb0),
                        )
                    } else {
                        fin_make(
                            msum(xa0, yb1, ya0, xb1),
                            msum(xa1, yb1, ya1, xb1),
                            mprod(xb0, yb1),
                            mprod(xb1, yb1),
                        )
                    }
                } else {
                    Num::Nan
                }
            },
        }
    }

    /// Subtraction.
    pub fn sub(self, other: Num) -> (r: Num)
        requires
            self.wf(),
            other.wf(),
        ensures
            r == num_sub(self, other),
            r.wf(),
    {
        self.add(other.neg())
    }

    /// Multiplication.
    pub fn mul(self, other: Num) -> (r: Num)
        requires
            self.wf(),
            other.wf(),
        ensures
            r == num_mul(self, other),
            r.wf(),
    {
        match (self, other) {
            (Num::Nan, _) => Num::Nan,
            (_, Num::Nan) => Num::Nan,
            (Num::PosInf, Num::PosInf) => Num::PosInf,
            (Num::PosInf, Num::NegInf) => Num::NegInf,
            (Num::NegInf, Num::PosInf) => Num::NegInf,
            (Num::NegInf, Num::NegInf) => Num::PosInf,
            (Num::PosInf, Num::Fin { .. }) => inf_times_fin_exec(1, &other),
            (Num::Fin { .. }, Num::PosInf) => inf_times_fin_exec(1, &self),
            (Num::NegInf, Num::Fin { .. }) => inf_times_fin_exec(-1, &other),
            (Num::Fin { .. }, Num::NegInf) => inf_times_fin_exec(-1, &self),
            (
                Num::Fin { a0: xa0, a1: xa1, b0: xb0, b1: xb1 },
                Num::Fin { a0: ya0, a1: ya1, b0: yb0, b1: yb1 },
            ) => {
                if (xa0 == 0 && xa1 == 0) || (ya0 == 0 && ya1 == 0) {
                    Num::zero()
                } else if (xa1 == 0 || ya1 == 0) && (xb1 == 0 || yb1 == 0) {
                    fin_make(
                        mprod(xa0, ya0),
                        msum(xa0, ya1, xa1, ya0),
                        mprod(xb0, yb0),
                        msum(xb0, yb1, xb1, yb0),
                    )
                } else if mprod(xb0, ya1) == mprod(xb1, ya0) {
                    if xb0 != 0 {
                        fin_make(mprod(xa0, ya0), mprod(xa1, ya0), mprod(yb0, xb0), mprod(yb1, xb0))
                    } else {
                        fin_make(mprod(xa0, ya1), mprod(xa1, ya1), mprod(yb0, xb1), mprod(yb1, xb1))
                    }
                } else if mprod(xa0, yb1) == mprod(xa1, yb0) {
                    if yb0 != 0 {
                        fin_make(mprod(ya0, xa0), mprod(ya1, xa0), mprod(xb0, yb0), mprod(xb1, yb0))
                    } else {
                        fin_make(mprod(ya0, xa1), mprod(ya1, xa1), mprod(xb0, yb1), mprod(xb1, yb1))
                    }
                } else {
                    Num::Nan
                }
            },
        }
    }

    /// Division.
    pub fn div(self, other: Num) -> (r: Num)
        requires
            self.wf(),
            other.wf(),
        ensures
            r == num_div(self, other),
            r.wf(),
    {
        match (self, other) {
            (Num::Nan, _) => Num::Nan,
            (_, Num::Nan) => Num::Nan,
            (Num::PosInf, Num::PosInf) => Num::Nan,
            (Num::PosInf, Num::NegInf) => Num::Nan,
            (Num::NegInf, Num::PosInf) => Num::Nan,
            (Num::NegInf, Num::NegInf) => Num::Nan,
            (Num::Fin { .. }, Num::PosInf) => Num::zero(),
            (Num::Fin { .. }, Num::NegInf) => Num::zero(),
            (Num::PosInf, Num::Fin { .. }) => inf_div_fin_exec(1, &other),
            (Num::NegInf, Num::Fin { .. }) => inf_div_fin_exec(-1, &other),
            (
                Num::Fin { a0: xa0, a1: xa1, b0: xb0, b1: xb1 },
                Num::Fin { a0: ya0, a1: ya1, b0: yb0, b1: yb1 },
            ) => {
                if ya0 == 0 && ya1 == 0 {
                    if xa0 == 0 && xa1 == 0 {
                        Num::Nan
                    } else {
                        let s: i8 = fin_sign_exec(&self);
                        if s == 1 {
                            Num::PosInf
                        } else if s == -1 {
                            Num::NegInf
                        } else {
                            Num::Nan
                        }
                    }
                } else {
                    let inv: Num = fin_make(yb0 as i128, yb1 as i128, ya0 as i128, ya1 as i128);
                    self.mul(inv)
                }
            },
        }
    }

    /// The value minus one.
    fn dec(self) -> (r: Num)
        requires
            self.wf(),
        ensures
            r == num_dec(self),
            r.wf(),
    {
        match self {
            Num::Fin { a0, a1, b0, b1 } => fin_make(
                (a0 as i128) - (b0 as i128),
                (a1 as i128) - (b1 as i128),
                b0 as i128,
                b1 as i128,
            ),
            _ => self,
        }
    }

    /// Clamp to the unit interval [0, 1].
    pub fn clamp01(self) -> (r: Num)
        requires
            self.wf(),
        ensures
            r == num_clamp01(self),
            r.wf(),
    {
        match self {
            Num::Nan => Num::zero(),
            Num::NegInf => Num::zero(),
            Num::PosInf => Num::one(),
            Num::Fin { .. } => {
                let s0: i8 = fin_sign_exec(&self);
                let d: Num = self.dec();
                let s1: i8 = fin_sign_exec(&d);
                if s0 == -1 || s0 == 0 {
                    Num::zero()
                } else if s1 == 1 || s1 == 0 {
                    Num::one()
                } else if s0 == 1 && s1 == -1 {
                    self
                } else if s1 == -1 {
                    Num::zero()
                } else {
                    Num::one()
                }
            },
        }
    }
}

/// Exec counterpart of `inf_times_fin`.
fn inf_times_fin_exec(s: i8, f: &Num) -> (r: Num)
    requires
        f.wf(),
        s as int == 1 || s as int == -1,
    ensures
        r == inf_times_fin(s as int, *f),
        r.wf(),
{
    let t: i8 = fin_sign_exec(f);
    if t == 0 || t == 2 {
        Num::Nan
    } else if (s as i32) * (t as i32) == 1 {
        Num::PosInf
    } else {
        Num::NegInf
    }
}

/// Exec counterpart of `inf_div_fin`.
fn inf_div_fin_exec(s: i8, f: &Num) -> (r: Num)
    requires
        f.wf(),
        s as int == 1 || s as int == -1,
        *f is Fin,
    ensures
        r == inf_div_fin(s as int, *f),
        r.wf(),
{
    match f {
        Num::Fin { a0, a1, b0, b1 } => {
            if *a0 == 0 && *a1 == 0 {
                if s == 1 {
                    Num::PosInf
                } else {
                    Num::NegInf
                }
            } else {
                inf_times_fin_exec(s, f)
            }
        },
        _ => Num::Nan,
    }
}

/// Clamping always lands in the unit interval, whatever the input: the law
/// behind the clamped conversions.
pub proof fn lemma_clamp01_in_unit(x: Num)
    ensures
        in_unit(num_clamp01(x)),
{
    lemma_fin_sign_sound(x);
    lemma_fin_sign_sound(num_dec(x));
    assert(num_dec(num_zero()) == make_fin(-1, 0, 1, 0));
    assert(fin_sign(num_dec(num_zero())) == -1);
    assert(num_dec(num_one()) == make_fin(0, 0, 1, 0));
    assert(fin_sign(num_dec(num_one())) == 0);
    assert(fin_sign(num_zero()) == 0);
    assert(fin_sign(num_one()) == 1);
}

} // verus!
