//! Laws of the two mapping strategies, stated over the same specification
//! functions that the conversion contracts use and proved for every input
//! their premises admit.
//!
//! The premises are the natural ones: bounds of nonzero width (a zero-width
//! domain propagates infinities and is excluded by the laws, as the design
//! leaves it undefined), denominators free of the irrational part (which
//! every logarithm of a representable magnitude satisfies), and coefficients
//! small enough that no intermediate product leaves the representable
//! coefficient range.

use vstd::prelude::*;

verus! {

use crate::num::{
    Num,
    make_fin,
    norm_rat,
    num_zero,
    num_one,
    num_same,
    num_neg,
    num_add,
    num_sub,
    num_mul,
    num_div,
    num_clamp01,
    in_unit,
    lin_zero,
    par,
    fits,
    fin_win_sign,
    lemma_clamp01_in_unit,
    lemma_make_fin_wf,
    FIT_MAX,
};
use crate::mag::{Mag, mag_log10, mag_pow10, mag_same, mag_div, mag_from_int, twos, strip2, fives, strip5};
use crate::linear::{spec_lin_rel, spec_lin_abs};
use crate::logarithmic::{spec_log_rel, spec_log_abs, span_decided};

/// A finite value with a rational denominator: the shape of every logarithm
/// of a representable magnitude, and of every rational.
pub open spec fn ratden(x: Num) -> bool {
    match x {
        Num::Fin { a0, a1, b0, b1 } => b1 == 0,
        _ => false,
    }
}

/// A canonical rational value.
pub open spec fn rat(x: Num) -> bool {
    match x {
        Num::Fin { a0, a1, b0, b1 } => a1 == 0 && b1 == 0,
        _ => false,
    }
}

/// Coefficients small enough that every product in a chained conversion
/// stays inside the representable coefficient range: through the deepest
/// chain below (an absolute value fed back through the relative conversion)
/// the worst coefficient grows like 64 times the eighth power of this bound,
/// so the kernel's 2^62 ceiling puts the edge near 138; a round hundred
/// leaves slack.
pub open spec fn modest(x: Num) -> bool {
    match x {
        Num::Fin { a0, a1, b0, b1 } => {
            &&& -100 <= a0 <= 100
            &&& -100 <= a1 <= 100
            &&& -100 <= b0 <= 100
            &&& -100 <= b1 <= 100
        },
        _ => false,
    }
}

/// The numerator is not the zero form: the value is a nonzero number.
pub open spec fn nonzero(x: Num) -> bool {
    match x {
        Num::Fin { a0, a1, b0, b1 } => !lin_zero(a0 as int, a1 as int),
        _ => false,
    }
}

/// `make_fin` on a positive rational denominator keeps its coefficients:
/// the only normalizations left are the canonical zero and the collapse of
/// a zero irrational part.
proof fn lemma_mf_ratden(n0: int, n1: int, q: int)
    requires
        0 < q,
        fits(n0),
        fits(n1),
        fits(q),
    ensures
        make_fin(n0, n1, q, 0) == if n0 == 0 && n1 == 0 {
            num_zero()
        } else {
            Num::Fin { a0: n0 as i64, a1: n1 as i64, b0: q as i64, b1: 0 }
        },
{
    if !(n0 == 0 && n1 == 0) {
        assert(par(n0, n1, q, 0) <==> n1 * q == 0) by (nonlinear_arith);
        assert(n1 * q == 0 <==> n1 == 0) by (nonlinear_arith)
            requires
                q != 0,
        ;
    }
}

/// Two canonical rationals with cross-multiplying coefficients denote the
/// same value.
proof fn lemma_rat_same(p1: int, q1: int, p2: int, q2: int)
    requires
        fits(p1),
        fits(q1),
        fits(p2),
        fits(q2),
        p1 * q2 == p2 * q1,
    ensures
        num_same(
            Num::Fin { a0: p1 as i64, a1: 0, b0: q1 as i64, b1: 0 },
            Num::Fin { a0: p2 as i64, a1: 0, b0: q2 as i64, b1: 0 },
        ),
{
    assert((p1 as i64) as int == p1 && (q1 as i64) as int == q1 && (p2 as i64) as int == p2 && (
    q2 as i64) as int == q2);
    assert(p1 * 0 == 0 && 0 * q2 == 0 && p2 * 0 == 0 && 0 * q1 == 0 && 0 * 0 == 0 && 0 * q2 + 0
        * q2 == 0);
    assert(((p1 as i64) as int) * ((q2 as i64) as int) == ((p2 as i64) as int) * ((q1 as i64)
        as int)) by (nonlinear_arith)
        requires
            (p1 as i64) as int == p1,
            (q1 as i64) as int == q1,
            (p2 as i64) as int == p2,
            (q2 as i64) as int == q2,
            p1 * q2 == p2 * q1,
    ;
    assert(((p1 as i64) as int) * 0 == 0 && 0 * ((q2 as i64) as int) == 0 && ((p2 as i64) as int)
        * 0 == 0 && 0 * ((q1 as i64) as int) == 0) by (nonlinear_arith);
}

/// Two pure multiples of L with cross-multiplying coefficients denote the
/// same value.
proof fn lemma_lam_same(p1: int, q1: int, p2: int, q2: int)
    requires
        fits(p1),
        fits(q1),
        fits(p2),
        fits(q2),
        p1 * q2 == p2 * q1,
    ensures
        num_same(
            Num::Fin { a0: 0, a1: p1 as i64, b0: q1 as i64, b1: 0 },
            Num::Fin { a0: 0, a1: p2 as i64, b0: q2 as i64, b1: 0 },
        ),
{
    assert((p1 as i64) as int == p1 && (q1 as i64) as int == q1 && (p2 as i64) as int == p2 && (
    q2 as i64) as int == q2);
    assert(((p1 as i64) as int) * ((q2 as i64) as int) == ((p2 as i64) as int) * ((q1 as i64)
        as int)) by (nonlinear_arith)
        requires
            (p1 as i64) as int == p1,
            (q1 as i64) as int == q1,
            (p2 as i64) as int == p2,
            (q2 as i64) as int == q2,
            p1 * q2 == p2 * q1,
    ;
    assert(0 * ((q2 as i64) as int) == 0 && 0 * ((q1 as i64) as int) == 0 && ((p1 as i64) as int)
        * 0 == 0 && ((p2 as i64) as int) * 0 == 0 && 0 * 0 == 0) by (nonlinear_arith);
}

/// Multiplying by one on the left returns the value unchanged.
proof fn lemma_one_mul(y: Num)
    requires
        y.wf(),
        y is Fin,
        ratden(y),
        nonzero(y),
    ensures
        num_mul(num_one(), y) == y,
{
    match (num_one(), y) {
        (
            Num::Fin { a0: oa0, a1: oa1, b0: ob0, b1: ob1 },
            Num::Fin { a0: ya0, a1: ya1, b0: yb0, b1: yb1 },
        ) => {
            let ya0i: int = ya0 as int;
            let ya1i: int = ya1 as int;
            let yb0i: int = yb0 as int;
            assert((oa0 as int) * ya0i == ya0i && (oa0 as int) * ya1i == ya1i && (oa1 as int)
                * ya0i == 0 && (ob0 as int) * yb0i == yb0i && (ob0 as int) * (yb1 as int) == 0 && (
            ob1 as int) * yb0i == 0) by (nonlinear_arith)
                requires
                    oa0 as int == 1,
                    oa1 as int == 0,
                    ob0 as int == 1,
                    ob1 as int == 0,
                    yb1 as int == 0,
            ;
            assert(num_mul(num_one(), y) == make_fin(ya0i, ya1i, yb0i, 0));
            lemma_mf_ratden(ya0i, ya1i, yb0i);
        },
        _ => {},
    }
}

/// Subtracting a modest well-formed value from itself gives the canonical
/// zero.
proof fn lemma_sub_self(x: Num)
    requires
        x.wf(),
        x is Fin,
        modest(x),
    ensures
        num_sub(x, x) == num_zero(),
{
    match x {
        Num::Fin { a0, a1, b0, b1 } => {
            let a0i: int = a0 as int;
            let a1i: int = a1 as int;
            let b0i: int = b0 as int;
            let b1i: int = b1 as int;
            if lin_zero(a0i, a1i) {
                assert(num_neg(x) == num_zero());
            } else {
                assert(par(-a0i, -a1i, b0i, b1i) ==> par(a0i, a1i, b0i, b1i)) by (nonlinear_arith);
                let n: Num = num_neg(x);
                if par(a0i, a1i, b0i, b1i) {
                    // canonical rational: a1 == b1 == 0, b0 > 0
                    assert(n == Num::Fin { a0: (-a0i) as i64, a1: 0, b0: b0, b1: 0 });
                    assert(par(b0i, b1i, b0i, b1i)) by (nonlinear_arith);
                    assert(a0i * b0i + (-a0i) * b0i == 0) by (nonlinear_arith);
                    assert(num_add(x, n) == make_fin(0, 0, b0i * b0i, b1i * b0i));
                    assert(b0i * b0i != 0 || b1i * b0i != 0) by (nonlinear_arith)
                        requires
                            b0i != 0,
                    ;
                    assert(fits(b0i * b0i) && fits(b1i * b0i)) by (nonlinear_arith)
                        requires
                            -100 <= b0i <= 100,
                            -100 <= b1i <= 100,
                    ;
                } else {
                    assert(n == Num::Fin { a0: (-a0i) as i64, a1: (-a1i) as i64, b0: b0, b1: b1 });
                    assert(par(b0i, b1i, b0i, b1i)) by (nonlinear_arith);
                    if b0 != 0 {
                        assert(a0i * b0i + (-a0i) * b0i == 0 && a1i * b0i + (-a1i) * b0i == 0)
                            by (nonlinear_arith);
                        assert(num_add(x, n) == make_fin(0, 0, b0i * b0i, b1i * b0i));
                        assert(b0i * b0i != 0) by (nonlinear_arith)
                            requires
                                b0i != 0,
                        ;
                        assert(fits(b0i * b0i) && fits(b1i * b0i)) by (nonlinear_arith)
                            requires
                                -100 <= b0i <= 100,
                                -100 <= b1i <= 100,
                        ;
                    } else {
                        assert(a0i * b1i + (-a0i) * b1i == 0 && a1i * b1i + (-a1i) * b1i == 0)
                            by (nonlinear_arith);
                        assert(num_add(x, n) == make_fin(0, 0, b0i * b1i, b1i * b1i));
                        assert(b1i * b1i != 0) by (nonlinear_arith)
                            requires
                                b1i != 0,
                        ;
                        assert(fits(b0i * b1i) && fits(b1i * b1i)) by (nonlinear_arith)
                            requires
                                -100 <= b0i <= 100,
                                -100 <= b1i <= 100,
                        ;
                    }
                }
            }
        },
        _ => {},
    }
}

/// Coefficients within the given magnitude.
pub open spec fn bounded(x: Num, lim: int) -> bool {
    match x {
        Num::Fin { a0, a1, b0, b1 } => {
            &&& -lim <= a0 <= lim
            &&& -lim <= a1 <= lim
            &&& -lim <= b0 <= lim
            &&& -lim <= b1 <= lim
        },
        _ => false,
    }
}

/// A nonzero value with a rational denominator divided by itself gives
/// exactly one.
proof fn lemma_div_self(x: Num)
    requires
        x.wf(),
        x is Fin,
        ratden(x),
        nonzero(x),
        bounded(x, 100000000),
    ensures
        num_same(num_div(x, x), num_one()),
{
    match x {
        Num::Fin { a0: n0, a1: n1, b0: q, b1: _b1 } => {
            let n0i: int = n0 as int;
            let n1i: int = n1 as int;
            let qi: int = q as int;
            let inv: Num = make_fin(qi, 0, n0i, n1i);
            if n1 == 0 {
                let sg: int = if n0i > 0 {
                    1
                } else {
                    -1
                };
                assert(sg * qi != 0 && n0i * (sg * qi) != 0 && qi * (sg * n0i) > 0 && fits(
                    sg * qi,
                ) && fits(sg * n0i) && fits(n0i * (sg * qi)) && fits(qi * (sg * n0i)) && n0i * (sg
                    * qi) == qi * (sg * n0i)) by (nonlinear_arith)
                    requires
                        n0i != 0,
                        qi > 0,
                        sg == if n0i > 0 {
                            1int
                        } else {
                            -1int
                        },
                        -100000000 <= n0i <= 100000000,
                        -100000000 <= qi <= 100000000,
                ;
                assert(par(qi, 0, n0i, n1i)) by (nonlinear_arith)
                    requires
                        n1i == 0,
                ;
                assert(inv == Num::Fin {
                    a0: (sg * qi) as i64,
                    a1: 0,
                    b0: (sg * n0i) as i64,
                    b1: 0,
                });
                assert((((sg * qi) as i64) as int) == sg * qi);
                assert((((sg * n0i) as i64) as int) == sg * n0i);
                assert(n0i * 0 == 0 && 0 * (sg * qi) == 0 && qi * 0 == 0 && 0 * (sg * n0i) == 0)
                    by (nonlinear_arith);
                let m: Num = num_mul(x, inv);
                assert(m == make_fin(n0i * (sg * qi), 0, qi * (sg * n0i), 0));
                lemma_mf_ratden(n0i * (sg * qi), 0, qi * (sg * n0i));
                lemma_rat_same(n0i * (sg * qi), qi * (sg * n0i), 1, 1);
                assert(num_same(m, num_one()));
            } else {
                let sg: int = if n1i > 0 {
                    1
                } else {
                    -1
                };
                assert(sg * qi != 0 && n1i * (sg * qi) != 0 && qi * (sg * n1i) != 0 && (n0i * (sg
                    * qi)) * (qi * (sg * n1i)) == (n1i * (sg * qi)) * (qi * (sg * n0i)) && fits(
                    sg * qi,
                ) && fits(sg * n0i) && fits(sg * n1i) && fits(n0i * (sg * qi)) && fits(
                    n1i * (sg * qi),
                ) && fits(qi * (sg * n0i)) && fits(qi * (sg * n1i)) && n0i * (sg * qi) == qi * (sg
                    * n0i) && n1i * (sg * qi) == qi * (sg * n1i)) by (nonlinear_arith)
                    requires
                        n1i != 0,
                        qi > 0,
                        sg == if n1i > 0 {
                            1int
                        } else {
                            -1int
                        },
                        -100000000 <= n0i <= 100000000,
                        -100000000 <= n1i <= 100000000,
                        -100000000 <= qi <= 100000000,
                ;
                assert(!par(qi, 0, n0i, n1i)) by (nonlinear_arith)
                    requires
                        qi != 0,
                        n1i != 0,
                ;
                assert(inv == Num::Fin {
                    a0: (sg * qi) as i64,
                    a1: 0,
                    b0: (sg * n0i) as i64,
                    b1: (sg * n1i) as i64,
                });
                assert((((sg * qi) as i64) as int) == sg * qi);
                assert((((sg * n0i) as i64) as int) == sg * n0i);
                assert((((sg * n1i) as i64) as int) == sg * n1i);
                assert(n0i * 0 == 0 && qi * 0 == 0 && 0 * (sg * qi) == 0 && 0 * (sg * n0i) == 0)
                    by (nonlinear_arith);
                let m: Num = num_mul(x, inv);
                assert(m == make_fin(n0i * (sg * qi), n1i * (sg * qi), qi * (sg * n0i), qi * (sg
                    * n1i)));
                if n0 != 0 {
                    assert(qi * (sg * n0i) != 0) by (nonlinear_arith)
                        requires
                            qi != 0,
                            n0i != 0,
                            sg == 1 || sg == -1,
                    ;
                    let aa: int = n0i * (sg * qi);
                    let bb: int = qi * (sg * n0i);
                    assert(m == norm_rat(aa, bb));
                    if bb < 0 {
                        assert(m == Num::Fin { a0: (-aa) as i64, a1: 0, b0: (-bb) as i64, b1: 0 });
                        lemma_rat_same(-aa, -bb, 1, 1);
                    } else {
                        assert(m == Num::Fin { a0: aa as i64, a1: 0, b0: bb as i64, b1: 0 });
                        lemma_rat_same(aa, bb, 1, 1);
                    }
                    assert(num_same(m, num_one()));
                } else {
                    let aa: int = n1i * (sg * qi);
                    let bb: int = qi * (sg * n1i);
                    assert(m == norm_rat(aa, bb));
                    if bb < 0 {
                        assert(m == Num::Fin { a0: (-aa) as i64, a1: 0, b0: (-bb) as i64, b1: 0 });
                        lemma_rat_same(-aa, -bb, 1, 1);
                    } else {
                        assert(m == Num::Fin { a0: aa as i64, a1: 0, b0: bb as i64, b1: 0 });
                        lemma_rat_same(aa, bb, 1, 1);
                    }
                    assert(num_same(m, num_one()));
                }
            }
        },
        _ => {},
    }
}

/// The closed form of subtraction over rational denominators: the operands'
/// forms combine over the common denominator.
proof fn lemma_sub_shape(
    x: Num,
    y: Num,
    xa0i: int,
    xa1i: int,
    xqi: int,
    ya0i: int,
    ya1i: int,
    yqi: int,
    lim: int,
)
    requires
        x.wf(),
        y.wf(),
        x == (Num::Fin { a0: xa0i as i64, a1: xa1i as i64, b0: xqi as i64, b1: 0 }),
        y == (Num::Fin { a0: ya0i as i64, a1: ya1i as i64, b0: yqi as i64, b1: 0 }),
        -lim <= xa0i <= lim,
        -lim <= xa1i <= lim,
        0 < xqi <= lim,
        -lim <= ya0i <= lim,
        -lim <= ya1i <= lim,
        0 < yqi <= lim,
        0 < lim,
        2 * lim * lim <= FIT_MAX as int,
    ensures
        num_sub(x, y) == make_fin(
            xa0i * yqi - ya0i * xqi,
            xa1i * yqi - ya1i * xqi,
            xqi * yqi,
            0,
        ),
{
    assert(fits(xa0i) && fits(xa1i) && fits(xqi) && fits(ya0i) && fits(ya1i) && fits(yqi) && fits(
        -ya0i,
    ) && fits(-ya1i) && 2 * lim * lim >= lim) by (nonlinear_arith)
        requires
            -lim <= xa0i <= lim,
            -lim <= xa1i <= lim,
            0 < xqi <= lim,
            -lim <= ya0i <= lim,
            -lim <= ya1i <= lim,
            0 < yqi <= lim,
            0 < lim,
            2 * lim * lim <= FIT_MAX as int,
    ;
    assert((xa0i as i64) as int == xa0i && (xa1i as i64) as int == xa1i && (xqi as i64) as int
        == xqi && (ya0i as i64) as int == ya0i && (ya1i as i64) as int == ya1i && (yqi as i64)
        as int == yqi && ((-ya0i) as i64) as int == -ya0i && ((-ya1i) as i64) as int == -ya1i);
    let ny: Num = num_neg(y);
    lemma_mf_ratden(-ya0i, -ya1i, yqi);
    if ya0i == 0 && ya1i == 0 {
        // y is the canonical zero, so yqi == 1 and the negation is zero
        assert(ny == num_zero());
        assert(yqi == 1);
        assert(xa0i * 1 == xa0i && xa1i * 1 == xa1i && xqi * 1 == xqi && 0 * xqi == 0 && xa0i * yqi
            - ya0i * xqi == xa0i && xa1i * yqi - ya1i * xqi == xa1i && xqi * yqi == xqi)
            by (nonlinear_arith)
            requires
                ya0i == 0,
                ya1i == 0,
                yqi == 1,
        ;
        if xa0i == 0 && xa1i == 0 {
            assert(num_sub(x, y) == x);
            assert(xqi == 1);
            assert(make_fin(0, 0, 1, 0) == x);
        } else {
            assert(num_sub(x, y) == x);
            lemma_mf_ratden(xa0i, xa1i, xqi);
        }
    } else {
        assert(ny == (Num::Fin {
            a0: (-ya0i) as i64,
            a1: (-ya1i) as i64,
            b0: (yqi as i64),
            b1: 0,
        }));
        assert(xqi * 0 == 0 && 0 * yqi == 0 && 0 * xqi == 0) by (nonlinear_arith);
        if xa0i == 0 && xa1i == 0 {
            // x is the canonical zero: the difference is the negation
            assert(xqi == 1);
            assert(num_sub(x, y) == ny);
            assert(xa0i * yqi - ya0i * xqi == -ya0i && xa1i * yqi - ya1i * xqi == -ya1i && xqi * yqi
                == yqi) by (nonlinear_arith)
                requires
                    xa0i == 0,
                    xa1i == 0,
                    xqi == 1,
            ;
        } else {
            assert(xa0i * yqi + (-ya0i) * xqi == xa0i * yqi - ya0i * xqi && xa1i * yqi + (-ya1i)
                * xqi == xa1i * yqi - ya1i * xqi && fits(xa0i * yqi - ya0i * xqi) && fits(
                xa1i * yqi - ya1i * xqi,
            ) && fits(xqi * yqi) && 0 < xqi * yqi) by (nonlinear_arith)
                requires
                    -lim <= xa0i <= lim,
                    -lim <= xa1i <= lim,
                    0 < xqi <= lim,
                    -lim <= ya0i <= lim,
                    -lim <= ya1i <= lim,
                    0 < yqi <= lim,
                    0 < lim,
                    2 * lim * lim <= FIT_MAX as int,
            ;
            assert(num_sub(x, y) == make_fin(
                xa0i * yqi + (-ya0i) * xqi,
                xa1i * yqi + (-ya1i) * xqi,
                xqi * yqi,
                0 * yqi,
            ));
        }
    }
}

/// The closed form of addition over rational denominators.
proof fn lemma_add_shape(
    x: Num,
    y: Num,
    xa0i: int,
    xa1i: int,
    xqi: int,
    ya0i: int,
    ya1i: int,
    yqi: int,
    lim: int,
)
    requires
        x.wf(),
        y.wf(),
        x == (Num::Fin { a0: xa0i as i64, a1: xa1i as i64, b0: xqi as i64, b1: 0 }),
        y == (Num::Fin { a0: ya0i as i64, a1: ya1i as i64, b0: yqi as i64, b1: 0 }),
        -lim <= xa0i <= lim,
        -lim <= xa1i <= lim,
        0 < xqi <= lim,
        -lim <= ya0i <= lim,
        -lim <= ya1i <= lim,
        0 < yqi <= lim,
        0 < lim,
        2 * lim * lim <= FIT_MAX as int,
    ensures
        num_add(x, y) == make_fin(
            xa0i * yqi + ya0i * xqi,
            xa1i * yqi + ya1i * xqi,
            xqi * yqi,
            0,
        ),
{
    assert(fits(xa0i) && fits(xa1i) && fits(xqi) && fits(ya0i) && fits(ya1i) && fits(yqi) && 2
        * lim * lim >= lim) by (nonlinear_arith)
        requires
            -lim <= xa0i <= lim,
            -lim <= xa1i <= lim,
            0 < xqi <= lim,
            -lim <= ya0i <= lim,
            -lim <= ya1i <= lim,
            0 < yqi <= lim,
            0 < lim,
            2 * lim * lim <= FIT_MAX as int,
    ;
    assert((xa0i as i64) as int == xa0i && (xa1i as i64) as int == xa1i && (xqi as i64) as int
        == xqi && (ya0i as i64) as int == ya0i && (ya1i as i64) as int == ya1i && (yqi as i64)
        as int == yqi);
    if xa0i == 0 && xa1i == 0 {
        assert(num_add(x, y) == y);
        assert(xqi == 1);
        assert(xa0i * yqi + ya0i * xqi == ya0i && xa1i * yqi + ya1i * xqi == ya1i && xqi * yqi
            == yqi) by (nonlinear_arith)
            requires
                xa0i == 0,
                xa1i == 0,
                xqi == 1,
        ;
        lemma_mf_ratden(ya0i, ya1i, yqi);
        if ya0i == 0 && ya1i == 0 {
            assert(yqi == 1);
        }
    } else if ya0i == 0 && ya1i == 0 {
        assert(num_add(x, y) == x);
        assert(yqi == 1);
        assert(xa0i * yqi + ya0i * xqi == xa0i && xa1i * yqi + ya1i * xqi == xa1i && xqi * yqi
            == xqi) by (nonlinear_arith)
            requires
                ya0i == 0,
                ya1i == 0,
                yqi == 1,
        ;
        lemma_mf_ratden(xa0i, xa1i, xqi);
    } else {
        assert(xqi * 0 == 0 && 0 * yqi == 0 && 0 * xqi == 0 && fits(xa0i * yqi + ya0i * xqi)
            && fits(xa1i * yqi + ya1i * xqi) && fits(xqi * yqi) && 0 < xqi * yqi)
            by (nonlinear_arith)
            requires
                -lim <= xa0i <= lim,
                -lim <= xa1i <= lim,
                0 < xqi <= lim,
                -lim <= ya0i <= lim,
                -lim <= ya1i <= lim,
                0 < yqi <= lim,
                0 < lim,
                2 * lim * lim <= FIT_MAX as int,
        ;
        assert(num_add(x, y) == make_fin(
            xa0i * yqi + ya0i * xqi,
            xa1i * yqi + ya1i * xqi,
            xqi * yqi,
            0 * yqi,
        ));
    }
}

/// The closed form of multiplication by a canonical rational on the left.
proof fn lemma_mul_rat_shape(
    r: Num,
    s: Num,
    pi: int,
    qi: int,
    sa0i: int,
    sa1i: int,
    sqi: int,
    lim: int,
)
    requires
        r.wf(),
        s.wf(),
        r == (Num::Fin { a0: pi as i64, a1: 0, b0: qi as i64, b1: 0 }),
        s == (Num::Fin { a0: sa0i as i64, a1: sa1i as i64, b0: sqi as i64, b1: 0 }),
        -lim <= pi <= lim,
        0 < qi <= lim,
        -lim <= sa0i <= lim,
        -lim <= sa1i <= lim,
        0 < sqi <= lim,
        0 < lim,
        2 * lim * lim <= FIT_MAX as int,
    ensures
        num_mul(r, s) == make_fin(pi * sa0i, pi * sa1i, qi * sqi, 0),
{
    assert(fits(pi) && fits(qi) && fits(sa0i) && fits(sa1i) && fits(sqi) && 2 * lim * lim >= lim)
        by (nonlinear_arith)
        requires
            -lim <= pi <= lim,
            0 < qi <= lim,
            -lim <= sa0i <= lim,
            -lim <= sa1i <= lim,
            0 < sqi <= lim,
            0 < lim,
            2 * lim * lim <= FIT_MAX as int,
    ;
    assert((pi as i64) as int == pi && (qi as i64) as int == qi && (sa0i as i64) as int == sa0i && (
    sa1i as i64) as int == sa1i && (sqi as i64) as int == sqi);
    if pi == 0 {
        assert(num_mul(r, s) == num_zero());
        assert(pi * sa0i == 0 && pi * sa1i == 0 && 0 < qi * sqi && fits(qi * sqi))
            by (nonlinear_arith)
            requires
                pi == 0,
                0 < qi <= lim,
                0 < sqi <= lim,
                0 < lim,
                2 * lim * lim <= FIT_MAX as int,
        ;
    } else if sa0i == 0 && sa1i == 0 {
        assert(num_mul(r, s) == num_zero());
        assert(sqi == 1);
        assert(pi * sa0i == 0 && pi * sa1i == 0 && 0 < qi * sqi && fits(qi * sqi))
            by (nonlinear_arith)
            requires
                sa0i == 0,
                sa1i == 0,
                sqi == 1,
                0 < qi <= lim,
                0 < lim,
                2 * lim * lim <= FIT_MAX as int,
        ;
    } else {
        assert(pi * 0 == 0 && 0 * sa0i == 0 && qi * 0 == 0 && 0 * sqi == 0 && pi * sa1i + 0 * sa0i
            == pi * sa1i && qi * 0 + 0 * sqi == 0 && fits(pi * sa0i) && fits(pi * sa1i) && fits(
            qi * sqi,
        ) && 0 < qi * sqi) by (nonlinear_arith)
            requires
                -lim <= pi <= lim,
                0 < qi <= lim,
                -lim <= sa0i <= lim,
                -lim <= sa1i <= lim,
                0 < sqi <= lim,
                0 < lim,
                2 * lim * lim <= FIT_MAX as int,
        ;
        assert(num_mul(r, s) == make_fin(pi * sa0i, pi * sa1i, qi * sqi, 0));
    }
}

/// Division of d by s yields exactly the rational p / q whenever d equals
/// (p / q) * s, stated by cross-multiplication over the coefficients.
#[verifier::rlimit(100)]
proof fn lemma_div_rat_result(
    d: Num,
    s: Num,
    dd0: int,
    dd1: int,
    dq: int,
    ss0: int,
    ss1: int,
    sq: int,
    pi: int,
    qi: int,
    limd: int,
    lims: int,
)
    requires
        d.wf(),
        s.wf(),
        d == (Num::Fin { a0: dd0 as i64, a1: dd1 as i64, b0: dq as i64, b1: 0 }),
        s == (Num::Fin { a0: ss0 as i64, a1: ss1 as i64, b0: sq as i64, b1: 0 }),
        -limd <= dd0 <= limd,
        -limd <= dd1 <= limd,
        0 < dq <= limd,
        -lims <= ss0 <= lims,
        -lims <= ss1 <= lims,
        0 < sq <= lims,
        0 < limd,
        0 < lims,
        2 * limd * lims <= FIT_MAX as int,
        !(ss0 == 0 && ss1 == 0),
        fits(pi),
        fits(qi),
        0 < qi,
        (qi * sq) * dd0 == (pi * dq) * ss0,
        (qi * sq) * dd1 == (pi * dq) * ss1,
    ensures
        num_same(num_div(d, s), Num::Fin { a0: pi as i64, a1: 0, b0: qi as i64, b1: 0 }),
{
    assert(fits(dd0) && fits(dd1) && fits(dq) && fits(ss0) && fits(ss1) && fits(sq) && lims
        <= FIT_MAX as int && limd <= FIT_MAX as int) by (nonlinear_arith)
        requires
            -limd <= dd0 <= limd,
            -limd <= dd1 <= limd,
            0 < dq <= limd,
            -lims <= ss0 <= lims,
            -lims <= ss1 <= lims,
            0 < sq <= lims,
            0 < limd,
            0 < lims,
            2 * limd * lims <= FIT_MAX as int,
    ;
    assert((dd0 as i64) as int == dd0 && (dd1 as i64) as int == dd1 && (dq as i64) as int == dq && (
    ss0 as i64) as int == ss0 && (ss1 as i64) as int == ss1 && (sq as i64) as int == sq);
    let inv: Num = make_fin(sq, 0, ss0, ss1);
    if dd0 == 0 && dd1 == 0 {
        assert(num_div(d, s) == num_mul(d, inv));
        assert(num_mul(d, inv) == num_zero());
        assert(pi == 0) by (nonlinear_arith)
            requires
                (qi * sq) * dd0 == (pi * dq) * ss0,
                (qi * sq) * dd1 == (pi * dq) * ss1,
                dd0 == 0,
                dd1 == 0,
                qi > 0,
                sq > 0,
                dq > 0,
                !(ss0 == 0 && ss1 == 0),
        ;
        assert(0 * qi == 0 && pi * 1 == pi) by (nonlinear_arith);
        lemma_rat_same(0, 1, pi, qi);
        assert(num_same(num_zero(), Num::Fin { a0: pi as i64, a1: 0, b0: qi as i64, b1: 0 }));
    } else {
        if ss1 == 0 {
            let sg: int = if ss0 > 0 {
                1
            } else {
                -1
            };
            assert(par(sq, 0, ss0, ss1) && sg * sq != 0 && sg * sq == if ss0 > 0 {
                sq
            } else {
                -sq
            } && fits(sg * sq) && fits(sg * ss0) && dd1 == 0 && fits(dd0 * (sg * sq)) && fits(
                dd1 * (sg * sq),
            ) && fits(dq * (sg * ss0)) && 0 < dq * (sg * ss0) && dd1 * (sg * sq) == 0 && (dd0 * (sg
                * sq)) * qi == pi * (dq * (sg * ss0))) by (nonlinear_arith)
                requires
                    ss1 == 0,
                    ss0 != 0,
                    sq > 0,
                    dq > 0,
                    qi > 0,
                    sg == if ss0 > 0 {
                        1int
                    } else {
                        -1int
                    },
                    -limd <= dd0 <= limd,
                    -limd <= dd1 <= limd,
                    0 < dq <= limd,
                    -lims <= ss0 <= lims,
                    0 < sq <= lims,
                    0 < limd,
                    0 < lims,
                    2 * limd * lims <= FIT_MAX as int,
                    (qi * sq) * dd0 == (pi * dq) * ss0,
                    (qi * sq) * dd1 == (pi * dq) * ss1,
            ;
            assert(inv == Num::Fin { a0: (sg * sq) as i64, a1: 0, b0: (sg * ss0) as i64, b1: 0 });
            assert(((sg * sq) as i64) as int == sg * sq && ((sg * ss0) as i64) as int == sg * ss0);
            assert(dd0 * 0 == 0 && dd1 * 0 == 0 && 0 * (sg * sq) == 0 && dq * 0 == 0 && 0 * (sg
                * ss0) == 0) by (nonlinear_arith);
            assert(!(dd0 * (sg * sq) == 0 && dd1 * (sg * sq) == 0)) by (nonlinear_arith)
                requires
                    !(dd0 == 0 && dd1 == 0),
                    sg * sq != 0,
            ;
            let m: Num = num_mul(d, inv);
            assert(num_div(d, s) == m);
            assert(m == make_fin(dd0 * (sg * sq), dd1 * (sg * sq), dq * (sg * ss0), 0));
            lemma_mf_ratden(dd0 * (sg * sq), 0, dq * (sg * ss0));
            assert(m == make_fin(dd0 * (sg * sq), 0, dq * (sg * ss0), 0));
            lemma_rat_same(dd0 * (sg * sq), dq * (sg * ss0), pi, qi);
        } else {
            let sg: int = if ss1 > 0 {
                1
            } else {
                -1
            };
            assert(!par(sq, 0, ss0, ss1) && sg * sq != 0 && sg * ss1 != 0 && dq * (sg * ss1)
                != 0) by (nonlinear_arith)
                requires
                    ss1 != 0,
                    sq > 0,
                    dq > 0,
                    sg == 1 || sg == -1,
            ;
            assert(fits(sg * sq) && fits(sg * ss0) && fits(sg * ss1) && fits(dd0 * (sg * sq))
                && fits(dd1 * (sg * sq)) && fits(dq * (sg * ss0)) && fits(dq * (sg * ss1)))
                by (nonlinear_arith)
                requires
                    sg == 1 || sg == -1,
                    -limd <= dd0 <= limd,
                    -limd <= dd1 <= limd,
                    0 < dq <= limd,
                    -lims <= ss0 <= lims,
                    -lims <= ss1 <= lims,
                    0 < sq <= lims,
                    0 < limd,
                    0 < lims,
                    2 * limd * lims <= FIT_MAX as int,
            ;
            assert(dd0 * ss1 == dd1 * ss0) by (nonlinear_arith)
                requires
                    (qi * sq) * dd0 == (pi * dq) * ss0,
                    (qi * sq) * dd1 == (pi * dq) * ss1,
                    qi > 0,
                    sq > 0,
            ;
            assert((dd0 * (sg * sq)) * (dq * (sg * ss1)) == (dd1 * (sg * sq)) * (dq * (sg * ss0)))
                by (nonlinear_arith)
                requires
                    dd0 * ss1 == dd1 * ss0,
                    sg == 1 || sg == -1,
            ;
            assert((dd0 * (sg * sq)) * qi == pi * (dq * (sg * ss0)) && (dd1 * (sg * sq)) * qi == pi
                * (dq * (sg * ss1))) by (nonlinear_arith)
                requires
                    (qi * sq) * dd0 == (pi * dq) * ss0,
                    (qi * sq) * dd1 == (pi * dq) * ss1,
                    sg == 1 || sg == -1,
            ;
            assert(inv == Num::Fin {
                a0: (sg * sq) as i64,
                a1: 0,
                b0: (sg * ss0) as i64,
                b1: (sg * ss1) as i64,
            });
            assert(((sg * sq) as i64) as int == sg * sq && ((sg * ss0) as i64) as int == sg * ss0
                && ((sg * ss1) as i64) as int == sg * ss1);
            assert(dd0 * 0 == 0 && dd1 * 0 == 0 && 0 * (sg * sq) == 0 && dq * 0 == 0 && 0 * (sg
                * ss0) == 0) by (nonlinear_arith);
            assert(!(dd0 * (sg * sq) == 0 && dd1 * (sg * sq) == 0)) by (nonlinear_arith)
                requires
                    !(dd0 == 0 && dd1 == 0),
                    sg * sq != 0,
            ;
            let m: Num = num_mul(d, inv);
            assert(num_div(d, s) == m);
            assert(m == make_fin(dd0 * (sg * sq), dd1 * (sg * sq), dq * (sg * ss0), dq * (sg
                * ss1)));
            if ss0 != 0 {
                assert(dq * (sg * ss0) != 0) by (nonlinear_arith)
                    requires
                        dq > 0,
                        ss0 != 0,
                        sg == 1 || sg == -1,
                ;
                let aa: int = dd0 * (sg * sq);
                let bb: int = dq * (sg * ss0);
                assert(m == norm_rat(aa, bb));
                if bb < 0 {
                    assert(m == Num::Fin { a0: (-aa) as i64, a1: 0, b0: (-bb) as i64, b1: 0 });
                    assert((-aa) * qi == pi * (-bb)) by (nonlinear_arith)
                        requires
                            aa * qi == pi * bb,
                    ;
                    lemma_rat_same(-aa, -bb, pi, qi);
                } else {
                    assert(m == Num::Fin { a0: aa as i64, a1: 0, b0: bb as i64, b1: 0 });
                    lemma_rat_same(aa, bb, pi, qi);
                }
            } else {
                let aa: int = dd1 * (sg * sq);
                let bb: int = dq * (sg * ss1);
                assert(m == norm_rat(aa, bb));
                if bb < 0 {
                    assert(m == Num::Fin { a0: (-aa) as i64, a1: 0, b0: (-bb) as i64, b1: 0 });
                    assert((-aa) * qi == pi * (-bb)) by (nonlinear_arith)
                        requires
                            aa * qi == pi * bb,
                    ;
                    lemma_rat_same(-aa, -bb, pi, qi);
                } else {
                    assert(m == Num::Fin { a0: aa as i64, a1: 0, b0: bb as i64, b1: 0 });
                    lemma_rat_same(aa, bb, pi, qi);
                }
            }
        }
    }
}

/// Boundary exactness of the linear strategy at the lower end: the relative
/// position of min is exactly zero, and the absolute value at zero is
/// exactly min.
pub proof fn lemma_linear_boundary_low(min: Num, max: Num)
    requires
        min.wf(),
        max.wf(),
        min is Fin,
        max is Fin,
        modest(min),
        modest(max),
        nonzero(num_sub(max, min)),
    ensures
        spec_lin_rel(min, max, min) == num_zero(),
        spec_lin_abs(min, max, num_zero()) == min,
{
    lemma_sub_self(min);
    assert(num_mul(num_zero(), num_sub(max, min)) == num_zero());
}

/// Boundary exactness of the linear strategy at the upper end: the relative
/// position of max is exactly one, and the absolute value at one is exactly
/// max.
pub proof fn lemma_linear_boundary_high(min: Num, max: Num)
    requires
        min.wf(),
        max.wf(),
        min is Fin,
        max is Fin,
        ratden(min),
        ratden(max),
        modest(min),
        modest(max),
        nonzero(num_sub(max, min)),
    ensures
        num_same(spec_lin_rel(min, max, max), num_one()),
        num_same(spec_lin_abs(min, max, num_one()), max),
        ratden(spec_lin_abs(min, max, num_one())),
{
    match (min, max) {
        (
            Num::Fin { a0: ma0, a1: ma1, b0: mq, b1: _mb1 },
            Num::Fin { a0: xa0, a1: xa1, b0: xq, b1: _xb1 },
        ) => {
            let ma0i: int = ma0 as int;
            let ma1i: int = ma1 as int;
            let mqi: int = mq as int;
            let xa0i: int = xa0 as int;
            let xa1i: int = xa1 as int;
            let xqi: int = xq as int;
            let s: Num = num_sub(max, min);
            assert(xa0i * 0 == 0 && 0 * mqi == 0 && xqi * 0 == 0 && 0 * xqi == 0 && mqi * 0 == 0
                && 1 * xa0i == xa0i && 1 * xa1i == xa1i && 1 * xqi == xqi && ma0i * 0 == 0);
            if ma0 == 0 && ma1 == 0 {
                // min is the canonical zero, so the span is max itself
                assert(num_neg(min) == num_zero());
                assert(s == max);
                lemma_div_self(max);
                // the absolute value at one: 1 * max, then + 0
                let t: Num = num_mul(num_one(), s);
                assert(t == make_fin(xa0i, xa1i, xqi, 0));
                lemma_mf_ratden(xa0i, xa1i, xqi);
                assert(t == max);
                assert(num_add(min, t) == max);
                assert(num_same(max, max));
            } else {
                // the negation of min keeps its shape
                let nm: Num = num_neg(min);
                lemma_mf_ratden(-ma0i, -ma1i, mqi);
                assert(nm == Num::Fin { a0: (-ma0i) as i64, a1: (-ma1i) as i64, b0: mq, b1: 0 });
                assert((((-ma0i) as i64) as int) == -ma0i && (((-ma1i) as i64) as int) == -ma1i);
                assert((-ma0i) * xqi == -(ma0i * xqi) && (-ma1i) * xqi == -(ma1i * xqi) && (-ma0i)
                    * mqi == -(ma0i * mqi) && (-ma1i) * mqi == -(ma1i * mqi)) by (nonlinear_arith);
                if xa0 == 0 && xa1 == 0 {
                    // max is the canonical zero: the span is -min and the
                    // interpolation at one lands back on zero
                    assert(xq == 1);
                    assert(s == nm);
                    assert(s.wf()) by {
                        lemma_make_fin_wf(-ma0i, -ma1i, mqi, 0);
                    }
                    lemma_div_self(s);
                    lemma_one_mul(s);
                    let t: Num = num_mul(num_one(), s);
                    assert(t == s);
                    let v: Num = num_add(min, t);
                    assert(ma0i * mqi + (-ma0i) * mqi == 0 && ma1i * mqi + (-ma1i) * mqi == 0
                        && fits(mqi * mqi) && mqi * mqi > 0) by (nonlinear_arith)
                        requires
                            0 < mqi <= 100,
                    ;
                    assert(v == make_fin(0, 0, mqi * mqi, 0 * mqi));
                    assert(v == num_zero());
                    assert(num_same(v, max));
                } else {
                    // both bounds nonzero: the span combines over the common
                    // rational denominator
                    let u0: int = xa0i * mqi + (-ma0i) * xqi;
                    let u1: int = xa1i * mqi + (-ma1i) * xqi;
                    let qq: int = xqi * mqi;
                    assert(-100000000 <= u0 <= 100000000 && -100000000 <= u1 <= 100000000 && 0
                        < qq <= 100000000 && fits(ma0i * qq) && fits(ma1i * qq) && fits(u0 * mqi)
                        && fits(u1 * mqi) && fits(mqi * qq)) by (nonlinear_arith)
                        requires
                            -100 <= ma0i <= 100,
                            -100 <= ma1i <= 100,
                            -100 <= xa0i <= 100,
                            -100 <= xa1i <= 100,
                            0 < mqi <= 100,
                            0 < xqi <= 100,
                            u0 == xa0i * mqi + (-ma0i) * xqi,
                            u1 == xa1i * mqi + (-ma1i) * xqi,
                            qq == xqi * mqi,
                    ;
                    assert(s == make_fin(u0, u1, qq, 0 * mqi));
                    lemma_mf_ratden(u0, u1, qq);
                    assert(s == Num::Fin { a0: u0 as i64, a1: u1 as i64, b0: qq as i64, b1: 0 });
                    assert(s.wf()) by {
                        lemma_make_fin_wf(u0, u1, qq, 0);
                    }
                    lemma_div_self(s);
                    // the absolute value at one: 1 * s keeps s
                    let s0: int = (u0 as i64) as int;
                    let s1: int = (u1 as i64) as int;
                    let sq: int = (qq as i64) as int;
                    assert(s0 == u0 && s1 == u1 && sq == qq);
                    lemma_one_mul(s);
                    let t: Num = num_mul(num_one(), s);
                    assert(t == s);
                    // adding min lands exactly on max
                    let v: Num = num_add(min, t);
                    assert(mqi * 0 == 0 && 0 * qq == 0 && 0 * sq == 0);
                    let v0: int = ma0i * qq + u0 * mqi;
                    let v1: int = ma1i * qq + u1 * mqi;
                    let vq: int = mqi * qq;
                    assert(v == make_fin(v0, v1, vq, 0));
                    assert(v0 == xa0i * (mqi * mqi) && v1 == xa1i * (mqi * mqi) && vq > 0 && fits(
                        v0,
                    ) && fits(v1) && fits(vq)) by (nonlinear_arith)
                        requires
                            v0 == ma0i * qq + u0 * mqi,
                            v1 == ma1i * qq + u1 * mqi,
                            vq == mqi * qq,
                            u0 == xa0i * mqi + (-ma0i) * xqi,
                            u1 == xa1i * mqi + (-ma1i) * xqi,
                            qq == xqi * mqi,
                            -100 <= ma0i <= 100,
                            -100 <= ma1i <= 100,
                            -100 <= xa0i <= 100,
                            -100 <= xa1i <= 100,
                            0 < mqi <= 100,
                            0 < xqi <= 100,
                    ;
                    assert(!(v0 == 0 && v1 == 0)) by (nonlinear_arith)
                        requires
                            v0 == xa0i * (mqi * mqi) && v1 == xa1i * (mqi * mqi),
                            !(xa0i == 0 && xa1i == 0),
                            mqi != 0,
                    ;
                    lemma_mf_ratden(v0, v1, vq);
                    assert(v == Num::Fin { a0: v0 as i64, a1: v1 as i64, b0: vq as i64, b1: 0 });
                    assert(((v0 as i64) as int) == v0 && ((v1 as i64) as int) == v1 && ((
                    vq as i64) as int) == vq);
                    assert(v0 * xqi == xa0i * vq && v0 * 0 + v1 * xqi == xa0i * 0 + xa1i * vq && v1
                        * 0 == xa1i * 0) by (nonlinear_arith)
                        requires
                            v0 == xa0i * (mqi * mqi),
                            v1 == xa1i * (mqi * mqi),
                            vq == mqi * (xqi * mqi),
                    ;
                    assert(num_same(v, max));
                }
            }
        },
        _ => {},
    }
}

/// Round trip through the linear strategy: taking a rational relative
/// position to its absolute value and back recovers it exactly, with no
/// floating tolerance.
pub proof fn lemma_linear_roundtrip_rel(min: Num, max: Num, r: Num)
    requires
        min.wf(),
        max.wf(),
        r.wf(),
        min is Fin,
        max is Fin,
        ratden(min),
        ratden(max),
        r is Fin,
        rat(r),
        modest(min),
        modest(max),
        modest(r),
        nonzero(num_sub(max, min)),
    ensures
        num_same(spec_lin_rel(min, max, spec_lin_abs(min, max, r)), r),
        ratden(spec_lin_abs(min, max, r)),
{
    match (min, max, r) {
        (
            Num::Fin { a0: ma0, a1: ma1, b0: mq, b1: _mb1 },
            Num::Fin { a0: xa0, a1: xa1, b0: xq, b1: _xb1 },
            Num::Fin { a0: rp, a1: _ra1, b0: rq, b1: _rb1 },
        ) => {
            let ma0i: int = ma0 as int;
            let ma1i: int = ma1 as int;
            let mqi: int = mq as int;
            let xa0i: int = xa0 as int;
            let xa1i: int = xa1 as int;
            let xqi: int = xq as int;
            let pi: int = rp as int;
            let qi: int = rq as int;
            assert(min == (Num::Fin { a0: ma0i as i64, a1: ma1i as i64, b0: mqi as i64, b1: 0 }));
            assert(max == (Num::Fin { a0: xa0i as i64, a1: xa1i as i64, b0: xqi as i64, b1: 0 }));
            assert(r == (Num::Fin { a0: pi as i64, a1: 0, b0: qi as i64, b1: 0 }));
            let s: Num = num_sub(max, min);
            lemma_sub_shape(max, min, xa0i, xa1i, xqi, ma0i, ma1i, mqi, 100);
            let s0: int = xa0i * mqi - ma0i * xqi;
            let s1: int = xa1i * mqi - ma1i * xqi;
            let sq2: int = xqi * mqi;
            assert(-20000 <= s0 <= 20000 && -20000 <= s1 <= 20000 && 0 < sq2 <= 20000 && fits(s0)
                && fits(s1) && fits(sq2)) by (nonlinear_arith)
                requires
                    s0 == xa0i * mqi - ma0i * xqi,
                    s1 == xa1i * mqi - ma1i * xqi,
                    sq2 == xqi * mqi,
                    -100 <= ma0i <= 100,
                    -100 <= ma1i <= 100,
                    0 < mqi <= 100,
                    -100 <= xa0i <= 100,
                    -100 <= xa1i <= 100,
                    0 < xqi <= 100,
            ;
            lemma_mf_ratden(s0, s1, sq2);
            assert(!(s0 == 0 && s1 == 0));
            assert(s == (Num::Fin { a0: s0 as i64, a1: s1 as i64, b0: sq2 as i64, b1: 0 }));
            assert(s.wf()) by {
                lemma_make_fin_wf(s0, s1, sq2, 0);
            }
            let t: Num = num_mul(r, s);
            lemma_mul_rat_shape(r, s, pi, qi, s0, s1, sq2, 20000);
            let t0: int = pi * s0;
            let t1: int = pi * s1;
            let tq: int = qi * sq2;
            assert(t == make_fin(t0, t1, tq, 0));
            assert(-2000000 <= t0 <= 2000000 && -2000000 <= t1 <= 2000000 && 0 < tq <= 2000000
                && fits(t0) && fits(t1) && fits(tq)) by (nonlinear_arith)
                requires
                    t0 == pi * s0,
                    t1 == pi * s1,
                    tq == qi * sq2,
                    -100 <= pi <= 100,
                    0 < qi <= 100,
                    -20000 <= s0 <= 20000,
                    -20000 <= s1 <= 20000,
                    0 < sq2 <= 20000,
            ;
            lemma_mf_ratden(t0, t1, tq);
            let ab: Num = num_add(min, t);
            assert(ab == spec_lin_abs(min, max, r));
            if t0 == 0 && t1 == 0 {
                // the product vanishes, so the position is zero and the
                // absolute value is min itself
                assert(t == num_zero());
                lemma_add_shape(min, t, ma0i, ma1i, mqi, 0, 0, 1, 100);
                assert(ma0i * 1 + 0 * mqi == ma0i && ma1i * 1 + 0 * mqi == ma1i && mqi * 1 == mqi)
                    by (nonlinear_arith);
                assert(ab == make_fin(ma0i, ma1i, mqi, 0));
                lemma_mf_ratden(ma0i, ma1i, mqi);
                assert(ab == min);
                lemma_sub_self(min);
                assert(num_sub(ab, min) == num_zero());
                assert(num_div(num_zero(), s) == num_zero());
                assert(pi == 0) by (nonlinear_arith)
                    requires
                        t0 == pi * s0,
                        t1 == pi * s1,
                        t0 == 0,
                        t1 == 0,
                        !(s0 == 0 && s1 == 0),
                ;
                assert(0 * qi == 0 && pi * 1 == pi) by (nonlinear_arith);
                lemma_rat_same(0, 1, pi, qi);
                assert(num_same(num_zero(), r));
            } else {
                assert(t == (Num::Fin { a0: t0 as i64, a1: t1 as i64, b0: tq as i64, b1: 0 }));
                assert(t.wf()) by {
                    lemma_make_fin_wf(t0, t1, tq, 0);
                }
                lemma_add_shape(min, t, ma0i, ma1i, mqi, t0, t1, tq, 2000000);
                let x0: int = ma0i * tq + t0 * mqi;
                let x1: int = ma1i * tq + t1 * mqi;
                let xqq: int = mqi * tq;
                assert(ab == make_fin(x0, x1, xqq, 0));
                assert(-400000000 <= x0 <= 400000000 && -400000000 <= x1 <= 400000000 && 0 < xqq
                    <= 400000000 && fits(x0) && fits(x1) && fits(xqq)) by (nonlinear_arith)
                    requires
                        x0 == ma0i * tq + t0 * mqi,
                        x1 == ma1i * tq + t1 * mqi,
                        xqq == mqi * tq,
                        -100 <= ma0i <= 100,
                        -100 <= ma1i <= 100,
                        0 < mqi <= 100,
                        -2000000 <= t0 <= 2000000,
                        -2000000 <= t1 <= 2000000,
                        0 < tq <= 2000000,
                ;
                lemma_mf_ratden(x0, x1, xqq);
                let d: Num = num_sub(ab, min);
                if x0 == 0 && x1 == 0 {
                    // the absolute value is the canonical zero
                    assert(ab == num_zero());
                    lemma_sub_shape(ab, min, 0, 0, 1, ma0i, ma1i, mqi, 100);
                    assert(0 * mqi - ma0i * 1 == -ma0i && 0 * mqi - ma1i * 1 == -ma1i && 1 * mqi
                        == mqi) by (nonlinear_arith);
                    assert(d == make_fin(-ma0i, -ma1i, mqi, 0));
                    if ma0i == 0 && ma1i == 0 {
                        assert(false) by (nonlinear_arith)
                            requires
                                x0 == ma0i * tq + t0 * mqi,
                                x1 == ma1i * tq + t1 * mqi,
                                x0 == 0,
                                x1 == 0,
                                ma0i == 0,
                                ma1i == 0,
                                mqi > 0,
                                !(t0 == 0 && t1 == 0),
                        ;
                    } else {
                        lemma_mf_ratden(-ma0i, -ma1i, mqi);
                        assert(d == (Num::Fin {
                            a0: (-ma0i) as i64,
                            a1: (-ma1i) as i64,
                            b0: mqi as i64,
                            b1: 0,
                        }));
                        assert(d.wf()) by {
                            lemma_make_fin_wf(-ma0i, -ma1i, mqi, 0);
                        }
                        assert((qi * sq2) * (-ma0i) == (pi * mqi) * s0 && (qi * sq2) * (-ma1i) == (
                        pi * mqi) * s1) by (nonlinear_arith)
                            requires
                                x0 == ma0i * tq + t0 * mqi,
                                x1 == ma1i * tq + t1 * mqi,
                                x0 == 0,
                                x1 == 0,
                                t0 == pi * s0,
                                t1 == pi * s1,
                                tq == qi * sq2,
                                mqi > 0,
                        ;
                        lemma_div_rat_result(
                            d,
                            s,
                            -ma0i,
                            -ma1i,
                            mqi,
                            s0,
                            s1,
                            sq2,
                            pi,
                            qi,
                            100,
                            20000,
                        );
                    }
                } else {
                    assert(ab == (Num::Fin { a0: x0 as i64, a1: x1 as i64, b0: xqq as i64, b1: 0 }));
                    assert(ab.wf()) by {
                        lemma_make_fin_wf(x0, x1, xqq, 0);
                    }
                    lemma_sub_shape(ab, min, x0, x1, xqq, ma0i, ma1i, mqi, 400000000);
                    let d0: int = x0 * mqi - ma0i * xqq;
                    let d1: int = x1 * mqi - ma1i * xqq;
                    let dq2: int = xqq * mqi;
                    assert(d == make_fin(d0, d1, dq2, 0));
                    assert(d0 == t0 * (mqi * mqi) && d1 == t1 * (mqi * mqi) && -40000000000 <= d0
                        <= 40000000000 && -40000000000 <= d1 <= 40000000000 && 0 < dq2
                        <= 40000000000 && fits(d0) && fits(d1) && fits(dq2)) by (nonlinear_arith)
                        requires
                            d0 == x0 * mqi - ma0i * xqq,
                            d1 == x1 * mqi - ma1i * xqq,
                            dq2 == xqq * mqi,
                            x0 == ma0i * tq + t0 * mqi,
                            x1 == ma1i * tq + t1 * mqi,
                            xqq == mqi * tq,
                            -100 <= ma0i <= 100,
                            -100 <= ma1i <= 100,
                            0 < mqi <= 100,
                            -2000000 <= t0 <= 2000000,
                            -2000000 <= t1 <= 2000000,
                            0 < tq <= 2000000,
                            -400000000 <= x0 <= 400000000,
                            -400000000 <= x1 <= 400000000,
                            0 < xqq <= 400000000,
                    ;
                    assert(!(d0 == 0 && d1 == 0)) by (nonlinear_arith)
                        requires
                            d0 == t0 * (mqi * mqi),
                            d1 == t1 * (mqi * mqi),
                            !(t0 == 0 && t1 == 0),
                            mqi != 0,
                    ;
                    lemma_mf_ratden(d0, d1, dq2);
                    assert(d == (Num::Fin { a0: d0 as i64, a1: d1 as i64, b0: dq2 as i64, b1: 0 }));
                    assert(d.wf()) by {
                        lemma_make_fin_wf(d0, d1, dq2, 0);
                    }
                    assert((qi * sq2) * d0 == (pi * dq2) * s0 && (qi * sq2) * d1 == (pi * dq2)
                        * s1) by (nonlinear_arith)
                        requires
                            d0 == t0 * (mqi * mqi),
                            d1 == t1 * (mqi * mqi),
                            dq2 == xqq * mqi,
                            xqq == mqi * tq,
                            tq == qi * sq2,
                            t0 == pi * s0,
                            t1 == pi * s1,
                    ;
                    lemma_div_rat_result(
                        d,
                        s,
                        d0,
                        d1,
                        dq2,
                        s0,
                        s1,
                        sq2,
                        pi,
                        qi,
                        40000000000,
                        20000,
                    );
                }
                assert(num_same(num_div(d, s), r));
            }
        },
        _ => {},
    }
}

/// Boundary exactness of the logarithmic strategy: the bounds themselves
/// map to relative zero and one exactly, and back.
pub proof fn lemma_log_boundary(min: Mag, max: Mag)
    requires
        min.wf(),
        max.wf(),
        min is Pos,
        max is Pos,
        modest(mag_log10(min)),
        modest(mag_log10(max)),
        nonzero(num_sub(mag_log10(max), mag_log10(min))),
    ensures
        spec_log_rel(min, max, min) == num_zero(),
        num_same(spec_log_rel(min, max, max), num_one()),
        spec_log_abs(min, max, num_zero()) == min,
        mag_same(spec_log_abs(min, max, num_one()), max),
{
    let lmin: Num = mag_log10(min);
    let lmax: Num = mag_log10(max);
    lemma_linear_boundary_low(lmin, lmax);
    lemma_linear_boundary_high(lmin, lmax);
    assert(mag_pow10(lmin) == min);
    let v: Num = spec_lin_abs(lmin, lmax, num_one());
    assert(v is Fin && mag_pow10(v) == Mag::Pos { exp: v });
    assert(mag_same(Mag::Pos { exp: v }, max));
}

/// Round trip through the logarithmic strategy: taking a rational relative
/// position to its absolute magnitude and back recovers it exactly.
pub proof fn lemma_log_roundtrip_rel(min: Mag, max: Mag, r: Num)
    requires
        min.wf(),
        max.wf(),
        min is Pos,
        max is Pos,
        modest(mag_log10(min)),
        modest(mag_log10(max)),
        r.wf(),
        r is Fin,
        rat(r),
        modest(r),
        nonzero(num_sub(mag_log10(max), mag_log10(min))),
    ensures
        num_same(spec_log_rel(min, max, spec_log_abs(min, max, r)), r),
{
    let lmin: Num = mag_log10(min);
    let lmax: Num = mag_log10(max);
    lemma_linear_roundtrip_rel(lmin, lmax, r);
    let ab: Num = spec_lin_abs(lmin, lmax, r);
    assert(mag_pow10(ab) == Mag::Pos { exp: ab });
    assert(mag_log10(mag_pow10(ab)) == ab);
}

/// The logarithmic strategy maps a zero magnitude to a signed infinite
/// relative position - negative infinity for bounds in increasing order -
/// never to `Nan` and never silently coerced or clamped, for every pair of
/// distinct positive bounds the constructors admit.
pub proof fn lemma_log_rel_of_zero(min: Mag, max: Mag)
    requires
        min is Pos,
        max is Pos,
        min.wf(),
        max.wf(),
        span_decided(min, max),
        nonzero(num_sub(mag_log10(max), mag_log10(min))),
    ensures
        spec_log_rel(min, max, Mag::Zero) == if fin_win_sign(
            num_sub(mag_log10(max), mag_log10(min)),
        ) == 1 {
            Num::NegInf
        } else {
            Num::PosInf
        },
        spec_log_rel(min, max, Mag::Zero) is NegInf || spec_log_rel(min, max, Mag::Zero) is PosInf,
{
    let s: Num = num_sub(mag_log10(max), mag_log10(min));
    assert(num_sub(Num::NegInf, mag_log10(min)) == Num::NegInf);
    assert(fin_win_sign(s) == 1 || fin_win_sign(s) == -1);
}

/// The logarithmic strategy maps a negative magnitude to `Nan`.
pub proof fn lemma_log_rel_of_negative(min: Mag, max: Mag, a: Mag)
    requires
        a is Neg,
    ensures
        spec_log_rel(min, max, a) == Num::Nan,
{
}

/// Multiplicative steps at the worked bounds 10 and 10240: stepping the
/// relative position by one tenth multiplies the absolute magnitude by
/// exactly two, at every position k/10 of the range - the ratio does not
/// depend on k.
pub proof fn lemma_log_tenth_step_doubles(k: int)
    requires
        0 <= k <= 9,
    ensures
        mag_same(
            mag_div(
                spec_log_abs(mag_from_int(10), mag_from_int(10240), make_fin(k + 1, 0, 10, 0)),
                spec_log_abs(mag_from_int(10), mag_from_int(10240), make_fin(k, 0, 10, 0)),
            ),
            mag_from_int(2),
        ),
{
    reveal_with_fuel(twos, 13);
    reveal_with_fuel(strip2, 13);
    reveal_with_fuel(fives, 3);
    reveal_with_fuel(strip5, 3);
    assert(mag_from_int(10) == Mag::Pos { exp: make_fin(1, 0, 1, 0) });
    assert(mag_from_int(10240) == Mag::Pos { exp: make_fin(1, 10, 1, 0) });
    assert(mag_from_int(2) == Mag::Pos { exp: make_fin(0, 1, 1, 0) });
    let lmin: Num = make_fin(1, 0, 1, 0);
    let lmax: Num = make_fin(1, 10, 1, 0);
    assert(lmin == (Num::Fin { a0: 1, a1: 0, b0: 1, b1: 0 }));
    assert(lmax == (Num::Fin { a0: 1, a1: 10, b0: 1, b1: 0 }));
    assert(lmin.wf() && lmax.wf()) by {
        lemma_make_fin_wf(1, 0, 1, 0);
        lemma_make_fin_wf(1, 10, 1, 0);
    }
    let s: Num = num_sub(lmax, lmin);
    lemma_sub_shape(lmax, lmin, 1, 10, 1, 1, 0, 1, 100);
    lemma_mf_ratden(0, 10, 1);
    assert(s == (Num::Fin { a0: 0, a1: 10, b0: 1, b1: 0 }));
    assert(s.wf()) by {
        lemma_make_fin_wf(0, 10, 1, 0);
    }
    // the interpolated log exponent at position j/10 is (10 + 10*j*L)/10,
    // for j at least one; at zero it is the lower bound itself
    let e1: Num = spec_lin_abs(lmin, lmax, make_fin(k + 1, 0, 10, 0));
    lemma_exp_at_tenth(k + 1);
    assert(e1 == (Num::Fin { a0: 10, a1: (10 * (k + 1)) as i64, b0: 10, b1: 0 }));
    if k == 0 {
        let e0: Num = spec_lin_abs(lmin, lmax, make_fin(0, 0, 10, 0));
        assert(make_fin(0, 0, 10, 0) == num_zero());
        assert(num_mul(num_zero(), s) == num_zero());
        assert(e0 == lmin);
        let d: Num = num_sub(e1, e0);
        assert(e1 == (Num::Fin { a0: 10, a1: 10, b0: 10, b1: 0 }));
        assert(e1.wf()) by {
            lemma_make_fin_wf(10, 10, 10, 0);
            assert(make_fin(10, 10, 10, 0) == e1) by {
                lemma_mf_ratden(10, 10, 10);
            }
        }
        lemma_sub_shape(e1, e0, 10, 10, 10, 1, 0, 1, 100);
        lemma_mf_ratden(0, 10, 10);
        assert(d == (Num::Fin { a0: 0, a1: 10, b0: 10, b1: 0 }));
        assert(10 * 1 == 1 * 10) by (nonlinear_arith);
        lemma_lam_same(10, 10, 1, 1);
        assert(num_same(d, Num::Fin { a0: 0, a1: 1, b0: 1, b1: 0 }));
    } else {
        let e0: Num = spec_lin_abs(lmin, lmax, make_fin(k, 0, 10, 0));
        lemma_exp_at_tenth(k);
        assert(e0 == (Num::Fin { a0: 10, a1: (10 * k) as i64, b0: 10, b1: 0 }));
        let j1: int = 10 * (k + 1);
        let j0: int = 10 * k;
        assert(0 < j1 <= 100 && 0 <= j0 <= 90 && ((j1 as i64) as int) == j1 && ((j0 as i64) as int)
            == j0) by (nonlinear_arith)
            requires
                j1 == 10 * (k + 1),
                j0 == 10 * k,
                1 <= k <= 9,
        ;
        assert(e1.wf() && e0.wf()) by {
            lemma_make_fin_wf(10, j1, 10, 0);
            lemma_make_fin_wf(10, j0, 10, 0);
            lemma_mf_ratden(10, j1, 10);
            lemma_mf_ratden(10, j0, 10);
        }
        let d: Num = num_sub(e1, e0);
        lemma_sub_shape(e1, e0, 10, j1, 10, 10, j0, 10, 100);
        assert(10 * 10 - 10 * 10 == 0 && j1 * 10 - j0 * 10 == 100 && 10 * 10 == 100)
            by (nonlinear_arith)
            requires
                j1 == 10 * (k + 1),
                j0 == 10 * k,
        ;
        lemma_mf_ratden(0, 100, 100);
        assert(d == (Num::Fin { a0: 0, a1: 100, b0: 100, b1: 0 }));
        assert(100 * 1 == 1 * 100) by (nonlinear_arith);
        lemma_lam_same(100, 100, 1, 1);
        assert(num_same(d, Num::Fin { a0: 0, a1: 1, b0: 1, b1: 0 }));
    }
}

/// The interpolated log exponent of the worked scale at position j/10, for
/// j at least one: (10 + 10*j*L)/10.
proof fn lemma_exp_at_tenth(j: int)
    requires
        1 <= j <= 10,
    ensures
        spec_lin_abs(
            make_fin(1, 0, 1, 0),
            make_fin(1, 10, 1, 0),
            make_fin(j, 0, 10, 0),
        ) == (Num::Fin { a0: 10, a1: (10 * j) as i64, b0: 10, b1: 0 }),
{
    let lmin: Num = make_fin(1, 0, 1, 0);
    let lmax: Num = make_fin(1, 10, 1, 0);
    assert(lmin == (Num::Fin { a0: 1, a1: 0, b0: 1, b1: 0 }));
    assert(lmax == (Num::Fin { a0: 1, a1: 10, b0: 1, b1: 0 }));
    assert(lmin.wf() && lmax.wf()) by {
        lemma_make_fin_wf(1, 0, 1, 0);
        lemma_make_fin_wf(1, 10, 1, 0);
    }
    let s: Num = num_sub(lmax, lmin);
    lemma_sub_shape(lmax, lmin, 1, 10, 1, 1, 0, 1, 100);
    lemma_mf_ratden(0, 10, 1);
    assert(s == (Num::Fin { a0: 0, a1: 10, b0: 1, b1: 0 }));
    assert(s.wf()) by {
        lemma_make_fin_wf(0, 10, 1, 0);
    }
    let r: Num = make_fin(j, 0, 10, 0);
    lemma_mf_ratden(j, 0, 10);
    assert(r == (Num::Fin { a0: j as i64, a1: 0, b0: 10, b1: 0 }));
    assert(r.wf()) by {
        lemma_make_fin_wf(j, 0, 10, 0);
    }
    let t: Num = num_mul(r, s);
    lemma_mul_rat_shape(r, s, j, 10, 0, 10, 1, 100);
    assert(j * 0 == 0 && 0 < j * 10 <= 100 && ((j * 10) as i64) as int == j * 10 && 10 * 1 == 10)
        by (nonlinear_arith)
        requires
            1 <= j <= 10,
    ;
    lemma_mf_ratden(j * 0, j * 10, 10);
    assert(t == (Num::Fin { a0: 0, a1: (j * 10) as i64, b0: 10, b1: 0 }));
    assert(t.wf()) by {
        lemma_make_fin_wf(j * 0, j * 10, 10, 0);
    }
    lemma_add_shape(lmin, t, 1, 0, 1, 0, j * 10, 10, 100);
    assert(1 * 10 + 0 * 1 == 10 && 0 * 10 + (j * 10) * 1 == 10 * j && 1 * 10 == 10)
        by (nonlinear_arith);
    lemma_mf_ratden(10, 10 * j, 10);
    assert(0 < 10 * j && ((10 * j) as i64) as int == 10 * j) by (nonlinear_arith)
        requires
            1 <= j <= 10,
    ;
    assert(num_add(lmin, t) == make_fin(10, 10 * j, 10, 0));
}

/// The clamped relative position of the linear strategy always lies in the
/// unit interval, whatever the bounds and the input.
pub proof fn lemma_lin_clamped_rel_in_unit(min: Num, max: Num, a: Num)
    ensures
        in_unit(num_clamp01(spec_lin_rel(min, max, a))),
{
    lemma_clamp01_in_unit(spec_lin_rel(min, max, a));
}

/// The clamped relative position of the logarithmic strategy always lies in
/// the unit interval, whatever the bounds and the input.
pub proof fn lemma_log_clamped_rel_in_unit(min: Mag, max: Mag, a: Mag)
    ensures
        in_unit(num_clamp01(spec_log_rel(min, max, a))),
{
    lemma_clamp01_in_unit(spec_log_rel(min, max, a));
}

} // verus!
