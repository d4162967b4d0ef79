//! The absolute-domain magnitude type for the logarithmic strategy.
//!
//! A nonzero finite magnitude is represented through its exact base-10
//! logarithm: `Pos { exp }` denotes 10^exp and `Neg { exp }` denotes
//! -(10^exp), where `exp` is a finite `Num` with a rational denominator, that
//! is a value x + y*log10(2).  Such magnitudes are exactly the numbers of the
//! form 2^u * 5^v with rational u and v — in particular every product of
//! integer powers of 2 and 5 — and on them log10 and its inverse are exact.
//! Zero, the infinities and a not-a-number value complete the type, so the
//! edge semantics of the scale (log of zero, log of a negative value) can
//! propagate as in floating-point arithmetic.

use vstd::prelude::*;

verus! {

use crate::num::{
    Num,
    make_fin,
    num_same,
    num_sub,
    fits,
};

#[derive(Clone, Copy, Debug, PartialEq, Eq, Structural)]
pub enum Mag {
    Nan,
    PosInf,
    NegInf,
    Zero,
    Pos { exp: Num },
    Neg { exp: Num },
}

/// A valid stored logarithm: finite, well formed, rational denominator.
pub open spec fn log_exp_ok(e: Num) -> bool {
    &&& e.wf()
    &&& match e {
        Num::Fin { a0, a1, b0, b1 } => b1 == 0,
        _ => false,
    }
}

impl Mag {
    pub open spec fn wf(self) -> bool {
        match self {
            Mag::Pos { exp } => log_exp_ok(exp),
            Mag::Neg { exp } => log_exp_ok(exp),
            _ => true,
        }
    }
}

/// The exact base-10 logarithm: log10 of zero is negative infinity, log10 of
/// a negative or not-a-number magnitude is not a number.
pub open spec fn mag_log10(m: Mag) -> Num {
    match m {
        Mag::Nan => Num::Nan,
        Mag::PosInf => Num::PosInf,
        Mag::NegInf => Num::Nan,
        Mag::Zero => Num::NegInf,
        Mag::Pos { exp } => exp,
        Mag::Neg { exp: _ } => Num::Nan,
    }
}

/// The exact power 10^x: ten to negative infinity is zero, ten to positive
/// infinity is infinite.  An exponent with an irrational denominator has no
/// representable power and gives `Nan`.
pub open spec fn mag_pow10(x: Num) -> Mag {
    match x {
        Num::Nan => Mag::Nan,
        Num::PosInf => Mag::PosInf,
        Num::NegInf => Mag::Zero,
        Num::Fin { a0, a1, b0, b1 } => {
            if b1 == 0 {
                Mag::Pos { exp: x }
            } else {
                Mag::Nan
            }
        },
    }
}

/// Exact value equality of two magnitudes (`Nan` equals `Nan`).
pub open spec fn mag_same(x: Mag, y: Mag) -> bool {
    match (x, y) {
        (Mag::Nan, Mag::Nan) => true,
        (Mag::PosInf, Mag::PosInf) => true,
        (Mag::NegInf, Mag::NegInf) => true,
        (Mag::Zero, Mag::Zero) => true,
        (Mag::Pos { exp: e }, Mag::Pos { exp: f }) => num_same(e, f),
        (Mag::Neg { exp: e }, Mag::Neg { exp: f }) => num_same(e, f),
        _ => false,
    }
}

/// A signed magnitude from a computed logarithm, `Nan` when the exponent
/// left the representable range.
pub open spec fn exp_mag(positive: bool, e: Num) -> Mag {
    match e {
        Num::Fin { a0, a1, b0, b1 } => {
            if b1 == 0 {
                if positive {
                    Mag::Pos { exp: e }
                } else {
                    Mag::Neg { exp: e }
                }
            } else {
                Mag::Nan
            }
        },
        _ => Mag::Nan,
    }
}

/// The ratio of two magnitudes: exponents subtract; zero and the infinities
/// follow the floating-point tables, a zero divisor keeping the dividend's
/// sign.
pub open spec fn mag_div(x: Mag, y: Mag) -> Mag {
    match (x, y) {
        (Mag::Nan, _) => Mag::Nan,
        (_, Mag::Nan) => Mag::Nan,
        (Mag::PosInf, Mag::PosInf) => Mag::Nan,
        (Mag::PosInf, Mag::NegInf) => Mag::Nan,
        (Mag::NegInf, Mag::PosInf) => Mag::Nan,
        (Mag::NegInf, Mag::NegInf) => Mag::Nan,
        (Mag::PosInf, Mag::Zero) => Mag::PosInf,
        (Mag::NegInf, Mag::Zero) => Mag::NegInf,
        (Mag::PosInf, Mag::Pos { .. }) => Mag::PosInf,
        (Mag::PosInf, Mag::Neg { .. }) => Mag::NegInf,
        (Mag::NegInf, Mag::Pos { .. }) => Mag::NegInf,
        (Mag::NegInf, Mag::Neg { .. }) => Mag::PosInf,
        (Mag::Zero, Mag::Zero) => Mag::Nan,
        (Mag::Zero, _) => Mag::Zero,
        (_, Mag::PosInf) => Mag::Zero,
        (_, Mag::NegInf) => Mag::Zero,
        (Mag::Pos { .. }, Mag::Zero) => Mag::PosInf,
        (Mag::Neg { .. }, Mag::Zero) => Mag::NegInf,
        (Mag::Pos { exp: e }, Mag::Pos { exp: f }) => exp_mag(true, num_sub(e, f)),
        (Mag::Pos { exp: e }, Mag::Neg { exp: f }) => exp_mag(false, num_sub(e, f)),
        (Mag::Neg { exp: e }, Mag::Pos { exp: f }) => exp_mag(false, num_sub(e, f)),
        (Mag::Neg { exp: e }, Mag::Neg { exp: f }) => exp_mag(true, num_sub(e, f)),
    }
}

/// Multiplicity of the factor 2 in n.
pub open spec fn twos(n: nat) -> nat
    decreases n,
{
    if n > 0 && n % 2 == 0 {
        1 + twos(n / 2)
    } else {
        0
    }
}

/// n with all factors 2 removed.
pub open spec fn strip2(n: nat) -> nat
    decreases n,
{
    if n > 0 && n % 2 == 0 {
        strip2(n / 2)
    } else {
        n
    }
}

/// Multiplicity of the factor 5 in n.
pub open spec fn fives(n: nat) -> nat
    decreases n,
{
    if n > 0 && n % 5 == 0 {
        1 + fives(n / 5)
    } else {
        0
    }
}

/// n with all factors 5 removed.
pub open spec fn strip5(n: nat) -> nat
    decreases n,
{
    if n > 0 && n % 5 == 0 {
        strip5(n / 5)
    } else {
        n
    }
}

/// The magnitude of a positive integer n = 2^a * 5^b * m with m coprime to
/// 10: representable exactly when m is 1, with logarithm
/// b + (a - b)*log10(2), since 2^a * 5^b = 10^b * 2^(a-b).
pub open spec fn mag_from_nat_pos(n: nat) -> Mag {
    let a: nat = twos(n);
    let m: nat = strip2(n);
    let b: nat = fives(m);
    let m2: nat = strip5(m);
    if m2 == 1 {
        Mag::Pos { exp: make_fin(b as int, a as int - b as int, 1, 0) }
    } else {
        Mag::Nan
    }
}

/// Flip the sign of a magnitude.
pub open spec fn mag_negate(m: Mag) -> Mag {
    match m {
        Mag::Nan => Mag::Nan,
        Mag::PosInf => Mag::NegInf,
        Mag::NegInf => Mag::PosInf,
        Mag::Zero => Mag::Zero,
        Mag::Pos { exp } => Mag::Neg { exp },
        Mag::Neg { exp } => Mag::Pos { exp },
    }
}

/// The magnitude of an integer.
pub open spec fn mag_from_int(n: int) -> Mag {
    if n == 0 {
        Mag::Zero
    } else if n > 0 {
        mag_from_nat_pos(n as nat)
    } else {
        mag_negate(mag_from_nat_pos((-n) as nat))
    }
}

proof fn lemma_twos_bound(n: nat)
    ensures
        twos(n) <= n / 2,
        twos(n) <= 1 + n / 4,
        strip2(n) <= n,
        1 <= n ==> 1 <= strip2(n) && strip2(n) % 2 == 1,
    decreases n,
{
    if n > 0 && n % 2 == 0 {
        lemma_twos_bound(n / 2);
    }
}

proof fn lemma_fives_bound(n: nat)
    ensures
        fives(n) <= n / 2,
        strip5(n) <= n,
        1 <= n ==> 1 <= strip5(n),
    decreases n,
{
    if n > 0 && n % 5 == 0 {
        lemma_fives_bound(n / 5);
    }
}

/// Strip all factors 2 from n, returning the multiplicity and the rest.
fn strip2_exec(n: u64) -> (r: (u64, u64))
    requires
        1 <= n,
    ensures
        r.0 as nat == twos(n as nat),
        r.1 as nat == strip2(n as nat),
        1 <= r.1,
{
    let mut m: u64 = n;
    let mut a: u64 = 0;
    proof {
        lemma_twos_bound(n as nat);
    }
    while m % 2 == 0
        invariant
            1 <= m,
            a as nat + twos(m as nat) == twos(n as nat),
            strip2(m as nat) == strip2(n as nat),
            twos(n as nat) <= n as nat / 2,
        decreases m,
    {
        m = m / 2;
        a = a + 1;
    }
    proof {
        lemma_twos_bound(m as nat);
    }
    (a, m)
}

/// Strip all factors 5 from n, returning the multiplicity and the rest.
fn strip5_exec(n: u64) -> (r: (u64, u64))
    requires
        1 <= n,
    ensures
        r.0 as nat == fives(n as nat),
        r.1 as nat == strip5(n as nat),
        1 <= r.1,
{
    let mut m: u64 = n;
    let mut b: u64 = 0;
    proof {
        lemma_fives_bound(n as nat);
    }
    while m % 5 == 0
        invariant
            1 <= m,
            b as nat + fives(m as nat) == fives(n as nat),
            strip5(m as nat) == strip5(n as nat),
            fives(n as nat) <= n as nat / 2,
        decreases m,
    {
        m = m / 5;
        b = b + 1;
    }
    proof {
        lemma_fives_bound(m as nat);
    }
    (b, m)
}

impl Mag {
    /// The magnitude of the integer n: exact when n factors as a product of
    /// powers of 2 and 5 (times a sign), `Nan` otherwise.
    pub fn from_int(n: i64) -> (r: Mag)
        ensures
            r == mag_from_int(n as int),
            r.wf(),
    {
        if n == 0 {
            Mag::Zero
        } else {
            let mag: u64 = if n > 0 {
                n as u64
            } else {
                (-(n as i128)) as u64
            };
            let (a, m): (u64, u64) = strip2_exec(mag);
            let (b, m2): (u64, u64) = strip5_exec(m);
            if m2 == 1 {
                proof {
                    lemma_twos_bound(mag as nat);
                    lemma_fives_bound(m as nat);
                }
                let e: Num = Num::moebius(b as i64, (a as i64) - (b as i64), 1, 0);
                proof {
                    assert(fits(b as int) && fits(a as int - b as int));
                }
                if n > 0 {
                    Mag::Pos { exp: e }
                } else {
                    Mag::Neg { exp: e }
                }
            } else {
                Mag::Nan
            }
        }
    }

    /// The exact ratio p / q of two integer magnitudes.
    pub fn ratio(p: i64, q: i64) -> (r: Mag)
        ensures
            r == mag_div(mag_from_int(p as int), mag_from_int(q as int)),
            r.wf(),
    {
        Mag::from_int(p).div(Mag::from_int(q))
    }

    /// The exact base-10 logarithm.
    pub fn log10(self) -> (r: Num)
        requires
            self.wf(),
        ensures
            r == mag_log10(self),
            r.wf(),
    {
        match self {
            Mag::Nan => Num::Nan,
            Mag::PosInf => Num::PosInf,
            Mag::NegInf => Num::Nan,
            Mag::Zero => Num::NegInf,
            Mag::Pos { exp } => exp,
            Mag::Neg { exp: _ } => Num::Nan,
        }
    }

    /// The exact power 10^x.
    pub fn pow10(x: Num) -> (r: Mag)
        requires
            x.wf(),
        ensures
            r == mag_pow10(x),
            r.wf(),
    {
        match x {
            Num::Nan => Mag::Nan,
            Num::PosInf => Mag::PosInf,
            Num::NegInf => Mag::Zero,
            Num::Fin { a0, a1, b0, b1 } => {
                if b1 == 0 {
                    Mag::Pos { exp: x }
                } else {
                    Mag::Nan
                }
            },
        }
    }

    /// The ratio of two magnitudes.
    pub fn div(self, other: Mag) -> (r: Mag)
        requires
            self.wf(),
            other.wf(),
        ensures
            r == mag_div(self, other),
            r.wf(),
    {
        match (self, other) {
            (Mag::Nan, _) => Mag::Nan,
            (_, Mag::Nan) => Mag::Nan,
            (Mag::PosInf, Mag::PosInf) => Mag::Nan,
            (Mag::PosInf, Mag::NegInf) => Mag::Nan,
            (Mag::NegInf, Mag::PosInf) => Mag::Nan,
            (Mag::NegInf, Mag::NegInf) => Mag::Nan,
            (Mag::PosInf, Mag::Zero) => Mag::PosInf,
            (Mag::NegInf, Mag::Zero) => Mag::NegInf,
            (Mag::PosInf, Mag::Pos { .. }) => Mag::PosInf,
            (Mag::PosInf, Mag::Neg { .. }) => Mag::NegInf,
            (Mag::NegInf, Mag::Pos { .. }) => Mag::NegInf,
            (Mag::NegInf, Mag::Neg { .. }) => Mag::PosInf,
            (Mag::Zero, Mag::Zero) => Mag::Nan,
            (Mag::Zero, _) => Mag::Zero,
            (_, Mag::PosInf) => Mag::Zero,
            (_, Mag::NegInf) => Mag::Zero,
            (Mag::Pos { .. }, Mag::Zero) => Mag::PosInf,
            (Mag::Neg { .. }, Mag::Zero) => Mag::NegInf,
            (Mag::Pos { exp: e }, Mag::Pos { exp: f }) => Mag::signed_exp(true, e.sub(f)),
            (Mag::Pos { exp: e }, Mag::Neg { exp: f }) => Mag::signed_exp(false, e.sub(f)),
            (Mag::Neg { exp: e }, Mag::Pos { exp: f }) => Mag::signed_exp(false, e.sub(f)),
            (Mag::Neg { exp: e }, Mag::Neg { exp: f }) => Mag::signed_exp(true, e.sub(f)),
        }
    }

    /// Exec counterpart of `exp_mag`.
    fn signed_exp(positive: bool, e: Num) -> (r: Mag)
        requires
            e.wf(),
        ensures
            r == exp_mag(positive, e),
            r.wf(),
    {
        match e {
            Num::Fin { a0, a1, b0, b1 } => {
                if b1 == 0 {
                    if positive {
                        Mag::Pos { exp: e }
                    } else {
                        Mag::Neg { exp: e }
                    }
                } else {
                    Mag::Nan
                }
            },
            _ => Mag::Nan,
        }
    }

    /// Exact value equality of two magnitudes (`Nan` equals `Nan`).
    pub fn same_value(&self, other: &Mag) -> (r: bool)
        requires
            self.wf(),
            other.wf(),
        ensures
            r == mag_same(*self, *other),
    {
        match (self, other) {
            (Mag::Nan, Mag::Nan) => true,
            (Mag::PosInf, Mag::PosInf) => true,
            (Mag::NegInf, Mag::NegInf) => true,
            (Mag::Zero, Mag::Zero) => true,
            (Mag::Pos { exp: e }, Mag::Pos { exp: f }) => e.same_value(f),
            (Mag::Neg { exp: e }, Mag::Neg { exp: f }) => e.same_value(f),
            _ => false,
        }
    }

    pub fn is_nan(&self) -> (r: bool)
        ensures
            r == (*self is Nan),
    {
        match self {
            Mag::Nan => true,
            _ => false,
        }
    }

    pub fn is_zero(&self) -> (r: bool)
        ensures
            r == (*self is Zero),
    {
        match self {
            Mag::Zero => true,
            _ => false,
        }
    }
}

} // verus!
