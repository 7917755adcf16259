//! Exact rational coordinates as canonical `i64` fractions.
//!
//! A well-formed `Frac` keeps its value in lowest terms with a positive
//! denominator, so two well-formed fractions are equal as rationals exactly
//! when they are equal field by field.  Arithmetic is exact: intermediate
//! products are taken in `i128` (where they cannot overflow), reduced by the
//! gcd, and handed back only if the reduced value fits `i64`; otherwise the
//! operation reports the overflow by returning `None`.

use vstd::prelude::*;
use crate::gcd::{
    gcd, abs_int, norm_num, norm_den, lemma_norm_props, lemma_norm_fixpoint, lemma_norm_zero,
    lemma_gcd_divides, lemma_gcd_pos, lemma_div_exact, lemma_divides_abs, lemma_reduced_unique,
    lemma_gcd_with_one,
};
use crate::rational::{Rat, proper, req, radd, rsub, rmul, rdiv, rzero, rone, rint};
use vstd::arithmetic::mul::lemma_mul_basics;

verus! {

/// An exact rational number: `num / den`, kept canonical (`den >= 1`,
/// `gcd(|num|, den) == 1`).
#[derive(Clone, Copy, Debug, PartialEq, Eq, Hash, Structural)]
pub struct Frac {
    num: i64,
    den: i64,
}

impl View for Frac {
    type V = Rat;

    closed spec fn view(&self) -> Rat {
        Rat { n: self.num as int, d: self.den as int }
    }
}

/// Reduction of `n / d` to a canonical `Frac`, `None` if the reduced value
/// does not fit the `i64` fraction range.
pub closed spec fn spec_reduce(n: int, d: int) -> Option<Frac> {
    let rn = norm_num(n, d);
    let rd = norm_den(n, d);
    if i64::MIN <= rn <= i64::MAX && rd <= i64::MAX {
        Some(Frac { num: rn as i64, den: rd as i64 })
    } else {
        None
    }
}

impl Frac {
    /// Canonical form: positive denominator, numerator and denominator coprime.
    pub closed spec fn wf(self) -> bool {
        &&& self.den >= 1
        &&& gcd(abs_int(self.num as int) as nat, self.den as nat) == 1
    }

    pub closed spec fn spec_zero() -> Frac {
        Frac { num: 0, den: 1 }
    }

    pub closed spec fn spec_one() -> Frac {
        Frac { num: 1, den: 1 }
    }

    pub closed spec fn spec_int(n: i64) -> Frac {
        Frac { num: n, den: 1 }
    }

    /// Exact addition: `spec_reduce` of the cross-multiplied sum.
    pub closed spec fn spec_add(a: Frac, b: Frac) -> Option<Frac> {
        spec_reduce(a@.n * b@.d + b@.n * a@.d, a@.d * b@.d)
    }

    /// Exact subtraction.
    pub closed spec fn spec_sub(a: Frac, b: Frac) -> Option<Frac> {
        spec_reduce(a@.n * b@.d - b@.n * a@.d, a@.d * b@.d)
    }

    /// Exact multiplication.
    pub closed spec fn spec_mul(a: Frac, b: Frac) -> Option<Frac> {
        spec_reduce(a@.n * b@.n, a@.d * b@.d)
    }

    /// Exact division (`None` exactly on a zero divisor or overflow).
    pub closed spec fn spec_div(a: Frac, b: Frac) -> Option<Frac> {
        if b@.n == 0 {
            None
        } else if b@.n > 0 {
            spec_reduce(a@.n * b@.d, a@.d * b@.n)
        } else {
            spec_reduce(-(a@.n * b@.d), a@.d * -b@.n)
        }
    }
}

/// Well-formed fractions with equal rational values are equal.
pub proof fn lemma_frac_canonical(a: Frac, b: Frac)
    requires
        a.wf(),
        b.wf(),
        req(a@, b@),
    ensures
        a == b,
{
    lemma_reduced_unique(a@.n, a@.d, b@.n, b@.d);
}

/// The canonical constants are well formed and carry the expected values.
pub proof fn lemma_frac_consts()
    ensures
        Frac::spec_zero().wf(),
        Frac::spec_zero()@ == rzero(),
        Frac::spec_one().wf(),
        Frac::spec_one()@ == rone(),
        Frac::spec_zero() != Frac::spec_one(),
{
    lemma_gcd_with_one(0);
    lemma_gcd_with_one(1);
}

/// Integer fractions are well formed and carry the integer value.
pub proof fn lemma_frac_int(n: i64)
    ensures
        Frac::spec_int(n).wf(),
        Frac::spec_int(n)@ == rint(n as int),
{
    lemma_gcd_with_one(abs_int(n as int) as nat);
}

/// What `spec_reduce` guarantees: a well-formed result carrying exactly the
/// rational value `n / d`.
pub proof fn lemma_spec_reduce_props(n: int, d: int)
    requires
        d >= 1,
    ensures
        spec_reduce(n, d) matches Some(f) ==> {
            &&& f.wf()
            &&& proper(f@)
            &&& req(f@, Rat { n: n, d: d })
        },
{
    lemma_norm_props(n, d);
}

/// Reducing an already canonical fraction returns it unchanged.
pub proof fn lemma_spec_reduce_fixpoint(f: Frac)
    requires
        f.wf(),
    ensures
        spec_reduce(f@.n, f@.d) == Some(f),
{
    lemma_norm_fixpoint(f@.n, f@.d);
}

/// Reducing `0 / d` yields the canonical zero.
pub proof fn lemma_spec_reduce_zero(d: int)
    requires
        d >= 1,
    ensures
        spec_reduce(0, d) == Some(Frac::spec_zero()),
{
    lemma_norm_zero(d);
}

/// A well-formed fraction is a proper rational with positive denominator.
pub proof fn lemma_wf_proper(a: Frac)
    requires
        a.wf(),
    ensures
        proper(a@),
        a@.d >= 1,
{
}

/// Semantics of the exact spec-level operations: a `Some` result is well
/// formed and rationally equal to the mathematical operation on the operands,
/// and the unit / zero / equal-operand cases are pinned exactly.
pub proof fn lemma_frac_ops(a: Frac, b: Frac)
    requires
        a.wf(),
        b.wf(),
    ensures
        Frac::spec_add(a, b) matches Some(f) ==> f.wf() && proper(f@) && req(f@, radd(a@, b@)),
        Frac::spec_sub(a, b) matches Some(f) ==> f.wf() && proper(f@) && req(f@, rsub(a@, b@)),
        Frac::spec_mul(a, b) matches Some(f) ==> f.wf() && proper(f@) && req(f@, rmul(a@, b@)),
        Frac::spec_div(a, b) matches Some(f) ==> f.wf() && proper(f@) && req(f@, rdiv(a@, b@)),
        b@.n == 0 ==> Frac::spec_div(a, b) is None,
        b == Frac::spec_zero() ==> Frac::spec_add(a, b) == Some(a),
        a == Frac::spec_zero() ==> Frac::spec_add(a, b) == Some(b),
        b == Frac::spec_zero() ==> Frac::spec_sub(a, b) == Some(a),
        a == b ==> Frac::spec_sub(a, b) == Some(Frac::spec_zero()),
        a == Frac::spec_one() ==> Frac::spec_mul(a, b) == Some(b),
        b == Frac::spec_one() ==> Frac::spec_mul(a, b) == Some(a),
        a == Frac::spec_zero() || b == Frac::spec_zero() ==> Frac::spec_mul(a, b) == Some(
            Frac::spec_zero(),
        ),
{
    lemma_wide_bounds(a, b);
    lemma_mul_basics(a@.n);
    lemma_mul_basics(a@.d);
    lemma_mul_basics(b@.n);
    lemma_mul_basics(b@.d);
    lemma_spec_reduce_props(a@.n * b@.d + b@.n * a@.d, a@.d * b@.d);
    lemma_spec_reduce_props(a@.n * b@.d - b@.n * a@.d, a@.d * b@.d);
    lemma_spec_reduce_props(a@.n * b@.n, a@.d * b@.d);
    lemma_spec_reduce_fixpoint(a);
    lemma_spec_reduce_fixpoint(b);
    lemma_spec_reduce_zero(a@.d * b@.d);
    if b@.n > 0 {
        assert(1 <= a@.d * b@.n) by (nonlinear_arith)
            requires
                1 <= a@.d,
                1 <= b@.n,
        ;
        lemma_spec_reduce_props(a@.n * b@.d, a@.d * b@.n);
    }
    if b@.n < 0 {
        assert(1 <= a@.d * -b@.n) by (nonlinear_arith)
            requires
                1 <= a@.d,
                1 <= -b@.n,
        ;
        lemma_spec_reduce_props(-(a@.n * b@.d), a@.d * -b@.n);
        match spec_reduce(-(a@.n * b@.d), a@.d * -b@.n) {
            Some(f) => {
                assert(f@.n * (a@.d * b@.n) == (a@.n * b@.d) * f@.d) by (nonlinear_arith)
                    requires
                        f@.n * (a@.d * -b@.n) == (-(a@.n * b@.d)) * f@.d,
                ;
            },
            None => {},
        }
    }
}

/// Euclid's algorithm, matching the specification `gcd` step for step.
fn gcd_u128(a: u128, b: u128) -> (g: u128)
    ensures
        g as nat == gcd(a as nat, b as nat),
    decreases a,
{
    if a == 0 {
        b
    } else {
        gcd_u128(b % a, a)
    }
}

/// Reduce `n / d` (with `d >= 1`) to a canonical fraction; `None` if the
/// reduced value leaves the `i64` range.
fn reduce(n: i128, d: i128) -> (r: Option<Frac>)
    requires
        d >= 1,
        n > i128::MIN,
    ensures
        r == spec_reduce(n as int, d as int),
{
    proof {
        lemma_norm_props(n as int, d as int);
        lemma_gcd_divides(abs_int(n as int) as nat, d as nat);
        lemma_gcd_pos(abs_int(n as int) as nat, d as nat);
    }
    let neg: bool = n < 0;
    let mag: u128 = if neg {
        (-n) as u128
    } else {
        n as u128
    };
    let g: u128 = gcd_u128(mag, d as u128);
    let ghost gi: int = g as int;
    proof {
        lemma_div_exact(abs_int(n as int), gi);
        lemma_div_exact(d as int, gi);
    }
    let qn: u128 = mag / g;
    let qd: u128 = (d as u128) / g;
    let ghost rn: int = norm_num(n as int, d as int);
    let ghost rd: int = norm_den(n as int, d as int);
    proof {
        // qn is |rn| and qd is rd.
        if n >= 0 {
            assert(qn as int == rn);
        } else {
            lemma_divides_abs(gi, n as int);
            lemma_div_exact(n as int, gi);
            assert(rn == -(qn as int)) by (nonlinear_arith)
                requires
                    gi >= 1,
                    n as int == gi * rn,
                    abs_int(n as int) == gi * (qn as int),
                    abs_int(n as int) == -(n as int),
            ;
        }
        assert(qd as int == rd);
    }
    if neg {
        if qn <= 9223372036854775808u128 && qd <= 9223372036854775807u128 {
            let num: i64 = (-(qn as i128)) as i64;
            let den: i64 = qd as i64;
            Some(Frac { num, den })
        } else {
            None
        }
    } else {
        if qn <= 9223372036854775807u128 && qd <= 9223372036854775807u128 {
            Some(Frac { num: qn as i64, den: qd as i64 })
        } else {
            None
        }
    }
}

/// Reduction of a sign-normalized `i64` fraction stays in range: the
/// reduced numerator keeps the sign of the input and shrinks in magnitude,
/// and the reduced denominator shrinks.
proof fn lemma_new_in_range(num: int, den: int)
    requires
        -0x8000_0000_0000_0000 <= num <= 0x7fff_ffff_ffff_ffff,
        -0x8000_0000_0000_0000 <= den <= 0x7fff_ffff_ffff_ffff,
        den != 0,
    ensures
        den > 0 ==> spec_reduce(num, den) is Some,
        num > -0x8000_0000_0000_0000 && den > -0x8000_0000_0000_0000 ==> spec_reduce(if den > 0 {
            num
        } else {
            -num
        }, if den > 0 {
            den
        } else {
            -den
        }) is Some,
{
    if den > 0 {
        lemma_norm_props(num, den);
        let g = gcd(abs_int(num) as nat, den as nat) as int;
        let rn = norm_num(num, den);
        assert((num < 0 ==> rn <= 0) && (num > 0 ==> rn >= 0)) by (nonlinear_arith)
            requires
                g >= 1,
                num == g * rn,
        ;
    } else {
        lemma_norm_props(-num, -den);
        let g = gcd(abs_int(-num) as nat, (-den) as nat) as int;
        let rn = norm_num(-num, -den);
        assert((-num < 0 ==> rn <= 0) && (-num > 0 ==> rn >= 0)) by (nonlinear_arith)
            requires
                g >= 1,
                -num == g * rn,
        ;
    }
}

impl Frac {
    /// The rational zero.
    pub fn zero() -> (r: Frac)
        ensures
            r == Frac::spec_zero(),
            r.wf(),
    {
        proof {
            lemma_gcd_with_one(0);
        }
        Frac { num: 0, den: 1 }
    }

    /// The rational one.
    pub fn one() -> (r: Frac)
        ensures
            r == Frac::spec_one(),
            r.wf(),
    {
        proof {
            lemma_gcd_with_one(1);
        }
        Frac { num: 1, den: 1 }
    }

    /// The integer `n` as an exact fraction.
    pub fn from_int(n: i64) -> (r: Frac)
        ensures
            r == Frac::spec_int(n),
            r.wf(),
            r@ == rint(n as int),
    {
        proof {
            lemma_gcd_with_one(abs_int(n as int) as nat);
        }
        Frac { num: n, den: 1 }
    }

    /// Build the exact fraction `num / den` in canonical form.
    /// Returns `None` when `den == 0`; the one other failure is the value
    /// `2^63` itself (`num == i64::MIN` with a negative `den`), which has no
    /// canonical `i64` form.
    pub fn new(num: i64, den: i64) -> (r: Option<Frac>)
        ensures
            den == 0 ==> r is None,
            den > 0 ==> r is Some,
            den != 0 && num != i64::MIN && den != i64::MIN ==> r is Some,
            r matches Some(f) ==> {
                &&& f.wf()
                &&& proper(f@)
                &&& req(f@, Rat { n: num as int, d: den as int })
            },
    {
        if den == 0 {
            None
        } else if den > 0 {
            proof {
                lemma_new_in_range(num as int, den as int);
            }
            let r = reduce(num as i128, den as i128);
            proof {
                lemma_spec_reduce_props(num as int, den as int);
            }
            r
        } else {
            proof {
                lemma_new_in_range(num as int, den as int);
            }
            let n: i128 = -(num as i128);
            let d: i128 = -(den as i128);
            let r = reduce(n, d);
            proof {
                lemma_spec_reduce_props(n as int, d as int);
                match r {
                    Some(f) => {
                        assert(f@.n * (den as int) == (num as int) * f@.d) by (nonlinear_arith)
                            requires
                                f@.n * (-(den as int)) == (-(num as int)) * f@.d,
                        ;
                    },
                    None => {},
                }
            }
            r
        }
    }

    /// The numerator of the canonical form.
    pub fn numerator(&self) -> (r: i64)
        ensures
            r as int == self@.n,
    {
        self.num
    }

    /// The denominator of the canonical form.
    pub fn denominator(&self) -> (r: i64)
        ensures
            r as int == self@.d,
    {
        self.den
    }

    /// Whether the value is exactly zero.
    pub fn is_zero(&self) -> (r: bool)
        ensures
            r == (self@.n == 0),
    {
        self.num == 0
    }

    /// Exact sum; `None` on `i64` fraction overflow.
    pub fn checked_add(self, other: Frac) -> (r: Option<Frac>)
        requires
            self.wf(),
            other.wf(),
        ensures
            r == Frac::spec_add(self, other),
            r matches Some(f) ==> f.wf() && proper(f@) && req(f@, radd(self@, other@)),
            other == Frac::spec_zero() ==> r == Some(self),
            self == Frac::spec_zero() ==> r == Some(other),
    {
        proof {
            lemma_wide_bounds(self, other);
        }
        let n: i128 = self.num as i128 * other.den as i128 + other.num as i128 * self.den as i128;
        let d: i128 = self.den as i128 * other.den as i128;
        proof {
            lemma_spec_reduce_props(n as int, d as int);
            lemma_mul_basics(self@.n);
            lemma_mul_basics(self@.d);
            lemma_mul_basics(other@.n);
            lemma_mul_basics(other@.d);
            if other == Frac::spec_zero() {
                assert(n as int == self@.n && d as int == self@.d);
                lemma_spec_reduce_fixpoint(self);
            }
            if self == Frac::spec_zero() {
                assert(n as int == other@.n && d as int == other@.d);
                lemma_spec_reduce_fixpoint(other);
            }
        }
        reduce(n, d)
    }

    /// Exact difference; `None` on `i64` fraction overflow.
    pub fn checked_sub(self, other: Frac) -> (r: Option<Frac>)
        requires
            self.wf(),
            other.wf(),
        ensures
            r == Frac::spec_sub(self, other),
            r matches Some(f) ==> f.wf() && proper(f@) && req(f@, rsub(self@, other@)),
            other == Frac::spec_zero() ==> r == Some(self),
            self == other ==> r == Some(Frac::spec_zero()),
    {
        proof {
            lemma_wide_bounds(self, other);
        }
        let n: i128 = self.num as i128 * other.den as i128 - other.num as i128 * self.den as i128;
        let d: i128 = self.den as i128 * other.den as i128;
        proof {
            lemma_spec_reduce_props(n as int, d as int);
            lemma_mul_basics(self@.n);
            lemma_mul_basics(self@.d);
            lemma_mul_basics(other@.n);
            lemma_mul_basics(other@.d);
            if other == Frac::spec_zero() {
                assert(n as int == self@.n && d as int == self@.d);
                lemma_spec_reduce_fixpoint(self);
            }
            if self == other {
                assert(n as int == 0);
                lemma_spec_reduce_zero(d as int);
            }
        }
        reduce(n, d)
    }

    /// Exact product; `None` on `i64` fraction overflow.
    pub fn checked_mul(self, other: Frac) -> (r: Option<Frac>)
        requires
            self.wf(),
            other.wf(),
        ensures
            r == Frac::spec_mul(self, other),
            r matches Some(f) ==> f.wf() && proper(f@) && req(f@, rmul(self@, other@)),
            self == Frac::spec_one() ==> r == Some(other),
            other == Frac::spec_one() ==> r == Some(self),
            self == Frac::spec_zero() || other == Frac::spec_zero() ==> r == Some(
                Frac::spec_zero(),
            ),
    {
        proof {
            lemma_wide_bounds(self, other);
        }
        let n: i128 = self.num as i128 * other.num as i128;
        let d: i128 = self.den as i128 * other.den as i128;
        proof {
            lemma_spec_reduce_props(n as int, d as int);
            lemma_mul_basics(self@.n);
            lemma_mul_basics(self@.d);
            lemma_mul_basics(other@.n);
            lemma_mul_basics(other@.d);
            if self == Frac::spec_one() {
                assert(n as int == other@.n && d as int == other@.d);
                lemma_spec_reduce_fixpoint(other);
            }
            if other == Frac::spec_one() {
                assert(n as int == self@.n && d as int == self@.d);
                lemma_spec_reduce_fixpoint(self);
            }
            if self == Frac::spec_zero() || other == Frac::spec_zero() {
                assert(n as int == 0);
                lemma_spec_reduce_zero(d as int);
            }
        }
        reduce(n, d)
    }

    /// Exact quotient; `None` on a zero divisor or `i64` fraction overflow.
    pub fn checked_div(self, other: Frac) -> (r: Option<Frac>)
        requires
            self.wf(),
            other.wf(),
        ensures
            r == Frac::spec_div(self, other),
            other@.n == 0 ==> r is None,
            r matches Some(f) ==> f.wf() && proper(f@) && req(f@, rdiv(self@, other@)),
    {
        if other.num == 0 {
            None
        } else if other.num > 0 {
            proof {
                lemma_wide_bounds(self, other);
                assert(1 <= (self.den as int) * (other.num as int)
                    <= 0x3fff_ffff_ffff_ffff_8000_0000_0000_0000int) by (nonlinear_arith)
                    requires
                        1 <= self.den as int <= 0x7fff_ffff_ffff_ffffint,
                        1 <= other.num as int <= 0x7fff_ffff_ffff_ffffint,
                ;
            }
            let n: i128 = self.num as i128 * other.den as i128;
            let d: i128 = self.den as i128 * other.num as i128;
            proof {
                lemma_spec_reduce_props(n as int, d as int);
            }
            reduce(n, d)
        } else {
            proof {
                lemma_wide_bounds(self, other);
                assert(1 <= (self.den as int) * (-(other.num as int))
                    <= 0x4000_0000_0000_0000_0000_0000_0000_0000int) by (nonlinear_arith)
                    requires
                        1 <= self.den as int <= 0x7fff_ffff_ffff_ffffint,
                        1 <= -(other.num as int) <= 0x8000_0000_0000_0000int,
                ;
            }
            let n: i128 = -(self.num as i128 * other.den as i128);
            let d: i128 = self.den as i128 * (-(other.num as i128));
            proof {
                lemma_spec_reduce_props(n as int, d as int);
                match spec_reduce(n as int, d as int) {
                    Some(f) => {
                        assert(f@.n * (self@.d * other@.n) == (self@.n * other@.d) * f@.d)
                            by (nonlinear_arith)
                            requires
                                f@.n * (d as int) == (n as int) * f@.d,
                                n as int == -(self@.n * other@.d),
                                d as int == self@.d * -other@.n,
                        ;
                    },
                    None => {},
                }
            }
            reduce(n, d)
        }
    }

    /// Exact strict comparison of rational values.
    pub fn lt(&self, other: &Frac) -> (r: bool)
        requires
            self.wf(),
            other.wf(),
        ensures
            r == (self@.n * other@.d < other@.n * self@.d),
    {
        proof {
            lemma_wide_bounds(*self, *other);
        }
        (self.num as i128) * (other.den as i128) < (other.num as i128) * (self.den as i128)
    }

    /// Exact non-strict comparison of rational values.
    pub fn le(&self, other: &Frac) -> (r: bool)
        requires
            self.wf(),
            other.wf(),
        ensures
            r == (self@.n * other@.d <= other@.n * self@.d),
    {
        proof {
            lemma_wide_bounds(*self, *other);
        }
        (self.num as i128) * (other.den as i128) <= (other.num as i128) * (self.den as i128)
    }
}

/// Products of an `i64` numerator and a positive `i64` denominator stay well
/// inside `i128`.
proof fn lemma_wide_bounds(a: Frac, b: Frac)
    requires
        a.wf(),
        b.wf(),
    ensures
        -0x3fff_ffff_ffff_ffff_8000_0000_0000_0000int <= (a.num as int) * (b.den as int)
            <= 0x3fff_ffff_ffff_ffff_8000_0000_0000_0000int,
        -0x3fff_ffff_ffff_ffff_8000_0000_0000_0000int <= (b.num as int) * (a.den as int)
            <= 0x3fff_ffff_ffff_ffff_8000_0000_0000_0000int,
        -0x4000_0000_0000_0000_0000_0000_0000_0000int <= (a.num as int) * (b.num as int)
            <= 0x4000_0000_0000_0000_0000_0000_0000_0000int,
        1 <= (a.den as int) * (b.den as int) <= 0x3fff_ffff_ffff_ffff_8000_0000_0000_0000int,
{
    assert(-0x3fff_ffff_ffff_ffff_8000_0000_0000_0000int <= (a.num as int) * (b.den as int)
        <= 0x3fff_ffff_ffff_ffff_8000_0000_0000_0000int) by (nonlinear_arith)
        requires
            -0x8000_0000_0000_0000int <= a.num as int <= 0x7fff_ffff_ffff_ffffint,
            1 <= b.den as int <= 0x7fff_ffff_ffff_ffffint,
    ;
    assert(-0x3fff_ffff_ffff_ffff_8000_0000_0000_0000int <= (b.num as int) * (a.den as int)
        <= 0x3fff_ffff_ffff_ffff_8000_0000_0000_0000int) by (nonlinear_arith)
        requires
            -0x8000_0000_0000_0000int <= b.num as int <= 0x7fff_ffff_ffff_ffffint,
            1 <= a.den as int <= 0x7fff_ffff_ffff_ffffint,
    ;
    assert(-0x4000_0000_0000_0000_0000_0000_0000_0000int <= (a.num as int) * (b.num as int)
        <= 0x4000_0000_0000_0000_0000_0000_0000_0000int) by (nonlinear_arith)
        requires
            -0x8000_0000_0000_0000int <= a.num as int <= 0x7fff_ffff_ffff_ffffint,
            -0x8000_0000_0000_0000int <= b.num as int <= 0x7fff_ffff_ffff_ffffint,
    ;
    assert(1 <= (a.den as int) * (b.den as int)
        <= 0x3fff_ffff_ffff_ffff_8000_0000_0000_0000int) by (nonlinear_arith)
        requires
            1 <= a.den as int <= 0x7fff_ffff_ffff_ffffint,
            1 <= b.den as int <= 0x7fff_ffff_ffff_ffffint,
    ;
}

} // verus!
