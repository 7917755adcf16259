//! Divisibility, greatest common divisors, and canonical reduction of
//! integer fractions.  The fraction type keeps every value in lowest terms
//! with a positive denominator; the lemmas here justify that the reduction
//! is sound (it preserves the rational value) and canonical (equal rational
//! values have equal representations).

use vstd::prelude::*;
use vstd::arithmetic::div_mod::{
    lemma_fundamental_div_mod, lemma_fundamental_div_mod_converse, lemma_mod_multiples_basic,
    lemma_div_basics, lemma_div_by_self,
};
use vstd::arithmetic::mul::lemma_mul_is_commutative;

verus! {

/// `d` divides `n`.
pub open spec fn divides(d: int, n: int) -> bool {
    exists|k: int| n == #[trigger] (d * k)
}

/// Greatest common divisor by Euclid's recursion; `gcd(0, b) == b`.
pub open spec fn gcd(a: nat, b: nat) -> nat
    decreases a,
{
    if a == 0 {
        b
    } else {
        gcd(b % a, a)
    }
}

/// Absolute value of an integer.
pub open spec fn abs_int(x: int) -> int {
    if x >= 0 {
        x
    } else {
        -x
    }
}

/// The gcd divides both of its arguments.
pub proof fn lemma_gcd_divides(a: nat, b: nat)
    ensures
        divides(gcd(a, b) as int, a as int),
        divides(gcd(a, b) as int, b as int),
    decreases a,
{
    if a == 0 {
        assert(a as int == (gcd(a, b) as int) * 0);
        assert(b as int == (gcd(a, b) as int) * 1);
    } else {
        lemma_gcd_divides(b % a, a);
        let g: int = gcd(b % a, a) as int;
        let k1: int = choose|k: int| a as int == #[trigger] (g * k);
        let k2: int = choose|k: int| (b % a) as int == #[trigger] (g * k);
        lemma_fundamental_div_mod(b as int, a as int);
        let q: int = (b as int) / (a as int);
        assert(b as int == g * (k1 * q + k2)) by (nonlinear_arith)
            requires
                a as int == g * k1,
                (b % a) as int == g * k2,
                b as int == (a as int) * q + (b % a) as int,
        ;
    }
}

/// A gcd is positive as soon as one argument is.
pub proof fn lemma_gcd_pos(a: nat, b: nat)
    requires
        a > 0 || b > 0,
    ensures
        gcd(a, b) >= 1,
{
    lemma_gcd_divides(a, b);
    if gcd(a, b) == 0 {
        let ka: int = choose|k: int| a as int == #[trigger] (0int * k);
        let kb: int = choose|k: int| b as int == #[trigger] (0int * k);
        assert(a as int == 0) by (nonlinear_arith)
            requires
                a as int == 0int * ka,
        ;
        assert(b as int == 0) by (nonlinear_arith)
            requires
                b as int == 0int * kb,
        ;
    }
}

/// Any common divisor of `a` and `b` divides their gcd.
pub proof fn lemma_common_divides_gcd(a: nat, b: nat, e: int)
    requires
        divides(e, a as int),
        divides(e, b as int),
    ensures
        divides(e, gcd(a, b) as int),
    decreases a,
{
    if a == 0 {
    } else {
        let ka: int = choose|k: int| a as int == #[trigger] (e * k);
        let kb: int = choose|k: int| b as int == #[trigger] (e * k);
        lemma_fundamental_div_mod(b as int, a as int);
        let q: int = (b as int) / (a as int);
        assert((b % a) as int == e * (kb - ka * q)) by (nonlinear_arith)
            requires
                a as int == e * ka,
                b as int == e * kb,
                (b % a) as int == b as int - (a as int) * q,
        ;
        lemma_common_divides_gcd(b % a, a, e);
    }
}

/// Scaling both arguments scales the remainder: `(k*b) % (k*a) == k*(b%a)`.
proof fn lemma_mod_scale(k: nat, a: nat, b: nat)
    requires
        k > 0,
        a > 0,
    ensures
        (k * b) % (k * a) == k * (b % a),
{
    lemma_fundamental_div_mod(b as int, a as int);
    let q: int = (b as int) / (a as int);
    let r: int = (b % a) as int;
    assert((k * b) as int == q * ((k * a) as int) + (k as int) * r
        && 0 <= (k as int) * r < (k * a) as int) by (nonlinear_arith)
        requires
            k > 0,
            a > 0,
            b as int == (a as int) * q + r,
            0 <= r < a as int,
    ;
    lemma_fundamental_div_mod_converse(
        (k * b) as int,
        (k * a) as int,
        q,
        (k as int) * r,
    );
}

/// Scaling both arguments scales the gcd: `gcd(k*a, k*b) == k * gcd(a, b)`.
pub proof fn lemma_gcd_scale(k: nat, a: nat, b: nat)
    requires
        k > 0,
    ensures
        gcd(k * a, k * b) == k * gcd(a, b),
    decreases a,
{
    if a == 0 {
        assert(k * a == 0) by (nonlinear_arith)
            requires
                a == 0,
        ;
    } else {
        assert(k * a > 0) by (nonlinear_arith)
            requires
                k > 0,
                a > 0,
        ;
        lemma_mod_scale(k, a, b);
        lemma_gcd_scale(k, b % a, a);
        assert(gcd(k * a, k * b) == gcd((k * b) % (k * a), k * a));
    }
}

/// Exact division: if `g` divides `n` then `n == g * (n / g)` and `n % g == 0`.
pub proof fn lemma_div_exact(n: int, g: int)
    requires
        g > 0,
        divides(g, n),
    ensures
        n % g == 0,
        n == g * (n / g),
{
    let k: int = choose|j: int| n == #[trigger] (g * j);
    lemma_mul_is_commutative(g, k);
    lemma_mod_multiples_basic(k, g);
    lemma_fundamental_div_mod(n, g);
}

/// Dividing both arguments by their gcd leaves coprime values.
pub proof fn lemma_gcd_reduce_coprime(a: nat, b: nat)
    requires
        a > 0 || b > 0,
    ensures
        ({
            let g = gcd(a, b);
            &&& g >= 1
            &&& a as int == (g as int) * ((a as int) / (g as int))
            &&& b as int == (g as int) * ((b as int) / (g as int))
            &&& gcd(((a as int) / (g as int)) as nat, ((b as int) / (g as int)) as nat) == 1
        }),
{
    lemma_gcd_pos(a, b);
    lemma_gcd_divides(a, b);
    let g: int = gcd(a, b) as int;
    lemma_div_exact(a as int, g);
    lemma_div_exact(b as int, g);
    let a1: int = (a as int) / g;
    let b1: int = (b as int) / g;
    assert(a1 >= 0 && b1 >= 0) by (nonlinear_arith)
        requires
            g >= 1,
            a as int == g * a1,
            b as int == g * b1,
            a as int >= 0,
            b as int >= 0,
    ;
    lemma_gcd_scale(g as nat, a1 as nat, b1 as nat);
    assert((g as nat) * (a1 as nat) == a && (g as nat) * (b1 as nat) == b);
    assert(gcd(a, b) == (g as nat) * gcd(a1 as nat, b1 as nat));
    assert(gcd(a1 as nat, b1 as nat) == 1) by (nonlinear_arith)
        requires
            g >= 1,
            g as nat == (g as nat) * gcd(a1 as nat, b1 as nat),
    ;
}

/// Euclid's lemma: if `b` is coprime to `a` and divides `a * c`, it divides `c`.
pub proof fn lemma_coprime_divides(a: nat, b: nat, c: nat)
    requires
        gcd(a, b) == 1,
        b > 0,
        divides(b as int, (a * c) as int),
    ensures
        divides(b as int, c as int),
{
    if c == 0 {
        assert(c as int == (b as int) * 0);
    } else {
        lemma_gcd_scale(c, a, b);
        assert(gcd(c * a, c * b) == c * 1);
        assert(divides(b as int, (c * a) as int)) by {
            let k: int = choose|k: int| (a * c) as int == #[trigger] ((b as int) * k);
            assert((c * a) as int == (b as int) * k) by (nonlinear_arith)
                requires
                    (a * c) as int == (b as int) * k,
            ;
        }
        assert(divides(b as int, (c * b) as int)) by {
            assert((c * b) as int == (b as int) * (c as int)) by (nonlinear_arith);
        }
        lemma_common_divides_gcd(c * a, c * b, b as int);
        assert(c * 1 == c) by (nonlinear_arith);
    }
}

/// Divisibility is antisymmetric on positive integers.
pub proof fn lemma_divides_antisymmetric(a: int, b: int)
    requires
        a > 0,
        b > 0,
        divides(a, b),
        divides(b, a),
    ensures
        a == b,
{
    let k1: int = choose|k: int| b == #[trigger] (a * k);
    let k2: int = choose|k: int| a == #[trigger] (b * k);
    assert(a == b) by (nonlinear_arith)
        requires
            a > 0,
            b > 0,
            b == a * k1,
            a == b * k2,
    ;
}

/// Divisibility ignores the sign of the dividend.
pub proof fn lemma_divides_abs(d: int, n: int)
    requires
        divides(d, abs_int(n)),
    ensures
        divides(d, n),
{
    let k: int = choose|k: int| abs_int(n) == #[trigger] (d * k);
    if n >= 0 {
    } else {
        assert(n == d * (-k)) by (nonlinear_arith)
            requires
                -n == d * k,
        ;
    }
}

/// A fraction in lowest terms with a positive denominator is the unique such
/// representation of its rational value.
pub proof fn lemma_reduced_unique(an: int, ad: int, bn: int, bd: int)
    requires
        ad >= 1,
        bd >= 1,
        gcd(abs_int(an) as nat, ad as nat) == 1,
        gcd(abs_int(bn) as nat, bd as nat) == 1,
        an * bd == bn * ad,
    ensures
        an == bn,
        ad == bd,
{
    let ana: int = abs_int(an);
    let bna: int = abs_int(bn);
    assert(ana * bd == bna * ad) by (nonlinear_arith)
        requires
            an * bd == bn * ad,
            ad >= 1,
            bd >= 1,
            (an >= 0 ==> ana == an) && (an < 0 ==> ana == -an),
            (bn >= 0 ==> bna == bn) && (bn < 0 ==> bna == -bn),
    ;
    assert(divides(ad, ana * bd)) by {
        assert(ana * bd == ad * bna) by (nonlinear_arith)
            requires
                ana * bd == bna * ad,
        ;
    }
    assert((ana as nat) * (bd as nat) == (ana * bd) as nat);
    lemma_coprime_divides(ana as nat, ad as nat, bd as nat);
    assert(divides(bd, bna * ad)) by {
        assert(bna * ad == bd * ana) by (nonlinear_arith)
            requires
                ana * bd == bna * ad,
        ;
    }
    assert((bna as nat) * (ad as nat) == (bna * ad) as nat);
    lemma_coprime_divides(bna as nat, bd as nat, ad as nat);
    lemma_divides_antisymmetric(ad, bd);
    assert(an == bn) by (nonlinear_arith)
        requires
            an * bd == bn * ad,
            ad == bd,
            ad >= 1,
    ;
}

/// Numerator of `n/d` after reduction to lowest terms.
pub open spec fn norm_num(n: int, d: int) -> int {
    n / (gcd(abs_int(n) as nat, d as nat) as int)
}

/// Denominator of `n/d` after reduction to lowest terms.
pub open spec fn norm_den(n: int, d: int) -> int {
    d / (gcd(abs_int(n) as nat, d as nat) as int)
}

/// Reduction by the gcd is sound and canonical: it keeps the rational value
/// (cross-multiplication equality), yields a positive denominator no larger
/// than the original, and leaves numerator and denominator coprime.
pub proof fn lemma_norm_props(n: int, d: int)
    requires
        d >= 1,
    ensures
        ({
            let g = gcd(abs_int(n) as nat, d as nat) as int;
            let rn = norm_num(n, d);
            let rd = norm_den(n, d);
            &&& g >= 1
            &&& n == g * rn
            &&& d == g * rd
            &&& 1 <= rd <= d
            &&& abs_int(rn) <= abs_int(n)
            &&& gcd(abs_int(rn) as nat, rd as nat) == 1
            &&& rn * d == n * rd
        }),
{
    let g: int = gcd(abs_int(n) as nat, d as nat) as int;
    let rn: int = norm_num(n, d);
    let rd: int = norm_den(n, d);
    lemma_gcd_pos(abs_int(n) as nat, d as nat);
    lemma_gcd_divides(abs_int(n) as nat, d as nat);
    lemma_divides_abs(g, n);
    lemma_div_exact(n, g);
    lemma_div_exact(d, g);
    assert(1 <= rd <= d) by (nonlinear_arith)
        requires
            g >= 1,
            d >= 1,
            d == g * rd,
    ;
    // |rn| is the reduction of |n|, so the coprimality result applies.
    lemma_gcd_reduce_coprime(abs_int(n) as nat, d as nat);
    let na1: int = abs_int(n) / g;
    assert(abs_int(rn) == na1) by (nonlinear_arith)
        requires
            g >= 1,
            n == g * rn,
            abs_int(n) == g * na1,
            (n >= 0 ==> abs_int(n) == n) && (n < 0 ==> abs_int(n) == -n),
            (rn >= 0 ==> abs_int(rn) == rn) && (rn < 0 ==> abs_int(rn) == -rn),
    ;
    assert(abs_int(rn) <= abs_int(n)) by (nonlinear_arith)
        requires
            g >= 1,
            abs_int(n) == g * abs_int(rn),
            abs_int(rn) >= 0,
    ;
    assert(rn * d == n * rd) by (nonlinear_arith)
        requires
            n == g * rn,
            d == g * rd,
    ;
}

/// Reducing a fraction that is already in lowest terms changes nothing.
pub proof fn lemma_norm_fixpoint(n: int, d: int)
    requires
        d >= 1,
        gcd(abs_int(n) as nat, d as nat) == 1,
    ensures
        norm_num(n, d) == n,
        norm_den(n, d) == d,
{
    lemma_div_basics(n);
    lemma_div_basics(d);
}

/// Every integer is coprime to 1.
pub proof fn lemma_gcd_with_one(x: nat)
    ensures
        gcd(x, 1) == 1,
{
    if x == 0 {
        assert(gcd(0, 1) == 1);
    } else if x == 1 {
        assert(1nat % 1nat == 0) by {
            lemma_mod_multiples_basic(1int, 1int);
        }
        assert(gcd(1, 1) == gcd(0, 1));
        assert(gcd(0, 1) == 1);
    } else {
        assert(1nat % x == 1) by {
            vstd::arithmetic::div_mod::lemma_small_mod(1, x);
        }
        assert(x % 1 == 0) by {
            lemma_mod_multiples_basic(x as int, 1int);
        }
        assert(gcd(x, 1) == gcd(1nat % x, x));
        assert(gcd(1, x) == gcd(x % 1, 1));
        assert(gcd(x % 1, 1) == gcd(0, 1));
        assert(gcd(0, 1) == 1);
    }
}

/// Reducing `0/d` yields the canonical zero `0/1`.
pub proof fn lemma_norm_zero(d: int)
    requires
        d >= 1,
    ensures
        norm_num(0, d) == 0,
        norm_den(0, d) == 1,
{
    assert(gcd(abs_int(0) as nat, d as nat) == d as nat);
    lemma_div_basics(d);
    lemma_div_by_self(d);
    assert(0int / d == 0) by {
        lemma_div_basics(d);
    }
}

} // verus!
