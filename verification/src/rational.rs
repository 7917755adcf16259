//! Mathematical rational numbers for specifications.
//!
//! A `Rat` is a ghost pair of integers read as the fraction `n / d`; it is
//! `proper` when the denominator is nonzero.  `req` is rational equality by
//! cross-multiplication.  The operations mirror fraction arithmetic, and the
//! lemmas give the equivalence, congruence and ring facts that the engine's
//! contracts and laws are proved with.

use vstd::prelude::*;
use vstd::arithmetic::mul::{
    lemma_mul_is_distributive_add, lemma_mul_is_distributive_add_other_way,
    lemma_mul_is_distributive_sub, lemma_mul_is_distributive_sub_other_way,
    lemma_mul_is_commutative, lemma_mul_is_associative, lemma_mul_unary_negation,
};

verus! {

/// A rational number `n / d` at the specification level.
pub ghost struct Rat {
    pub n: int,
    pub d: int,
}

/// A rational with a nonzero denominator.
pub open spec fn proper(a: Rat) -> bool {
    a.d != 0
}

/// Rational equality by cross-multiplication.
pub open spec fn req(a: Rat, b: Rat) -> bool {
    a.n * b.d == b.n * a.d
}

pub open spec fn rzero() -> Rat {
    Rat { n: 0, d: 1 }
}

pub open spec fn rone() -> Rat {
    Rat { n: 1, d: 1 }
}

/// The integer `i` as a rational.
pub open spec fn rint(i: int) -> Rat {
    Rat { n: i, d: 1 }
}

pub open spec fn radd(a: Rat, b: Rat) -> Rat {
    Rat { n: a.n * b.d + b.n * a.d, d: a.d * b.d }
}

pub open spec fn rsub(a: Rat, b: Rat) -> Rat {
    Rat { n: a.n * b.d - b.n * a.d, d: a.d * b.d }
}

pub open spec fn rmul(a: Rat, b: Rat) -> Rat {
    Rat { n: a.n * b.n, d: a.d * b.d }
}

pub open spec fn rdiv(a: Rat, b: Rat) -> Rat {
    Rat { n: a.n * b.d, d: a.d * b.n }
}

pub open spec fn rneg(a: Rat) -> Rat {
    Rat { n: -a.n, d: a.d }
}

/// Rational equality is reflexive.
pub proof fn lemma_req_refl(a: Rat)
    ensures
        req(a, a),
{
}

/// Rational equality is symmetric.
pub proof fn lemma_req_sym(a: Rat, b: Rat)
    requires
        req(a, b),
    ensures
        req(b, a),
{
}

/// Rational equality is transitive across a proper middle value.
pub proof fn lemma_req_trans(a: Rat, b: Rat, c: Rat)
    requires
        req(a, b),
        req(b, c),
        proper(b),
    ensures
        req(a, c),
{
    assert(a.n * c.d == c.n * a.d) by (nonlinear_arith)
        requires
            a.n * b.d == b.n * a.d,
            b.n * c.d == c.n * b.d,
            b.d != 0,
    ;
}

/// Sums of proper rationals are proper.
pub proof fn lemma_radd_proper(a: Rat, b: Rat)
    requires
        proper(a),
        proper(b),
    ensures
        proper(radd(a, b)),
        proper(rsub(a, b)),
        proper(rmul(a, b)),
{
    assert(a.d * b.d != 0) by (nonlinear_arith)
        requires
            a.d != 0,
            b.d != 0,
    ;
}

/// Multiplication respects rational equality.
pub proof fn lemma_rmul_cong(a: Rat, b: Rat, a2: Rat, b2: Rat)
    requires
        req(a, a2),
        req(b, b2),
        proper(a),
        proper(b),
        proper(a2),
        proper(b2),
    ensures
        req(rmul(a, b), rmul(a2, b2)),
{
    assert((a.n * b.n) * (a2.d * b2.d) == (a2.n * b2.n) * (a.d * b.d)) by (nonlinear_arith)
        requires
            a.n * a2.d == a2.n * a.d,
            b.n * b2.d == b2.n * b.d,
    ;
}

/// A rational equal to a nonzero rational is nonzero.
pub proof fn lemma_req_nonzero(a: Rat, b: Rat)
    requires
        req(a, b),
        proper(a),
        proper(b),
        a.n != 0,
    ensures
        b.n != 0,
{
    assert(b.n != 0) by (nonlinear_arith)
        requires
            a.n * b.d == b.n * a.d,
            a.d != 0,
            b.d != 0,
            a.n != 0,
    ;
}

/// Rationally equal values are zero together.
pub proof fn lemma_req_zero(a: Rat, b: Rat)
    requires
        req(a, b),
        proper(a),
        proper(b),
    ensures
        (a.n == 0) == (b.n == 0),
{
    if a.n != 0 {
        lemma_req_nonzero(a, b);
    }
    if b.n != 0 {
        lemma_req_sym(a, b);
        lemma_req_nonzero(b, a);
    }
}

/// Division respects rational equality when the divisors are nonzero.
pub proof fn lemma_rdiv_cong(a: Rat, b: Rat, a2: Rat, b2: Rat)
    requires
        req(a, a2),
        req(b, b2),
        proper(a),
        proper(b),
        proper(a2),
        proper(b2),
        b.n != 0,
    ensures
        req(rdiv(a, b), rdiv(a2, b2)),
        proper(rdiv(a, b)),
        proper(rdiv(a2, b2)),
{
    lemma_req_nonzero(b, b2);
    assert((a.n * b.d) * (a2.d * b2.n) == (a2.n * b2.d) * (a.d * b.n)) by (nonlinear_arith)
        requires
            a.n * a2.d == a2.n * a.d,
            b.n * b2.d == b2.n * b.d,
    ;
    assert(a.d * b.n != 0 && a2.d * b2.n != 0) by (nonlinear_arith)
        requires
            a.d != 0,
            b.n != 0,
            a2.d != 0,
            b2.n != 0,
    ;
}

/// `a / b == c` exactly when `a == c * b` (for nonzero `b`).
pub proof fn lemma_rdiv_of_product(a: Rat, b: Rat, c: Rat)
    requires
        proper(a),
        proper(b),
        proper(c),
        b.n != 0,
        req(a, rmul(c, b)),
    ensures
        req(rdiv(a, b), c),
        proper(rdiv(a, b)),
    {
    assert((a.n * b.d) * c.d == c.n * (a.d * b.n)) by (nonlinear_arith)
        requires
            a.n * (c.d * b.d) == (c.n * b.n) * a.d,
            b.d != 0,
    ;
    assert(a.d * b.n != 0) by (nonlinear_arith)
        requires
            a.d != 0,
            b.n != 0,
    ;
}

/// Adding zero changes nothing; multiplying by one changes nothing.
pub proof fn lemma_runit(a: Rat)
    requires
        proper(a),
    ensures
        req(radd(a, rzero()), a),
        req(radd(rzero(), a), a),
        req(rsub(a, rzero()), a),
        req(rmul(a, rone()), a),
        req(rmul(rone(), a), a),
        req(rmul(a, rzero()), rzero()),
        req(rmul(rzero(), a), rzero()),
{
}

/// Negation respects rational equality.
pub proof fn lemma_rneg_cong(a: Rat, a2: Rat)
    requires
        req(a, a2),
    ensures
        req(rneg(a), rneg(a2)),
{
    lemma_mul_unary_negation(a.n, a2.d);
    lemma_mul_unary_negation(a2.n, a.d);
}

/// Subtraction is addition of the negation (an equality of representations).
pub proof fn lemma_rsub_as_radd_neg(a: Rat, b: Rat)
    ensures
        rsub(a, b) == radd(a, rneg(b)),
{
    lemma_mul_unary_negation(b.n, a.d);
}

/// Negation distributes over addition (an equality of representations).
pub proof fn lemma_rneg_radd(a: Rat, b: Rat)
    ensures
        rneg(radd(a, b)) == radd(rneg(a), rneg(b)),
{
    lemma_mul_unary_negation(a.n, b.d);
    lemma_mul_unary_negation(b.n, a.d);
}

/// Addition of rationals is commutative (an equality of representations).
pub proof fn lemma_radd_comm(a: Rat, b: Rat)
    ensures
        radd(a, b) == radd(b, a),
{
    lemma_mul_is_commutative(a.d, b.d);
}

/// Addition of rationals is associative (an equality of representations).
pub proof fn lemma_radd_assoc(a: Rat, b: Rat, c: Rat)
    ensures
        radd(radd(a, b), c) == radd(a, radd(b, c)),
{
    lemma_mul_is_distributive_add_other_way(c.d, a.n * b.d, b.n * a.d);
    lemma_mul_is_distributive_add_other_way(a.d, b.n * c.d, c.n * b.d);
    lemma_mul_is_associative(a.n, b.d, c.d);
    lemma_mul_is_associative(b.n, a.d, c.d);
    lemma_mul_is_commutative(a.d, c.d);
    lemma_mul_is_associative(b.n, c.d, a.d);
    lemma_mul_is_commutative(a.d, b.d);
    lemma_mul_is_associative(c.n, b.d, a.d);
    lemma_mul_is_associative(a.d, b.d, c.d);
}

/// A value plus its negation is zero.
pub proof fn lemma_radd_neg_cancel(w: Rat)
    requires
        proper(w),
    ensures
        req(radd(w, rneg(w)), rzero()),
        proper(radd(w, rneg(w))),
{
    lemma_mul_unary_negation(w.n, w.d);
    assert(w.d * w.d != 0) by (nonlinear_arith)
        requires
            w.d != 0,
    ;
}

/// Addition respects rational equality.
pub proof fn lemma_radd_cong(a: Rat, b: Rat, a2: Rat, b2: Rat)
    requires
        req(a, a2),
        req(b, b2),
        proper(a),
        proper(b),
        proper(a2),
        proper(b2),
    ensures
        req(radd(a, b), radd(a2, b2)),
{
    lemma_mul_is_distributive_add_other_way(a2.d * b2.d, a.n * b.d, b.n * a.d);
    lemma_mul_is_distributive_add_other_way(a.d * b.d, a2.n * b2.d, b2.n * a2.d);
    assert((a.n * b.d) * (a2.d * b2.d) == (a.n * a2.d) * (b.d * b2.d)) by (nonlinear_arith);
    assert((b.n * a.d) * (a2.d * b2.d) == (b.n * b2.d) * (a.d * a2.d)) by (nonlinear_arith);
    assert((a2.n * a.d) * (b.d * b2.d) == (a2.n * b2.d) * (a.d * b.d)) by (nonlinear_arith);
    assert((b2.n * b.d) * (a.d * a2.d) == (b2.n * a2.d) * (a.d * b.d)) by (nonlinear_arith);
}

/// Subtraction respects rational equality.
pub proof fn lemma_rsub_cong(a: Rat, b: Rat, a2: Rat, b2: Rat)
    requires
        req(a, a2),
        req(b, b2),
        proper(a),
        proper(b),
        proper(a2),
        proper(b2),
    ensures
        req(rsub(a, b), rsub(a2, b2)),
{
    lemma_rneg_cong(b, b2);
    lemma_radd_cong(a, rneg(b), a2, rneg(b2));
    lemma_rsub_as_radd_neg(a, b);
    lemma_rsub_as_radd_neg(a2, b2);
}

/// `(u + w) - (v + w)` equals `u - v`.
pub proof fn lemma_sub_add_cancel(u: Rat, v: Rat, w: Rat)
    requires
        proper(u),
        proper(v),
        proper(w),
    ensures
        req(rsub(radd(u, w), radd(v, w)), rsub(u, v)),
{
    let nv = rneg(v);
    let nw = rneg(w);
    lemma_rsub_as_radd_neg(radd(u, w), radd(v, w));
    lemma_rneg_radd(v, w);
    // shuffle (u + w) + (nv + nw) into (u + nv) + (w + nw)
    lemma_radd_assoc(u, w, radd(nv, nw));
    lemma_radd_assoc(w, nv, nw);
    lemma_radd_comm(w, nv);
    lemma_radd_assoc(nv, w, nw);
    lemma_radd_assoc(u, nv, radd(w, nw));
    assert(rsub(radd(u, w), radd(v, w)) == radd(radd(u, nv), radd(w, nw)));
    // the (w + nw) summand is zero
    lemma_radd_neg_cancel(w);
    lemma_radd_proper(u, nv);
    lemma_req_refl(radd(u, nv));
    lemma_radd_cong(radd(u, nv), radd(w, nw), radd(u, nv), rzero());
    lemma_runit(radd(u, nv));
    lemma_radd_proper(radd(u, nv), radd(w, nw));
    lemma_radd_proper(radd(u, nv), rzero());
    lemma_req_trans(radd(radd(u, nv), radd(w, nw)), radd(radd(u, nv), rzero()), radd(u, nv));
    lemma_rsub_as_radd_neg(u, v);
}

/// `(A - B) - (C - D)` equals `(A - C) - (B - D)`.
pub proof fn lemma_sub_swap(a: Rat, b: Rat, c: Rat, d: Rat)
    requires
        proper(a),
        proper(b),
        proper(c),
        proper(d),
    ensures
        req(rsub(rsub(a, b), rsub(c, d)), rsub(rsub(a, c), rsub(b, d))),
{
    let nb = rneg(b);
    let nc = rneg(c);
    let nd = rneg(d);
    lemma_rsub_as_radd_neg(a, b);
    lemma_rsub_as_radd_neg(a, c);
    lemma_rsub_as_radd_neg(b, d);
    lemma_rsub_as_radd_neg(c, d);
    lemma_rsub_as_radd_neg(rsub(a, b), rsub(c, d));
    lemma_rsub_as_radd_neg(rsub(a, c), rsub(b, d));
    lemma_rneg_radd(c, nd);
    lemma_rneg_radd(b, nd);
    assert(rneg(nd) == d);
    assert(rsub(rsub(a, b), rsub(c, d)) == radd(radd(a, nb), radd(nc, d)));
    assert(rsub(rsub(a, c), rsub(b, d)) == radd(radd(a, nc), radd(nb, d)));
    // shuffle (a + nb) + (nc + d) into (a + nc) + (nb + d)
    lemma_radd_assoc(a, nb, radd(nc, d));
    lemma_radd_assoc(nb, nc, d);
    lemma_radd_comm(nb, nc);
    lemma_radd_assoc(nc, nb, d);
    lemma_radd_assoc(a, nc, radd(nb, d));
    assert(radd(radd(a, nb), radd(nc, d)) == radd(radd(a, nc), radd(nb, d)));
}

/// Multiplication distributes over addition: `a*(b + c) == a*b + a*c`.
pub proof fn lemma_rmul_add_distrib(a: Rat, b: Rat, c: Rat)
    requires
        proper(a),
        proper(b),
        proper(c),
    ensures
        req(rmul(a, radd(b, c)), radd(rmul(a, b), rmul(a, c))),
{
    lemma_mul_is_distributive_add(a.n, b.n * c.d, c.n * b.d);
    lemma_mul_is_distributive_add_other_way(
        (a.d * b.d) * (a.d * c.d),
        a.n * (b.n * c.d),
        a.n * (c.n * b.d),
    );
    lemma_mul_is_distributive_add_other_way(
        a.d * (b.d * c.d),
        (a.n * b.n) * (a.d * c.d),
        (a.n * c.n) * (a.d * b.d),
    );
    assert((a.n * (b.n * c.d)) * ((a.d * b.d) * (a.d * c.d)) == ((a.n * b.n) * (a.d * c.d)) * (a.d
        * (b.d * c.d))) by (nonlinear_arith);
    assert((a.n * (c.n * b.d)) * ((a.d * b.d) * (a.d * c.d)) == ((a.n * c.n) * (a.d * b.d)) * (a.d
        * (b.d * c.d))) by (nonlinear_arith);
}

/// Multiplication distributes over subtraction: `a*(b - c) == a*b - a*c`.
pub proof fn lemma_rmul_sub_distrib(a: Rat, b: Rat, c: Rat)
    requires
        proper(a),
        proper(b),
        proper(c),
    ensures
        req(rmul(a, rsub(b, c)), rsub(rmul(a, b), rmul(a, c))),
{
    lemma_mul_is_distributive_sub(a.n, b.n * c.d, c.n * b.d);
    lemma_mul_is_distributive_sub_other_way(
        (a.d * b.d) * (a.d * c.d),
        a.n * (b.n * c.d),
        a.n * (c.n * b.d),
    );
    lemma_mul_is_distributive_sub_other_way(
        a.d * (b.d * c.d),
        (a.n * b.n) * (a.d * c.d),
        (a.n * c.n) * (a.d * b.d),
    );
    assert((a.n * (b.n * c.d)) * ((a.d * b.d) * (a.d * c.d)) == ((a.n * b.n) * (a.d * c.d)) * (a.d
        * (b.d * c.d))) by (nonlinear_arith);
    assert((a.n * (c.n * b.d)) * ((a.d * b.d) * (a.d * c.d)) == ((a.n * c.n) * (a.d * b.d)) * (a.d
        * (b.d * c.d))) by (nonlinear_arith);
}

/// Multiplication of rationals is commutative (an equality of representations).
pub proof fn lemma_rmul_comm(a: Rat, b: Rat)
    ensures
        rmul(a, b) == rmul(b, a),
{
    lemma_mul_is_commutative(a.n, b.n);
    lemma_mul_is_commutative(a.d, b.d);
}

/// Multiplication of rationals is associative (an equality of representations).
pub proof fn lemma_rmul_assoc(a: Rat, b: Rat, c: Rat)
    ensures
        rmul(rmul(a, b), c) == rmul(a, rmul(b, c)),
{
    lemma_mul_is_associative(a.n, b.n, c.n);
    lemma_mul_is_associative(a.d, b.d, c.d);
}

/// `(y + a) - a` equals `y`.
pub proof fn lemma_add_then_sub(y: Rat, a: Rat)
    requires
        proper(y),
        proper(a),
    ensures
        req(rsub(radd(y, a), a), y),
{
    lemma_rsub_as_radd_neg(radd(y, a), a);
    lemma_radd_assoc(y, a, rneg(a));
    lemma_radd_neg_cancel(a);
    lemma_req_refl(y);
    lemma_radd_cong(y, radd(a, rneg(a)), y, rzero());
    lemma_radd_proper(a, rneg(a));
    lemma_radd_proper(y, radd(a, rneg(a)));
    lemma_radd_proper(y, rzero());
    lemma_runit(y);
    lemma_req_trans(radd(y, radd(a, rneg(a))), radd(y, rzero()), y);
}

/// `(a + b) - (c + d)` equals `(a - c) + (b - d)`.
pub proof fn lemma_sub_add_pairs(a: Rat, b: Rat, c: Rat, d: Rat)
    requires
        proper(a),
        proper(b),
        proper(c),
        proper(d),
    ensures
        rsub(radd(a, b), radd(c, d)) == radd(rsub(a, c), rsub(b, d)),
{
    let nc = rneg(c);
    let nd = rneg(d);
    lemma_rsub_as_radd_neg(radd(a, b), radd(c, d));
    lemma_rneg_radd(c, d);
    lemma_rsub_as_radd_neg(a, c);
    lemma_rsub_as_radd_neg(b, d);
    // shuffle (a + b) + (nc + nd) into (a + nc) + (b + nd)
    lemma_radd_assoc(a, b, radd(nc, nd));
    lemma_radd_assoc(b, nc, nd);
    lemma_radd_comm(b, nc);
    lemma_radd_assoc(nc, b, nd);
    lemma_radd_assoc(a, nc, radd(b, nd));
}

/// `(p - x) + (x + q)` equals `p + q`.
pub proof fn lemma_sub_then_add_cancel(p: Rat, x: Rat, q: Rat)
    requires
        proper(p),
        proper(x),
        proper(q),
    ensures
        req(radd(rsub(p, x), radd(x, q)), radd(p, q)),
{
    let nx = rneg(x);
    lemma_rsub_as_radd_neg(p, x);
    // shuffle (p + nx) + (x + q) into (p + q) + (nx + x)
    lemma_radd_assoc(p, nx, radd(x, q));
    lemma_radd_assoc(nx, x, q);
    lemma_radd_comm(radd(nx, x), q);
    lemma_radd_assoc(p, q, radd(nx, x));
    assert(radd(radd(p, nx), radd(x, q)) == radd(radd(p, q), radd(nx, x)));
    lemma_radd_comm(nx, x);
    lemma_radd_neg_cancel(x);
    lemma_req_refl(radd(p, q));
    lemma_radd_proper(p, q);
    lemma_radd_proper(x, nx);
    lemma_radd_cong(radd(p, q), radd(x, nx), radd(p, q), rzero());
    lemma_radd_proper(radd(p, q), radd(x, nx));
    lemma_radd_proper(radd(p, q), rzero());
    lemma_runit(radd(p, q));
    lemma_req_trans(
        radd(radd(p, q), radd(x, nx)),
        radd(radd(p, q), rzero()),
        radd(p, q),
    );
}

/// `(p + x) - (x - q)` equals `p + q`.
pub proof fn lemma_add_sub_cancel2(p: Rat, x: Rat, q: Rat)
    requires
        proper(p),
        proper(x),
        proper(q),
    ensures
        req(rsub(radd(p, x), rsub(x, q)), radd(p, q)),
{
    let nx = rneg(x);
    lemma_rsub_as_radd_neg(radd(p, x), rsub(x, q));
    lemma_rsub_as_radd_neg(x, rneg(q));
    lemma_rsub_as_radd_neg(x, q);
    lemma_rneg_radd(x, rneg(q));
    assert(rneg(rneg(q)) == q);
    assert(rsub(radd(p, x), rsub(x, q)) == radd(radd(p, x), radd(nx, q)));
    // shuffle (p + x) + (nx + q) into (p + q) + (x + nx)
    lemma_radd_assoc(p, x, radd(nx, q));
    lemma_radd_assoc(x, nx, q);
    lemma_radd_comm(radd(x, nx), q);
    lemma_radd_assoc(p, q, radd(x, nx));
    assert(radd(radd(p, x), radd(nx, q)) == radd(radd(p, q), radd(x, nx)));
    lemma_radd_neg_cancel(x);
    lemma_req_refl(radd(p, q));
    lemma_radd_proper(p, q);
    lemma_radd_proper(x, nx);
    lemma_radd_cong(radd(p, q), radd(x, nx), radd(p, q), rzero());
    lemma_radd_proper(radd(p, q), radd(x, nx));
    lemma_radd_proper(radd(p, q), rzero());
    lemma_runit(radd(p, q));
    lemma_req_trans(
        radd(radd(p, q), radd(x, nx)),
        radd(radd(p, q), rzero()),
        radd(p, q),
    );
}

/// Recover a translation term: `(((a - b) + d) - a) + b` equals `d`.
pub proof fn lemma_recover_shift(a: Rat, b: Rat, d: Rat)
    requires
        proper(a),
        proper(b),
        proper(d),
    ensures
        req(radd(rsub(radd(rsub(a, b), d), a), b), d),
{
    let nb = rneg(b);
    lemma_rsub_as_radd_neg(a, b);
    lemma_radd_assoc(a, nb, d);
    lemma_radd_comm(a, radd(nb, d));
    assert(radd(rsub(a, b), d) == radd(radd(nb, d), a));
    lemma_radd_proper(nb, d);
    lemma_add_then_sub(radd(nb, d), a);
    // now (X - a) is rationally (nb + d); add b and cancel
    lemma_req_refl(b);
    lemma_radd_proper(radd(nb, d), a);
    lemma_radd_proper(radd(radd(nb, d), a), a);
    lemma_radd_cong(rsub(radd(radd(nb, d), a), a), b, radd(nb, d), b);
    lemma_radd_comm(nb, d);
    lemma_radd_assoc(d, nb, b);
    assert(radd(radd(nb, d), b) == radd(d, radd(nb, b)));
    lemma_radd_comm(nb, b);
    lemma_radd_neg_cancel(b);
    lemma_req_refl(d);
    lemma_radd_proper(b, rneg(b));
    lemma_radd_cong(d, radd(b, nb), d, rzero());
    lemma_radd_proper(d, radd(b, nb));
    lemma_radd_proper(d, rzero());
    lemma_runit(d);
    lemma_req_trans(radd(d, radd(nb, b)), radd(d, rzero()), d);
    lemma_radd_proper(radd(nb, d), b);
    lemma_req_trans(
        radd(rsub(radd(radd(nb, d), a), a), b),
        radd(radd(nb, d), b),
        d,
    );
}

/// Recover the second translation term: `(((b + a) + d) - b) - a` equals `d`.
pub proof fn lemma_recover_shift2(b: Rat, a: Rat, d: Rat)
    requires
        proper(a),
        proper(b),
        proper(d),
    ensures
        req(rsub(rsub(radd(radd(b, a), d), b), a), d),
{
    lemma_radd_assoc(b, a, d);
    lemma_radd_comm(b, radd(a, d));
    assert(radd(radd(b, a), d) == radd(radd(a, d), b));
    lemma_radd_proper(a, d);
    lemma_add_then_sub(radd(a, d), b);
    // (X - b) is rationally (a + d); subtract a
    lemma_req_refl(a);
    lemma_radd_proper(radd(a, d), b);
    lemma_radd_proper(radd(radd(a, d), b), b);
    lemma_rsub_cong(rsub(radd(radd(a, d), b), b), a, radd(a, d), a);
    lemma_radd_comm(a, d);
    assert(radd(a, d) == radd(d, a));
    lemma_add_then_sub(d, a);
    lemma_radd_proper(d, a);
    lemma_radd_proper(radd(a, d), a);
    lemma_req_trans(
        rsub(rsub(radd(radd(a, d), b), b), a),
        rsub(radd(a, d), a),
        d,
    );
}

/// Non-strict rational order (for positive denominators).
pub open spec fn rle(a: Rat, b: Rat) -> bool {
    a.n * b.d <= b.n * a.d
}

/// The rational order is transitive across positive denominators.
pub proof fn lemma_rle_trans(a: Rat, b: Rat, c: Rat)
    requires
        rle(a, b),
        rle(b, c),
        a.d >= 1,
        b.d >= 1,
        c.d >= 1,
    ensures
        rle(a, c),
{
    assert(a.n * c.d <= c.n * a.d) by (nonlinear_arith)
        requires
            a.n * b.d <= b.n * a.d,
            b.n * c.d <= c.n * b.d,
            a.d >= 1,
            b.d >= 1,
            c.d >= 1,
    ;
}

} // verus!
