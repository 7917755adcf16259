//! The similarity-transform estimator (calibration).
//!
//! From two correspondences `(screen_1, world_1)`, `(screen_2, world_2)` the
//! estimator solves the linear system behind
//! `x' = alpha*x - beta*y + dx`, `y' = beta*x + alpha*y + dy`
//! for the four unknowns.  Subtracting the two point equations eliminates
//! the translation, leaving a 2x2 system whose determinant is
//! `(x1-x2)^2 + (y1-y2)^2`; it is singular exactly when the two screen
//! points coincide, which fails with `DegenerateCalibration`.
//! The system's rows encode the same formula `apply_transform` computes
//! (`x' = alpha*x - beta*y + dx`, `y' = beta*x + alpha*y + dy`); a variant
//! with the sign of `y` flipped would not be inverted by estimation, and the
//! round-trip lemma below would fail.
//! `lemma_calibration_round_trip` proves that estimating from exact images
//! of a transform recovers that transform's parameters.

use vstd::prelude::*;
use crate::frac::Frac;
use crate::rational::{
    Rat, proper, req, radd, rsub, rmul, rdiv, lemma_req_refl, lemma_req_sym,
    lemma_req_trans, lemma_req_zero, lemma_radd_proper, lemma_radd_cong, lemma_rsub_cong,
    lemma_rmul_cong, lemma_rdiv_of_product, lemma_rmul_sub_distrib, lemma_rmul_add_distrib,
    lemma_rmul_comm, lemma_rmul_assoc, lemma_sub_add_cancel, lemma_sub_swap,
    lemma_sub_add_pairs, lemma_sub_then_add_cancel, lemma_add_sub_cancel2, lemma_recover_shift,
    lemma_recover_shift2,
};
use crate::point_handling::{PointCoords, PointTransform, spec_apply, lemma_apply_chain};
use crate::GeomError;

verus! {

/// A point with rational coordinates, for specifications.
pub ghost struct RatPoint {
    pub x: Rat,
    pub y: Rat,
}

/// The rational coordinates of a point.
pub open spec fn rp(p: PointCoords) -> RatPoint {
    RatPoint { x: p.x@, y: p.y@ }
}

pub open spec fn rp_proper(p: RatPoint) -> bool {
    proper(p.x) && proper(p.y)
}

/// The image of `p` under the transform with parameters
/// `(alpha, beta, dx, dy)`.
pub open spec fn tw(alpha: Rat, beta: Rat, dx: Rat, dy: Rat, p: RatPoint) -> RatPoint {
    RatPoint {
        x: radd(rsub(rmul(alpha, p.x), rmul(beta, p.y)), dx),
        y: radd(radd(rmul(beta, p.x), rmul(alpha, p.y)), dy),
    }
}

/// The determinant of the reduced 2x2 system:
/// `(x1-x2)^2 + (y1-y2)^2`.
pub open spec fn est_det(s1: RatPoint, s2: RatPoint) -> Rat {
    let dx = rsub(s1.x, s2.x);
    let dy = rsub(s1.y, s2.y);
    radd(rmul(dx, dx), rmul(dy, dy))
}

/// The estimated `alpha`.
pub open spec fn est_alpha(s1: RatPoint, s2: RatPoint, w1: RatPoint, w2: RatPoint) -> Rat {
    let dx = rsub(s1.x, s2.x);
    let dy = rsub(s1.y, s2.y);
    let dwx = rsub(w1.x, w2.x);
    let dwy = rsub(w1.y, w2.y);
    rdiv(radd(rmul(dwx, dx), rmul(dwy, dy)), est_det(s1, s2))
}

/// The estimated `beta`.
pub open spec fn est_beta(s1: RatPoint, s2: RatPoint, w1: RatPoint, w2: RatPoint) -> Rat {
    let dx = rsub(s1.x, s2.x);
    let dy = rsub(s1.y, s2.y);
    let dwx = rsub(w1.x, w2.x);
    let dwy = rsub(w1.y, w2.y);
    rdiv(rsub(rmul(dwy, dx), rmul(dwx, dy)), est_det(s1, s2))
}

/// The estimated `dx`: `w1x - alpha*x1 + beta*y1`.
pub open spec fn est_dx(s1: RatPoint, s2: RatPoint, w1: RatPoint, w2: RatPoint) -> Rat {
    radd(rsub(w1.x, rmul(est_alpha(s1, s2, w1, w2), s1.x)), rmul(est_beta(s1, s2, w1, w2), s1.y))
}

/// The estimated `dy`: `w1y - beta*x1 - alpha*y1`.
pub open spec fn est_dy(s1: RatPoint, s2: RatPoint, w1: RatPoint, w2: RatPoint) -> Rat {
    rsub(rsub(w1.y, rmul(est_beta(s1, s2, w1, w2), s1.x)), rmul(est_alpha(s1, s2, w1, w2), s1.y))
}

/// The estimator as a function of the two correspondences: exactly the
/// checked computation `interpolate_from_point_pairs` performs, so one
/// value of it decides the estimator's result (success owed included).
pub open spec fn spec_estimate(
    s1: PointCoords,
    w1: PointCoords,
    s2: PointCoords,
    w2: PointCoords,
) -> Result<PointTransform, GeomError> {
    match (Frac::spec_sub(s1.x, s2.x), Frac::spec_sub(s1.y, s2.y)) {
        (Some(dx), Some(dy)) => match (Frac::spec_mul(dx, dx), Frac::spec_mul(dy, dy)) {
            (Some(t1), Some(t2)) => match Frac::spec_add(t1, t2) {
                None => Err(GeomError::Overflow),
                Some(det) => if det@.n == 0 {
                    Err(GeomError::DegenerateCalibration)
                } else {
                    match (Frac::spec_sub(w1.x, w2.x), Frac::spec_sub(w1.y, w2.y)) {
                        (Some(dwx), Some(dwy)) => match (
                            Frac::spec_mul(dwx, dx),
                            Frac::spec_mul(dwy, dy),
                            Frac::spec_mul(dwy, dx),
                            Frac::spec_mul(dwx, dy),
                        ) {
                            (Some(na1), Some(na2), Some(nb1), Some(nb2)) => match (
                                Frac::spec_add(na1, na2),
                                Frac::spec_sub(nb1, nb2),
                            ) {
                                (Some(na), Some(nb)) => match (
                                    Frac::spec_div(na, det),
                                    Frac::spec_div(nb, det),
                                ) {
                                    (Some(af), Some(bf)) => match (
                                        Frac::spec_mul(af, s1.x),
                                        Frac::spec_mul(bf, s1.y),
                                        Frac::spec_mul(bf, s1.x),
                                        Frac::spec_mul(af, s1.y),
                                    ) {
                                        (Some(g1), Some(g3), Some(h1), Some(h3)) => match (
                                            Frac::spec_sub(w1.x, g1),
                                            Frac::spec_sub(w1.y, h1),
                                        ) {
                                            (Some(g2), Some(h2)) => match (
                                                Frac::spec_add(g2, g3),
                                                Frac::spec_sub(h2, h3),
                                            ) {
                                                (Some(dxt), Some(dyt)) => Ok(
                                                    PointTransform {
                                                        alpha: af,
                                                        beta: bf,
                                                        dx: dxt,
                                                        dy: dyt,
                                                    },
                                                ),
                                                _ => Err(GeomError::Overflow),
                                            },
                                            _ => Err(GeomError::Overflow),
                                        },
                                        _ => Err(GeomError::Overflow),
                                    },
                                    _ => Err(GeomError::Overflow),
                                },
                                _ => Err(GeomError::Overflow),
                            },
                            _ => Err(GeomError::Overflow),
                        },
                        _ => Err(GeomError::Overflow),
                    }
                },
            },
            _ => Err(GeomError::Overflow),
        },
        _ => Err(GeomError::Overflow),
    }
}

/// A sum of two rational squares is zero only when both values are zero.
proof fn lemma_sum_squares_zero(a: Rat, b: Rat)
    requires
        proper(a),
        proper(b),
        radd(rmul(a, a), rmul(b, b)).n == 0,
    ensures
        a.n == 0,
        b.n == 0,
{
    assert(a.n == 0 && b.n == 0) by (nonlinear_arith)
        requires
            (a.n * a.n) * (b.d * b.d) + (b.n * b.n) * (a.d * a.d) == 0,
            a.d != 0,
            b.d != 0,
    ;
}

/// A sum of two rational squares is nonzero as soon as one value is.
proof fn lemma_sum_squares_nonzero(a: Rat, b: Rat)
    requires
        proper(a),
        proper(b),
        a.n != 0 || b.n != 0,
    ensures
        radd(rmul(a, a), rmul(b, b)).n != 0,
{
    assert((a.n * a.n) * (b.d * b.d) + (b.n * b.n) * (a.d * a.d) != 0) by (nonlinear_arith)
        requires
            a.d != 0,
            b.d != 0,
            a.n != 0 || b.n != 0,
    ;
}

/// Multiplication distributes over subtraction on the right.
proof fn lemma_rmul_sub_right(a: Rat, b: Rat, c: Rat)
    requires
        proper(a),
        proper(b),
        proper(c),
    ensures
        req(rmul(rsub(a, b), c), rsub(rmul(a, c), rmul(b, c))),
{
    lemma_rmul_comm(rsub(a, b), c);
    lemma_rmul_sub_distrib(c, a, b);
    lemma_rmul_comm(c, a);
    lemma_rmul_comm(c, b);
}

/// Multiplication distributes over addition on the right.
proof fn lemma_rmul_add_right(a: Rat, b: Rat, c: Rat)
    requires
        proper(a),
        proper(b),
        proper(c),
    ensures
        req(rmul(radd(a, b), c), radd(rmul(a, c), rmul(b, c))),
{
    lemma_rmul_comm(radd(a, b), c);
    lemma_rmul_add_distrib(c, a, b);
    lemma_rmul_comm(c, a);
    lemma_rmul_comm(c, b);
}

/// Calibration round-trip: for any transform parameters and any two screen
/// points that are not rationally equal, estimating from the exact images
/// `w_i = T(s_i)` recovers the four parameters exactly.
pub proof fn lemma_calibration_round_trip(
    alpha: Rat,
    beta: Rat,
    dxt: Rat,
    dyt: Rat,
    s1: RatPoint,
    s2: RatPoint,
)
    requires
        proper(alpha),
        proper(beta),
        proper(dxt),
        proper(dyt),
        rp_proper(s1),
        rp_proper(s2),
        !(req(s1.x, s2.x) && req(s1.y, s2.y)),
    ensures
        req(est_alpha(s1, s2, tw(alpha, beta, dxt, dyt, s1), tw(alpha, beta, dxt, dyt, s2)), alpha),
        req(est_beta(s1, s2, tw(alpha, beta, dxt, dyt, s1), tw(alpha, beta, dxt, dyt, s2)), beta),
        req(est_dx(s1, s2, tw(alpha, beta, dxt, dyt, s1), tw(alpha, beta, dxt, dyt, s2)), dxt),
        req(est_dy(s1, s2, tw(alpha, beta, dxt, dyt, s1), tw(alpha, beta, dxt, dyt, s2)), dyt),
{
    let w1 = tw(alpha, beta, dxt, dyt, s1);
    let w2 = tw(alpha, beta, dxt, dyt, s2);
    let dx = rsub(s1.x, s2.x);
    let dy = rsub(s1.y, s2.y);
    let dwx = rsub(w1.x, w2.x);
    let dwy = rsub(w1.y, w2.y);
    let det = est_det(s1, s2);
    let xx = rmul(dx, dx);
    let yy = rmul(dy, dy);

    let a1x = rmul(alpha, s1.x);
    let b1y = rmul(beta, s1.y);
    let a2x = rmul(alpha, s2.x);
    let b2y = rmul(beta, s2.y);
    let b1x = rmul(beta, s1.x);
    let a1y = rmul(alpha, s1.y);
    let b2x = rmul(beta, s2.x);
    let a2y = rmul(alpha, s2.y);
    let u1 = rsub(a1x, b1y);
    let u2 = rsub(a2x, b2y);
    let v1 = radd(b1x, a1y);
    let v2 = radd(b2x, a2y);

    // propers of everything in sight
    lemma_radd_proper(alpha, s1.x);
    lemma_radd_proper(beta, s1.y);
    lemma_radd_proper(alpha, s2.x);
    lemma_radd_proper(beta, s2.y);
    lemma_radd_proper(beta, s1.x);
    lemma_radd_proper(alpha, s1.y);
    lemma_radd_proper(beta, s2.x);
    lemma_radd_proper(alpha, s2.y);
    lemma_radd_proper(a1x, b1y);
    lemma_radd_proper(a2x, b2y);
    lemma_radd_proper(b1x, a1y);
    lemma_radd_proper(b2x, a2y);
    lemma_radd_proper(u1, dxt);
    lemma_radd_proper(u2, dxt);
    lemma_radd_proper(v1, dyt);
    lemma_radd_proper(v2, dyt);
    lemma_radd_proper(s1.x, s2.x);
    lemma_radd_proper(s1.y, s2.y);
    lemma_radd_proper(w1.x, w2.x);
    lemma_radd_proper(w1.y, w2.y);
    lemma_radd_proper(dx, dx);
    lemma_radd_proper(dy, dy);
    lemma_radd_proper(xx, yy);

    // Step A: dwx == alpha*dx - beta*dy
    let ax = rsub(rmul(alpha, dx), rmul(beta, dy));
    lemma_radd_proper(alpha, dx);
    lemma_radd_proper(beta, dy);
    lemma_radd_proper(beta, dx);
    lemma_radd_proper(alpha, dy);
    lemma_radd_proper(rmul(alpha, dx), rmul(beta, dy));
    lemma_sub_add_cancel(u1, u2, dxt);
    lemma_sub_swap(a1x, b1y, a2x, b2y);
    lemma_radd_proper(a1x, a2x);
    lemma_radd_proper(b1y, b2y);
    lemma_rmul_sub_distrib(alpha, s1.x, s2.x);
    lemma_rmul_sub_distrib(beta, s1.y, s2.y);
    lemma_req_sym(rmul(alpha, dx), rsub(a1x, a2x));
    lemma_req_sym(rmul(beta, dy), rsub(b1y, b2y));
    lemma_rsub_cong(rsub(a1x, a2x), rsub(b1y, b2y), rmul(alpha, dx), rmul(beta, dy));
    lemma_radd_proper(u1, u2);
    lemma_radd_proper(rsub(a1x, a2x), rsub(b1y, b2y));
    lemma_req_trans(dwx, rsub(u1, u2), rsub(rsub(a1x, a2x), rsub(b1y, b2y)));
    lemma_req_trans(dwx, rsub(rsub(a1x, a2x), rsub(b1y, b2y)), ax);

    // Step B: dwy == beta*dx + alpha*dy
    let by = radd(rmul(beta, dx), rmul(alpha, dy));
    lemma_radd_proper(rmul(beta, dx), rmul(alpha, dy));
    lemma_sub_add_cancel(v1, v2, dyt);
    lemma_sub_add_pairs(b1x, a1y, b2x, a2y);
    lemma_radd_proper(b1x, b2x);
    lemma_radd_proper(a1y, a2y);
    lemma_rmul_sub_distrib(beta, s1.x, s2.x);
    lemma_rmul_sub_distrib(alpha, s1.y, s2.y);
    lemma_req_sym(rmul(beta, dx), rsub(b1x, b2x));
    lemma_req_sym(rmul(alpha, dy), rsub(a1y, a2y));
    lemma_radd_cong(rsub(b1x, b2x), rsub(a1y, a2y), rmul(beta, dx), rmul(alpha, dy));
    lemma_radd_proper(v1, v2);
    lemma_radd_proper(rsub(b1x, b2x), rsub(a1y, a2y));
    lemma_req_trans(dwy, rsub(v1, v2), radd(rsub(b1x, b2x), rsub(a1y, a2y)));
    lemma_req_trans(dwy, radd(rsub(b1x, b2x), rsub(a1y, a2y)), by);

    // Step C: dwx*dx + dwy*dy == alpha * det
    let na = radd(rmul(dwx, dx), rmul(dwy, dy));
    let cross = rmul(beta, rmul(dx, dy));
    lemma_radd_proper(dx, dy);
    lemma_radd_proper(beta, rmul(dx, dy));
    lemma_radd_proper(alpha, xx);
    lemma_radd_proper(alpha, yy);
    lemma_radd_proper(beta, xx);
    lemma_radd_proper(beta, yy);
    // dwx*dx == ax*dx == alpha*xx - cross
    lemma_req_refl(dx);
    lemma_radd_proper(dwx, dx);
    lemma_radd_proper(ax, dx);
    lemma_rmul_cong(dwx, dx, ax, dx);
    lemma_rmul_sub_right(rmul(alpha, dx), rmul(beta, dy), dx);
    lemma_rmul_assoc(alpha, dx, dx);
    lemma_rmul_assoc(beta, dy, dx);
    lemma_rmul_comm(dy, dx);
    assert(rmul(rmul(alpha, dx), dx) == rmul(alpha, xx));
    assert(rmul(rmul(beta, dy), dx) == cross);
    lemma_radd_proper(rmul(alpha, xx), cross);
    lemma_req_trans(rmul(dwx, dx), rmul(ax, dx), rsub(rmul(alpha, xx), cross));
    // dwy*dy == by*dy == cross + alpha*yy
    lemma_req_refl(dy);
    lemma_radd_proper(dwy, dy);
    lemma_radd_proper(by, dy);
    lemma_rmul_cong(dwy, dy, by, dy);
    lemma_rmul_add_right(rmul(beta, dx), rmul(alpha, dy), dy);
    lemma_rmul_assoc(beta, dx, dy);
    lemma_rmul_assoc(alpha, dy, dy);
    assert(rmul(rmul(beta, dx), dy) == cross);
    assert(rmul(rmul(alpha, dy), dy) == rmul(alpha, yy));
    lemma_radd_proper(cross, rmul(alpha, yy));
    lemma_req_trans(rmul(dwy, dy), rmul(by, dy), radd(cross, rmul(alpha, yy)));
    // sum them
    lemma_radd_cong(
        rmul(dwx, dx),
        rmul(dwy, dy),
        rsub(rmul(alpha, xx), cross),
        radd(cross, rmul(alpha, yy)),
    );
    lemma_sub_then_add_cancel(rmul(alpha, xx), cross, rmul(alpha, yy));
    lemma_radd_proper(rmul(alpha, xx), rmul(alpha, yy));
    lemma_rmul_add_distrib(alpha, xx, yy);
    lemma_req_sym(rmul(alpha, radd(xx, yy)), radd(rmul(alpha, xx), rmul(alpha, yy)));
    lemma_radd_proper(rmul(dwx, dx), rmul(dwy, dy));
    lemma_radd_proper(rsub(rmul(alpha, xx), cross), radd(cross, rmul(alpha, yy)));
    lemma_radd_proper(alpha, det);
    lemma_req_trans(
        na,
        radd(rsub(rmul(alpha, xx), cross), radd(cross, rmul(alpha, yy))),
        radd(rmul(alpha, xx), rmul(alpha, yy)),
    );
    lemma_req_trans(na, radd(rmul(alpha, xx), rmul(alpha, yy)), rmul(alpha, det));

    // Step D: dwy*dx - dwx*dy == beta * det
    let nb = rsub(rmul(dwy, dx), rmul(dwx, dy));
    let crossa = rmul(alpha, rmul(dx, dy));
    lemma_radd_proper(alpha, rmul(dx, dy));
    // dwy*dx == by*dx == beta*xx + crossa
    lemma_radd_proper(dwy, dx);
    lemma_radd_proper(by, dx);
    lemma_rmul_cong(dwy, dx, by, dx);
    lemma_rmul_add_right(rmul(beta, dx), rmul(alpha, dy), dx);
    lemma_rmul_assoc(beta, dx, dx);
    lemma_rmul_assoc(alpha, dy, dx);
    assert(rmul(rmul(beta, dx), dx) == rmul(beta, xx));
    assert(rmul(rmul(alpha, dy), dx) == crossa);
    lemma_radd_proper(rmul(beta, xx), crossa);
    lemma_req_trans(rmul(dwy, dx), rmul(by, dx), radd(rmul(beta, xx), crossa));
    // dwx*dy == ax*dy == crossa - beta*yy
    lemma_radd_proper(dwx, dy);
    lemma_radd_proper(ax, dy);
    lemma_rmul_cong(dwx, dy, ax, dy);
    lemma_rmul_sub_right(rmul(alpha, dx), rmul(beta, dy), dy);
    lemma_rmul_assoc(alpha, dx, dy);
    lemma_rmul_assoc(beta, dy, dy);
    assert(rmul(rmul(alpha, dx), dy) == crossa);
    assert(rmul(rmul(beta, dy), dy) == rmul(beta, yy));
    lemma_radd_proper(crossa, rmul(beta, yy));
    lemma_req_trans(rmul(dwx, dy), rmul(ax, dy), rsub(crossa, rmul(beta, yy)));
    // subtract them
    lemma_rsub_cong(
        rmul(dwy, dx),
        rmul(dwx, dy),
        radd(rmul(beta, xx), crossa),
        rsub(crossa, rmul(beta, yy)),
    );
    lemma_add_sub_cancel2(rmul(beta, xx), crossa, rmul(beta, yy));
    lemma_radd_proper(rmul(beta, xx), rmul(beta, yy));
    lemma_rmul_add_distrib(beta, xx, yy);
    lemma_req_sym(rmul(beta, radd(xx, yy)), radd(rmul(beta, xx), rmul(beta, yy)));
    lemma_radd_proper(rmul(dwy, dx), rmul(dwx, dy));
    lemma_radd_proper(radd(rmul(beta, xx), crossa), rsub(crossa, rmul(beta, yy)));
    lemma_radd_proper(beta, det);
    lemma_req_trans(
        nb,
        rsub(radd(rmul(beta, xx), crossa), rsub(crossa, rmul(beta, yy))),
        radd(rmul(beta, xx), rmul(beta, yy)),
    );
    lemma_req_trans(nb, radd(rmul(beta, xx), rmul(beta, yy)), rmul(beta, det));

    // Step E: the determinant is nonzero for distinct screen points
    lemma_sum_squares_nonzero(dx, dy);

    // Step F: the quotients recover alpha and beta
    lemma_rdiv_of_product(na, det, alpha);
    lemma_rdiv_of_product(nb, det, beta);
    let ea = est_alpha(s1, s2, w1, w2);
    let eb = est_beta(s1, s2, w1, w2);
    assert(ea == rdiv(na, det));
    assert(eb == rdiv(nb, det));
    assert(proper(ea) && proper(eb));

    // Step G: the translation dx is recovered
    lemma_req_refl(s1.x);
    lemma_req_refl(s1.y);
    lemma_radd_proper(ea, s1.x);
    lemma_radd_proper(eb, s1.y);
    lemma_rmul_cong(ea, s1.x, alpha, s1.x);
    lemma_rmul_cong(eb, s1.y, beta, s1.y);
    lemma_req_refl(w1.x);
    lemma_rsub_cong(w1.x, rmul(ea, s1.x), w1.x, a1x);
    lemma_radd_proper(w1.x, rmul(ea, s1.x));
    lemma_radd_proper(w1.x, a1x);
    lemma_radd_cong(
        rsub(w1.x, rmul(ea, s1.x)),
        rmul(eb, s1.y),
        rsub(w1.x, a1x),
        b1y,
    );
    lemma_recover_shift(a1x, b1y, dxt);
    lemma_radd_proper(rsub(w1.x, rmul(ea, s1.x)), rmul(eb, s1.y));
    lemma_radd_proper(rsub(w1.x, a1x), b1y);
    lemma_req_trans(
        radd(rsub(w1.x, rmul(ea, s1.x)), rmul(eb, s1.y)),
        radd(rsub(w1.x, a1x), b1y),
        dxt,
    );

    // Step H: the translation dy is recovered
    lemma_rmul_cong(eb, s1.x, beta, s1.x);
    lemma_rmul_cong(ea, s1.y, alpha, s1.y);
    lemma_radd_proper(eb, s1.x);
    lemma_radd_proper(ea, s1.y);
    lemma_req_refl(w1.y);
    lemma_rsub_cong(w1.y, rmul(eb, s1.x), w1.y, b1x);
    lemma_radd_proper(w1.y, rmul(eb, s1.x));
    lemma_radd_proper(w1.y, b1x);
    lemma_rsub_cong(
        rsub(w1.y, rmul(eb, s1.x)),
        rmul(ea, s1.y),
        rsub(w1.y, b1x),
        a1y,
    );
    lemma_recover_shift2(b1x, a1y, dyt);
    lemma_radd_proper(rsub(w1.y, rmul(eb, s1.x)), rmul(ea, s1.y));
    lemma_radd_proper(rsub(w1.y, b1x), a1y);
    lemma_req_trans(
        rsub(rsub(w1.y, rmul(eb, s1.x)), rmul(ea, s1.y)),
        rsub(rsub(w1.y, b1x), a1y),
        dyt,
    );
}

impl PointTransform {
    /// Estimate the transform from two (screen, real-world) correspondences.
    ///
    /// Fails with `DegenerateCalibration` exactly when the two screen points
    /// coincide (the system's determinant `(x1-x2)^2 + (y1-y2)^2` is then
    /// zero), and with `Overflow` when an exact intermediate leaves the
    /// `i64` fraction range.  On success the four returned parameters carry
    /// exactly the rational solution of the linear system.
    pub fn interpolate_from_point_pairs(
        pair1: (PointCoords, PointCoords),
        pair2: (PointCoords, PointCoords),
    ) -> (r: Result<PointTransform, GeomError>)
        requires
            pair1.0.wf(),
            pair1.1.wf(),
            pair2.0.wf(),
            pair2.1.wf(),
        ensures
            r == Err::<PointTransform, GeomError>(GeomError::DegenerateCalibration) <==> pair1.0
                == pair2.0,
            r matches Ok(t) ==> {
                &&& t.wf()
                &&& req(t.alpha@, est_alpha(rp(pair1.0), rp(pair2.0), rp(pair1.1), rp(pair2.1)))
                &&& req(t.beta@, est_beta(rp(pair1.0), rp(pair2.0), rp(pair1.1), rp(pair2.1)))
                &&& req(t.dx@, est_dx(rp(pair1.0), rp(pair2.0), rp(pair1.1), rp(pair2.1)))
                &&& req(t.dy@, est_dy(rp(pair1.0), rp(pair2.0), rp(pair1.1), rp(pair2.1)))
            },
            r is Err ==> r == Err::<PointTransform, GeomError>(GeomError::DegenerateCalibration)
                || r == Err::<PointTransform, GeomError>(GeomError::Overflow),
            r == spec_estimate(pair1.0, pair1.1, pair2.0, pair2.1),
    {
        let (s1, w1) = pair1;
        let (s2, w2) = pair2;
        let ghost gs1 = rp(s1);
        let ghost gs2 = rp(s2);
        let ghost gw1 = rp(w1);
        let ghost gw2 = rp(w2);
        let ghost gdx = rsub(gs1.x, gs2.x);
        let ghost gdy = rsub(gs1.y, gs2.y);
        proof {
            crate::frac::lemma_frac_consts();
            crate::frac::lemma_wf_proper(s1.x);
            crate::frac::lemma_wf_proper(s1.y);
            crate::frac::lemma_wf_proper(s2.x);
            crate::frac::lemma_wf_proper(s2.y);
            crate::frac::lemma_wf_proper(w1.x);
            crate::frac::lemma_wf_proper(w1.y);
            crate::frac::lemma_wf_proper(w2.x);
            crate::frac::lemma_wf_proper(w2.y);
            lemma_radd_proper(gs1.x, gs2.x);
            lemma_radd_proper(gs1.y, gs2.y);
            lemma_radd_proper(gdx, gdx);
            lemma_radd_proper(gdy, gdy);
            lemma_radd_proper(rmul(gdx, gdx), rmul(gdy, gdy));
        }
        let dxf = match s1.x.checked_sub(s2.x) {
            Some(v) => v,
            None => {
                return Err(GeomError::Overflow);
            },
        };
        let dyf = match s1.y.checked_sub(s2.y) {
            Some(v) => v,
            None => {
                return Err(GeomError::Overflow);
            },
        };
        let t1 = match dxf.checked_mul(dxf) {
            Some(v) => v,
            None => {
                return Err(GeomError::Overflow);
            },
        };
        let t2 = match dyf.checked_mul(dyf) {
            Some(v) => v,
            None => {
                return Err(GeomError::Overflow);
            },
        };
        let detf = match t1.checked_add(t2) {
            Some(v) => v,
            None => {
                return Err(GeomError::Overflow);
            },
        };
        proof {
            // detf carries the determinant (x1-x2)^2 + (y1-y2)^2
            crate::frac::lemma_wf_proper(dxf);
            crate::frac::lemma_wf_proper(dyf);
            crate::frac::lemma_wf_proper(t1);
            crate::frac::lemma_wf_proper(t2);
            crate::frac::lemma_wf_proper(detf);
            lemma_req_refl(dxf@);
            lemma_req_refl(dyf@);
            lemma_rmul_cong(dxf@, dxf@, gdx, gdx);
            lemma_rmul_cong(dyf@, dyf@, gdy, gdy);
            lemma_radd_proper(dxf@, dxf@);
            lemma_radd_proper(dyf@, dyf@);
            lemma_req_trans(t1@, rmul(dxf@, dxf@), rmul(gdx, gdx));
            lemma_req_trans(t2@, rmul(dyf@, dyf@), rmul(gdy, gdy));
            lemma_radd_cong(t1@, t2@, rmul(gdx, gdx), rmul(gdy, gdy));
            lemma_radd_proper(t1@, t2@);
            lemma_req_trans(detf@, radd(t1@, t2@), est_det(gs1, gs2));
            lemma_req_zero(detf@, est_det(gs1, gs2));
        }
        if detf.is_zero() {
            proof {
                lemma_sum_squares_zero(gdx, gdy);
                crate::frac::lemma_frac_canonical(s1.x, s2.x);
                crate::frac::lemma_frac_canonical(s1.y, s2.y);
            }
            return Err(GeomError::DegenerateCalibration);
        }
        let ghost gdet = est_det(gs1, gs2);
        let ghost gdwx = rsub(gw1.x, gw2.x);
        let ghost gdwy = rsub(gw1.y, gw2.y);
        let ghost gna = radd(rmul(gdwx, gdx), rmul(gdwy, gdy));
        let ghost gnb = rsub(rmul(gdwy, gdx), rmul(gdwx, gdy));
        proof {
            lemma_radd_proper(gw1.x, gw2.x);
            lemma_radd_proper(gw1.y, gw2.y);
            lemma_radd_proper(gdwx, gdx);
            lemma_radd_proper(gdwy, gdy);
            lemma_radd_proper(gdwy, gdx);
            lemma_radd_proper(gdwx, gdy);
            lemma_radd_proper(rmul(gdwx, gdx), rmul(gdwy, gdy));
            lemma_radd_proper(rmul(gdwy, gdx), rmul(gdwx, gdy));
        }
        let dwxf = match w1.x.checked_sub(w2.x) {
            Some(v) => v,
            None => {
                return Err(GeomError::Overflow);
            },
        };
        let dwyf = match w1.y.checked_sub(w2.y) {
            Some(v) => v,
            None => {
                return Err(GeomError::Overflow);
            },
        };
        let na1 = match dwxf.checked_mul(dxf) {
            Some(v) => v,
            None => {
                return Err(GeomError::Overflow);
            },
        };
        let na2 = match dwyf.checked_mul(dyf) {
            Some(v) => v,
            None => {
                return Err(GeomError::Overflow);
            },
        };
        let naf = match na1.checked_add(na2) {
            Some(v) => v,
            None => {
                return Err(GeomError::Overflow);
            },
        };
        let nb1 = match dwyf.checked_mul(dxf) {
            Some(v) => v,
            None => {
                return Err(GeomError::Overflow);
            },
        };
        let nb2 = match dwxf.checked_mul(dyf) {
            Some(v) => v,
            None => {
                return Err(GeomError::Overflow);
            },
        };
        let nbf = match nb1.checked_sub(nb2) {
            Some(v) => v,
            None => {
                return Err(GeomError::Overflow);
            },
        };
        let af = match naf.checked_div(detf) {
            Some(v) => v,
            None => {
                return Err(GeomError::Overflow);
            },
        };
        let bf = match nbf.checked_div(detf) {
            Some(v) => v,
            None => {
                return Err(GeomError::Overflow);
            },
        };
        proof {
            // af and bf carry the estimated alpha and beta
            crate::frac::lemma_wf_proper(dwxf);
            crate::frac::lemma_wf_proper(dwyf);
            crate::frac::lemma_wf_proper(na1);
            crate::frac::lemma_wf_proper(na2);
            crate::frac::lemma_wf_proper(naf);
            crate::frac::lemma_wf_proper(nb1);
            crate::frac::lemma_wf_proper(nb2);
            crate::frac::lemma_wf_proper(nbf);
            crate::frac::lemma_wf_proper(af);
            crate::frac::lemma_wf_proper(bf);
            lemma_rmul_cong(dwxf@, dxf@, gdwx, gdx);
            lemma_rmul_cong(dwyf@, dyf@, gdwy, gdy);
            lemma_radd_proper(dwxf@, dxf@);
            lemma_radd_proper(dwyf@, dyf@);
            lemma_req_trans(na1@, rmul(dwxf@, dxf@), rmul(gdwx, gdx));
            lemma_req_trans(na2@, rmul(dwyf@, dyf@), rmul(gdwy, gdy));
            lemma_radd_cong(na1@, na2@, rmul(gdwx, gdx), rmul(gdwy, gdy));
            lemma_radd_proper(na1@, na2@);
            lemma_req_trans(naf@, radd(na1@, na2@), gna);
            lemma_rmul_cong(dwyf@, dxf@, gdwy, gdx);
            lemma_rmul_cong(dwxf@, dyf@, gdwx, gdy);
            lemma_radd_proper(dwyf@, dxf@);
            lemma_radd_proper(dwxf@, dyf@);
            lemma_req_trans(nb1@, rmul(dwyf@, dxf@), rmul(gdwy, gdx));
            lemma_req_trans(nb2@, rmul(dwxf@, dyf@), rmul(gdwx, gdy));
            lemma_rsub_cong(nb1@, nb2@, rmul(gdwy, gdx), rmul(gdwx, gdy));
            lemma_radd_proper(nb1@, nb2@);
            lemma_req_trans(nbf@, rsub(nb1@, nb2@), gnb);
            crate::rational::lemma_rdiv_cong(naf@, detf@, gna, gdet);
            crate::rational::lemma_rdiv_cong(nbf@, detf@, gnb, gdet);
            lemma_req_trans(af@, rdiv(naf@, detf@), est_alpha(gs1, gs2, gw1, gw2));
            lemma_req_trans(bf@, rdiv(nbf@, detf@), est_beta(gs1, gs2, gw1, gw2));
        }
        let g1 = match af.checked_mul(s1.x) {
            Some(v) => v,
            None => {
                return Err(GeomError::Overflow);
            },
        };
        let g2 = match w1.x.checked_sub(g1) {
            Some(v) => v,
            None => {
                return Err(GeomError::Overflow);
            },
        };
        let g3 = match bf.checked_mul(s1.y) {
            Some(v) => v,
            None => {
                return Err(GeomError::Overflow);
            },
        };
        let dxtf = match g2.checked_add(g3) {
            Some(v) => v,
            None => {
                return Err(GeomError::Overflow);
            },
        };
        let h1 = match bf.checked_mul(s1.x) {
            Some(v) => v,
            None => {
                return Err(GeomError::Overflow);
            },
        };
        let h2 = match w1.y.checked_sub(h1) {
            Some(v) => v,
            None => {
                return Err(GeomError::Overflow);
            },
        };
        let h3 = match af.checked_mul(s1.y) {
            Some(v) => v,
            None => {
                return Err(GeomError::Overflow);
            },
        };
        let dytf = match h2.checked_sub(h3) {
            Some(v) => v,
            None => {
                return Err(GeomError::Overflow);
            },
        };
        proof {
            // the translation components carry est_dx and est_dy
            let gea = est_alpha(gs1, gs2, gw1, gw2);
            let geb = est_beta(gs1, gs2, gw1, gw2);
            crate::frac::lemma_wf_proper(g1);
            crate::frac::lemma_wf_proper(g2);
            crate::frac::lemma_wf_proper(g3);
            crate::frac::lemma_wf_proper(dxtf);
            crate::frac::lemma_wf_proper(h1);
            crate::frac::lemma_wf_proper(h2);
            crate::frac::lemma_wf_proper(h3);
            crate::frac::lemma_wf_proper(dytf);
            lemma_req_refl(gs1.x);
            lemma_req_refl(gs1.y);
            lemma_req_refl(gw1.x);
            lemma_req_refl(gw1.y);
            lemma_rmul_cong(af@, gs1.x, gea, gs1.x);
            lemma_radd_proper(af@, gs1.x);
            lemma_radd_proper(gea, gs1.x);
            lemma_req_trans(g1@, rmul(af@, gs1.x), rmul(gea, gs1.x));
            lemma_rsub_cong(gw1.x, g1@, gw1.x, rmul(gea, gs1.x));
            lemma_radd_proper(gw1.x, g1@);
            lemma_radd_proper(gw1.x, rmul(gea, gs1.x));
            lemma_req_trans(g2@, rsub(gw1.x, g1@), rsub(gw1.x, rmul(gea, gs1.x)));
            lemma_rmul_cong(bf@, gs1.y, geb, gs1.y);
            lemma_radd_proper(bf@, gs1.y);
            lemma_radd_proper(geb, gs1.y);
            lemma_req_trans(g3@, rmul(bf@, gs1.y), rmul(geb, gs1.y));
            lemma_radd_cong(g2@, g3@, rsub(gw1.x, rmul(gea, gs1.x)), rmul(geb, gs1.y));
            lemma_radd_proper(g2@, g3@);
            lemma_req_trans(
                dxtf@,
                radd(g2@, g3@),
                est_dx(gs1, gs2, gw1, gw2),
            );
            lemma_rmul_cong(bf@, gs1.x, geb, gs1.x);
            lemma_radd_proper(bf@, gs1.x);
            lemma_radd_proper(geb, gs1.x);
            lemma_req_trans(h1@, rmul(bf@, gs1.x), rmul(geb, gs1.x));
            lemma_rsub_cong(gw1.y, h1@, gw1.y, rmul(geb, gs1.x));
            lemma_radd_proper(gw1.y, h1@);
            lemma_radd_proper(gw1.y, rmul(geb, gs1.x));
            lemma_req_trans(h2@, rsub(gw1.y, h1@), rsub(gw1.y, rmul(geb, gs1.x)));
            lemma_rmul_cong(af@, gs1.y, gea, gs1.y);
            lemma_radd_proper(af@, gs1.y);
            lemma_radd_proper(gea, gs1.y);
            lemma_req_trans(h3@, rmul(af@, gs1.y), rmul(gea, gs1.y));
            lemma_rsub_cong(h2@, h3@, rsub(gw1.y, rmul(geb, gs1.x)), rmul(gea, gs1.y));
            lemma_radd_proper(h2@, h3@);
            lemma_req_trans(
                dytf@,
                rsub(h2@, h3@),
                est_dy(gs1, gs2, gw1, gw2),
            );
        }
        Ok(PointTransform::new(af, bf, dxtf, dytf))
    }
}

/// End-to-end calibration round-trip: if the two world points are the exact
/// images of two distinct screen points under a transform, the estimated
/// parameters equal that transform's parameters as rational values (and so,
/// by canonicity, the estimator returns the transform itself).
pub proof fn lemma_exec_round_trip(
    t: PointTransform,
    s1: PointCoords,
    s2: PointCoords,
    w1: PointCoords,
    w2: PointCoords,
)
    requires
        t.wf(),
        s1.wf(),
        s2.wf(),
        spec_apply(t, s1) == Some(w1),
        spec_apply(t, s2) == Some(w2),
        s1 != s2,
    ensures
        req(est_alpha(rp(s1), rp(s2), rp(w1), rp(w2)), t.alpha@),
        req(est_beta(rp(s1), rp(s2), rp(w1), rp(w2)), t.beta@),
        req(est_dx(rp(s1), rp(s2), rp(w1), rp(w2)), t.dx@),
        req(est_dy(rp(s1), rp(s2), rp(w1), rp(w2)), t.dy@),
{
    lemma_apply_chain(t, s1);
    lemma_apply_chain(t, s2);
    crate::frac::lemma_wf_proper(t.alpha);
    crate::frac::lemma_wf_proper(t.beta);
    crate::frac::lemma_wf_proper(t.dx);
    crate::frac::lemma_wf_proper(t.dy);
    crate::frac::lemma_wf_proper(s1.x);
    crate::frac::lemma_wf_proper(s1.y);
    crate::frac::lemma_wf_proper(s2.x);
    crate::frac::lemma_wf_proper(s2.y);
    crate::frac::lemma_wf_proper(w1.x);
    crate::frac::lemma_wf_proper(w1.y);
    crate::frac::lemma_wf_proper(w2.x);
    crate::frac::lemma_wf_proper(w2.y);
    let al = t.alpha@;
    let be = t.beta@;
    let dxt = t.dx@;
    let dyt = t.dy@;
    let gs1 = rp(s1);
    let gs2 = rp(s2);
    let gw1 = rp(w1);
    let gw2 = rp(w2);
    let tw1 = tw(al, be, dxt, dyt, gs1);
    let tw2 = tw(al, be, dxt, dyt, gs2);
    // the images carry exactly the transformed rational coordinates
    assert(req(gw1.x, tw1.x));
    assert(req(gw1.y, tw1.y));
    assert(req(gw2.x, tw2.x));
    assert(req(gw2.y, tw2.y));
    // distinct points are rationally distinct in some coordinate
    if req(gs1.x, gs2.x) && req(gs1.y, gs2.y) {
        crate::frac::lemma_frac_canonical(s1.x, s2.x);
        crate::frac::lemma_frac_canonical(s1.y, s2.y);
    }
    lemma_calibration_round_trip(al, be, dxt, dyt, gs1, gs2);
    // propers of the transformed coordinates
    lemma_radd_proper(al, gs1.x);
    lemma_radd_proper(be, gs1.y);
    lemma_radd_proper(al, gs2.x);
    lemma_radd_proper(be, gs2.y);
    lemma_radd_proper(be, gs1.x);
    lemma_radd_proper(al, gs1.y);
    lemma_radd_proper(be, gs2.x);
    lemma_radd_proper(al, gs2.y);
    lemma_radd_proper(rmul(al, gs1.x), rmul(be, gs1.y));
    lemma_radd_proper(rmul(al, gs2.x), rmul(be, gs2.y));
    lemma_radd_proper(rmul(be, gs1.x), rmul(al, gs1.y));
    lemma_radd_proper(rmul(be, gs2.x), rmul(al, gs2.y));
    lemma_radd_proper(rsub(rmul(al, gs1.x), rmul(be, gs1.y)), dxt);
    lemma_radd_proper(rsub(rmul(al, gs2.x), rmul(be, gs2.y)), dxt);
    lemma_radd_proper(radd(rmul(be, gs1.x), rmul(al, gs1.y)), dyt);
    lemma_radd_proper(radd(rmul(be, gs2.x), rmul(al, gs2.y)), dyt);
    // deltas
    let dx = rsub(gs1.x, gs2.x);
    let dy = rsub(gs1.y, gs2.y);
    let det = est_det(gs1, gs2);
    lemma_radd_proper(gs1.x, gs2.x);
    lemma_radd_proper(gs1.y, gs2.y);
    lemma_radd_proper(dx, dx);
    lemma_radd_proper(dy, dy);
    lemma_radd_proper(rmul(dx, dx), rmul(dy, dy));
    lemma_sum_squares_nonzero(dx, dy);
    lemma_req_refl(dx);
    lemma_req_refl(dy);
    lemma_req_refl(det);
    // world-delta congruences
    let dwxw = rsub(gw1.x, gw2.x);
    let dwyw = rsub(gw1.y, gw2.y);
    let dwxt = rsub(tw1.x, tw2.x);
    let dwyt = rsub(tw1.y, tw2.y);
    lemma_rsub_cong(gw1.x, gw2.x, tw1.x, tw2.x);
    lemma_rsub_cong(gw1.y, gw2.y, tw1.y, tw2.y);
    lemma_radd_proper(gw1.x, gw2.x);
    lemma_radd_proper(gw1.y, gw2.y);
    lemma_radd_proper(tw1.x, tw2.x);
    lemma_radd_proper(tw1.y, tw2.y);
    // numerators of alpha
    lemma_rmul_cong(dwxw, dx, dwxt, dx);
    lemma_rmul_cong(dwyw, dy, dwyt, dy);
    lemma_radd_proper(dwxw, dx);
    lemma_radd_proper(dwyw, dy);
    lemma_radd_proper(dwxt, dx);
    lemma_radd_proper(dwyt, dy);
    lemma_radd_cong(rmul(dwxw, dx), rmul(dwyw, dy), rmul(dwxt, dx), rmul(dwyt, dy));
    let na_w = radd(rmul(dwxw, dx), rmul(dwyw, dy));
    let na_t = radd(rmul(dwxt, dx), rmul(dwyt, dy));
    lemma_radd_proper(rmul(dwxw, dx), rmul(dwyw, dy));
    lemma_radd_proper(rmul(dwxt, dx), rmul(dwyt, dy));
    crate::rational::lemma_rdiv_cong(na_w, det, na_t, det);
    let eaw = est_alpha(gs1, gs2, gw1, gw2);
    let eat = est_alpha(gs1, gs2, tw1, tw2);
    assert(eaw == rdiv(na_w, det));
    assert(eat == rdiv(na_t, det));
    lemma_req_trans(eaw, eat, al);
    // numerators of beta
    lemma_rmul_cong(dwyw, dx, dwyt, dx);
    lemma_rmul_cong(dwxw, dy, dwxt, dy);
    lemma_radd_proper(dwyw, dx);
    lemma_radd_proper(dwxw, dy);
    lemma_radd_proper(dwyt, dx);
    lemma_radd_proper(dwxt, dy);
    lemma_rsub_cong(rmul(dwyw, dx), rmul(dwxw, dy), rmul(dwyt, dx), rmul(dwxt, dy));
    let nb_w = rsub(rmul(dwyw, dx), rmul(dwxw, dy));
    let nb_t = rsub(rmul(dwyt, dx), rmul(dwxt, dy));
    lemma_radd_proper(rmul(dwyw, dx), rmul(dwxw, dy));
    lemma_radd_proper(rmul(dwyt, dx), rmul(dwxt, dy));
    crate::rational::lemma_rdiv_cong(nb_w, det, nb_t, det);
    let ebw = est_beta(gs1, gs2, gw1, gw2);
    let ebt = est_beta(gs1, gs2, tw1, tw2);
    lemma_req_trans(ebw, ebt, be);
    // the translation components
    lemma_req_refl(gs1.x);
    lemma_req_refl(gs1.y);
    lemma_rmul_cong(eaw, gs1.x, eat, gs1.x);
    lemma_rmul_cong(ebw, gs1.y, ebt, gs1.y);
    lemma_radd_proper(eaw, gs1.x);
    lemma_radd_proper(ebw, gs1.y);
    lemma_radd_proper(eat, gs1.x);
    lemma_radd_proper(ebt, gs1.y);
    lemma_rsub_cong(gw1.x, rmul(eaw, gs1.x), tw1.x, rmul(eat, gs1.x));
    lemma_radd_proper(gw1.x, rmul(eaw, gs1.x));
    lemma_radd_proper(tw1.x, rmul(eat, gs1.x));
    lemma_radd_cong(
        rsub(gw1.x, rmul(eaw, gs1.x)),
        rmul(ebw, gs1.y),
        rsub(tw1.x, rmul(eat, gs1.x)),
        rmul(ebt, gs1.y),
    );
    lemma_radd_proper(rsub(gw1.x, rmul(eaw, gs1.x)), rmul(ebw, gs1.y));
    lemma_radd_proper(rsub(tw1.x, rmul(eat, gs1.x)), rmul(ebt, gs1.y));
    lemma_req_trans(
        est_dx(gs1, gs2, gw1, gw2),
        est_dx(gs1, gs2, tw1, tw2),
        dxt,
    );
    lemma_rmul_cong(ebw, gs1.x, ebt, gs1.x);
    lemma_rmul_cong(eaw, gs1.y, eat, gs1.y);
    lemma_radd_proper(ebw, gs1.x);
    lemma_radd_proper(eaw, gs1.y);
    lemma_radd_proper(ebt, gs1.x);
    lemma_radd_proper(eat, gs1.y);
    lemma_rsub_cong(gw1.y, rmul(ebw, gs1.x), tw1.y, rmul(ebt, gs1.x));
    lemma_radd_proper(gw1.y, rmul(ebw, gs1.x));
    lemma_radd_proper(tw1.y, rmul(ebt, gs1.x));
    lemma_rsub_cong(
        rsub(gw1.y, rmul(ebw, gs1.x)),
        rmul(eaw, gs1.y),
        rsub(tw1.y, rmul(ebt, gs1.x)),
        rmul(eat, gs1.y),
    );
    lemma_radd_proper(rsub(gw1.y, rmul(ebw, gs1.x)), rmul(eaw, gs1.y));
    lemma_radd_proper(rsub(tw1.y, rmul(ebt, gs1.x)), rmul(eat, gs1.y));
    lemma_req_trans(
        est_dy(gs1, gs2, gw1, gw2),
        est_dy(gs1, gs2, tw1, tw2),
        dyt,
    );
}

} // verus!
