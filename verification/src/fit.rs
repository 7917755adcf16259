//! The ordinary least-squares line fitter and the regression line record.
//!
//! For a point set `{(x_i, y_i)}` of size `n` the fitter computes, exactly,
//! ```text
//! slope     = (n*sum(x*y) - sum(x)*sum(y)) / (n*sum(x*x) - sum(x)^2)
//! intercept = (sum(y) - slope*sum(x)) / n
//! ```
//! It fails with `InsufficientPoints` exactly when the set holds fewer than
//! two points, with `DegenerateFit` when the denominator is zero (all points
//! share one x), and with `Overflow` when an exact intermediate leaves the
//! `i64` fraction range.

use vstd::prelude::*;
use crate::frac::Frac;
use crate::rational::{
    Rat, proper, req, radd, rsub, rmul, rdiv, rzero, rint, lemma_req_refl, lemma_req_sym,
    lemma_req_trans,
    lemma_req_zero, lemma_radd_proper, lemma_radd_cong, lemma_rsub_cong, lemma_rmul_cong,
    lemma_rdiv_cong,
};
use crate::point_handling::{
    PointCoords, PointTransform, UniquePointBuf, seq_wf, seq_unique, spec_transform_seq,
    lemma_transform_identity,
};
use crate::GeomError;

verus! {

/// Sum of the x coordinates, as a rational.
pub open spec fn rsum_x(s: Seq<PointCoords>) -> Rat
    decreases s.len(),
{
    if s.len() == 0 {
        rzero()
    } else {
        radd(rsum_x(s.drop_last()), s.last().x@)
    }
}

/// Sum of the y coordinates.
pub open spec fn rsum_y(s: Seq<PointCoords>) -> Rat
    decreases s.len(),
{
    if s.len() == 0 {
        rzero()
    } else {
        radd(rsum_y(s.drop_last()), s.last().y@)
    }
}

/// Sum of the squared x coordinates.
pub open spec fn rsum_xx(s: Seq<PointCoords>) -> Rat
    decreases s.len(),
{
    if s.len() == 0 {
        rzero()
    } else {
        radd(rsum_xx(s.drop_last()), rmul(s.last().x@, s.last().x@))
    }
}

/// Sum of the products `x*y`.
pub open spec fn rsum_xy(s: Seq<PointCoords>) -> Rat
    decreases s.len(),
{
    if s.len() == 0 {
        rzero()
    } else {
        radd(rsum_xy(s.drop_last()), rmul(s.last().x@, s.last().y@))
    }
}

/// The number of points, as a rational.
pub open spec fn fit_n(s: Seq<PointCoords>) -> Rat {
    rint(s.len() as int)
}

/// The least-squares denominator `n*sum(x*x) - sum(x)^2`.
pub open spec fn fit_denom(s: Seq<PointCoords>) -> Rat {
    rsub(rmul(fit_n(s), rsum_xx(s)), rmul(rsum_x(s), rsum_x(s)))
}

/// The least-squares slope numerator `n*sum(x*y) - sum(x)*sum(y)`.
pub open spec fn fit_slope_num(s: Seq<PointCoords>) -> Rat {
    rsub(rmul(fit_n(s), rsum_xy(s)), rmul(rsum_x(s), rsum_y(s)))
}

/// The exact least-squares slope.
pub open spec fn slope_rat(s: Seq<PointCoords>) -> Rat {
    rdiv(fit_slope_num(s), fit_denom(s))
}

/// The exact least-squares intercept `(sum(y) - slope*sum(x)) / n`.
pub open spec fn intercept_rat(s: Seq<PointCoords>) -> Rat {
    rdiv(rsub(rsum_y(s), rmul(slope_rat(s), rsum_x(s))), fit_n(s))
}

/// All four sums of a well-formed point sequence are proper rationals.
proof fn lemma_sums_proper(s: Seq<PointCoords>)
    requires
        seq_wf(s),
    ensures
        proper(rsum_x(s)),
        proper(rsum_y(s)),
        proper(rsum_xx(s)),
        proper(rsum_xy(s)),
    decreases s.len(),
{
    if s.len() == 0 {
    } else {
        let front = s.drop_last();
        assert(seq_wf(front)) by {
            assert(forall|i: int| 0 <= i < front.len() ==> front[i] == s[i]);
        }
        lemma_sums_proper(front);
        crate::frac::lemma_wf_proper(s.last().x);
        crate::frac::lemma_wf_proper(s.last().y);
        lemma_radd_proper(s.last().x@, s.last().x@);
        lemma_radd_proper(s.last().x@, s.last().y@);
        lemma_radd_proper(rsum_x(front), s.last().x@);
        lemma_radd_proper(rsum_y(front), s.last().y@);
        lemma_radd_proper(rsum_xx(front), rmul(s.last().x@, s.last().x@));
        lemma_radd_proper(rsum_xy(front), rmul(s.last().x@, s.last().y@));
    }
}

/// One accumulation step: if the accumulator carries the partial sum and the
/// checked addition succeeded, the new accumulator carries the extended sum.
proof fn lemma_sum_step(acc: Rat, target: Rat, x: Rat, nacc: Rat)
    requires
        req(acc, target),
        req(nacc, radd(acc, x)),
        proper(acc),
        proper(target),
        proper(x),
        proper(nacc),
    ensures
        req(nacc, radd(target, x)),
        proper(radd(target, x)),
{
    lemma_req_refl(x);
    lemma_radd_cong(acc, x, target, x);
    lemma_radd_proper(acc, x);
    lemma_radd_proper(target, x);
    lemma_req_trans(nacc, radd(acc, x), radd(target, x));
}

/// The checked computation of the four power sums `(Sx, Sy, Sxx, Sxy)`, as
/// the fitter performs it; `None` as soon as one exact intermediate leaves
/// the `i64` fraction range.
pub open spec fn sums_chain(s: Seq<PointCoords>) -> Option<(Frac, Frac, Frac, Frac)>
    decreases s.len(),
{
    if s.len() == 0 {
        Some(
            (Frac::spec_zero(), Frac::spec_zero(), Frac::spec_zero(), Frac::spec_zero()),
        )
    } else {
        match sums_chain(s.drop_last()) {
            None => None,
            Some(acc) => {
                let p = s.last();
                match (Frac::spec_mul(p.x, p.x), Frac::spec_mul(p.x, p.y)) {
                    (Some(xx), Some(xy)) => match (
                        Frac::spec_add(acc.0, p.x),
                        Frac::spec_add(acc.1, p.y),
                        Frac::spec_add(acc.2, xx),
                        Frac::spec_add(acc.3, xy),
                    ) {
                        (Some(nsx), Some(nsy), Some(nsxx), Some(nsxy)) => Some(
                            (nsx, nsy, nsxx, nsxy),
                        ),
                        _ => None,
                    },
                    _ => None,
                }
            },
        }
    }
}

/// The whole fitter as a function of the point sequence: exactly the
/// checked computation `get_regression_line` performs, so one value of it
/// decides the fitter's result (success owed included).
pub open spec fn spec_fit(s: Seq<PointCoords>) -> Result<(Frac, Frac), GeomError> {
    if s.len() < 2 {
        Err(GeomError::InsufficientPoints)
    } else if s.len() > 0x7fff_ffff_ffff_ffff {
        Err(GeomError::Overflow)
    } else {
        match sums_chain(s) {
            None => Err(GeomError::Overflow),
            Some(sums) => {
                let nf = Frac::spec_int(s.len() as i64);
                match (
                    Frac::spec_mul(nf, sums.3),
                    Frac::spec_mul(sums.0, sums.1),
                    Frac::spec_mul(nf, sums.2),
                    Frac::spec_mul(sums.0, sums.0),
                ) {
                    (Some(t1), Some(t2), Some(d1), Some(d2)) => match (
                        Frac::spec_sub(t1, t2),
                        Frac::spec_sub(d1, d2),
                    ) {
                        (Some(mnum), Some(denom)) => if denom@.n == 0 {
                            Err(GeomError::DegenerateFit)
                        } else {
                            match Frac::spec_div(mnum, denom) {
                                None => Err(GeomError::Overflow),
                                Some(slope) => match Frac::spec_mul(slope, sums.0) {
                                    None => Err(GeomError::Overflow),
                                    Some(t3) => match Frac::spec_sub(sums.1, t3) {
                                        None => Err(GeomError::Overflow),
                                        Some(inum) => match Frac::spec_div(inum, nf) {
                                            None => Err(GeomError::Overflow),
                                            Some(c) => Ok((slope, c)),
                                        },
                                    },
                                },
                            }
                        },
                        _ => Err(GeomError::Overflow),
                    },
                    _ => Err(GeomError::Overflow),
                }
            },
        }
    }
}

/// Re-fitting as a function of the transform and the raw points: map the
/// set, then fit the image.
pub open spec fn spec_refit(t: PointTransform, s: Seq<PointCoords>) -> Result<
    (Frac, Frac),
    GeomError,
> {
    match spec_transform_seq(t, s) {
        None => Err(GeomError::Overflow),
        Some(m) => spec_fit(m),
    }
}

/// Once a prefix of the sum chain overflows, the whole chain does.
proof fn lemma_sums_chain_none_extends(s: Seq<PointCoords>, j: int)
    requires
        0 <= j <= s.len(),
        sums_chain(s.take(j)) is None,
    ensures
        sums_chain(s) is None,
    decreases s.len() - j,
{
    if j == s.len() {
        assert(s.take(j) =~= s);
    } else {
        assert(s.take(j + 1).drop_last() =~= s.take(j));
        lemma_sums_chain_none_extends(s, j + 1);
    }
}

/// A regression line: the raw screen points it was fitted from (never
/// mutated after creation), the transform last applied, and the slope and
/// intercept recomputed against that transform.
#[derive(Debug)]
pub struct RegressionLineSegment {
    pub transformed_slope: Frac,
    pub transformed_intercept: Frac,
    pub transform: PointTransform,
    pub screen_points: UniquePointBuf,
}

impl RegressionLineSegment {
    /// The raw, untransformed point set the line was created from.
    pub open spec fn raw_points(self) -> Seq<PointCoords> {
        self.screen_points@
    }

    pub open spec fn wf(self) -> bool {
        &&& self.transformed_slope.wf()
        &&& self.transformed_intercept.wf()
        &&& self.transform.wf()
        &&& seq_wf(self.raw_points())
        &&& seq_unique(self.raw_points())
    }

    /// Compute the exact least-squares slope and intercept of a point set.
    ///
    /// Fails with `InsufficientPoints` exactly on sets of fewer than two
    /// points, with `DegenerateFit` when the fit denominator is zero, and
    /// with `Overflow` when an exact intermediate does not fit an `i64`
    /// fraction.
    pub fn get_regression_line(points: &UniquePointBuf) -> (r: Result<(Frac, Frac), GeomError>)
        requires
            points.wf(),
        ensures
            points@.len() < 2 <==> r == Err::<(Frac, Frac), GeomError>(
                GeomError::InsufficientPoints,
            ),
            r matches Ok(mc) ==> {
                &&& mc.0.wf()
                &&& mc.1.wf()
                &&& req(mc.0@, slope_rat(points@))
                &&& req(mc.1@, intercept_rat(points@))
                &&& fit_denom(points@).n != 0
            },
            r == Err::<(Frac, Frac), GeomError>(GeomError::DegenerateFit) ==> fit_denom(
                points@,
            ).n == 0,
            r != Err::<(Frac, Frac), GeomError>(GeomError::DegenerateCalibration),
            r == spec_fit(points@),
    {
        let n = points.len();
        if n < 2 {
            return Err(GeomError::InsufficientPoints);
        }
        if n as u64 > 0x7fff_ffff_ffff_ffffu64 {
            return Err(GeomError::Overflow);
        }
        let ghost s = points@;
        let mut sx = Frac::zero();
        let mut sy = Frac::zero();
        let mut sxx = Frac::zero();
        let mut sxy = Frac::zero();
        proof {
            crate::frac::lemma_frac_consts();
            assert(s.take(0) =~= Seq::<PointCoords>::empty());
        }
        let mut i: usize = 0;
        while i < n
            invariant
                n == s.len(),
                2 <= n,
                n <= 0x7fff_ffff_ffff_ffff,
                0 <= i <= n,
                points.wf(),
                points@ == s,
                sx.wf() && sy.wf() && sxx.wf() && sxy.wf(),
                sums_chain(s.take(i as int)) == Some((sx, sy, sxx, sxy)),
                req(sx@, rsum_x(s.take(i as int))),
                req(sy@, rsum_y(s.take(i as int))),
                req(sxx@, rsum_xx(s.take(i as int))),
                req(sxy@, rsum_xy(s.take(i as int))),
            decreases n - i,
        {
            let p = points.at(i);
            proof {
                assert(p == s[i as int]);
                assert(p.wf());
                crate::frac::lemma_wf_proper(p.x);
                crate::frac::lemma_wf_proper(p.y);
                assert(seq_wf(s.take(i as int))) by {
                    assert(forall|j: int|
                        0 <= j < i as int ==> s.take(i as int)[j] == s[j]);
                }
                lemma_sums_proper(s.take(i as int));
            }
            let xx = match p.x.checked_mul(p.x) {
                Some(v) => v,
                None => {
                    proof {
                        assert(s.take(i as int + 1).drop_last() =~= s.take(i as int));
                        assert(s.take(i as int + 1).last() == p);
                        assert(sums_chain(s.take(i as int + 1)) is None);
                        lemma_sums_chain_none_extends(s, i as int + 1);
                    }
                    return Err(GeomError::Overflow);
                },
            };
            let xy = match p.x.checked_mul(p.y) {
                Some(v) => v,
                None => {
                    proof {
                        assert(s.take(i as int + 1).drop_last() =~= s.take(i as int));
                        assert(s.take(i as int + 1).last() == p);
                        assert(sums_chain(s.take(i as int + 1)) is None);
                        lemma_sums_chain_none_extends(s, i as int + 1);
                    }
                    return Err(GeomError::Overflow);
                },
            };
            let nsx = match sx.checked_add(p.x) {
                Some(v) => v,
                None => {
                    proof {
                        assert(s.take(i as int + 1).drop_last() =~= s.take(i as int));
                        assert(s.take(i as int + 1).last() == p);
                        assert(sums_chain(s.take(i as int + 1)) is None);
                        lemma_sums_chain_none_extends(s, i as int + 1);
                    }
                    return Err(GeomError::Overflow);
                },
            };
            let nsy = match sy.checked_add(p.y) {
                Some(v) => v,
                None => {
                    proof {
                        assert(s.take(i as int + 1).drop_last() =~= s.take(i as int));
                        assert(s.take(i as int + 1).last() == p);
                        assert(sums_chain(s.take(i as int + 1)) is None);
                        lemma_sums_chain_none_extends(s, i as int + 1);
                    }
                    return Err(GeomError::Overflow);
                },
            };
            let nsxx = match sxx.checked_add(xx) {
                Some(v) => v,
                None => {
                    proof {
                        assert(s.take(i as int + 1).drop_last() =~= s.take(i as int));
                        assert(s.take(i as int + 1).last() == p);
                        assert(sums_chain(s.take(i as int + 1)) is None);
                        lemma_sums_chain_none_extends(s, i as int + 1);
                    }
                    return Err(GeomError::Overflow);
                },
            };
            let nsxy = match sxy.checked_add(xy) {
                Some(v) => v,
                None => {
                    proof {
                        assert(s.take(i as int + 1).drop_last() =~= s.take(i as int));
                        assert(s.take(i as int + 1).last() == p);
                        assert(sums_chain(s.take(i as int + 1)) is None);
                        lemma_sums_chain_none_extends(s, i as int + 1);
                    }
                    return Err(GeomError::Overflow);
                },
            };
            proof {
                let tk = s.take(i as int);
                let tk1 = s.take(i as int + 1);
                assert(tk1.drop_last() =~= tk);
                assert(tk1.last() == p);
                crate::frac::lemma_wf_proper(sx);
                crate::frac::lemma_wf_proper(sy);
                crate::frac::lemma_wf_proper(sxx);
                crate::frac::lemma_wf_proper(sxy);
                crate::frac::lemma_wf_proper(nsx);
                crate::frac::lemma_wf_proper(nsy);
                crate::frac::lemma_wf_proper(nsxx);
                crate::frac::lemma_wf_proper(nsxy);
                crate::frac::lemma_wf_proper(xx);
                crate::frac::lemma_wf_proper(xy);
                lemma_sum_step(sx@, rsum_x(tk), p.x@, nsx@);
                lemma_sum_step(sy@, rsum_y(tk), p.y@, nsy@);
                // the squared terms carried by xx and xy are rationally equal
                // to the exact products, so one more congruence step is needed
                lemma_radd_proper(p.x@, p.x@);
                lemma_radd_proper(p.x@, p.y@);
                lemma_sum_step(sxx@, rsum_xx(tk), xx@, nsxx@);
                lemma_req_refl(rsum_xx(tk));
                lemma_radd_cong(rsum_xx(tk), xx@, rsum_xx(tk), rmul(p.x@, p.x@));
                lemma_radd_proper(rsum_xx(tk), xx@);
                lemma_radd_proper(rsum_xx(tk), rmul(p.x@, p.x@));
                lemma_req_trans(nsxx@, radd(rsum_xx(tk), xx@), radd(rsum_xx(tk), rmul(p.x@, p.x@)));
                lemma_sum_step(sxy@, rsum_xy(tk), xy@, nsxy@);
                lemma_req_refl(rsum_xy(tk));
                lemma_radd_cong(rsum_xy(tk), xy@, rsum_xy(tk), rmul(p.x@, p.y@));
                lemma_radd_proper(rsum_xy(tk), xy@);
                lemma_radd_proper(rsum_xy(tk), rmul(p.x@, p.y@));
                lemma_req_trans(nsxy@, radd(rsum_xy(tk), xy@), radd(rsum_xy(tk), rmul(p.x@, p.y@)));
            }
            sx = nsx;
            sy = nsy;
            sxx = nsxx;
            sxy = nsxy;
            i = i + 1;
        }
        proof {
            assert(s.take(s.len() as int) =~= s);
            lemma_sums_proper(s);
            assert(sums_chain(s) == Some((sx, sy, sxx, sxy)));
        }
        let nf = Frac::from_int(n as i64);
        proof {
            crate::frac::lemma_wf_proper(nf);
            crate::frac::lemma_wf_proper(sx);
            crate::frac::lemma_wf_proper(sy);
            crate::frac::lemma_wf_proper(sxx);
            crate::frac::lemma_wf_proper(sxy);
            assert(nf@ == fit_n(s));
        }
        let t1 = match nf.checked_mul(sxy) {
            Some(v) => v,
            None => {
                return Err(GeomError::Overflow);
            },
        };
        let t2 = match sx.checked_mul(sy) {
            Some(v) => v,
            None => {
                return Err(GeomError::Overflow);
            },
        };
        let mnum = match t1.checked_sub(t2) {
            Some(v) => v,
            None => {
                return Err(GeomError::Overflow);
            },
        };
        let d1 = match nf.checked_mul(sxx) {
            Some(v) => v,
            None => {
                return Err(GeomError::Overflow);
            },
        };
        let d2 = match sx.checked_mul(sx) {
            Some(v) => v,
            None => {
                return Err(GeomError::Overflow);
            },
        };
        let denom = match d1.checked_sub(d2) {
            Some(v) => v,
            None => {
                return Err(GeomError::Overflow);
            },
        };
        proof {
            crate::frac::lemma_wf_proper(t1);
            crate::frac::lemma_wf_proper(t2);
            crate::frac::lemma_wf_proper(mnum);
            crate::frac::lemma_wf_proper(d1);
            crate::frac::lemma_wf_proper(d2);
            crate::frac::lemma_wf_proper(denom);
            // mnum carries the slope numerator
            lemma_req_refl(nf@);
            lemma_rmul_cong(nf@, sxy@, fit_n(s), rsum_xy(s));
            lemma_radd_proper(nf@, sxy@);
            lemma_radd_proper(fit_n(s), rsum_xy(s));
            lemma_req_trans(t1@, rmul(nf@, sxy@), rmul(fit_n(s), rsum_xy(s)));
            lemma_rmul_cong(sx@, sy@, rsum_x(s), rsum_y(s));
            lemma_radd_proper(sx@, sy@);
            lemma_radd_proper(rsum_x(s), rsum_y(s));
            lemma_req_trans(t2@, rmul(sx@, sy@), rmul(rsum_x(s), rsum_y(s)));
            lemma_rsub_cong(
                t1@,
                t2@,
                rmul(fit_n(s), rsum_xy(s)),
                rmul(rsum_x(s), rsum_y(s)),
            );
            lemma_radd_proper(t1@, t2@);
            lemma_radd_proper(rmul(fit_n(s), rsum_xy(s)), rmul(rsum_x(s), rsum_y(s)));
            lemma_req_trans(mnum@, rsub(t1@, t2@), fit_slope_num(s));
            // denom carries the fit denominator
            lemma_rmul_cong(nf@, sxx@, fit_n(s), rsum_xx(s));
            lemma_radd_proper(nf@, sxx@);
            lemma_radd_proper(fit_n(s), rsum_xx(s));
            lemma_req_trans(d1@, rmul(nf@, sxx@), rmul(fit_n(s), rsum_xx(s)));
            lemma_rmul_cong(sx@, sx@, rsum_x(s), rsum_x(s));
            lemma_radd_proper(sx@, sx@);
            lemma_radd_proper(rsum_x(s), rsum_x(s));
            lemma_req_trans(d2@, rmul(sx@, sx@), rmul(rsum_x(s), rsum_x(s)));
            lemma_rsub_cong(
                d1@,
                d2@,
                rmul(fit_n(s), rsum_xx(s)),
                rmul(rsum_x(s), rsum_x(s)),
            );
            lemma_radd_proper(d1@, d2@);
            lemma_radd_proper(rmul(fit_n(s), rsum_xx(s)), rmul(rsum_x(s), rsum_x(s)));
            lemma_req_trans(denom@, rsub(d1@, d2@), fit_denom(s));
        }
        if denom.is_zero() {
            proof {
                crate::frac::lemma_wf_proper(denom);
                lemma_radd_proper(rmul(fit_n(s), rsum_xx(s)), rmul(rsum_x(s), rsum_x(s)));
                lemma_req_zero(denom@, fit_denom(s));
            }
            return Err(GeomError::DegenerateFit);
        }
        proof {
            lemma_radd_proper(rmul(fit_n(s), rsum_xx(s)), rmul(rsum_x(s), rsum_x(s)));
            lemma_req_zero(denom@, fit_denom(s));
        }
        let slope = match mnum.checked_div(denom) {
            Some(v) => v,
            None => {
                return Err(GeomError::Overflow);
            },
        };
        proof {
            crate::frac::lemma_wf_proper(slope);
            lemma_radd_proper(rmul(fit_n(s), rsum_xy(s)), rmul(rsum_x(s), rsum_y(s)));
            lemma_rdiv_cong(mnum@, denom@, fit_slope_num(s), fit_denom(s));
            lemma_req_trans(slope@, rdiv(mnum@, denom@), slope_rat(s));
        }
        let t3 = match slope.checked_mul(sx) {
            Some(v) => v,
            None => {
                return Err(GeomError::Overflow);
            },
        };
        let inum = match sy.checked_sub(t3) {
            Some(v) => v,
            None => {
                return Err(GeomError::Overflow);
            },
        };
        let intercept = match inum.checked_div(nf) {
            Some(v) => v,
            None => {
                return Err(GeomError::Overflow);
            },
        };
        proof {
            crate::frac::lemma_wf_proper(t3);
            crate::frac::lemma_wf_proper(inum);
            crate::frac::lemma_wf_proper(intercept);
            // slope_rat(s) is proper because the denominator is nonzero
            assert(proper(slope_rat(s))) by {
                lemma_radd_proper(rmul(fit_n(s), rsum_xy(s)), rmul(rsum_x(s), rsum_y(s)));
                assert(fit_slope_num(s).d * fit_denom(s).n != 0) by (nonlinear_arith)
                    requires
                        fit_slope_num(s).d != 0,
                        fit_denom(s).n != 0,
                ;
            }
            lemma_rmul_cong(slope@, sx@, slope_rat(s), rsum_x(s));
            lemma_radd_proper(slope@, sx@);
            lemma_radd_proper(slope_rat(s), rsum_x(s));
            lemma_req_trans(t3@, rmul(slope@, sx@), rmul(slope_rat(s), rsum_x(s)));
            lemma_rsub_cong(sy@, t3@, rsum_y(s), rmul(slope_rat(s), rsum_x(s)));
            lemma_radd_proper(sy@, t3@);
            lemma_radd_proper(rsum_y(s), rmul(slope_rat(s), rsum_x(s)));
            lemma_req_trans(inum@, rsub(sy@, t3@), rsub(rsum_y(s), rmul(slope_rat(s), rsum_x(s))));
            lemma_req_refl(nf@);
            lemma_rdiv_cong(inum@, nf@, rsub(rsum_y(s), rmul(slope_rat(s), rsum_x(s))), fit_n(s));
            lemma_req_trans(intercept@, rdiv(inum@, nf@), intercept_rat(s));
        }
        Ok((slope, intercept))
    }

    /// Create a regression line from a point set; the fitted slope and
    /// intercept are cached against the identity transform.
    pub fn new(points: UniquePointBuf) -> (r: Result<RegressionLineSegment, GeomError>)
        requires
            points.wf(),
        ensures
            points@.len() < 2 <==> r == Err::<RegressionLineSegment, GeomError>(
                GeomError::InsufficientPoints,
            ),
            r matches Ok(seg) ==> {
                &&& seg.wf()
                &&& seg.raw_points() == points@
                &&& seg.transform == PointTransform::spec_identity()
                &&& req(seg.transformed_slope@, slope_rat(points@))
                &&& req(seg.transformed_intercept@, intercept_rat(points@))
            },
            r != Err::<RegressionLineSegment, GeomError>(GeomError::DegenerateCalibration),
            r is Ok <==> spec_fit(points@) is Ok,
            spec_fit(points@) matches Err(e) ==> r == Err::<RegressionLineSegment, GeomError>(e),
            r matches Ok(seg) ==> spec_fit(points@) matches Ok(mc) && seg.transformed_slope == mc.0
                && seg.transformed_intercept == mc.1,
    {
        match Self::get_regression_line(&points) {
            Ok((slope, intercept)) => Ok(RegressionLineSegment {
                transformed_slope: slope,
                transformed_intercept: intercept,
                transform: PointTransform::identity(),
                screen_points: points,
            }),
            Err(e) => Err(e),
        }
    }

    /// Re-derive the cached slope and intercept from the raw point set
    /// mapped through `t`, and remember `t`.  The raw point set is never
    /// mutated; on failure the record is left unchanged.  The cached values
    /// are always recomputed from the re-projected points, never derived
    /// algebraically from the previous parameters.
    pub fn transform_line(&mut self, t: &PointTransform) -> (r: Result<(), GeomError>)
        requires
            old(self).wf(),
            t.wf(),
        ensures
            final(self).raw_points() == old(self).raw_points(),
            r is Err ==> *final(self) == *old(self),
            r is Ok <==> spec_refit(*t, old(self).raw_points()) is Ok,
            spec_refit(*t, old(self).raw_points()) matches Err(e) ==> r == Err::<(), GeomError>(e),
            r matches Ok(u) ==> spec_refit(*t, old(self).raw_points()) matches Ok(mc) && final(self).transformed_slope == mc.0 && final(self).transformed_intercept == mc.1,
            r is Ok ==> {
                &&& final(self).wf()
                &&& final(self).transform == *t
                &&& spec_transform_seq(*t, old(self).raw_points()) matches Some(m) && req(
                    final(self).transformed_slope@,
                    slope_rat(m),
                ) && req(final(self).transformed_intercept@, intercept_rat(m)) && fit_denom(m).n
                    != 0
            },
    {
        let mapped = match self.screen_points.transform_points(t) {
            Some(b) => b,
            None => {
                return Err(GeomError::Overflow);
            },
        };
        match Self::get_regression_line(&mapped) {
            Ok((slope, intercept)) => {
                self.transform = *t;
                self.transformed_slope = slope;
                self.transformed_intercept = intercept;
                Ok(())
            },
            Err(e) => Err(e),
        }
    }
}

/// Re-fitting after the identity transform reproduces the original fit: the
/// identity maps the point set to itself, so the recomputed slope and
/// intercept are those of the raw set.
pub proof fn lemma_identity_refit(s: Seq<PointCoords>)
    requires
        seq_wf(s),
        seq_unique(s),
    ensures
        spec_transform_seq(PointTransform::spec_identity(), s) == Some(s),
        ({
            let m = spec_transform_seq(PointTransform::spec_identity(), s)->Some_0;
            slope_rat(m) == slope_rat(s) && intercept_rat(m) == intercept_rat(s)
        }),
        spec_refit(PointTransform::spec_identity(), s) == spec_fit(s),
{
    lemma_transform_identity(s);
}

/// One more equal summand: `k*a + a == (k+1)*a`.
proof fn lemma_rint_succ(k: int, a: Rat)
    requires
        proper(a),
    ensures
        req(radd(rmul(rint(k), a), a), rmul(rint(k + 1), a)),
{
    assert(((k * a.n) * a.d + a.n * (1 * a.d)) * (1 * a.d) == ((k + 1) * a.n) * ((1 * a.d) * a.d))
        by (nonlinear_arith);
}

/// If every point shares the x coordinate `x0`, the x sums are `n*x0` and
/// `n*x0^2`.
proof fn lemma_sum_x_const(s: Seq<PointCoords>, x0: Frac)
    requires
        seq_wf(s),
        x0.wf(),
        forall|i: int| 0 <= i < s.len() ==> (#[trigger] s[i]).x == x0,
    ensures
        req(rsum_x(s), rmul(rint(s.len() as int), x0@)),
        req(rsum_xx(s), rmul(rint(s.len() as int), rmul(x0@, x0@))),
    decreases s.len(),
{
    crate::frac::lemma_wf_proper(x0);
    lemma_radd_proper(x0@, x0@);
    vstd::arithmetic::mul::lemma_mul_basics(x0@.n);
    vstd::arithmetic::mul::lemma_mul_basics(x0@.d);
    vstd::arithmetic::mul::lemma_mul_basics(x0@.n * x0@.n);
    vstd::arithmetic::mul::lemma_mul_basics(x0@.d * x0@.d);
    if s.len() == 0 {
    } else {
        let front = s.drop_last();
        let k: int = front.len() as int;
        assert(seq_wf(front) && forall|i: int| 0 <= i < front.len() ==> (#[trigger] front[i]).x
            == x0) by {
            assert(forall|i: int| 0 <= i < front.len() ==> front[i] == s[i]);
        }
        lemma_sum_x_const(front, x0);
        lemma_sums_proper(front);
        assert(s.last().x == x0);
        // the plain sum
        lemma_req_refl(x0@);
        lemma_radd_proper(rint(k), x0@);
        lemma_radd_cong(rsum_x(front), x0@, rmul(rint(k), x0@), x0@);
        lemma_rint_succ(k, x0@);
        lemma_radd_proper(rsum_x(front), x0@);
        lemma_radd_proper(rmul(rint(k), x0@), x0@);
        lemma_radd_proper(rint(k + 1), x0@);
        lemma_req_trans(
            rsum_x(s),
            radd(rmul(rint(k), x0@), x0@),
            rmul(rint(k + 1), x0@),
        );
        // the sum of squares
        let sq = rmul(x0@, x0@);
        lemma_req_refl(sq);
        lemma_radd_proper(rint(k), sq);
        lemma_radd_cong(rsum_xx(front), sq, rmul(rint(k), sq), sq);
        lemma_rint_succ(k, sq);
        lemma_radd_proper(rsum_xx(front), sq);
        lemma_radd_proper(rmul(rint(k), sq), sq);
        lemma_radd_proper(rint(k + 1), sq);
        lemma_req_trans(
            rsum_xx(s),
            radd(rmul(rint(k), sq), sq),
            rmul(rint(k + 1), sq),
        );
    }
}

/// Zero x-variance: when every point of the set shares one x coordinate,
/// the least-squares denominator `n*sum(x*x) - sum(x)^2` is exactly zero,
/// so a fit on such a set surfaces `DegenerateFit` rather than a value.
pub proof fn lemma_same_x_degenerate(s: Seq<PointCoords>, x0: Frac)
    requires
        seq_wf(s),
        x0.wf(),
        forall|i: int| 0 <= i < s.len() ==> (#[trigger] s[i]).x == x0,
    ensures
        fit_denom(s).n == 0,
{
    crate::frac::lemma_wf_proper(x0);
    lemma_sum_x_const(s, x0);
    lemma_sums_proper(s);
    let nn = rint(s.len() as int);
    let sq = rmul(x0@, x0@);
    let c = rmul(rmul(nn, x0@), rmul(nn, x0@));
    lemma_radd_proper(x0@, x0@);
    lemma_radd_proper(nn, x0@);
    lemma_radd_proper(nn, sq);
    lemma_radd_proper(rmul(nn, x0@), rmul(nn, x0@));
    // n*(n*x0^2) and (n*x0)*(n*x0) are the same representation
    assert(rmul(nn, rmul(nn, sq)) == c) by {
        assert(nn.n * (nn.n * (x0@.n * x0@.n)) == (nn.n * x0@.n) * (nn.n * x0@.n))
            by (nonlinear_arith);
        assert(nn.d * (nn.d * (x0@.d * x0@.d)) == (nn.d * x0@.d) * (nn.d * x0@.d))
            by (nonlinear_arith);
    }
    // both products of the denominator equal that representation
    lemma_req_refl(nn);
    lemma_rmul_cong(nn, rsum_xx(s), nn, rmul(nn, sq));
    lemma_rmul_cong(rsum_x(s), rsum_x(s), rmul(nn, x0@), rmul(nn, x0@));
    lemma_radd_proper(nn, rsum_xx(s));
    lemma_radd_proper(rsum_x(s), rsum_x(s));
    lemma_radd_proper(nn, rmul(nn, sq));
    lemma_req_sym(rmul(rsum_x(s), rsum_x(s)), c);
    lemma_req_trans(rmul(nn, rsum_xx(s)), c, rmul(rsum_x(s), rsum_x(s)));
}

} // verus!
