//! A committed on-screen line segment.
//!
//! It owns the regression record (raw point set, cached transformed slope
//! and intercept, transform last applied), the two extreme raw points that
//! bound the drawn segment in screen space (computed once at creation and
//! never updated), and the drawing color assigned at creation.  The
//! *equation* reported to the user always comes from the transformed fit;
//! the extreme points only bound the drawn segment in raw screen space.

use vstd::prelude::*;
use crate::frac::Frac;
use crate::rational::{req, rle, rsub, rmul, rdiv, lemma_rle_trans, lemma_req_zero,
    lemma_radd_proper};
use crate::point_handling::{PointCoords, PointTransform, UniquePointBuf, RGBColor,
    spec_transform_seq};
use crate::fit::{RegressionLineSegment, slope_rat, intercept_rat, fit_denom, spec_fit, spec_refit};
use crate::format::{pretty_line_equation, spec_equation};
use crate::GeomError;

verus! {

/// The exact screen-space slope between the two extreme points:
/// `(left.y - right.y) / (left.x - right.x)`.
pub open spec fn screen_slope_rat(left: PointCoords, right: PointCoords) -> crate::rational::Rat {
    rdiv(rsub(left.y@, right.y@), rsub(left.x@, right.x@))
}

/// The checked screen-space slope computation: exactly what
/// `screen_space_slope` performs, so one value of it decides the result.
pub open spec fn spec_screen_slope(left: PointCoords, right: PointCoords) -> Result<
    Frac,
    GeomError,
> {
    match Frac::spec_sub(left.x, right.x) {
        None => Err(GeomError::Overflow),
        Some(dx) => if dx@.n == 0 {
            Err(GeomError::DegenerateFit)
        } else {
            match Frac::spec_sub(left.y, right.y) {
                None => Err(GeomError::Overflow),
                Some(dy) => match Frac::spec_div(dy, dx) {
                    None => Err(GeomError::Overflow),
                    Some(m) => Ok(m),
                },
            }
        },
    }
}

/// The checked screen-space intercept computation `left.y - slope * left.x`.
pub open spec fn spec_screen_intercept(left: PointCoords, right: PointCoords) -> Result<
    Frac,
    GeomError,
> {
    match spec_screen_slope(left, right) {
        Err(e) => Err(e),
        Ok(slope) => match Frac::spec_mul(slope, left.x) {
            None => Err(GeomError::Overflow),
            Some(t) => match Frac::spec_sub(left.y, t) {
                None => Err(GeomError::Overflow),
                Some(c) => Ok(c),
            },
        },
    }
}

/// A committed line segment.
pub struct ScreenLineSegment {
    pub regressor: RegressionLineSegment,
    pub rightmost_pt: PointCoords,
    pub leftmost_pt: PointCoords,
    pub draw_color: RGBColor,
}

impl ScreenLineSegment {
    /// Validity: the regression record is valid, and the extreme points are
    /// members of the raw set bounding every member's x coordinate.
    pub open spec fn wf(self) -> bool {
        &&& self.regressor.wf()
        &&& self.leftmost_pt.wf()
        &&& self.rightmost_pt.wf()
        &&& self.regressor.raw_points().contains(self.leftmost_pt)
        &&& self.regressor.raw_points().contains(self.rightmost_pt)
        &&& forall|i: int|
            0 <= i < self.regressor.raw_points().len() ==> rle(
                self.leftmost_pt.x@,
                (#[trigger] self.regressor.raw_points()[i]).x@,
            ) && rle(self.regressor.raw_points()[i].x@, self.rightmost_pt.x@)
    }

    /// Commit a point set as a line: fit it (against the identity
    /// transform), record the minimum-x and maximum-x members, and assign a
    /// random color.  Fails exactly as the fitter does.
    pub fn new_from_buf(raw_point_buffer: UniquePointBuf) -> (r: Result<
        ScreenLineSegment,
        GeomError,
    >)
        requires
            raw_point_buffer.wf(),
        ensures
            raw_point_buffer@.len() < 2 <==> r == Err::<ScreenLineSegment, GeomError>(
                GeomError::InsufficientPoints,
            ),
            r matches Ok(seg) ==> {
                &&& seg.wf()
                &&& seg.regressor.raw_points() == raw_point_buffer@
                &&& seg.regressor.transform == PointTransform::spec_identity()
                &&& req(seg.regressor.transformed_slope@, slope_rat(raw_point_buffer@))
                &&& req(seg.regressor.transformed_intercept@, intercept_rat(raw_point_buffer@))
            },
            r != Err::<ScreenLineSegment, GeomError>(GeomError::DegenerateCalibration),
            r is Ok <==> spec_fit(raw_point_buffer@) is Ok,
            spec_fit(raw_point_buffer@) matches Err(e) ==> r == Err::<ScreenLineSegment, GeomError>(
                e,
            ),
            r matches Ok(seg) ==> spec_fit(raw_point_buffer@) matches Ok(mc)
                && seg.regressor.transformed_slope == mc.0 && seg.regressor.transformed_intercept
                == mc.1,
    {
        let n = raw_point_buffer.len();
        if n < 2 {
            return Err(GeomError::InsufficientPoints);
        }
        let ghost s = raw_point_buffer@;
        let mut leftmost = raw_point_buffer.at(0);
        let mut rightmost = raw_point_buffer.at(0);
        proof {
            assert(s.contains(s[0]));
            crate::frac::lemma_wf_proper(leftmost.x);
        }
        let mut i: usize = 1;
        while i < n
            invariant
                n == s.len(),
                1 <= i <= n,
                raw_point_buffer.wf(),
                raw_point_buffer@ == s,
                leftmost.wf(),
                rightmost.wf(),
                s.contains(leftmost),
                s.contains(rightmost),
                forall|j: int|
                    0 <= j < i ==> rle(leftmost.x@, (#[trigger] s[j]).x@) && rle(
                        s[j].x@,
                        rightmost.x@,
                    ),
            decreases n - i,
        {
            let p = raw_point_buffer.at(i);
            proof {
                assert(p == s[i as int]);
                assert(s.contains(s[i as int]));
                assert(p.wf());
                crate::frac::lemma_wf_proper(p.x);
                crate::frac::lemma_wf_proper(leftmost.x);
                crate::frac::lemma_wf_proper(rightmost.x);
            }
            if p.x.lt(&leftmost.x) {
                proof {
                    assert forall|j: int| 0 <= j < i + 1 implies rle(p.x@, (#[trigger] s[j]).x@) by {
                        if j < i {
                            crate::frac::lemma_wf_proper(s[j].x);
                            lemma_rle_trans(p.x@, leftmost.x@, s[j].x@);
                        }
                    }
                }
                leftmost = p;
            }
            if rightmost.x.lt(&p.x) {
                proof {
                    assert forall|j: int| 0 <= j < i + 1 implies rle((#[trigger] s[j]).x@, p.x@) by {
                        if j < i {
                            crate::frac::lemma_wf_proper(s[j].x);
                            lemma_rle_trans(s[j].x@, rightmost.x@, p.x@);
                        }
                    }
                }
                rightmost = p;
            }
            i = i + 1;
        }
        match RegressionLineSegment::new(raw_point_buffer) {
            Ok(line) => Ok(ScreenLineSegment {
                regressor: line,
                rightmost_pt: rightmost,
                leftmost_pt: leftmost,
                draw_color: RGBColor::random_color(),
            }),
            Err(e) => Err(e),
        }
    }

    /// The slope of the drawn segment in raw screen space.  Fails with
    /// `DegenerateFit` exactly when the two extreme points share their x
    /// coordinate (a vertical segment).
    pub fn screen_space_slope(&self) -> (r: Result<Frac, GeomError>)
        requires
            self.wf(),
        ensures
            r == Err::<Frac, GeomError>(GeomError::DegenerateFit) <==> self.leftmost_pt.x
                == self.rightmost_pt.x,
            r matches Ok(m) ==> m.wf() && req(
                m@,
                screen_slope_rat(self.leftmost_pt, self.rightmost_pt),
            ),
            r is Err ==> r == Err::<Frac, GeomError>(GeomError::DegenerateFit) || r == Err::<
                Frac,
                GeomError,
            >(GeomError::Overflow),
            r == spec_screen_slope(self.leftmost_pt, self.rightmost_pt),
    {
        proof {
            crate::frac::lemma_frac_consts();
            crate::frac::lemma_wf_proper(self.leftmost_pt.x);
            crate::frac::lemma_wf_proper(self.rightmost_pt.x);
            crate::frac::lemma_wf_proper(self.leftmost_pt.y);
            crate::frac::lemma_wf_proper(self.rightmost_pt.y);
        }
        let dx = match self.leftmost_pt.x.checked_sub(self.rightmost_pt.x) {
            Some(v) => v,
            None => {
                return Err(GeomError::Overflow);
            },
        };
        if dx.is_zero() {
            proof {
                crate::frac::lemma_wf_proper(dx);
                lemma_radd_proper(self.leftmost_pt.x@, self.rightmost_pt.x@);
                lemma_req_zero(dx@, rsub(self.leftmost_pt.x@, self.rightmost_pt.x@));
                crate::frac::lemma_frac_canonical(self.leftmost_pt.x, self.rightmost_pt.x);
            }
            return Err(GeomError::DegenerateFit);
        }
        let dy = match self.leftmost_pt.y.checked_sub(self.rightmost_pt.y) {
            Some(v) => v,
            None => {
                return Err(GeomError::Overflow);
            },
        };
        proof {
            crate::frac::lemma_wf_proper(dx);
            crate::frac::lemma_wf_proper(dy);
            lemma_radd_proper(self.leftmost_pt.x@, self.rightmost_pt.x@);
            lemma_radd_proper(self.leftmost_pt.y@, self.rightmost_pt.y@);
            lemma_req_zero(dx@, rsub(self.leftmost_pt.x@, self.rightmost_pt.x@));
        }
        match dy.checked_div(dx) {
            Some(m) => {
                proof {
                    crate::frac::lemma_wf_proper(m);
                    crate::rational::lemma_rdiv_cong(
                        dy@,
                        dx@,
                        rsub(self.leftmost_pt.y@, self.rightmost_pt.y@),
                        rsub(self.leftmost_pt.x@, self.rightmost_pt.x@),
                    );
                    crate::rational::lemma_req_trans(
                        m@,
                        rdiv(dy@, dx@),
                        screen_slope_rat(self.leftmost_pt, self.rightmost_pt),
                    );
                }
                Ok(m)
            },
            None => Err(GeomError::Overflow),
        }
    }

    /// The intercept of the drawn segment in raw screen space:
    /// `left.y - slope * left.x`.
    pub fn screen_space_intercept(&self) -> (r: Result<Frac, GeomError>)
        requires
            self.wf(),
        ensures
            r matches Ok(c) ==> c.wf() && req(
                c@,
                rsub(
                    self.leftmost_pt.y@,
                    rmul(screen_slope_rat(self.leftmost_pt, self.rightmost_pt), self.leftmost_pt.x@),
                ),
            ),
            r == Err::<Frac, GeomError>(GeomError::DegenerateFit) <==> self.leftmost_pt.x
                == self.rightmost_pt.x,
            r == spec_screen_intercept(self.leftmost_pt, self.rightmost_pt),
    {
        let slope = match self.screen_space_slope() {
            Ok(m) => m,
            Err(e) => {
                return Err(e);
            },
        };
        proof {
            crate::frac::lemma_wf_proper(slope);
            crate::frac::lemma_wf_proper(self.leftmost_pt.x);
            crate::frac::lemma_wf_proper(self.leftmost_pt.y);
            crate::frac::lemma_wf_proper(self.rightmost_pt.x);
            crate::frac::lemma_wf_proper(self.rightmost_pt.y);
            lemma_radd_proper(self.leftmost_pt.y@, self.rightmost_pt.y@);
            lemma_radd_proper(self.leftmost_pt.x@, self.rightmost_pt.x@);
            let b = rsub(self.leftmost_pt.x@, self.rightmost_pt.x@);
            if b.n == 0 {
                crate::frac::lemma_frac_canonical(self.leftmost_pt.x, self.rightmost_pt.x);
            }
            assert(b.n != 0);
            assert(crate::rational::proper(screen_slope_rat(self.leftmost_pt, self.rightmost_pt)))
                by {
                let a = rsub(self.leftmost_pt.y@, self.rightmost_pt.y@);
                let b2 = rsub(self.leftmost_pt.x@, self.rightmost_pt.x@);
                assert(a.d * b2.n != 0) by (nonlinear_arith)
                    requires
                        a.d != 0,
                        b2.n != 0,
                ;
            }
        }
        let t = match slope.checked_mul(self.leftmost_pt.x) {
            Some(v) => v,
            None => {
                return Err(GeomError::Overflow);
            },
        };
        match self.leftmost_pt.y.checked_sub(t) {
            Some(c) => {
                proof {
                    crate::frac::lemma_wf_proper(t);
                    crate::frac::lemma_wf_proper(c);
                    let ms = screen_slope_rat(self.leftmost_pt, self.rightmost_pt);
                    crate::rational::lemma_req_refl(self.leftmost_pt.x@);
                    crate::rational::lemma_req_refl(self.leftmost_pt.y@);
                    crate::rational::lemma_rmul_cong(slope@, self.leftmost_pt.x@, ms,
                        self.leftmost_pt.x@);
                    crate::rational::lemma_radd_proper(slope@, self.leftmost_pt.x@);
                    crate::rational::lemma_radd_proper(ms, self.leftmost_pt.x@);
                    crate::rational::lemma_req_trans(
                        t@,
                        rmul(slope@, self.leftmost_pt.x@),
                        rmul(ms, self.leftmost_pt.x@),
                    );
                    crate::rational::lemma_rsub_cong(
                        self.leftmost_pt.y@,
                        t@,
                        self.leftmost_pt.y@,
                        rmul(ms, self.leftmost_pt.x@),
                    );
                    crate::rational::lemma_radd_proper(self.leftmost_pt.y@, t@);
                    crate::rational::lemma_req_trans(
                        c@,
                        rsub(self.leftmost_pt.y@, t@),
                        rsub(self.leftmost_pt.y@, rmul(ms, self.leftmost_pt.x@)),
                    );
                }
                Ok(c)
            },
            None => Err(GeomError::Overflow),
        }
    }

    /// Re-derive the cached equation from the raw set mapped through `t`;
    /// the raw set and the extreme points are never touched.
    pub fn transform_line(&mut self, t: &PointTransform) -> (r: Result<(), GeomError>)
        requires
            old(self).wf(),
            t.wf(),
        ensures
            final(self).regressor.raw_points() == old(self).regressor.raw_points(),
            final(self).leftmost_pt == old(self).leftmost_pt,
            final(self).rightmost_pt == old(self).rightmost_pt,
            final(self).draw_color == old(self).draw_color,
            r is Err ==> *final(self) == *old(self),
            r is Ok <==> spec_refit(*t, old(self).regressor.raw_points()) is Ok,
            spec_refit(*t, old(self).regressor.raw_points()) matches Err(e) ==> r == Err::<
                (),
                GeomError,
            >(e),
            r matches Ok(u) ==> spec_refit(*t, old(self).regressor.raw_points()) matches Ok(mc)
                && final(self).regressor.transformed_slope == mc.0
                && final(self).regressor.transformed_intercept == mc.1,
            r is Ok ==> {
                &&& final(self).wf()
                &&& final(self).regressor.transform == *t
                &&& spec_transform_seq(*t, old(self).regressor.raw_points()) matches Some(m) && req(
                    final(self).regressor.transformed_slope@,
                    slope_rat(m),
                ) && req(final(self).regressor.transformed_intercept@, intercept_rat(m))
                    && fit_denom(m).n != 0
            },
    {
        self.regressor.transform_line(t)
    }

    /// The equation of the line in transformed (real-world) space.
    pub fn transformed_line_equation(&self) -> (r: String)
        requires
            self.wf(),
        ensures
            r@ == spec_equation(
                self.regressor.transformed_slope,
                self.regressor.transformed_intercept,
            ),
    {
        pretty_line_equation(
            &self.regressor.transformed_slope,
            &self.regressor.transformed_intercept,
        )
    }

    /// The raw (untransformed) points, for export.
    pub fn raw_point_coords(&self) -> (r: Vec<PointCoords>)
        ensures
            r@ == self.regressor.raw_points(),
    {
        self.regressor.screen_points.as_vec()
    }
}

} // verus!
