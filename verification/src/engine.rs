//! The gathering state machine and the engine's top-level state.
//!
//! The engine is single-threaded and synchronous: clicked points are routed
//! by the gathering mode into the unique point set (`Normal`) or the
//! two-slot calibration buffer (`Measurement`); committed point sets become
//! regression lines; every evaluation cycle re-fits each line against the
//! current transform; a successful calibration replaces the transform
//! wholesale, clears the calibration buffer and returns to `Normal`.  The
//! engine only prepares export payloads; writing them is the export
//! collaborator's work.

use vstd::prelude::*;
use crate::frac::Frac;
use crate::rational::req;
use crate::point_handling::{
    PointCoords, PointTransform, UniquePointBuf, spec_insert, spec_transform_seq,
};
use crate::buffer::BoundedPointBuffer;
use crate::segment::ScreenLineSegment;
use crate::fit::{slope_rat, intercept_rat, spec_fit, spec_refit, RegressionLineSegment};
use crate::calibrate::{rp, est_alpha, est_beta, est_dx, est_dy, spec_estimate};
use crate::format::export_filename;
use crate::GeomError;

verus! {

/// Whether newly clicked points go to the regression set (`Normal`) or the
/// calibration buffer (`Measurement`).
#[derive(Clone, Copy, Debug, PartialEq, Eq, Structural)]
pub enum PointGatheringState {
    Normal,
    Measurement,
}

/// A prepared export payload for one line: the logical file name, the raw
/// (untransformed) points, and the transform in force when it was prepared.
pub struct ExportRequest {
    pub file_name: String,
    pub points: Vec<PointCoords>,
    pub transform: PointTransform,
}

/// The number of correspondences a calibration needs.
pub const NUM_CALIBRATION_POINTS: usize = 2;

/// The engine's state.
pub struct Engine {
    pub gathering_state: PointGatheringState,
    pub buffered_points: UniquePointBuf,
    pub measurement_buffer: BoundedPointBuffer,
    pub regression_lines: Vec<ScreenLineSegment>,
    pub current_transform: PointTransform,
}

impl Engine {
    pub open spec fn wf(self) -> bool {
        &&& self.buffered_points.wf()
        &&& self.measurement_buffer.wf()
        &&& self.measurement_buffer.bound() == NUM_CALIBRATION_POINTS
        &&& forall|i: int|
            0 <= i < self.measurement_buffer@.len() ==> (#[trigger] self.measurement_buffer@[i]).wf()
        &&& self.current_transform.wf()
        &&& forall|i: int|
            0 <= i < self.regression_lines@.len() ==> (#[trigger] self.regression_lines@[i]).wf()
    }

    /// A fresh engine: `Normal` mode, empty collections, identity transform.
    pub fn new() -> (r: Engine)
        ensures
            r.wf(),
            r.gathering_state == PointGatheringState::Normal,
            r.buffered_points@ == Seq::<PointCoords>::empty(),
            r.measurement_buffer@ == Seq::<PointCoords>::empty(),
            r.regression_lines@ == Seq::<ScreenLineSegment>::empty(),
            r.current_transform == PointTransform::spec_identity(),
    {
        Engine {
            gathering_state: PointGatheringState::Normal,
            buffered_points: UniquePointBuf::new(),
            measurement_buffer: BoundedPointBuffer::new(NUM_CALIBRATION_POINTS),
            regression_lines: Vec::new(),
            current_transform: PointTransform::identity(),
        }
    }

    /// Route a clicked point by the gathering mode: deduplicating insertion
    /// in `Normal`, bounded append (rejected when full) in `Measurement`.
    pub fn push_to_buffer(&mut self, point: PointCoords) -> (accepted: bool)
        requires
            old(self).wf(),
            point.wf(),
        ensures
            final(self).wf(),
            final(self).gathering_state == old(self).gathering_state,
            final(self).regression_lines == old(self).regression_lines,
            final(self).current_transform == old(self).current_transform,
            old(self).gathering_state == PointGatheringState::Normal ==> {
                &&& final(self).measurement_buffer@ == old(self).measurement_buffer@
                &&& final(self).buffered_points@ == spec_insert(old(self).buffered_points@, point)
                &&& accepted == !old(self).buffered_points@.contains(point)
            },
            old(self).gathering_state == PointGatheringState::Measurement ==> {
                &&& final(self).buffered_points@ == old(self).buffered_points@
                &&& accepted == (old(self).measurement_buffer@.len() < NUM_CALIBRATION_POINTS)
                &&& accepted ==> final(self).measurement_buffer@ == old(self).measurement_buffer@.push(point)
                &&& !accepted ==> final(self).measurement_buffer@ == old(self).measurement_buffer@
            },
    {
        match self.gathering_state {
            PointGatheringState::Normal => self.buffered_points.insert(point),
            PointGatheringState::Measurement => self.measurement_buffer.push_back(point),
        }
    }

    /// Commit the gathered points as a new regression line and clear the
    /// gathering set.  Fewer than two gathered points: nothing happens.  On
    /// a fit failure nothing is changed and the error is surfaced.
    pub fn process_points_buffer(&mut self) -> (r: Result<(), GeomError>)
        requires
            old(self).wf(),
        ensures
            final(self).wf(),
            final(self).gathering_state == old(self).gathering_state,
            final(self).measurement_buffer@ == old(self).measurement_buffer@,
            final(self).current_transform == old(self).current_transform,
            old(self).buffered_points@.len() < 2 ==> r is Ok && *final(self) == *old(self),
            r is Err ==> *final(self) == *old(self),
            old(self).buffered_points@.len() >= 2 ==> (r is Ok <==> spec_fit(
                old(self).buffered_points@,
            ) is Ok),
            old(self).buffered_points@.len() >= 2 ==> (spec_fit(
                old(self).buffered_points@,
            ) matches Err(e) ==> r == Err::<(), GeomError>(e)),
            r is Ok && old(self).buffered_points@.len() >= 2 ==> {
                &&& final(self).buffered_points@ == Seq::<PointCoords>::empty()
                &&& final(self).regression_lines@.len() == old(self).regression_lines@.len() + 1
                &&& final(self).regression_lines@.last().regressor.raw_points() == old(self).buffered_points@
                &&& final(self).regression_lines@.last().regressor.transform
                    == PointTransform::spec_identity()
                &&& req(
                    final(self).regression_lines@.last().regressor.transformed_slope@,
                    slope_rat(old(self).buffered_points@),
                )
                &&& req(
                    final(self).regression_lines@.last().regressor.transformed_intercept@,
                    intercept_rat(old(self).buffered_points@),
                )
                &&& forall|i: int|
                    0 <= i < old(self).regression_lines@.len() ==> final(self).regression_lines@[i]
                        == old(self).regression_lines@[i]
            },
    {
        if self.buffered_points.len() < 2 {
            return Ok(());
        }
        let pts = self.buffered_points.duplicate();
        match ScreenLineSegment::new_from_buf(pts) {
            Ok(seg) => {
                self.regression_lines.push(seg);
                self.buffered_points.clear();
                Ok(())
            },
            Err(e) => Err(e),
        }
    }

    /// Re-fit every committed line against the current transform (the
    /// re-projection path: each line's equation is recomputed from its raw
    /// set mapped through the transform, never from the old parameters).
    /// Succeeds exactly when every line's mapped fit fits the `i64` fraction
    /// range with a nonzero denominator; on failure the engine is left
    /// unchanged and the error is that of a failing line.
    pub fn transform_line_segments(&mut self) -> (r: Result<(), GeomError>)
        requires
            old(self).wf(),
        ensures
            final(self).wf(),
            final(self).gathering_state == old(self).gathering_state,
            final(self).buffered_points@ == old(self).buffered_points@,
            final(self).measurement_buffer@ == old(self).measurement_buffer@,
            final(self).current_transform == old(self).current_transform,
            final(self).regression_lines@.len() == old(self).regression_lines@.len(),
            forall|i: int|
                0 <= i < old(self).regression_lines@.len() ==> {
                    &&& (#[trigger] final(self).regression_lines@[i]).regressor.raw_points() == old(self).regression_lines@[i].regressor.raw_points()
                    &&& final(self).regression_lines@[i].leftmost_pt == old(self).regression_lines@[i].leftmost_pt
                    &&& final(self).regression_lines@[i].rightmost_pt == old(self).regression_lines@[i].rightmost_pt
                    &&& final(self).regression_lines@[i].draw_color == old(self).regression_lines@[i].draw_color
                },
            r is Ok <==> (forall|i: int|
                0 <= i < old(self).regression_lines@.len() ==> (#[trigger] spec_refit(
                    old(self).current_transform,
                    old(self).regression_lines@[i].regressor.raw_points(),
                )) is Ok),
            r matches Err(e) ==> *final(self) == *old(self) && exists|k: int|
                0 <= k < old(self).regression_lines@.len() && spec_refit(
                    old(self).current_transform,
                    old(self).regression_lines@[k].regressor.raw_points(),
                ) == Err::<(Frac, Frac), GeomError>(e),
            r is Ok ==> forall|i: int|
                0 <= i < final(self).regression_lines@.len() ==> {
                    &&& (#[trigger] final(self).regression_lines@[i]).regressor.transform == final(self).current_transform
                    &&& spec_refit(
                        old(self).current_transform,
                        old(self).regression_lines@[i].regressor.raw_points(),
                    ) matches Ok(mc) && final(self).regression_lines@[i].regressor.transformed_slope
                        == mc.0 && final(self).regression_lines@[i].regressor.transformed_intercept
                        == mc.1
                    &&& spec_transform_seq(
                        final(self).current_transform,
                        final(self).regression_lines@[i].regressor.raw_points(),
                    ) matches Some(m) && req(
                        final(self).regression_lines@[i].regressor.transformed_slope@,
                        slope_rat(m),
                    ) && req(
                        final(self).regression_lines@[i].regressor.transformed_intercept@,
                        intercept_rat(m),
                    ) && crate::fit::fit_denom(m).n != 0
                },
    {
        let ghost olds = self.regression_lines@;
        let ghost ct = self.current_transform;
        let n = self.regression_lines.len();
        // first pass: compute every mapped fit without touching any state
        let mut results: Vec<(Frac, Frac)> = Vec::new();
        let mut i: usize = 0;
        while i < n
            invariant
                *self == *old(self),
                old(self).wf(),
                olds == old(self).regression_lines@,
                ct == old(self).current_transform,
                n == olds.len(),
                0 <= i <= n,
                results@.len() == i,
                forall|j: int|
                    0 <= j < i ==> {
                        &&& (#[trigger] spec_refit(ct, olds[j].regressor.raw_points())) == Ok::<
                            (Frac, Frac),
                            GeomError,
                        >((results@[j].0, results@[j].1))
                        &&& results@[j].0.wf()
                        &&& results@[j].1.wf()
                        &&& spec_transform_seq(ct, olds[j].regressor.raw_points()) matches Some(m)
                            && req(results@[j].0@, slope_rat(m)) && req(
                            results@[j].1@,
                            intercept_rat(m),
                        ) && crate::fit::fit_denom(m).n != 0
                    },
            decreases n - i,
        {
            let line = &self.regression_lines[i];
            proof {
                assert(line.wf());
                assert(line.regressor.screen_points.wf());
            }
            let mapped = match line.regressor.screen_points.transform_points(
                &self.current_transform,
            ) {
                Some(b) => b,
                None => {
                    proof {
                        assert(spec_refit(ct, olds[i as int].regressor.raw_points()) == Err::<
                            (Frac, Frac),
                            GeomError,
                        >(GeomError::Overflow));
                    }
                    return Err(GeomError::Overflow);
                },
            };
            match RegressionLineSegment::get_regression_line(&mapped) {
                Ok(mc) => {
                    results.push(mc);
                },
                Err(e) => {
                    proof {
                        assert(spec_refit(ct, olds[i as int].regressor.raw_points()) == Err::<
                            (Frac, Frac),
                            GeomError,
                        >(e));
                    }
                    return Err(e);
                },
            }
            i = i + 1;
        }
        // second pass: every fit succeeded; cache the new equations
        let mut k: usize = 0;
        while k < n
            invariant
                old(self).wf(),
                olds == old(self).regression_lines@,
                ct == old(self).current_transform,
                n == olds.len(),
                0 <= k <= n,
                results@.len() == n,
                forall|j: int|
                    0 <= j < n ==> {
                        &&& (#[trigger] spec_refit(ct, olds[j].regressor.raw_points())) == Ok::<
                            (Frac, Frac),
                            GeomError,
                        >((results@[j].0, results@[j].1))
                        &&& results@[j].0.wf()
                        &&& results@[j].1.wf()
                        &&& spec_transform_seq(ct, olds[j].regressor.raw_points()) matches Some(m)
                            && req(results@[j].0@, slope_rat(m)) && req(
                            results@[j].1@,
                            intercept_rat(m),
                        ) && crate::fit::fit_denom(m).n != 0
                    },
                self.wf(),
                self.gathering_state == old(self).gathering_state,
                self.buffered_points@ == old(self).buffered_points@,
                self.measurement_buffer@ == old(self).measurement_buffer@,
                self.measurement_buffer.bound() == old(self).measurement_buffer.bound(),
                self.current_transform == old(self).current_transform,
                self.regression_lines@.len() == n,
                forall|j: int|
                    0 <= j < n ==> {
                        &&& (#[trigger] self.regression_lines@[j]).regressor.raw_points()
                            == olds[j].regressor.raw_points()
                        &&& self.regression_lines@[j].leftmost_pt == olds[j].leftmost_pt
                        &&& self.regression_lines@[j].rightmost_pt == olds[j].rightmost_pt
                        &&& self.regression_lines@[j].draw_color == olds[j].draw_color
                    },
                forall|j: int|
                    0 <= j < k ==> {
                        &&& (#[trigger] self.regression_lines@[j]).regressor.transform == ct
                        &&& self.regression_lines@[j].regressor.transformed_slope == results@[j].0
                        &&& self.regression_lines@[j].regressor.transformed_intercept
                            == results@[j].1
                    },
                forall|j: int| k <= j < n ==> #[trigger] self.regression_lines@[j] == olds[j],
            decreases n - k,
        {
            proof {
                assert(spec_refit(ct, olds[k as int].regressor.raw_points()) is Ok);
                assert(olds[k as int].wf());
            }
            let mut seg = self.regression_lines.remove(k);
            let mc = results[k];
            seg.regressor.transform = self.current_transform;
            seg.regressor.transformed_slope = mc.0;
            seg.regressor.transformed_intercept = mc.1;
            self.regression_lines.insert(k, seg);
            k = k + 1;
        }
        Ok(())
    }

    /// Switch to calibration mode: newly clicked points now go to the
    /// two-slot calibration buffer.
    pub fn enter_measurement(&mut self)
        requires
            old(self).wf(),
        ensures
            final(self).wf(),
            final(self).gathering_state == PointGatheringState::Measurement,
            final(self).buffered_points@ == old(self).buffered_points@,
            final(self).measurement_buffer@ == old(self).measurement_buffer@,
            final(self).regression_lines == old(self).regression_lines,
            final(self).current_transform == old(self).current_transform,
    {
        self.gathering_state = PointGatheringState::Measurement;
    }

    /// Commit a calibration from the two buffered screen points and the two
    /// operator-supplied real-world points.  On success the estimated
    /// transform replaces the current one wholesale, the calibration buffer
    /// is cleared for the next attempt, and the engine returns to `Normal`.
    /// On failure (coincident screen points, or overflow) nothing changes.
    pub fn calibrate(&mut self, rw1: PointCoords, rw2: PointCoords) -> (r: Result<(), GeomError>)
        requires
            old(self).wf(),
            rw1.wf(),
            rw2.wf(),
            old(self).measurement_buffer@.len() == NUM_CALIBRATION_POINTS,
        ensures
            final(self).wf(),
            final(self).buffered_points@ == old(self).buffered_points@,
            final(self).regression_lines == old(self).regression_lines,
            r == Err::<(), GeomError>(GeomError::DegenerateCalibration) <==> old(self).measurement_buffer@[0] == old(self).measurement_buffer@[1],
            r is Err ==> *final(self) == *old(self),
            spec_estimate(
                old(self).measurement_buffer@[0],
                rw1,
                old(self).measurement_buffer@[1],
                rw2,
            ) matches Ok(t) ==> r is Ok && final(self).current_transform == t,
            spec_estimate(
                old(self).measurement_buffer@[0],
                rw1,
                old(self).measurement_buffer@[1],
                rw2,
            ) matches Err(e) ==> r == Err::<(), GeomError>(e),
            r is Ok ==> {
                &&& final(self).gathering_state == PointGatheringState::Normal
                &&& final(self).measurement_buffer@ == Seq::<PointCoords>::empty()
                &&& req(
                    final(self).current_transform.alpha@,
                    est_alpha(
                        rp(old(self).measurement_buffer@[0]),
                        rp(old(self).measurement_buffer@[1]),
                        rp(rw1),
                        rp(rw2),
                    ),
                )
                &&& req(
                    final(self).current_transform.beta@,
                    est_beta(
                        rp(old(self).measurement_buffer@[0]),
                        rp(old(self).measurement_buffer@[1]),
                        rp(rw1),
                        rp(rw2),
                    ),
                )
                &&& req(
                    final(self).current_transform.dx@,
                    est_dx(
                        rp(old(self).measurement_buffer@[0]),
                        rp(old(self).measurement_buffer@[1]),
                        rp(rw1),
                        rp(rw2),
                    ),
                )
                &&& req(
                    final(self).current_transform.dy@,
                    est_dy(
                        rp(old(self).measurement_buffer@[0]),
                        rp(old(self).measurement_buffer@[1]),
                        rp(rw1),
                        rp(rw2),
                    ),
                )
            },
    {
        let s1 = match self.measurement_buffer.get(0) {
            Some(p) => p,
            None => {
                return Err(GeomError::Overflow);
            },
        };
        let s2 = match self.measurement_buffer.get(1) {
            Some(p) => p,
            None => {
                return Err(GeomError::Overflow);
            },
        };
        match PointTransform::interpolate_from_point_pairs((s1, rw1), (s2, rw2)) {
            Ok(t) => {
                self.current_transform = t;
                self.measurement_buffer.clear();
                self.gathering_state = PointGatheringState::Normal;
                Ok(())
            },
            Err(e) => Err(e),
        }
    }

    /// The points to show for the current gathering mode.
    pub fn visible_points(&self) -> (r: Vec<PointCoords>)
        ensures
            self.gathering_state == PointGatheringState::Normal ==> r@ == self.buffered_points@,
            self.gathering_state == PointGatheringState::Measurement ==> r@
                == self.measurement_buffer@,
    {
        match self.gathering_state {
            PointGatheringState::Normal => self.buffered_points.as_vec(),
            PointGatheringState::Measurement => self.measurement_buffer.as_vec(),
        }
    }

    /// Remove the line at `index` (the operator dismissed it); out-of-range
    /// indices change nothing.
    pub fn remove_line(&mut self, index: usize)
        requires
            old(self).wf(),
        ensures
            final(self).wf(),
            final(self).gathering_state == old(self).gathering_state,
            final(self).buffered_points@ == old(self).buffered_points@,
            final(self).measurement_buffer@ == old(self).measurement_buffer@,
            final(self).current_transform == old(self).current_transform,
            index < old(self).regression_lines@.len() ==> final(self).regression_lines@ == old(self).regression_lines@.remove(index as int),
            index >= old(self).regression_lines@.len() ==> final(self).regression_lines == old(self).regression_lines,
    {
        if index < self.regression_lines.len() {
            self.regression_lines.remove(index);
        }
    }

    /// Prepare one export payload per committed line: the logical file name
    /// `line_{index}.csv`, a copy of the raw points, and the current
    /// transform.
    pub fn export_requests(&self) -> (r: Vec<ExportRequest>)
        requires
            self.wf(),
        ensures
            r@.len() == self.regression_lines@.len(),
            forall|i: int|
                0 <= i < r@.len() ==> {
                    &&& (#[trigger] r@[i]).points@
                        == self.regression_lines@[i].regressor.raw_points()
                    &&& r@[i].transform == self.current_transform
                    &&& r@[i].file_name@ == seq!['l', 'i', 'n', 'e', '_']
                        + crate::format::dec_digits(i as nat) + seq!['.', 'c', 's', 'v']
                },
    {
        let mut out: Vec<ExportRequest> = Vec::new();
        let n = self.regression_lines.len();
        let mut i: usize = 0;
        while i < n
            invariant
                self.wf(),
                n == self.regression_lines@.len(),
                0 <= i <= n,
                out@.len() == i,
                forall|j: int|
                    0 <= j < i ==> {
                        &&& (#[trigger] out@[j]).points@
                            == self.regression_lines@[j].regressor.raw_points()
                        &&& out@[j].transform == self.current_transform
                        &&& out@[j].file_name@ == seq!['l', 'i', 'n', 'e', '_']
                            + crate::format::dec_digits(j as nat) + seq!['.', 'c', 's', 'v']
                    },
            decreases n - i,
        {
            let line = &self.regression_lines[i];
            let request = ExportRequest {
                file_name: export_filename(i),
                points: line.raw_point_coords(),
                transform: self.current_transform,
            };
            out.push(request);
            i = i + 1;
        }
        out
    }
}

} // verus!
