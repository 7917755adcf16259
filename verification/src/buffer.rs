//! The fixed-capacity calibration buffer.
//!
//! A `BoundedPointBuffer` is an ordered sequence holding at most `N`
//! elements (the engine uses `N = 2` for the two calibration points).  Once
//! full, further pushes are rejected: a push is attempted on the underlying
//! deque only while the buffer is not full, so its eviction path is never
//! exercised.  The deque itself comes from an outside crate and is used
//! through the trusted items below.

use vstd::prelude::*;
use std::collections::VecDeque;
use crate::point_handling::PointCoords;

verus! {

#[verifier::external_type_specification]
#[verifier::external_body]
#[verifier::reject_recursive_types(T)]
pub struct ExBoundedVecDeque<T>(bounded_vec_deque::BoundedVecDeque<T>);

/// The points the deque holds, front to back.
pub uninterp spec fn deque_points(q: bounded_vec_deque::BoundedVecDeque<PointCoords>) -> Seq<
    PointCoords,
>;

/// The length bound the deque was created with.
pub uninterp spec fn deque_bound(q: bounded_vec_deque::BoundedVecDeque<PointCoords>) -> nat;

/// Relies on `BoundedVecDeque::new`: an empty deque with the given bound.
#[verifier::external_body]
fn bvd_new(max_len: usize) -> (q: bounded_vec_deque::BoundedVecDeque<PointCoords>)
    ensures
        deque_points(q) == Seq::<PointCoords>::empty(),
        deque_bound(q) == max_len as nat,
{
    bounded_vec_deque::BoundedVecDeque::new(max_len)
}

/// Relies on `BoundedVecDeque::push_back`: on a deque that is not full it
/// appends the value at the back and displaces nothing.
#[verifier::external_body]
fn bvd_push_back(
    q: &mut bounded_vec_deque::BoundedVecDeque<PointCoords>,
    p: PointCoords,
) -> (displaced: Option<PointCoords>)
    requires
        deque_points(*old(q)).len() < deque_bound(*old(q)),
    ensures
        deque_points(*final(q)) == deque_points(*old(q)).push(p),
        deque_bound(*final(q)) == deque_bound(*old(q)),
        displaced is None,
{
    q.push_back(p)
}

/// Relies on `BoundedVecDeque::clear`: removes every element and keeps the
/// bound.
#[verifier::external_body]
fn bvd_clear(q: &mut bounded_vec_deque::BoundedVecDeque<PointCoords>)
    ensures
        deque_points(*final(q)) == Seq::<PointCoords>::empty(),
        deque_bound(*final(q)) == deque_bound(*old(q)),
{
    q.clear()
}

/// Relies on `BoundedVecDeque::as_unbounded`: a reference to the underlying
/// `VecDeque`, which holds exactly the deque's elements in order.
#[verifier::external_body]
fn bvd_as_unbounded(q: &bounded_vec_deque::BoundedVecDeque<PointCoords>) -> (r: &VecDeque<
    PointCoords,
>)
    ensures
        r@ == deque_points(*q),
{
    q.as_unbounded()
}

/// Relies on `BoundedVecDeque::max_len`: the bound given at creation.
#[verifier::external_body]
fn bvd_max_len(q: &bounded_vec_deque::BoundedVecDeque<PointCoords>) -> (r: usize)
    ensures
        r as nat == deque_bound(*q),
{
    q.max_len()
}

/// An ordered point sequence with a fixed capacity; pushes on a full buffer
/// are rejected.
pub struct BoundedPointBuffer {
    inner: bounded_vec_deque::BoundedVecDeque<PointCoords>,
}

impl View for BoundedPointBuffer {
    type V = Seq<PointCoords>;

    closed spec fn view(&self) -> Seq<PointCoords> {
        deque_points(self.inner)
    }
}

impl BoundedPointBuffer {
    /// The capacity fixed at construction.
    pub closed spec fn bound(self) -> nat {
        deque_bound(self.inner)
    }

    /// The buffer never holds more than its capacity.
    pub open spec fn wf(self) -> bool {
        self@.len() <= self.bound()
    }

    /// Create an empty buffer of the given capacity.
    pub fn new(capacity: usize) -> (r: BoundedPointBuffer)
        ensures
            r@ == Seq::<PointCoords>::empty(),
            r.bound() == capacity as nat,
            r.wf(),
    {
        BoundedPointBuffer { inner: bvd_new(capacity) }
    }

    pub fn len(&self) -> (r: usize)
        ensures
            r == self@.len(),
    {
        bvd_as_unbounded(&self.inner).len()
    }

    /// The capacity fixed at construction.
    pub fn capacity(&self) -> (r: usize)
        ensures
            r as nat == self.bound(),
    {
        bvd_max_len(&self.inner)
    }

    /// Append at the back; returns `false` (and changes nothing) when the
    /// buffer is already full, so the length never exceeds the capacity.
    pub fn push_back(&mut self, p: PointCoords) -> (accepted: bool)
        requires
            old(self).wf(),
        ensures
            final(self).bound() == old(self).bound(),
            final(self).wf(),
            accepted == (old(self)@.len() < old(self).bound()),
            accepted ==> final(self)@ == old(self)@.push(p),
            !accepted ==> final(self)@ == old(self)@,
            final(self)@.len() <= final(self).bound(),
    {
        let len = bvd_as_unbounded(&self.inner).len();
        let cap = bvd_max_len(&self.inner);
        if len < cap {
            let displaced = bvd_push_back(&mut self.inner, p);
            true
        } else {
            false
        }
    }

    /// Read the element at `i` (`None` past the end).
    pub fn get(&self, i: usize) -> (r: Option<PointCoords>)
        ensures
            r == (if i < self@.len() {
                Some(self@[i as int])
            } else {
                None::<PointCoords>
            }),
    {
        let dq = bvd_as_unbounded(&self.inner);
        if i < dq.len() {
            Some(dq[i])
        } else {
            None
        }
    }

    /// Copy the elements out, front to back.
    pub fn as_vec(&self) -> (r: Vec<PointCoords>)
        ensures
            r@ == self@,
    {
        let dq = bvd_as_unbounded(&self.inner);
        let mut out: Vec<PointCoords> = Vec::new();
        let mut i: usize = 0;
        proof {
            assert(self@.take(0) =~= Seq::<PointCoords>::empty());
        }
        while i < dq.len()
            invariant
                dq@ == self@,
                0 <= i <= self@.len(),
                out@ == self@.take(i as int),
            decreases self@.len() - i,
        {
            out.push(dq[i]);
            proof {
                assert(out@ =~= self@.take(i as int + 1));
            }
            i = i + 1;
        }
        proof {
            assert(self@.take(self@.len() as int) =~= self@);
        }
        out
    }

    /// Remove every element; the capacity is kept.
    pub fn clear(&mut self)
        ensures
            final(self)@ == Seq::<PointCoords>::empty(),
            final(self).bound() == old(self).bound(),
            final(self).wf(),
    {
        bvd_clear(&mut self.inner);
    }
}

} // verus!
