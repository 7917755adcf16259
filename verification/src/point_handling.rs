//! Points, the similarity transform, the unique point collection, and the
//! drawing color.
//!
//! A `PointCoords` is an exact 2-D coordinate; equality is exact (canonical
//! fractions make structural equality coincide with rational equality).
//! A `PointTransform` carries the four parameters of a rotation + uniform
//! scale + translation map `x' = alpha*x - beta*y + dx`,
//! `y' = beta*x + alpha*y + dy`.  `UniquePointBuf` is a deduplicated,
//! order-irrelevant collection of points.

use vstd::prelude::*;
use crate::frac::Frac;
use crate::rational::{Rat, proper, req, radd, rsub, rmul};

verus! {

/// An exact 2-D coordinate, usable as a set key.
#[derive(Clone, Copy, Debug, PartialEq, Eq, Hash, Structural)]
pub struct PointCoords {
    pub x: Frac,
    pub y: Frac,
}

/// The four parameters of the similarity transform
/// `x' = alpha*x - beta*y + dx`, `y' = beta*x + alpha*y + dy`.
#[derive(Clone, Copy, Debug, PartialEq, Eq, Structural)]
pub struct PointTransform {
    pub alpha: Frac,
    pub beta: Frac,
    pub dx: Frac,
    pub dy: Frac,
}

/// Values that can be mapped through a `PointTransform`.
pub trait Transformable: Sized {
    /// Validity required of the value before it is transformed.
    spec fn t_wf(&self) -> bool;

    /// Map through the transform; `None` reports fraction overflow.
    fn transform(&self, t: &PointTransform) -> (r: Option<Self>)
        requires
            self.t_wf(),
            t.wf(),
        ensures
            r matches Some(q) ==> q.t_wf(),
    ;
}

impl PointCoords {
    pub open spec fn wf(self) -> bool {
        &&& self.x.wf()
        &&& self.y.wf()
    }

    pub fn new(x: Frac, y: Frac) -> (r: PointCoords)
        requires
            x.wf(),
            y.wf(),
        ensures
            r == (PointCoords { x, y }),
            r.wf(),
    {
        PointCoords { x, y }
    }

    /// The point `(x, y)` for integer coordinates (as screen pixels are).
    pub fn from_ints(x: i64, y: i64) -> (r: PointCoords)
        ensures
            r.wf(),
            r.x == Frac::spec_int(x),
            r.y == Frac::spec_int(y),
    {
        proof {
            crate::frac::lemma_frac_int(x);
            crate::frac::lemma_frac_int(y);
        }
        PointCoords { x: Frac::from_int(x), y: Frac::from_int(y) }
    }

    /// Componentwise exact sum; `None` on fraction overflow.
    pub open spec fn spec_plus(a: PointCoords, b: PointCoords) -> Option<PointCoords> {
        match (Frac::spec_add(a.x, b.x), Frac::spec_add(a.y, b.y)) {
            (Some(x), Some(y)) => Some(PointCoords { x, y }),
            _ => None,
        }
    }

    /// Componentwise exact difference; `None` on fraction overflow.
    pub open spec fn spec_minus(a: PointCoords, b: PointCoords) -> Option<PointCoords> {
        match (Frac::spec_sub(a.x, b.x), Frac::spec_sub(a.y, b.y)) {
            (Some(x), Some(y)) => Some(PointCoords { x, y }),
            _ => None,
        }
    }

    /// Componentwise exact sum.
    pub fn plus(self, other: PointCoords) -> (r: Option<PointCoords>)
        requires
            self.wf(),
            other.wf(),
        ensures
            r == PointCoords::spec_plus(self, other),
            r matches Some(p) ==> {
                &&& p.wf()
                &&& req(p.x@, radd(self.x@, other.x@))
                &&& req(p.y@, radd(self.y@, other.y@))
            },
    {
        match (self.x.checked_add(other.x), self.y.checked_add(other.y)) {
            (Some(x), Some(y)) => Some(PointCoords { x, y }),
            _ => None,
        }
    }

    /// Componentwise exact difference.
    pub fn minus(self, other: PointCoords) -> (r: Option<PointCoords>)
        requires
            self.wf(),
            other.wf(),
        ensures
            r == PointCoords::spec_minus(self, other),
            r matches Some(p) ==> {
                &&& p.wf()
                &&& req(p.x@, rsub(self.x@, other.x@))
                &&& req(p.y@, rsub(self.y@, other.y@))
            },
    {
        match (self.x.checked_sub(other.x), self.y.checked_sub(other.y)) {
            (Some(x), Some(y)) => Some(PointCoords { x, y }),
            _ => None,
        }
    }
}

/// The rational value of the transformed x coordinate:
/// `alpha*x - beta*y + dx`.
pub open spec fn apply_x_rat(t: PointTransform, p: PointCoords) -> Rat {
    radd(rsub(rmul(t.alpha@, p.x@), rmul(t.beta@, p.y@)), t.dx@)
}

/// The rational value of the transformed y coordinate:
/// `beta*x + alpha*y + dy`.
pub open spec fn apply_y_rat(t: PointTransform, p: PointCoords) -> Rat {
    radd(radd(rmul(t.beta@, p.x@), rmul(t.alpha@, p.y@)), t.dy@)
}

/// The transformed x coordinate as a canonical fraction (`None` on overflow).
pub open spec fn spec_apply_x(t: PointTransform, p: PointCoords) -> Option<Frac> {
    match Frac::spec_mul(t.alpha, p.x) {
        None => None,
        Some(ax) => match Frac::spec_mul(t.beta, p.y) {
            None => None,
            Some(by) => match Frac::spec_sub(ax, by) {
                None => None,
                Some(s) => Frac::spec_add(s, t.dx),
            },
        },
    }
}

/// The transformed y coordinate as a canonical fraction (`None` on overflow).
pub open spec fn spec_apply_y(t: PointTransform, p: PointCoords) -> Option<Frac> {
    match Frac::spec_mul(t.beta, p.x) {
        None => None,
        Some(bx) => match Frac::spec_mul(t.alpha, p.y) {
            None => None,
            Some(ay) => match Frac::spec_add(bx, ay) {
                None => None,
                Some(s) => Frac::spec_add(s, t.dy),
            },
        },
    }
}

/// The transformed point (`None` on overflow).
pub open spec fn spec_apply(t: PointTransform, p: PointCoords) -> Option<PointCoords> {
    match (spec_apply_x(t, p), spec_apply_y(t, p)) {
        (Some(x), Some(y)) => Some(PointCoords { x, y }),
        _ => None,
    }
}

impl PointTransform {
    pub open spec fn wf(self) -> bool {
        &&& self.alpha.wf()
        &&& self.beta.wf()
        &&& self.dx.wf()
        &&& self.dy.wf()
    }

    /// The identity transform: `alpha = 1`, `beta = dx = dy = 0`.
    pub open spec fn spec_identity() -> PointTransform {
        PointTransform {
            alpha: Frac::spec_one(),
            beta: Frac::spec_zero(),
            dx: Frac::spec_zero(),
            dy: Frac::spec_zero(),
        }
    }

    pub fn new(alpha: Frac, beta: Frac, dx: Frac, dy: Frac) -> (r: PointTransform)
        requires
            alpha.wf(),
            beta.wf(),
            dx.wf(),
            dy.wf(),
        ensures
            r == (PointTransform { alpha, beta, dx, dy }),
            r.wf(),
    {
        PointTransform { alpha, beta, dx, dy }
    }

    pub fn identity() -> (r: PointTransform)
        ensures
            r == PointTransform::spec_identity(),
            r.wf(),
    {
        proof {
            crate::frac::lemma_frac_consts();
        }
        PointTransform {
            alpha: Frac::one(),
            beta: Frac::zero(),
            dx: Frac::zero(),
            dy: Frac::zero(),
        }
    }
}

impl PointCoords {
    /// Map the point through the transform.  The result is pinned exactly:
    /// it carries the rational values `alpha*x - beta*y + dx` and
    /// `beta*x + alpha*y + dy`, and the identity transform returns the point
    /// unchanged.
    pub fn apply_transform(&self, t: &PointTransform) -> (r: Option<PointCoords>)
        requires
            self.wf(),
            t.wf(),
        ensures
            r == spec_apply(*t, *self),
            r matches Some(p) ==> {
                &&& p.wf()
                &&& req(p.x@, apply_x_rat(*t, *self))
                &&& req(p.y@, apply_y_rat(*t, *self))
            },
            *t == PointTransform::spec_identity() ==> r == Some(*self),
    {
        let rx: Option<Frac> = match t.alpha.checked_mul(self.x) {
            None => None,
            Some(ax) => match t.beta.checked_mul(self.y) {
                None => None,
                Some(by) => match ax.checked_sub(by) {
                    None => None,
                    Some(s) => s.checked_add(t.dx),
                },
            },
        };
        let ry: Option<Frac> = match t.beta.checked_mul(self.x) {
            None => None,
            Some(bx) => match t.alpha.checked_mul(self.y) {
                None => None,
                Some(ay) => match bx.checked_add(ay) {
                    None => None,
                    Some(s) => s.checked_add(t.dy),
                },
            },
        };
        proof {
            lemma_apply_chain(*t, *self);
        }
        match (rx, ry) {
            (Some(x), Some(y)) => Some(PointCoords { x, y }),
            _ => None,
        }
    }
}

/// The stepwise fraction computation of `spec_apply` carries exactly the
/// rational values `apply_x_rat` / `apply_y_rat`, and the identity transform
/// maps every well-formed point to itself.
pub proof fn lemma_apply_chain(t: PointTransform, p: PointCoords)
    requires
        t.wf(),
        p.wf(),
    ensures
        spec_apply(t, p) matches Some(q) ==> {
            &&& q.wf()
            &&& req(q.x@, apply_x_rat(t, p))
            &&& req(q.y@, apply_y_rat(t, p))
        },
        t == PointTransform::spec_identity() ==> spec_apply(t, p) == Some(p),
{
    crate::frac::lemma_frac_consts();
    lemma_apply_x(t, p);
    lemma_apply_y(t, p);
}

/// The x chain: each checked step stays rationally equal to the exact value.
proof fn lemma_apply_x(t: PointTransform, p: PointCoords)
    requires
        t.wf(),
        p.wf(),
    ensures
        spec_apply_x(t, p) matches Some(f) ==> {
            &&& f.wf()
            &&& proper(f@)
            &&& req(f@, apply_x_rat(t, p))
        },
        t == PointTransform::spec_identity() ==> spec_apply_x(t, p) == Some(p.x),
{
    crate::frac::lemma_frac_consts();
    crate::frac::lemma_frac_ops(t.alpha, p.x);
    match Frac::spec_mul(t.alpha, p.x) {
        None => {},
        Some(ax) => {
            crate::frac::lemma_frac_ops(t.beta, p.y);
            match Frac::spec_mul(t.beta, p.y) {
                None => {},
                Some(by) => {
                    crate::frac::lemma_frac_ops(ax, by);
                    match Frac::spec_sub(ax, by) {
                        None => {},
                        Some(s) => {
                            crate::frac::lemma_frac_ops(s, t.dx);
                            match Frac::spec_add(s, t.dx) {
                                None => {},
                                Some(f) => {
                                    // chain the congruences down to apply_x_rat
                                    let ra = rmul(t.alpha@, p.x@);
                                    let rb = rmul(t.beta@, p.y@);
                                    let rs = rsub(ra, rb);
                                    crate::frac::lemma_wf_proper(t.alpha);
                                    crate::frac::lemma_wf_proper(t.beta);
                                    crate::frac::lemma_wf_proper(t.dx);
                                    crate::frac::lemma_wf_proper(p.x);
                                    crate::frac::lemma_wf_proper(p.y);
                                    crate::rational::lemma_radd_proper(t.alpha@, p.x@);
                                    crate::rational::lemma_radd_proper(t.beta@, p.y@);
                                    crate::rational::lemma_radd_proper(ra, rb);
                                    crate::rational::lemma_radd_proper(ax@, by@);
                                    crate::rational::lemma_req_refl(t.dx@);
                                    crate::rational::lemma_rsub_cong(ax@, by@, ra, rb);
                                    crate::rational::lemma_req_trans(s@, rsub(ax@, by@), rs);
                                    crate::rational::lemma_radd_cong(s@, t.dx@, rs, t.dx@);
                                    crate::rational::lemma_radd_proper(s@, t.dx@);
                                    crate::rational::lemma_req_trans(
                                        f@,
                                        radd(s@, t.dx@),
                                        radd(rs, t.dx@),
                                    );
                                },
                            }
                        },
                    }
                },
            }
        },
    }
}

/// The y chain, as for x.
proof fn lemma_apply_y(t: PointTransform, p: PointCoords)
    requires
        t.wf(),
        p.wf(),
    ensures
        spec_apply_y(t, p) matches Some(f) ==> {
            &&& f.wf()
            &&& proper(f@)
            &&& req(f@, apply_y_rat(t, p))
        },
        t == PointTransform::spec_identity() ==> spec_apply_y(t, p) == Some(p.y),
{
    crate::frac::lemma_frac_consts();
    crate::frac::lemma_frac_ops(t.beta, p.x);
    match Frac::spec_mul(t.beta, p.x) {
        None => {},
        Some(bx) => {
            crate::frac::lemma_frac_ops(t.alpha, p.y);
            match Frac::spec_mul(t.alpha, p.y) {
                None => {},
                Some(ay) => {
                    crate::frac::lemma_frac_ops(bx, ay);
                    match Frac::spec_add(bx, ay) {
                        None => {},
                        Some(s) => {
                            crate::frac::lemma_frac_ops(s, t.dy);
                            match Frac::spec_add(s, t.dy) {
                                None => {},
                                Some(f) => {
                                    let ra = rmul(t.beta@, p.x@);
                                    let rb = rmul(t.alpha@, p.y@);
                                    let rs = radd(ra, rb);
                                    crate::frac::lemma_wf_proper(t.alpha);
                                    crate::frac::lemma_wf_proper(t.beta);
                                    crate::frac::lemma_wf_proper(t.dy);
                                    crate::frac::lemma_wf_proper(p.x);
                                    crate::frac::lemma_wf_proper(p.y);
                                    crate::rational::lemma_radd_proper(t.beta@, p.x@);
                                    crate::rational::lemma_radd_proper(t.alpha@, p.y@);
                                    crate::rational::lemma_radd_proper(ra, rb);
                                    crate::rational::lemma_radd_proper(bx@, ay@);
                                    crate::rational::lemma_req_refl(t.dy@);
                                    crate::rational::lemma_radd_cong(bx@, ay@, ra, rb);
                                    crate::rational::lemma_req_trans(s@, radd(bx@, ay@), rs);
                                    crate::rational::lemma_radd_cong(s@, t.dy@, rs, t.dy@);
                                    crate::rational::lemma_radd_proper(s@, t.dy@);
                                    crate::rational::lemma_req_trans(
                                        f@,
                                        radd(s@, t.dy@),
                                        radd(rs, t.dy@),
                                    );
                                },
                            }
                        },
                    }
                },
            }
        },
    }
}

impl Transformable for PointCoords {
    open spec fn t_wf(&self) -> bool {
        self.wf()
    }

    fn transform(&self, t: &PointTransform) -> (r: Option<PointCoords>) {
        self.apply_transform(t)
    }
}

/// Every point in the sequence is well formed.
pub open spec fn seq_wf(s: Seq<PointCoords>) -> bool {
    forall|i: int| 0 <= i < s.len() ==> (#[trigger] s[i]).wf()
}

/// No point occurs twice.
pub open spec fn seq_unique(s: Seq<PointCoords>) -> bool {
    forall|i: int, j: int| 0 <= i < j < s.len() ==> s[i] != s[j]
}

/// Insertion into the collection model: append only if not already present.
pub open spec fn spec_insert(s: Seq<PointCoords>, p: PointCoords) -> Seq<PointCoords> {
    if s.contains(p) {
        s
    } else {
        s.push(p)
    }
}

/// Mapping a point sequence through a transform, deduplicating the images;
/// `None` as soon as one image overflows.
pub open spec fn spec_transform_seq(t: PointTransform, s: Seq<PointCoords>) -> Option<
    Seq<PointCoords>,
>
    decreases s.len(),
{
    if s.len() == 0 {
        Some(Seq::empty())
    } else {
        match spec_transform_seq(t, s.drop_last()) {
            None => None,
            Some(acc) => match spec_apply(t, s.last()) {
                None => None,
                Some(q) => Some(spec_insert(acc, q)),
            },
        }
    }
}

/// A set of points: no duplicates, insertion order irrelevant to the
/// engine's results.
#[derive(Debug)]
pub struct UniquePointBuf {
    items: Vec<PointCoords>,
}

impl View for UniquePointBuf {
    type V = Seq<PointCoords>;

    closed spec fn view(&self) -> Seq<PointCoords> {
        self.items@
    }
}

impl UniquePointBuf {
    /// All members well formed and pairwise distinct.
    pub open spec fn wf(self) -> bool {
        &&& seq_wf(self@)
        &&& seq_unique(self@)
    }

    /// Create the empty collection.
    pub fn new() -> (r: UniquePointBuf)
        ensures
            r@ == Seq::<PointCoords>::empty(),
            r.wf(),
    {
        UniquePointBuf { items: Vec::new() }
    }

    pub fn len(&self) -> (r: usize)
        ensures
            r == self@.len(),
    {
        self.items.len()
    }

    /// Exact membership test.
    pub fn contains(&self, p: &PointCoords) -> (r: bool)
        ensures
            r == self@.contains(*p),
    {
        let mut i: usize = 0;
        while i < self.items.len()
            invariant
                0 <= i <= self@.len(),
                forall|j: int| 0 <= j < i ==> self@[j] != *p,
            decreases self@.len() - i,
        {
            if self.items[i] == *p {
                assert(self@[i as int] == *p);
                return true;
            }
            i = i + 1;
        }
        assert(!self@.contains(*p));
        false
    }

    /// Insert a point; returns `true` exactly when it was newly added.
    /// Inserting a point that is already present changes nothing.
    pub fn insert(&mut self, p: PointCoords) -> (added: bool)
        requires
            old(self).wf(),
            p.wf(),
        ensures
            final(self)@ == spec_insert(old(self)@, p),
            added == !old(self)@.contains(p),
            final(self).wf(),
            final(self)@.contains(p),
    {
        if self.contains(&p) {
            false
        } else {
            let ghost olds = self@;
            self.items.push(p);
            proof {
                assert(self@ == olds.push(p));
                assert(forall|j: int| 0 <= j < olds.len() ==> self@[j] == olds[j]);
                assert(self@[olds.len() as int] == p);
            }
            true
        }
    }

    /// Read a member at a known-valid position.
    pub fn at(&self, i: usize) -> (r: PointCoords)
        requires
            i < self@.len(),
        ensures
            r == self@[i as int],
    {
        self.items[i]
    }

    /// Read a member by position (the order carries no meaning).
    pub fn get(&self, i: usize) -> (r: Option<PointCoords>)
        ensures
            r == (if i < self@.len() {
                Some(self@[i as int])
            } else {
                None::<PointCoords>
            }),
    {
        if i < self.items.len() {
            Some(self.items[i])
        } else {
            None
        }
    }

    /// Copy the members out in their stored order.
    pub fn as_vec(&self) -> (r: Vec<PointCoords>)
        ensures
            r@ == self@,
    {
        let mut out: Vec<PointCoords> = Vec::new();
        let mut i: usize = 0;
        while i < self.items.len()
            invariant
                0 <= i <= self@.len(),
                out@ == self@.take(i as int),
            decreases self@.len() - i,
        {
            out.push(self.items[i]);
            proof {
                assert(out@ =~= self@.take(i as int + 1));
            }
            i = i + 1;
        }
        proof {
            assert(self@.take(self@.len() as int) =~= self@);
        }
        out
    }

    /// An independent copy with the same members.
    pub fn duplicate(&self) -> (r: UniquePointBuf)
        ensures
            r@ == self@,
    {
        UniquePointBuf { items: self.as_vec() }
    }

    /// Remove all points.
    pub fn clear(&mut self)
        ensures
            final(self)@ == Seq::<PointCoords>::empty(),
            final(self).wf(),
    {
        self.items.clear();
    }

    /// Move the contents out, leaving the collection empty.
    pub fn take_points(&mut self) -> (r: UniquePointBuf)
        requires
            old(self).wf(),
        ensures
            r@ == old(self)@,
            r.wf(),
            final(self)@ == Seq::<PointCoords>::empty(),
            final(self).wf(),
    {
        let mut other = UniquePointBuf::new();
        core::mem::swap(&mut other, self);
        other
    }

    /// Map every member through the transform into a fresh collection;
    /// images that coincide collapse (accepted behavior).  The identity
    /// transform reproduces the collection exactly.
    pub fn transform_points(&self, t: &PointTransform) -> (r: Option<UniquePointBuf>)
        requires
            self.wf(),
            t.wf(),
        ensures
            match r {
                Some(b) => spec_transform_seq(*t, self@) == Some(b@) && b.wf(),
                None => spec_transform_seq(*t, self@) is None,
            },
            *t == PointTransform::spec_identity() ==> (r matches Some(b) && b@ == self@),
    {
        let mut out = UniquePointBuf::new();
        let mut i: usize = 0;
        while i < self.items.len()
            invariant
                0 <= i <= self@.len(),
                self.wf(),
                t.wf(),
                out.wf(),
                spec_transform_seq(*t, self@.take(i as int)) == Some(out@),
            decreases self@.len() - i,
        {
            let p = self.items[i];
            assert(p == self@[i as int]);
            assert(p.wf());
            match p.apply_transform(t) {
                Some(q) => {
                    out.insert(q);
                    proof {
                        assert(self@.take(i as int + 1).drop_last() =~= self@.take(i as int));
                        assert(self@.take(i as int + 1).last() == p);
                    }
                },
                None => {
                    proof {
                        assert(self@.take(i as int + 1).drop_last() =~= self@.take(i as int));
                        assert(self@.take(i as int + 1).last() == p);
                        assert(spec_transform_seq(*t, self@.take(i as int + 1)) is None);
                        lemma_transform_none_extends(*t, self@, i as int + 1);
                    }
                    return None;
                },
            }
            i = i + 1;
        }
        proof {
            assert(self@.take(self@.len() as int) =~= self@);
            if *t == PointTransform::spec_identity() {
                lemma_transform_identity(self@);
            }
        }
        Some(out)
    }
}

/// Once a prefix of the sequence fails to transform, the whole sequence does.
proof fn lemma_transform_none_extends(t: PointTransform, s: Seq<PointCoords>, j: int)
    requires
        0 <= j <= s.len(),
        spec_transform_seq(t, s.take(j)) is None,
    ensures
        spec_transform_seq(t, s) is None,
    decreases s.len() - j,
{
    if j == s.len() {
        assert(s.take(j) =~= s);
    } else {
        assert(s.take(j + 1).drop_last() =~= s.take(j));
        lemma_transform_none_extends(t, s, j + 1);
    }
}

/// Applying the identity transform to distinct well-formed points reproduces
/// the sequence exactly: each image equals its preimage and no images
/// collapse.
pub proof fn lemma_transform_identity(s: Seq<PointCoords>)
    requires
        seq_wf(s),
        seq_unique(s),
    ensures
        spec_transform_seq(PointTransform::spec_identity(), s) == Some(s),
    decreases s.len(),
{
    let t = PointTransform::spec_identity();
    crate::frac::lemma_frac_consts();
    if s.len() == 0 {
        assert(s =~= Seq::<PointCoords>::empty());
    } else {
        let front = s.drop_last();
        assert(seq_wf(front) && seq_unique(front)) by {
            assert(forall|i: int| 0 <= i < front.len() ==> front[i] == s[i]);
        }
        lemma_transform_identity(front);
        lemma_apply_chain(t, s.last());
        assert(spec_apply(t, s.last()) == Some(s.last()));
        assert(!front.contains(s.last())) by {
            if front.contains(s.last()) {
                let i = choose|i: int| 0 <= i < front.len() && front[i] == s.last();
                assert(s[i] == s[s.len() - 1]);
            }
        }
        assert(spec_insert(front, s.last()) == front.push(s.last()));
        assert(front.push(s.last()) =~= s);
    }
}

impl Transformable for UniquePointBuf {
    open spec fn t_wf(&self) -> bool {
        self.wf()
    }

    fn transform(&self, t: &PointTransform) -> (r: Option<UniquePointBuf>) {
        self.transform_points(t)
    }
}

/// Inserting a point twice leaves the collection exactly as inserting it
/// once: the second insertion finds the point present and changes nothing,
/// so the cardinality is the same.
pub proof fn lemma_insert_idempotent(s: Seq<PointCoords>, p: PointCoords)
    ensures
        spec_insert(spec_insert(s, p), p) == spec_insert(s, p),
        spec_insert(spec_insert(s, p), p).len() == spec_insert(s, p).len(),
{
    if s.contains(p) {
    } else {
        assert(s.push(p)[s.len() as int] == p);
        assert(s.push(p).contains(p));
    }
}

/// An RGB color triple, chosen once when a line is created.
#[derive(Clone, Copy, Debug, PartialEq, Eq, Structural)]
pub struct RGBColor {
    pub r: u8,
    pub g: u8,
    pub b: u8,
}

/// Relies on `rand::random`: draws a value of the requested type; nothing is
/// promised of the sampled value.
pub assume_specification<T>[ rand::random::<T> ]() -> (r: T)
    where
        rand::distributions::Standard: rand::distributions::Distribution<T>,
;

impl RGBColor {
    pub fn new(r: u8, g: u8, b: u8) -> (c: RGBColor)
        ensures
            c == (RGBColor { r, g, b }),
    {
        RGBColor { r, g, b }
    }

    /// A color with three independently random channels.
    pub fn random_color() -> RGBColor {
        RGBColor::new(rand::random::<u8>(), rand::random::<u8>(), rand::random::<u8>())
    }
}

} // verus!
