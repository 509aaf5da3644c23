use crate::scalar::{fx_add, fx_div, fx_mul, fx_sqrt, fx_sub, Scalar, HALF_RAW};
use vstd::prelude::*;

verus! {

/// Raw sequence view of a vector of scalars.
pub open spec fn vals(s: Seq<Scalar>) -> Seq<int> {
    s.map_values(|x: Scalar| x@)
}

/// Mathematical state of one particle: mass and the four per-axis sequences,
/// every scalar as its raw fixed-point integer.
#[verifier::ext_equal]
pub struct PModel {
    pub m: int,
    pub pos: Seq<int>,
    pub v: Seq<int>,
    pub f: Seq<int>,
    pub f_old: Seq<int>,
}

impl PModel {
    /// The spatial dimensionality of the particle.
    pub open spec fn dim(self) -> nat {
        self.pos.len()
    }

    /// All four per-axis sequences have the same number of components.
    pub open spec fn wf(self) -> bool {
        &&& self.v.len() == self.pos.len()
        &&& self.f.len() == self.pos.len()
        &&& self.f_old.len() == self.pos.len()
    }
}

/// The velocity-Verlet half-step coefficient `delta_t * (0.5 / m)`.
pub open spec fn accel_coeff(m: int, delta_t: int) -> int {
    fx_mul(delta_t, fx_div(HALF_RAW as int, m))
}

/// The particle after the velocity-Verlet position update:
/// `pos[d] += delta_t * (v[d] + a * f[d])` with `a = delta_t * (0.5 / m)`.
pub open spec fn pos_stepped(p: PModel, delta_t: int) -> PModel {
    let a = accel_coeff(p.m, delta_t);
    PModel {
        pos: Seq::new(
            p.pos.len(),
            |d: int| fx_add(p.pos[d], fx_mul(delta_t, fx_add(p.v[d], fx_mul(a, p.f[d])))),
        ),
        ..p
    }
}

/// The particle after the velocity-Verlet velocity update:
/// `v[d] += a * (f[d] + f_old[d])` with `a = delta_t * (0.5 / m)`.
pub open spec fn vel_stepped(p: PModel, delta_t: int) -> PModel {
    let a = accel_coeff(p.m, delta_t);
    PModel {
        v: Seq::new(p.v.len(), |d: int| fx_add(p.v[d], fx_mul(a, fx_add(p.f[d], p.f_old[d])))),
        ..p
    }
}

/// The particle after its current force is snapshotted into the
/// previous-step force.
pub open spec fn snapped(p: PModel) -> PModel {
    PModel { f_old: p.f, ..p }
}

/// Left-fold of the squared axis differences over the first `n` axes:
/// the accumulation order of the squared-distance loop.
pub open spec fn dist2_prefix(pos1: Seq<int>, pos2: Seq<int>, n: nat) -> int
    decreases n,
{
    if n == 0 {
        0
    } else {
        let d = fx_sub(pos1[n - 1], pos2[n - 1]);
        fx_add(dist2_prefix(pos1, pos2, (n - 1) as nat), fx_mul(d, d))
    }
}

/// Squared Euclidean distance between the two particles, in fixed-point
/// arithmetic.
pub open spec fn dist2(p1: PModel, p2: PModel) -> int {
    dist2_prefix(p1.pos, p2.pos, p1.pos.len())
}

/// A sum of squared differences is never negative.
pub proof fn lemma_dist2_prefix_nonneg(pos1: Seq<int>, pos2: Seq<int>, n: nat)
    ensures
        dist2_prefix(pos1, pos2, n) >= 0,
    decreases n,
{
    if n > 0 {
        lemma_dist2_prefix_nonneg(pos1, pos2, (n - 1) as nat);
        let d = fx_sub(pos1[n - 1], pos2[n - 1]);
        assert(d * d >= 0) by (nonlinear_arith);
        if d * d > 0 {
            vstd::arithmetic::div_mod::lemma_div_pos_is_pos(d * d, crate::scalar::SCALE as int);
        }
    }
}

/// Scalar force magnitude `(m1 * m2) / (sqrt(r2) * r2)`, scaled so that
/// multiplying by the raw displacement vector yields the per-axis force.
pub open spec fn force_mag(p1: PModel, p2: PModel) -> int {
    let r2 = dist2(p1, p2);
    fx_div(fx_mul(p1.m, p2.m), fx_mul(fx_sqrt(r2), r2))
}

/// Per-axis force contribution exerted on `p1` by `p2`:
/// `force_mag * (pos2[d] - pos1[d])`.
pub open spec fn contribution(p1: PModel, p2: PModel) -> Seq<int> {
    Seq::new(p1.pos.len(), |d: int| fx_mul(force_mag(p1, p2), fx_sub(p2.pos[d], p1.pos[d])))
}

/// The particle with the contribution `c` added into its force, axis by axis.
pub open spec fn with_contribution_added(p: PModel, c: Seq<int>) -> PModel {
    PModel { f: Seq::new(p.f.len(), |d: int| fx_add(p.f[d], c[d])), ..p }
}

/// The particle with the contribution `c` subtracted from its force,
/// axis by axis.
pub open spec fn with_contribution_removed(p: PModel, c: Seq<int>) -> PModel {
    PModel { f: Seq::new(p.f.len(), |d: int| fx_sub(p.f[d], c[d])), ..p }
}

/// One point mass in D-dimensional space. The dimension is the length of
/// `pos`; the invariant `wf` of the view says that all four per-axis vectors
/// share it.
pub struct Particle {
    pub m: Scalar,
    pub pos: Vec<Scalar>,
    pub v: Vec<Scalar>,
    pub f: Vec<Scalar>,
    pub f_old: Vec<Scalar>,
}

impl View for Particle {
    type V = PModel;

    open spec fn view(&self) -> PModel {
        PModel {
            m: self.m@,
            pos: vals(self.pos@),
            v: vals(self.v@),
            f: vals(self.f@),
            f_old: vals(self.f_old@),
        }
    }
}

/// An element-by-element copy of a vector of scalars.
fn clone_scalars(v: &Vec<Scalar>) -> (r: Vec<Scalar>)
    ensures
        r@ == v@,
{
    let mut r: Vec<Scalar> = Vec::new();
    for i in 0..v.len()
        invariant
            r@.len() == i,
            forall|k: int| 0 <= k < i ==> r@[k] == v@[k],
    {
        r.push(v[i]);
    }
    proof {
        assert(r@ =~= v@);
    }
    r
}

impl Clone for Particle {
    fn clone(&self) -> (r: Self)
        ensures
            r.m == self.m,
            r.pos@ == self.pos@,
            r.v@ == self.v@,
            r.f@ == self.f@,
            r.f_old@ == self.f_old@,
            r@ == self@,
    {
        Particle {
            m: self.m,
            pos: clone_scalars(&self.pos),
            v: clone_scalars(&self.v),
            f: clone_scalars(&self.f),
            f_old: clone_scalars(&self.f_old),
        }
    }
}

impl Particle {
    /// Constructs a particle from mass, position, velocity and initial
    /// force; the previous-step force is seeded with the same initial force.
    /// The mass must be positive and the three vectors must share one
    /// dimension.
    pub fn new(m: Scalar, pos: Vec<Scalar>, v: Vec<Scalar>, f: Vec<Scalar>) -> (p: Particle)
        requires
            m@ > 0,
            pos@.len() == v@.len(),
            pos@.len() == f@.len(),
        ensures
            p@ == (PModel {
                m: m@,
                pos: vals(pos@),
                v: vals(v@),
                f: vals(f@),
                f_old: vals(f@),
            }),
            p@.wf(),
    {
        let f_old = clone_scalars(&f);
        Particle { m, pos, v, f, f_old }
    }

    /// Adds into this particle's force the pairwise contribution exerted on
    /// it by `other`, and returns that contribution without touching `other`.
    pub fn add_f_from(&mut self, other: &Particle) -> (c: Vec<Scalar>)
        requires
            old(self)@.wf(),
            other@.wf(),
            old(self)@.dim() == other@.dim(),
        ensures
            vals(c@) == contribution(old(self)@, other@),
            final(self)@ == with_contribution_added(old(self)@, contribution(old(self)@, other@)),
            final(self)@.wf(),
    {
        let ghost orig = *self;
        let dim = self.pos.len();
        let mut r2 = Scalar::zero();
        for d in 0..dim
            invariant
                *self == orig,
                dim == orig@.dim(),
                orig@.wf(),
                other@.wf(),
                orig@.dim() == other@.dim(),
                r2@ == dist2_prefix(orig@.pos, other@.pos, d as nat),
        {
            let diff = self.pos[d].sub(other.pos[d]);
            r2 = r2.add(diff.mul(diff));
        }
        let fm = self.m.mul(other.m).div(r2.sqrt().mul(r2));
        assert(fm@ == force_mag(orig@, other@));
        let mut c: Vec<Scalar> = Vec::new();
        for d in 0..dim
            invariant
                dim == orig@.dim(),
                orig@.wf(),
                other@.wf(),
                orig@.dim() == other@.dim(),
                fm@ == force_mag(orig@, other@),
                self.m == orig.m,
                self.pos@ == orig.pos@,
                self.v@ == orig.v@,
                self.f_old@ == orig.f_old@,
                self.f@.len() == dim,
                c@.len() == d,
                forall|k: int| 0 <= k < d ==> c@[k]@ == contribution(orig@, other@)[k],
                forall|k: int| 0 <= k < d ==> self.f@[k]@ == fx_add(orig@.f[k], contribution(orig@, other@)[k]),
                forall|k: int| d <= k < dim ==> self.f@[k] == orig.f@[k],
        {
            let cd = fm.mul(other.pos[d].sub(self.pos[d]));
            c.push(cd);
            let nf = self.f[d].add(cd);
            self.f.set(d, nf);
        }
        proof {
            assert(vals(c@) =~= contribution(orig@, other@));
            assert(self@ =~= with_contribution_added(orig@, contribution(orig@, other@)));
        }
        c
    }

    /// Velocity-Verlet position update:
    /// `pos[d] += delta_t * (v[d] + delta_t * (0.5 / m) * f[d])`,
    /// using the force from the start of the step.
    pub fn update_pos(&mut self, delta_t: Scalar)
        requires
            old(self)@.wf(),
        ensures
            final(self)@ == pos_stepped(old(self)@, delta_t@),
            final(self)@.wf(),
    {
        let ghost orig = *self;
        let a = delta_t.mul(Scalar { raw: HALF_RAW }.div(self.m));
        assert(a@ == accel_coeff(orig@.m, delta_t@));
        let dim = self.pos.len();
        for d in 0..dim
            invariant
                dim == orig@.dim(),
                orig@.wf(),
                a@ == accel_coeff(orig@.m, delta_t@),
                self.m == orig.m,
                self.v@ == orig.v@,
                self.f@ == orig.f@,
                self.f_old@ == orig.f_old@,
                self.pos@.len() == dim,
                forall|k: int| 0 <= k < d ==> self.pos@[k]@ == pos_stepped(orig@, delta_t@).pos[k],
                forall|k: int| d <= k < dim ==> self.pos@[k] == orig.pos@[k],
        {
            let np = self.pos[d].add(delta_t.mul(self.v[d].add(a.mul(self.f[d]))));
            self.pos.set(d, np);
        }
        proof {
            assert(self@ =~= pos_stepped(orig@, delta_t@));
        }
    }

    /// Velocity-Verlet velocity update:
    /// `v[d] += delta_t * (0.5 / m) * (f[d] + f_old[d])`,
    /// using the average of the new force and the previous-step force.
    pub fn update_v(&mut self, delta_t: Scalar)
        requires
            old(self)@.wf(),
        ensures
            final(self)@ == vel_stepped(old(self)@, delta_t@),
            final(self)@.wf(),
    {
        let ghost orig = *self;
        let a = delta_t.mul(Scalar { raw: HALF_RAW }.div(self.m));
        assert(a@ == accel_coeff(orig@.m, delta_t@));
        let dim = self.v.len();
        for d in 0..dim
            invariant
                dim == orig@.v.len(),
                orig@.wf(),
                a@ == accel_coeff(orig@.m, delta_t@),
                self.m == orig.m,
                self.pos@ == orig.pos@,
                self.f@ == orig.f@,
                self.f_old@ == orig.f_old@,
                self.v@.len() == dim,
                forall|k: int| 0 <= k < d ==> self.v@[k]@ == vel_stepped(orig@, delta_t@).v[k],
                forall|k: int| d <= k < dim ==> self.v@[k] == orig.v@[k],
        {
            let nv = self.v[d].add(a.mul(self.f[d].add(self.f_old[d])));
            self.v.set(d, nv);
        }
        proof {
            assert(self@ =~= vel_stepped(orig@, delta_t@));
        }
    }

    /// Copies the current force into the previous-step force, preserving it
    /// for the next velocity update.
    pub fn update_old_f(&mut self)
        ensures
            final(self)@ == snapped(old(self)@),
    {
        self.f_old = clone_scalars(&self.f);
        proof {
            assert(self@ =~= snapped(old(self)@));
        }
    }
}

/// Applies one unordered pairwise interaction: adds the contribution exerted
/// on `p1` by `p2` into `p1`'s force, and subtracts the same vector from
/// `p2`'s force (Newton's third law), without recomputing the distance.
pub fn include_forces(p1: &mut Particle, p2: &mut Particle)
    requires
        old(p1)@.wf(),
        old(p2)@.wf(),
        old(p1)@.dim() == old(p2)@.dim(),
    ensures
        final(p1)@ == with_contribution_added(old(p1)@, contribution(old(p1)@, old(p2)@)),
        final(p2)@ == with_contribution_removed(old(p2)@, contribution(old(p1)@, old(p2)@)),
        final(p1)@.wf(),
        final(p2)@.wf(),
{
    let ghost orig2 = *p2;
    let c = p1.add_f_from(p2);
    assert(c@.len() == vals(c@).len());
    let dim = c.len();
    for d in 0..dim
        invariant
            dim == orig2@.dim(),
            orig2@.wf(),
            vals(c@) == contribution(old(p1)@, orig2@),
            c@.len() == dim,
            p2.m == orig2.m,
            p2.pos@ == orig2.pos@,
            p2.v@ == orig2.v@,
            p2.f_old@ == orig2.f_old@,
            p2.f@.len() == dim,
            forall|k: int| 0 <= k < d ==> p2.f@[k]@ == fx_sub(orig2@.f[k], contribution(old(p1)@, orig2@)[k]),
            forall|k: int| d <= k < dim ==> p2.f@[k] == orig2.f@[k],
    {
        let nf = p2.f[d].sub(c[d]);
        p2.f.set(d, nf);
    }
    proof {
        assert(p2@ =~= with_contribution_removed(orig2@, contribution(old(p1)@, orig2@)));
    }
}

} // verus!
