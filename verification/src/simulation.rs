use crate::particle::{
    contribution, pos_stepped, snapped, vel_stepped, with_contribution_added,
    with_contribution_removed, PModel, Particle,
};
use crate::scalar::{fx_add, Scalar};
use vstd::prelude::*;

verus! {

/// Model views of a vector of particles.
pub open spec fn pviews(ps: Seq<Particle>) -> Seq<PModel> {
    ps.map_values(|p: Particle| p@)
}

/// Every particle is well-formed and has the given dimension.
pub open spec fn all_wf(ps: Seq<PModel>, dim: nat) -> bool {
    forall|k: int| 0 <= k < ps.len() ==> (#[trigger] ps[k]).wf() && ps[k].dim() == dim
}

/// Mathematical state of the whole simulation.
#[verifier::ext_equal]
pub struct SModel {
    pub particles: Seq<PModel>,
    pub delta_t: int,
    pub t_end: int,
}

impl SModel {
    /// The shared spatial dimensionality of the particles.
    pub open spec fn dim(self) -> nat {
        if self.particles.len() > 0 {
            self.particles[0].dim()
        } else {
            0
        }
    }

    /// A positive time step and one dimension shared by all particles.
    pub open spec fn wf(self) -> bool {
        &&& self.delta_t >= 1
        &&& all_wf(self.particles, self.dim())
    }
}

/// Position update followed by the force snapshot, for every particle.
pub open spec fn possnap_all(ps: Seq<PModel>, delta_t: int) -> Seq<PModel> {
    ps.map_values(|p: PModel| snapped(pos_stepped(p, delta_t)))
}

/// Velocity update for every particle.
pub open spec fn vel_all(ps: Seq<PModel>, delta_t: int) -> Seq<PModel> {
    ps.map_values(|p: PModel| vel_stepped(p, delta_t))
}

/// One unordered pair visited: the contribution exerted on particle `i` by
/// particle `j` is added to `i`'s force and subtracted from `j`'s.
pub open spec fn pair_applied(ps: Seq<PModel>, i: int, j: int) -> Seq<PModel> {
    let c = contribution(ps[i], ps[j]);
    ps.update(i, with_contribution_added(ps[i], c)).update(
        j,
        with_contribution_removed(ps[j], c),
    )
}

/// The pairs `(i, j), (i, j+1), ..., (i, n-1)` visited in order.
pub open spec fn pairs_from(ps: Seq<PModel>, i: int, j: int, n: int) -> Seq<PModel>
    decreases n - j,
{
    if j >= n {
        ps
    } else {
        pairs_from(pair_applied(ps, i, j), i, j + 1, n)
    }
}

/// The full pair sweep for rows `i, i+1, ..., n-1`: row `i` visits the pairs
/// `(i, i+1) .. (i, n-1)`.
pub open spec fn sweep_from(ps: Seq<PModel>, i: int, n: int) -> Seq<PModel>
    decreases n - i,
{
    if i >= n {
        ps
    } else {
        sweep_from(pairs_from(ps, i, i + 1, n), i + 1, n)
    }
}

/// One force-recomputation pass: every unordered pair `(i, j)` with `i < j`
/// visited exactly once, accumulating on top of the forces already present.
pub open spec fn forces_swept(ps: Seq<PModel>) -> Seq<PModel> {
    sweep_from(ps, 0, ps.len() as int)
}

/// One full velocity-Verlet step: position updates and force snapshots,
/// then the pair sweep, then velocity updates.
pub open spec fn stepped(ps: Seq<PModel>, delta_t: int) -> Seq<PModel> {
    vel_all(forces_swept(possnap_all(ps, delta_t)), delta_t)
}

/// The simulated time after one more loop iteration, capped at `t_end`:
/// the cap changes no comparison against `t_end` and keeps the recursions
/// over time well-founded under saturation.
pub open spec fn t_next(delta_t: int, t_end: int, t: int) -> int {
    let s = fx_add(t, delta_t);
    if s > t_end {
        t_end
    } else {
        s
    }
}

/// How many loop iterations remain when the time `t` has been reached.
pub open spec fn num_steps(delta_t: int, t_end: int, t: int) -> nat
    decreases t_end - t,
        when delta_t >= 1 && i64::MIN <= t <= i64::MAX && t_end <= i64::MAX
{
    if t >= t_end {
        0
    } else {
        (1 + num_steps(delta_t, t_end, t_next(delta_t, t_end, t))) as nat
    }
}

/// The particle states after the time-stepping loop runs from time `t`
/// until `t >= t_end`.
pub open spec fn run_from(ps: Seq<PModel>, delta_t: int, t_end: int, t: int) -> Seq<PModel>
    decreases t_end - t,
        when delta_t >= 1 && i64::MIN <= t <= i64::MAX && t_end <= i64::MAX
{
    if t >= t_end {
        ps
    } else {
        run_from(stepped(ps, delta_t), delta_t, t_end, t_next(delta_t, t_end, t))
    }
}

/// `k` full velocity-Verlet steps.
pub open spec fn stepped_times(ps: Seq<PModel>, delta_t: int, k: nat) -> Seq<PModel>
    decreases k,
{
    if k == 0 {
        ps
    } else {
        stepped_times(stepped(ps, delta_t), delta_t, (k - 1) as nat)
    }
}

/// Running the loop from time `t` performs exactly `num_steps` full steps.
pub proof fn lemma_run_from_counts_steps(ps: Seq<PModel>, delta_t: int, t_end: int, t: int)
    requires
        delta_t >= 1,
        i64::MIN <= t <= i64::MAX,
        t_end <= i64::MAX,
    ensures
        run_from(ps, delta_t, t_end, t) == stepped_times(ps, delta_t, num_steps(delta_t, t_end, t)),
    decreases t_end - t,
{
    if t >= t_end {
    } else {
        lemma_run_from_counts_steps(stepped(ps, delta_t), delta_t, t_end, t_next(delta_t, t_end, t));
    }
}

/// One row of the pair sweep does not change how many particles there are.
pub proof fn lemma_pairs_from_len(ps: Seq<PModel>, i: int, j: int, n: int)
    requires
        0 <= i < ps.len(),
        i < j,
        n <= ps.len(),
    ensures
        pairs_from(ps, i, j, n).len() == ps.len(),
    decreases n - j,
{
    if j >= n {
    } else {
        lemma_pairs_from_len(pair_applied(ps, i, j), i, j + 1, n);
    }
}

/// The pair sweep does not change how many particles there are.
pub proof fn lemma_sweep_from_len(ps: Seq<PModel>, i: int, n: int)
    requires
        0 <= i,
        n <= ps.len(),
    ensures
        sweep_from(ps, i, n).len() == ps.len(),
    decreases n - i,
{
    if i >= n {
    } else {
        lemma_pairs_from_len(ps, i, i + 1, n);
        lemma_sweep_from_len(pairs_from(ps, i, i + 1, n), i + 1, n);
    }
}

/// The simulation: an exclusively owned ordered collection of particles, a
/// fixed positive time step and an end time.
pub struct Simulation {
    particles: Vec<Particle>,
    delta_t: Scalar,
    t_end: Scalar,
}

impl View for Simulation {
    type V = SModel;

    closed spec fn view(&self) -> SModel {
        SModel { particles: pviews(self.particles@), delta_t: self.delta_t@, t_end: self.t_end@ }
    }
}

impl Simulation {
    /// Constructs a simulation over the given particles. The time step must
    /// be positive, the end time nonnegative, and all particles must share
    /// one dimension.
    pub fn new(particles: Vec<Particle>, delta_t: Scalar, t_end: Scalar) -> (s: Simulation)
        requires
            delta_t@ >= 1,
            t_end@ >= 0,
            forall|k: int| 0 <= k < particles@.len() ==> (#[trigger] particles@[k])@.wf(),
            forall|k: int|
                0 <= k < particles@.len() ==> (#[trigger] particles@[k])@.dim()
                    == particles@[0]@.dim(),
        ensures
            s@ == (SModel { particles: pviews(particles@), delta_t: delta_t@, t_end: t_end@ }),
            s@.wf(),
    {
        let s = Simulation { particles, delta_t, t_end };
        proof {
            assert(s@ =~= SModel {
                particles: pviews(s.particles@),
                delta_t: s.delta_t@,
                t_end: s.t_end@,
            });
        }
        s
    }

    /// Read access to the particle collection.
    pub fn particles(&self) -> (r: &Vec<Particle>)
        ensures
            pviews(r@) == self@.particles,
    {
        &self.particles
    }

    /// Position update and force snapshot for every particle, before any
    /// force recomputation.
    pub fn update_pos(&mut self)
        requires
            old(self)@.wf(),
        ensures
            final(self)@.particles == possnap_all(old(self)@.particles, old(self)@.delta_t),
            final(self)@.delta_t == old(self)@.delta_t,
            final(self)@.t_end == old(self)@.t_end,
            final(self)@.wf(),
    {
        let ghost orig = *self;
        let l = self.particles.len();
        for i in 0..l
            invariant
                self.particles@.len() == l,
                self.delta_t == orig.delta_t,
                self.t_end == orig.t_end,
                orig@.wf(),
                orig@.particles.len() == l,
                forall|k: int|
                    0 <= k < i ==> pviews(self.particles@)[k] == possnap_all(
                        orig@.particles,
                        orig@.delta_t,
                    )[k],
                forall|k: int| i <= k < l ==> self.particles@[k]@ == orig@.particles[k],
        {
            let mut p = self.particles[i].clone();
            assert(p@ == orig@.particles[i as int]);
            p.update_pos(self.delta_t);
            p.update_old_f();
            let ghost prev = self.particles@;
            self.particles.set(i, p);
            proof {
                assert(possnap_all(orig@.particles, orig@.delta_t)[i as int] == snapped(
                    pos_stepped(orig@.particles[i as int], orig@.delta_t),
                ));
                assert(pviews(self.particles@)[i as int] == p@);
                assert(p@ == snapped(pos_stepped(orig@.particles[i as int], orig@.delta_t)));
                assert forall|k: int| 0 <= k < i + 1 implies pviews(self.particles@)[k]
                    == possnap_all(orig@.particles, orig@.delta_t)[k] by {
                    if k != i {
                        assert(self.particles@[k] == prev[k]);
                        assert(pviews(prev)[k] == possnap_all(orig@.particles, orig@.delta_t)[k]);
                    }
                }
            }
        }
        proof {
            assert(self@.particles =~= possnap_all(orig@.particles, orig@.delta_t));
        }
    }

    /// Velocity update for every particle.
    pub fn update_v(&mut self)
        requires
            old(self)@.wf(),
        ensures
            final(self)@.particles == vel_all(old(self)@.particles, old(self)@.delta_t),
            final(self)@.delta_t == old(self)@.delta_t,
            final(self)@.t_end == old(self)@.t_end,
            final(self)@.wf(),
    {
        let ghost orig = *self;
        let l = self.particles.len();
        for i in 0..l
            invariant
                self.particles@.len() == l,
                self.delta_t == orig.delta_t,
                self.t_end == orig.t_end,
                orig@.wf(),
                orig@.particles.len() == l,
                forall|k: int|
                    0 <= k < i ==> pviews(self.particles@)[k] == vel_all(
                        orig@.particles,
                        orig@.delta_t,
                    )[k],
                forall|k: int| i <= k < l ==> self.particles@[k]@ == orig@.particles[k],
        {
            let mut p = self.particles[i].clone();
            assert(p@ == orig@.particles[i as int]);
            p.update_v(self.delta_t);
            let ghost prev = self.particles@;
            self.particles.set(i, p);
            proof {
                assert(vel_all(orig@.particles, orig@.delta_t)[i as int] == vel_stepped(
                    orig@.particles[i as int],
                    orig@.delta_t,
                ));
                assert(pviews(self.particles@)[i as int] == p@);
                assert(p@ == vel_stepped(orig@.particles[i as int], orig@.delta_t));
                assert forall|k: int| 0 <= k < i + 1 implies pviews(self.particles@)[k] == vel_all(
                    orig@.particles,
                    orig@.delta_t,
                )[k] by {
                    if k != i {
                        assert(self.particles@[k] == prev[k]);
                        assert(pviews(prev)[k] == vel_all(orig@.particles, orig@.delta_t)[k]);
                    }
                }
            }
        }
        proof {
            assert(self@.particles =~= vel_all(orig@.particles, orig@.delta_t));
        }
    }

    /// Force recomputation: every unordered pair `(i, j)` with `i < j` is
    /// visited exactly once, adding the pairwise contribution on top of the
    /// forces already present.
    pub fn update_f(&mut self)
        requires
            old(self)@.wf(),
        ensures
            final(self)@.particles == forces_swept(old(self)@.particles),
            final(self)@.delta_t == old(self)@.delta_t,
            final(self)@.t_end == old(self)@.t_end,
            final(self)@.wf(),
    {
        let ghost orig = *self;
        let ghost dim0 = orig@.dim();
        let ghost goal = forces_swept(orig@.particles);
        let l = self.particles.len();
        proof {
            lemma_sweep_from_len(orig@.particles, 0, l as int);
        }
        for i in 0..l
            invariant
                self.particles@.len() == l,
                self.delta_t == orig.delta_t,
                self.t_end == orig.t_end,
                all_wf(pviews(self.particles@), dim0),
                sweep_from(pviews(self.particles@), i as int, l as int) == goal,
        {
            let mut particle = self.particles[i].clone();
            let ghost base = pviews(self.particles@);
            proof {
                assert(base.update(i as int, particle@) =~= base);
            }
            for j in (i + 1)..l
                invariant
                    i < l,
                    self.particles@.len() == l,
                    self.delta_t == orig.delta_t,
                    self.t_end == orig.t_end,
                    all_wf(base, dim0),
                    all_wf(pviews(self.particles@).update(i as int, particle@), dim0),
                    pairs_from(
                        pviews(self.particles@).update(i as int, particle@),
                        i as int,
                        j as int,
                        l as int,
                    ) == pairs_from(base, i as int, i as int + 1, l as int),
            {
                let ghost combined = pviews(self.particles@).update(i as int, particle@);
                let mut pj = self.particles[j].clone();
                assert(pj@ == combined[j as int]);
                assert(particle@ == combined[i as int]);
                crate::particle::include_forces(&mut particle, &mut pj);
                self.particles.set(j, pj);
                proof {
                    let c = contribution(combined[i as int], combined[j as int]);
                    assert(pviews(self.particles@).update(i as int, particle@)
                        =~= pair_applied(combined, i as int, j as int));
                    assert(all_wf(pair_applied(combined, i as int, j as int), dim0));
                }
            }
            self.particles.set(i, particle);
            proof {
                assert(pviews(self.particles@) =~= pairs_from(
                    base,
                    i as int,
                    i as int + 1,
                    l as int,
                ));
            }
        }
        proof {
            assert(self@.particles =~= goal);
        }
    }

    /// Runs the simulation to completion: computes initial forces once, then
    /// repeats position update, force recomputation and velocity update,
    /// advancing the time by `delta_t`, until the end time is reached.
    pub fn run(&mut self)
        requires
            old(self)@.wf(),
        ensures
            final(self)@.particles == run_from(
                forces_swept(old(self)@.particles),
                old(self)@.delta_t,
                old(self)@.t_end,
                0,
            ),
            final(self)@.delta_t == old(self)@.delta_t,
            final(self)@.t_end == old(self)@.t_end,
            final(self)@.wf(),
    {
        let ghost orig = *self;
        let mut t = Scalar::zero();
        self.update_f();
        let ghost goal = run_from(self@.particles, orig@.delta_t, orig@.t_end, 0);
        while t.raw < self.t_end.raw
            invariant
                self@.wf(),
                self.delta_t == orig.delta_t,
                self.t_end == orig.t_end,
                run_from(self@.particles, self@.delta_t, self@.t_end, t@) == goal,
            decreases num_steps(self@.delta_t, self@.t_end, t@),
        {
            let ghost before = self@.particles;
            let ghost t0 = t@;
            self.update_pos();
            self.update_f();
            self.update_v();
            t = t.add(self.delta_t);
            proof {
                assert(self@.particles == stepped(before, self@.delta_t));
                let dt = self@.delta_t;
                let te = self@.t_end;
                let tn = t_next(dt, te, t0);
                assert(run_from(before, dt, te, t0) == run_from(self@.particles, dt, te, tn));
                assert(num_steps(dt, te, t0) == 1 + num_steps(dt, te, tn));
                if t@ != tn {
                    assert(t@ >= te && tn == te);
                    assert(run_from(self@.particles, dt, te, t@) == self@.particles);
                    assert(run_from(self@.particles, dt, te, tn) == self@.particles);
                    assert(num_steps(dt, te, t@) == 0);
                    assert(num_steps(dt, te, tn) == 0);
                }
            }
        }
    }
}

} // verus!
