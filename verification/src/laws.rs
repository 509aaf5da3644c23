use crate::particle::{
    accel_coeff, contribution, dist2, force_mag, lemma_dist2_prefix_nonneg, pos_stepped, snapped,
    vel_stepped, with_contribution_added, with_contribution_removed, PModel,
};
use crate::scalar::{fx_add, fx_div, fx_mul, fx_sqrt, fx_sub, lemma_fx_div_nonneg, lemma_fx_mul_sign};
use crate::simulation::{
    forces_swept, num_steps, pair_applied, pairs_from, possnap_all, stepped, stepped_times,
    sweep_from, t_next, vel_all,
};
use vstd::prelude::*;

verus! {

/// A force-recomputation pass over a single particle changes nothing: there
/// is no pair to visit.
pub proof fn lemma_singleton_sweep(p: PModel)
    ensures
        forces_swept(seq![p]) == seq![p],
{
    let ps = seq![p];
    assert(pairs_from(ps, 0, 1, 1) == ps);
    assert(sweep_from(ps, 1, 1) == ps);
    assert(sweep_from(ps, 0, 1) == ps);
}

/// One full step of a single particle is the position update, the force
/// snapshot and the velocity update of that particle alone: the pair sweep
/// in the middle contributes nothing.
pub proof fn lemma_singleton_step(p: PModel, delta_t: int)
    ensures
        stepped(seq![p], delta_t) == seq![vel_stepped(snapped(pos_stepped(p, delta_t)), delta_t)],
{
    let q = snapped(pos_stepped(p, delta_t));
    assert(possnap_all(seq![p], delta_t) =~= seq![q]);
    lemma_singleton_sweep(q);
    assert(vel_all(seq![q], delta_t) =~= seq![vel_stepped(q, delta_t)]);
}

/// A force-recomputation pass over exactly two particles visits the single
/// unordered pair exactly once: the contribution is added to the first
/// particle's force and subtracted from the second's, and nothing else
/// changes.
pub proof fn lemma_two_body_sweep(p1: PModel, p2: PModel)
    ensures
        forces_swept(seq![p1, p2]) == seq![
            with_contribution_added(p1, contribution(p1, p2)),
            with_contribution_removed(p2, contribution(p1, p2)),
        ],
{
    let ps = seq![p1, p2];
    let applied = pair_applied(ps, 0, 1);
    assert(pairs_from(applied, 0, 2, 2) == applied);
    assert(pairs_from(ps, 0, 1, 2) == applied);
    assert(pairs_from(applied, 1, 2, 2) == applied);
    assert(sweep_from(applied, 2, 2) == applied);
    assert(sweep_from(applied, 1, 2) == applied);
    assert(sweep_from(ps, 0, 2) == applied);
    assert(applied =~= seq![
        with_contribution_added(p1, contribution(p1, p2)),
        with_contribution_removed(p2, contribution(p1, p2)),
    ]);
}

/// Newton's third law for one pairwise interaction: where neither force
/// accumulator saturates, the force change of the first particle is exactly
/// the pairwise contribution, and the force change of the second is its
/// negation, axis by axis.
pub proof fn lemma_newton_third_law(p1: PModel, p2: PModel)
    requires
        p1.wf(),
        p2.wf(),
        p1.dim() == p2.dim(),
        forall|d: int|
            0 <= d < p1.dim() ==> i64::MIN <= p1.f[d] + #[trigger] contribution(p1, p2)[d]
                <= i64::MAX,
        forall|d: int|
            0 <= d < p1.dim() ==> i64::MIN <= p2.f[d] - #[trigger] contribution(p1, p2)[d]
                <= i64::MAX,
    ensures
        forall|d: int|
            0 <= d < p1.dim() ==> with_contribution_added(p1, contribution(p1, p2)).f[d] - p1.f[d]
                == #[trigger] contribution(p1, p2)[d],
        forall|d: int|
            0 <= d < p1.dim() ==> with_contribution_removed(p2, contribution(p1, p2)).f[d]
                - p2.f[d] == -(#[trigger] contribution(p1, p2)[d]),
{
    let c = contribution(p1, p2);
    assert forall|d: int| 0 <= d < p1.dim() implies with_contribution_added(p1, c).f[d] - p1.f[d]
        == c[d] && with_contribution_removed(p2, c).f[d] - p2.f[d] == -(c[d]) by {
        assert(with_contribution_added(p1, c).f[d] == fx_add(p1.f[d], c[d]));
        assert(with_contribution_removed(p2, c).f[d] == fx_sub(p2.f[d], c[d]));
    }
}

/// The computed force magnitude is never negative for nonnegative masses:
/// both the mass product and the distance terms it divides by are
/// nonnegative.
pub proof fn lemma_force_mag_nonneg(p1: PModel, p2: PModel)
    requires
        p1.m >= 0,
        p2.m >= 0,
    ensures
        force_mag(p1, p2) >= 0,
{
    lemma_dist2_prefix_nonneg(p1.pos, p2.pos, p1.pos.len());
    let r2 = dist2(p1, p2);
    lemma_fx_mul_sign(p1.m, p2.m);
    lemma_fx_mul_sign(fx_sqrt(r2), r2);
    lemma_fx_div_nonneg(fx_mul(p1.m, p2.m), fx_mul(fx_sqrt(r2), r2));
}

/// The pairwise force on the first particle is directed along the line
/// toward the second: on every axis the contribution carries the sign of
/// the displacement `pos2[d] - pos1[d]`, and it vanishes on an axis with no
/// displacement.
pub proof fn lemma_force_direction(p1: PModel, p2: PModel)
    requires
        p1.wf(),
        p2.wf(),
        p1.dim() == p2.dim(),
        p1.m >= 0,
        p2.m >= 0,
    ensures
        forall|d: int|
            0 <= d < p1.dim() && p2.pos[d] >= p1.pos[d] ==> #[trigger] contribution(p1, p2)[d]
                >= 0,
        forall|d: int|
            0 <= d < p1.dim() && p2.pos[d] <= p1.pos[d] ==> #[trigger] contribution(p1, p2)[d]
                <= 0,
        forall|d: int|
            0 <= d < p1.dim() && p2.pos[d] == p1.pos[d] ==> #[trigger] contribution(p1, p2)[d]
                == 0,
{
    lemma_force_mag_nonneg(p1, p2);
    let fm = force_mag(p1, p2);
    assert forall|d: int| 0 <= d < p1.dim() implies ((p2.pos[d] >= p1.pos[d]
        ==> #[trigger] contribution(p1, p2)[d] >= 0) && (p2.pos[d] <= p1.pos[d] ==> contribution(
        p1,
        p2,
    )[d] <= 0) && (p2.pos[d] == p1.pos[d] ==> contribution(p1, p2)[d] == 0)) by {
        lemma_fx_mul_sign(fm, fx_sub(p2.pos[d], p1.pos[d]));
    }
}

/// One step of a single particle under a constant force field: the force
/// recomputation leaves the force unchanged, so with the previous-step force
/// equal to the current force, the position advances by
/// `delta_t * (v + a * f)` and the velocity by `a * (f + f)`, each in
/// fixed-point arithmetic with `a = delta_t * (0.5 / m)`.
pub proof fn lemma_constant_force_step(p: PModel, delta_t: int)
    requires
        p.wf(),
        p.f_old == p.f,
    ensures
        stepped(seq![p], delta_t).len() == 1,
        stepped(seq![p], delta_t)[0].m == p.m,
        stepped(seq![p], delta_t)[0].f == p.f,
        stepped(seq![p], delta_t)[0].f_old == p.f,
        stepped(seq![p], delta_t)[0].pos == pos_stepped(p, delta_t).pos,
        stepped(seq![p], delta_t)[0].v == vel_stepped(p, delta_t).v,
{
    lemma_singleton_step(p, delta_t);
    let q = vel_stepped(snapped(pos_stepped(p, delta_t)), delta_t);
    assert(q.pos =~= pos_stepped(p, delta_t).pos);
    assert(q.v =~= vel_stepped(p, delta_t).v);
}

/// One force-recomputation pass from a freshly constructed pair with zero
/// initial force yields exactly one contribution per pair, equal and
/// opposite. The pass is not idempotent: a second pass from the unmutated
/// positions computes the same contribution again and accumulates it on
/// top, doubling the force.
pub proof fn lemma_pair_sweep_accumulates(p1: PModel, p2: PModel)
    requires
        p1.wf(),
        p2.wf(),
        p1.dim() == p2.dim(),
        forall|d: int| 0 <= d < p1.dim() ==> p1.f[d] == 0,
        forall|d: int| 0 <= d < p2.dim() ==> p2.f[d] == 0,
    ensures
        forces_swept(seq![p1, p2]).len() == 2,
        forall|d: int|
            0 <= d < p1.dim() ==> forces_swept(seq![p1, p2])[0].f[d] == #[trigger] contribution(
                p1,
                p2,
            )[d],
        forall|d: int|
            0 <= d < p1.dim() ==> forces_swept(seq![p1, p2])[1].f[d] == fx_sub(
                0,
                #[trigger] contribution(p1, p2)[d],
            ),
        contribution(forces_swept(seq![p1, p2])[0], forces_swept(seq![p1, p2])[1]) == contribution(
            p1,
            p2,
        ),
        forall|d: int|
            0 <= d < p1.dim() ==> forces_swept(forces_swept(seq![p1, p2]))[0].f[d] == fx_add(
                #[trigger] contribution(p1, p2)[d],
                contribution(p1, p2)[d],
            ),
{
    let c = contribution(p1, p2);
    lemma_two_body_sweep(p1, p2);
    let q1 = with_contribution_added(p1, c);
    let q2 = with_contribution_removed(p2, c);
    assert(forces_swept(seq![p1, p2]) =~= seq![q1, q2]);
    assert(force_mag(q1, q2) == force_mag(p1, p2));
    assert(contribution(q1, q2) =~= c);
    assert forall|d: int| 0 <= d < p1.dim() implies q1.f[d] == c[d] && q2.f[d] == fx_sub(
        0,
        c[d],
    ) by {
        assert(q1.f[d] == fx_add(p1.f[d], c[d]));
        assert(q2.f[d] == fx_sub(p2.f[d], c[d]));
    }
    lemma_two_body_sweep(q1, q2);
    assert(forces_swept(seq![q1, q2]) =~= seq![
        with_contribution_added(q1, c),
        with_contribution_removed(q2, c),
    ]);
    assert forall|d: int| 0 <= d < p1.dim() implies forces_swept(forces_swept(seq![p1, p2]))[0].f[d]
        == fx_add(c[d], c[d]) by {
        assert(with_contribution_added(q1, c).f[d] == fx_add(q1.f[d], c[d]));
    }
}

/// Velocity-Verlet consistency for a free particle: with zero force and
/// zero previous-step force, the velocity, mass and force never change, and
/// the position advances along a straight line, by the same displacement
/// `delta_t * v[d]` every step, over any number of steps whose end point
/// stays within the representable range.
pub proof fn lemma_uniform_motion(p: PModel, delta_t: int, k: nat)
    requires
        p.wf(),
        forall|d: int| 0 <= d < p.dim() ==> p.f[d] == 0,
        forall|d: int| 0 <= d < p.dim() ==> p.f_old[d] == 0,
        forall|d: int| 0 <= d < p.dim() ==> i64::MIN <= #[trigger] p.v[d] <= i64::MAX,
        forall|d: int| 0 <= d < p.dim() ==> i64::MIN <= #[trigger] p.pos[d] <= i64::MAX,
        forall|d: int|
            0 <= d < p.dim() ==> i64::MIN <= #[trigger] p.pos[d] + k * fx_mul(delta_t, p.v[d])
                <= i64::MAX,
    ensures
        stepped_times(seq![p], delta_t, k).len() == 1,
        stepped_times(seq![p], delta_t, k)[0].wf(),
        stepped_times(seq![p], delta_t, k)[0].m == p.m,
        stepped_times(seq![p], delta_t, k)[0].v == p.v,
        stepped_times(seq![p], delta_t, k)[0].f == p.f,
        stepped_times(seq![p], delta_t, k)[0].pos.len() == p.dim(),
        forall|d: int|
            0 <= d < p.dim() ==> stepped_times(seq![p], delta_t, k)[0].pos[d] == p.pos[d] + k
                * fx_mul(delta_t, p.v[d]),
    decreases k,
{
    if k == 0 {
    } else {
        let q = vel_stepped(snapped(pos_stepped(p, delta_t)), delta_t);
        lemma_singleton_step(p, delta_t);
        assert(stepped_times(seq![p], delta_t, k) == stepped_times(
            seq![q],
            delta_t,
            (k - 1) as nat,
        ));
        assert(q.f == p.f);
        assert(q.f_old == p.f);
        assert(q.pos.len() == p.dim());
        assert(q.v.len() == p.dim());
        assert forall|d: int| 0 <= d < p.dim() implies q.v[d] == p.v[d] && q.pos[d] == p.pos[d]
            + fx_mul(delta_t, p.v[d]) && i64::MIN <= q.pos[d] <= i64::MAX && q.pos[d] + (k - 1)
            * fx_mul(delta_t, p.v[d]) == p.pos[d] + k * fx_mul(delta_t, p.v[d]) by {
            let a = accel_coeff(p.m, delta_t);
            let q1 = pos_stepped(p, delta_t);
            let q2 = snapped(q1);
            let delta = fx_mul(delta_t, p.v[d]);
            assert(p.f[d] == 0);
            assert(fx_mul(a, 0) == 0);
            assert(fx_add(p.v[d], 0) == p.v[d]);
            assert(q1.pos[d] == fx_add(p.pos[d], delta));
            assert(delta >= 0 ==> delta <= k * delta) by (nonlinear_arith)
                requires
                    k >= 1,
            ;
            assert(delta <= 0 ==> k * delta <= delta) by (nonlinear_arith)
                requires
                    k >= 1,
            ;
            assert(i64::MIN <= p.pos[d] + delta <= i64::MAX);
            assert(q1.pos[d] == p.pos[d] + delta);
            assert(q.pos[d] == q1.pos[d]);
            assert(q2.f[d] == 0 && q2.f_old[d] == 0);
            assert(accel_coeff(q2.m, delta_t) == a);
            assert(fx_add(0, 0) == 0);
            assert(q.v[d] == fx_add(p.v[d], fx_mul(a, fx_add(q2.f[d], q2.f_old[d]))));
            assert(q.v[d] == p.v[d]);
            assert(k * delta == delta + (k - 1) * delta) by (nonlinear_arith);
        }
        assert(q.v =~= p.v);
        lemma_uniform_motion(q, delta_t, (k - 1) as nat);
        assert forall|d: int| 0 <= d < p.dim() implies stepped_times(seq![p], delta_t, k)[0].pos[d]
            == p.pos[d] + k * fx_mul(delta_t, p.v[d]) by {
            assert(stepped_times(seq![q], delta_t, (k - 1) as nat)[0].pos[d] == q.pos[d] + (k - 1)
                * fx_mul(delta_t, q.v[d]));
            assert(fx_mul(delta_t, q.v[d]) == fx_mul(delta_t, p.v[d]));
        }
    }
}

/// Exact termination count: with the end time a whole multiple `n` of the
/// positive time step, the time-stepping loop executes exactly `n`
/// iterations, never `n + 1`.
pub proof fn lemma_step_count(delta_t: int, n: nat)
    requires
        delta_t >= 1,
        n * delta_t <= i64::MAX,
    ensures
        num_steps(delta_t, n * delta_t, 0) == n,
{
    lemma_step_count_from(delta_t, n, 0);
    assert(0 * delta_t == 0) by (nonlinear_arith);
}

proof fn lemma_step_count_from(delta_t: int, n: nat, k: nat)
    requires
        delta_t >= 1,
        k <= n,
        n * delta_t <= i64::MAX,
    ensures
        num_steps(delta_t, n * delta_t, k * delta_t) == n - k,
    decreases n - k,
{
    let t = k * delta_t;
    let te = n * delta_t;
    assert(0 <= t <= te) by (nonlinear_arith)
        requires
            delta_t >= 1,
            0 <= k <= n,
            t == k * delta_t,
            te == n * delta_t,
    ;
    if k == n {
        assert(num_steps(delta_t, te, t) == 0);
    } else {
        assert(t + delta_t == (k + 1) * delta_t && t < te && (k + 1) * delta_t <= te)
            by (nonlinear_arith)
            requires
                delta_t >= 1,
                0 <= k < n,
                t == k * delta_t,
                te == n * delta_t,
        ;
        assert(fx_add(t, delta_t) == t + delta_t);
        assert(t_next(delta_t, te, t) == (k + 1) * delta_t);
        lemma_step_count_from(delta_t, n, (k + 1) as nat);
        assert(num_steps(delta_t, te, t) == 1 + num_steps(delta_t, te, (k + 1) * delta_t));
    }
}

} // verus!
