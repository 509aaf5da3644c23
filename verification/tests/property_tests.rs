use simple_md::particle::{include_forces, Particle};
use simple_md::scalar::{Scalar, SCALE};
use simple_md::simulation::Simulation;

fn s(n: i64) -> Scalar {
    Scalar::from_int(n)
}

fn half() -> Scalar {
    Scalar { raw: SCALE / 2 }
}

fn zeros() -> Vec<Scalar> {
    vec![s(0), s(0), s(0)]
}

#[test]
fn pairwise_forces_equal_and_opposite() {
    let mut p1 = Particle::new(s(6), vec![s(1), s(2), s(3)], zeros(), vec![s(1), s(2), s(3)]);
    let mut p2 = Particle::new(s(6), vec![s(1), s(0), s(5)], zeros(), vec![s(4), s(2), s(3)]);
    let before1 = p1.f.clone();
    let before2 = p2.f.clone();

    include_forces(&mut p1, &mut p2);

    for d in 0..3 {
        let delta1 = p1.f[d].raw - before1[d].raw;
        let delta2 = p2.f[d].raw - before2[d].raw;
        assert_eq!(delta1, -delta2);
    }
    assert_ne!(p1.f, before1);
}

#[test]
fn two_body_forces_literal() {
    let p1 = Particle::new(s(6), vec![s(1), s(2), s(3)], zeros(), vec![s(1), s(2), s(3)]);
    let p2 = Particle::new(s(6), vec![s(1), s(0), s(5)], zeros(), vec![s(4), s(2), s(3)]);
    let mut simulation = Simulation::new(vec![p1, p2], s(1), s(10));

    // Squared distance 0 + 4 + 4 = 8; the force magnitude 36 / 8^1.5 is
    // about 1.5910, which in fixed point comes out as 1668274 raw units.
    let r2 = s(8);
    let fmag = s(6).mul(s(6)).div(r2.sqrt().mul(r2));
    assert_eq!(r2.sqrt().raw, 2965820);
    assert_eq!(fmag.raw, 1668274);

    simulation.update_f();

    let expected_f1: Vec<i64> = vec![1048576, -1239396, 6482276];
    let expected_f2: Vec<i64> = vec![4194304, 5433700, -190820];
    for d in 0..3 {
        assert_eq!(simulation.particles()[0].f[d].raw, expected_f1[d]);
        assert_eq!(simulation.particles()[1].f[d].raw, expected_f2[d]);
    }
}

#[test]
fn free_particle_moves_in_a_straight_line() {
    // Zero force: ten steps of size one leave the velocity alone and add
    // the velocity to the position each step. Exactly ten loop iterations
    // run for t_end = 10, delta_t = 1: eleven would overshoot.
    let p = Particle::new(s(6), vec![s(1), s(2), s(3)], vec![s(1), s(2), s(3)], zeros());
    let mut simulation = Simulation::new(vec![p], s(1), s(10));

    simulation.run();

    assert_eq!(simulation.particles()[0].pos, vec![s(11), s(22), s(33)]);
    assert_eq!(simulation.particles()[0].v, vec![s(1), s(2), s(3)]);
    assert_eq!(simulation.particles()[0].f, zeros());
}

#[test]
fn constant_force_single_step() {
    // A single particle recomputes no pairwise forces, so its constant
    // initial force drives one velocity-Verlet step exactly.
    let m = s(6);
    let f = vec![s(6), s(6), s(6)];
    let v = vec![s(1), s(1), s(1)];
    let pos = vec![s(0), s(0), s(0)];
    let p = Particle::new(m, pos.clone(), v.clone(), f.clone());
    let mut simulation = Simulation::new(vec![p], s(1), s(1));

    simulation.run();

    let delta_t = s(1);
    let a = delta_t.mul(half().div(m));
    for d in 0..3 {
        let expected_pos = pos[d].add(delta_t.mul(v[d].add(a.mul(f[d]))));
        let expected_v = v[d].add(a.mul(f[d].add(f[d])));
        assert_eq!(simulation.particles()[0].pos[d], expected_pos);
        assert_eq!(simulation.particles()[0].v[d], expected_v);
        assert_eq!(simulation.particles()[0].f[d], f[d]);
    }
}

#[test]
fn force_pass_accumulates_instead_of_resetting() {
    // One pass from a clean pair leaves exactly one contribution per pair;
    // a second pass from unmutated positions adds the same contribution
    // again rather than recomputing from zero.
    let p1 = Particle::new(s(6), vec![s(1), s(2), s(3)], zeros(), zeros());
    let p2 = Particle::new(s(6), vec![s(1), s(0), s(5)], zeros(), zeros());
    let mut simulation = Simulation::new(vec![p1, p2], s(1), s(10));

    let r2 = s(8);
    let fmag = s(6).mul(s(6)).div(r2.sqrt().mul(r2));
    let pos1 = vec![s(1), s(2), s(3)];
    let pos2 = vec![s(1), s(0), s(5)];

    simulation.update_f();
    for d in 0..3 {
        let c = fmag.mul(pos2[d].sub(pos1[d]));
        assert_eq!(simulation.particles()[0].f[d], c);
        assert_eq!(simulation.particles()[1].f[d].raw, -c.raw);
    }

    simulation.update_f();
    for d in 0..3 {
        let c = fmag.mul(pos2[d].sub(pos1[d]));
        assert_eq!(simulation.particles()[0].f[d], c.add(c));
        assert_eq!(simulation.particles()[1].f[d].raw, -c.add(c).raw);
    }
}

#[test]
fn coincident_particles_exert_no_force() {
    // With zero distance the magnitude divides by zero and saturates, but
    // every axis displacement is zero, so the accumulated force stays zero.
    let p1 = Particle::new(s(6), vec![s(1), s(2), s(3)], zeros(), zeros());
    let p2 = Particle::new(s(6), vec![s(1), s(2), s(3)], zeros(), zeros());
    let mut simulation = Simulation::new(vec![p1, p2], s(1), s(10));

    simulation.update_f();

    assert_eq!(simulation.particles()[0].f, zeros());
    assert_eq!(simulation.particles()[1].f, zeros());
}
