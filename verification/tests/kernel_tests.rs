use simple_md::particle::Particle;
use simple_md::scalar::{Scalar, SCALE};
use simple_md::simulation::Simulation;

fn s(n: i64) -> Scalar {
    Scalar::from_int(n)
}

fn half() -> Scalar {
    Scalar { raw: SCALE / 2 }
}

#[test]
fn lib_create_particle() {
    let particle = Particle::new(
        s(6),
        vec![s(1), s(2), s(3)],
        vec![s(1), s(2), s(3)],
        vec![s(1), s(2), s(3)],
    );

    assert_eq!(particle.m, s(6));
    assert_eq!(particle.pos, vec![s(1), s(2), s(3)]);
    assert_eq!(particle.v, vec![s(1), s(2), s(3)]);
    assert_eq!(particle.f, vec![s(1), s(2), s(3)]);
}

#[test]
fn lib_create_simulation() {
    let pos = vec![s(1), s(2), s(3)];
    let v = vec![s(1), s(2), s(3)];
    let f = vec![s(1), s(2), s(3)];
    let _simulation = Simulation::new(vec![Particle::new(s(6), pos, v, f)], s(1), s(10));
}

#[test]
fn lib_update_position() {
    let pos = vec![s(1), s(2), s(3)];
    let v = vec![s(1), s(2), s(3)];
    let f = vec![s(1), s(2), s(3)];
    let delta_t = s(1);
    let t_end = s(10);
    let m = s(6);
    let mut simulation = Simulation::new(
        vec![Particle::new(m, pos.clone(), v.clone(), f.clone())],
        delta_t,
        t_end,
    );

    simulation.update_pos();

    let a = delta_t.mul(half().div(m));
    let mut expected_new_pos: Vec<Scalar> = Vec::new();
    for d in 0..3 {
        expected_new_pos.push(pos[d].add(delta_t.mul(v[d].add(a.mul(f[d])))));
    }
    assert_eq!(simulation.particles()[0].pos, expected_new_pos);
}

#[test]
fn lib_update_velocity() {
    let pos = vec![s(1), s(2), s(3)];
    let v = vec![s(1), s(2), s(3)];
    let f = vec![s(1), s(2), s(3)];
    let delta_t = s(1);
    let t_end = s(10);
    let m = s(6);
    let mut simulation = Simulation::new(
        vec![Particle::new(m, pos, v.clone(), f.clone())],
        delta_t,
        t_end,
    );

    simulation.update_v();

    let a = delta_t.mul(half().div(m));
    let mut expected_new_v: Vec<Scalar> = Vec::new();
    for d in 0..3 {
        expected_new_v.push(v[d].add(a.mul(f[d].add(f[d]))));
    }
    assert_eq!(simulation.particles()[0].v, expected_new_v);
}

#[test]
fn lib_update_f() {
    let pos1 = vec![s(1), s(2), s(3)];
    let v1 = vec![s(1), s(2), s(3)];
    let f1 = vec![s(1), s(2), s(3)];
    let m1 = s(6);
    let p1 = Particle::new(m1, pos1.clone(), v1, f1.clone());

    let pos2 = vec![s(1), s(0), s(5)];
    let v2 = vec![s(3), s(2), s(2)];
    let f2 = vec![s(4), s(2), s(3)];
    let m2 = s(6);
    let p2 = Particle::new(m2, pos2.clone(), v2, f2.clone());

    let delta_t = s(1);
    let t_end = s(10);
    let mut simulation = Simulation::new(vec![p1, p2], delta_t, t_end);

    simulation.update_f();

    let mut r = Scalar::zero();
    for d in 0..3 {
        let diff = pos2[d].sub(pos1[d]);
        r = r.add(diff.mul(diff));
    }
    let fmag = m1.mul(m2).div(r.sqrt().mul(r));
    let mut expected_new_f_p1: Vec<Scalar> = Vec::new();
    let mut expected_new_f_p2: Vec<Scalar> = Vec::new();
    for d in 0..3 {
        expected_new_f_p1.push(f1[d].add(fmag.mul(pos2[d].sub(pos1[d]))));
        expected_new_f_p2.push(f2[d].sub(fmag.mul(pos2[d].sub(pos1[d]))));
    }

    assert_eq!(simulation.particles()[0].f, expected_new_f_p1);
    assert_eq!(simulation.particles()[1].f, expected_new_f_p2);
}
