use simple_md::particle::Particle;
use simple_md::scalar::{Scalar, SCALE};

fn s(n: i64) -> Scalar {
    Scalar::from_int(n)
}

fn half() -> Scalar {
    Scalar { raw: SCALE / 2 }
}

#[test]
fn particle_create_particle() {
    let particle = Particle::new(
        s(6),
        vec![s(1), s(2), s(3)],
        vec![s(1), s(2), s(3)],
        vec![s(1), s(2), s(3)],
    );

    assert_eq!(particle.m, s(6));
    assert_eq!(particle.pos, vec![s(1), s(2), s(3)]);
    assert_eq!(particle.v, vec![s(1), s(2), s(3)]);
    assert_eq!(particle.f, vec![s(1), s(2), s(3)]);
}

#[test]
fn particle_update_position() {
    let pos = vec![s(1), s(2), s(3)];
    let v = vec![s(1), s(2), s(3)];
    let f = vec![s(1), s(2), s(3)];
    let delta_t = s(1);
    let m = s(6);
    let mut particle = Particle::new(m, pos.clone(), v.clone(), f.clone());

    particle.update_pos(delta_t);

    let a = delta_t.mul(half().div(m));
    let mut expected_new_pos: Vec<Scalar> = Vec::new();
    for d in 0..3 {
        expected_new_pos.push(pos[d].add(delta_t.mul(v[d].add(a.mul(f[d])))));
    }
    assert_eq!(particle.pos, expected_new_pos);
}

#[test]
fn particle_update_velocity() {
    let pos = vec![s(1), s(2), s(3)];
    let v = vec![s(1), s(2), s(3)];
    let f = vec![s(1), s(2), s(3)];
    let delta_t = s(1);
    let m = s(6);
    let mut particle = Particle::new(m, pos, v.clone(), f.clone());

    particle.update_v(delta_t);

    let a = delta_t.mul(half().div(m));
    let mut expected_new_v: Vec<Scalar> = Vec::new();
    for d in 0..3 {
        expected_new_v.push(v[d].add(a.mul(f[d].add(f[d]))));
    }
    assert_eq!(particle.v, expected_new_v);
}

#[test]
fn update_old_force() {
    let pos = vec![s(1), s(2), s(3)];
    let v = vec![s(1), s(2), s(3)];
    let f = vec![s(1), s(2), s(3)];
    let m = s(6);
    let mut particle = Particle::new(m, pos, v, f);

    let expected_f = vec![s(2), s(3), s(4)];
    particle.f = expected_f.clone();

    particle.update_old_f();

    assert_eq!(particle.f_old, expected_f);
}
