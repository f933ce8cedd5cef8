use fieldlines::em3d::{sample_b3d, sample_e3d, Charge3D};
use glam::Vec3;

type Source = Charge3D<Vec3, f32>;

fn source(pos: Vec3, q: f32) -> Source {
    Charge3D { pos, q, vel: Vec3::ZERO }
}

fn moving(pos: Vec3, q: f32, vel: Vec3) -> Source {
    Charge3D { pos, q, vel }
}

fn single(p: Vec3, c: Source, k: f32, soft2: f32) -> Vec3 {
    let d = p - c.pos;
    let r2 = d.length_squared() + soft2;
    let r = r2.sqrt();
    (k * c.q / (r2 * r)) * d
}

fn electric(k: f32, soft2: f32) -> impl Fn(Vec3, Vec3, Source) -> Vec3 {
    move |total: Vec3, p: Vec3, c: Source| total + single(p, c, k, soft2)
}

fn magnetic(k: f32, soft2: f32, c_inv2: f32) -> impl Fn(Vec3, Vec3, Source) -> Vec3 {
    move |total: Vec3, p: Vec3, c: Source| total + c_inv2 * c.vel.cross(single(p, c, k, soft2))
}

fn is_moving(c: Source) -> bool {
    !(c.vel.length_squared() < 1e-10)
}

#[test]
fn empty_source_set_gives_zero_field() {
    let charges: Vec<Source> = Vec::new();
    let e = sample_e3d(Vec3::new(1.0, 2.0, 3.0), &charges, Vec3::ZERO, &electric(1.0, 1e-4));
    assert_eq!(e, Vec3::ZERO);
    let b = sample_b3d(
        Vec3::new(1.0, 2.0, 3.0),
        &charges,
        Vec3::ZERO,
        &is_moving,
        &magnetic(1.0, 1e-4, 1.0),
    );
    assert_eq!(b, Vec3::ZERO);
}

#[test]
fn single_source_follows_the_inverse_square_formula() {
    let charges = vec![source(Vec3::ZERO, 2.0)];
    let e = sample_e3d(Vec3::new(2.0, 0.0, 0.0), &charges, Vec3::ZERO, &electric(1.0, 0.0));
    assert_eq!(e, Vec3::new(0.5, 0.0, 0.0));
    let scaled = sample_e3d(Vec3::new(2.0, 0.0, 0.0), &charges, Vec3::ZERO, &electric(4.0, 0.0));
    assert_eq!(scaled, Vec3::new(2.0, 0.0, 0.0));
}

#[test]
fn sources_are_accumulated_first_to_last() {
    let charges: Vec<Charge3D<u64, u64>> = vec![
        Charge3D { pos: 0, q: 1, vel: 0 },
        Charge3D { pos: 0, q: 2, vel: 0 },
        Charge3D { pos: 0, q: 3, vel: 0 },
    ];
    let digits = |total: u64, p: u64, c: Charge3D<u64, u64>| total * 10 + c.q + p;
    assert_eq!(sample_e3d(0u64, &charges, 7u64, &digits), 7123);
    assert_eq!(sample_e3d(1u64, &charges, 0u64, &digits), 234);
}

#[test]
fn sources_without_strength_give_zero_everywhere() {
    let charges = vec![
        source(Vec3::new(0.1, 0.2, 0.3), 0.0),
        source(Vec3::new(-1.0, 0.0, 2.0), 0.0),
        source(Vec3::ZERO, 0.0),
    ];
    let points = [
        Vec3::ZERO,
        Vec3::new(0.1, 0.2, 0.3),
        Vec3::new(5.0, -3.0, 0.25),
        Vec3::new(-1e3, 1e3, 1e-3),
    ];
    for p in points {
        let e = sample_e3d(p, &charges, Vec3::ZERO, &electric(1.0, 1e-4));
        assert_eq!(e, Vec3::ZERO);
    }
}

#[test]
fn field_stays_bounded_near_a_source() {
    let soft2: f32 = 1e-4;
    let k: f32 = 1.0;
    let q: f32 = 3.0;
    let at = Vec3::new(0.25, -0.5, 1.0);
    let charges = vec![source(at, q)];
    let bound = 0.3850 * k * q / soft2;
    let mut dist: f32 = 1.0;
    while dist > 1e-9 {
        let p = at + Vec3::new(dist, 0.0, 0.0);
        let e = sample_e3d(p, &charges, Vec3::ZERO, &electric(k, soft2));
        assert!(e.is_finite());
        assert!(e.length() <= bound);
        dist *= 0.5;
    }
    let on_top = sample_e3d(at, &charges, Vec3::ZERO, &electric(k, soft2));
    assert_eq!(on_top, Vec3::ZERO);
}

#[test]
fn field_of_two_sets_is_the_sum_of_their_fields() {
    let a = vec![source(Vec3::new(0.0, 0.0, 0.4), 1.0), source(Vec3::new(1.0, 0.0, 0.0), -2.0)];
    let b = vec![source(Vec3::new(0.0, 0.0, -0.4), -1.0), source(Vec3::new(0.0, 2.0, 0.0), 0.5)];
    let mut both = a.clone();
    both.extend_from_slice(&b);
    let kernel = electric(1.0, 1e-4);
    let p = Vec3::new(0.3, -0.2, 0.1);
    let ea = sample_e3d(p, &a, Vec3::ZERO, &kernel);
    let eb = sample_e3d(p, &b, Vec3::ZERO, &kernel);
    let e = sample_e3d(p, &both, Vec3::ZERO, &kernel);
    assert!((e - (ea + eb)).length() <= 1e-4 * e.length().max(1.0));
    let carried_on = sample_e3d(p, &b, ea, &kernel);
    assert_eq!(e, carried_on);
}

#[test]
fn magnetic_term_skips_sources_at_rest() {
    let p = Vec3::new(0.0, 1.0, 0.0);
    let mover = moving(Vec3::ZERO, 1.0, Vec3::new(2.0, 0.0, 0.0));
    let charges = vec![
        source(Vec3::new(0.5, 0.5, 0.5), 9.0),
        mover,
        moving(Vec3::new(3.0, 0.0, 0.0), -4.0, Vec3::new(1e-6, 0.0, 0.0)),
    ];
    let b = sample_b3d(p, &charges, Vec3::ZERO, &is_moving, &magnetic(1.0, 0.0, 0.5));
    assert_eq!(b, Vec3::new(0.0, 0.0, 1.0));
    let alone = sample_b3d(p, &vec![mover], Vec3::ZERO, &is_moving, &magnetic(1.0, 0.0, 0.5));
    assert_eq!(b, alone);
}

#[test]
fn magnetic_term_of_sources_at_rest_is_zero() {
    let charges = vec![source(Vec3::X, 1.0), source(Vec3::Y, -1.0)];
    let b = sample_b3d(Vec3::ZERO, &charges, Vec3::ZERO, &is_moving, &magnetic(1.0, 1e-4, 1.0));
    assert_eq!(b, Vec3::ZERO);
}
