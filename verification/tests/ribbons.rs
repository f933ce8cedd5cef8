use fieldlines::em3d::{sample_e3d, Charge3D};
use fieldlines::rk4::Reach;
use fieldlines::stream3d::{integrate_streamline_ribbon_signed, RibbonSample};
use glam::Vec3;

type Source = Charge3D<Vec3, f32>;

fn source(pos: Vec3, q: f32) -> Source {
    Charge3D { pos, q, vel: Vec3::ZERO }
}

fn electric(k: f32, soft2: f32) -> impl Fn(Vec3, Vec3, Source) -> Vec3 {
    move |total: Vec3, p: Vec3, c: Source| {
        let d = p - c.pos;
        let r2 = d.length_squared() + soft2;
        let r = r2.sqrt();
        total + (k * c.q / (r2 * r)) * d
    }
}

fn direction(charges: Vec<Source>, k: f32, soft2: f32) -> impl Fn(Vec3, bool) -> (Vec3, f32) {
    move |x: Vec3, forward: bool| {
        let e = sample_e3d(x, &charges, Vec3::ZERO, &electric(k, soft2));
        let m = e.length();
        let dir = if m > 1e-6 { e / m } else { Vec3::ZERO };
        (dir * if forward { 1.0 } else { -1.0 }, m)
    }
}

fn shift(h: f32) -> impl Fn(Vec3, Vec3, Reach) -> Vec3 {
    move |p: Vec3, d: Vec3, reach: Reach| match reach {
        Reach::Half => p + 0.5 * h * d,
        Reach::Full => p + h * d,
    }
}

fn combine(h: f32) -> impl Fn(Vec3, Vec3, Vec3, Vec3, Vec3) -> Vec3 {
    move |p: Vec3, k1: Vec3, k2: Vec3, k3: Vec3, k4: Vec3| {
        p + h * ((k1 + 2.0 * k2 + 2.0 * k3 + k4) / 6.0)
    }
}

fn is_finite(p: Vec3) -> bool {
    p.is_finite()
}

fn frame(p: Vec3, prev: Vec3, mag: f32) -> RibbonSample<f32> {
    let tan = (p - prev).normalize_or_zero();
    RibbonSample {
        pos: (p.x, p.y, p.z),
        tan: (tan.x, tan.y, tan.z),
        tone: (mag / (1.0 + mag)).powf(0.75),
    }
}

fn keep(p: Vec3, mag: f32) -> bool {
    !(!(1e-6..=1e4).contains(&mag) || p.length() > 250.0)
}

fn trace(seed: Vec3, charges: &Vec<Source>, soft2: f32, h: f32, max_pts: usize, forward: bool) -> Vec<f32> {
    integrate_streamline_ribbon_signed(
        seed,
        seed + Vec3::Z,
        max_pts,
        forward,
        (-1.0f32, 1.0f32),
        &direction(charges.clone(), 1.0, soft2),
        &shift(h),
        &combine(h),
        &is_finite,
        &frame,
        &keep,
    )
}

fn positions(out: &Vec<f32>) -> Vec<Vec3> {
    out.chunks(16).map(|v| Vec3::new(v[0], v[1], v[2])).collect()
}

#[test]
fn ribbon_without_steps_is_empty() {
    let charges = vec![source(Vec3::ZERO, 1.0)];
    assert!(trace(Vec3::new(0.2, 0.0, 0.0), &charges, 1e-4, 0.015, 0, true).is_empty());
}

#[test]
fn every_accepted_step_gives_a_left_and_a_right_vertex() {
    let charges = vec![source(Vec3::new(0.0, 0.0, 0.4), 1.0), source(Vec3::new(0.0, 0.0, -0.4), -1.0)];
    let out = trace(Vec3::new(0.05, 0.0, 0.35), &charges, 1e-4, 0.015, 40, true);
    assert_eq!(out.len() % 16, 0);
    assert!(out.len() > 0 && out.len() <= 16 * 40);
    for pair in out.chunks(16) {
        let (left, right) = pair.split_at(8);
        assert_eq!(&left[0..6], &right[0..6]);
        assert_eq!(left[6], -1.0);
        assert_eq!(right[6], 1.0);
        assert_eq!(left[7], right[7]);
        assert!(left[7] > 0.0 && left[7] < 1.0);
        let tan = Vec3::new(left[3], left[4], left[5]);
        assert!((tan.length() - 1.0).abs() <= 1e-5);
    }
    assert!(out.iter().all(|x| x.is_finite()));
}

#[test]
fn first_vertex_is_one_step_from_the_seed() {
    let charges = vec![source(Vec3::ZERO, 1.0)];
    let seed = Vec3::new(0.2, 0.0, 0.0);
    let out = trace(seed, &charges, 0.0, 0.015, 1, true);
    assert_eq!(out.len(), 16);
    let p = Vec3::new(out[0], out[1], out[2]);
    assert!((p - Vec3::new(0.215, 0.0, 0.0)).length() <= 1e-6);
    let tan = (p - (seed + Vec3::Z)).normalize_or_zero();
    assert_eq!((out[3], out[4], out[5]), (tan.x, tan.y, tan.z));
    let mag: f32 = 1.0 / (0.2f32 * 0.2 * (0.2f32 * 0.2).sqrt()) * 0.2;
    assert_eq!(out[7], (mag / (1.0 + mag)).powf(0.75));
}

#[test]
fn ribbon_from_a_positive_source_runs_away_from_it() {
    let charges = vec![source(Vec3::ZERO, 1.0)];
    let seed = Vec3::new(0.2, 0.0, 0.0);
    let out = trace(seed, &charges, 1e-4, 0.015, 200, true);
    let pts = positions(&out);
    assert!(pts.len() >= 2);
    assert!(pts[0].length() > seed.length());
    let mut last = seed.length();
    for p in &pts {
        assert!(p.length() > last);
        last = p.length();
    }
}

#[test]
fn ribbon_against_the_field_runs_into_the_source() {
    let charges = vec![source(Vec3::ZERO, 1.0)];
    let seed = Vec3::new(0.2, 0.0, 0.0);
    let out = trace(seed, &charges, 1e-4, 0.015, 5, false);
    let pts = positions(&out);
    assert_eq!(pts.len(), 5);
    assert!(pts[0].length() < seed.length());
    assert!(pts[4].length() < pts[0].length());
}

#[test]
fn ribbon_seeded_on_a_source_ends_at_once() {
    let at = Vec3::new(0.3, -0.2, 0.1);
    let charges = vec![source(at, 1.0)];
    for forward in [true, false] {
        let out = trace(at, &charges, 1e-4, 0.015, 400, forward);
        assert!(out.len() <= 16);
        assert!(out.iter().all(|x| x.is_finite()));
    }
}

#[test]
fn ribbon_stops_close_to_a_source_on_the_upper_bound() {
    let charges = vec![source(Vec3::ZERO, -1.0)];
    let out = trace(Vec3::new(0.1, 0.0, 0.0), &charges, 1e-9, 0.015, 400, true);
    let pts = positions(&out);
    assert!(pts.len() < 20);
    assert!(out.iter().all(|x| x.is_finite()));
    for p in &pts {
        assert!(p.length() <= 0.1 + 1e-6);
    }
}

#[test]
fn ribbon_stops_beyond_the_cutoff() {
    let charges = vec![source(Vec3::ZERO, 1.0e6)];
    let out = trace(Vec3::new(249.0, 0.0, 0.0), &charges, 1e-4, 0.5, 400, true);
    let pts = positions(&out);
    assert_eq!(pts.len(), 3);
    assert!(pts[1].length() <= 250.0);
    assert!(pts[2].length() > 250.0);
}

#[test]
fn ribbon_drops_a_step_that_is_not_finite() {
    let blow_up = |p: Vec3, _k1: Vec3, _k2: Vec3, _k3: Vec3, _k4: Vec3| {
        if p.x > 0.25 { Vec3::new(f32::NAN, 0.0, 0.0) } else { p + Vec3::new(0.1, 0.0, 0.0) }
    };
    let charges = vec![source(Vec3::ZERO, 1.0)];
    let out = integrate_streamline_ribbon_signed(
        Vec3::new(0.1, 0.0, 0.0),
        Vec3::new(0.1, 0.0, 1.0),
        50,
        true,
        (-1.0f32, 1.0f32),
        &direction(charges, 1.0, 1e-4),
        &shift(0.1),
        &blow_up,
        &is_finite,
        &frame,
        &keep,
    );
    let pts = positions(&out);
    assert_eq!(pts.len(), 2);
    assert!(out.iter().all(|x| x.is_finite()));
}

#[test]
fn ribbon_frames_each_point_against_the_one_two_steps_back() {
    let direction = |_p: i64, forward: bool| (if forward { 1i64 } else { -1i64 }, 7i64);
    let shift = |p: i64, _d: i64, _r: Reach| p;
    let combine = |p: i64, k1: i64, _k2: i64, _k3: i64, _k4: i64| p + 10 * k1;
    let fine = |_p: i64| true;
    let frame = |p: i64, prev: i64, m: i64| RibbonSample { pos: (p, 0, 0), tan: (prev, 0, 0), tone: m };
    let keep = |p: i64, _m: i64| p < 130;
    let out = integrate_streamline_ribbon_signed(
        100i64, 55i64, 10, true, (-1i64, 1i64), &direction, &shift, &combine, &fine, &frame, &keep,
    );
    assert_eq!(
        out,
        vec![
            110, 0, 0, 55, 0, 0, -1, 7, 110, 0, 0, 55, 0, 0, 1, 7,
            120, 0, 0, 100, 0, 0, -1, 7, 120, 0, 0, 100, 0, 0, 1, 7,
            130, 0, 0, 110, 0, 0, -1, 7, 130, 0, 0, 110, 0, 0, 1, 7,
        ]
    );
    let capped = integrate_streamline_ribbon_signed(
        100i64, 55i64, 2, false, (-1i64, 1i64), &direction, &shift, &combine, &fine, &frame, &keep,
    );
    assert_eq!(
        capped,
        vec![
            90, 0, 0, 55, 0, 0, -1, 7, 90, 0, 0, 55, 0, 0, 1, 7,
            80, 0, 0, 100, 0, 0, -1, 7, 80, 0, 0, 100, 0, 0, 1, 7,
        ]
    );
}
