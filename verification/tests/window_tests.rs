use live_gyro::csv_quats::CsvQuatSample;
use live_gyro::quat::Quat64;
use live_gyro::time_quat::TimeQuat;
use live_gyro::window::{QuatBuffer, QuatLookup, Ratio};

fn quat(w: f64, x: f64, y: f64, z: f64) -> Quat64 {
    Quat64::from_bits(w.to_bits(), x.to_bits(), y.to_bits(), z.to_bits())
}

fn unit_z(angle: f64) -> Quat64 {
    quat((angle / 2.0).cos(), 0.0, 0.0, (angle / 2.0).sin())
}

fn sample(t_us: i64, q: Quat64) -> CsvQuatSample {
    CsvQuatSample { t_us, qw: q.w, qx: q.x, qy: q.y, qz: q.z }
}

fn span_window(first: i64, last: i64) -> QuatBuffer {
    let mut map = TimeQuat::new();
    map.insert(first, unit_z(0.0));
    map.insert(last, unit_z(0.1));
    QuatBuffer::from_btreemap(&map).unwrap()
}

fn norm(q: &Quat64) -> f64 {
    let (w, x, y, z) =
        (f64::from_bits(q.w), f64::from_bits(q.x), f64::from_bits(q.y), f64::from_bits(q.z));
    (w * w + x * x + y * y + z * z).sqrt()
}

fn slerp(q0: &Quat64, q1: &Quat64, a: f64) -> [f64; 4] {
    let p = [f64::from_bits(q0.w), f64::from_bits(q0.x), f64::from_bits(q0.y), f64::from_bits(q0.z)];
    let q = [f64::from_bits(q1.w), f64::from_bits(q1.x), f64::from_bits(q1.y), f64::from_bits(q1.z)];
    let dot: f64 = (0..4).map(|i| p[i] * q[i]).sum();
    let theta = dot.clamp(-1.0, 1.0).acos();
    let s = theta.sin();
    let (k0, k1) = (((1.0 - a) * theta).sin() / s, (a * theta).sin() / s);
    [k0 * p[0] + k1 * q[0], k0 * p[1] + k1 * q[1], k0 * p[2] + k1 * q[2], k0 * p[3] + k1 * q[3]]
}

#[test]
fn empty_map_gives_no_window() {
    let map = TimeQuat::new();
    assert!(map.is_empty());
    assert!(QuatBuffer::from_btreemap(&map).is_none());
    assert!(QuatBuffer::from_table(TimeQuat::new()).is_none());
}

#[test]
fn from_btreemap_records_ends() {
    let mut map = TimeQuat::new();
    map.insert(2_000, unit_z(0.2));
    map.insert(-500, unit_z(0.1));
    map.insert(7_000, unit_z(0.3));
    let w = QuatBuffer::from_btreemap(&map).unwrap();
    assert_eq!(w.first_us(), -500);
    assert_eq!(w.last_us(), 7_000);
    assert_eq!(w.len(), 3);
    assert_eq!(w.times(), vec![-500, 2_000, 7_000]);
}

#[test]
fn time_quat_insert_replaces_and_orders() {
    let mut map = TimeQuat::new();
    assert_eq!(map.insert(10, unit_z(0.1)), None);
    assert_eq!(map.insert(5, unit_z(0.2)), None);
    assert_eq!(map.insert(10, unit_z(0.3)), Some(unit_z(0.1)));
    assert_eq!(map.len(), 2);
    assert_eq!(map.get(10), Some(unit_z(0.3)));
    assert_eq!(map.get(5), Some(unit_z(0.2)));
    assert_eq!(map.get(7), None);
    assert_eq!(map.time_at(0), 5);
    assert_eq!(map.time_at(1), 10);
    assert_eq!(map.quat_at(1), unit_z(0.3));
    assert_eq!(map.lower_bound(4), 0);
    assert_eq!(map.lower_bound(5), 0);
    assert_eq!(map.lower_bound(6), 1);
    assert_eq!(map.lower_bound(11), 2);
    let copy = map.clone();
    assert_eq!(copy.len(), 2);
    assert_eq!(copy.get(10), Some(unit_z(0.3)));
}

#[test]
fn mid_and_span() {
    let w = span_window(1_000_000, 4_000_000);
    assert_eq!(w.mid_us(), 2_500_000);
    assert_eq!(w.span_us(), 3_000_000);
    assert_eq!(w.duration_us(), 3_000_000);
    let odd = span_window(0, 5);
    assert_eq!(odd.mid_us(), 2);
    let negative = span_window(-5, 0);
    assert_eq!(negative.mid_us(), -2);
    let single = {
        let mut map = TimeQuat::new();
        map.insert(42, unit_z(0.0));
        QuatBuffer::from_btreemap(&map).unwrap()
    };
    assert_eq!(single.span_us(), 0);
    assert_eq!(single.mid_us(), 42);
}

#[test]
fn mid_and_span_at_the_ends_of_the_range() {
    let w = span_window(i64::MIN, i64::MAX);
    assert_eq!(w.mid_us(), 0);
    assert_eq!(w.span_us(), i64::MAX);
    let high = span_window(i64::MAX - 2, i64::MAX);
    assert_eq!(high.mid_us(), i64::MAX - 1);
    assert_eq!(high.span_us(), 2);
}

#[test]
fn covers_with_padding_is_inclusive() {
    let w = span_window(1_000, 5_000);
    assert!(w.covers_with_padding(3_000, 2_000, 2_000));
    assert!(!w.covers_with_padding(3_000, 2_001, 2_000));
    assert!(!w.covers_with_padding(3_000, 2_000, 2_001));
    assert!(w.covers_with_padding(1_000, 0, 0));
    assert!(w.covers_with_padding(5_000, 0, 0));
    assert!(!w.covers_with_padding(999, 0, 0));
    assert!(!w.covers_with_padding(i64::MAX, 0, i64::MAX));
    assert!(!w.covers_with_padding(i64::MIN, i64::MAX, 0));
}

#[test]
fn centered_at_mid_for_any_ratio() {
    let w = span_window(0, 2_000_000);
    for (num, den) in [(0u32, 1u32), (1, 4), (1, 1), (7, 3), (u32::MAX, 1), (0, 0)] {
        assert!(w.is_centered_for(w.mid_us(), Ratio { num, den }));
    }
}

#[test]
fn centered_boundary_at_tolerance() {
    // span 2 s, ratio 1/4: the tolerance is 250 ms around the midpoint.
    let w = span_window(0, 2_000_000);
    let r = Ratio { num: 1, den: 4 };
    let tol = 250_000;
    assert!(w.is_centered_for(w.mid_us() + tol, r));
    assert!(!w.is_centered_for(w.mid_us() + tol + 1, r));
    assert!(w.is_centered_for(w.mid_us() - tol, r));
    assert!(!w.is_centered_for(w.mid_us() - tol - 1, r));
}

#[test]
fn just_before_first_is_not_centered() {
    let w = span_window(0, 2_000_000);
    assert!(!w.is_centered_for(w.first_us() - 1, Ratio { num: 1, den: 1 }));
    assert!(!w.is_centered_for(w.first_us() - 1, Ratio { num: 1, den: 4 }));
    // with a ratio above one the tolerance reaches past the ends
    assert!(w.is_centered_for(w.first_us() - 1, Ratio { num: 2, den: 1 }));
}

#[test]
fn fractional_tolerance_is_exact() {
    // span 3, ratio 1/3: tolerance is half a microsecond
    let w = span_window(0, 3);
    let r = Ratio { num: 1, den: 3 };
    assert_eq!(w.mid_us(), 1);
    assert!(w.is_centered_for(1, r));
    assert!(!w.is_centered_for(2, r));
    assert!(!w.is_centered_for(0, r));
}

#[test]
fn zero_span_centers_nothing() {
    let mut map = TimeQuat::new();
    map.insert(10, unit_z(0.0));
    let w = QuatBuffer::from_btreemap(&map).unwrap();
    assert!(!w.is_centered_for(10, Ratio { num: 1, den: 1 }));
    assert!(!w.is_centered_for(10, Ratio { num: 1, den: 0 }));
}

#[test]
fn unbounded_ratio_centers_everything_in_a_span() {
    let w = span_window(0, 10);
    assert!(w.is_centered_for(i64::MAX, Ratio { num: 1, den: 0 }));
    assert!(w.is_centered_for(i64::MIN, Ratio { num: 0, den: 0 }));
    assert!(!w.is_centered_for(i64::MAX, Ratio { num: u32::MAX, den: 1 }));
}

#[test]
fn from_samples_filters_range_and_finiteness() {
    let samples = vec![
        sample(0, unit_z(0.0)),
        sample(10, unit_z(0.1)),
        sample(20, quat(f64::NAN, 0.0, 0.0, 0.0)),
        sample(30, quat(1.0, f64::INFINITY, 0.0, 0.0)),
        sample(40, unit_z(0.4)),
        sample(50, unit_z(0.5)),
    ];
    let w = QuatBuffer::from_samples(&samples, 10, 40).unwrap();
    assert_eq!(w.times(), vec![10, 40]);
    assert_eq!(w.first_us(), 10);
    assert_eq!(w.last_us(), 40);
    assert!(QuatBuffer::from_samples(&samples, 20, 30).is_none());
    assert!(QuatBuffer::from_samples(&samples, 51, 100).is_none());
    assert!(QuatBuffer::from_samples(&[], 0, 100).is_none());
}

#[test]
fn from_samples_later_duplicate_wins() {
    let samples = vec![sample(5, unit_z(0.1)), sample(5, unit_z(0.2)), sample(1, unit_z(0.3))];
    let w = QuatBuffer::from_samples(&samples, 0, 10).unwrap();
    assert_eq!(w.times(), vec![1, 5]);
    match w.value_at(5) {
        Some(QuatLookup::Exact(q)) => assert_eq!(q, unit_z(0.2)),
        other => panic!("unexpected {:?}", other),
    }
}

#[test]
fn window_keys_increase_and_values_have_unit_norm() {
    let samples: Vec<CsvQuatSample> =
        (0..200).rev().map(|i| sample(i * 7 % 113, unit_z(i as f64 * 0.01))).collect();
    let w = QuatBuffer::from_samples(&samples, 0, 1_000).unwrap();
    let times = w.times();
    assert!(times.windows(2).all(|p| p[0] < p[1]));
    assert_eq!(times.first().copied(), Some(w.first_us()));
    assert_eq!(times.last().copied(), Some(w.last_us()));
    for t in times {
        match w.value_at(t) {
            Some(QuatLookup::Exact(q)) => assert!((norm(&q) - 1.0).abs() < 1e-9),
            other => panic!("unexpected {:?}", other),
        }
    }
}

#[test]
fn value_at_interpolation_round_trip() {
    let (t0, t1) = (1_000_000i64, 1_010_000i64);
    let (q0, q1) = (unit_z(0.2), unit_z(0.6));
    let w = QuatBuffer::from_samples(&[sample(t0, q0), sample(t1, q1)], t0, t1).unwrap();
    match w.value_at(t0) {
        Some(QuatLookup::Exact(q)) => assert_eq!(q, q0),
        other => panic!("unexpected {:?}", other),
    }
    match w.value_at(t1) {
        Some(QuatLookup::Exact(q)) => assert_eq!(q, q1),
        other => panic!("unexpected {:?}", other),
    }
    match w.value_at((t0 + t1) / 2) {
        Some(QuatLookup::Between(b)) => {
            assert_eq!((b.t0_us, b.t1_us, b.at_us), (t0, t1, (t0 + t1) / 2));
            assert_eq!((b.q0, b.q1), (q0, q1));
            assert_eq!(b.elapsed_us(), 5_000);
            assert_eq!(b.dt_us(), 10_000);
            let a = b.elapsed_us() as f64 / b.dt_us() as f64;
            let got = slerp(&b.q0, &b.q1, a);
            let want = [(0.2f64).cos(), 0.0, 0.0, (0.2f64).sin()];
            for i in 0..4 {
                assert!((got[i] - want[i]).abs() < 1e-12);
            }
        }
        other => panic!("unexpected {:?}", other),
    }
}

#[test]
fn value_at_clamps_to_the_ends() {
    let w = QuatBuffer::from_samples(
        &[sample(100, unit_z(0.1)), sample(200, unit_z(0.2)), sample(400, unit_z(0.4))],
        0,
        1_000,
    )
    .unwrap();
    match w.value_at(-5) {
        Some(QuatLookup::Exact(q)) => assert_eq!(q, unit_z(0.1)),
        other => panic!("unexpected {:?}", other),
    }
    match w.value_at(i64::MAX) {
        Some(QuatLookup::Exact(q)) => assert_eq!(q, unit_z(0.4)),
        other => panic!("unexpected {:?}", other),
    }
    match w.value_at(250) {
        Some(QuatLookup::Between(b)) => {
            assert_eq!((b.t0_us, b.t1_us), (200, 400));
            assert_eq!((b.elapsed_us(), b.dt_us()), (50, 200));
        }
        other => panic!("unexpected {:?}", other),
    }
}

#[test]
fn quat_at_ms_takes_milliseconds() {
    let w = QuatBuffer::from_samples(
        &[sample(1_000, unit_z(0.1)), sample(3_000, unit_z(0.3))],
        0,
        10_000,
    )
    .unwrap();
    match w.quat_at_ms(3) {
        Some(QuatLookup::Exact(q)) => assert_eq!(q, unit_z(0.3)),
        other => panic!("unexpected {:?}", other),
    }
    match w.quat_at_ms(2) {
        Some(QuatLookup::Between(b)) => assert_eq!((b.elapsed_us(), b.dt_us()), (1_000, 2_000)),
        other => panic!("unexpected {:?}", other),
    }
    match w.quat_at_ms(i64::MAX) {
        Some(QuatLookup::Exact(q)) => assert_eq!(q, unit_z(0.3)),
        other => panic!("unexpected {:?}", other),
    }
}

#[test]
fn finiteness_of_bit_patterns() {
    assert!(live_gyro::quat::is_finite_bits(0.0f64.to_bits()));
    assert!(live_gyro::quat::is_finite_bits((-1.5e300f64).to_bits()));
    assert!(live_gyro::quat::is_finite_bits(f64::MAX.to_bits()));
    assert!(live_gyro::quat::is_finite_bits(f64::MIN_POSITIVE.to_bits()));
    assert!(!live_gyro::quat::is_finite_bits(f64::INFINITY.to_bits()));
    assert!(!live_gyro::quat::is_finite_bits(f64::NEG_INFINITY.to_bits()));
    assert!(!live_gyro::quat::is_finite_bits(f64::NAN.to_bits()));
    assert!(quat(1.0, 0.0, 0.0, 0.0).is_finite());
    assert!(!quat(1.0, 0.0, f64::NAN, 0.0).is_finite());
    assert!(!quat(1.0, 0.0, 0.0, f64::NEG_INFINITY).is_finite());
}
