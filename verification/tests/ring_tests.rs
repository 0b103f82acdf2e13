use live_gyro::clock::{ms_to_us, LiveClockSync, PPB};
use live_gyro::ring::{ImuRing, LiveImuSample};

fn sample(ts: i64) -> LiveImuSample {
    LiveImuSample {
        ts_sensor_us: ts,
        gyro: [0.1f64.to_bits(), 0.2f64.to_bits(), 0.3f64.to_bits()],
        accel: Some([0.0f64.to_bits(), 9.81f64.to_bits(), 0.0f64.to_bits()]),
    }
}

fn times(ring: &ImuRing) -> Vec<i64> {
    ring.snapshot().iter().map(|s| s.ts_sensor_us).collect()
}

#[test]
fn clock_maps_affinely_and_rounds_half_away() {
    assert_eq!(LiveClockSync::identity().to_video_us(123_456), 123_456);
    assert_eq!(LiveClockSync::identity().to_video_us(i64::MIN), i64::MIN);
    assert_eq!(LiveClockSync::new(PPB, -20).to_video_us(100), 80);
    let half = LiveClockSync::new(PPB / 2, 0);
    assert_eq!(half.to_video_us(3), 2);
    assert_eq!(half.to_video_us(-3), -2);
    assert_eq!(half.to_video_us(1), 1);
    assert_eq!(half.to_video_us(-1), -1);
    assert_eq!(half.to_video_us(4), 2);
    // 1.00005 * 1_000_000 + 7 = 1_000_057
    assert_eq!(LiveClockSync::new(1_000_050_000, 7).to_video_us(1_000_000), 1_000_057);
    // the offset is added before rounding: 0.5 * -1 + 2 = 1.5 rounds to 2
    assert_eq!(LiveClockSync::new(PPB / 2, 2).to_video_us(-1), 2);
    assert_eq!(LiveClockSync::new(PPB / 2, -2).to_video_us(1), -2);
    assert_eq!(LiveClockSync::new(PPB / 2, 2).to_video_us(1), 3);
    assert_eq!(LiveClockSync::new(PPB / 2, -2).to_video_us(-1), -3);
    let third = LiveClockSync::new(333_333_333, 0);
    assert_eq!(third.to_video_us(3), 1);
    assert_eq!(third.to_video_us(4), 1);
    assert_eq!(third.to_video_us(5), 2);
}

#[test]
fn clock_clamps_to_the_integer_range() {
    let double = LiveClockSync::new(2 * PPB, 0);
    assert_eq!(double.to_video_us(i64::MAX), i64::MAX);
    assert_eq!(double.to_video_us(i64::MIN), i64::MIN);
    assert_eq!(LiveClockSync::new(PPB, i64::MAX).to_video_us(1), i64::MAX);
    assert_eq!(LiveClockSync::new(PPB, i64::MIN).to_video_us(-1), i64::MIN);
    assert_eq!(LiveClockSync::new(i64::MAX, i64::MAX).to_video_us(i64::MAX), i64::MAX);
    assert_eq!(LiveClockSync::new(i64::MIN, 0).to_video_us(i64::MIN), i64::MAX);
    assert_eq!(LiveClockSync::new(i64::MIN, 0).to_video_us(i64::MAX), i64::MIN);
}

#[test]
fn default_clock_maps_everything_to_zero() {
    let c = LiveClockSync::default();
    assert_eq!((c.a_ppb, c.b_us), (0, 0));
    assert_eq!(c.to_video_us(987_654), 0);
}

#[test]
fn milliseconds_to_microseconds() {
    assert_eq!(ms_to_us(5), 5_000);
    assert_eq!(ms_to_us(-7), -7_000);
    assert_eq!(ms_to_us(i64::MAX), i64::MAX);
    assert_eq!(ms_to_us(i64::MIN), i64::MIN);
    assert_eq!(ms_to_us(i64::MAX / 1000), i64::MAX / 1000 * 1000);
}

#[test]
fn push_converts_to_video_clock() {
    let mut ring = ImuRing::new(1_000_000);
    let sync = LiveClockSync::new(PPB, 500);
    ring.push(sample(1_000), 1_500, &sync);
    let got = ring.snapshot();
    assert_eq!(got.len(), 1);
    assert_eq!(got[0].ts_sensor_us, 1_500);
    assert_eq!(got[0].gyro, sample(0).gyro);
    assert_eq!(got[0].accel, sample(0).accel);
}

#[test]
fn eviction_keeps_entries_within_the_horizon() {
    let mut ring = ImuRing::new(3_000_000);
    let sync = LiveClockSync::identity();
    for i in 0..1_000i64 {
        let t = i * 10_000;
        ring.push(sample(t), t, &sync);
        assert!(ring.snapshot().iter().all(|s| t - s.ts_sensor_us <= 3_000_000));
    }
    let got = times(&ring);
    assert_eq!(got.first().copied(), Some(9_990_000 - 3_000_000));
    assert_eq!(got.last().copied(), Some(9_990_000));
    assert_eq!(ring.len(), 301);
    assert_eq!(ring.keep_us, 3_000_000);
}

#[test]
fn offset_before_rounding_keeps_the_horizon() {
    // a ring holding one entry stamped 2, horizon 0
    let mut ring = ImuRing::new(0);
    ring.push(sample(2), 2, &LiveClockSync::identity());
    assert_eq!(times(&ring), vec![2]);
    // 0.5 * -1 + 2 = 1.5 is stamped 2, in order behind the entry and within the horizon
    ring.push(sample(-1), 2, &LiveClockSync::new(PPB / 2, 2));
    assert_eq!(times(&ring), vec![2, 2]);
    assert!(ring.snapshot().iter().all(|s| 2 - s.ts_sensor_us <= 0));
}

#[test]
fn eviction_boundary_is_inclusive() {
    let mut ring = ImuRing::new(100);
    let sync = LiveClockSync::identity();
    ring.push(sample(0), 0, &sync);
    ring.push(sample(50), 100, &sync);
    // the entry at 0 is exactly 100 old: it stays
    assert_eq!(times(&ring), vec![0, 50]);
    ring.push(sample(60), 101, &sync);
    assert_eq!(times(&ring), vec![50, 60]);
}

#[test]
fn a_stale_sample_evicts_itself() {
    let mut ring = ImuRing::new(100);
    let sync = LiveClockSync::identity();
    ring.push(sample(0), 0, &sync);
    ring.push(sample(10), 1_000, &sync);
    assert_eq!(ring.len(), 0);
}

#[test]
fn out_of_order_samples_are_kept_as_given() {
    let mut ring = ImuRing::new(50);
    let sync = LiveClockSync::identity();
    ring.push(sample(100), 100, &sync);
    ring.push(sample(0), 100, &sync);
    // the front entry is fresh, so the old entry behind it is not reached
    assert_eq!(times(&ring), vec![100, 0]);
}

#[test]
fn eviction_does_not_overflow_at_extreme_times() {
    let mut ring = ImuRing::new(i64::MAX);
    let sync = LiveClockSync::identity();
    ring.push(sample(i64::MIN), i64::MAX, &sync);
    assert_eq!(ring.len(), 0);
    ring.push(sample(i64::MAX), i64::MIN, &sync);
    assert_eq!(times(&ring), vec![i64::MAX]);
}

#[test]
fn window_filters_inclusively_without_changing_the_ring() {
    let mut ring = ImuRing::new(1_000_000);
    let sync = LiveClockSync::identity();
    for t in [10, 20, 30, 25, 40] {
        ring.push(sample(t), 40, &sync);
    }
    let got: Vec<i64> = ring.window(20, 30).iter().map(|s| s.ts_sensor_us).collect();
    assert_eq!(got, vec![20, 30, 25]);
    assert!(ring.window(31, 39).is_empty());
    assert!(ring.window(30, 20).is_empty());
    assert_eq!(times(&ring), vec![10, 20, 30, 25, 40]);
    // a second pass gives the same
    let again: Vec<i64> = ring.window(20, 30).iter().map(|s| s.ts_sensor_us).collect();
    assert_eq!(again, vec![20, 30, 25]);
}
