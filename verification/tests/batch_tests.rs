use live_gyro::batch::{is_time_ordered, DEFAULT_STEP_US, DEFAULT_WINDOW_US};
use live_gyro::clock::LiveClockSync;
use live_gyro::csv_quats::CsvQuatSample;
use live_gyro::ring::LiveImuSample;
use live_gyro::session::LiveState;
use live_gyro::store::QuatBufferStore;
use live_gyro::time_quat::TimeQuat;
use live_gyro::quat::Quat64;
use live_gyro::window::{QuatLookup, Ratio};

fn sample(t_us: i64) -> CsvQuatSample {
    let a = t_us as f64 * 1e-7;
    CsvQuatSample {
        t_us,
        qw: a.cos().to_bits(),
        qx: 0f64.to_bits(),
        qy: a.sin().to_bits(),
        qz: 0f64.to_bits(),
    }
}

fn log(n: i64, period_us: i64) -> Vec<CsvQuatSample> {
    (0..n).map(|i| sample(i * period_us)).collect()
}

/// First timestamp, last timestamp and size of the windows of a store, oldest first.
fn window_ranges(store: &QuatBufferStore) -> Vec<(i64, i64, usize)> {
    (0..store.len())
        .map(|i| store.window_at(i).unwrap())
        .map(|w| (w.first_us(), w.last_us(), w.len()))
        .collect()
}

#[test]
fn defaults_are_three_seconds_by_one() {
    assert_eq!(DEFAULT_WINDOW_US, 3_000_000);
    assert_eq!(DEFAULT_STEP_US, 1_000_000);
}

#[test]
fn ten_seconds_at_100_hz_give_eight_windows() {
    let samples = log(1_000, 10_000);
    assert!(is_time_ordered(&samples));
    let mut state = LiveState::new(3, LiveClockSync::identity());
    let count = state.load_quat_windows(&samples, false);
    assert_eq!(count, 8);
    assert_eq!(state.quat_buffer_store_org.len(), 8);
    assert_eq!(state.quat_buffer_store_org.version(), 8);
    assert_eq!(state.quat_buffer_store_smoothed.len(), 0);
    let ranges = window_ranges(&state.quat_buffer_store_org);
    for (k, (first, last, len)) in ranges.iter().enumerate() {
        let start = k as i64 * 1_000_000;
        assert_eq!(*first, start);
        assert_eq!(*last, (start + 3_000_000).min(9_990_000));
        assert!(*len == 300 || *len == 301);
    }
    assert_eq!(ranges[0].2, 301);
    assert_eq!(ranges[7].2, 300);
}

#[test]
fn ten_seconds_with_both_ends_give_eight_windows() {
    let samples = log(1_001, 10_000);
    let mut store = QuatBufferStore::new();
    let count = store.publish_sliding(&samples, DEFAULT_WINDOW_US, DEFAULT_STEP_US);
    assert_eq!(count, 8);
    let ranges = window_ranges(&store);
    assert_eq!(ranges.len(), 8);
    assert!(ranges.iter().all(|r| r.2 == 301));
    assert_eq!(ranges[7], (7_000_000, 10_000_000, 301));
}

#[test]
fn loaded_windows_answer_queries_near_their_middle() {
    let samples = log(1_000, 10_000);
    let mut state = LiveState::new(3, LiveClockSync::identity());
    state.load_quat_windows(&samples, true);
    assert_eq!(state.quat_buffer_store_smoothed.len(), 8);
    let third = Ratio { num: 1, den: 3 };
    // 4.5 s lies in the middle third of the window that starts at 3 s
    let (w, _) =
        state.quat_buffer_store_smoothed.select_centered_and_prune(4_500, 1_000, 1_000, third, false).unwrap();
    assert_eq!(w.first_us(), 3_000_000);
    match state.get_orientation_at(true, 4_505, 1_000, 1_000, third) {
        Some(QuatLookup::Between(b)) => {
            assert_eq!((b.t0_us, b.t1_us, b.at_us), (4_500_000, 4_510_000, 4_505_000));
            assert_eq!(Quat64::from_bits(sample(4_500_000).qw, sample(4_500_000).qx, sample(4_500_000).qy, sample(4_500_000).qz), b.q0);
        }
        other => panic!("unexpected {:?}", other),
    }
    assert!(state.get_orientation_at(false, 4_505, 1_000, 1_000, third).is_none());
}

#[test]
fn short_and_empty_logs() {
    let mut store = QuatBufferStore::new();
    assert_eq!(store.publish_sliding(&[], DEFAULT_WINDOW_US, DEFAULT_STEP_US), 0);
    // 1.5 s of data: the first window would already reach past the end by more than a step
    assert_eq!(store.publish_sliding(&log(150, 10_000), DEFAULT_WINDOW_US, DEFAULT_STEP_US), 0);
    // 2.5 s of data: one window
    assert_eq!(store.publish_sliding(&log(250, 10_000), DEFAULT_WINDOW_US, DEFAULT_STEP_US), 1);
    assert_eq!(store.len(), 1);
    assert_eq!(store.version(), 1);
    let w = store.get_latest().unwrap();
    assert_eq!((w.first_us(), w.last_us(), w.len()), (0, 2_490_000, 250));
}

#[test]
fn windows_without_finite_samples_are_skipped() {
    let mut samples = log(1_000, 10_000);
    // everything from 4 s up to 8 s is not a number
    for s in samples.iter_mut().filter(|s| (4_000_000..8_000_000).contains(&s.t_us)) {
        s.qx = f64::NAN.to_bits();
    }
    // windows of half a second every second
    let mut store = QuatBufferStore::new();
    let count = store.publish_sliding(&samples, 500_000, 1_000_000);
    let ranges = window_ranges(&store);
    let starts: Vec<i64> = ranges.iter().map(|r| r.0).collect();
    assert_eq!(starts, vec![0, 1_000_000, 2_000_000, 3_000_000, 8_000_000, 9_000_000]);
    assert_eq!(count, 6);
    assert!(ranges.iter().all(|r| r.2 == 51));
}

#[test]
fn sparse_log_serves_overlapping_windows() {
    // one sample only every 2.5 s
    let samples = log(5, 2_500_000);
    let mut store = QuatBufferStore::new();
    let count = store.publish_sliding(&samples, DEFAULT_WINDOW_US, DEFAULT_STEP_US);
    let ranges = window_ranges(&store);
    assert_eq!(count, ranges.len());
    assert_eq!(
        ranges,
        vec![
            (0, 2_500_000, 2),
            (2_500_000, 2_500_000, 1),
            (2_500_000, 5_000_000, 2),
            (5_000_000, 5_000_000, 1),
            (5_000_000, 5_000_000, 1),
            (5_000_000, 7_500_000, 2),
            (7_500_000, 7_500_000, 1),
            (7_500_000, 10_000_000, 2),
        ]
    );
}

#[test]
fn time_order_test() {
    assert!(is_time_ordered(&[]));
    assert!(is_time_ordered(&[sample(5)]));
    assert!(is_time_ordered(&[sample(5), sample(5), sample(6)]));
    assert!(!is_time_ordered(&[sample(5), sample(4), sample(6)]));
    assert!(!is_time_ordered(&[sample(1), sample(2), sample(0)]));
}

#[test]
fn session_lifecycle() {
    let mut state = LiveState::new(3, LiveClockSync::new(1_000_000_000, 100));
    assert!(!state.is_enabled());
    assert_eq!(state.ring.keep_us, 3_000_000);
    assert_eq!(state.header, "");
    let s = LiveImuSample { ts_sensor_us: 50, gyro: [0; 3], accel: None };
    assert!(!state.push_live_sample(s, 150));
    assert_eq!(state.ring.len(), 0);
    assert!(state.integration_input().is_empty());

    state.enable(5);
    assert!(state.is_enabled());
    assert_eq!(state.ring.keep_us, 5_000_000);
    assert!(state.push_live_sample(s, 150));
    let input = state.integration_input();
    assert_eq!(input.len(), 1);
    assert_eq!(input[0].ts_sensor_us, 150);

    state.disable();
    assert!(!state.is_enabled());
    assert_eq!(state.ring.len(), 1);
    assert!(!state.push_live_sample(s, 150));
    assert_eq!(state.ring.len(), 1);

    state.enable(u32::MAX);
    assert_eq!(state.ring.keep_us, u32::MAX as i64 * 1_000_000);
    assert_eq!(state.ring.len(), 1);
}

#[test]
fn default_session() {
    let state = LiveState::default();
    assert_eq!(state.quat_buffer_store_org.version(), 0);
    assert_eq!(state.quat_buffer_store_smoothed.version(), 0);
    assert!(!state.is_enabled());
    assert_eq!(state.ring.keep_us, 0);
    assert_eq!((state.sync.a_ppb, state.sync.b_us), (0, 0));
    assert!(state.quat_buffer_store_org.is_empty());
    assert!(state.quat_buffer_store_smoothed.is_empty());
}

#[test]
fn integration_tick_publishes_when_enabled() {
    let mut org = TimeQuat::new();
    org.insert(0, Quat64::from_bits(1f64.to_bits(), 0, 0, 0));
    org.insert(1_000_000, Quat64::from_bits(1f64.to_bits(), 0, 0, 0));
    let empty = TimeQuat::new();

    let mut state = LiveState::new(3, LiveClockSync::identity());
    assert_eq!(state.integrate_live_data(&org, &org), (false, false));
    assert!(state.quat_buffer_store_org.is_empty());

    state.enable(3);
    assert_eq!(state.integrate_live_data(&org, &empty), (true, false));
    assert_eq!(state.quat_buffer_store_org.len(), 1);
    assert_eq!(state.quat_buffer_store_org.version(), 1);
    assert!(state.quat_buffer_store_smoothed.is_empty());
    assert_eq!(state.integrate_live_data(&org, &org), (true, true));
    assert_eq!(state.quat_buffer_store_org.len(), 2);
    assert_eq!(state.quat_buffer_store_smoothed.len(), 1);

    // queries are answered while disabled
    state.disable();
    assert!(state.get_orientation_at(false, 500, 100, 100, Ratio { num: 1, den: 2 }).is_some());
    assert_eq!(state.quat_buffer_store_org.len(), 1);
}
