use live_gyro::quat::Quat64;
use live_gyro::store::QuatBufferStore;
use live_gyro::time_quat::TimeQuat;
use live_gyro::window::{QuatBuffer, QuatLookup, Ratio};
use std::sync::Arc;

fn q(angle: f64) -> Quat64 {
    Quat64::from_bits((angle / 2.0).cos().to_bits(), 0, 0, (angle / 2.0).sin().to_bits())
}

fn window(first_us: i64, last_us: i64) -> QuatBuffer {
    let mut map = TimeQuat::new();
    map.insert(first_us, q(0.0));
    map.insert(last_us, q(1.0));
    QuatBuffer::from_btreemap(&map).unwrap()
}

const QUARTER: Ratio = Ratio { num: 1, den: 4 };

/// A: oldest, covers and centers 5 s. B: newer, covers and centers 5 s.
/// C: newest, covers 5 s with the padding but has it far from its middle.
fn three_windows() -> (QuatBufferStore, Arc<QuatBuffer>, Arc<QuatBuffer>, Arc<QuatBuffer>) {
    let mut store = QuatBufferStore::new();
    let (a, va) = store.publish(window(3_000_000, 7_000_000));
    let (b, vb) = store.publish(window(3_200_000, 6_800_000));
    let (c, vc) = store.publish(window(4_400_000, 9_000_000));
    assert_eq!((va, vb, vc), (1, 2, 3));
    (store, a, b, c)
}

#[test]
fn fresh_store_is_empty() {
    let mut store = QuatBufferStore::new();
    assert!(store.is_empty());
    assert_eq!(store.len(), 0);
    assert_eq!(store.version(), 0);
    assert!(store.get_latest().is_none());
    assert!(store.select_centered_and_prune(0, 0, 0, QUARTER, true).is_none());
    assert!(store.select_centered_and_prune(0, 0, 0, QUARTER, false).is_none());
    assert!(store.select_us(0, 0, 0, QUARTER, true).is_none());
    assert!(store.get_quat_at_time(0, 0, 0, QUARTER).is_none());
    assert!(store.get_window_for_time(0, 0, 0, QUARTER).is_none());
    assert!(store.find_candidate(0, 0, 0, QUARTER, true).is_none());
    assert!(store.take_and_prune(0, 0, 0, 0, QUARTER).is_none());
    let d = QuatBufferStore::default();
    assert!(d.is_empty());
    assert_eq!(d.version(), 0);
}

#[test]
fn publish_appends_and_counts() {
    let mut store = QuatBufferStore::new();
    let (a, v1) = store.publish(window(0, 10));
    assert_eq!(v1, 1);
    assert_eq!(store.version(), 1);
    assert_eq!(store.len(), 1);
    assert!(Arc::ptr_eq(&a, &store.get_latest().unwrap()));
    let (b, v2) = store.publish(window(5, 20));
    assert_eq!(v2, 2);
    assert_eq!(store.len(), 2);
    assert!(Arc::ptr_eq(&b, &store.get_latest().unwrap()));
    assert_eq!(store.get_latest().unwrap().first_us(), 5);
}

#[test]
fn select_newest_centered_wins() {
    let (mut store, a, b, c) = three_windows();
    let (w, ver) = store.select_centered_and_prune(5_000, 500, 500, QUARTER, true).unwrap();
    assert!(Arc::ptr_eq(&w, &b));
    assert!(!Arc::ptr_eq(&w, &a));
    assert!(!Arc::ptr_eq(&w, &c));
    assert_eq!(ver, 3);
    assert_eq!(store.version(), 3);
}

#[test]
fn prune_removes_older_centered_and_keeps_covering() {
    let (mut store, a, b, c) = three_windows();
    let _ = store.select_centered_and_prune(5_000, 500, 500, QUARTER, true).unwrap();
    assert_eq!(store.len(), 2);
    // the store now holds B, then C
    assert!(Arc::ptr_eq(&store.window_at(0).unwrap(), &b));
    assert!(Arc::ptr_eq(&store.window_at(1).unwrap(), &c));
    assert!(store.window_at(2).is_none());
    assert_eq!(store.find_candidate(5_000_000, 500_000, 500_000, QUARTER, true), Some(0));
    assert!(Arc::ptr_eq(&store.get_latest().unwrap(), &c));
    let (again, ver) = store.select_centered_and_prune(5_000, 500, 500, QUARTER, true).unwrap();
    assert!(Arc::ptr_eq(&again, &b));
    assert_eq!(ver, 3);
    assert_eq!(store.len(), 2);
    // A is gone from the store, yet the caller's reference to it is intact
    assert_eq!(a.first_us(), 3_000_000);
    assert_eq!(Arc::strong_count(&a), 1);
    assert_eq!(Arc::strong_count(&c), 2);
}

#[test]
fn fallback_takes_newest_covering_and_prunes_nothing() {
    let mut store = QuatBufferStore::new();
    // none has 5 s near its middle
    let (_x, _) = store.publish(window(4_000_000, 12_000_000));
    let (y, _) = store.publish(window(4_400_000, 9_000_000));
    let (_z, _) = store.publish(window(8_000_000, 9_500_000));
    assert!(store.select_us(5_000_000, 500_000, 500_000, QUARTER, false).is_none());
    assert_eq!(store.len(), 3);
    let (w, _) = store.select_us(5_000_000, 500_000, 500_000, QUARTER, true).unwrap();
    assert!(Arc::ptr_eq(&w, &y));
    assert_eq!(store.len(), 3);
}

#[test]
fn no_covering_window_gives_nothing() {
    let (mut store, _a, _b, _c) = three_windows();
    assert!(store.select_centered_and_prune(20_000, 500, 500, QUARTER, true).is_none());
    assert!(store.select_centered_and_prune(1_000, 500, 500, QUARTER, true).is_none());
    assert!(store.select_centered_and_prune(5_000, 3_000, 500, QUARTER, true).is_none());
    assert_eq!(store.len(), 3);
}

#[test]
fn prune_retests_the_slot_after_a_removal() {
    let mut store = QuatBufferStore::new();
    // three centered windows in a row, then one that only covers, then the chosen one
    store.publish(window(3_000_000, 7_000_000));
    store.publish(window(3_100_000, 6_900_000));
    store.publish(window(3_200_000, 6_800_000));
    let (cover, _) = store.publish(window(4_400_000, 9_000_000));
    let (chosen, _) = store.publish(window(3_300_000, 6_700_000));
    let (after, _) = store.publish(window(7_000_000, 9_000_000));
    let (w, _) = store.select_us(5_000_000, 500_000, 500_000, QUARTER, false).unwrap();
    assert!(Arc::ptr_eq(&w, &chosen));
    assert_eq!(store.len(), 3);
    assert!(Arc::ptr_eq(&store.get_latest().unwrap(), &after));
    assert_eq!(store.find_candidate(5_000_000, 500_000, 500_000, QUARTER, false), Some(1));
    assert!(Arc::ptr_eq(&store.window_at(0).unwrap(), &cover));
    assert!(Arc::ptr_eq(&store.window_at(1).unwrap(), &chosen));
    assert!(Arc::ptr_eq(&store.window_at(2).unwrap(), &after));
}

#[test]
fn take_and_prune_with_stale_index() {
    let (mut store, _a, _b, _c) = three_windows();
    assert!(store.take_and_prune(3, 5_000_000, 500_000, 500_000, QUARTER).is_none());
    assert!(store.take_and_prune(usize::MAX, 5_000_000, 500_000, 500_000, QUARTER).is_none());
    assert_eq!(store.len(), 3);
}

#[test]
fn take_and_prune_leaves_chosen_and_newer() {
    let (mut store, a, b, c) = three_windows();
    // choose C by hand: A and B both cover and center the target and go
    let (w, ver) = store.take_and_prune(2, 5_000_000, 500_000, 500_000, QUARTER).unwrap();
    assert!(Arc::ptr_eq(&w, &c));
    assert_eq!(ver, 3);
    assert_eq!(store.len(), 1);
    assert_eq!(Arc::strong_count(&a), 1);
    assert_eq!(Arc::strong_count(&b), 1);
}

#[test]
fn read_only_query_does_not_prune() {
    let (store, _a, b, _c) = three_windows();
    let w = store.get_window_for_time(5_000, 500, 500, QUARTER).unwrap();
    assert!(Arc::ptr_eq(&w, &b));
    let w = store.get_window_for_time_us(5_000_000, 500_000, 500_000, QUARTER).unwrap();
    assert!(Arc::ptr_eq(&w, &b));
    assert_eq!(store.len(), 3);
    assert!(store.get_window_for_time(50_000, 500, 500, QUARTER).is_none());
}

#[test]
fn get_quat_at_time_selects_then_looks_up() {
    let (mut store, _a, _b, _c) = three_windows();
    match store.get_quat_at_time(5_000, 500, 500, QUARTER) {
        Some(QuatLookup::Between(b)) => {
            assert_eq!((b.t0_us, b.t1_us, b.at_us), (3_200_000, 6_800_000, 5_000_000));
            assert_eq!((b.elapsed_us(), b.dt_us()), (1_800_000, 3_600_000));
        }
        other => panic!("unexpected {:?}", other),
    }
    assert_eq!(store.len(), 2);
    // at 3.2 s only the older of the two remaining windows covers the target
    match store.get_quat_at_time_us(3_200_000, 0, 0, Ratio { num: 1, den: 1 }) {
        Some(QuatLookup::Exact(v)) => assert_eq!(v, q(0.0)),
        other => panic!("unexpected {:?}", other),
    }
    // at 6.8 s both center the target under a ratio of one: the newer one answers
    match store.get_quat_at_time_us(6_800_000, 0, 0, Ratio { num: 1, den: 1 }) {
        Some(QuatLookup::Between(b)) => assert_eq!((b.t0_us, b.t1_us), (4_400_000, 9_000_000)),
        other => panic!("unexpected {:?}", other),
    }
    assert_eq!(store.len(), 1);
    assert!(store.get_quat_at_time(100_000, 0, 0, QUARTER).is_none());
}

#[test]
fn selection_is_idempotent() {
    let (mut store, _a, b, _c) = three_windows();
    for _ in 0..4 {
        let (w, ver) = store.select_us(5_000_000, 500_000, 500_000, QUARTER, true).unwrap();
        assert!(Arc::ptr_eq(&w, &b));
        assert_eq!(ver, 3);
        assert_eq!(store.len(), 2);
    }
}
