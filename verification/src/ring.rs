//! The bounded ring of raw sensor samples, kept on the video clock.

use crate::clock::LiveClockSync;
use std::collections::VecDeque;
use vstd::prelude::*;

verus! {

/// One reading of the inertial sensor. Rates and accelerations are carried as
/// binary64 bit patterns.
#[derive(Clone, Copy, Debug)]
pub struct LiveImuSample {
    /// Timestamp in microseconds: on the sensor clock when the sample
    /// arrives, on the video clock once it sits in the ring.
    pub ts_sensor_us: i64,
    /// Angular rate, rad/s.
    pub gyro: [u64; 3],
    /// Acceleration, if the sensor reports it.
    pub accel: Option<[u64; 3]>,
}

/// An entry stamped `ts` is older than the horizon `keep` allows at `now`.
pub open spec fn expired(ts: int, now: int, keep: int) -> bool {
    now - ts > keep
}

/// What is left of `s` after dropping entries from the front for as long as
/// the front entry is expired.
pub open spec fn evict(s: Seq<LiveImuSample>, now: int, keep: int) -> Seq<LiveImuSample>
    decreases s.len(),
{
    if s.len() > 0 && expired(s[0].ts_sensor_us as int, now, keep) {
        evict(s.drop_first(), now, keep)
    } else {
        s
    }
}

/// The timestamps of `s` never decrease from one entry to the next.
pub open spec fn time_ordered(s: Seq<LiveImuSample>) -> bool {
    forall|i: int, j: int|
        0 <= i <= j < s.len() ==> (#[trigger] s[i]).ts_sensor_us <= (#[trigger] s[j]).ts_sensor_us
}

/// No entry of `s` is expired.
pub open spec fn all_fresh(s: Seq<LiveImuSample>, now: int, keep: int) -> bool {
    forall|i: int| 0 <= i < s.len() ==> !expired((#[trigger] s[i]).ts_sensor_us as int, now, keep)
}

/// The test of `window`: the timestamp lies in `[start, end]`.
pub open spec fn in_range(start: i64, end: i64) -> spec_fn(LiveImuSample) -> bool {
    |s: LiveImuSample| start <= s.ts_sensor_us <= end
}

/// The sample as the ring stores it: the timestamp moved to the video clock,
/// everything else as it came.
pub open spec fn on_video_clock(s: LiveImuSample, sync: LiveClockSync) -> LiveImuSample {
    LiveImuSample {
        ts_sensor_us: sync.video_us(s.ts_sensor_us as int) as i64,
        gyro: s.gyro,
        accel: s.accel,
    }
}

/// Sensor samples in arrival order, with a retention horizon in microseconds.
#[derive(Debug)]
pub struct ImuRing {
    pub buf: VecDeque<LiveImuSample>,
    /// Retention horizon, e.g. 3_000_000.
    pub keep_us: i64,
}

impl View for ImuRing {
    type V = Seq<LiveImuSample>;

    /// The entries, oldest arrival first.
    open spec fn view(&self) -> Seq<LiveImuSample> {
        self.buf@
    }
}

impl ImuRing {
    /// An empty ring that keeps samples for `keep_us` microseconds.
    pub fn new(keep_us: i64) -> (r: ImuRing)
        ensures
            r@ == Seq::<LiveImuSample>::empty(),
            r.keep_us == keep_us,
    {
        ImuRing { buf: VecDeque::new(), keep_us }
    }

    /// The number of entries.
    pub fn len(&self) -> (n: usize)
        ensures
            n == self@.len(),
    {
        self.buf.len()
    }

    /// Appends `s` with its timestamp converted to the video clock, then
    /// evicts from the front while the front entry is more than `keep_us`
    /// older than `now_video_us`. An entry exactly `keep_us` old stays.
    ///
    /// Whenever the ring is time-ordered afterwards, no entry left in it is
    /// older than the horizon.
    pub fn push(&mut self, s: LiveImuSample, now_video_us: i64, sync: &LiveClockSync)
        ensures
            final(self).keep_us == old(self).keep_us,
            final(self)@ == evict(
                old(self)@.push(on_video_clock(s, *sync)),
                now_video_us as int,
                old(self).keep_us as int,
            ),
            time_ordered(final(self)@) ==> all_fresh(
                final(self)@,
                now_video_us as int,
                old(self).keep_us as int,
            ),
    {
        let vts: i64 = sync.to_video_us(s.ts_sensor_us);
        let sample = LiveImuSample { ts_sensor_us: vts, gyro: s.gyro, accel: s.accel };
        self.buf.push_back(sample);
        let ghost full = self.buf@;
        let ghost (now, keep) = (now_video_us as int, self.keep_us as int);
        let mut evicting: bool = true;
        while evicting
            invariant
                self.keep_us == old(self).keep_us,
                (now, keep) == (now_video_us as int, self.keep_us as int),
                evict(self.buf@, now, keep) == evict(full, now, keep),
                !evicting ==> evict(self.buf@, now, keep) == self.buf@,
            decreases self.buf@.len(), evicting as int,
        {
            if self.buf.len() > 0 && now_video_us as i128 - self.buf[0].ts_sensor_us as i128
                > self.keep_us as i128 {
                let ghost before = self.buf@;
                let _ = self.buf.pop_front();
                proof {
                    assert(self.buf@ =~= before.drop_first());
                }
            } else {
                evicting = false;
            }
        }
        proof {
            lemma_evict_shape(full, now, keep);
            lemma_ordered_fresh(self.buf@, now, keep);
        }
    }

    /// The entries whose timestamp lies in `[start_us, end_us]`, in ring
    /// order. The ring is not changed.
    pub fn window(&self, start_us: i64, end_us: i64) -> (r: Vec<LiveImuSample>)
        ensures
            r@ == self@.filter(in_range(start_us, end_us)),
    {
        let ghost keep = in_range(start_us, end_us);
        let mut out: Vec<LiveImuSample> = Vec::new();
        let mut i: usize = 0;
        proof {
            reveal(Seq::filter);
            assert(self@.take(0).filter(keep) =~= Seq::<LiveImuSample>::empty());
        }
        while i < self.buf.len()
            invariant
                keep == in_range(start_us, end_us),
                i <= self.buf@.len(),
                out@ == self.buf@.take(i as int).filter(keep),
            decreases self.buf@.len() - i,
        {
            let s: LiveImuSample = self.buf[i];
            proof {
                assert(self.buf@.take(i + 1) =~= self.buf@.take(i as int).push(s));
                self.buf@.take(i as int).lemma_filter_push(s, keep);
            }
            if s.ts_sensor_us >= start_us && s.ts_sensor_us <= end_us {
                out.push(s);
            }
            i += 1;
        }
        proof {
            assert(self.buf@.take(self.buf@.len() as int) =~= self.buf@);
        }
        out
    }

    /// A copy of all entries in ring order, for use while the ring goes on
    /// changing.
    pub fn snapshot(&self) -> (r: Vec<LiveImuSample>)
        ensures
            r@ == self@,
    {
        let mut out: Vec<LiveImuSample> = Vec::new();
        let mut i: usize = 0;
        while i < self.buf.len()
            invariant
                i <= self.buf@.len(),
                out@ == self.buf@.take(i as int),
            decreases self.buf@.len() - i,
        {
            out.push(self.buf[i]);
            proof {
                assert(out@ =~= self.buf@.take(i + 1));
            }
            i += 1;
        }
        proof {
            assert(self.buf@.take(self.buf@.len() as int) =~= self.buf@);
        }
        out
    }
}

/// Eviction removes a run of expired entries from the front and nothing else:
/// what is left is a tail of the sequence, every dropped entry is expired, and
/// the entry now at the front, if any, is not.
pub proof fn lemma_evict_shape(s: Seq<LiveImuSample>, now: int, keep: int)
    ensures
        ({
            let e = evict(s, now, keep);
            let n = s.len() - e.len();
            &&& 0 <= n <= s.len()
            &&& e == s.skip(n)
            &&& forall|i: int| 0 <= i < n ==> expired((#[trigger] s[i]).ts_sensor_us as int, now, keep)
            &&& e.len() > 0 ==> !expired(e[0].ts_sensor_us as int, now, keep)
            &&& evict(e, now, keep) == e
        }),
    decreases s.len(),
{
    if s.len() > 0 && expired(s[0].ts_sensor_us as int, now, keep) {
        let rest = s.drop_first();
        lemma_evict_shape(rest, now, keep);
        let e = evict(s, now, keep);
        let n = s.len() - e.len();
        assert(e =~= s.skip(n)) by {
            assert(rest.skip(n - 1) =~= s.skip(n));
        }
        assert forall|i: int| 0 <= i < n implies expired(
            (#[trigger] s[i]).ts_sensor_us as int,
            now,
            keep,
        ) by {
            if i > 0 {
                assert(s[i] == rest[i - 1]);
            }
        }
    } else {
        assert(s.skip(0) =~= s);
    }
}

/// The eviction invariant: in a time-ordered ring whose front entry is within
/// the horizon, every entry is within the horizon.
pub proof fn lemma_ordered_fresh(s: Seq<LiveImuSample>, now: int, keep: int)
    requires
        evict(s, now, keep) == s,
    ensures
        time_ordered(s) ==> all_fresh(s, now, keep),
{
    if time_ordered(s) {
        assert forall|i: int| 0 <= i < s.len() implies !expired(
            (#[trigger] s[i]).ts_sensor_us as int,
            now,
            keep,
        ) by {
            assert(s[0].ts_sensor_us <= s[i].ts_sensor_us);
            if expired(s[0].ts_sensor_us as int, now, keep) {
                lemma_evict_shape(s.drop_first(), now, keep);
                assert(evict(s, now, keep).len() < s.len());
            }
        }
    }
}

/// Pushing in time order keeps the order: if the ring is time-ordered and the
/// new entry is not earlier than its last entry, the ring after the push and
/// the eviction is time-ordered, and so none of its entries is older than the
/// horizon.
pub proof fn lemma_push_keeps_order(s: Seq<LiveImuSample>, e: LiveImuSample, now: int, keep: int)
    requires
        time_ordered(s),
        s.len() > 0 ==> s.last().ts_sensor_us <= e.ts_sensor_us,
    ensures
        time_ordered(evict(s.push(e), now, keep)),
        all_fresh(evict(s.push(e), now, keep), now, keep),
{
    let full = s.push(e);
    assert(time_ordered(full)) by {
        assert forall|i: int, j: int| 0 <= i <= j < full.len() implies (
        #[trigger] full[i]).ts_sensor_us <= (#[trigger] full[j]).ts_sensor_us by {
            if j == s.len() && i < s.len() {
                assert(s[i].ts_sensor_us <= s[s.len() - 1].ts_sensor_us);
            }
        }
    }
    lemma_evict_shape(full, now, keep);
    let out = evict(full, now, keep);
    let n = full.len() - out.len();
    assert forall|i: int, j: int| 0 <= i <= j < out.len() implies (
    #[trigger] out[i]).ts_sensor_us <= (#[trigger] out[j]).ts_sensor_us by {
        assert(out[i] == full[i + n]);
        assert(out[j] == full[j + n]);
    }
    lemma_ordered_fresh(out, now, keep);
}

} // verus!
