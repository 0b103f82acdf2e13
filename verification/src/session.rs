//! The state of one live session: the sample ring, the clock mapping, and the
//! stores of the unsmoothed and of the smoothed orientations.

use crate::batch::{plan, samples_ordered, tables, version_after, DEFAULT_STEP_US, DEFAULT_WINDOW_US};
use crate::clock::{clamp_to_i64, LiveClockSync};
use crate::csv_quats::CsvQuatSample;
use crate::quat::Quat64;
use crate::ring::{evict, on_video_clock, ImuRing, LiveImuSample};
use crate::store::{next_version, query_ok, QuatBufferStore};
use crate::time_quat::TimeQuat;
use crate::window::{QuatBuffer, QuatLookup, Ratio};
use vstd::prelude::*;

verus! {

/// Microseconds in a second.
pub const US_PER_SECOND: i64 = 1_000_000;

/// What one store looks like after an integration tick offered it `table`:
/// when the session is enabled and the table is not empty, a well-formed
/// window with the entries of the table has been published; otherwise
/// nothing has changed.
pub open spec fn integrated(
    before: QuatBufferStore,
    after: QuatBufferStore,
    enabled: bool,
    table: TimeQuat,
    published: bool,
) -> bool {
    if enabled && table@ != Map::<i64, Quat64>::empty() {
        &&& published
        &&& after@.len() == before@.len() + 1
        &&& after@.subrange(0, before@.len() as int) == before@
        &&& after@.last().wf()
        &&& after@.last()@ == table@
        &&& after.version() == next_version(before.version())
    } else {
        &&& !published
        &&& after@ == before@
        &&& after.version() == before.version()
    }
}

/// Everything a live session owns.
#[derive(Debug)]
pub struct LiveState {
    /// The header that the sensor feed announced itself with.
    pub header: String,
    pub ring: ImuRing,
    pub sync: LiveClockSync,
    /// Windows of the orientations as integrated.
    pub quat_buffer_store_org: QuatBufferStore,
    /// Windows of the orientations after smoothing.
    pub quat_buffer_store_smoothed: QuatBufferStore,
    /// Whether samples may be fed in.
    pub enabled: bool,
}

impl LiveState {
    /// A disabled session with empty ring and stores, which keeps samples
    /// for `retention_seconds` and maps the clocks by `sync`.
    pub fn new(retention_seconds: u32, sync: LiveClockSync) -> (r: LiveState)
        ensures
            !r.enabled,
            r.sync == sync,
            r.header@ == Seq::<char>::empty(),
            r.ring@ == Seq::<LiveImuSample>::empty(),
            r.ring.keep_us == retention_seconds * US_PER_SECOND,
            r.quat_buffer_store_org@.len() == 0,
            r.quat_buffer_store_org.version() == 0,
            r.quat_buffer_store_smoothed@.len() == 0,
            r.quat_buffer_store_smoothed.version() == 0,
    {
        LiveState {
            header: String::new(),
            ring: ImuRing::new(retention_seconds as i64 * US_PER_SECOND),
            sync,
            quat_buffer_store_org: QuatBufferStore::new(),
            quat_buffer_store_smoothed: QuatBufferStore::new(),
            enabled: false,
        }
    }

    /// Sets the retention horizon of the ring to `retention_seconds` and
    /// allows samples in. What the session has gathered stays.
    pub fn enable(&mut self, retention_seconds: u32)
        ensures
            final(self).enabled,
            final(self).ring.keep_us == retention_seconds * US_PER_SECOND,
            final(self).ring@ == old(self).ring@,
            final(self).header == old(self).header,
            final(self).sync == old(self).sync,
            final(self).quat_buffer_store_org == old(self).quat_buffer_store_org,
            final(self).quat_buffer_store_smoothed == old(self).quat_buffer_store_smoothed,
    {
        self.ring.keep_us = retention_seconds as i64 * US_PER_SECOND;
        self.enabled = true;
    }

    /// Shuts samples out. What the session has gathered stays, and queries
    /// go on being answered from it.
    pub fn disable(&mut self)
        ensures
            !final(self).enabled,
            final(self).ring == old(self).ring,
            final(self).header == old(self).header,
            final(self).sync == old(self).sync,
            final(self).quat_buffer_store_org == old(self).quat_buffer_store_org,
            final(self).quat_buffer_store_smoothed == old(self).quat_buffer_store_smoothed,
    {
        self.enabled = false;
    }

    /// Whether samples may be fed in.
    pub fn is_enabled(&self) -> (b: bool)
        ensures
            b == self.enabled,
    {
        self.enabled
    }

    /// Feeds one sample to the ring, if the session is enabled: the sample is
    /// stamped on the video clock and pushed, and entries older than the
    /// horizon at `now_video_us` are evicted. Returns whether the sample was
    /// taken; a disabled session is left as it was.
    pub fn push_live_sample(&mut self, s: LiveImuSample, now_video_us: i64) -> (taken: bool)
        ensures
            taken == old(self).enabled,
            final(self).enabled == old(self).enabled,
            final(self).header == old(self).header,
            final(self).sync == old(self).sync,
            final(self).quat_buffer_store_org == old(self).quat_buffer_store_org,
            final(self).quat_buffer_store_smoothed == old(self).quat_buffer_store_smoothed,
            final(self).ring.keep_us == old(self).ring.keep_us,
            final(self).ring@ == if old(self).enabled {
                evict(
                    old(self).ring@.push(on_video_clock(s, old(self).sync)),
                    now_video_us as int,
                    old(self).ring.keep_us as int,
                )
            } else {
                old(self).ring@
            },
    {
        if !self.enabled {
            return false;
        }
        self.ring.push(s, now_video_us, &self.sync);
        true
    }

    /// The samples now in the ring, for the integration that turns them into
    /// orientations. A disabled session hands out nothing.
    pub fn integration_input(&self) -> (r: Vec<LiveImuSample>)
        ensures
            r@ == if self.enabled {
                self.ring@
            } else {
                Seq::<LiveImuSample>::empty()
            },
    {
        if self.enabled {
            self.ring.snapshot()
        } else {
            Vec::new()
        }
    }

    /// The publishing half of an integration tick. `org` holds the
    /// orientations integrated from the ring and `smoothed` their smoothed
    /// variant. While the session is enabled, each table that is not empty is
    /// published as a window in its store. Returns which of the two were
    /// published.
    pub fn integrate_live_data(&mut self, org: &TimeQuat, smoothed: &TimeQuat) -> (r: (bool, bool))
        ensures
            final(self).enabled == old(self).enabled,
            final(self).header == old(self).header,
            final(self).sync == old(self).sync,
            final(self).ring == old(self).ring,
            integrated(
                old(self).quat_buffer_store_org,
                final(self).quat_buffer_store_org,
                old(self).enabled,
                *org,
                r.0,
            ),
            integrated(
                old(self).quat_buffer_store_smoothed,
                final(self).quat_buffer_store_smoothed,
                old(self).enabled,
                *smoothed,
                r.1,
            ),
    {
        if !self.enabled {
            return (false, false);
        }
        let did_org: bool = publish_table(&mut self.quat_buffer_store_org, org);
        let did_smoothed: bool = publish_table(&mut self.quat_buffer_store_smoothed, smoothed);
        (did_org, did_smoothed)
    }

    /// The orientation at `t_ms` milliseconds of the video clock, from the
    /// store of the smoothed orientations if `smoothed`, else from that of
    /// the unsmoothed ones. The store selects, prunes and looks the time up;
    /// see `QuatBufferStore::get_quat_at_time`. Answers do not depend on the
    /// session being enabled.
    pub fn get_orientation_at(
        &mut self,
        smoothed: bool,
        t_ms: i64,
        pre_ms: i64,
        post_ms: i64,
        center_ratio: Ratio,
    ) -> (r: Option<QuatLookup>)
        ensures
            final(self).enabled == old(self).enabled,
            final(self).header == old(self).header,
            final(self).sync == old(self).sync,
            final(self).ring == old(self).ring,
            smoothed ==> final(self).quat_buffer_store_org == old(self).quat_buffer_store_org,
            !smoothed ==> final(self).quat_buffer_store_smoothed == old(
                self,
            ).quat_buffer_store_smoothed,
            query_ok(
                if smoothed {
                    old(self).quat_buffer_store_smoothed@
                } else {
                    old(self).quat_buffer_store_org@
                },
                if smoothed {
                    final(self).quat_buffer_store_smoothed@
                } else {
                    final(self).quat_buffer_store_org@
                },
                r,
                clamp_to_i64(t_ms * 1000),
                clamp_to_i64(pre_ms * 1000),
                clamp_to_i64(post_ms * 1000),
                center_ratio,
                clamp_to_i64(t_ms * 1000),
            ),
    {
        if smoothed {
            self.quat_buffer_store_smoothed.get_quat_at_time(t_ms, pre_ms, post_ms, center_ratio)
        } else {
            self.quat_buffer_store_org.get_quat_at_time(t_ms, pre_ms, post_ms, center_ratio)
        }
    }

    /// Loads a recorded, time-ordered log: builds windows of 3 s that advance
    /// by 1 s across it and publishes them into the store of the smoothed
    /// orientations if `smoothed`, else into that of the unsmoothed ones.
    /// Returns the number of windows published. Loading does not depend on
    /// the session being enabled.
    pub fn load_quat_windows(&mut self, samples: &[CsvQuatSample], smoothed: bool) -> (count: usize)
        requires
            samples_ordered(samples@),
        ensures
            final(self).enabled == old(self).enabled,
            final(self).header == old(self).header,
            final(self).sync == old(self).sync,
            final(self).ring == old(self).ring,
            smoothed ==> final(self).quat_buffer_store_org == old(self).quat_buffer_store_org,
            !smoothed ==> final(self).quat_buffer_store_smoothed == old(
                self,
            ).quat_buffer_store_smoothed,
            ({
                let before = if smoothed {
                    old(self).quat_buffer_store_smoothed
                } else {
                    old(self).quat_buffer_store_org
                };
                let after = if smoothed {
                    final(self).quat_buffer_store_smoothed
                } else {
                    final(self).quat_buffer_store_org
                };
                let goal = plan(samples@, DEFAULT_WINDOW_US as int, DEFAULT_STEP_US as int);
                &&& count == goal.len()
                &&& after@.len() == before@.len() + count
                &&& after@.subrange(0, before@.len() as int) == before@
                &&& tables(after@.subrange(before@.len() as int, after@.len() as int)) == goal
                &&& forall|i: int| before@.len() <= i < after@.len() ==> (#[trigger] after@[i]).wf()
                &&& after.version() == version_after(before.version(), count as nat)
            }),
    {
        if smoothed {
            self.quat_buffer_store_smoothed.publish_sliding(
                samples,
                DEFAULT_WINDOW_US,
                DEFAULT_STEP_US,
            )
        } else {
            self.quat_buffer_store_org.publish_sliding(samples, DEFAULT_WINDOW_US, DEFAULT_STEP_US)
        }
    }
}

impl Default for LiveState {
    /// A disabled session that keeps nothing and maps every sensor time to
    /// zero.
    fn default() -> (r: LiveState)
        ensures
            !r.enabled,
            r.sync == (LiveClockSync { a_ppb: 0, b_us: 0 }),
            r.header@ == Seq::<char>::empty(),
            r.ring@ == Seq::<LiveImuSample>::empty(),
            r.ring.keep_us == 0,
            r.quat_buffer_store_org@.len() == 0,
            r.quat_buffer_store_org.version() == 0,
            r.quat_buffer_store_smoothed@.len() == 0,
            r.quat_buffer_store_smoothed.version() == 0,
    {
        LiveState::new(0, LiveClockSync { a_ppb: 0, b_us: 0 })
    }
}

/// Publishes a window with the entries of `table`, unless the table is empty.
fn publish_table(store: &mut QuatBufferStore, table: &TimeQuat) -> (published: bool)
    ensures
        integrated(*old(store), *final(store), true, *table, published),
{
    match QuatBuffer::from_btreemap(table) {
        Some(buf) => {
            let ghost before = store@;
            let _ = store.publish(buf);
            proof {
                assert(store@.subrange(0, before.len() as int) =~= before);
            }
            true
        },
        None => false,
    }
}

} // verus!
