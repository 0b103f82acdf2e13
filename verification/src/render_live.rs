//! Settings of the live renderer and its cache of maps that arrive out of
//! order.

use vstd::prelude::*;

verus! {

/// Settings of the live renderer.
#[derive(Clone, Copy, Debug)]
pub struct LiveRenderConfig {
    /// How long to wait for the map of a frame, in milliseconds.
    pub wait_for_map_timeout_ms: u64,
    pub trim_before_idx: bool,
    pub present_fps: u32,
}

impl Default for LiveRenderConfig {
    /// Waits 8 ms for a map, trims the cache, presents 30 frames a second.
    fn default() -> (r: LiveRenderConfig)
        ensures
            r == (LiveRenderConfig {
                wait_for_map_timeout_ms: 8,
                trim_before_idx: true,
                present_fps: 30,
            }),
    {
        LiveRenderConfig { wait_for_map_timeout_ms: 8, trim_before_idx: true, present_fps: 30 }
    }
}

/// A pair of maps for one frame: the distorting and the undistorting one.
pub type MapPair = (Vec<u8>, Vec<u8>);

/// Maps by frame index, for the frames from `start_idx` on.
#[derive(Debug)]
pub struct MapCache {
    start_idx: usize,
    buf: Vec<Option<MapPair>>,
}

impl MapCache {
    /// The first frame index that the cache can hold.
    pub closed spec fn start(self) -> int {
        self.start_idx as int
    }

    /// The slots of the cache, for the frame indices from `start()` on.
    pub closed spec fn slots(self) -> Seq<Option<MapPair>> {
        self.buf@
    }

    /// The number of slots after the maps of the frame `idx` were stored in a
    /// cache of `len` slots that starts at `start`: the cache grows just far
    /// enough to hold the frame.
    pub open spec fn grown_len(len: int, start: int, idx: int) -> int {
        if idx - start + 1 > len {
            idx - start + 1
        } else {
            len
        }
    }

    /// The number of slots that trimming to `keep_from` drops from the front
    /// of a cache of `len` slots that starts at `start`.
    pub open spec fn dropped_len(len: int, start: int, keep_from: int) -> int {
        if keep_from - start < len {
            keep_from - start
        } else {
            len
        }
    }

    /// What the cache holds for the frame `idx`.
    pub open spec fn get(self, idx: int) -> Option<MapPair> {
        if self.start() <= idx < self.start() + self.slots().len() {
            self.slots()[idx - self.start()]
        } else {
            None
        }
    }

    /// An empty cache that starts at frame 0.
    pub fn new() -> (r: MapCache)
        ensures
            r.start() == 0,
            r.slots() == Seq::<Option<MapPair>>::empty(),
    {
        MapCache { start_idx: 0, buf: Vec::new() }
    }

    /// Stores the maps of the frame `idx`, in place of any it held for that
    /// frame. The cache grows by empty slots as far as the frame needs and no
    /// further. A frame before the start of the cache is dropped.
    pub fn insert(&mut self, idx: usize, dist: Vec<u8>, undist: Vec<u8>)
        requires
            idx - old(self).start() < usize::MAX,
        ensures
            final(self).start() == old(self).start(),
            idx < old(self).start() ==> final(self).slots() == old(self).slots(),
            idx >= old(self).start() ==> final(self).slots().len() == Self::grown_len(
                old(self).slots().len() as int,
                old(self).start(),
                idx as int,
            ),
            idx >= old(self).start() ==> final(self).get(idx as int) == Some((dist, undist)),
            forall|j: int| j != idx ==> final(self).get(j) == old(self).get(j),
    {
        if idx < self.start_idx {
            return ;
        }
        let pos: usize = idx - self.start_idx;
        while self.buf.len() <= pos
            invariant
                self.start_idx == old(self).start_idx,
                pos < usize::MAX,
                old(self).buf@.len() <= self.buf@.len(),
                self.buf@.len() == old(self).buf@.len() || self.buf@.len() <= pos + 1,
                self.buf@.subrange(0, old(self).buf@.len() as int) == old(self).buf@,
                forall|k: int| old(self).buf@.len() <= k < self.buf@.len() ==> self.buf@[k] is None,
            decreases pos + 1 - self.buf@.len(),
        {
            let ghost before = self.buf@;
            self.buf.push(None);
            proof {
                assert(self.buf@.subrange(0, old(self).buf@.len() as int) =~= before.subrange(
                    0,
                    old(self).buf@.len() as int,
                ));
            }
        }
        self.buf.set(pos, Some((dist, undist)));
        proof {
            assert forall|j: int| j != idx implies final(self).get(j) == old(self).get(j) by {
                let k = j - self.start_idx;
                if 0 <= k < old(self).buf@.len() {
                    assert(old(self).buf@[k] == self.buf@.subrange(
                        0,
                        old(self).buf@.len() as int,
                    )[k]);
                }
            }
        }
    }

    /// Takes the maps of the frame `idx` out of the cache, if it holds them.
    pub fn take(&mut self, idx: usize) -> (r: Option<MapPair>)
        ensures
            r == old(self).get(idx as int),
            final(self).start() == old(self).start(),
            final(self).slots().len() == old(self).slots().len(),
            final(self).get(idx as int) is None,
            forall|j: int| j != idx ==> final(self).get(j) == old(self).get(j),
    {
        if idx < self.start_idx {
            return None;
        }
        let pos: usize = idx - self.start_idx;
        if pos >= self.buf.len() {
            return None;
        }
        let mut slot: Option<MapPair> = None;
        core::mem::swap(&mut self.buf[pos], &mut slot);
        slot
    }

    /// Forgets the frames before `keep_from` and lets the cache start there:
    /// the slots of those frames are dropped from the front, the others stay.
    /// Nothing happens if the cache starts at or after `keep_from` already,
    /// or if it has no slot at all.
    pub fn trim_before(&mut self, keep_from: usize)
        ensures
            (keep_from <= old(self).start() || old(self).slots().len() == 0) ==> final(self).start()
                == old(self).start() && final(self).slots() == old(self).slots(),
            keep_from > old(self).start() && old(self).slots().len() > 0 ==> {
                &&& final(self).start() == keep_from
                &&& final(self).slots() == old(self).slots().skip(
                    Self::dropped_len(
                        old(self).slots().len() as int,
                        old(self).start(),
                        keep_from as int,
                    ),
                )
                &&& forall|j: int|
                    final(self).get(j) == if j >= keep_from {
                        old(self).get(j)
                    } else {
                        None
                    }
            },
    {
        if keep_from <= self.start_idx {
            return ;
        }
        let gap: usize = keep_from - self.start_idx;
        let to_drop: usize = if gap < self.buf.len() {
            gap
        } else {
            self.buf.len()
        };
        if to_drop > 0 {
            let mut kept: Vec<Option<MapPair>> = Vec::new();
            let n: usize = self.buf.len();
            let mut i: usize = to_drop;
            while i < n
                invariant
                    to_drop <= i <= n,
                    n == self.buf@.len(),
                    n == old(self).buf@.len(),
                    self.start_idx == old(self).start_idx,
                    kept@ == old(self).buf@.subrange(to_drop as int, i as int),
                    forall|k: int| i <= k < n ==> self.buf@[k] == old(self).buf@[k],
                decreases n - i,
            {
                let mut slot: Option<MapPair> = None;
                core::mem::swap(&mut self.buf[i], &mut slot);
                kept.push(slot);
                proof {
                    assert(kept@ =~= old(self).buf@.subrange(to_drop as int, i + 1));
                }
                i += 1;
            }
            self.buf = kept;
            self.start_idx = keep_from;
            proof {
                assert(self.buf@ =~= old(self).buf@.skip(to_drop as int));
                assert forall|j: int|
                    final(self).get(j) == if j >= keep_from {
                        old(self).get(j)
                    } else {
                        None
                    } by {
                    if j >= keep_from {
                        if to_drop == gap {
                            let k = j - keep_from;
                            if k < self.buf@.len() {
                                assert(self.buf@[k] == old(self).buf@[to_drop + k]);
                            }
                        }
                    }
                }
            }
        }
    }

    /// Handles a pair of maps that arrived for the frame `idx` while the
    /// renderer waits for the frame `wanted_idx`: the awaited pair is handed
    /// back at once and the cache stays as it is; any other pair is stored
    /// for later.
    pub fn offer(&mut self, wanted_idx: usize, idx: usize, dist: Vec<u8>, undist: Vec<u8>) -> (r:
        Option<MapPair>)
        requires
            idx - old(self).start() < usize::MAX,
        ensures
            final(self).start() == old(self).start(),
            idx == wanted_idx ==> r == Some((dist, undist)) && final(self).slots() == old(
                self,
            ).slots(),
            idx != wanted_idx ==> {
                &&& r is None
                &&& idx < old(self).start() ==> final(self).slots() == old(self).slots()
                &&& idx >= old(self).start() ==> final(self).slots().len() == Self::grown_len(
                    old(self).slots().len() as int,
                    old(self).start(),
                    idx as int,
                )
                &&& idx >= old(self).start() ==> final(self).get(idx as int) == Some(
                    (dist, undist),
                )
                &&& forall|j: int| j != idx ==> final(self).get(j) == old(self).get(j)
            },
    {
        if idx == wanted_idx {
            Some((dist, undist))
        } else {
            self.insert(idx, dist, undist);
            None
        }
    }
}

/// The maps to use for a frame when none arrived in time: there are none.
pub fn identity_map_fallback(_w: u32, _h: u32) -> (r: Option<MapPair>)
    ensures
        r is None,
{
    None
}

} // verus!
