//! The collection of published windows: publish at the back, select the best
//! window for a point in time, and retire older windows that a newer one has
//! made redundant.

use crate::clock::{clamp_to_i64, ms_to_us};
use crate::window::{QuatBuffer, QuatLookup, Ratio};
use std::collections::VecDeque;
use std::sync::Arc;
use vstd::prelude::*;

verus! {

/// The window covers the target with the padding and has it near its middle.
pub open spec fn hits(w: Arc<QuatBuffer>, t: int, pre: int, post: int, ratio: Ratio) -> bool {
    w.covers(t, pre, post) && w.centered(t, ratio)
}

/// The test that a window passes when pruning for a target keeps it: it does
/// not both cover and center the target.
pub open spec fn survives(t: int, pre: int, post: int, ratio: Ratio) -> spec_fn(
    Arc<QuatBuffer>,
) -> bool {
    |w: Arc<QuatBuffer>| !hits(w, t, pre, post, ratio)
}

/// `i` is the position of the newest window that covers and centers the
/// target.
pub open spec fn is_newest_hit(
    s: Seq<Arc<QuatBuffer>>,
    i: int,
    t: int,
    pre: int,
    post: int,
    ratio: Ratio,
) -> bool {
    &&& 0 <= i < s.len()
    &&& hits(s[i], t, pre, post, ratio)
    &&& forall|j: int| i < j < s.len() ==> !hits(#[trigger] s[j], t, pre, post, ratio)
}

/// `i` is the position of the newest window that covers the target.
pub open spec fn is_newest_cover(s: Seq<Arc<QuatBuffer>>, i: int, t: int, pre: int, post: int) -> bool {
    &&& 0 <= i < s.len()
    &&& s[i].covers(t, pre, post)
    &&& forall|j: int| i < j < s.len() ==> !(#[trigger] s[j]).covers(t, pre, post)
}

/// No window covers and centers the target.
pub open spec fn no_hit(s: Seq<Arc<QuatBuffer>>, t: int, pre: int, post: int, ratio: Ratio) -> bool {
    forall|j: int| 0 <= j < s.len() ==> !hits(#[trigger] s[j], t, pre, post, ratio)
}

/// No window covers the target.
pub open spec fn no_cover(s: Seq<Arc<QuatBuffer>>, t: int, pre: int, post: int) -> bool {
    forall|j: int| 0 <= j < s.len() ==> !(#[trigger] s[j]).covers(t, pre, post)
}

/// `c` is the choice for the target: the newest window that covers and
/// centers it; if there is none and `fallback_ok`, the newest window that
/// covers it; else nothing.
pub open spec fn is_choice(
    s: Seq<Arc<QuatBuffer>>,
    c: Option<int>,
    t: int,
    pre: int,
    post: int,
    ratio: Ratio,
    fallback_ok: bool,
) -> bool {
    match c {
        Some(i) => is_newest_hit(s, i, t, pre, post, ratio) || (fallback_ok && no_hit(
            s,
            t,
            pre,
            post,
            ratio,
        ) && is_newest_cover(s, i, t, pre, post)),
        None => no_hit(s, t, pre, post, ratio) && (fallback_ok ==> no_cover(s, t, pre, post)),
    }
}

/// The windows left after pruning for a target around the chosen position
/// `c`: of the windows before `c` those that do not both cover and center the
/// target, then the window at `c` and all after it, in their order.
pub open spec fn pruned(
    s: Seq<Arc<QuatBuffer>>,
    c: int,
    t: int,
    pre: int,
    post: int,
    ratio: Ratio,
) -> Seq<Arc<QuatBuffer>> {
    s.subrange(0, c).filter(survives(t, pre, post, ratio)) + s.subrange(c, s.len() as int)
}

/// What a selection for a target does to a store holding `before` at version
/// `version`: with a choice at position `c` it returns that window with the
/// version and leaves `pruned(before, c, ..)`; without one it returns nothing
/// and leaves the store as it was.
pub open spec fn select_ok(
    before: Seq<Arc<QuatBuffer>>,
    version: u64,
    after: Seq<Arc<QuatBuffer>>,
    r: Option<(Arc<QuatBuffer>, u64)>,
    t: int,
    pre: int,
    post: int,
    ratio: Ratio,
    fallback_ok: bool,
) -> bool {
    match r {
        Some((w, v)) => exists|c: int|
            {
                &&& #[trigger] is_choice(before, Some(c), t, pre, post, ratio, fallback_ok)
                &&& w == before[c]
                &&& v == version
                &&& after == pruned(before, c, t, pre, post, ratio)
            },
        None => is_choice(before, None, t, pre, post, ratio, fallback_ok) && after == before,
    }
}

/// What a read-only selection for a target returns from a store holding `s`:
/// the window at the choice, if there is one.
pub open spec fn peek_ok(
    s: Seq<Arc<QuatBuffer>>,
    r: Option<Arc<QuatBuffer>>,
    t: int,
    pre: int,
    post: int,
    ratio: Ratio,
    fallback_ok: bool,
) -> bool {
    match r {
        Some(w) => exists|c: int|
            #[trigger] is_choice(s, Some(c), t, pre, post, ratio, fallback_ok) && w == s[c],
        None => is_choice(s, None, t, pre, post, ratio, fallback_ok),
    }
}

/// What an orientation query for a target does to a store holding `before`:
/// it selects with the fallback allowed, prunes, and looks the time `at` up in
/// the chosen window.
pub open spec fn query_ok(
    before: Seq<Arc<QuatBuffer>>,
    after: Seq<Arc<QuatBuffer>>,
    r: Option<QuatLookup>,
    t: int,
    pre: int,
    post: int,
    ratio: Ratio,
    at: int,
) -> bool {
    match r {
        Some(l) => exists|c: int|
            {
                &&& #[trigger] is_choice(before, Some(c), t, pre, post, ratio, true)
                &&& before[c].lookup_ok(at, l)
                &&& after == pruned(before, c, t, pre, post, ratio)
            },
        None => is_choice(before, None, t, pre, post, ratio, true) && after == before,
    }
}

/// The version after one more publish: the next number, starting over at zero
/// after the largest.
pub open spec fn next_version(v: u64) -> u64 {
    if v == u64::MAX {
        0
    } else {
        (v + 1) as u64
    }
}

/// Published windows in publish order, oldest first, with a count of the
/// publishes so far.
#[derive(Debug)]
pub struct QuatBufferStore {
    dq: VecDeque<Arc<QuatBuffer>>,
    version: u64,
}

impl View for QuatBufferStore {
    type V = Seq<Arc<QuatBuffer>>;

    /// The windows in publish order.
    closed spec fn view(&self) -> Seq<Arc<QuatBuffer>> {
        self.dq@
    }
}

impl QuatBufferStore {
    /// The version counter.
    pub closed spec fn version_spec(&self) -> u64 {
        self.version
    }

    /// An empty store at version zero.
    pub fn new() -> (r: QuatBufferStore)
        ensures
            r@ == Seq::<Arc<QuatBuffer>>::empty(),
            r.version() == 0,
    {
        QuatBufferStore { dq: VecDeque::new(), version: 0 }
    }

    /// The number of publishes so far, counted modulo 2^64.
    #[verifier::when_used_as_spec(version_spec)]
    pub fn version(&self) -> (v: u64)
        ensures
            v == self.version_spec(),
    {
        self.version
    }

    /// The number of windows held.
    pub fn len(&self) -> (n: usize)
        ensures
            n == self@.len(),
    {
        self.dq.len()
    }

    /// Whether no window is held.
    pub fn is_empty(&self) -> (b: bool)
        ensures
            b == (self@.len() == 0),
    {
        self.dq.len() == 0
    }

    /// Publish a new buffer at the back. Returns the shared window and the
    /// new version. Nothing is removed here.
    pub fn publish(&mut self, buf: QuatBuffer) -> (r: (Arc<QuatBuffer>, u64))
        ensures
            *r.0 == buf,
            r.0.wf(),
            final(self)@ == old(self)@.push(r.0),
            final(self).version() == next_version(old(self).version()),
            r.1 == final(self).version(),
    {
        proof {
            use_type_invariant(&buf);
        }
        let arc: Arc<QuatBuffer> = Arc::new(buf);
        self.dq.push_back(arc.clone());
        self.version = if self.version == u64::MAX {
            0
        } else {
            self.version + 1
        };
        (arc, self.version)
    }

    /// The window at position `i` in publish order, oldest first, if there is
    /// one.
    pub fn window_at(&self, i: usize) -> (r: Option<Arc<QuatBuffer>>)
        ensures
            r == if i < self@.len() {
                Some(self@[i as int])
            } else {
                None
            },
    {
        if i < self.dq.len() {
            Some(self.dq[i].clone())
        } else {
            None
        }
    }

    /// The newest window, if any.
    pub fn get_latest(&self) -> (r: Option<Arc<QuatBuffer>>)
        ensures
            r == if self@.len() > 0 {
                Some(self@.last())
            } else {
                None
            },
    {
        let n: usize = self.dq.len();
        if n == 0 {
            None
        } else {
            Some(self.dq[n - 1].clone())
        }
    }

    /// The read pass of a selection: scans from the newest window to the
    /// oldest and returns the position of the choice for the target, without
    /// changing the store.
    pub fn find_candidate(
        &self,
        t_us: i64,
        pre_us: i64,
        post_us: i64,
        center_ratio: Ratio,
        fallback_ok: bool,
    ) -> (r: Option<usize>)
        ensures
            is_choice(
                self@,
                match r {
                    Some(i) => Some(i as int),
                    None => None,
                },
                t_us as int,
                pre_us as int,
                post_us as int,
                center_ratio,
                fallback_ok,
            ),
    {
        let ghost s = self@;
        let ghost (t, pre, post) = (t_us as int, pre_us as int, post_us as int);
        let mut centered_idx: Option<usize> = None;
        let mut cover_idx: Option<usize> = None;
        let mut i: usize = self.dq.len();
        while i > 0 && centered_idx.is_none()
            invariant
                s == self.dq@,
                (t, pre, post) == (t_us as int, pre_us as int, post_us as int),
                i <= s.len(),
                match centered_idx {
                    Some(c) => c == i && is_newest_hit(s, c as int, t, pre, post, center_ratio),
                    None => forall|j: int|
                        i <= j < s.len() ==> !hits(#[trigger] s[j], t, pre, post, center_ratio),
                },
                match cover_idx {
                    Some(c) => i <= c && is_newest_cover(s, c as int, t, pre, post),
                    None => forall|j: int|
                        i <= j < s.len() ==> !(#[trigger] s[j]).covers(t, pre, post),
                },
            decreases i, centered_idx.is_none() as int,
        {
            i -= 1;
            let buf: &Arc<QuatBuffer> = &self.dq[i];
            if buf.covers_with_padding(t_us, pre_us, post_us) {
                if cover_idx.is_none() {
                    cover_idx = Some(i);
                }
                if buf.is_centered_for(t_us, center_ratio) {
                    centered_idx = Some(i);
                }
            }
        }
        if centered_idx.is_some() {
            centered_idx
        } else if fallback_ok {
            cover_idx
        } else {
            None
        }
    }

    /// The write pass of a selection: hands out the window at `chosen_idx` and
    /// removes every older window that covers and centers the target. The
    /// chosen window and everything after it stay. An index past the end
    /// selects nothing and changes nothing.
    pub fn take_and_prune(
        &mut self,
        chosen_idx: usize,
        t_us: i64,
        pre_us: i64,
        post_us: i64,
        center_ratio: Ratio,
    ) -> (r: Option<(Arc<QuatBuffer>, u64)>)
        ensures
            final(self).version() == old(self).version(),
            chosen_idx >= old(self)@.len() ==> r is None && final(self)@ == old(self)@,
            chosen_idx < old(self)@.len() ==> r == Some(
                (old(self)@[chosen_idx as int], old(self).version()),
            ) && final(self)@ == pruned(
                old(self)@,
                chosen_idx as int,
                t_us as int,
                pre_us as int,
                post_us as int,
                center_ratio,
            ),
    {
        if chosen_idx >= self.dq.len() {
            return None;
        }
        let chosen: Arc<QuatBuffer> = self.dq[chosen_idx].clone();
        let ver: u64 = self.version;
        let ghost s = self.dq@;
        let ghost (t, pre, post) = (t_us as int, pre_us as int, post_us as int);
        let ghost keep = survives(t, pre, post, center_ratio);
        let mut i: usize = 0;
        let mut seen: usize = 0;
        proof {
            reveal(Seq::filter);
            assert(s.subrange(0, 0).filter(keep) =~= Seq::<Arc<QuatBuffer>>::empty());
            assert(self.dq@ =~= s.subrange(0, 0).filter(keep) + s.subrange(0, s.len() as int));
        }
        while seen < chosen_idx
            invariant
                s == old(self).dq@,
                self.version == old(self).version,
                (t, pre, post) == (t_us as int, pre_us as int, post_us as int),
                keep == survives(t, pre, post, center_ratio),
                seen <= chosen_idx < s.len(),
                i <= seen,
                i == s.subrange(0, seen as int).filter(keep).len(),
                self.dq@ == s.subrange(0, seen as int).filter(keep) + s.subrange(
                    seen as int,
                    s.len() as int,
                ),
            decreases chosen_idx - seen,
        {
            let ghost kept = s.subrange(0, seen as int).filter(keep);
            proof {
                assert(s.subrange(0, seen + 1) =~= s.subrange(0, seen as int).push(s[seen as int]));
                s.subrange(0, seen as int).lemma_filter_push(s[seen as int], keep);
                assert(self.dq@[i as int] == s[seen as int]);
            }
            let redundant: bool = {
                let buf: &Arc<QuatBuffer> = &self.dq[i];
                buf.is_centered_for(t_us, center_ratio) && buf.covers_with_padding(
                    t_us,
                    pre_us,
                    post_us,
                )
            };
            if redundant {
                let _ = self.dq.remove(i);
                proof {
                    assert(self.dq@ =~= kept + s.subrange(seen + 1, s.len() as int));
                }
            } else {
                proof {
                    assert(self.dq@ =~= kept.push(s[seen as int]) + s.subrange(
                        seen + 1,
                        s.len() as int,
                    ));
                }
                i += 1;
            }
            seen += 1;
        }
        Some((chosen, ver))
    }

    /// Selects the newest window that covers `t_us` with the padding and has
    /// it near its middle, then prunes every older window that does so too.
    /// If no window centers the target and `fallback_ok`, the newest window
    /// that merely covers it is selected, and nothing is pruned. Returns the
    /// window with the current version, or nothing if there is no choice.
    pub fn select_us(
        &mut self,
        t_us: i64,
        pre_us: i64,
        post_us: i64,
        center_ratio: Ratio,
        fallback_ok: bool,
    ) -> (r: Option<(Arc<QuatBuffer>, u64)>)
        ensures
            final(self).version() == old(self).version(),
            select_ok(
                old(self)@,
                old(self).version(),
                final(self)@,
                r,
                t_us as int,
                pre_us as int,
                post_us as int,
                center_ratio,
                fallback_ok,
            ),
    {
        match self.find_candidate(t_us, pre_us, post_us, center_ratio, fallback_ok) {
            Some(chosen_idx) => {
                let r = self.take_and_prune(chosen_idx, t_us, pre_us, post_us, center_ratio);
                proof {
                    assert(is_choice(
                        old(self)@,
                        Some(chosen_idx as int),
                        t_us as int,
                        pre_us as int,
                        post_us as int,
                        center_ratio,
                        fallback_ok,
                    ));
                }
                r
            },
            None => None,
        }
    }

    /// Select the newest buffer where `t_ms` is covered with the padding and
    /// roughly centered, then prune any older buffers that also cover and
    /// center the same `t_ms`. If none is centered, optionally fall back to
    /// the newest covering buffer. Times are whole milliseconds; see
    /// `select_us`.
    pub fn select_centered_and_prune(
        &mut self,
        t_ms: i64,
        pre_ms: i64,
        post_ms: i64,
        center_ratio: Ratio,
        fallback_ok: bool,
    ) -> (r: Option<(Arc<QuatBuffer>, u64)>)
        ensures
            final(self).version() == old(self).version(),
            select_ok(
                old(self)@,
                old(self).version(),
                final(self)@,
                r,
                clamp_to_i64(t_ms * 1000),
                clamp_to_i64(pre_ms * 1000),
                clamp_to_i64(post_ms * 1000),
                center_ratio,
                fallback_ok,
            ),
    {
        self.select_us(
            ms_to_us(t_ms),
            ms_to_us(pre_ms),
            ms_to_us(post_ms),
            center_ratio,
            fallback_ok,
        )
    }

    /// The window that a selection for the target would return, with the
    /// fallback to a merely covering window allowed. Nothing is pruned.
    pub fn get_window_for_time_us(
        &self,
        t_us: i64,
        pre_us: i64,
        post_us: i64,
        center_ratio: Ratio,
    ) -> (r: Option<Arc<QuatBuffer>>)
        ensures
            peek_ok(self@, r, t_us as int, pre_us as int, post_us as int, center_ratio, true),
    {
        match self.find_candidate(t_us, pre_us, post_us, center_ratio, true) {
            Some(i) => {
                proof {
                    assert(is_choice(
                        self@,
                        Some(i as int),
                        t_us as int,
                        pre_us as int,
                        post_us as int,
                        center_ratio,
                        true,
                    ));
                }
                Some(self.dq[i].clone())
            },
            None => None,
        }
    }

    /// As `get_window_for_time_us`, with times in whole milliseconds.
    pub fn get_window_for_time(
        &self,
        t_ms: i64,
        pre_ms: i64,
        post_ms: i64,
        center_ratio: Ratio,
    ) -> (r: Option<Arc<QuatBuffer>>)
        ensures
            peek_ok(
                self@,
                r,
                clamp_to_i64(t_ms * 1000),
                clamp_to_i64(pre_ms * 1000),
                clamp_to_i64(post_ms * 1000),
                center_ratio,
                true,
            ),
    {
        self.get_window_for_time_us(ms_to_us(t_ms), ms_to_us(pre_ms), ms_to_us(post_ms), center_ratio)
    }

    /// The orientation at `t_us`: selects with the fallback allowed, prunes,
    /// and looks `t_us` up in the chosen window. Nothing if no window covers
    /// the target.
    pub fn get_quat_at_time_us(
        &mut self,
        t_us: i64,
        pre_us: i64,
        post_us: i64,
        center_ratio: Ratio,
    ) -> (r: Option<QuatLookup>)
        ensures
            final(self).version() == old(self).version(),
            query_ok(
                old(self)@,
                final(self)@,
                r,
                t_us as int,
                pre_us as int,
                post_us as int,
                center_ratio,
                t_us as int,
            ),
    {
        match self.select_us(t_us, pre_us, post_us, center_ratio, true) {
            Some((buf, _ver)) => buf.value_at(t_us),
            None => None,
        }
    }

    /// As `get_quat_at_time_us`, with times in whole milliseconds.
    pub fn get_quat_at_time(
        &mut self,
        t_ms: i64,
        pre_ms: i64,
        post_ms: i64,
        center_ratio: Ratio,
    ) -> (r: Option<QuatLookup>)
        ensures
            final(self).version() == old(self).version(),
            query_ok(
                old(self)@,
                final(self)@,
                r,
                clamp_to_i64(t_ms * 1000),
                clamp_to_i64(pre_ms * 1000),
                clamp_to_i64(post_ms * 1000),
                center_ratio,
                clamp_to_i64(t_ms * 1000),
            ),
    {
        match self.select_centered_and_prune(t_ms, pre_ms, post_ms, center_ratio, true) {
            Some((buf, _ver)) => buf.quat_at_ms(t_ms),
            None => None,
        }
    }
}

impl Default for QuatBufferStore {
    /// An empty store at version zero.
    fn default() -> (r: QuatBufferStore)
        ensures
            r@ == Seq::<Arc<QuatBuffer>>::empty(),
            r.version() == 0,
    {
        QuatBufferStore::new()
    }
}

/// A store has at most one choice for a target.
pub proof fn lemma_choice_unique(
    s: Seq<Arc<QuatBuffer>>,
    c1: Option<int>,
    c2: Option<int>,
    t: int,
    pre: int,
    post: int,
    ratio: Ratio,
    fallback_ok: bool,
)
    requires
        is_choice(s, c1, t, pre, post, ratio, fallback_ok),
        is_choice(s, c2, t, pre, post, ratio, fallback_ok),
    ensures
        c1 == c2,
{
}

/// Filtering changes nothing in a sequence whose elements all pass.
pub proof fn lemma_filter_all_pass(s: Seq<Arc<QuatBuffer>>, keep: spec_fn(Arc<QuatBuffer>) -> bool)
    requires
        forall|i: int| 0 <= i < s.len() ==> keep(#[trigger] s[i]),
    ensures
        s.filter(keep) == s,
    decreases s.len(),
{
    reveal(Seq::filter);
    if s.len() > 0 {
        lemma_filter_all_pass(s.drop_last(), keep);
        assert(s.drop_last().push(s.last()) =~= s);
    }
}

/// Pruning around the position `c` keeps the window at `c` and all after it
/// at the end of the store, removes before them only windows that cover and
/// center the target, and keeps the rest in their order.
pub proof fn lemma_pruned_shape(
    s: Seq<Arc<QuatBuffer>>,
    c: int,
    t: int,
    pre: int,
    post: int,
    ratio: Ratio,
)
    requires
        0 <= c < s.len(),
    ensures
        ({
            let p = pruned(s, c, t, pre, post, ratio);
            let k = p.len() - (s.len() - c);
            &&& 0 <= k <= c
            &&& p.subrange(k, p.len() as int) == s.subrange(c, s.len() as int)
            &&& p[k] == s[c]
            &&& forall|j: int| 0 <= j < k ==> !hits(#[trigger] p[j], t, pre, post, ratio)
            &&& forall|j: int| 0 <= j < k ==> s.subrange(0, c).contains(#[trigger] p[j])
            &&& forall|i: int|
                0 <= i < c && !hits(#[trigger] s[i], t, pre, post, ratio) ==> p.subrange(
                    0,
                    k,
                ).contains(s[i])
        }),
{
    let keep = survives(t, pre, post, ratio);
    let older = s.subrange(0, c);
    let kept = older.filter(keep);
    let p = pruned(s, c, t, pre, post, ratio);
    let k = kept.len() as int;
    older.lemma_filter_len(keep);
    assert(p.subrange(k, p.len() as int) =~= s.subrange(c, s.len() as int));
    assert(p.subrange(0, k) =~= kept);
    assert forall|j: int| 0 <= j < k implies !hits(#[trigger] p[j], t, pre, post, ratio)
        && s.subrange(0, c).contains(p[j]) by {
        older.lemma_filter_pred(keep, j);
        assert(kept.contains(kept[j]));
        older.lemma_filter_contains_rev(keep, kept[j]);
        assert(p[j] == kept[j]);
    }
    assert forall|i: int|
        0 <= i < c && !hits(#[trigger] s[i], t, pre, post, ratio) implies p.subrange(
        0,
        k,
    ).contains(s[i]) by {
        assert(older[i] == s[i]);
        older.lemma_filter_contains(keep, i);
    }
}

/// Publishing between the two passes of a selection does no harm: an index
/// found by the read pass still names the same window after any number of
/// windows has been published, and the write pass prunes the same windows and
/// leaves the published ones in place.
pub proof fn lemma_publish_between_passes(
    s: Seq<Arc<QuatBuffer>>,
    more: Seq<Arc<QuatBuffer>>,
    c: int,
    t: int,
    pre: int,
    post: int,
    ratio: Ratio,
)
    requires
        0 <= c < s.len(),
    ensures
        (s + more)[c] == s[c],
        pruned(s + more, c, t, pre, post, ratio) == pruned(s, c, t, pre, post, ratio) + more,
{
    let grown = s + more;
    assert(grown.subrange(0, c) =~= s.subrange(0, c));
    assert(grown.subrange(c, grown.len() as int) =~= s.subrange(c, s.len() as int) + more);
    assert(pruned(grown, c, t, pre, post, ratio) =~= pruned(s, c, t, pre, post, ratio) + more);
}

/// Selecting twice for one target: after a selection has pruned the store, a
/// second selection for the same target chooses the same window and removes
/// nothing.
pub proof fn lemma_select_again(
    s: Seq<Arc<QuatBuffer>>,
    c: int,
    t: int,
    pre: int,
    post: int,
    ratio: Ratio,
    fallback_ok: bool,
)
    requires
        is_choice(s, Some(c), t, pre, post, ratio, fallback_ok),
    ensures
        ({
            let p = pruned(s, c, t, pre, post, ratio);
            let k = p.len() - (s.len() - c);
            &&& is_choice(p, Some(k), t, pre, post, ratio, fallback_ok)
            &&& p[k] == s[c]
            &&& pruned(p, k, t, pre, post, ratio) == p
        }),
{
    let keep = survives(t, pre, post, ratio);
    let older = s.subrange(0, c);
    let kept = older.filter(keep);
    let p = pruned(s, c, t, pre, post, ratio);
    let k = kept.len() as int;
    lemma_pruned_shape(s, c, t, pre, post, ratio);
    assert forall|j: int| k <= j < p.len() implies #[trigger] p[j] == s[c + (j - k)] by {
        assert(p.subrange(k, p.len() as int)[j - k] == s.subrange(c, s.len() as int)[j - k]);
    }
    if is_newest_hit(s, c, t, pre, post, ratio) {
        assert(is_newest_hit(p, k, t, pre, post, ratio)) by {
            assert forall|j: int| k < j < p.len() implies !hits(
                #[trigger] p[j],
                t,
                pre,
                post,
                ratio,
            ) by {
                assert(p[j] == s[c + (j - k)]);
            }
        }
    } else {
        assert(no_hit(p, t, pre, post, ratio)) by {
            assert forall|j: int| 0 <= j < p.len() implies !hits(
                #[trigger] p[j],
                t,
                pre,
                post,
                ratio,
            ) by {
                if j >= k {
                    assert(p[j] == s[c + (j - k)]);
                }
            }
        }
        assert(is_newest_cover(p, k, t, pre, post)) by {
            assert forall|j: int| k < j < p.len() implies !(#[trigger] p[j]).covers(
                t,
                pre,
                post,
            ) by {
                assert(p[j] == s[c + (j - k)]);
            }
        }
    }
    assert(p.subrange(0, k) =~= kept);
    assert forall|i: int| 0 <= i < kept.len() implies keep(#[trigger] kept[i]) by {
        older.lemma_filter_pred(keep, i);
    }
    lemma_filter_all_pass(kept, keep);
    assert(pruned(p, k, t, pre, post, ratio) =~= p);
}

} // verus!
