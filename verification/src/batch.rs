//! Sliding windows over a recorded, time-ordered log of orientations.

use crate::csv_quats::CsvQuatSample;
use crate::quat::Quat64;
use crate::store::{next_version, QuatBufferStore};
use crate::time_quat::TimeQuat;
use crate::window::{collect, eligible, QuatBuffer};
use std::sync::Arc;
use vstd::prelude::*;

verus! {

/// Length of a window of the batch loader, unless the caller chooses one: 3 s.
pub const DEFAULT_WINDOW_US: i64 = 3_000_000;

/// Distance between the starts of two windows of the batch loader, unless the
/// caller chooses one: 1 s.
pub const DEFAULT_STEP_US: i64 = 1_000_000;

/// The timestamps of `s` never decrease from one sample to the next.
pub open spec fn samples_ordered(s: Seq<CsvQuatSample>) -> bool {
    forall|i: int, j: int| 0 <= i <= j < s.len() ==> (#[trigger] s[i]).t_us <= (#[trigger] s[j]).t_us
}

/// A window is laid out at `start` if the log reaches that far and the window
/// before it, which ends at `start - step + window`, stops short of the last
/// sample.
pub open spec fn start_used(start: int, last: int, window: int, step: int) -> bool {
    start <= last && start + window < last + step
}

/// The last start that is used for a log ending at `last`.
pub open spec fn start_limit(last: int, window: int, step: int) -> int {
    if last + step - window - 1 < last {
        last + step - window - 1
    } else {
        last
    }
}

/// The number of starts `start`, `start + step`, ... that are used for a log
/// ending at `last`.
pub open spec fn starts_count(start: int, last: int, window: int, step: int) -> int {
    if step > 0 && start <= start_limit(last, window, step) {
        (start_limit(last, window, step) - start) / step + 1
    } else {
        0
    }
}

/// The tables of the windows laid out from `start` on, in order: one for each
/// used start `start`, `start + step`, ..., holding the eligible samples of
/// `[start, start + window]`, and none where that table would be empty.
pub open spec fn planned(
    samples: Seq<CsvQuatSample>,
    window: int,
    step: int,
    start: int,
) -> Seq<Map<i64, Quat64>>
    decreases
            (if start <= samples.last().t_us {
                samples.last().t_us + 1 - start
            } else {
                0
            }),
    when samples.len() > 0 && step > 0
{
    if start_used(start, samples.last().t_us as int, window, step) {
        let m = collect(samples, start, start + window);
        let rest = planned(samples, window, step, start + step);
        if m == Map::<i64, Quat64>::empty() {
            rest
        } else {
            seq![m] + rest
        }
    } else {
        Seq::empty()
    }
}

/// The tables of all windows of a log: those laid out from its first
/// timestamp on, or none for an empty log.
pub open spec fn plan(samples: Seq<CsvQuatSample>, window: int, step: int) -> Seq<
    Map<i64, Quat64>,
> {
    if samples.len() > 0 {
        planned(samples, window, step, samples[0].t_us as int)
    } else {
        Seq::empty()
    }
}

/// The tables of a sequence of shared windows.
pub open spec fn tables(s: Seq<Arc<QuatBuffer>>) -> Seq<Map<i64, Quat64>> {
    Seq::new(s.len(), |i: int| s[i]@)
}

/// The version after `n` more publishes.
pub open spec fn version_after(v: u64, n: nat) -> u64
    decreases n,
{
    if n == 0 {
        v
    } else {
        next_version(version_after(v, (n - 1) as nat))
    }
}

/// Tests that the timestamps of `samples` never decrease.
pub fn is_time_ordered(samples: &[CsvQuatSample]) -> (b: bool)
    ensures
        b == samples_ordered(samples@),
{
    let n: usize = samples.len();
    let mut i: usize = 1;
    while i < n
        invariant
            1 <= i,
            n == samples@.len(),
            forall|a: int, b: int|
                0 <= a <= b < i && b < n ==> (#[trigger] samples@[a]).t_us <= (
                #[trigger] samples@[b]).t_us,
        decreases n - i,
    {
        if samples[i - 1].t_us > samples[i].t_us {
            return false;
        }
        proof {
            assert forall|a: int, b: int| 0 <= a <= b < i + 1 && b < n implies (
            #[trigger] samples@[a]).t_us <= (#[trigger] samples@[b]).t_us by {
                if b == i && a < i {
                    assert(samples@[a].t_us <= samples@[i - 1].t_us);
                }
            }
        }
        i += 1;
    }
    true
}

impl QuatBufferStore {
    /// Builds sliding windows across a time-ordered log and publishes them in
    /// order: windows of `window_us` whose starts advance by `step_us` from
    /// the first timestamp of the log, each holding the finite samples within
    /// it. A start is used while the window before it stops short of the last
    /// sample; a window without samples is not published. Every sample is
    /// visited once for each window it lies in. Returns the number of windows
    /// published.
    pub fn publish_sliding(
        &mut self,
        samples: &[CsvQuatSample],
        window_us: i64,
        step_us: i64,
    ) -> (count: usize)
        requires
            samples_ordered(samples@),
            window_us >= 0,
            step_us > 0,
        ensures
            count == plan(samples@, window_us as int, step_us as int).len(),
            final(self)@.len() == old(self)@.len() + count,
            final(self)@.subrange(0, old(self)@.len() as int) == old(self)@,
            tables(final(self)@.subrange(old(self)@.len() as int, final(self)@.len() as int))
                == plan(samples@, window_us as int, step_us as int),
            forall|i: int|
                old(self)@.len() <= i < final(self)@.len() ==> (#[trigger] final(self)@[i]).wf(),
            final(self).version() == version_after(old(self).version(), count as nat),
    {
        let n: usize = samples.len();
        if n == 0 {
            proof {
                assert(final(self)@.subrange(0, old(self)@.len() as int) =~= old(self)@);
                assert(tables(self@.subrange(old(self)@.len() as int, self@.len() as int))
                    =~= Seq::<Map<i64, Quat64>>::empty());
            }
            return 0;
        }
        let first: i64 = samples[0].t_us;
        let last: i64 = samples[n - 1].t_us;
        let ghost s = samples@;
        let ghost (w, st) = (window_us as int, step_us as int);
        let ghost base = old(self)@;
        let mut start: i64 = first;
        let mut lo: usize = 0;
        let base_len: usize = self.len();
        let mut more: bool = true;
        proof {
            assert(self@.subrange(0, base.len() as int) =~= base);
            assert(tables(self@.subrange(base.len() as int, self@.len() as int)) =~= Seq::<
                Map<i64, Quat64>,
            >::empty());
        }
        while more
            invariant
                s == samples@,
                n == s.len(),
                n > 0,
                samples_ordered(s),
                (w, st) == (window_us as int, step_us as int),
                w >= 0,
                st > 0,
                first == s[0].t_us,
                last == s[n - 1].t_us,
                base == old(self)@,
                first <= start,
                lo <= n,
                forall|i: int| 0 <= i < lo ==> (#[trigger] s[i]).t_us < start,
                base_len == base.len(),
                self@.len() >= base.len(),
                self@.subrange(0, base.len() as int) == base,
                forall|i: int| base.len() <= i < self@.len() ==> (#[trigger] self@[i]).wf(),
                self.version() == version_after(
                    old(self).version(),
                    (self@.len() - base.len()) as nat,
                ),
                more ==> tables(self@.subrange(base.len() as int, self@.len() as int)) + planned(
                    s,
                    w,
                    st,
                    start as int,
                ) == plan(s, w, st),
                !more ==> tables(self@.subrange(base.len() as int, self@.len() as int)) == plan(
                    s,
                    w,
                    st,
                ),
            decreases more as int, last - start,
        {
            let ghost done = tables(self@.subrange(base.len() as int, self@.len() as int));
            if start > last || start as i128 + window_us as i128 >= last as i128 + step_us as i128 {
                proof {
                    assert(s.last() == s[n - 1]);
                    assert(planned(s, w, st, start as int) =~= Seq::<Map<i64, Quat64>>::empty());
                    assert(done + Seq::<Map<i64, Quat64>>::empty() =~= done);
                }
                more = false;
            } else {
                lo = skip_before(samples, lo, start);
                let table: TimeQuat = gather(samples, lo, start, window_us);
                let ghost m = table@;
                match QuatBuffer::from_table(table) {
                    Some(buf) => {
                        let _ = self.publish(buf);
                        proof {
                            let now = self@;
                            assert(now.subrange(0, base.len() as int) =~= base);
                            assert(tables(now.subrange(base.len() as int, now.len() as int))
                                =~= done.push(m));
                        }
                    },
                    None => {},
                }
                proof {
                    assert(s.last() == s[n - 1]);
                    let now_done = tables(self@.subrange(base.len() as int, self@.len() as int));
                    let rest = planned(s, w, st, start + st);
                    if m == Map::<i64, Quat64>::empty() {
                        assert(planned(s, w, st, start as int) == rest);
                    } else {
                        assert(planned(s, w, st, start as int) == seq![m] + rest);
                        assert(done.push(m) + rest =~= done + (seq![m] + rest));
                    }
                    assert(now_done + rest == plan(s, w, st));
                }
                if start as i128 + step_us as i128 > last as i128 {
                    proof {
                        assert(planned(s, w, st, start + st) =~= Seq::<Map<i64, Quat64>>::empty(
                        ));
                        let now_done = tables(
                            self@.subrange(base.len() as int, self@.len() as int),
                        );
                        assert(now_done + Seq::<Map<i64, Quat64>>::empty() =~= now_done);
                    }
                    more = false;
                } else {
                    start = start + step_us;
                }
            }
        }
        self.len() - base_len
    }
}

/// The used starts are counted by dividing the stretch up to the last used
/// start by the step: after a used start, one fewer is left.
pub proof fn lemma_starts_count_step(start: int, last: int, window: int, step: int)
    requires
        step > 0,
    ensures
        starts_count(start, last, window, step) >= 0,
        start_used(start, last, window, step) <==> starts_count(start, last, window, step) > 0,
        start_used(start, last, window, step) ==> starts_count(start, last, window, step)
            == starts_count(start + step, last, window, step) + 1,
{
    let limit = start_limit(last, window, step);
    if start <= limit {
        let x = limit - start;
        vstd::arithmetic::div_mod::lemma_fundamental_div_mod(x, step);
        vstd::arithmetic::div_mod::lemma_mod_bound(x, step);
        let q = x / step;
        let r = x % step;
        assert(x == step * q + r);
        assert(q >= 0) by (nonlinear_arith)
            requires
                x == step * q + r,
                x >= 0,
                0 <= r < step,
                step > 0,
        ;
        if start + step <= limit {
            assert(q >= 1) by (nonlinear_arith)
                requires
                    x == step * q + r,
                    x >= step,
                    0 <= r < step,
                    step > 0,
            ;
            assert(x - step == (q - 1) * step + r) by (nonlinear_arith)
                requires
                    x == step * q + r,
            ;
            vstd::arithmetic::div_mod::lemma_fundamental_div_mod_converse(x - step, step, q - 1, r);
        } else {
            assert(q == 0) by (nonlinear_arith)
                requires
                    x == step * q + r,
                    0 <= x < step,
                    0 <= r < step,
                    q >= 0,
            ;
        }
    }
}

/// How many windows a log gives: never more than there are used starts, and
/// exactly one for each used start, holding the eligible samples of its
/// range, if every one of those ranges holds an eligible sample.
pub proof fn lemma_planned_count(samples: Seq<CsvQuatSample>, window: int, step: int, start: int)
    requires
        samples.len() > 0,
        step > 0,
    ensures
        planned(samples, window, step, start).len() <= starts_count(
            start,
            samples.last().t_us as int,
            window,
            step,
        ),
        (forall|k: int|
            0 <= k < starts_count(start, samples.last().t_us as int, window, step) ==> #[trigger] collect(
                samples,
                start + k * step,
                start + k * step + window,
            ) != Map::<i64, Quat64>::empty()) ==> {
            &&& planned(samples, window, step, start).len() == starts_count(
                start,
                samples.last().t_us as int,
                window,
                step,
            )
            &&& forall|k: int|
                0 <= k < starts_count(start, samples.last().t_us as int, window, step)
                    ==> #[trigger] planned(samples, window, step, start)[k] == collect(
                    samples,
                    start + k * step,
                    start + k * step + window,
                )
        },
    decreases
            (if start <= samples.last().t_us {
                samples.last().t_us + 1 - start
            } else {
                0
            }),
{
    let last = samples.last().t_us as int;
    let n = starts_count(start, last, window, step);
    lemma_starts_count_step(start, last, window, step);
    if start_used(start, last, window, step) {
        let next = start + step;
        let rest = planned(samples, window, step, next);
        let m = collect(samples, start, start + window);
        lemma_planned_count(samples, window, step, next);
        if forall|k: int|
            0 <= k < n ==> #[trigger] collect(samples, start + k * step, start + k * step + window)
                != Map::<i64, Quat64>::empty() {
            assert(start + 0 * step == start);
            assert(collect(samples, start + 0 * step, start + 0 * step + window) == m);
            assert forall|k: int| 0 <= k < n - 1 implies #[trigger] collect(
                samples,
                next + k * step,
                next + k * step + window,
            ) != Map::<i64, Quat64>::empty() by {
                assert(start + (k + 1) * step == next + k * step) by (nonlinear_arith)
                    requires
                        next == start + step,
                ;
                assert(collect(samples, start + (k + 1) * step, start + (k + 1) * step + window)
                    != Map::<i64, Quat64>::empty());
            }
            let all = planned(samples, window, step, start);
            assert(all == seq![m] + rest);
            assert forall|k: int| 0 <= k < n implies #[trigger] all[k] == collect(
                samples,
                start + k * step,
                start + k * step + window,
            ) by {
                if k > 0 {
                    assert(all[k] == rest[k - 1]);
                    assert(start + k * step == next + (k - 1) * step) by (nonlinear_arith)
                        requires
                            next == start + step,
                    ;
                }
            }
        }
    }
}

/// The law of the batch loader's count: a log gives at most as many windows
/// as it has used starts from its first timestamp on, and exactly that many,
/// one for each used start in order, if each of their ranges holds an
/// eligible sample.
pub proof fn lemma_plan_count(samples: Seq<CsvQuatSample>, window: int, step: int)
    requires
        samples.len() > 0,
        step > 0,
    ensures
        plan(samples, window, step).len() <= starts_count(
            samples[0].t_us as int,
            samples.last().t_us as int,
            window,
            step,
        ),
        (forall|k: int|
            0 <= k < starts_count(
                samples[0].t_us as int,
                samples.last().t_us as int,
                window,
                step,
            ) ==> #[trigger] collect(
                samples,
                samples[0].t_us + k * step,
                samples[0].t_us + k * step + window,
            ) != Map::<i64, Quat64>::empty()) ==> {
            &&& plan(samples, window, step).len() == starts_count(
                samples[0].t_us as int,
                samples.last().t_us as int,
                window,
                step,
            )
            &&& forall|k: int|
                0 <= k < starts_count(
                    samples[0].t_us as int,
                    samples.last().t_us as int,
                    window,
                    step,
                ) ==> #[trigger] plan(samples, window, step)[k] == collect(
                    samples,
                    samples[0].t_us + k * step,
                    samples[0].t_us + k * step + window,
                )
        },
{
    lemma_planned_count(samples, window, step, samples[0].t_us as int);
}

/// Samples that are not eligible add nothing at the end of a log.
pub proof fn lemma_collect_ignores_suffix(
    a: Seq<CsvQuatSample>,
    b: Seq<CsvQuatSample>,
    start: int,
    end: int,
)
    requires
        forall|i: int| 0 <= i < b.len() ==> !eligible(#[trigger] b[i], start, end),
    ensures
        collect(a + b, start, end) == collect(a, start, end),
    decreases b.len(),
{
    if b.len() == 0 {
        assert(a + b =~= a);
    } else {
        assert((a + b).drop_last() =~= a + b.drop_last());
        assert((a + b).last() == b[b.len() - 1]);
        assert forall|i: int| 0 <= i < b.drop_last().len() implies !eligible(
            #[trigger] b.drop_last()[i],
            start,
            end,
        ) by {
            assert(b.drop_last()[i] == b[i]);
        }
        lemma_collect_ignores_suffix(a, b.drop_last(), start, end);
    }
}

/// Samples that are not eligible add nothing at the beginning of a log.
pub proof fn lemma_collect_ignores_prefix(
    a: Seq<CsvQuatSample>,
    b: Seq<CsvQuatSample>,
    start: int,
    end: int,
)
    requires
        forall|i: int| 0 <= i < a.len() ==> !eligible(#[trigger] a[i], start, end),
    ensures
        collect(a + b, start, end) == collect(b, start, end),
    decreases b.len(),
{
    if b.len() == 0 {
        lemma_collect_ignores_suffix(b, a, start, end);
        assert(a + b =~= b + a);
    } else {
        assert((a + b).drop_last() =~= a + b.drop_last());
        assert((a + b).last() == b.last());
        lemma_collect_ignores_prefix(a, b.drop_last(), start, end);
    }
}

/// The end of the range may be replaced by any other that admits the same
/// timestamps.
pub proof fn lemma_collect_end(s: Seq<CsvQuatSample>, start: int, end: int, end2: int)
    requires
        end == end2 || (end == i64::MAX && end2 >= i64::MAX),
    ensures
        collect(s, start, end) == collect(s, start, end2),
    decreases s.len(),
{
    if s.len() > 0 {
        lemma_collect_end(s.drop_last(), start, end, end2);
    }
}

/// The position of the first sample at or after `lo` that is not before
/// `start`.
fn skip_before(samples: &[CsvQuatSample], lo: usize, start: i64) -> (r: usize)
    requires
        lo <= samples@.len(),
        forall|i: int| 0 <= i < lo ==> (#[trigger] samples@[i]).t_us < start,
    ensures
        lo <= r <= samples@.len(),
        forall|i: int| 0 <= i < r ==> (#[trigger] samples@[i]).t_us < start,
        r < samples@.len() ==> samples@[r as int].t_us >= start,
{
    let n: usize = samples.len();
    let mut k: usize = lo;
    while k < n && samples[k].t_us < start
        invariant
            n == samples@.len(),
            lo <= k <= n,
            forall|i: int| 0 <= i < k ==> (#[trigger] samples@[i]).t_us < start,
        decreases n - k,
    {
        k += 1;
    }
    k
}

/// The table of the window `[start, start + window_us]` of a time-ordered
/// log, read from position `lo` on, before which every sample is earlier than
/// `start`. Reading stops at the first sample after the window.
fn gather(samples: &[CsvQuatSample], lo: usize, start: i64, window_us: i64) -> (table: TimeQuat)
    requires
        samples_ordered(samples@),
        window_us >= 0,
        lo <= samples@.len(),
        forall|i: int| 0 <= i < lo ==> (#[trigger] samples@[i]).t_us < start,
    ensures
        table.wf(),
        table@ == collect(samples@, start as int, start + window_us),
        table@ != Map::<i64, Quat64>::empty() ==> lo < samples@.len(),
{
    let n: usize = samples.len();
    let ghost s = samples@;
    let end: i64 = if start as i128 + window_us as i128 > i64::MAX as i128 {
        i64::MAX
    } else {
        (start as i128 + window_us as i128) as i64
    };
    let mut table: TimeQuat = TimeQuat::new();
    let mut j: usize = lo;
    proof {
        assert(s.subrange(lo as int, lo as int) =~= Seq::<CsvQuatSample>::empty());
    }
    while j < n && samples[j].t_us <= end
        invariant
            s == samples@,
            n == s.len(),
            lo <= j <= n,
            table.wf(),
            table@ == collect(s.subrange(lo as int, j as int), start as int, end as int),
            j == lo ==> table@ == Map::<i64, Quat64>::empty(),
        decreases n - j,
    {
        let x: CsvQuatSample = samples[j];
        proof {
            let grown = s.subrange(lo as int, j + 1);
            assert(grown.drop_last() =~= s.subrange(lo as int, j as int));
            assert(grown.last() == x);
        }
        if x.t_us >= start && x.is_finite() {
            let _ = table.insert(x.t_us, x.quat());
        }
        j += 1;
    }
    proof {
        let head = s.subrange(0, lo as int);
        let body = s.subrange(lo as int, j as int);
        let tail = s.subrange(j as int, n as int);
        assert(s =~= head + body + tail);
        assert forall|i: int| 0 <= i < tail.len() implies !eligible(
            #[trigger] tail[i],
            start as int,
            end as int,
        ) by {
            assert(s[j as int].t_us <= s[j + i].t_us);
        }
        assert forall|i: int| 0 <= i < head.len() implies !eligible(
            #[trigger] head[i],
            start as int,
            end as int,
        ) by {
            assert(head[i] == s[i]);
        }
        lemma_collect_ignores_suffix(head + body, tail, start as int, end as int);
        lemma_collect_ignores_prefix(head, body, start as int, end as int);
        lemma_collect_end(s, start as int, end as int, start + window_us);
    }
    table
}

} // verus!
