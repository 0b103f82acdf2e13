//! An immutable, time-indexed table of orientations over one stretch of time.

use crate::clock::{clamp_to_i64, ms_to_us};
use crate::csv_quats::CsvQuatSample;
use crate::quat::Quat64;
use crate::time_quat::{
    entries_to_map, keys_increasing, lemma_empty_map, lemma_entry_in_map, TimeQuat,
};
use vstd::prelude::*;

verus! {

/// A non-negative fraction `num / den`. A zero denominator stands for a
/// fraction without bound.
#[derive(Clone, Copy, Debug)]
pub struct Ratio {
    pub num: u32,
    pub den: u32,
}

/// Two neighbouring entries of a window around a time that lies strictly
/// between them.
#[derive(Clone, Copy, Debug)]
pub struct Bracket {
    /// Time of the entry before the looked-up time.
    pub t0_us: i64,
    /// Orientation of the entry before.
    pub q0: Quat64,
    /// Time of the entry after the looked-up time.
    pub t1_us: i64,
    /// Orientation of the entry after.
    pub q1: Quat64,
    /// The looked-up time.
    pub at_us: i64,
}

impl Bracket {
    /// Time elapsed from the earlier entry to the looked-up time.
    pub open spec fn elapsed(self) -> int {
        if self.at_us >= self.t0_us {
            self.at_us - self.t0_us
        } else {
            0
        }
    }

    /// Time between the two entries.
    pub open spec fn dt(self) -> int {
        if self.t1_us >= self.t0_us {
            self.t1_us - self.t0_us
        } else {
            0
        }
    }

    /// Time elapsed from the earlier entry to the looked-up time, the
    /// numerator of the interpolation weight.
    pub fn elapsed_us(&self) -> (r: u64)
        ensures
            r == self.elapsed(),
    {
        if self.at_us >= self.t0_us {
            (self.at_us as i128 - self.t0_us as i128) as u64
        } else {
            0
        }
    }

    /// Time between the two entries, the denominator of the interpolation
    /// weight.
    pub fn dt_us(&self) -> (r: u64)
        ensures
            r == self.dt(),
    {
        if self.t1_us >= self.t0_us {
            (self.t1_us as i128 - self.t0_us as i128) as u64
        } else {
            0
        }
    }
}

/// What a window knows of the orientation at a point in time.
#[derive(Clone, Copy, Debug)]
pub enum QuatLookup {
    /// An entry sits exactly at the time: its orientation.
    Exact(Quat64),
    /// The time falls between two entries: both, to be interpolated
    /// spherically with the weight `elapsed / dt`.
    Between(Bracket),
}

/// Half of `s`, rounded toward zero.
pub open spec fn half_toward_zero(s: int) -> int {
    if s >= 0 {
        s / 2
    } else {
        -((-s) / 2)
    }
}

/// `t` moved into the range from `lo` to `hi`.
pub open spec fn clamp_time(t: int, lo: int, hi: int) -> int {
    if t < lo {
        lo
    } else if t > hi {
        hi
    } else {
        t
    }
}

/// `k` is the latest timestamp of `m` that is not after `t`.
pub open spec fn is_floor_key(m: Map<i64, Quat64>, t: int, k: i64) -> bool {
    &&& m.contains_key(k)
    &&& k <= t
    &&& forall|k2: i64| #[trigger] m.contains_key(k2) && k2 <= t ==> k2 <= k
}

/// `k` is the earliest timestamp of `m` that is not before `t`.
pub open spec fn is_ceil_key(m: Map<i64, Quat64>, t: int, k: i64) -> bool {
    &&& m.contains_key(k)
    &&& k >= t
    &&& forall|k2: i64| #[trigger] m.contains_key(k2) && k2 >= t ==> k2 >= k
}

/// A sample belongs to the window over `[start, end]`: its time lies in the
/// range and its orientation is finite in all components.
pub open spec fn eligible(s: CsvQuatSample, start: int, end: int) -> bool {
    start <= s.t_us <= end && s.quat().finite()
}

/// The table built from the eligible samples of a sequence, taken in order:
/// of two eligible samples with one timestamp the later one stays.
pub open spec fn collect(samples: Seq<CsvQuatSample>, start: int, end: int) -> Map<i64, Quat64>
    decreases samples.len(),
{
    if samples.len() == 0 {
        Map::empty()
    } else {
        let rest = collect(samples.drop_last(), start, end);
        let s = samples.last();
        if eligible(s, start, end) {
            rest.insert(s.t_us, s.quat())
        } else {
            rest
        }
    }
}

/// A time-indexed table of orientations together with the first and the last
/// of its timestamps. It is never empty and never changes once built.
#[derive(Debug)]
pub struct QuatBuffer {
    quats: TimeQuat,
    first_us: i64,
    last_us: i64,
}

impl View for QuatBuffer {
    type V = Map<i64, Quat64>;

    /// The window as a map from timestamps to orientations.
    open spec fn view(&self) -> Map<i64, Quat64> {
        entries_to_map(self.entries())
    }
}

impl Clone for QuatBuffer {
    /// A window with the same entries.
    fn clone(&self) -> (r: QuatBuffer)
        ensures
            r.wf(),
            r.entries() == self.entries(),
            r@ == self@,
            r.first() == self.first(),
            r.last() == self.last(),
    {
        proof {
            use_type_invariant(self);
        }
        QuatBuffer { quats: self.quats.clone(), first_us: self.first_us, last_us: self.last_us }
    }
}

impl QuatBuffer {
    /// The entries in ascending order of time.
    pub closed spec fn entries(self) -> Seq<(i64, Quat64)> {
        self.quats.entries()
    }

    /// The recorded first timestamp.
    pub closed spec fn first(self) -> i64 {
        self.first_us
    }

    /// The recorded last timestamp.
    pub closed spec fn last(self) -> i64 {
        self.last_us
    }

    /// The window holds at least one entry, its timestamps increase strictly,
    /// and the recorded ends are the timestamps of its first and last entry.
    pub open spec fn wf(self) -> bool {
        &&& self.entries().len() > 0
        &&& keys_increasing(self.entries())
        &&& self.first() == self.entries().first().0
        &&& self.last() == self.entries().last().0
    }

    #[verifier::type_invariant]
    pub(crate) open spec fn inv(self) -> bool {
        self.wf()
    }

    /// The midpoint of the window, rounded toward zero.
    pub open spec fn mid(self) -> int {
        half_toward_zero(self.first() + self.last())
    }

    /// The length of the stretch of time that the window spans.
    pub open spec fn span(self) -> int {
        if self.last() - self.first() > 0 {
            self.last() - self.first()
        } else {
            0
        }
    }

    /// The window reaches at least `pre` before and `post` after `target`.
    pub open spec fn covers(self, target: int, pre: int, post: int) -> bool {
        self.first() <= target - pre && self.last() >= target + post
    }

    /// `target` lies within `ratio` times half the span of the midpoint, in a
    /// window with a span.
    pub open spec fn centered(self, target: int, ratio: Ratio) -> bool {
        &&& self.span() != 0
        &&& 2 * ratio.den * vstd::math::abs(target - self.mid()) <= ratio.num * self.span()
    }

    /// What `value_at` yields for the time `t`.
    pub open spec fn lookup_ok(self, t: int, r: QuatLookup) -> bool {
        let at = clamp_time(t, self.first() as int, self.last() as int);
        match r {
            QuatLookup::Exact(q) => self@.contains_key(at as i64) && q == self@[at as i64],
            QuatLookup::Between(b) => {
                &&& b.at_us == at
                &&& b.t0_us < at < b.t1_us
                &&& is_floor_key(self@, at, b.t0_us)
                &&& is_ceil_key(self@, at, b.t1_us)
                &&& b.q0 == self@[b.t0_us]
                &&& b.q1 == self@[b.t1_us]
            },
        }
    }

    /// Builds a window that takes `table` over, or nothing if `table` is
    /// empty.
    pub fn from_table(table: TimeQuat) -> (r: Option<QuatBuffer>)
        ensures
            r is Some <==> table@ != Map::<i64, Quat64>::empty(),
            r matches Some(w) ==> w.wf() && w@ == table@ && w.entries() == table.entries(),
    {
        proof {
            lemma_empty_map(table.entries());
        }
        let n: usize = table.len();
        if n == 0 {
            return None;
        }
        let first_us: i64 = table.time_at(0);
        let last_us: i64 = table.time_at(n - 1);
        Some(QuatBuffer { quats: table, first_us, last_us })
    }

    /// Builds a window holding the entries of `map`, or nothing if `map` is
    /// empty.
    pub fn from_btreemap(map: &TimeQuat) -> (r: Option<QuatBuffer>)
        ensures
            r is Some <==> map@ != Map::<i64, Quat64>::empty(),
            r matches Some(w) ==> w.wf() && w@ == map@ && w.entries() == map.entries(),
    {
        QuatBuffer::from_table(map.clone())
    }

    /// Builds a window from all samples whose time lies in
    /// `[start_us, end_us]` and whose orientation is finite, or nothing if
    /// there is no such sample.
    pub fn from_samples(samples: &[CsvQuatSample], start_us: i64, end_us: i64) -> (r: Option<
        QuatBuffer,
    >)
        ensures
            r is Some <==> exists|i: int|
                0 <= i < samples@.len() && eligible(#[trigger] samples@[i], start_us as int, end_us as int),
            r matches Some(w) ==> w.wf() && w@ == collect(
                samples@,
                start_us as int,
                end_us as int,
            ),
            r matches Some(w) ==> forall|t: i64| #[trigger]
                w@.contains_key(t) ==> start_us <= t <= end_us && w@[t].finite(),
    {
        let mut table: TimeQuat = TimeQuat::new();
        let mut i: usize = 0;
        while i < samples.len()
            invariant
                i <= samples@.len(),
                table.wf(),
                table@ == collect(samples@.take(i as int), start_us as int, end_us as int),
            decreases samples@.len() - i,
        {
            let s: CsvQuatSample = samples[i];
            proof {
                assert(samples@.take(i + 1).drop_last() =~= samples@.take(i as int));
                assert(samples@.take(i + 1).last() == s);
            }
            if s.t_us >= start_us && s.t_us <= end_us && s.is_finite() {
                let _ = table.insert(s.t_us, s.quat());
            }
            i += 1;
        }
        proof {
            assert(samples@.take(samples@.len() as int) =~= samples@);
            lemma_collect_keys(samples@, start_us as int, end_us as int);
            lemma_collect_values(samples@, start_us as int, end_us as int);
            let m = collect(samples@, start_us as int, end_us as int);
            lemma_empty_map(table.entries());
            if table.entries().len() > 0 {
                lemma_entry_in_map(table.entries(), 0);
                let t = table.entries()[0].0;
                assert(m.contains_key(t));
            }
            if exists|i: int|
                0 <= i < samples@.len() && eligible(
                    #[trigger] samples@[i],
                    start_us as int,
                    end_us as int,
                ) {
                let j = choose|i: int|
                    0 <= i < samples@.len() && eligible(
                        #[trigger] samples@[i],
                        start_us as int,
                        end_us as int,
                    );
                assert(m.contains_key(samples@[j].t_us));
            }
        }
        QuatBuffer::from_table(table)
    }

    /// The number of entries.
    pub fn len(&self) -> (n: usize)
        ensures
            n == self.entries().len(),
            n > 0,
    {
        proof {
            use_type_invariant(self);
        }
        self.quats.len()
    }

    /// The timestamps of the window in ascending order.
    pub fn times(&self) -> (r: Vec<i64>)
        ensures
            r@.len() == self.entries().len(),
            forall|i: int| 0 <= i < r@.len() ==> r@[i] == (#[trigger] self.entries()[i]).0,
            forall|i: int, j: int| 0 <= i < j < r@.len() ==> r@[i] < r@[j],
    {
        proof {
            use_type_invariant(self);
        }
        let n: usize = self.quats.len();
        let mut out: Vec<i64> = Vec::new();
        let mut i: usize = 0;
        while i < n
            invariant
                i <= n,
                n == self.quats.entries().len(),
                out@.len() == i,
                forall|k: int| 0 <= k < i ==> out@[k] == (#[trigger] self.quats.entries()[k]).0,
            decreases n - i,
        {
            out.push(self.quats.time_at(i));
            i += 1;
        }
        assert forall|i: int, j: int| 0 <= i < j < out@.len() implies out@[i] < out@[j] by {
            assert(self.entries()[i].0 < self.entries()[j].0);
        }
        out
    }

    /// The first timestamp of the window.
    pub fn first_us(&self) -> (t: i64)
        ensures
            t == self.first(),
    {
        self.first_us
    }

    /// The last timestamp of the window.
    pub fn last_us(&self) -> (t: i64)
        ensures
            t == self.last(),
    {
        self.last_us
    }

    /// The midpoint of the window: `(first + last) / 2`, rounded toward zero.
    pub fn mid_us(&self) -> (t: i64)
        ensures
            t == self.mid(),
    {
        let sum: i128 = self.first_us as i128 + self.last_us as i128;
        if sum >= 0 {
            (sum / 2) as i64
        } else {
            let half: i128 = (-sum) / 2;
            (-half) as i64
        }
    }

    /// The time from the first to the last timestamp, never negative; a span
    /// too long for `i64` is reported as `i64::MAX`.
    pub fn span_us(&self) -> (d: i64)
        ensures
            d == clamp_to_i64(self.span()),
    {
        let diff: i128 = self.last_us as i128 - self.first_us as i128;
        if diff <= 0 {
            0
        } else if diff > i64::MAX as i128 {
            i64::MAX
        } else {
            diff as i64
        }
    }

    /// The time from the first to the last timestamp; the same as `span_us`.
    pub fn duration_us(&self) -> (d: i64)
        ensures
            d == clamp_to_i64(self.span()),
    {
        self.span_us()
    }

    /// "Covers" a target time with the required padding before and after:
    /// `first <= target - pre` and `last >= target + post`.
    pub fn covers_with_padding(&self, target_us: i64, pre_us: i64, post_us: i64) -> (b: bool)
        ensures
            b == self.covers(target_us as int, pre_us as int, post_us as int),
    {
        let lo: i128 = target_us as i128 - pre_us as i128;
        let hi: i128 = target_us as i128 + post_us as i128;
        self.first_us as i128 <= lo && self.last_us as i128 >= hi
    }

    /// Is the target time roughly in the middle? `center_ratio` is a fraction
    /// of half the span: the target may be that far from the midpoint. A
    /// window without a span centers nothing.
    pub fn is_centered_for(&self, target_us: i64, center_ratio: Ratio) -> (b: bool)
        ensures
            b == self.centered(target_us as int, center_ratio),
    {
        proof {
            use_type_invariant(self);
        }
        let diff: i128 = self.last_us as i128 - self.first_us as i128;
        if diff <= 0 {
            return false;
        }
        let mid: i128 = self.mid_us() as i128;
        let off: i128 = target_us as i128 - mid;
        let dist: i128 = if off >= 0 {
            off
        } else {
            -off
        };
        let den2: i128 = 2 * (center_ratio.den as i128);
        let num: i128 = center_ratio.num as i128;
        proof {
            assert(0 <= den2 * dist <= 0x2_0000_0000 * 0x1_0000_0000_0000_0000) by (nonlinear_arith)
                requires
                    0 <= den2 <= 0x2_0000_0000,
                    0 <= dist <= 0x1_0000_0000_0000_0000,
            ;
            assert(0 <= num * diff <= 0x1_0000_0000 * 0x1_0000_0000_0000_0000) by (nonlinear_arith)
                requires
                    0 <= num <= 0x1_0000_0000,
                    0 <= diff <= 0x1_0000_0000_0000_0000,
            ;
            assert(2 * center_ratio.den * dist == den2 * dist) by (nonlinear_arith)
                requires
                    den2 == 2 * center_ratio.den,
            ;
        }
        den2 * dist <= num * diff
    }

    /// Looks the orientation at `t_us` up, after moving `t_us` into the range
    /// of the window. An entry exactly at that time is returned as it is;
    /// otherwise the entries just before and just after are returned for
    /// interpolation. A window always has an answer.
    pub fn value_at(&self, t_us: i64) -> (r: Option<QuatLookup>)
        ensures
            r matches Some(l) && self.lookup_ok(t_us as int, l),
    {
        proof {
            use_type_invariant(self);
        }
        let at: i64 = if t_us < self.first_us {
            self.first_us
        } else if t_us > self.last_us {
            self.last_us
        } else {
            t_us
        };
        let n: usize = self.quats.len();
        let i: usize = self.quats.lower_bound(at);
        assert(i < n) by {
            if i >= n {
                assert(self.entries()[n - 1].0 < at);
            }
        }
        let t1: i64 = self.quats.time_at(i);
        let q1: Quat64 = self.quats.quat_at(i);
        if t1 == at {
            return Some(QuatLookup::Exact(q1));
        }
        assert(i > 0) by {
            if i == 0 {
                assert(self.entries()[0].0 >= at);
            }
        }
        let t0: i64 = self.quats.time_at(i - 1);
        let q0: Quat64 = self.quats.quat_at(i - 1);
        let b = Bracket { t0_us: t0, q0, t1_us: t1, q1, at_us: at };
        proof {
            let s = self.entries();
            assert(s[i - 1].0 < at);
            assert forall|k2: i64| #[trigger] self@.contains_key(k2) && k2 <= at implies k2
                <= t0 by {
                let j = crate::time_quat::key_index(s, k2);
                assert(s[j].0 == k2);
                if j >= i {
                    assert(s[j].0 >= at);
                    if j > i {
                        assert(s[i as int].0 < s[j].0);
                    }
                } else if j < i - 1 {
                    assert(s[j].0 < s[i - 1].0);
                }
            }
            assert forall|k2: i64| #[trigger] self@.contains_key(k2) && k2 >= at implies k2
                >= t1 by {
                let j = crate::time_quat::key_index(s, k2);
                assert(s[j].0 == k2);
                if j < i {
                    assert(s[j].0 < at);
                } else if j > i {
                    assert(s[i as int].0 < s[j].0);
                }
            }
        }
        Some(QuatLookup::Between(b))
    }

    /// Looks the orientation at `t_ms` milliseconds up; see `value_at`.
    pub fn quat_at_ms(&self, t_ms: i64) -> (r: Option<QuatLookup>)
        ensures
            r matches Some(l) && self.lookup_ok(clamp_to_i64(t_ms * 1000), l),
    {
        self.value_at(ms_to_us(t_ms))
    }
}

/// The window invariant: the timestamps of a window increase strictly from
/// entry to entry, they are the timestamps that its map knows, and the
/// recorded first and last timestamp are the least and the greatest of them.
pub proof fn lemma_window_invariant(w: QuatBuffer)
    requires
        w.wf(),
    ensures
        keys_increasing(w.entries()),
        forall|i: int| 0 <= i < w.entries().len() ==> w@.contains_key((#[trigger] w.entries()[i]).0),
        forall|i: int| 0 <= i < w.entries().len() ==> w@[(#[trigger] w.entries()[i]).0] == w.entries()[i].1,
        w@.contains_key(w.first()),
        w@.contains_key(w.last()),
        forall|t: i64| #[trigger] w@.contains_key(t) ==> w.first() <= t <= w.last(),
{
    let s = w.entries();
    assert forall|i: int| 0 <= i < s.len() implies w@.contains_key((#[trigger] s[i]).0) && w@[s[i].0]
        == s[i].1 by {
        lemma_entry_in_map(s, i);
    }
    assert forall|t: i64| #[trigger] w@.contains_key(t) implies w.first() <= t <= w.last() by {
        let j = crate::time_quat::key_index(s, t);
        assert(s[j].0 == t);
        if 0 < j {
            assert(s[0].0 < s[j].0);
        }
        if j < s.len() - 1 {
            assert(s[j].0 < s[s.len() - 1].0);
        }
    }
}

/// A lookup at the time of an entry yields the orientation of that entry,
/// exactly as it was stored.
pub proof fn lemma_lookup_at_entry(w: QuatBuffer, t: i64, r: QuatLookup)
    requires
        w.wf(),
        w@.contains_key(t),
        w.lookup_ok(t as int, r),
    ensures
        r == QuatLookup::Exact(w@[t]),
{
    lemma_window_invariant(w);
    assert(clamp_time(t as int, w.first() as int, w.last() as int) == t);
}

/// The midpoint of a window with a span is centered for every ratio.
pub proof fn lemma_mid_is_centered(w: QuatBuffer, ratio: Ratio)
    requires
        w.wf(),
        w.span() != 0,
    ensures
        w.centered(w.mid(), ratio),
{
    assert(ratio.num * w.span() >= 0) by (nonlinear_arith)
        requires
            ratio.num >= 0,
            w.span() >= 0,
    ;
    assert(2 * ratio.den * vstd::math::abs(w.mid() - w.mid()) == 0) by (nonlinear_arith)
        requires
            vstd::math::abs(w.mid() - w.mid()) == 0,
    ;
}

/// Centering is monotone: a target no farther from the midpoint than a
/// centered one is centered too, and so is the same target under a ratio that
/// is no smaller.
pub proof fn lemma_centered_monotone(w: QuatBuffer, near: int, far: int, small: Ratio, large: Ratio)
    requires
        w.wf(),
        w.centered(far, small),
        vstd::math::abs(near - w.mid()) <= vstd::math::abs(far - w.mid()),
        small.den > 0,
        small.num * large.den <= large.num * small.den,
    ensures
        w.centered(near, small),
        w.centered(far, large),
{
    let dn = vstd::math::abs(near - w.mid());
    let df = vstd::math::abs(far - w.mid());
    let span = w.span();
    assert(2 * small.den * dn <= 2 * small.den * df) by (nonlinear_arith)
        requires
            0 <= dn <= df,
            small.den >= 0,
    ;
    // 2 * ld * df * sd <= ln * span * sd follows from
    // 2 * sd * df <= sn * span and sn * ld <= ln * sd.
    assert(2 * large.den * df <= large.num * span) by (nonlinear_arith)
        requires
            2 * small.den * df <= small.num * span,
            small.num * large.den <= large.num * small.den,
            small.den > 0,
            large.den >= 0,
            large.num >= 0,
            small.num >= 0,
            df >= 0,
            span > 0,
    ;
}

/// The time just before the first entry is never centered under a ratio of at
/// most one.
pub proof fn lemma_before_first_not_centered(w: QuatBuffer, ratio: Ratio)
    requires
        w.wf(),
        0 < ratio.den,
        ratio.num <= ratio.den,
    ensures
        !w.centered(w.first() - 1, ratio),
{
    if w.span() != 0 {
        let dist = vstd::math::abs(w.first() - 1 - w.mid());
        assert(2 * dist > w.span());
        assert(2 * ratio.den * dist > ratio.num * w.span()) by (nonlinear_arith)
            requires
                2 * dist > w.span(),
                w.span() > 0,
                0 < ratio.den,
                0 <= ratio.num <= ratio.den,
        ;
    }
}

/// Every entry of the collected table lies in the range and has a finite
/// orientation.
pub proof fn lemma_collect_values(samples: Seq<CsvQuatSample>, start: int, end: int)
    ensures
        forall|t: i64| #[trigger]
            collect(samples, start, end).contains_key(t) ==> start <= t <= end && collect(
                samples,
                start,
                end,
            )[t].finite(),
    decreases samples.len(),
{
    if samples.len() > 0 {
        let init = collect(samples.drop_last(), start, end);
        let m = collect(samples, start, end);
        let s = samples.last();
        lemma_collect_values(samples.drop_last(), start, end);
        assert forall|t: i64| #[trigger] m.contains_key(t) implies start <= t <= end
            && m[t].finite() by {
            if eligible(s, start, end) && s.t_us == t {
            } else {
                assert(init.contains_key(t));
                assert(m[t] == init[t]);
            }
        }
    }
}

/// The timestamps of the collected table are those of the eligible samples,
/// and each maps to the orientation of the last eligible sample that has it.
pub proof fn lemma_collect_keys(samples: Seq<CsvQuatSample>, start: int, end: int)
    ensures
        forall|t: i64| #[trigger]
            collect(samples, start, end).contains_key(t) <==> exists|i: int|
                0 <= i < samples.len() && eligible(#[trigger] samples[i], start, end)
                    && samples[i].t_us == t,
        forall|i: int|
            0 <= i < samples.len() && eligible(#[trigger] samples[i], start, end) && (forall|j: int|
                i < j < samples.len() && eligible(#[trigger] samples[j], start, end)
                    ==> samples[j].t_us != samples[i].t_us) ==> collect(
                samples,
                start,
                end,
            )[samples[i].t_us] == samples[i].quat(),
    decreases samples.len(),
{
    if samples.len() > 0 {
        let init = samples.drop_last();
        let s = samples.last();
        lemma_collect_keys(init, start, end);
        let m = collect(samples, start, end);
        assert forall|t: i64| #[trigger] m.contains_key(t) <==> exists|i: int|
            0 <= i < samples.len() && eligible(#[trigger] samples[i], start, end)
                && samples[i].t_us == t by {
            if m.contains_key(t) {
                if eligible(s, start, end) && s.t_us == t {
                    assert(samples[samples.len() - 1] == s);
                } else {
                    assert(collect(init, start, end).contains_key(t));
                    let i = choose|i: int|
                        0 <= i < init.len() && eligible(#[trigger] init[i], start, end)
                            && init[i].t_us == t;
                    assert(samples[i] == init[i]);
                }
            }
            if exists|i: int|
                0 <= i < samples.len() && eligible(#[trigger] samples[i], start, end)
                    && samples[i].t_us == t {
                let i = choose|i: int|
                    0 <= i < samples.len() && eligible(#[trigger] samples[i], start, end)
                        && samples[i].t_us == t;
                if i < samples.len() - 1 {
                    assert(init[i] == samples[i]);
                    assert(collect(init, start, end).contains_key(t));
                }
            }
        }
        assert forall|i: int|
            0 <= i < samples.len() && eligible(#[trigger] samples[i], start, end) && (forall|j: int|
                i < j < samples.len() && eligible(#[trigger] samples[j], start, end)
                    ==> samples[j].t_us != samples[i].t_us) implies m[samples[i].t_us]
            == samples[i].quat() by {
            if i < samples.len() - 1 {
                assert(init[i] == samples[i]);
                assert forall|j: int|
                    i < j < init.len() && eligible(#[trigger] init[j], start, end) implies init[j].t_us
                    != init[i].t_us by {
                    assert(samples[j] == init[j]);
                }
                if eligible(s, start, end) {
                    assert(samples[samples.len() - 1] == s);
                    assert(s.t_us != samples[i].t_us);
                }
            }
        }
    }
}

} // verus!
