//! The affine map from the sensor clock to the video clock.

use vstd::prelude::*;

verus! {

/// Denominator of the fixed-point scale: the scale is counted in parts per
/// billion.
pub const PPB: i64 = 1_000_000_000;

/// The integer nearest to `n / d`, halves rounded away from zero.
pub open spec fn round_half_away(n: int, d: int) -> int
    recommends
        d > 0,
{
    if n >= 0 {
        (2 * n + d) / (2 * d)
    } else {
        -((2 * (-n) + d) / (2 * d))
    }
}

/// `v` limited to the range of `i64`.
pub open spec fn clamp_to_i64(v: int) -> int {
    if v < i64::MIN {
        i64::MIN as int
    } else if v > i64::MAX {
        i64::MAX as int
    } else {
        v
    }
}

/// Converts milliseconds to microseconds; a result outside the range of `i64`
/// is replaced by the nearest end of the range.
pub fn ms_to_us(ms: i64) -> (us: i64)
    ensures
        us == clamp_to_i64(ms * 1000),
{
    let v: i128 = (ms as i128) * 1000;
    if v < i64::MIN as i128 {
        i64::MIN
    } else if v > i64::MAX as i128 {
        i64::MAX
    } else {
        v as i64
    }
}

/// Linear mapping from sensor time to video time, both in microseconds:
/// `video = round(a * sensor + b)`, where `a` is `a_ppb / 1_000_000_000`.
#[derive(Clone, Copy, Debug)]
pub struct LiveClockSync {
    /// Scale, in parts per billion.
    pub a_ppb: i64,
    /// Offset, in microseconds.
    pub b_us: i64,
}

impl LiveClockSync {
    /// The video time of a sensor time: the scaled time shifted by the
    /// offset, then rounded to the nearest microsecond, halves away from
    /// zero, and limited to the range of `i64`.
    pub open spec fn video_us(self, sensor_us: int) -> int {
        clamp_to_i64(round_half_away(self.a_ppb * sensor_us + self.b_us * PPB, PPB as int))
    }

    /// A mapping with the given scale and offset.
    pub fn new(a_ppb: i64, b_us: i64) -> (r: LiveClockSync)
        ensures
            r == (LiveClockSync { a_ppb, b_us }),
    {
        LiveClockSync { a_ppb, b_us }
    }

    /// The mapping under which both clocks agree.
    pub fn identity() -> (r: LiveClockSync)
        ensures
            r == (LiveClockSync { a_ppb: PPB, b_us: 0 }),
            forall|t: i64| #[trigger] r.video_us(t as int) == t,
    {
        let r = LiveClockSync { a_ppb: PPB, b_us: 0 };
        assert forall|t: i64| #[trigger] r.video_us(t as int) == t by {
            assert(r.a_ppb * t + r.b_us * PPB == PPB * t);
            lemma_round_exact(t as int, PPB as int);
        }
        r
    }

    /// Converts a sensor timestamp to the video clock.
    pub fn to_video_us(&self, sensor_us: i64) -> (r: i64)
        ensures
            r == self.video_us(sensor_us as int),
    {
        proof {
            lemma_product_bound(self.a_ppb as int, sensor_us as int);
        }
        let p: i128 = (self.a_ppb as i128) * (sensor_us as i128) + (self.b_us as i128)
            * 1_000_000_000;
        let d: u128 = PPB as u128;
        let negative: bool = p < 0;
        let m: u128 = if negative {
            (-p) as u128
        } else {
            p as u128
        };
        let q: u128 = m / d;
        let rem: u128 = m % d;
        let rounded: u128 = if 2 * rem >= d {
            q + 1
        } else {
            q
        };
        proof {
            lemma_round_split(m as int, d as int);
        }
        let v: i128 = if negative {
            -(rounded as i128)
        } else {
            rounded as i128
        };
        if v < i64::MIN as i128 {
            i64::MIN
        } else if v > i64::MAX as i128 {
            i64::MAX
        } else {
            v as i64
        }
    }
}

impl Default for LiveClockSync {
    /// The mapping that sends every sensor time to zero.
    fn default() -> (r: LiveClockSync)
        ensures
            r == (LiveClockSync { a_ppb: 0, b_us: 0 }),
    {
        LiveClockSync { a_ppb: 0, b_us: 0 }
    }
}

/// The product of two 64-bit signed integers stays within 127 bits.
pub proof fn lemma_product_bound(a: int, b: int)
    requires
        i64::MIN <= a <= i64::MAX,
        i64::MIN <= b <= i64::MAX,
    ensures
        -0x4000_0000_0000_0000_0000_0000_0000_0000 <= a * b
            <= 0x4000_0000_0000_0000_0000_0000_0000_0000,
{
    assert(-0x4000_0000_0000_0000_0000_0000_0000_0000 <= a * b
        <= 0x4000_0000_0000_0000_0000_0000_0000_0000) by (nonlinear_arith)
        requires
            -0x8000_0000_0000_0000 <= a <= 0x8000_0000_0000_0000,
            -0x8000_0000_0000_0000 <= b <= 0x8000_0000_0000_0000,
    ;
}

/// Rounding a non-negative quotient: one more than the floor exactly when the
/// remainder is at least half the divisor.
pub proof fn lemma_round_split(m: int, d: int)
    requires
        m >= 0,
        d > 0,
    ensures
        round_half_away(m, d) == m / d + if 2 * (m % d) >= d { 1int } else { 0int },
        round_half_away(-m, d) == -round_half_away(m, d),
{
    let q = m / d;
    let r = m % d;
    assert(m == d * q + r) by {
        vstd::arithmetic::div_mod::lemma_fundamental_div_mod(m, d);
    }
    assert(0 <= r < d) by {
        vstd::arithmetic::div_mod::lemma_mod_bound(m, d);
    }
    let k = if 2 * r >= d { 1int } else { 0int };
    let rest = 2 * r + d - k * (2 * d);
    assert(0 <= rest < 2 * d);
    assert(2 * m + d == (2 * d) * (q + k) + rest) by (nonlinear_arith)
        requires
            m == d * q + r,
            rest == 2 * r + d - k * (2 * d),
    ;
    vstd::arithmetic::div_mod::lemma_fundamental_div_mod_converse(2 * m + d, 2 * d, q + k, rest);
}

/// A multiple of the divisor rounds to its exact quotient.
pub proof fn lemma_round_exact(t: int, d: int)
    requires
        d > 0,
    ensures
        round_half_away(d * t, d) == t,
{
    let m = if t >= 0 { t } else { -t };
    assert(d * m >= 0) by (nonlinear_arith)
        requires
            d > 0,
            m >= 0,
    ;
    assert(d * t == if t >= 0 { d * m } else { -(d * m) }) by (nonlinear_arith)
        requires
            m == if t >= 0 { t } else { -t },
    ;
    lemma_round_split(d * m, d);
    assert((d * m) % d == 0 && (d * m) / d == m) by {
        assert(d * m == m * d + 0) by (nonlinear_arith);
        vstd::arithmetic::div_mod::lemma_fundamental_div_mod_converse(d * m, d, m, 0);
    }
}

} // verus!
