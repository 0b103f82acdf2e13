//! Reading the time column of a line of the sensor feed.

use vstd::prelude::*;

verus! {

/// From this value on the time column counts nanoseconds; below it, it is a
/// sample index.
pub const NANOSECONDS_FROM: i128 = 1_000_000_000_000;

/// Time between two samples that are numbered and not timed: 30 Hz.
pub const SAMPLE_PERIOD_US: i64 = 33_333;

/// The sensor time in microseconds that a value of the time column stands
/// for. A value of at least 10^12 counts nanoseconds and is divided by 1000;
/// a smaller value numbers the sample, negative numbers counting as 0, and is
/// multiplied by the sample period. Either result is limited to the range of
/// `i64`.
pub open spec fn sensor_time(raw: int) -> int {
    if raw >= NANOSECONDS_FROM {
        if raw / 1000 > i64::MAX {
            i64::MAX as int
        } else {
            raw / 1000
        }
    } else if raw <= 0 {
        0
    } else {
        raw * SAMPLE_PERIOD_US
    }
}

/// Turns the value of the time column into a sensor time in microseconds.
pub fn sensor_time_us(raw: i128) -> (t: i64)
    ensures
        t == sensor_time(raw as int),
{
    if raw >= NANOSECONDS_FROM {
        let us: i128 = raw / 1000;
        if us > i64::MAX as i128 {
            i64::MAX
        } else {
            us as i64
        }
    } else if raw <= 0 {
        0
    } else {
        assert(0 < raw * 33_333 < 1_000_000_000_000 * 33_333) by (nonlinear_arith)
            requires
                0 < raw < 1_000_000_000_000,
        ;
        (raw * 33_333) as i64
    }
}

} // verus!
