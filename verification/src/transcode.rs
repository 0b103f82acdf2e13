//! Settings that the transcoder hands to its per-frame callback.

use vstd::prelude::*;

verus! {

/// Whether frames are processed before or after the pixel format conversion.
#[derive(Clone, Copy, Debug, PartialEq, Eq, Structural)]
pub enum ProcessingOrder {
    PreConversion,
    PostConversion,
}

impl Default for ProcessingOrder {
    /// Processing comes before the conversion.
    fn default() -> (r: ProcessingOrder)
        ensures
            r == ProcessingOrder::PreConversion,
    {
        ProcessingOrder::PreConversion
    }
}

/// How often, and at which times, a processed frame is written out.
#[derive(Clone, Copy, Debug)]
pub struct RateControl {
    pub out_timestamp_us: i64,
    pub repeat_times: i64,
    pub repeat_interval: i64,
}

impl Default for RateControl {
    /// Each frame once, at timestamp zero.
    fn default() -> (r: RateControl)
        ensures
            r == (RateControl { out_timestamp_us: 0, repeat_times: 1, repeat_interval: 0 }),
    {
        RateControl { out_timestamp_us: 0, repeat_times: 1, repeat_interval: 0 }
    }
}

} // verus!
