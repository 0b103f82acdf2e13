//! The choice among the optical flow methods.

use vstd::prelude::*;

verus! {

/// The optical flow methods there are.
#[derive(Clone, Copy, Debug, PartialEq, Eq, Structural)]
pub enum OpticalFlowMethod {
    OFAkaze,
    OFOpenCVPyrLK,
    OFOpenCVDis,
}

impl OpticalFlowMethod {
    /// The method that the number `method` names: 0, 1 and 2 name the three
    /// methods in their order. Any other number is unknown and falls back to
    /// the first method; the flag tells whether the number was known.
    pub fn from_number(method: u32) -> (r: (OpticalFlowMethod, bool))
        ensures
            r == match method {
                0u32 => (OpticalFlowMethod::OFAkaze, true),
                1u32 => (OpticalFlowMethod::OFOpenCVPyrLK, true),
                2u32 => (OpticalFlowMethod::OFOpenCVDis, true),
                _ => (OpticalFlowMethod::OFAkaze, false),
            },
    {
        match method {
            0 => (OpticalFlowMethod::OFAkaze, true),
            1 => (OpticalFlowMethod::OFOpenCVPyrLK, true),
            2 => (OpticalFlowMethod::OFOpenCVDis, true),
            _ => (OpticalFlowMethod::OFAkaze, false),
        }
    }
}

} // verus!
