//! The preview player: what it shows, and whether a request to start it can
//! be met.

use vstd::prelude::*;

verus! {

/// Size and rate of the frames that the preview player shows.
#[derive(Clone, Copy, Debug, PartialEq, Eq, Structural)]
pub struct FProps {
    pub width: u32,
    pub height: u32,
    pub fps: u32,
}

/// What a request to start the player leads to.
#[derive(Clone, Copy, Debug, PartialEq, Eq, Structural)]
pub enum InitStep {
    /// No player runs: start one.
    Start,
    /// A player with these settings runs already: nothing to do.
    Keep,
    /// A player with other settings runs: the request fails.
    Conflict,
}

/// Decides a request to start the player with the settings `want` while
/// `running` tells what runs now.
pub fn init_step(running: Option<FProps>, want: FProps) -> (step: InitStep)
    ensures
        step == match running {
            None => InitStep::Start,
            Some(p) => if p == want {
                InitStep::Keep
            } else {
                InitStep::Conflict
            },
        },
{
    match running {
        None => InitStep::Start,
        Some(p) => {
            if p.width == want.width && p.height == want.height && p.fps == want.fps {
                InitStep::Keep
            } else {
                InitStep::Conflict
            }
        },
    }
}

} // verus!
