//! The settings of a run, and what a run does after each render.

use vstd::prelude::*;

verus! {

/// The settings of a run.
#[derive(Clone, Debug, PartialEq, Eq)]
pub struct RenderArgs {
    /// The file to write the picture to, in place of pushing it.
    pub debug: Option<String>,
    /// Seconds to wait before the picture is rendered again.
    pub retry: Option<u64>,
}

/// What follows a render.
#[derive(Clone, Copy, Debug, PartialEq, Eq, Structural)]
pub enum Next {
    /// The run is over.
    Stop,
    /// Wait this many seconds, then render again.
    WaitSeconds(u64),
}

impl RenderArgs {
    pub fn new(debug: Option<String>, retry: Option<u64>) -> (args: RenderArgs)
        ensures
            args.debug == debug,
            args.retry == retry,
    {
        RenderArgs { debug, retry }
    }

    /// What follows a render under these settings: a run that writes a debug file renders
    /// once; any other run renders again after the retry time, if it has one.
    pub open spec fn next(&self) -> Next {
        if self.debug is Some {
            Next::Stop
        } else {
            match self.retry {
                Some(seconds) => Next::WaitSeconds(seconds),
                None => Next::Stop,
            }
        }
    }

    /// What follows a render under these settings.
    pub fn after_render(&self) -> (next: Next)
        ensures
            next == self.next(),
    {
        if self.debug.is_some() {
            Next::Stop
        } else {
            match self.retry {
                Some(seconds) => Next::WaitSeconds(seconds),
                None => Next::Stop,
            }
        }
    }
}

} // verus!
