//! The event bus's data: what flows to the router, and the reload
//! version counter that debounces bursts of dirty marks.

use vstd::prelude::*;
use crate::msg::Message;

verus! {

/// A reload version: a point in the monotonically increasing counter.
#[derive(Clone, Copy, PartialEq, Eq, Structural)]
pub struct Version(pub usize);

/// What the router consumes: traffic from either peer, a line of the
/// backend's log, or a dirty mark from the script cache.
pub enum Event {
    ClientToServer(Message),
    ServerToClient(Message),
    ServerLog(Vec<u8>),
    NeedReload(Version),
}

/// The process-wide reload version counter.  It only ever grows; at
/// the top of its range it stays there.
pub struct VersionCounter {
    pub v: usize,
}

impl VersionCounter {
    pub fn new() -> (r: VersionCounter)
        ensures
            r.v == 0,
    {
        VersionCounter { v: 0 }
    }

    /// The version a dirty mark is stamped with.
    pub fn current_version(&self) -> (r: Version)
        ensures
            r.0 == self.v,
    {
        Version(self.v)
    }

    /// Name a fresh version that the router has committed to flushing:
    /// the counter grows by one (saturating at the top) and the new
    /// value is returned.
    pub fn start_reload(&mut self) -> (r: Version)
        ensures
            final(self).v == if old(self).v < usize::MAX {
                old(self).v + 1
            } else {
                usize::MAX as int
            },
            r.0 == final(self).v,
            old(self).v <= final(self).v,
    {
        if self.v < usize::MAX {
            self.v = self.v + 1;
        }
        Version(self.v)
    }
}

} // verus!
