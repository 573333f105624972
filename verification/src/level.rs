//! The logging level of an event or span.
use vstd::prelude::*;

verus! {

/// The five ranked logging levels, serialized on the wire as the small
/// integers 0 (Trace) through 4 (Error).
#[derive(Copy, Clone, Debug, PartialEq, Eq, Structural)]
pub enum Level {
    Trace,
    Debug,
    Info,
    Warn,
    Error,
}

impl Level {
    /// The wire rank of this level: 0 for Trace up to 4 for Error.
    pub open spec fn rank(self) -> u8 {
        match self {
            Level::Trace => 0,
            Level::Debug => 1,
            Level::Info => 2,
            Level::Warn => 3,
            Level::Error => 4,
        }
    }

    /// The level with a given wire rank, if the rank is in range.
    pub open spec fn from_rank(r: u8) -> Option<Level> {
        if r == 0 {
            Some(Level::Trace)
        } else if r == 1 {
            Some(Level::Debug)
        } else if r == 2 {
            Some(Level::Info)
        } else if r == 3 {
            Some(Level::Warn)
        } else if r == 4 {
            Some(Level::Error)
        } else {
            None
        }
    }

    /// The wire rank, as executable code.
    pub fn as_u8(self) -> (r: u8)
        ensures
            r == self.rank(),
    {
        match self {
            Level::Trace => 0,
            Level::Debug => 1,
            Level::Info => 2,
            Level::Warn => 3,
            Level::Error => 4,
        }
    }

    /// Recover a level from its wire rank; `None` for a rank above 4.
    pub fn from_u8(r: u8) -> (l: Option<Level>)
        ensures
            l == Level::from_rank(r),
            l is Some ==> l->Some_0.rank() == r,
    {
        if r == 0 {
            Some(Level::Trace)
        } else if r == 1 {
            Some(Level::Debug)
        } else if r == 2 {
            Some(Level::Info)
        } else if r == 3 {
            Some(Level::Warn)
        } else if r == 4 {
            Some(Level::Error)
        } else {
            None
        }
    }
}

/// Recovering a level from the rank a level serializes to gives the level back.
pub proof fn lemma_level_rank_round_trip(l: Level)
    ensures
        Level::from_rank(l.rank()) == Some(l),
{
}

} // verus!
