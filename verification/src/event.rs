use vstd::prelude::*;

verus! {

/// Which discovery mechanism observed a block: the push subscription or the
/// polling loop.
#[derive(Clone, Copy, PartialEq, Eq, Structural, Debug)]
pub enum Source {
    Subscribe,
    Poll,
}

/// One observation of a block number by one source. `observed_at` is a
/// timestamp in milliseconds from a run-local origin; the caller supplies it
/// when the observation arrives.
#[derive(Clone, Copy, PartialEq, Eq, Structural, Debug)]
pub struct BlockEvent {
    pub number: u64,
    pub source: Source,
    pub observed_at: u64,
}

/// A decision to launch one transaction for a block, carrying the nonce
/// allocated to that dispatch.
#[derive(Clone, Copy, PartialEq, Eq, Structural, Debug)]
pub struct Dispatch {
    pub block: u64,
    pub nonce: u64,
}

/// What handling one event produced: a discovery-skew sample (poll time minus
/// subscribe time, in milliseconds) if both sources have now reported the
/// event's block, and a dispatch if the trigger rule fired.
#[derive(Clone, Copy, PartialEq, Eq, Debug)]
pub struct Outcome {
    pub skew: Option<i128>,
    pub dispatch: Option<Dispatch>,
}

} // verus!
