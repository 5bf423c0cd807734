use vstd::prelude::*;
use std::collections::HashMap;
use crate::event::{BlockEvent, Source};

verus! {

broadcast use vstd::std_specs::hash::group_hash_axioms;

/// The mathematical content of a [`BlockTimes`]: for each source, a partial
/// map from block number to the timestamp of its first observation.
#[verifier::ext_equal]
pub ghost struct BlockTimesView {
    pub subscribe: Map<u64, u64>,
    pub poll: Map<u64, u64>,
}

/// Recording an observation: the first observation of a block by a source
/// wins; a later duplicate from the same source changes nothing.
pub open spec fn record_time(m: Map<u64, u64>, number: u64, t: u64) -> Map<u64, u64> {
    if m.contains_key(number) {
        m
    } else {
        m.insert(number, t)
    }
}

/// How one incoming event updates the recorded times.
pub open spec fn record_event(v: BlockTimesView, e: BlockEvent) -> BlockTimesView {
    match e.source {
        Source::Subscribe => BlockTimesView {
            subscribe: record_time(v.subscribe, e.number, e.observed_at),
            poll: v.poll,
        },
        Source::Poll => BlockTimesView {
            subscribe: v.subscribe,
            poll: record_time(v.poll, e.number, e.observed_at),
        },
    }
}

/// The discovery-skew sample for a block: poll time minus subscribe time,
/// defined once both sources have reported the block. Positive means the
/// poll loop saw the block later than the subscription did.
pub open spec fn skew_of(v: BlockTimesView, number: u64) -> Option<i128> {
    if v.subscribe.contains_key(number) && v.poll.contains_key(number) {
        Some((v.poll[number] - v.subscribe[number]) as i128)
    } else {
        None
    }
}

/// Per block number, at most one recorded observation time per source, each
/// set at most once: the first observation wins and later duplicates are
/// ignored. Entries are never removed.
pub struct BlockTimes {
    subscribe_times: HashMap<u64, u64>,
    poll_times: HashMap<u64, u64>,
}

impl View for BlockTimes {
    type V = BlockTimesView;

    closed spec fn view(&self) -> BlockTimesView {
        BlockTimesView { subscribe: self.subscribe_times@, poll: self.poll_times@ }
    }
}

impl BlockTimes {
    pub fn new() -> (r: BlockTimes)
        ensures
            r@.subscribe == Map::<u64, u64>::empty(),
            r@.poll == Map::<u64, u64>::empty(),
    {
        BlockTimes { subscribe_times: HashMap::new(), poll_times: HashMap::new() }
    }

    /// Record one observation, first observation per `(number, source)`
    /// winning.
    pub fn record(&mut self, e: BlockEvent)
        ensures
            final(self)@ == record_event(old(self)@, e),
    {
        match e.source {
            Source::Subscribe => {
                if !self.subscribe_times.contains_key(&e.number) {
                    self.subscribe_times.insert(e.number, e.observed_at);
                }
            },
            Source::Poll => {
                if !self.poll_times.contains_key(&e.number) {
                    self.poll_times.insert(e.number, e.observed_at);
                }
            },
        }
        proof {
            assert(self@ =~= record_event(old(self)@, e));
        }
    }

    /// The skew sample for a block, if both sources have reported it.
    pub fn skew(&self, number: u64) -> (r: Option<i128>)
        ensures
            r == skew_of(self@, number),
    {
        match (self.subscribe_times.get(&number), self.poll_times.get(&number)) {
            (Some(s), Some(p)) => Some((*p as i128) - (*s as i128)),
            _ => None,
        }
    }
}

} // verus!
