use vstd::prelude::*;
use std::collections::HashSet;
use crate::discovery::{record_event, skew_of, BlockTimes, BlockTimesView};
use crate::event::{BlockEvent, Dispatch, Outcome};
use crate::nonce::NonceAllocator;

verus! {

broadcast use vstd::std_specs::hash::group_hash_axioms;

/// A configuration the engine rejects at construction time.
#[derive(Clone, Copy, PartialEq, Eq, Structural, Debug)]
pub enum ConfigError {
    /// The trigger interval is zero, so the modulo trigger rule is undefined.
    ZeroInterval,
}

/// The mathematical content of an [`Engine`].
#[verifier::ext_equal]
pub ghost struct EngineView {
    /// Trigger interval: a block dispatches only if its number is a multiple.
    pub tx_each: u64,
    /// Global budget: at most this many dispatches over the whole run.
    pub tx_total: u64,
    /// The recorded observation times per source.
    pub times: BlockTimesView,
    /// Block numbers that have already gone through the trigger decision.
    pub processed: Set<u64>,
    /// How many dispatches have been triggered so far.
    pub dispatched: u64,
    /// The nonce handed to the first dispatch.
    pub nonce_seed: u64,
    /// Whether the run has shut down: a closed engine ignores every event.
    pub closed: bool,
}

impl EngineView {
    /// The nonce the next dispatch would carry.
    pub open spec fn next_nonce(self) -> int {
        self.nonce_seed + self.dispatched
    }

    pub open spec fn wf(self) -> bool {
        &&& self.tx_each > 0
        &&& self.dispatched <= self.tx_total
        &&& self.nonce_seed + self.tx_total <= u64::MAX
    }
}

/// The engine state after handling one event: a closed engine is unchanged;
/// otherwise the observation is recorded, the block number enters the
/// processed set, and the dispatch counter advances if the trigger rule
/// fired.
pub open spec fn step(s: EngineView, e: BlockEvent) -> EngineView {
    if s.closed {
        s
    } else {
        let t = record_event(s.times, e);
        if s.processed.contains(e.number) {
            EngineView { times: t, ..s }
        } else if e.number % s.tx_each == 0 && s.dispatched < s.tx_total {
            EngineView {
                times: t,
                processed: s.processed.insert(e.number),
                dispatched: (s.dispatched + 1) as u64,
                ..s
            }
        } else {
            EngineView { times: t, processed: s.processed.insert(e.number), ..s }
        }
    }
}

/// The skew sample reported for one event: defined once both sources have
/// reported the event's block, from the first-recorded time of each source.
pub open spec fn step_skew(s: EngineView, e: BlockEvent) -> Option<i128> {
    if s.closed {
        None
    } else {
        skew_of(record_event(s.times, e), e.number)
    }
}

/// The dispatch triggered by one event: exactly when the engine is open, the
/// block is newly seen, its number is a multiple of `tx_each`, and the budget
/// is not exhausted. The dispatch carries the next unissued nonce.
pub open spec fn step_dispatch(s: EngineView, e: BlockEvent) -> Option<Dispatch> {
    if !s.closed && !s.processed.contains(e.number) && e.number % s.tx_each == 0
        && s.dispatched < s.tx_total {
        Some(Dispatch { block: e.number, nonce: s.next_nonce() as u64 })
    } else {
        None
    }
}

/// The engine state after handling a whole sequence of events in order.
pub open spec fn run_state(s: EngineView, evs: Seq<BlockEvent>) -> EngineView
    decreases evs.len(),
{
    if evs.len() == 0 {
        s
    } else {
        run_state(step(s, evs[0]), evs.drop_first())
    }
}

/// An optional dispatch as a sequence of zero or one elements.
pub open spec fn dispatch_seq(d: Option<Dispatch>) -> Seq<Dispatch> {
    match d {
        Some(d0) => seq![d0],
        None => Seq::empty(),
    }
}

/// All dispatches triggered while handling a sequence of events in order.
pub open spec fn run_dispatches(s: EngineView, evs: Seq<BlockEvent>) -> Seq<Dispatch>
    decreases evs.len(),
{
    if evs.len() == 0 {
        Seq::empty()
    } else {
        dispatch_seq(step_dispatch(s, evs[0])) + run_dispatches(step(s, evs[0]), evs.drop_first())
    }
}

/// Merges the two sources' block reports into one deduplicated trigger
/// stream and decides, under the global budget, which blocks dispatch a
/// transaction with which nonce. Single-consumer: the caller feeds it the
/// merged event stream one event at a time.
pub struct Engine {
    tx_each: u64,
    tx_total: u64,
    times: BlockTimes,
    processed: HashSet<u64>,
    dispatched: u64,
    nonces: NonceAllocator,
    closed: bool,
}

impl View for Engine {
    type V = EngineView;

    closed spec fn view(&self) -> EngineView {
        EngineView {
            tx_each: self.tx_each,
            tx_total: self.tx_total,
            times: self.times@,
            processed: self.processed@,
            dispatched: self.dispatched,
            nonce_seed: self.nonces.seed(),
            closed: self.closed,
        }
    }
}

impl Engine {
    /// Ties the private counters together and carries the view invariant:
    /// established by `new`, preserved by every method.
    pub closed spec fn wf(self) -> bool {
        &&& self@.wf()
        &&& self.nonces.issued() == self@.dispatched
        &&& self.nonces.seed() == self@.nonce_seed
    }

    /// A well-formed engine has a well-formed view.
    pub proof fn lemma_wf_view(self)
        requires
            self.wf(),
        ensures
            self@.wf(),
    {
    }

    /// Build an engine for a run of at most `tx_total` dispatches, triggering
    /// on multiples of `tx_each`, with nonces seeded from the account's
    /// confirmed transaction count. Fails exactly when `tx_each` is zero,
    /// before any event is handled.
    pub fn new(tx_each: u64, tx_total: u64, nonce_seed: u64) -> (r: Result<Engine, ConfigError>)
        requires
            nonce_seed + tx_total <= u64::MAX,
        ensures
            r is Err <==> tx_each == 0,
            r is Err ==> r->Err_0 == ConfigError::ZeroInterval,
            r is Ok ==> ({
                let en = r->Ok_0;
                &&& en.wf()
                &&& en@ == (EngineView {
                    tx_each,
                    tx_total,
                    times: BlockTimesView {
                        subscribe: Map::<u64, u64>::empty(),
                        poll: Map::<u64, u64>::empty(),
                    },
                    processed: Set::<u64>::empty(),
                    dispatched: 0,
                    nonce_seed,
                    closed: false,
                })
            }),
    {
        if tx_each == 0 {
            return Err(ConfigError::ZeroInterval);
        }
        let en = Engine {
            tx_each,
            tx_total,
            times: BlockTimes::new(),
            processed: HashSet::new(),
            dispatched: 0,
            nonces: NonceAllocator::new(nonce_seed),
            closed: false,
        };
        proof {
            assert(en@ =~= (EngineView {
                tx_each,
                tx_total,
                times: BlockTimesView {
                    subscribe: Map::<u64, u64>::empty(),
                    poll: Map::<u64, u64>::empty(),
                },
                processed: Set::<u64>::empty(),
                dispatched: 0,
                nonce_seed,
                closed: false,
            }));
        }
        Ok(en)
    }

    /// Handle one event from the merged stream: record its observation time
    /// (first observation per source wins), report the discovery skew if both
    /// sources have now seen this block, and trigger a dispatch exactly when
    /// the block is newly seen, a multiple of `tx_each`, and the budget
    /// allows.
    pub fn handle_event(&mut self, e: BlockEvent) -> (out: Outcome)
        requires
            old(self).wf(),
        ensures
            final(self).wf(),
            final(self)@ == step(old(self)@, e),
            out.skew == step_skew(old(self)@, e),
            out.dispatch == step_dispatch(old(self)@, e),
    {
        if self.closed {
            return Outcome { skew: None, dispatch: None };
        }
        self.times.record(e);
        let skew = self.times.skew(e.number);
        let dispatch: Option<Dispatch>;
        if self.processed.contains(&e.number) {
            dispatch = None;
        } else {
            self.processed.insert(e.number);
            if e.number % self.tx_each == 0 && self.dispatched < self.tx_total {
                let nonce = self.nonces.allocate();
                self.dispatched = self.dispatched + 1;
                dispatch = Some(Dispatch { block: e.number, nonce });
            } else {
                dispatch = None;
            }
        }
        proof {
            assert(self@ =~= step(old(self)@, e));
        }
        Outcome { skew, dispatch }
    }

    /// Shut the run down: every later event is ignored and triggers nothing.
    pub fn close(&mut self)
        requires
            old(self).wf(),
        ensures
            final(self).wf(),
            final(self)@ == (EngineView { closed: true, ..old(self)@ }),
    {
        self.closed = true;
        proof {
            assert(self@ =~= (EngineView { closed: true, ..old(self)@ }));
        }
    }

    /// How many dispatches have been triggered so far.
    pub fn dispatched(&self) -> (r: u64)
        ensures
            r == self@.dispatched,
    {
        self.dispatched
    }

    /// Whether the run has shut down.
    pub fn is_closed(&self) -> (r: bool)
        ensures
            r == self@.closed,
    {
        self.closed
    }

    /// Feed the engine a whole event stream in order and collect every
    /// dispatch it triggers.
    pub fn process_all(&mut self, events: &Vec<BlockEvent>) -> (ds: Vec<Dispatch>)
        requires
            old(self).wf(),
        ensures
            final(self).wf(),
            final(self)@ == run_state(old(self)@, events@),
            ds@ == run_dispatches(old(self)@, events@),
    {
        let mut ds: Vec<Dispatch> = Vec::new();
        let n = events.len();
        let mut i: usize = 0;
        while i < n
            invariant
                self.wf(),
                n == events@.len(),
                0 <= i <= n,
                self@ == run_state(old(self)@, events@.take(i as int)),
                ds@ == run_dispatches(old(self)@, events@.take(i as int)),
            decreases n - i,
        {
            let e = events[i];
            let out = self.handle_event(e);
            if let Some(d) = out.dispatch {
                ds.push(d);
            }
            proof {
                lemma_run_step_last(old(self)@, events@.take(i + 1 as int));
                assert(events@.take(i + 1 as int).drop_last() =~= events@.take(i as int));
                assert(events@.take(i + 1 as int).last() == events@[i as int]);
            }
            i = i + 1;
        }
        proof {
            assert(events@.take(n as int) =~= events@);
        }
        ds
    }
}

/// Unrolling a run from the far end: handling `evs` is handling all but the
/// last event, then the last.
pub proof fn lemma_run_step_last(s: EngineView, evs: Seq<BlockEvent>)
    requires
        evs.len() > 0,
    ensures
        run_state(s, evs) == step(run_state(s, evs.drop_last()), evs.last()),
        run_dispatches(s, evs) == run_dispatches(s, evs.drop_last()) + dispatch_seq(
            step_dispatch(run_state(s, evs.drop_last()), evs.last()),
        ),
    decreases evs.len(),
{
    if evs.len() == 1 {
        let e = evs[0];
        assert(evs.last() == e);
        assert(evs.drop_last() =~= Seq::<BlockEvent>::empty());
        assert(run_state(s, evs.drop_last()) == s);
        assert(run_state(s, evs) == run_state(step(s, e), evs.drop_first()));
        assert(evs.drop_first().len() == 0);
        assert(run_state(step(s, e), evs.drop_first()) == step(s, e));
        assert(run_dispatches(step(s, e), evs.drop_first()) == Seq::<Dispatch>::empty());
        assert(run_dispatches(s, evs) =~= dispatch_seq(step_dispatch(s, e)));
        assert(run_dispatches(s, evs.drop_last()) == Seq::<Dispatch>::empty());
        assert(run_dispatches(s, evs.drop_last()) + dispatch_seq(step_dispatch(s, e))
            =~= dispatch_seq(step_dispatch(s, e)));
    } else {
        let s1 = step(s, evs[0]);
        let rest = evs.drop_first();
        lemma_run_step_last(s1, rest);
        assert(rest.drop_last() =~= evs.drop_last().drop_first());
        assert(rest.last() == evs.last());
        assert(evs.drop_last().len() > 0);
        assert(evs.drop_last()[0] == evs[0]);
        assert(run_state(s, evs.drop_last()) == run_state(s1, evs.drop_last().drop_first()));
        assert(run_dispatches(s, evs.drop_last()) == dispatch_seq(step_dispatch(s, evs[0]))
            + run_dispatches(s1, evs.drop_last().drop_first()));
        assert(run_dispatches(s, evs) == dispatch_seq(step_dispatch(s, evs[0]))
            + run_dispatches(s1, rest));
        assert(run_dispatches(s, evs) =~= run_dispatches(s, evs.drop_last()) + dispatch_seq(
            step_dispatch(run_state(s, evs.drop_last()), evs.last()),
        ));
    }
}

/// The run invariant behind the dedup, budget and nonce laws: over any event
/// sequence, the dispatch counter counts exactly the dispatches triggered,
/// each dispatch carries the next consecutive nonce, and every dispatched
/// block was newly seen and is dispatched only once.
pub proof fn lemma_run_invariant(s: EngineView, evs: Seq<BlockEvent>)
    requires
        s.wf(),
    ensures
        ({
            let ds = run_dispatches(s, evs);
            let f = run_state(s, evs);
            &&& f.wf()
            &&& f.tx_each == s.tx_each
            &&& f.tx_total == s.tx_total
            &&& f.nonce_seed == s.nonce_seed
            &&& f.closed == s.closed
            &&& f.dispatched == s.dispatched + ds.len()
            &&& s.processed.subset_of(f.processed)
            &&& forall|i: int|
                0 <= i < ds.len() ==> (#[trigger] ds[i]).nonce == s.nonce_seed + s.dispatched + i
            &&& forall|i: int|
                0 <= i < ds.len() ==> !s.processed.contains((#[trigger] ds[i]).block)
            &&& forall|i: int|
                0 <= i < ds.len() ==> f.processed.contains((#[trigger] ds[i]).block)
            &&& forall|i: int, j: int|
                0 <= i < j < ds.len() ==> ds[i].block != ds[j].block
        }),
    decreases evs.len(),
{
    let ds = run_dispatches(s, evs);
    let f = run_state(s, evs);
    if evs.len() > 0 {
        let e = evs[0];
        let s1 = step(s, e);
        let rest = evs.drop_first();
        let d0 = step_dispatch(s, e);
        let h = dispatch_seq(d0);
        let dst = run_dispatches(s1, rest);
        assert(s1.wf());
        assert(s.processed.subset_of(s1.processed));
        lemma_run_invariant(s1, rest);
        assert(ds == h + dst);
        assert(ds.len() == h.len() + dst.len());
        assert forall|i: int|
            0 <= i < ds.len() implies (#[trigger] ds[i]).nonce == s.nonce_seed + s.dispatched
            + i by {
            if i < h.len() {
                assert(ds[i] == h[0]);
            } else {
                assert(ds[i] == dst[i - h.len()]);
            }
        }
        assert forall|i: int|
            0 <= i < ds.len() implies !s.processed.contains((#[trigger] ds[i]).block) by {
            if i < h.len() {
                assert(ds[i] == h[0]);
            } else {
                assert(ds[i] == dst[i - h.len()]);
                assert(!s1.processed.contains(ds[i].block));
            }
        }
        assert forall|i: int|
            0 <= i < ds.len() implies f.processed.contains((#[trigger] ds[i]).block) by {
            if i < h.len() {
                assert(ds[i] == h[0]);
                assert(s1.processed.contains(e.number));
                assert(s1.processed.subset_of(f.processed));
            } else {
                assert(ds[i] == dst[i - h.len()]);
            }
        }
        assert forall|i: int, j: int|
            0 <= i < j < ds.len() implies ds[i].block != ds[j].block by {
            if i < h.len() {
                assert(ds[i] == h[0]);
                assert(ds[i].block == e.number);
                assert(s1.processed.contains(e.number));
                assert(ds[j] == dst[j - h.len()]);
                assert(!s1.processed.contains(ds[j].block));
            } else {
                assert(ds[i] == dst[i - h.len()]);
                assert(ds[j] == dst[j - h.len()]);
            }
        }
    }
}

/// Budget law: over any event sequence, the engine never triggers more
/// dispatches than the remaining budget allows; from a fresh engine, never
/// more than `tx_total` in all.
pub proof fn lemma_budget(s: EngineView, evs: Seq<BlockEvent>)
    requires
        s.wf(),
    ensures
        s.dispatched + run_dispatches(s, evs).len() <= s.tx_total,
{
    lemma_run_invariant(s, evs);
}

/// Duplicate suppression: whatever order the two sources deliver their
/// observations in, and however often they repeat one, each block number
/// dispatches at most once.
pub proof fn lemma_dedup(s: EngineView, evs: Seq<BlockEvent>)
    requires
        s.wf(),
    ensures
        forall|i: int, j: int|
            0 <= i < j < run_dispatches(s, evs).len() ==> run_dispatches(s, evs)[i].block
                != run_dispatches(s, evs)[j].block,
{
    lemma_run_invariant(s, evs);
}

/// Nonce law: over any event sequence triggering `k` dispatches, the nonces
/// handed out are exactly `next_nonce, next_nonce + 1, ..., next_nonce + k - 1`
/// in issuance order — all distinct, strictly increasing, with no gaps.
pub proof fn lemma_nonces_consecutive(s: EngineView, evs: Seq<BlockEvent>)
    requires
        s.wf(),
    ensures
        ({
            let ds = run_dispatches(s, evs);
            &&& ds.map_values(|d: Dispatch| d.nonce) == Seq::new(
                ds.len(),
                |i: int| (s.next_nonce() + i) as u64,
            )
            &&& forall|i: int, j: int| 0 <= i < j < ds.len() ==> ds[i].nonce < ds[j].nonce
        }),
{
    lemma_run_invariant(s, evs);
    let ds = run_dispatches(s, evs);
    assert(s.next_nonce() + ds.len() <= u64::MAX);
    assert forall|i: int, j: int| 0 <= i < j < ds.len() implies ds[i].nonce < ds[j].nonce by {
        assert(ds[i].nonce == s.next_nonce() + i);
        assert(ds[j].nonce == s.next_nonce() + j);
    }
    assert(ds.map_values(|d: Dispatch| d.nonce) =~= Seq::new(
        ds.len(),
        |i: int| (s.next_nonce() + i) as u64,
    ));
}

/// Trigger law: for a newly seen block on an open engine, a dispatch fires if
/// and only if the block number is a multiple of `tx_each` and fewer than
/// `tx_total` dispatches have been triggered so far; when it fires it carries
/// that block and the next unissued nonce.
pub proof fn lemma_trigger(s: EngineView, e: BlockEvent)
    requires
        s.wf(),
        !s.closed,
        !s.processed.contains(e.number),
    ensures
        step_dispatch(s, e) is Some <==> (e.number % s.tx_each == 0 && s.dispatched < s.tx_total),
        step_dispatch(s, e) is Some ==> step_dispatch(s, e)->Some_0 == (Dispatch {
            block: e.number,
            nonce: s.next_nonce() as u64,
        }),
{
}

/// Shutdown law: once the engine is closed, no event sequence — stale
/// duplicates or fresh eligible blocks alike — triggers any dispatch, and the
/// state never changes again.
pub proof fn lemma_shutdown(s: EngineView, evs: Seq<BlockEvent>)
    requires
        s.closed,
    ensures
        run_dispatches(s, evs) == Seq::<Dispatch>::empty(),
        run_state(s, evs) == s,
    decreases evs.len(),
{
    if evs.len() > 0 {
        lemma_shutdown(s, evs.drop_first());
        assert(run_dispatches(s, evs) =~= Seq::<Dispatch>::empty());
    }
}

} // verus!
