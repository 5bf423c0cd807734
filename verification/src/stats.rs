use vstd::prelude::*;
use vstd::arithmetic::div_mod::{lemma_div_by_multiple, lemma_div_is_ordered};
use vstd::multiset::Multiset;
use vstd::relations::{sorted_by, total_ordering};

verus! {

broadcast use vstd::seq_lib::group_to_multiset_ensures, vstd::multiset::group_multiset_axioms;

/// Statistics are defined only for at least one completed dispatch; an empty
/// log is reported as an error, not as a zero-valued report.
#[derive(Clone, Copy, PartialEq, Eq, Structural, Debug)]
pub enum StatsError {
    Empty,
}

/// Summary of the per-dispatch latencies of a finished run, all in the unit
/// the durations were recorded in.
#[derive(Clone, Copy, PartialEq, Eq, Structural, Debug)]
pub struct Stats {
    /// How many durations were aggregated.
    pub total: u64,
    /// Sum divided by count, rounded towards zero.
    pub mean: u64,
    /// The element at index `total / 2` of the ascending sort: for even
    /// counts this is the upper of the two middle elements.
    pub median: u64,
    pub min: u64,
    pub max: u64,
}

/// Ascending order on durations.
pub open spec fn le_u64() -> spec_fn(u64, u64) -> bool {
    |a: u64, b: u64| a <= b
}

/// The sum of a sequence of durations.
pub open spec fn sum_of(s: Seq<u64>) -> int
    decreases s.len(),
{
    if s.len() == 0 {
        0
    } else {
        s[0] + sum_of(s.drop_first())
    }
}

/// The ascending sort of a sequence of durations.
pub open spec fn sorted_ascending(s: Seq<u64>) -> Seq<u64> {
    s.sort_by(le_u64())
}

/// What a correct summary of the durations `s` states.
pub open spec fn stats_correct(s: Seq<u64>, st: Stats) -> bool {
    &&& st.total == s.len()
    &&& st.mean == sum_of(s) / s.len() as int
    &&& st.median == sorted_ascending(s)[s.len() as int / 2]
    &&& s.contains(st.min)
    &&& forall|i: int| 0 <= i < s.len() ==> st.min <= #[trigger] s[i]
    &&& s.contains(st.max)
    &&& forall|i: int| 0 <= i < s.len() ==> #[trigger] s[i] <= st.max
}

/// Appending a duration adds it to the sum.
proof fn lemma_sum_push(s: Seq<u64>, v: u64)
    ensures
        sum_of(s.push(v)) == sum_of(s) + v,
    decreases s.len(),
{
    if s.len() == 0 {
        assert(s.push(v)[0] == v);
        assert(s.push(v).drop_first() =~= Seq::<u64>::empty());
        assert(sum_of(s.push(v)) == v + sum_of(s.push(v).drop_first()));
        assert(sum_of(Seq::<u64>::empty()) == 0);
    } else {
        assert(s.push(v).drop_first() =~= s.drop_first().push(v));
        lemma_sum_push(s.drop_first(), v);
        assert(s.push(v)[0] == s[0]);
        assert(sum_of(s.push(v)) == s[0] + sum_of(s.drop_first().push(v)));
        assert(sum_of(s) == s[0] + sum_of(s.drop_first()));
    }
}

/// The sum of durations is non-negative and at most one maximal duration per
/// element.
proof fn lemma_sum_bounds(s: Seq<u64>)
    ensures
        0 <= sum_of(s) <= s.len() * u64::MAX,
    decreases s.len(),
{
    if s.len() > 0 {
        lemma_sum_bounds(s.drop_first());
        assert((s.len() - 1) * u64::MAX + u64::MAX == s.len() * u64::MAX) by (nonlinear_arith);
    }
}

/// Sort the durations ascending into a fresh vector, keeping exactly the same
/// elements with their multiplicities.
fn sort_ascending(v: &Vec<u64>) -> (out: Vec<u64>)
    ensures
        out@.to_multiset() == v@.to_multiset(),
        sorted_by(out@, le_u64()),
        out@.len() == v@.len(),
{
    let mut rest: Vec<u64> = v.clone();
    let mut out: Vec<u64> = Vec::new();
    proof {
        assert(out@.to_multiset().add(rest@.to_multiset()) =~= v@.to_multiset());
    }
    while rest.len() > 0
        invariant
            out@.to_multiset().add(rest@.to_multiset()) == v@.to_multiset(),
            out@.len() + rest@.len() == v@.len(),
            sorted_by(out@, le_u64()),
            forall|a: int, b: int|
                0 <= a < out@.len() && 0 <= b < rest@.len() ==> out@[a] <= rest@[b],
        decreases rest@.len(),
    {
        let mut m: usize = 0;
        let mut j: usize = 1;
        while j < rest.len()
            invariant
                rest@.len() > 0,
                0 <= m < rest@.len(),
                1 <= j <= rest@.len(),
                forall|k: int| 0 <= k < j ==> rest@[m as int] <= #[trigger] rest@[k],
            decreases rest@.len() - j,
        {
            if rest[j] < rest[m] {
                m = j;
            }
            j = j + 1;
        }
        let ghost rest0 = rest@;
        let ghost out0 = out@;
        let x = rest.remove(m);
        out.push(x);
        proof {
            rest0.remove_ensures(m as int);
            assert(rest0.contains(x));
            assert(rest@.to_multiset() =~= rest0.to_multiset().remove(x));
            assert(out@.to_multiset() =~= out0.to_multiset().insert(x));
            assert(out@.to_multiset().add(rest@.to_multiset()) =~= out0.to_multiset().add(
                rest0.to_multiset(),
            ));
            assert forall|a: int, b: int|
                0 <= a < out@.len() && 0 <= b < rest@.len() implies out@[a] <= rest@[b] by {
                let orig = if b < m as int { rest0[b] } else { rest0[b + 1] };
                assert(rest@[b] == orig);
                if a < out0.len() {
                    assert(out@[a] == out0[a]);
                } else {
                    assert(out@[a] == x);
                }
            }
            assert forall|a: int, b: int|
                0 <= a < b < out@.len() implies le_u64()(out@[a], out@[b]) by {
                if b < out0.len() {
                    assert(le_u64()(out0[a], out0[b]));
                } else {
                    assert(out@[b] == x);
                    assert(out0[a] <= rest0[m as int]);
                }
            }
        }
    }
    proof {
        assert(rest@.to_multiset() =~= Multiset::<u64>::empty());
        assert(out@.to_multiset().add(Multiset::<u64>::empty()) =~= out@.to_multiset());
    }
    out
}

/// Compute the summary statistics of a finished duration log: mean is the
/// truncating integer division of the sum by the count; the median is the
/// element at index `count / 2` of the ascending sort (the upper of the two
/// middle elements for even counts); min and max are the least and greatest
/// recorded durations. An empty log is an error.
pub fn compute_stats(durations: &Vec<u64>) -> (r: Result<Stats, StatsError>)
    ensures
        r is Err <==> durations@.len() == 0,
        r is Err ==> r->Err_0 == StatsError::Empty,
        r is Ok ==> stats_correct(durations@, r->Ok_0),
{
    let n = durations.len();
    if n == 0 {
        return Err(StatsError::Empty);
    }
    let ghost s = durations@;

    let mut sum: u128 = 0;
    let mut i: usize = 0;
    while i < n
        invariant
            0 <= i <= n,
            n == s.len(),
            s == durations@,
            sum == sum_of(s.take(i as int)),
        decreases n - i,
    {
        proof {
            lemma_sum_bounds(s.take(i as int));
            assert(s.take(i as int).len() == i as int);
            lemma_sum_push(s.take(i as int), s[i as int]);
            assert(s.take(i + 1 as int) =~= s.take(i as int).push(s[i as int]));
            assert((i as int) * u64::MAX + u64::MAX == (i + 1 as int) * u64::MAX)
                by (nonlinear_arith);
            assert((i + 1 as int) * u64::MAX <= 0x10000000000000000 * u64::MAX)
                by (nonlinear_arith)
                requires
                    i + 1 <= 0x10000000000000000,
            ;
        }
        sum = sum + (durations[i] as u128);
        i = i + 1;
    }
    proof {
        assert(s.take(n as int) =~= s);
        lemma_sum_bounds(s);
        lemma_div_is_ordered(sum as int, s.len() * u64::MAX, n as int);
        lemma_div_by_multiple(u64::MAX as int, n as int);
        assert(s.len() * u64::MAX == u64::MAX * (n as int));
        assert(sum as int / (n as int) <= u64::MAX);
    }
    let mean: u64 = (sum / (n as u128)) as u64;

    let sorted = sort_ascending(durations);
    proof {
        assert(total_ordering(le_u64()));
        s.lemma_sort_by_ensures(le_u64());
        vstd::seq_lib::lemma_sorted_unique(sorted@, s.sort_by(le_u64()), le_u64());
        assert(sorted@ == sorted_ascending(s));
    }
    let median = sorted[n / 2];
    let min = sorted[0];
    let max = sorted[n - 1];
    proof {
        assert(sorted@.to_multiset().contains(min));
        assert(sorted@.to_multiset().contains(max));
        assert(s.contains(min));
        assert(s.contains(max));
        assert forall|k: int| 0 <= k < s.len() implies min <= #[trigger] s[k] && s[k] <= max by {
            assert(s.to_multiset().contains(s[k]));
            assert(sorted@.contains(s[k]));
            let j = choose|j: int| 0 <= j < sorted@.len() && sorted@[j] == s[k];
            if j > 0 {
                assert(le_u64()(sorted@[0], sorted@[j]));
            }
            if j < sorted@.len() - 1 {
                assert(le_u64()(sorted@[j], sorted@[sorted@.len() - 1]));
            }
        }
    }
    Ok(
        Stats {
            total: n as u64,
            mean,
            median,
            min,
            max,
        },
    )
}

/// Append-only log of per-dispatch elapsed times, handed to the statistics
/// aggregator once the run has drained.
pub struct DurationLog {
    durations: Vec<u64>,
}

impl View for DurationLog {
    type V = Seq<u64>;

    closed spec fn view(&self) -> Seq<u64> {
        self.durations@
    }
}

impl DurationLog {
    pub fn new() -> (r: DurationLog)
        ensures
            r@ == Seq::<u64>::empty(),
    {
        DurationLog { durations: Vec::new() }
    }

    /// Record the elapsed time of one completed dispatch.
    pub fn record(&mut self, elapsed: u64)
        ensures
            final(self)@ == old(self)@.push(elapsed),
    {
        self.durations.push(elapsed);
    }

    pub fn len(&self) -> (r: usize)
        ensures
            r == self@.len(),
    {
        self.durations.len()
    }

    /// Summarise the log; an empty log is an error.
    pub fn stats(&self) -> (r: Result<Stats, StatsError>)
        ensures
            r is Err <==> self@.len() == 0,
            r is Err ==> r->Err_0 == StatsError::Empty,
            r is Ok ==> stats_correct(self@, r->Ok_0),
    {
        compute_stats(&self.durations)
    }
}

} // verus!
