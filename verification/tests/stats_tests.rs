use blockrace::nonce::NonceAllocator;
use blockrace::stats::{compute_stats, DurationLog, Stats, StatsError};

#[test]
fn stats_of_three_durations() {
    let durations = vec![100u64, 200, 300];
    let st = compute_stats(&durations).unwrap();
    assert_eq!(
        st,
        Stats { total: 3, mean: 200, median: 200, min: 100, max: 300 }
    );
}

#[test]
fn even_count_median_takes_the_upper_middle() {
    // Documented policy: the median is the element at index count / 2 of the
    // ascending sort, the upper of the two middle elements for even counts.
    let durations = vec![50u64, 150];
    let st = compute_stats(&durations).unwrap();
    assert_eq!(st.median, 150);
    assert_eq!(st.mean, 100);
    assert_eq!(st.min, 50);
    assert_eq!(st.max, 150);
}

#[test]
fn stats_on_empty_log_is_an_error() {
    let durations: Vec<u64> = Vec::new();
    assert_eq!(compute_stats(&durations), Err(StatsError::Empty));
}

#[test]
fn stats_of_a_single_duration() {
    let st = compute_stats(&vec![42u64]).unwrap();
    assert_eq!(
        st,
        Stats { total: 1, mean: 42, median: 42, min: 42, max: 42 }
    );
}

#[test]
fn stats_sort_before_taking_the_median() {
    let st = compute_stats(&vec![300u64, 100, 200]).unwrap();
    assert_eq!(st.median, 200);
    assert_eq!(st.min, 100);
    assert_eq!(st.max, 300);
}

#[test]
fn mean_truncates_towards_zero() {
    let st = compute_stats(&vec![1u64, 2]).unwrap();
    assert_eq!(st.mean, 1);
}

#[test]
fn stats_with_repeated_durations() {
    let st = compute_stats(&vec![7u64, 7, 7, 9]).unwrap();
    assert_eq!(
        st,
        Stats { total: 4, mean: 7, median: 7, min: 7, max: 9 }
    );
}

#[test]
fn duration_log_records_and_summarises() {
    let mut log = DurationLog::new();
    assert_eq!(log.stats(), Err(StatsError::Empty));
    log.record(100);
    log.record(300);
    log.record(200);
    assert_eq!(log.len(), 3);
    let st = log.stats().unwrap();
    assert_eq!(
        st,
        Stats { total: 3, mean: 200, median: 200, min: 100, max: 300 }
    );
}

#[test]
fn nonce_allocation_is_sequential_from_the_seed() {
    let mut alloc = NonceAllocator::new(5);
    assert_eq!(alloc.allocate(), 5);
    assert_eq!(alloc.allocate(), 6);
    assert_eq!(alloc.allocate(), 7);
}
