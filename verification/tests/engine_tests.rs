use blockrace::engine::{ConfigError, Engine};
use blockrace::event::{BlockEvent, Dispatch, Source};

fn ev(number: u64, source: Source, observed_at: u64) -> BlockEvent {
    BlockEvent { number, source, observed_at }
}

#[test]
fn zero_interval_is_a_config_error() {
    let r = Engine::new(0, 10, 0);
    assert!(matches!(r, Err(ConfigError::ZeroInterval)));
}

#[test]
fn dedup_acts_on_a_block_at_most_once() {
    let mut en = Engine::new(1, 10, 0).unwrap();
    let first = en.handle_event(ev(5, Source::Poll, 1));
    assert_eq!(first.dispatch, Some(Dispatch { block: 5, nonce: 0 }));
    // Same block from the other source, and again from the first: no dispatch.
    let dup1 = en.handle_event(ev(5, Source::Subscribe, 2));
    assert_eq!(dup1.dispatch, None);
    let dup2 = en.handle_event(ev(5, Source::Poll, 3));
    assert_eq!(dup2.dispatch, None);
    assert_eq!(en.dispatched(), 1);
}

#[test]
fn dedup_handles_out_of_order_reports() {
    let mut en = Engine::new(1, 10, 0).unwrap();
    assert!(en.handle_event(ev(7, Source::Subscribe, 1)).dispatch.is_some());
    assert!(en.handle_event(ev(6, Source::Subscribe, 2)).dispatch.is_some());
    assert!(en.handle_event(ev(7, Source::Poll, 3)).dispatch.is_none());
    assert!(en.handle_event(ev(6, Source::Poll, 4)).dispatch.is_none());
    assert_eq!(en.dispatched(), 2);
}

#[test]
fn budget_is_never_exceeded() {
    let mut en = Engine::new(1, 2, 0).unwrap();
    let mut dispatches = 0;
    for b in 1..=5u64 {
        if en.handle_event(ev(b, Source::Poll, b)).dispatch.is_some() {
            dispatches += 1;
        }
    }
    assert_eq!(dispatches, 2);
    assert_eq!(en.dispatched(), 2);
}

#[test]
fn zero_budget_never_dispatches() {
    let mut en = Engine::new(1, 0, 0).unwrap();
    assert!(en.handle_event(ev(1, Source::Poll, 1)).dispatch.is_none());
    assert!(en.handle_event(ev(2, Source::Subscribe, 2)).dispatch.is_none());
    assert_eq!(en.dispatched(), 0);
}

#[test]
fn trigger_fires_only_on_multiples_within_budget() {
    let mut en = Engine::new(10, 1, 0).unwrap();
    // Not a multiple of 10: no dispatch even though budget remains.
    assert!(en.handle_event(ev(12, Source::Poll, 1)).dispatch.is_none());
    // A multiple of 10 with budget left: dispatch.
    assert_eq!(
        en.handle_event(ev(20, Source::Poll, 2)).dispatch,
        Some(Dispatch { block: 20, nonce: 0 })
    );
    // A multiple of 10 with the budget exhausted: no dispatch.
    assert!(en.handle_event(ev(30, Source::Poll, 3)).dispatch.is_none());
    assert_eq!(en.dispatched(), 1);
}

#[test]
fn nonces_are_consecutive_from_the_seed() {
    let mut en = Engine::new(1, 10, 100).unwrap();
    let mut nonces = Vec::new();
    for b in 1..=3u64 {
        if let Some(d) = en.handle_event(ev(b, Source::Subscribe, b)).dispatch {
            nonces.push(d.nonce);
        }
    }
    assert_eq!(nonces, vec![100, 101, 102]);
}

#[test]
fn shutdown_ignores_later_events() {
    let mut en = Engine::new(1, 10, 0).unwrap();
    assert!(en.handle_event(ev(1, Source::Poll, 1)).dispatch.is_some());
    en.close();
    assert!(en.is_closed());
    // A fresh eligible block after shutdown: nothing.
    let late = en.handle_event(ev(2, Source::Poll, 2));
    assert_eq!(late.dispatch, None);
    assert_eq!(late.skew, None);
    // A stale duplicate after shutdown: nothing either.
    assert!(en.handle_event(ev(1, Source::Subscribe, 3)).dispatch.is_none());
    assert_eq!(en.dispatched(), 1);
}

#[test]
fn skew_is_poll_minus_subscribe() {
    let mut en = Engine::new(1, 10, 0).unwrap();
    let first = en.handle_event(ev(42, Source::Subscribe, 0));
    assert_eq!(first.skew, None);
    let second = en.handle_event(ev(42, Source::Poll, 30));
    assert_eq!(second.skew, Some(30));
}

#[test]
fn skew_is_negative_when_poll_saw_the_block_first() {
    let mut en = Engine::new(1, 10, 0).unwrap();
    assert_eq!(en.handle_event(ev(9, Source::Poll, 7)).skew, None);
    assert_eq!(en.handle_event(ev(9, Source::Subscribe, 10)).skew, Some(-3));
}

#[test]
fn first_observation_per_source_wins() {
    let mut en = Engine::new(1, 10, 0).unwrap();
    assert_eq!(en.handle_event(ev(42, Source::Subscribe, 5)).skew, None);
    // A duplicate subscribe observation at a later time is ignored.
    assert_eq!(en.handle_event(ev(42, Source::Subscribe, 9)).skew, None);
    assert_eq!(en.handle_event(ev(42, Source::Poll, 30)).skew, Some(25));
}

#[test]
fn skew_is_reported_again_on_later_duplicates() {
    let mut en = Engine::new(1, 10, 0).unwrap();
    en.handle_event(ev(8, Source::Subscribe, 2));
    assert_eq!(en.handle_event(ev(8, Source::Poll, 6)).skew, Some(4));
    // Once both times are recorded, every further report of the block
    // carries the same sample.
    assert_eq!(en.handle_event(ev(8, Source::Poll, 11)).skew, Some(4));
}

#[test]
fn process_all_collects_every_dispatch_in_order() {
    let mut en = Engine::new(2, 2, 50).unwrap();
    let events = vec![
        ev(3, Source::Poll, 1),
        ev(4, Source::Subscribe, 2),
        ev(4, Source::Poll, 3),
        ev(6, Source::Poll, 4),
        ev(8, Source::Poll, 5),
    ];
    let ds = en.process_all(&events);
    assert_eq!(
        ds,
        vec![
            Dispatch { block: 4, nonce: 50 },
            Dispatch { block: 6, nonce: 51 },
        ]
    );
    assert_eq!(en.dispatched(), 2);
}
