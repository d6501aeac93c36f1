use rozum::mistralrs_admission::{
    Admission, AdmissionConfig, AdmissionScheduler, AdmitError, AdmitGuard, RequestCost,
};

fn cfg(limit: usize, fastlane: usize) -> AdmissionConfig {
    AdmissionConfig { limit, fastlane_tokens: fastlane, queue_max: 0 }
}

fn big() -> RequestCost {
    RequestCost { prompt_tokens: 20_000, max_tokens: 1024 }
}

fn small() -> RequestCost {
    RequestCost { prompt_tokens: 50, max_tokens: 64 }
}

fn admitted(a: Result<Admission, AdmitError>) -> AdmitGuard {
    match a {
        Ok(Admission::Admitted(g)) => g,
        _ => panic!("not admitted"),
    }
}

fn queued(a: Result<Admission, AdmitError>) -> u64 {
    match a {
        Ok(Admission::Queued(seq)) => seq,
        _ => panic!("not queued"),
    }
}

#[test]
fn admits_up_to_limit_then_queues() {
    let mut s = AdmissionScheduler::new(cfg(2, 0));
    let g1 = admitted(s.acquire(big()));
    let _g2 = admitted(s.acquire(big()));
    assert_eq!(s.stats(), (2, 0, 2));
    let third = queued(s.acquire(big()));
    assert_eq!(s.stats().1, 1, "third request should be queued");
    let grants = s.release(g1, &vec![]);
    assert_eq!(grants.len(), 1);
    assert_eq!(grants[0].seq, third);
    assert_eq!(s.stats(), (2, 0, 2));
}

#[test]
fn fast_lane_jumps_ahead_of_a_queued_big_request() {
    let mut s = AdmissionScheduler::new(cfg(2, 1024));
    let g1 = admitted(s.acquire(big()));
    let big_waiter = queued(s.acquire(big()));
    assert_eq!(s.stats(), (1, 1, 2), "second big request queued");
    let _fast = admitted(s.acquire(small()));
    assert_eq!(s.stats().0, 2, "fast request admitted into the reserved slot");
    let grants = s.release(g1, &vec![]);
    assert_eq!(grants.len(), 1);
    assert_eq!(grants[0].seq, big_waiter);
}

#[test]
fn single_slot_serialises_but_orders_small_first() {
    let mut s = AdmissionScheduler::new(cfg(1, 1024));
    let g1 = admitted(s.acquire(big()));
    let big_w = queued(s.acquire(big()));
    let small_w = queued(s.acquire(small()));
    assert_eq!(s.stats().1, 2, "both queued");
    let grants = s.release(g1, &vec![]);
    assert_eq!(grants.len(), 1);
    assert_eq!(grants[0].seq, small_w);
    assert_eq!(s.stats(), (1, 1, 1));
    let grants = s.release(grants[0].guard, &vec![]);
    assert_eq!(grants.len(), 1);
    assert_eq!(grants[0].seq, big_w);
}

#[test]
fn cancelled_waiter_releases_its_queue_slot() {
    let mut s = AdmissionScheduler::new(cfg(1, 0));
    let g1 = admitted(s.acquire(big()));
    let waiter = queued(s.acquire(big()));
    assert_eq!(s.stats().1, 1);
    // The waiter is gone: the slot goes to nobody, and the next request gets it.
    let grants = s.release(g1, &vec![waiter]);
    assert!(grants.is_empty());
    let _g = admitted(s.acquire(big()));
    assert_eq!(s.stats().0, 1);
}

#[test]
fn raising_the_limit_admits_queued_waiters() {
    let mut s = AdmissionScheduler::new(cfg(1, 0));
    let _g1 = admitted(s.acquire(big()));
    let waiter = queued(s.acquire(big()));
    assert_eq!(s.stats().1, 1);
    let grants = s.set_limit(2, &vec![]);
    assert_eq!(grants.len(), 1);
    assert_eq!(grants[0].seq, waiter);
    assert_eq!(s.stats(), (2, 0, 2));
}

#[test]
fn full_queue_sheds_with_overloaded() {
    let mut c = cfg(1, 0);
    c.queue_max = 1;
    let mut s = AdmissionScheduler::new(c);
    let _g1 = admitted(s.acquire(big()));
    let _queued = queued(s.acquire(big()));
    assert_eq!(s.stats().1, 1, "queue holds one waiter");
    match s.acquire(big()) {
        Err(e) => {
            assert_eq!(e, AdmitError::Overloaded);
            assert!(!e.message().is_empty());
        }
        Ok(_) => panic!("the queue is full"),
    }
}

#[test]
fn circuit_breaker_trips_and_recovers() {
    let mut s = AdmissionScheduler::new(cfg(3, 0));
    assert_eq!(s.trip(), 2);
    assert_eq!(s.trip(), 1);
    assert_eq!(s.trip(), 1, "limit floors at 1");
    assert_eq!(s.stats().2, 1);
    let _g1 = admitted(s.acquire(big()));
    let waiter = queued(s.acquire(big()));
    assert_eq!(s.stats().1, 1);
    let (limit, grants) = s.recover_step(&vec![]);
    assert_eq!(limit, 2);
    assert_eq!(grants.len(), 1);
    assert_eq!(grants[0].seq, waiter);
    assert_eq!(s.recover_step(&vec![]).0, 3);
    assert_eq!(s.recover_step(&vec![]).0, 3, "recovery caps at capacity");
}

#[test]
fn guards_and_settings() {
    let mut s = AdmissionScheduler::new(cfg(1, 0));
    let g = admitted(s.acquire(big()));
    // A guard that holds nothing gives nothing back.
    assert!(s.release(AdmitGuard::inert(), &vec![]).is_empty());
    assert_eq!(s.stats(), (1, 0, 1));
    s.release(g, &vec![]);
    assert_eq!(s.stats(), (0, 0, 1));
    assert_eq!(big().weight(), 21_024);
    let c = AdmissionConfig::from_engine_capacity(4, None, None, None);
    assert_eq!(c.limit, 4);
    let c = AdmissionConfig::from_engine_capacity(4, Some(2), Some(7), Some(9));
    assert_eq!((c.limit, c.fastlane_tokens, c.queue_max), (2, 7, 9));
}
