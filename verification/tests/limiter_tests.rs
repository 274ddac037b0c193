use dispatch_core::counter::CounterMap;
use dispatch_core::limiter::{Bucket, BucketSet, CheckOutcome};

fn bv(s: &str) -> Vec<u8> {
    s.as_bytes().to_vec()
}

#[test]
fn fresh_scope_is_allowed() {
    let mut b = Bucket::new(5);
    assert_eq!(b.check(1, 0), CheckOutcome::Allowed);
}

#[test]
fn second_use_within_delay_is_limited_with_remaining_wait() {
    let mut b = Bucket::new(5);
    assert_eq!(b.check(1, 0), CheckOutcome::Allowed);
    assert_eq!(
        b.check(1, 2),
        CheckOutcome::Limited { retry_after: 3, is_first_denial: true }
    );
}

#[test]
fn denial_streak_reports_first_denial_once() {
    let mut b = Bucket::new(5);
    assert_eq!(b.check(1, 0), CheckOutcome::Allowed);
    assert_eq!(
        b.check(1, 2),
        CheckOutcome::Limited { retry_after: 3, is_first_denial: true }
    );
    assert_eq!(
        b.check(1, 3),
        CheckOutcome::Limited { retry_after: 2, is_first_denial: false }
    );
    // after the window opens again the next denial is a first denial again
    assert_eq!(b.check(1, 5), CheckOutcome::Allowed);
    assert_eq!(
        b.check(1, 6),
        CheckOutcome::Limited { retry_after: 4, is_first_denial: true }
    );
}

#[test]
fn use_at_exactly_the_delay_is_allowed() {
    let mut b = Bucket::new(5);
    assert_eq!(b.check(7, 10), CheckOutcome::Allowed);
    assert_eq!(b.check(7, 15), CheckOutcome::Allowed);
}

#[test]
fn scopes_are_independent() {
    let mut b = Bucket::new(5);
    assert_eq!(b.check(1, 0), CheckOutcome::Allowed);
    assert_eq!(b.check(2, 0), CheckOutcome::Allowed);
    assert_eq!(
        b.check(1, 1),
        CheckOutcome::Limited { retry_after: 4, is_first_denial: true }
    );
    assert_eq!(b.check(3, 1), CheckOutcome::Allowed);
}

#[test]
fn zero_delay_never_limits() {
    let mut b = Bucket::new(0);
    assert_eq!(b.check(1, 0), CheckOutcome::Allowed);
    assert_eq!(b.check(1, 0), CheckOutcome::Allowed);
}

#[test]
fn serialized_checks_at_one_instant_admit_only_one() {
    let mut b = Bucket::new(5);
    assert_eq!(b.check(9, 100), CheckOutcome::Allowed);
    assert_eq!(
        b.check(9, 100),
        CheckOutcome::Limited { retry_after: 5, is_first_denial: true }
    );
}

#[test]
fn bucket_set_routes_checks_by_name() {
    let mut bs = BucketSet::new();
    assert!(bs.add(bv("emoji"), 5));
    assert!(!bs.add(bv("emoji"), 9));
    assert_eq!(bs.check(&bv("emoji"), 1, 0), Some(CheckOutcome::Allowed));
    assert_eq!(
        bs.check(&bv("emoji"), 1, 2),
        Some(CheckOutcome::Limited { retry_after: 3, is_first_denial: true })
    );
    assert_eq!(bs.check(&bv("absent"), 1, 0), None);
}

#[test]
fn counters_increment_per_name() {
    let mut c = CounterMap::new();
    assert_eq!(c.get(&bv("roles")), 0);
    assert_eq!(c.increment(&bv("roles")), 1);
    assert_eq!(c.increment(&bv("roles")), 2);
    assert_eq!(c.increment(&bv("dog")), 1);
    assert_eq!(c.get(&bv("roles")), 2);
    assert_eq!(c.get(&bv("dog")), 1);
    assert_eq!(c.get(&bv("assign")), 0);
}
