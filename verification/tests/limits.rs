use attesta::limits::{IpBuckets, SseSlots};

const MS: u64 = 1_000_000;
const SEC: u64 = 1_000_000_000;
const T0: u64 = 5 * SEC;

fn ip(last: u8) -> u128 {
    0xffff_7f00_0000u128 | last as u128
}

#[test]
fn burst_then_throttle_then_refill() {
    let mut buckets = IpBuckets::new(10, 5);
    for _ in 0..10 {
        // burst clamps up to per_sec
        assert!(buckets.try_acquire(ip(1), T0).is_ok());
    }
    let retry = buckets.try_acquire(ip(1), T0).unwrap_err();
    assert!(retry >= 1);

    // 500 ms refills 5 tokens at 10/s.
    let t1 = T0 + 500 * MS;
    for _ in 0..5 {
        assert!(buckets.try_acquire(ip(1), t1).is_ok());
    }
    assert!(buckets.try_acquire(ip(1), t1).is_err());
}

#[test]
fn ips_do_not_share_buckets() {
    let mut buckets = IpBuckets::new(1, 1);
    assert!(buckets.try_acquire(ip(1), T0).is_ok());
    assert!(buckets.try_acquire(ip(1), T0).is_err());
    assert!(buckets.try_acquire(ip(2), T0).is_ok());
}

#[test]
fn zero_rate_disables_limit() {
    let mut buckets = IpBuckets::new(0, 0);
    for _ in 0..1000 {
        assert!(buckets.try_acquire(ip(1), T0).is_ok());
    }
    assert!(!buckets.enabled());
}

#[test]
fn tokens_never_exceed_burst() {
    let mut buckets = IpBuckets::new(10, 20);
    // Long idle must not accumulate beyond the burst ceiling.
    let t1 = T0 + 3600 * SEC;
    for _ in 0..20 {
        assert!(buckets.try_acquire(ip(1), t1).is_ok());
    }
    assert!(buckets.try_acquire(ip(1), t1).is_err());
}

#[test]
fn refusal_retry_after_is_one_second_at_one_per_second() {
    let mut buckets = IpBuckets::new(1, 1);
    assert!(buckets.try_acquire(ip(3), T0).is_ok());
    assert_eq!(buckets.try_acquire(ip(3), T0), Err(1));
    // Half a second later half a token is back: still refused.
    assert_eq!(buckets.try_acquire(ip(3), T0 + 500 * MS), Err(1));
    // A full second after the first request a token is back.
    assert!(buckets.try_acquire(ip(3), T0 + SEC).is_ok());
}

#[test]
fn clock_going_backwards_adds_nothing() {
    let mut buckets = IpBuckets::new(1, 1);
    assert!(buckets.try_acquire(ip(4), T0).is_ok());
    assert!(buckets.try_acquire(ip(4), T0 - SEC).is_err());
}

#[test]
fn full_buckets_are_dropped_past_the_threshold() {
    let mut buckets = IpBuckets::new(1000, 1000);
    for n in 0..10_001u128 {
        assert!(buckets.try_acquire(n, T0).is_ok());
    }
    assert_eq!(buckets.bucket_count(), 10_001);
    // One hour later every bucket is full again; the next request drops them.
    assert!(buckets.try_acquire(ip(9), T0 + 3600 * SEC).is_ok());
    assert_eq!(buckets.bucket_count(), 1);
}

#[test]
fn sse_slots_cap_per_ip_and_globally_and_release_on_drop() {
    let mut slots = SseSlots::new(2, 3);
    let a1 = slots.try_acquire(ip(1)).expect("first per-ip slot");
    let _a2 = slots.try_acquire(ip(1)).expect("second per-ip slot");
    assert!(slots.try_acquire(ip(1)).is_none(), "per-ip cap");

    let _b1 = slots.try_acquire(ip(2)).expect("other ip fits");
    assert!(slots.try_acquire(ip(3)).is_none(), "global cap");
    assert_eq!(slots.active(), 3);

    slots.release(a1);
    assert_eq!(slots.active(), 2);
    assert!(slots.try_acquire(ip(3)).is_some(), "slot freed by drop");
}

#[test]
fn sse_zero_caps_disable_limits() {
    let mut slots = SseSlots::new(0, 0);
    let mut held = Vec::new();
    for n in 0..50 {
        held.push(slots.try_acquire(ip(n as u8)).expect("unlimited"));
    }
    assert_eq!(slots.active(), 50);
}

#[test]
fn sse_release_undoes_acquire() {
    let mut slots = SseSlots::new(1, 0);
    let s = slots.try_acquire(ip(5)).unwrap();
    assert_eq!(s.ip(), ip(5));
    assert_eq!(slots.active_for(ip(5)), 1);
    slots.release(s);
    assert_eq!(slots.active_for(ip(5)), 0);
    assert_eq!(slots.active(), 0);
    assert!(slots.try_acquire(ip(5)).is_some());
}
