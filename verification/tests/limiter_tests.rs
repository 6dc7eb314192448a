use aegis_proxy::config::LimitConfig;
use aegis_proxy::engine::connection::Rejection;
use aegis_proxy::engine::limiter::{
    admission, check_rate_limit, IpTracker, TokenBucket, NANOS_PER_SEC, TOKEN,
};

const MS: u64 = 1_000_000;

fn policy(max_tokens: u64, refill_per_sec: u64) -> LimitConfig {
    LimitConfig {
        max_tokens: max_tokens * TOKEN,
        refill_rate: refill_per_sec * TOKEN,
        cleanup_interval_secs: 60,
        ip_idle_timeout_secs: 300,
    }
}

/// An IPv4 address as the IPv6 address that it maps to.
fn ipv4(a: u8, b: u8, c: u8, d: u8) -> u128 {
    0xffff_0000_0000u128 | u128::from(u32::from_be_bytes([a, b, c, d]))
}

#[test]
fn rate_limit_burst() {
    // Ten connections from one source within 100 ms, with five tokens
    // and one token a second: the first five pass.
    let config = policy(5, 1);
    let mut tracker = IpTracker::new();
    let addr = ipv4(192, 0, 2, 7);
    let start = 1_000 * NANOS_PER_SEC;
    let mut outcomes = Vec::new();
    for i in 0..10u64 {
        outcomes.push(check_rate_limit(&mut tracker, addr, &config, start + i * 10 * MS));
    }
    assert_eq!(
        outcomes,
        vec![true, true, true, true, true, false, false, false, false, false]
    );
    assert_eq!(outcomes.iter().filter(|ok| !**ok).count(), 5);
    assert_eq!(tracker.len(), 1);
}

#[test]
fn units() {
    assert_eq!(TOKEN, 1_000_000_000);
    assert_eq!(NANOS_PER_SEC, 1_000_000_000);
}

#[test]
fn new_source_starts_full_and_pays_one_token() {
    let config = policy(5, 1);
    let mut tracker = IpTracker::new();
    assert_eq!(tracker.len(), 0);
    assert_eq!(tracker.get(7), None);
    assert!(tracker.check(7, &config, 123));
    assert_eq!(tracker.get(7), Some(TokenBucket { tokens: 4 * TOKEN, last_refill: 123 }));
    assert_eq!(tracker.get(8), None);
    assert_eq!(tracker.len(), 1);
}

#[test]
fn refill_is_exact() {
    let config = LimitConfig {
        max_tokens: 3 * TOKEN,
        refill_rate: TOKEN / 2,
        cleanup_interval_secs: 60,
        ip_idle_timeout_secs: 300,
    };
    let mut bucket = TokenBucket { tokens: 0, last_refill: 10 * NANOS_PER_SEC };
    // half a token a second: after 1.5 s there are 0.75 tokens
    assert!(!bucket.check(&config, 11 * NANOS_PER_SEC + 500 * MS));
    assert_eq!(bucket, TokenBucket { tokens: 750_000_000, last_refill: 11_500 * MS });
    // after 0.5 s more there is one token, which is taken
    assert!(bucket.check(&config, 12 * NANOS_PER_SEC));
    assert_eq!(bucket, TokenBucket { tokens: 0, last_refill: 12 * NANOS_PER_SEC });
    // a single nanosecond gains half a billionth, which is rounded down
    assert!(!bucket.check(&config, 12 * NANOS_PER_SEC + 1));
    assert_eq!(bucket, TokenBucket { tokens: 0, last_refill: 12 * NANOS_PER_SEC + 1 });
    assert!(!bucket.check(&config, 12 * NANOS_PER_SEC + 3));
    assert_eq!(bucket, TokenBucket { tokens: 1, last_refill: 12 * NANOS_PER_SEC + 3 });
}

#[test]
fn refill_stops_at_the_capacity() {
    let config = policy(5, 1);
    let mut bucket = TokenBucket { tokens: 2 * TOKEN, last_refill: 0 };
    assert!(bucket.check(&config, 3_600 * NANOS_PER_SEC));
    assert_eq!(bucket, TokenBucket { tokens: 4 * TOKEN, last_refill: 3_600 * NANOS_PER_SEC });
    // a bucket above the capacity, as after a change of policy, is cut
    let mut bucket = TokenBucket { tokens: 50 * TOKEN, last_refill: 0 };
    assert!(bucket.check(&config, 0));
    assert_eq!(bucket.tokens, 4 * TOKEN);
    // the largest values do not overflow
    let greedy = LimitConfig {
        max_tokens: u64::MAX,
        refill_rate: u64::MAX,
        cleanup_interval_secs: 1,
        ip_idle_timeout_secs: 1,
    };
    let mut bucket = TokenBucket { tokens: u64::MAX, last_refill: 0 };
    assert!(bucket.check(&greedy, u64::MAX));
    assert_eq!(bucket, TokenBucket { tokens: u64::MAX - TOKEN, last_refill: u64::MAX });
}

#[test]
fn capacity_below_one_token_never_passes() {
    let config = LimitConfig {
        max_tokens: TOKEN - 1,
        refill_rate: 100 * TOKEN,
        cleanup_interval_secs: 60,
        ip_idle_timeout_secs: 300,
    };
    let mut tracker = IpTracker::new();
    assert!(!tracker.check(1, &config, 0));
    assert!(!tracker.check(1, &config, 10 * NANOS_PER_SEC));
    assert_eq!(tracker.get(1), Some(TokenBucket { tokens: TOKEN - 1, last_refill: 10 * NANOS_PER_SEC }));
}

#[test]
fn a_clock_that_steps_back_gives_no_credit() {
    let config = policy(5, 1);
    let mut bucket = TokenBucket { tokens: 0, last_refill: 50 * NANOS_PER_SEC };
    assert!(!bucket.check(&config, 10 * NANOS_PER_SEC));
    // the time of the last refill does not move backwards
    assert_eq!(bucket, TokenBucket { tokens: 0, last_refill: 50 * NANOS_PER_SEC });
    assert!(!bucket.check(&config, 50 * NANOS_PER_SEC + 999 * MS));
    assert!(bucket.check(&config, 51 * NANOS_PER_SEC));
}

#[test]
fn denied_checks_keep_the_bucket() {
    let config = policy(1, 1);
    let mut tracker = IpTracker::new();
    assert!(tracker.check(9, &config, 0));
    assert!(!tracker.check(9, &config, 400 * MS));
    assert_eq!(tracker.get(9), Some(TokenBucket { tokens: 400_000_000, last_refill: 400 * MS }));
    assert!(!tracker.check(9, &config, 900 * MS));
    assert_eq!(tracker.get(9), Some(TokenBucket { tokens: 900_000_000, last_refill: 900 * MS }));
    assert!(tracker.check(9, &config, 1_000 * MS));
    assert_eq!(tracker.get(9), Some(TokenBucket { tokens: 0, last_refill: 1_000 * MS }));
}

#[test]
fn sources_do_not_share_tokens() {
    let config = policy(2, 1);
    let mut tracker = IpTracker::new();
    let a = ipv4(10, 0, 0, 1);
    let b = ipv4(10, 0, 0, 2);
    // 2001:db8::1
    let c = 0x2001_0db8_0000_0000_0000_0000_0000_0001u128;
    assert!(tracker.check(a, &config, 0));
    assert!(tracker.check(a, &config, 0));
    assert!(!tracker.check(a, &config, 0));
    assert!(tracker.check(b, &config, 0));
    assert!(tracker.check(c, &config, 0));
    assert_eq!(tracker.len(), 3);
    assert_eq!(tracker.get(a), Some(TokenBucket { tokens: 0, last_refill: 0 }));
    assert_eq!(tracker.get(b), Some(TokenBucket { tokens: TOKEN, last_refill: 0 }));
    assert_eq!(tracker.get(c), Some(TokenBucket { tokens: TOKEN, last_refill: 0 }));
}

#[test]
fn burst_bound_over_windows() {
    // No more checks pass in a window than a full bucket and the refill
    // of the window pay for.
    let config = policy(5, 2);
    let mut tracker = IpTracker::new();
    let mut passed_at = Vec::new();
    let mut now = 0u64;
    for i in 0..2_000u64 {
        now += (i % 7) * 13 * MS;
        if tracker.check(1, &config, now) {
            passed_at.push(now);
        }
    }
    assert!(passed_at.len() > 5);
    for (i, &from) in passed_at.iter().enumerate() {
        for (j, &to) in passed_at.iter().enumerate().skip(i) {
            let passed = (j - i + 1) as u128;
            let window = (to - from) as u128;
            assert!(
                passed * (TOKEN as u128) * (NANOS_PER_SEC as u128)
                    <= (config.max_tokens as u128) * (NANOS_PER_SEC as u128)
                        + (config.refill_rate as u128) * window
            );
        }
    }
}

#[test]
fn eviction_drops_idle_buckets_only() {
    let config = LimitConfig {
        max_tokens: 5 * TOKEN,
        refill_rate: TOKEN,
        cleanup_interval_secs: 60,
        ip_idle_timeout_secs: 10,
    };
    let mut tracker = IpTracker::new();
    tracker.check(1, &config, 0);
    tracker.check(2, &config, 5 * NANOS_PER_SEC);
    tracker.check(3, &config, 10 * NANOS_PER_SEC);
    assert_eq!(tracker.len(), 3);
    // at 10 s nothing is older than the timeout
    assert_eq!(tracker.evict_idle(&config, 10 * NANOS_PER_SEC), 0);
    assert_eq!(tracker.len(), 3);
    // a bucket whose age is the timeout exactly stays
    assert_eq!(tracker.evict_idle(&config, 15 * NANOS_PER_SEC), 1);
    assert_eq!(tracker.get(1), None);
    assert_eq!(tracker.get(2), Some(TokenBucket { tokens: 4 * TOKEN, last_refill: 5 * NANOS_PER_SEC }));
    assert_eq!(tracker.evict_idle(&config, 15 * NANOS_PER_SEC + 1), 1);
    assert_eq!(tracker.get(2), None);
    assert_eq!(tracker.get(3), Some(TokenBucket { tokens: 4 * TOKEN, last_refill: 10 * NANOS_PER_SEC }));
    assert_eq!(tracker.len(), 1);
    assert_eq!(tracker.evict_idle(&config, 1_000 * NANOS_PER_SEC), 1);
    assert_eq!(tracker.len(), 0);
    assert_eq!(tracker.evict_idle(&config, 2_000 * NANOS_PER_SEC), 0);
}

#[test]
fn evicted_source_comes_back_as_new() {
    let config = LimitConfig {
        max_tokens: 2 * TOKEN,
        refill_rate: 1,
        cleanup_interval_secs: 1,
        ip_idle_timeout_secs: 1,
    };
    let mut tracker = IpTracker::new();
    assert!(tracker.check(5, &config, 0));
    assert!(tracker.check(5, &config, 0));
    assert!(!tracker.check(5, &config, 0));
    assert_eq!(tracker.evict_idle(&config, 2 * NANOS_PER_SEC), 1);
    assert!(tracker.check(5, &config, 2 * NANOS_PER_SEC));
    assert_eq!(tracker.get(5), Some(TokenBucket { tokens: TOKEN, last_refill: 2 * NANOS_PER_SEC }));
}

#[test]
fn bucket_idleness() {
    let bucket = TokenBucket { tokens: 0, last_refill: 100 };
    assert!(!bucket.is_idle(100, 0));
    assert!(bucket.is_idle(101, 0));
    assert!(!bucket.is_idle(100 + NANOS_PER_SEC, 1));
    assert!(bucket.is_idle(101 + NANOS_PER_SEC, 1));
    assert!(bucket.is_live(100 + NANOS_PER_SEC, 1));
    assert!(!bucket.is_live(101 + NANOS_PER_SEC, 1));
    // a clock that reads earlier than the bucket makes it no older
    assert!(!bucket.is_idle(0, 0));
    // a timeout beyond the range of the clock is never reached
    assert!(!bucket.is_idle(u64::MAX, u64::MAX));
    let full = TokenBucket::full(&policy(5, 1), 77);
    assert_eq!(full, TokenBucket { tokens: 5 * TOKEN, last_refill: 77 });
}

#[test]
fn admission_of_accepted_connections() {
    let config = policy(1, 1);
    let mut tracker = IpTracker::new();
    // switched off: everything passes and no bucket is made
    for _ in 0..3 {
        assert_eq!(admission(&mut tracker, false, 4, &config, 0), None);
    }
    assert_eq!(tracker.len(), 0);
    // switched on: one token, then the source is turned away
    assert_eq!(admission(&mut tracker, true, 4, &config, 0), None);
    assert_eq!(admission(&mut tracker, true, 4, &config, 0), Some(Rejection::RateLimited));
    assert_eq!(admission(&mut tracker, true, 5, &config, 0), None);
    assert_eq!(tracker.len(), 2);
    assert_eq!(admission(&mut tracker, false, 4, &config, 0), None);
    assert_eq!(tracker.get(4), Some(TokenBucket { tokens: 0, last_refill: 0 }));
}
