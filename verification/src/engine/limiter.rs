//! Per-source admission control: one token bucket for each client address,
//! kept in a concurrent map, and the eviction of buckets that went idle.
//!
//! Tokens are counted in billionths of a token and time in nanoseconds of a
//! monotonic clock, so that every quantity is an exact integer.

use crate::config::LimitConfig;
use crate::engine::connection::Rejection;
use dashmap::DashMap;
use vstd::prelude::*;

verus! {

/// One whole token, in the unit in which buckets count.
pub const TOKEN: u64 = 1_000_000_000;

/// Nanoseconds in a second.
pub const NANOS_PER_SEC: u64 = 1_000_000_000;

/// A token bucket: what is left in it and when it was last refilled.
#[derive(Debug, Clone, Copy, PartialEq, Eq, Structural)]
pub struct TokenBucket {
    /// Content of the bucket, in billionths of a token.
    pub tokens: u64,
    /// Time of the last admission check, in nanoseconds.
    pub last_refill: u64,
}

/// Nanoseconds from `last` to `now`; none when the clock reads earlier
/// than `last`.
pub open spec fn elapsed_since(last: u64, now: u64) -> nat {
    if now >= last {
        (now - last) as nat
    } else {
        0
    }
}

/// What a bucket gains in `elapsed` nanoseconds, rounded down to the unit.
pub open spec fn credit(elapsed: nat, refill_rate: u64) -> nat {
    ((elapsed * refill_rate) / (NANOS_PER_SEC as int)) as nat
}

/// Content of the bucket after the refill that is due at `now`: what it
/// held and what it gained, but no more than the capacity.
pub open spec fn refilled(bucket: TokenBucket, config: LimitConfig, now: u64) -> nat {
    let gained = bucket.tokens + credit(
        elapsed_since(bucket.last_refill, now),
        config.refill_rate,
    );
    if gained <= config.max_tokens {
        gained as nat
    } else {
        config.max_tokens as nat
    }
}

/// A bucket as a new source finds it: full.
pub open spec fn fresh_bucket(config: LimitConfig, now: u64) -> TokenBucket {
    TokenBucket { tokens: config.max_tokens, last_refill: now }
}

/// A check at `now`: the bucket is refilled, and when it then
/// holds a whole token, one is taken and the check passes. The time of the
/// last refill never moves backwards.
pub open spec fn check_spec(bucket: TokenBucket, config: LimitConfig, now: u64) -> (
    TokenBucket,
    bool,
) {
    let tokens = refilled(bucket, config, now);
    let last_refill = if now >= bucket.last_refill {
        now
    } else {
        bucket.last_refill
    };
    if tokens >= TOKEN {
        (TokenBucket { tokens: (tokens - TOKEN) as u64, last_refill }, true)
    } else {
        (TokenBucket { tokens: tokens as u64, last_refill }, false)
    }
}

/// A bucket that no check has touched for longer than the idle timeout.
pub open spec fn is_idle_spec(bucket: TokenBucket, now: u64, idle_timeout_secs: u64) -> bool {
    elapsed_since(bucket.last_refill, now) > idle_timeout_secs * NANOS_PER_SEC
}

impl TokenBucket {
    /// A full bucket, created at `now`.
    pub fn full(config: &LimitConfig, now: u64) -> (bucket: TokenBucket)
        ensures
            bucket == fresh_bucket(*config, now),
    {
        TokenBucket { tokens: config.max_tokens, last_refill: now }
    }

    /// Refills the bucket for the time since the last check and takes one
    /// token if there is one. Returns whether the token was there.
    pub fn check(&mut self, config: &LimitConfig, now: u64) -> (allowed: bool)
        ensures
            (*final(self), allowed) == check_spec(*old(self), *config, now),
            final(self).tokens <= config.max_tokens,
            final(self).last_refill >= old(self).last_refill,
    {
        let elapsed: u64 = if now >= self.last_refill {
            now - self.last_refill
        } else {
            0
        };
        assert(elapsed * config.refill_rate <= 0xFFFF_FFFF_FFFF_FFFF * 0xFFFF_FFFF_FFFF_FFFF)
            by (nonlinear_arith)
            requires
                elapsed <= 0xFFFF_FFFF_FFFF_FFFF,
                config.refill_rate <= 0xFFFF_FFFF_FFFF_FFFF,
        ;
        let product: u128 = (elapsed as u128) * (config.refill_rate as u128);
        let gained: u128 = self.tokens as u128 + product / (NANOS_PER_SEC as u128);
        let tokens: u64 = if gained <= config.max_tokens as u128 {
            gained as u64
        } else {
            config.max_tokens
        };
        if now >= self.last_refill {
            self.last_refill = now;
        }
        if tokens >= TOKEN {
            self.tokens = tokens - TOKEN;
            true
        } else {
            self.tokens = tokens;
            false
        }
    }

    /// Whether the bucket has gone without a check for longer than the
    /// idle timeout.
    pub fn is_idle(&self, now: u64, idle_timeout_secs: u64) -> (idle: bool)
        ensures
            idle == is_idle_spec(*self, now, idle_timeout_secs),
    {
        let elapsed: u64 = if now >= self.last_refill {
            now - self.last_refill
        } else {
            0
        };
        assert(idle_timeout_secs * NANOS_PER_SEC <= 0xFFFF_FFFF_FFFF_FFFF * 1_000_000_000)
            by (nonlinear_arith)
            requires
                idle_timeout_secs <= 0xFFFF_FFFF_FFFF_FFFF,
                NANOS_PER_SEC == 1_000_000_000,
        ;
        let limit: u128 = (idle_timeout_secs as u128) * (NANOS_PER_SEC as u128);
        elapsed as u128 > limit
    }

    /// Whether the bucket is kept by an eviction pass at `now`.
    pub fn is_live(&self, now: u64, idle_timeout_secs: u64) -> (live: bool)
        ensures
            live == !is_idle_spec(*self, now, idle_timeout_secs),
    {
        !self.is_idle(now, idle_timeout_secs)
    }
}

/// The concurrent map of the `dashmap` crate. Nothing of its inside is
/// visible to the verifier.
#[verifier::external_type_specification]
#[verifier::external_body]
#[verifier::reject_recursive_types(K)]
#[verifier::reject_recursive_types(V)]
#[verifier::reject_recursive_types(S)]
pub struct ExDashMap<K, V, S>(DashMap<K, V, S>);

/// The entries of a bucket map: each address that has a bucket, with its
/// bucket.
pub uninterp spec fn bucket_entries(table: DashMap<u128, TokenBucket>) -> Map<u128, TokenBucket>;

/// An empty bucket map.
///
/// Calls `DashMap::new`, which creates a map without entries.
#[verifier::external_body]
fn table_new() -> (created: DashMap<u128, TokenBucket>)
    ensures
        bucket_entries(created) =~= Map::empty(),
{
    DashMap::new()
}

/// The bucket of `addr`, created as `fresh` when the address has none.
///
/// Calls `DashMap::entry` and `Entry::or_insert_with`: an occupied entry is
/// left as it is, a vacant one receives the value that the closure gives;
/// either way the value then stored under the key is handed back, here as
/// a copy.
#[verifier::external_body]
fn table_upsert(table: &mut DashMap<u128, TokenBucket>, addr: u128, fresh: TokenBucket) -> (bucket:
    TokenBucket)
    ensures
        bucket_entries(*final(table)) == (if bucket_entries(*old(table)).contains_key(addr) {
            bucket_entries(*old(table))
        } else {
            bucket_entries(*old(table)).insert(addr, fresh)
        }),
        bucket == bucket_entries(*final(table))[addr],
{
    *table.entry(addr).or_insert_with(|| fresh)
}

/// Stores `bucket` as the bucket of `addr`.
///
/// Calls `DashMap::insert`, which sets the value of the key, replacing
/// the one that was there, and changes no other entry.
#[verifier::external_body]
fn table_store(table: &mut DashMap<u128, TokenBucket>, addr: u128, bucket: TokenBucket)
    ensures
        bucket_entries(*final(table)) == bucket_entries(*old(table)).insert(addr, bucket),
{
    table.insert(addr, bucket);
}

/// Drops the buckets that are idle at `now`.
///
/// Calls `DashMap::retain`, which keeps the entries for which the closure
/// returns true, unchanged, and discards the others.
#[verifier::external_body]
fn table_retain_live(table: &mut DashMap<u128, TokenBucket>, now: u64, idle_timeout_secs: u64)
    ensures
        bucket_entries(*final(table)) == live_entries(
            bucket_entries(*old(table)),
            now,
            idle_timeout_secs,
        ),
{
    table.retain(|_, bucket| bucket.is_live(now, idle_timeout_secs));
}

/// The bucket of `addr`, if it has one.
///
/// Calls `DashMap::get`, which finds the entry of the key, if there is
/// one, and leaves the map as it is; the value found is handed back as a
/// copy.
#[verifier::external_body]
fn table_get(table: &DashMap<u128, TokenBucket>, addr: u128) -> (bucket: Option<TokenBucket>)
    ensures
        bucket == (if bucket_entries(*table).contains_key(addr) {
            Some(bucket_entries(*table)[addr])
        } else {
            None
        }),
{
    table.get(&addr).map(|found| *found)
}

/// Number of buckets in the map.
///
/// Calls `DashMap::len`, which counts the key-value pairs stored.
#[verifier::external_body]
fn table_len(table: &DashMap<u128, TokenBucket>) -> (n: usize)
    ensures
        n == bucket_entries(*table).dom().len(),
{
    table.len()
}

/// The entries whose bucket is not idle at `now`.
pub open spec fn live_entries(
    entries: Map<u128, TokenBucket>,
    now: u64,
    idle_timeout_secs: u64,
) -> Map<u128, TokenBucket> {
    Map::new(
        |addr: u128| entries.contains_key(addr) && !is_idle_spec(entries[addr], now, idle_timeout_secs),
        |addr: u128| entries[addr],
    )
}

/// The buckets of all sources seen, by address. An IPv4 address is keyed
/// as the IPv6 address that it maps to.
pub struct IpTracker {
    table: DashMap<u128, TokenBucket>,
}

impl View for IpTracker {
    type V = Map<u128, TokenBucket>;

    closed spec fn view(&self) -> Map<u128, TokenBucket> {
        bucket_entries(self.table)
    }
}

/// The bucket that the check of `addr` works on: its own, or a full one
/// when the address has none.
pub open spec fn bucket_of(
    entries: Map<u128, TokenBucket>,
    addr: u128,
    config: LimitConfig,
    now: u64,
) -> TokenBucket {
    if entries.contains_key(addr) {
        entries[addr]
    } else {
        fresh_bucket(config, now)
    }
}

impl IpTracker {
    /// A tracker holds finitely many buckets.
    pub open spec fn wf(&self) -> bool {
        self@.dom().finite()
    }

    /// A tracker that has seen no source.
    pub fn new() -> (tracker: IpTracker)
        ensures
            tracker.wf(),
            tracker@ == Map::<u128, TokenBucket>::empty(),
    {
        IpTracker { table: table_new() }
    }

    /// The bucket of `addr`, if the source has one.
    pub fn get(&self, addr: u128) -> (bucket: Option<TokenBucket>)
        ensures
            bucket == (if self@.contains_key(addr) {
                Some(self@[addr])
            } else {
                None
            }),
    {
        table_get(&self.table, addr)
    }

    /// Number of sources that have a bucket.
    pub fn len(&self) -> (n: usize)
        ensures
            n == self@.dom().len(),
    {
        table_len(&self.table)
    }

    /// Admission check for `addr` at `now`: its bucket, or a full one when
    /// it has none, undergoes one check and is stored; no other bucket
    /// changes.
    pub fn check(&mut self, addr: u128, config: &LimitConfig, now: u64) -> (allowed: bool)
        ensures
            old(self).wf() ==> final(self).wf(),
            final(self)@ == old(self)@.insert(
                addr,
                check_spec(bucket_of(old(self)@, addr, *config, now), *config, now).0,
            ),
            allowed == check_spec(bucket_of(old(self)@, addr, *config, now), *config, now).1,
    {
        let fresh = TokenBucket::full(config, now);
        let mut bucket = table_upsert(&mut self.table, addr, fresh);
        let allowed = bucket.check(config, now);
        table_store(&mut self.table, addr, bucket);
        proof {
            assert(final(self)@ =~= old(self)@.insert(addr, bucket));
        }
        allowed
    }

    /// One eviction pass at `now`: the buckets that are idle are dropped,
    /// the others stay as they are. Returns how many were dropped.
    pub fn evict_idle(&mut self, config: &LimitConfig, now: u64) -> (removed: usize)
        requires
            old(self).wf(),
        ensures
            final(self).wf(),
            final(self)@ == live_entries(old(self)@, now, config.ip_idle_timeout_secs),
            removed == old(self)@.dom().len() - final(self)@.dom().len(),
    {
        let before = table_len(&self.table);
        table_retain_live(&mut self.table, now, config.ip_idle_timeout_secs);
        let after = table_len(&self.table);
        proof {
            let kept = final(self)@.dom();
            let all = old(self)@.dom();
            assert(kept.subset_of(all));
            vstd::set_lib::lemma_len_subset(kept, all);
        }
        before - after
    }
}

/// Admission check for the source `addr` at `now`, a reading of a
/// monotonic clock in nanoseconds.
///
/// A source seen for the first time starts with a full bucket. The bucket
/// gains `refill_rate` per second since its last check, up to
/// `max_tokens`; the check passes, and takes one token, when a whole token
/// is there.
pub fn check_rate_limit(tracker: &mut IpTracker, addr: u128, config: &LimitConfig, now: u64) -> (allowed:
    bool)
    ensures
        old(tracker).wf() ==> final(tracker).wf(),
        final(tracker)@ == old(tracker)@.insert(
            addr,
            check_spec(bucket_of(old(tracker)@, addr, *config, now), *config, now).0,
        ),
        allowed == check_spec(bucket_of(old(tracker)@, addr, *config, now), *config, now).1,
{
    tracker.check(addr, config, now)
}

/// The decision on a connection that was just accepted: with rate
/// limiting switched off every connection is admitted and no bucket is
/// touched; with it on, the source undergoes one check, and a source
/// without a token is turned away.
pub fn admission(
    tracker: &mut IpTracker,
    rate_limiter: bool,
    addr: u128,
    config: &LimitConfig,
    now: u64,
) -> (verdict: Option<Rejection>)
    ensures
        old(tracker).wf() ==> final(tracker).wf(),
        !rate_limiter ==> verdict is None && final(tracker)@ == old(tracker)@,
        rate_limiter ==> final(tracker)@ == old(tracker)@.insert(
            addr,
            check_spec(bucket_of(old(tracker)@, addr, *config, now), *config, now).0,
        ),
        rate_limiter ==> verdict == (if check_spec(
            bucket_of(old(tracker)@, addr, *config, now),
            *config,
            now,
        ).1 {
            None
        } else {
            Some(Rejection::RateLimited)
        }),
{
    if !rate_limiter || check_rate_limit(tracker, addr, config, now) {
        None
    } else {
        Some(Rejection::RateLimited)
    }
}

/// The bucket after a series of checks at the given times, in order, and
/// the number of them that passed.
pub open spec fn run_checks(bucket: TokenBucket, config: LimitConfig, times: Seq<u64>) -> (
    TokenBucket,
    nat,
)
    decreases times.len(),
{
    if times.len() == 0 {
        (bucket, 0)
    } else {
        let (before, passed) = run_checks(bucket, config, times.drop_last());
        let (after, allowed) = check_spec(before, config, times.last());
        (
            after,
            if allowed {
                passed + 1
            } else {
                passed
            },
        )
    }
}

/// What a bucket holds and what was taken from it since `origin` is
/// covered by a full bucket and the refill since `origin`.
pub open spec fn within_budget(
    bucket: TokenBucket,
    passed: nat,
    config: LimitConfig,
    origin: u64,
) -> bool {
    &&& bucket.last_refill >= origin
    &&& bucket.tokens * NANOS_PER_SEC + passed * TOKEN * NANOS_PER_SEC <= config.max_tokens
        * NANOS_PER_SEC + config.refill_rate * (bucket.last_refill - origin)
}

/// The first check of a series starts the account: whatever the bucket
/// held, it is at most full afterwards, the token taken included.
proof fn lemma_budget_starts(bucket: TokenBucket, config: LimitConfig, now: u64)
    ensures
        within_budget(
            check_spec(bucket, config, now).0,
            if check_spec(bucket, config, now).1 {
                1
            } else {
                0
            },
            config,
            check_spec(bucket, config, now).0.last_refill,
        ),
        check_spec(bucket, config, now).0.last_refill >= now,
{
    let after = check_spec(bucket, config, now).0;
    assert(config.refill_rate * (after.last_refill - after.last_refill) == 0) by (nonlinear_arith);
}

/// A check keeps the account: the bucket gains no more than the refill
/// for the time by which its clock advances.
proof fn lemma_budget_kept(
    bucket: TokenBucket,
    passed: nat,
    config: LimitConfig,
    origin: u64,
    now: u64,
)
    requires
        within_budget(bucket, passed, config, origin),
    ensures
        within_budget(
            check_spec(bucket, config, now).0,
            if check_spec(bucket, config, now).1 {
                passed + 1
            } else {
                passed
            },
            config,
            origin,
        ),
        check_spec(bucket, config, now).0.last_refill == bucket.last_refill || check_spec(
            bucket,
            config,
            now,
        ).0.last_refill == now,
{
    let after = check_spec(bucket, config, now).0;
    let elapsed = elapsed_since(bucket.last_refill, now);
    let product = elapsed * config.refill_rate;
    let gain = credit(elapsed, config.refill_rate);
    assert(product >= 0) by (nonlinear_arith)
        requires
            product == elapsed * config.refill_rate,
    ;
    assert(gain * NANOS_PER_SEC <= product);
    assert(after.last_refill - origin == (bucket.last_refill - origin) + elapsed);
    assert(config.refill_rate * (after.last_refill - origin) == config.refill_rate * (
    bucket.last_refill - origin) + product) by (nonlinear_arith)
        requires
            after.last_refill - origin == (bucket.last_refill - origin) + elapsed,
            product == elapsed * config.refill_rate,
    ;
}

/// The account of a whole series, opened by its first check.
proof fn lemma_budget_of_series(
    bucket: TokenBucket,
    config: LimitConfig,
    times: Seq<u64>,
    window_end: int,
)
    requires
        times.len() > 0,
        forall|i: int| 0 <= i < times.len() ==> #[trigger] times[i] <= window_end,
    ensures
        within_budget(
            run_checks(bucket, config, times).0,
            run_checks(bucket, config, times).1,
            config,
            check_spec(bucket, config, times[0]).0.last_refill,
        ),
        run_checks(bucket, config, times).0.last_refill == check_spec(
            bucket,
            config,
            times[0],
        ).0.last_refill || run_checks(bucket, config, times).0.last_refill <= window_end,
    decreases times.len(),
{
    let origin = check_spec(bucket, config, times[0]).0.last_refill;
    if times.len() == 1 {
        assert(times.drop_last() =~= Seq::<u64>::empty());
        assert(run_checks(bucket, config, times.drop_last()) == (bucket, 0nat));
        lemma_budget_starts(bucket, config, times[0]);
    } else {
        let earlier = times.drop_last();
        assert(earlier[0] == times[0]);
        assert forall|i: int| 0 <= i < earlier.len() implies #[trigger] earlier[i]
            <= window_end by {
            assert(earlier[i] == times[i]);
        }
        lemma_budget_of_series(bucket, config, earlier, window_end);
        let (before, passed) = run_checks(bucket, config, earlier);
        lemma_budget_kept(before, passed, config, origin, times.last());
    }
}

/// The burst bound of the token bucket. Of the checks that one bucket
/// undergoes at times that lie within a window, whatever the bucket held
/// before and in whatever order the times come, no more pass than a full
/// bucket and the refill of the window pay for: in whole tokens, at most
/// `max_tokens` plus `refill_rate` times the length of the window.
pub proof fn lemma_burst_bound(
    bucket: TokenBucket,
    config: LimitConfig,
    times: Seq<u64>,
    window_start: u64,
    window: nat,
)
    requires
        forall|i: int|
            0 <= i < times.len() ==> window_start <= #[trigger] times[i] <= window_start + window,
    ensures
        run_checks(bucket, config, times).1 * TOKEN * NANOS_PER_SEC <= config.max_tokens
            * NANOS_PER_SEC + config.refill_rate * window,
{
    if times.len() == 0 {
        assert(config.refill_rate * window >= 0) by (nonlinear_arith);
    } else {
        lemma_budget_of_series(bucket, config, times, window_start + window);
        lemma_budget_starts(bucket, config, times[0]);
        let origin = check_spec(bucket, config, times[0]).0.last_refill;
        let last = run_checks(bucket, config, times).0.last_refill;
        assert(last - origin <= window);
        assert(config.refill_rate * (last - origin) <= config.refill_rate * window)
            by (nonlinear_arith)
            requires
                0 <= last - origin <= window,
        ;
    }
}

/// A series of checks is its first part followed by the rest, which
/// begins with the bucket that the first part left.
proof fn lemma_run_checks_split(
    bucket: TokenBucket,
    config: LimitConfig,
    first: Seq<u64>,
    rest: Seq<u64>,
)
    ensures
        run_checks(bucket, config, first + rest).0 == run_checks(
            run_checks(bucket, config, first).0,
            config,
            rest,
        ).0,
        run_checks(bucket, config, first + rest).1 == run_checks(bucket, config, first).1
            + run_checks(run_checks(bucket, config, first).0, config, rest).1,
    decreases rest.len(),
{
    if rest.len() == 0 {
        assert(first + rest =~= first);
    } else {
        assert((first + rest).drop_last() =~= first + rest.drop_last());
        assert((first + rest).last() == rest.last());
        lemma_run_checks_split(bucket, config, first, rest.drop_last());
    }
}

/// The burst bound inside a longer history. Of the checks that a bucket
/// undergoes, take any stretch, from the check numbered `from` up to but
/// not including the one numbered `to`: when their times lie within a
/// window, the stretch holds no more passes than a full bucket and the
/// refill of the window pay for, whatever happened before it.
pub proof fn lemma_burst_bound_in_history(
    bucket: TokenBucket,
    config: LimitConfig,
    times: Seq<u64>,
    from: int,
    to: int,
    window_start: u64,
    window: nat,
)
    requires
        0 <= from <= to <= times.len(),
        forall|i: int|
            from <= i < to ==> window_start <= #[trigger] times[i] <= window_start + window,
    ensures
        (run_checks(bucket, config, times.take(to)).1 - run_checks(
            bucket,
            config,
            times.take(from),
        ).1) * TOKEN * NANOS_PER_SEC <= config.max_tokens * NANOS_PER_SEC + config.refill_rate
            * window,
{
    let stretch = times.subrange(from, to);
    assert(times.take(to) =~= times.take(from) + stretch);
    lemma_run_checks_split(bucket, config, times.take(from), stretch);
    lemma_burst_bound(
        run_checks(bucket, config, times.take(from)).0,
        config,
        stretch,
        window_start,
        window,
    );
}

} // verus!
