//! Fixed-window request rate limiter.
//!
//! Every inbound request carries one or more caller identities (the client
//! address, and the authenticated user when a session is present) and an
//! operation class with its own budget. Each `(identity, class)` pair owns a
//! window counter; a request is admitted only when every one of its identities
//! is under its limit, and a denied request reports the longest wait among the
//! identities that are over budget.
//!
//! The clock is supplied by the caller as a monotonic reading in milliseconds;
//! the limiter itself performs no I/O.

use vstd::prelude::*;

verus! {

/// Operation class of a request. Reads and mutations have independent budgets.
#[derive(Clone, Copy, Debug, PartialEq, Eq, Structural)]
pub enum RateLimitBucket {
    Read,
    Mutation,
}

/// HTTP method of an inbound request, as the boundary reports it.
#[derive(Clone, Copy, Debug, PartialEq, Eq, Structural)]
pub enum HttpMethod {
    Get,
    Head,
    Options,
    Trace,
    Connect,
    Post,
    Put,
    Delete,
    Patch,
}

impl HttpMethod {
    /// Whether a request with this method carries a payload.
    pub open spec fn spec_supports_payload(self) -> bool {
        match self {
            HttpMethod::Post | HttpMethod::Put | HttpMethod::Delete | HttpMethod::Patch => true,
            _ => false,
        }
    }

    /// Whether a request with this method carries a payload.
    pub fn supports_payload(self) -> (r: bool)
        ensures
            r == self.spec_supports_payload(),
    {
        match self {
            HttpMethod::Post | HttpMethod::Put | HttpMethod::Delete | HttpMethod::Patch => true,
            _ => false,
        }
    }
}

impl RateLimitBucket {
    /// The class of a method: methods that carry a payload mutate state.
    pub fn from_method(method: HttpMethod) -> (r: Self)
        ensures
            r == (if method.spec_supports_payload() {
                RateLimitBucket::Mutation
            } else {
                RateLimitBucket::Read
            }),
    {
        if method.supports_payload() {
            RateLimitBucket::Mutation
        } else {
            RateLimitBucket::Read
        }
    }
}

/// A caller identity: requests are budgeted independently per identity.
#[derive(Debug)]
pub enum RateLimitIdentity {
    /// The client network address, as a string.
    Ip(String),
    /// The authenticated user id.
    User(String),
}

/// Mathematical value of a caller identity.
pub enum IdentityKey {
    Ip(Seq<char>),
    User(Seq<char>),
}

impl View for RateLimitIdentity {
    type V = IdentityKey;

    open spec fn view(&self) -> IdentityKey {
        match self {
            RateLimitIdentity::Ip(s) => IdentityKey::Ip(s@),
            RateLimitIdentity::User(s) => IdentityKey::User(s@),
        }
    }
}

impl Clone for RateLimitIdentity {
    fn clone(&self) -> (r: Self)
        ensures
            r == *self,
    {
        match self {
            RateLimitIdentity::Ip(s) => RateLimitIdentity::Ip(s.clone()),
            RateLimitIdentity::User(s) => RateLimitIdentity::User(s.clone()),
        }
    }
}

/// Whether two identities denote the same caller.
pub fn identity_eq(a: &RateLimitIdentity, b: &RateLimitIdentity) -> (r: bool)
    ensures
        r == (a@ == b@),
{
    match (a, b) {
        (RateLimitIdentity::Ip(x), RateLimitIdentity::Ip(y)) => x.eq(y),
        (RateLimitIdentity::User(x), RateLimitIdentity::User(y)) => x.eq(y),
        _ => false,
    }
}

/// The pair a window counter is keyed by.
#[derive(Debug)]
pub struct RateLimitKey {
    pub identity: RateLimitIdentity,
    pub bucket: RateLimitBucket,
}

impl Clone for RateLimitKey {
    fn clone(&self) -> (r: Self)
        ensures
            r == *self,
    {
        RateLimitKey { identity: self.identity.clone(), bucket: self.bucket }
    }
}

impl View for RateLimitKey {
    type V = (IdentityKey, RateLimitBucket);

    open spec fn view(&self) -> (IdentityKey, RateLimitBucket) {
        (self.identity@, self.bucket)
    }
}

/// One fixed-window counter: requests admitted since `window_start`.
#[derive(Debug)]
pub struct WindowCounter {
    pub key: RateLimitKey,
    /// Clock reading at which the current window opened, in milliseconds.
    pub window_start: u64,
    /// Requests admitted in the current window.
    pub count: u32,
}

impl Clone for WindowCounter {
    fn clone(&self) -> (r: Self)
        ensures
            r == *self,
    {
        WindowCounter { key: self.key.clone(), window_start: self.window_start, count: self.count }
    }
}

/// Limiter configuration: per-class budgets over a fixed window.
#[derive(Clone, Debug)]
pub struct RateLimitConfig {
    pub read_limit: u32,
    pub mutation_limit: u32,
    /// Window length in milliseconds.
    pub window_millis: u64,
}

impl Default for RateLimitConfig {
    /// 300 reads and 60 mutations per minute.
    fn default() -> (r: Self)
        ensures
            r.read_limit == 300,
            r.mutation_limit == 60,
            r.window_millis == 60000,
    {
        RateLimitConfig { read_limit: 300, mutation_limit: 60, window_millis: 60000 }
    }
}

/// Outcome of a rate-limit check.
#[derive(Clone, Copy, Debug, PartialEq, Eq, Structural)]
pub enum RateLimitDecision {
    /// The request may proceed.
    Allow,
    /// The request is denied; the caller should retry no sooner than this.
    Limited { retry_after_millis: u64 },
}

/// Milliseconds of the current window already spent at clock reading `now`.
///
/// The clock is monotonic, so `now` is never expected below `window_start`;
/// if it is, the elapsed time is taken as zero.
pub open spec fn elapsed_millis(c: WindowCounter, now: u64) -> u64 {
    if now >= c.window_start {
        (now - c.window_start) as u64
    } else {
        0
    }
}

/// Whether the counter's window is over at clock reading `now`.
pub open spec fn window_elapsed(c: WindowCounter, now: u64, window_millis: u64) -> bool {
    elapsed_millis(c, now) >= window_millis
}

/// The counter after the lazy window reset: an expired window opens anew at
/// `now` with a zero count.
pub open spec fn counter_after_reset(c: WindowCounter, now: u64, window_millis: u64) -> WindowCounter {
    if window_elapsed(c, now, window_millis) {
        WindowCounter { window_start: now, count: 0, ..c }
    } else {
        c
    }
}

/// Milliseconds until the counter's window ends, saturating to zero.
pub open spec fn remaining_millis(c: WindowCounter, now: u64, window_millis: u64) -> u64 {
    if window_millis >= elapsed_millis(c, now) {
        (window_millis - elapsed_millis(c, now)) as u64
    } else {
        0
    }
}

/// The counter after one request: reset if expired, then admit (increment)
/// only when under the limit.
pub open spec fn counter_step(c: WindowCounter, now: u64, window_millis: u64, limit: u32) -> WindowCounter {
    let c2 = counter_after_reset(c, now, window_millis);
    if c2.count >= limit {
        c2
    } else {
        WindowCounter { count: (c2.count + 1) as u32, ..c2 }
    }
}

/// The denial this request earns from this counter: `Some(retry_after)` when
/// the counter is at its limit after the lazy reset, else `None`.
pub open spec fn counter_denial(c: WindowCounter, now: u64, window_millis: u64, limit: u32) -> Option<u64> {
    let c2 = counter_after_reset(c, now, window_millis);
    if c2.count >= limit {
        Some(remaining_millis(c2, now, window_millis))
    } else {
        None
    }
}

/// A counter as first created for a key: window opens at `now`, nothing
/// admitted yet.
pub open spec fn fresh_counter(key: RateLimitKey, now: u64) -> WindowCounter {
    WindowCounter { key, window_start: now, count: 0 }
}

/// Whether a counter has sat idle for a whole window beyond its expiry: the
/// next request under its key would reset it anyway, so it may be dropped.
pub open spec fn counter_stale(c: WindowCounter, now: u64, window_millis: u64) -> bool {
    elapsed_millis(c, now) as int >= 2 * window_millis as int
}

/// The counters worth keeping at clock reading `now`: the stale ones
/// removed, state and order of the rest untouched.
pub open spec fn live_counters(entries: Seq<WindowCounter>, now: u64, window_millis: u64) -> Seq<WindowCounter> {
    entries.filter(|c: WindowCounter| !counter_stale(c, now, window_millis))
}

/// First index in `entries` keyed by `key`, or `-1` when absent.
pub open spec fn find_index(entries: Seq<WindowCounter>, key: (IdentityKey, RateLimitBucket)) -> int
    decreases entries.len(),
{
    if entries.len() == 0 {
        -1
    } else if entries[0].key@ == key {
        0
    } else {
        let r = find_index(entries.drop_first(), key);
        if r < 0 {
            -1
        } else {
            r + 1
        }
    }
}

/// `find_index` returns the position of the first counter keyed by `key`:
/// scanning past `i` mismatches and hitting a match at `i` (or the end) pins
/// its value.
proof fn lemma_find_index_at(entries: Seq<WindowCounter>, key: (IdentityKey, RateLimitBucket), i: int)
    requires
        0 <= i <= entries.len(),
        forall|k: int| 0 <= k < i ==> entries[k].key@ != key,
        i < entries.len() ==> entries[i].key@ == key,
    ensures
        i < entries.len() ==> find_index(entries, key) == i,
        i == entries.len() ==> find_index(entries, key) == -1,
    decreases entries.len(),
{
    if entries.len() > 0 {
        if entries[0].key@ == key {
            assert(i == 0);
        } else {
            let rest = entries.drop_first();
            assert(forall|k: int| 0 <= k < i - 1 ==> rest[k].key@ != key);
            lemma_find_index_at(rest, key, i - 1);
        }
    }
}

/// What `find_index` found: the first match at the returned index, or no
/// match at all.
proof fn lemma_find_index_found(entries: Seq<WindowCounter>, key: (IdentityKey, RateLimitBucket))
    ensures
        find_index(entries, key) == -1 ==> forall|k: int|
            0 <= k < entries.len() ==> entries[k].key@ != key,
        find_index(entries, key) != -1 ==> 0 <= find_index(entries, key) < entries.len()
            && entries[find_index(entries, key)].key@ == key,
        find_index(entries, key) != -1 ==> forall|k: int|
            0 <= k < find_index(entries, key) ==> entries[k].key@ != key,
    decreases entries.len(),
{
    if entries.len() > 0 && entries[0].key@ != key {
        let rest = entries.drop_first();
        lemma_find_index_found(rest, key);
        if find_index(entries, key) == -1 {
            assert forall|k: int| 0 <= k < entries.len() implies entries[k].key@ != key by {
                if k > 0 {
                    assert(rest[k - 1] == entries[k]);
                }
            }
        } else {
            assert forall|k: int| 0 <= k < find_index(entries, key) implies entries[k].key@ != key by {
                if k > 0 {
                    assert(rest[k - 1] == entries[k]);
                }
            }
        }
    }
}

/// One identity's visit to the store: the entries afterwards, and the denial
/// it earned, if any.
pub open spec fn process_one(
    entries: Seq<WindowCounter>,
    identity: RateLimitIdentity,
    bucket: RateLimitBucket,
    now: u64,
    window_millis: u64,
    limit: u32,
) -> (Seq<WindowCounter>, Option<u64>) {
    let key = (identity@, bucket);
    let fi = find_index(entries, key);
    if fi >= 0 {
        (
            entries.update(fi, counter_step(entries[fi], now, window_millis, limit)),
            counter_denial(entries[fi], now, window_millis, limit),
        )
    } else {
        let fresh = fresh_counter(RateLimitKey { identity, bucket }, now);
        (
            entries.push(counter_step(fresh, now, window_millis, limit)),
            counter_denial(fresh, now, window_millis, limit),
        )
    }
}

/// The harsher of two denials: a wait dominates none, and the longer of two
/// waits dominates the shorter.
pub open spec fn worst_denial(a: Option<u64>, b: Option<u64>) -> Option<u64> {
    match (a, b) {
        (Option::None, d) => d,
        (d, Option::None) => d,
        (Option::Some(x), Option::Some(y)) => Option::Some(if x >= y { x } else { y }),
    }
}

/// The whole check: every identity visits the store in order, and the
/// decision is the worst denial any of them earned.
pub open spec fn run_identities(
    entries: Seq<WindowCounter>,
    ids: Seq<RateLimitIdentity>,
    bucket: RateLimitBucket,
    now: u64,
    window_millis: u64,
    limit: u32,
) -> (Seq<WindowCounter>, Option<u64>)
    decreases ids.len(),
{
    if ids.len() == 0 {
        (entries, Option::None)
    } else {
        let (e1, d1) = process_one(entries, ids[0], bucket, now, window_millis, limit);
        let (e2, d2) = run_identities(e1, ids.drop_first(), bucket, now, window_millis, limit);
        (e2, worst_denial(d1, d2))
    }
}

/// The in-process request rate limiter: a fixed-window counter per
/// `(identity, class)` pair.
#[derive(Debug)]
pub struct RateLimiter {
    pub config: RateLimitConfig,
    pub counters: Vec<WindowCounter>,
}

impl RateLimiter {
    /// Counters are keyed uniquely: the store is a map.
    pub open spec fn wf(self) -> bool {
        forall|i: int, j: int|
            0 <= i < j < self.counters@.len() ==> self.counters@[i].key@ != self.counters@[j].key@
    }

    /// The budget of an operation class.
    pub open spec fn spec_limit_for(self, bucket: RateLimitBucket) -> u32 {
        match bucket {
            RateLimitBucket::Read => self.config.read_limit,
            RateLimitBucket::Mutation => self.config.mutation_limit,
        }
    }

    /// A limiter with no counters yet.
    pub fn new(config: RateLimitConfig) -> (r: Self)
        ensures
            r.wf(),
            r.config == config,
            r.counters@.len() == 0,
    {
        RateLimiter { config, counters: Vec::new() }
    }

    /// The budget of an operation class.
    pub fn limit_for_bucket(&self, bucket: RateLimitBucket) -> (r: u32)
        ensures
            r == self.spec_limit_for(bucket),
    {
        match bucket {
            RateLimitBucket::Read => self.config.read_limit,
            RateLimitBucket::Mutation => self.config.mutation_limit,
        }
    }

    /// Decide one request at clock reading `now` (milliseconds, monotonic).
    ///
    /// Every identity the request carries is checked against its own counter
    /// for `bucket`; identities under their limit are charged one request even
    /// when another identity is over budget, and the decision reports the
    /// longest remaining wait among the identities that were over.
    pub fn check(
        &mut self,
        identities: &[RateLimitIdentity],
        bucket: RateLimitBucket,
        now: u64,
    ) -> (r: RateLimitDecision)
        requires
            old(self).wf(),
        ensures
            final(self).wf(),
            final(self).config == old(self).config,
            ({
                let (entries, denial) = run_identities(
                    old(self).counters@,
                    identities@,
                    bucket,
                    now,
                    old(self).config.window_millis,
                    old(self).spec_limit_for(bucket),
                );
                final(self).counters@ == entries && r == (match denial {
                    Option::Some(ms) => RateLimitDecision::Limited { retry_after_millis: ms },
                    Option::None => RateLimitDecision::Allow,
                })
            }),
    {
        let limit = self.limit_for_bucket(bucket);
        let window = self.config.window_millis;
        let ghost goal = run_identities(
            self.counters@,
            identities@,
            bucket,
            now,
            window,
            limit,
        );
        let mut retry_after: Option<u64> = None;
        let mut idx: usize = 0;
        proof {
            assert(identities@.skip(0) =~= identities@);
        }
        while idx < identities.len()
            invariant
                idx <= identities@.len(),
                self.wf(),
                self.config == old(self).config,
                window == self.config.window_millis,
                limit == old(self).spec_limit_for(bucket),
                goal == run_identities(
                    old(self).counters@,
                    identities@,
                    bucket,
                    now,
                    window,
                    limit,
                ),
                ({
                    let (re, rd) = run_identities(
                        self.counters@,
                        identities@.skip(idx as int),
                        bucket,
                        now,
                        window,
                        limit,
                    );
                    re == goal.0 && worst_denial(retry_after, rd) == goal.1
                }),
            decreases identities@.len() - idx,
        {
            let ghost entries_before = self.counters@;
            let ghost rest = identities@.skip(idx as int);
            proof {
                assert(rest[0] == identities@[idx as int]);
                assert(rest.drop_first() =~= identities@.skip(idx as int + 1));
            }
            let identity = &identities[idx];
            let ghost key = (identity@, bucket);
            let ghost (e1, d1) = process_one(entries_before, identities@[idx as int], bucket, now, window, limit);
            match Self::find_counter(&self.counters, identity, bucket) {
                Some(i) => {
                    proof {
                        lemma_find_index_found(entries_before, key);
                    }
                    let ghost old_counter = entries_before[i as int];
                    let c = &mut self.counters[i];
                    let elapsed = if now >= c.window_start {
                        now - c.window_start
                    } else {
                        0
                    };
                    if elapsed >= window {
                        c.window_start = now;
                        c.count = 0;
                    }
                    proof {
                        assert(*c == counter_after_reset(old_counter, now, window));
                    }
                    if c.count >= limit {
                        let elapsed2 = if now >= c.window_start {
                            now - c.window_start
                        } else {
                            0
                        };
                        let remaining = if window >= elapsed2 {
                            window - elapsed2
                        } else {
                            0
                        };
                        proof {
                            assert(d1 == Option::Some(remaining));
                        }
                        retry_after = Some(
                            match retry_after {
                                Some(cur) => if cur >= remaining {
                                    cur
                                } else {
                                    remaining
                                },
                                None => remaining,
                            },
                        );
                    } else {
                        c.count = c.count + 1;
                        proof {
                            assert(d1 is None);
                        }
                    }
                    proof {
                        assert(self.counters@[i as int] == counter_step(old_counter, now, window, limit));
                        assert(self.counters@ =~= e1);
                    }
                },
                None => {
                    proof {
                        lemma_find_index_found(entries_before, key);
                    }
                    let key_owned = RateLimitKey { identity: identity.clone(), bucket };
                    if limit == 0 {
                        proof {
                            assert(d1 == Option::Some(window));
                        }
                        retry_after = Some(
                            match retry_after {
                                Some(cur) => if cur >= window {
                                    cur
                                } else {
                                    window
                                },
                                None => window,
                            },
                        );
                        self.counters.push(WindowCounter { key: key_owned, window_start: now, count: 0 });
                    } else {
                        proof {
                            assert(d1 is None);
                        }
                        self.counters.push(WindowCounter { key: key_owned, window_start: now, count: 1 });
                    }
                    proof {
                        assert(self.counters@ =~= e1);
                        assert(forall|k: int|
                            0 <= k < entries_before.len() ==> entries_before[k].key@ != key);
                    }
                },
            }
            proof {
                let (re2, rd2) = run_identities(
                    self.counters@,
                    identities@.skip(idx as int + 1),
                    bucket,
                    now,
                    window,
                    limit,
                );
                assert(worst_denial(worst_denial(retry_after, d1), rd2)
                    == worst_denial(retry_after, worst_denial(d1, rd2)));
            }
            idx = idx + 1;
        }
        proof {
            assert(identities@.skip(identities@.len() as int) =~= Seq::<RateLimitIdentity>::empty());
        }
        match retry_after {
            Some(ms) => RateLimitDecision::Limited { retry_after_millis: ms },
            None => RateLimitDecision::Allow,
        }
    }

    /// Evict every counter whose window has been over for at least one
    /// further whole window. Such an entry would be reset before its next
    /// use anyway; sweeping it bounds the store under identity churn. Live
    /// counters keep their state and order.
    pub fn sweep_expired(&mut self, now: u64)
        requires
            old(self).wf(),
        ensures
            final(self).wf(),
            final(self).config == old(self).config,
            final(self).counters@ == live_counters(
                old(self).counters@,
                now,
                old(self).config.window_millis,
            ),
    {
        let window = self.config.window_millis;
        let mut kept: Vec<WindowCounter> = Vec::new();
        let mut i: usize = 0;
        proof {
            reveal(Seq::filter);
            assert(self.counters@.subrange(0, 0) =~= Seq::<WindowCounter>::empty());
        }
        while i < self.counters.len()
            invariant
                i <= self.counters@.len(),
                self.counters@ == old(self).counters@,
                self.config == old(self).config,
                window == self.config.window_millis,
                old(self).wf(),
                kept@ == live_counters(self.counters@.subrange(0, i as int), now, window),
                forall|a: int|
                    0 <= a < kept@.len() ==> exists|j: int|
                        0 <= j < i && #[trigger] kept@[a] == self.counters@[j],
                forall|a: int, b: int| 0 <= a < b < kept@.len() ==> kept@[a].key@ != kept@[b].key@,
            decreases self.counters@.len() - i,
        {
            let c = &self.counters[i];
            let elapsed = if now >= c.window_start {
                now - c.window_start
            } else {
                0
            };
            let stale = elapsed >= window && elapsed - window >= window;
            proof {
                assert(stale == counter_stale(self.counters@[i as int], now, window));
            }
            if !stale {
                let ghost kept_before = kept@;
                kept.push(c.clone());
                proof {
                    assert forall|a: int| 0 <= a < kept@.len() - 1 implies kept@[a].key@
                        != self.counters@[i as int].key@ by {
                        assert(kept@[a] == kept_before[a]);
                    }
                }
            }
            proof {
                reveal(Seq::filter);
                let prefix = self.counters@.subrange(0, i as int);
                let prefix2 = self.counters@.subrange(0, i as int + 1);
                assert(prefix2.drop_last() =~= prefix);
                assert(prefix2.last() == self.counters@[i as int]);
                assert(kept@ == live_counters(prefix2, now, window));
            }
            i = i + 1;
        }
        proof {
            assert(self.counters@.subrange(0, self.counters@.len() as int) =~= self.counters@);
        }
        self.counters = kept;
    }

    /// Position of the counter keyed by `(identity, bucket)`, if one is
    /// present.
    fn find_counter(
        counters: &Vec<WindowCounter>,
        identity: &RateLimitIdentity,
        bucket: RateLimitBucket,
    ) -> (r: Option<usize>)
        ensures
            ({
                let fi = find_index(counters@, (identity@, bucket));
                match r {
                    Option::Some(i) => fi == i && i < counters@.len(),
                    Option::None => fi == -1,
                }
            }),
    {
        let ghost key = (identity@, bucket);
        let mut j: usize = 0;
        while j < counters.len()
            invariant
                j <= counters@.len(),
                key == (identity@, bucket),
                forall|k: int| 0 <= k < j ==> counters@[k].key@ != key,
            decreases counters@.len() - j,
        {
            if identity_eq(&counters[j].key.identity, identity) && counters[j].key.bucket == bucket {
                proof {
                    lemma_find_index_at(counters@, key, j as int);
                }
                return Some(j);
            }
            j = j + 1;
        }
        proof {
            lemma_find_index_at(counters@, key, counters@.len() as int);
        }
        None
    }
}

/// Retry-After seconds for a denial: the wait in milliseconds rounded up to
/// whole seconds, and never below one second.
pub open spec fn spec_retry_after_secs(retry_after_millis: u64) -> u64 {
    let c: int = if retry_after_millis % 1000 == 0 {
        retry_after_millis as int / 1000
    } else {
        retry_after_millis as int / 1000 + 1
    };
    if c == 0 {
        1
    } else {
        c as u64
    }
}

/// The boundary's answer to a limited request: how many whole seconds the
/// caller must wait before retrying.
#[derive(Clone, Copy, Debug)]
pub struct RateLimitError {
    pub retry_after_secs: u64,
}

impl RateLimitError {
    /// Round the remaining wait up to whole seconds, at least one.
    pub fn new(retry_after_millis: u64) -> (r: Self)
        ensures
            r.retry_after_secs == spec_retry_after_secs(retry_after_millis),
    {
        let q = retry_after_millis / 1000;
        let seconds = if retry_after_millis % 1000 == 0 {
            q
        } else {
            q + 1
        };
        if seconds == 0 {
            RateLimitError { retry_after_secs: 1 }
        } else {
            RateLimitError { retry_after_secs: seconds }
        }
    }
}

/// The denials earned by one identity calling the limiter repeatedly: the
/// store evolves call by call, and each call contributes its own denial.
pub open spec fn decisions_of_calls(
    entries: Seq<WindowCounter>,
    identity: RateLimitIdentity,
    bucket: RateLimitBucket,
    times: Seq<u64>,
    window_millis: u64,
    limit: u32,
) -> Seq<Option<u64>>
    decreases times.len(),
{
    if times.len() == 0 {
        Seq::empty()
    } else {
        let (e1, d1) = process_one(entries, identity, bucket, times[0], window_millis, limit);
        seq![d1] + decisions_of_calls(e1, identity, bucket, times.drop_first(), window_millis, limit)
    }
}

/// Inductive core of the fixed-window laws: once the identity's counter sits
/// at index `i` with its window open at `start` and `base` requests already
/// made in it, further calls within the window are allowed exactly while the
/// running total stays under the limit, and every denial waits at most one
/// window.
proof fn lemma_counter_run(
    entries: Seq<WindowCounter>,
    identity: RateLimitIdentity,
    bucket: RateLimitBucket,
    times: Seq<u64>,
    window_millis: u64,
    limit: u32,
    i: int,
    start: u64,
    base: int,
)
    requires
        0 <= i < entries.len(),
        find_index(entries, (identity@, bucket)) == i,
        entries[i].window_start == start,
        base >= 0,
        entries[i].count == (if base < limit { base } else { limit as int }),
        forall|k: int| 0 <= k < times.len() ==> start <= #[trigger] times[k] < start + window_millis,
    ensures
        ({
            let ds = decisions_of_calls(entries, identity, bucket, times, window_millis, limit);
            ds.len() == times.len()
            && (forall|k: int| 0 <= k < ds.len() ==> ((#[trigger] ds[k]) is None <==> base + k < limit))
            && (forall|k: int| 0 <= k < ds.len() ==> ((#[trigger] ds[k]) matches Some(ms) ==> ms <= window_millis))
        }),
    decreases times.len(),
{
    if times.len() > 0 {
        let key = (identity@, bucket);
        lemma_find_index_found(entries, key);
        let t0 = times[0];
        let c = entries[i];
        assert(!window_elapsed(c, t0, window_millis));
        let (e1, d1) = process_one(entries, identity, bucket, t0, window_millis, limit);
        assert(forall|k: int| 0 <= k < i ==> e1[k].key@ != key);
        assert(e1[i].key@ == key);
        lemma_find_index_at(e1, key, i);
        let rest = times.drop_first();
        assert(forall|k: int| 0 <= k < rest.len() ==> start <= #[trigger] rest[k] < start + window_millis);
        lemma_counter_run(e1, identity, bucket, rest, window_millis, limit, i, start, base + 1);
        let ds = decisions_of_calls(entries, identity, bucket, times, window_millis, limit);
        let ds_rest = decisions_of_calls(e1, identity, bucket, rest, window_millis, limit);
        assert(ds == seq![d1] + ds_rest);
        assert forall|k: int| 0 <= k < ds.len() implies ((#[trigger] ds[k]) is None <==> base + k < limit)
            && (ds[k] matches Some(ms) ==> ms <= window_millis) by {
            if k == 0 {
                assert(ds[0] == d1);
            } else {
                assert(ds[k] == ds_rest[k - 1]);
            }
        }
    }
}

/// Law: the fixed window admits exactly the budget. Starting from a store
/// with no counter for the identity, a sequence of requests all within one
/// window of the first is allowed precisely on its first `limit` requests,
/// and every denial carries a wait of at most one window.
pub proof fn lemma_fixed_window_admissions(
    identity: RateLimitIdentity,
    bucket: RateLimitBucket,
    times: Seq<u64>,
    window_millis: u64,
    limit: u32,
)
    requires
        forall|k: int| 0 <= k < times.len() ==> times[0] <= #[trigger] times[k] < times[0] + window_millis,
    ensures
        ({
            let ds = decisions_of_calls(Seq::empty(), identity, bucket, times, window_millis, limit);
            ds.len() == times.len()
            && (forall|k: int| 0 <= k < ds.len() ==> ((#[trigger] ds[k]) is None <==> k < limit))
            && (forall|k: int| 0 <= k < ds.len() ==> ((#[trigger] ds[k]) matches Some(ms) ==> ms <= window_millis))
        }),
{
    let empty = Seq::<WindowCounter>::empty();
    if times.len() > 0 {
        let key = (identity@, bucket);
        let t0 = times[0];
        let (e1, d1) = process_one(empty, identity, bucket, t0, window_millis, limit);
        assert(e1[0].key@ == key);
        lemma_find_index_at(e1, key, 0);
        let rest = times.drop_first();
        assert(forall|k: int| 0 <= k < rest.len() ==> t0 <= #[trigger] rest[k] < t0 + window_millis);
        lemma_counter_run(e1, identity, bucket, rest, window_millis, limit, 0, t0, 1);
        let ds = decisions_of_calls(empty, identity, bucket, times, window_millis, limit);
        let ds_rest = decisions_of_calls(e1, identity, bucket, rest, window_millis, limit);
        assert(ds == seq![d1] + ds_rest);
        assert forall|k: int| 0 <= k < ds.len() implies ((#[trigger] ds[k]) is None <==> k < limit)
            && (ds[k] matches Some(ms) ==> ms <= window_millis) by {
            if k == 0 {
                assert(ds[0] == d1);
            } else {
                assert(ds[k] == ds_rest[k - 1]);
            }
        }
    }
}

/// Law: a caller that stays within its budget is never limited — at most
/// `limit` requests from one identity and class, all within one window of the
/// first, are allowed in full.
pub proof fn lemma_within_budget_all_allowed(
    identity: RateLimitIdentity,
    bucket: RateLimitBucket,
    times: Seq<u64>,
    window_millis: u64,
    limit: u32,
)
    requires
        forall|k: int| 0 <= k < times.len() ==> times[0] <= #[trigger] times[k] < times[0] + window_millis,
        times.len() <= limit,
    ensures
        ({
            let ds = decisions_of_calls(Seq::empty(), identity, bucket, times, window_millis, limit);
            ds.len() == times.len()
            && (forall|k: int| 0 <= k < ds.len() ==> (#[trigger] ds[k]) is None)
        }),
{
    lemma_fixed_window_admissions(identity, bucket, times, window_millis, limit);
}

/// A check that carries one identity is exactly one visit to the store: the
/// laws stated over single visits apply to such calls as they stand.
pub proof fn lemma_single_identity_check(
    entries: Seq<WindowCounter>,
    identity: RateLimitIdentity,
    bucket: RateLimitBucket,
    now: u64,
    window_millis: u64,
    limit: u32,
)
    ensures
        run_identities(entries, seq![identity], bucket, now, window_millis, limit)
            == process_one(entries, identity, bucket, now, window_millis, limit),
{
    let ids = seq![identity];
    assert(ids.drop_first() =~= Seq::<RateLimitIdentity>::empty());
    let (e1, d1) = process_one(entries, ids[0], bucket, now, window_millis, limit);
    assert(run_identities(e1, ids.drop_first(), bucket, now, window_millis, limit) == (
        e1,
        Option::<u64>::None,
    ));
    assert(ids[0] == identity);
    assert(worst_denial(d1, Option::None) == d1);
}

/// Law: once the window has elapsed, the next request opens a new window and
/// is allowed — the counter resets to one admission at the new clock reading.
pub proof fn lemma_window_reset_allows(
    entries: Seq<WindowCounter>,
    identity: RateLimitIdentity,
    bucket: RateLimitBucket,
    now: u64,
    window_millis: u64,
    limit: u32,
)
    requires
        find_index(entries, (identity@, bucket)) >= 0,
        window_elapsed(entries[find_index(entries, (identity@, bucket))], now, window_millis),
        limit >= 1,
    ensures
        ({
            let fi = find_index(entries, (identity@, bucket));
            let (e1, d1) = process_one(entries, identity, bucket, now, window_millis, limit);
            d1 is None && e1[fi].count == 1 && e1[fi].window_start == now
        }),
{
    lemma_find_index_found(entries, (identity@, bucket));
}

} // verus!

