//! Login-attempt throttle and account lockout.
//!
//! Each `(user, client address)` pair owns a persisted record of consecutive
//! failures. Failures escalate: below the delay threshold attempts stay
//! allowed, from the delay threshold on the pair must wait out an escalating
//! delay, and at the lock threshold the account locks for a fixed duration.
//! A successful credential check, a two-factor success or a redeemed unlock
//! token resets the record.
//!
//! Timestamps are epoch seconds supplied by the caller; the engine itself
//! performs no I/O.

use vstd::prelude::*;
use crate::arith::{sat_add, sat_mul, saturating_add, saturating_mul};

verus! {

/// Thresholds and durations of the throttle.
#[derive(Debug)]
pub struct LoginRateLimitConfig {
    /// Failures from this count on are delayed.
    pub delay_threshold: u32,
    /// Failures from this count on lock the account.
    pub lock_threshold: u32,
    /// First delay in seconds; each further failure adds the same amount.
    pub base_delay_seconds: u64,
    /// How long a lock lasts, in seconds.
    pub lock_duration_seconds: u64,
    /// Whether a locked account may recover through an emailed unlock token.
    pub enable_email_unlock: bool,
    /// How long an unlock token stays valid, in seconds.
    pub unlock_token_ttl_seconds: u64,
    /// Base of the unlock link sent to the user.
    pub frontend_unlock_url: String,
}

impl Clone for LoginRateLimitConfig {
    fn clone(&self) -> (r: Self)
        ensures
            r == *self,
    {
        LoginRateLimitConfig {
            delay_threshold: self.delay_threshold,
            lock_threshold: self.lock_threshold,
            base_delay_seconds: self.base_delay_seconds,
            lock_duration_seconds: self.lock_duration_seconds,
            enable_email_unlock: self.enable_email_unlock,
            unlock_token_ttl_seconds: self.unlock_token_ttl_seconds,
            frontend_unlock_url: self.frontend_unlock_url.clone(),
        }
    }
}

impl LoginRateLimitConfig {
    /// A sane configuration: delays begin before the lock, and both waits
    /// are real.
    pub open spec fn wf(self) -> bool {
        &&& 1 <= self.delay_threshold <= self.lock_threshold
        &&& self.base_delay_seconds >= 1
        &&& self.lock_duration_seconds >= 1
        &&& self.unlock_token_ttl_seconds >= 1
    }
}

/// One pair's attempt history, as persisted.
#[derive(Debug)]
pub struct LoginAttemptRecord {
    /// The account attempted, when known.
    pub user_id: Option<String>,
    /// The client address the attempts came from.
    pub ip: String,
    pub consecutive_failures: u32,
    /// Attempts before this instant are delayed.
    pub delayed_until: Option<u64>,
    /// Attempts before this instant are locked out.
    pub locked_until: Option<u64>,
    pub last_attempt: u64,
}

/// The throttle's answer for one attempt.
#[derive(Clone, Copy, Debug, PartialEq, Eq, Structural)]
pub enum RateLimitStatus {
    /// The attempt may proceed to credential verification.
    Allowed,
    /// The pair must wait: attempts before `until` are rejected.
    Delayed { until: u64 },
    /// The account is locked until `until`; `can_unlock` says whether
    /// self-service recovery is possible for this record.
    Locked { until: u64, can_unlock: bool },
}

/// The key a record is stored under.
pub open spec fn rec_key(rec: LoginAttemptRecord) -> (Option<Seq<char>>, Seq<char>) {
    (
        match rec.user_id {
            Option::Some(u) => Option::Some(u@),
            Option::None => Option::None,
        },
        rec.ip@,
    )
}

/// The status a record earns at clock reading `now`: an active lock first,
/// then an active delay, else allowed. Self-service unlock needs a known
/// account.
pub open spec fn spec_status(rec: LoginAttemptRecord, now: u64) -> RateLimitStatus {
    match rec.locked_until {
        Option::Some(t) => if now < t {
            RateLimitStatus::Locked { until: t, can_unlock: rec.user_id is Some }
        } else {
            spec_status_unlocked(rec, now)
        },
        Option::None => spec_status_unlocked(rec, now),
    }
}

/// The status of a record whose lock, if any, has expired.
pub open spec fn spec_status_unlocked(rec: LoginAttemptRecord, now: u64) -> RateLimitStatus {
    match rec.delayed_until {
        Option::Some(t) => if now < t {
            RateLimitStatus::Delayed { until: t }
        } else {
            RateLimitStatus::Allowed
        },
        Option::None => RateLimitStatus::Allowed,
    }
}

/// The delay a failure count earns: the base delay, growing by one base
/// delay for each failure past the threshold.
pub open spec fn spec_delay_seconds(cfg: LoginRateLimitConfig, failures: u32) -> u64 {
    if failures >= cfg.delay_threshold {
        sat_mul(cfg.base_delay_seconds, (failures - cfg.delay_threshold + 1) as u64)
    } else {
        0
    }
}

/// A record after one more failure: the count rises (saturating), the
/// attempt instant is taken, and the deadlines are recomputed from the new
/// count — a lock from the lock threshold on, an escalating delay from the
/// delay threshold on, nothing below it.
pub open spec fn spec_after_failure(
    rec: LoginAttemptRecord,
    now: u64,
    cfg: LoginRateLimitConfig,
) -> LoginAttemptRecord {
    let f = if rec.consecutive_failures < u32::MAX {
        (rec.consecutive_failures + 1) as u32
    } else {
        u32::MAX
    };
    LoginAttemptRecord {
        consecutive_failures: f,
        last_attempt: now,
        locked_until: if f >= cfg.lock_threshold {
            Option::Some(sat_add(now, cfg.lock_duration_seconds))
        } else {
            Option::None
        },
        delayed_until: if f >= cfg.lock_threshold {
            Option::None
        } else if f >= cfg.delay_threshold {
            Option::Some(sat_add(now, spec_delay_seconds(cfg, f)))
        } else {
            Option::None
        },
        ..rec
    }
}

/// A record after a successful attempt: the count returns to zero and the
/// deadlines clear; the record itself survives.
pub open spec fn spec_after_success(rec: LoginAttemptRecord, now: u64) -> LoginAttemptRecord {
    LoginAttemptRecord {
        consecutive_failures: 0,
        delayed_until: Option::None,
        locked_until: Option::None,
        last_attempt: now,
        ..rec
    }
}

/// A pair's record before any attempt was recorded.
pub open spec fn fresh_record(user_id: Option<Seq<char>>, ip: Seq<char>, rec: LoginAttemptRecord) -> bool {
    &&& rec_key(rec) == (user_id, ip)
    &&& rec.consecutive_failures == 0
    &&& rec.delayed_until is None
    &&& rec.locked_until is None
}

/// First index in `records` stored under `key`, or `-1` when absent.
pub open spec fn find_rec_index(records: Seq<LoginAttemptRecord>, key: (Option<Seq<char>>, Seq<char>)) -> int
    decreases records.len(),
{
    if records.len() == 0 {
        -1
    } else if rec_key(records[0]) == key {
        0
    } else {
        let r = find_rec_index(records.drop_first(), key);
        if r < 0 {
            -1
        } else {
            r + 1
        }
    }
}

/// Scanning past `i` mismatches and hitting a match at `i` (or the end) pins
/// `find_rec_index`.
pub proof fn lemma_find_rec_index_at(records: Seq<LoginAttemptRecord>, key: (Option<Seq<char>>, Seq<char>), i: int)
    requires
        0 <= i <= records.len(),
        forall|k: int| 0 <= k < i ==> rec_key(records[k]) != key,
        i < records.len() ==> rec_key(records[i]) == key,
    ensures
        i < records.len() ==> find_rec_index(records, key) == i,
        i == records.len() ==> find_rec_index(records, key) == -1,
    decreases records.len(),
{
    if records.len() > 0 {
        if rec_key(records[0]) == key {
            assert(i == 0);
        } else {
            let rest = records.drop_first();
            assert(forall|k: int| 0 <= k < i - 1 ==> rec_key(rest[k]) != key);
            lemma_find_rec_index_at(rest, key, i - 1);
        }
    }
}

/// What `find_rec_index` found: the first match at the returned index, or no
/// match at all.
pub proof fn lemma_find_rec_index_found(records: Seq<LoginAttemptRecord>, key: (Option<Seq<char>>, Seq<char>))
    ensures
        find_rec_index(records, key) == -1 ==> forall|k: int|
            0 <= k < records.len() ==> rec_key(records[k]) != key,
        find_rec_index(records, key) != -1 ==> 0 <= find_rec_index(records, key) < records.len()
            && rec_key(records[find_rec_index(records, key)]) == key,
        find_rec_index(records, key) != -1 ==> forall|k: int|
            0 <= k < find_rec_index(records, key) ==> rec_key(records[k]) != key,
    decreases records.len(),
{
    if records.len() > 0 && rec_key(records[0]) != key {
        let rest = records.drop_first();
        lemma_find_rec_index_found(rest, key);
        if find_rec_index(records, key) == -1 {
            assert forall|k: int| 0 <= k < records.len() implies rec_key(records[k]) != key by {
                if k > 0 {
                    assert(rest[k - 1] == records[k]);
                }
            }
        } else {
            assert forall|k: int| 0 <= k < find_rec_index(records, key) implies rec_key(records[k]) != key by {
                if k > 0 {
                    assert(rest[k - 1] == records[k]);
                }
            }
        }
    }
}

/// Whether two optional user ids name the same account.
fn user_id_eq(a: &Option<String>, b: Option<&str>) -> (r: bool)
    ensures
        r == ((match a {
            Option::Some(u) => Option::Some(u@),
            Option::None => Option::None,
        }) == (match b {
            Option::Some(u) => Option::Some(u@),
            Option::None => Option::None::<Seq<char>>,
        })),
{
    match (a, b) {
        (Some(x), Some(y)) => crate::ids::str_eq(x.as_str(), y),
        (None, None) => true,
        _ => false,
    }
}

/// The persisted login-attempt store: one record per `(user, address)` pair.
#[derive(Debug)]
pub struct LoginThrottle {
    pub records: Vec<LoginAttemptRecord>,
}

/// The spec-level key of a check: the optional user id and the address.
pub open spec fn lookup_key(user_id: Option<&str>, ip: &str) -> (Option<Seq<char>>, Seq<char>) {
    (
        match user_id {
            Option::Some(u) => Option::Some(u@),
            Option::None => Option::None,
        },
        ip@,
    )
}

/// The status the store answers for a key at clock reading `now`: the
/// record's status when one is present, else allowed.
pub open spec fn spec_check_status(
    records: Seq<LoginAttemptRecord>,
    key: (Option<Seq<char>>, Seq<char>),
    now: u64,
) -> RateLimitStatus {
    let fi = find_rec_index(records, key);
    if fi >= 0 {
        spec_status(records[fi], now)
    } else {
        RateLimitStatus::Allowed
    }
}

impl LoginThrottle {
    /// Records are keyed uniquely: the store is a map.
    pub open spec fn wf(self) -> bool {
        forall|i: int, j: int|
            0 <= i < j < self.records@.len() ==> rec_key(self.records@[i]) != rec_key(self.records@[j])
    }

    /// A store with no attempt history.
    pub fn new() -> (r: Self)
        ensures
            r.wf(),
            r.records@.len() == 0,
    {
        LoginThrottle { records: Vec::new() }
    }

    /// Position of the record for `(user_id, ip)`, if one is present.
    fn find_record(&self, user_id: Option<&str>, ip: &str) -> (r: Option<usize>)
        ensures
            ({
                let fi = find_rec_index(self.records@, lookup_key(user_id, ip));
                match r {
                    Option::Some(i) => fi == i && i < self.records@.len(),
                    Option::None => fi == -1,
                }
            }),
    {
        let ghost key = lookup_key(user_id, ip);
        let mut j: usize = 0;
        while j < self.records.len()
            invariant
                j <= self.records@.len(),
                key == lookup_key(user_id, ip),
                forall|k: int| 0 <= k < j ==> rec_key(self.records@[k]) != key,
            decreases self.records@.len() - j,
        {
            let rec = &self.records[j];
            if user_id_eq(&rec.user_id, user_id) && crate::ids::str_eq(rec.ip.as_str(), ip) {
                proof {
                    lemma_find_rec_index_at(self.records@, key, j as int);
                }
                return Some(j);
            }
            j = j + 1;
        }
        proof {
            lemma_find_rec_index_at(self.records@, key, self.records@.len() as int);
        }
        None
    }

    /// The status of a pair at clock reading `now`, without changing
    /// anything: a pair with no history is allowed.
    pub fn check(&self, user_id: Option<&str>, ip: &str, now: u64) -> (r: RateLimitStatus)
        ensures
            r == spec_check_status(self.records@, lookup_key(user_id, ip), now),
    {
        match self.find_record(user_id, ip) {
            Some(i) => Self::status_of(&self.records[i], now),
            None => RateLimitStatus::Allowed,
        }
    }

    /// The status a record earns at clock reading `now`.
    fn status_of(rec: &LoginAttemptRecord, now: u64) -> (r: RateLimitStatus)
        ensures
            r == spec_status(*rec, now),
    {
        match rec.locked_until {
            Some(t) => {
                if now < t {
                    return RateLimitStatus::Locked { until: t, can_unlock: rec.user_id.is_some() };
                }
            },
            None => {},
        }
        match rec.delayed_until {
            Some(t) => {
                if now < t {
                    RateLimitStatus::Delayed { until: t }
                } else {
                    RateLimitStatus::Allowed
                }
            },
            None => RateLimitStatus::Allowed,
        }
    }

    /// Record one failed attempt for the pair at clock reading `now` and
    /// return the pair's new status. A pair with no history starts from a
    /// fresh record; the record's deadlines are recomputed from the new
    /// count.
    pub fn record_failure(
        &mut self,
        user_id: Option<&str>,
        ip: &str,
        now: u64,
        config: &LoginRateLimitConfig,
    ) -> (r: RateLimitStatus)
        requires
            old(self).wf(),
        ensures
            final(self).wf(),
            ({
                let key = lookup_key(user_id, ip);
                let fi = find_rec_index(old(self).records@, key);
                if fi >= 0 {
                    let rec2 = spec_after_failure(old(self).records@[fi], now, *config);
                    final(self).records@ == old(self).records@.update(fi, rec2)
                        && r == spec_status(rec2, now)
                } else {
                    exists|rec0: LoginAttemptRecord|
                        #[trigger] fresh_record(key.0, key.1, rec0)
                        && final(self).records@ == old(self).records@.push(
                            spec_after_failure(rec0, now, *config))
                        && r == spec_status(spec_after_failure(rec0, now, *config), now)
                }
            }),
    {
        let ghost key = lookup_key(user_id, ip);
        match self.find_record(user_id, ip) {
            Some(i) => {
                proof {
                    lemma_find_rec_index_found(self.records@, key);
                }
                let ghost old_rec = self.records@[i as int];
                let config_lock = config.lock_threshold;
                let config_delay = config.delay_threshold;
                let base_delay = config.base_delay_seconds;
                let lock_duration = config.lock_duration_seconds;
                let rec = &mut self.records[i];
                let f = if rec.consecutive_failures < u32::MAX {
                    rec.consecutive_failures + 1
                } else {
                    u32::MAX
                };
                rec.consecutive_failures = f;
                rec.last_attempt = now;
                if f >= config_lock {
                    rec.locked_until = Some(saturating_add(now, lock_duration));
                    rec.delayed_until = None;
                } else if f >= config_delay {
                    let scale = saturating_mul(base_delay, (f - config_delay) as u64 + 1);
                    rec.delayed_until = Some(saturating_add(now, scale));
                    rec.locked_until = None;
                } else {
                    rec.delayed_until = None;
                    rec.locked_until = None;
                }
                proof {
                    assert(self.records@[i as int] == spec_after_failure(old_rec, now, *config));
                    assert(rec_key(self.records@[i as int]) == rec_key(old_rec));
                }
                let status = Self::status_of(&self.records[i], now);
                status
            },
            None => {
                proof {
                    lemma_find_rec_index_found(self.records@, key);
                }
                let owned_user: Option<String> = match user_id {
                    Some(u) => Some(u.to_owned()),
                    None => None,
                };
                let rec0 = LoginAttemptRecord {
                    user_id: owned_user,
                    ip: ip.to_owned(),
                    consecutive_failures: 0,
                    delayed_until: None,
                    locked_until: None,
                    last_attempt: now,
                };
                let ghost rec0_spec = rec0;
                let config_lock = config.lock_threshold;
                let config_delay = config.delay_threshold;
                let base_delay = config.base_delay_seconds;
                let lock_duration = config.lock_duration_seconds;
                let mut rec = rec0;
                rec.consecutive_failures = 1;
                rec.last_attempt = now;
                if 1 >= config_lock {
                    rec.locked_until = Some(saturating_add(now, lock_duration));
                    rec.delayed_until = None;
                } else if 1 >= config_delay {
                    let scale = saturating_mul(base_delay, 1u64 - config_delay as u64 + 1);
                    rec.delayed_until = Some(saturating_add(now, scale));
                    rec.locked_until = None;
                }
                proof {
                    assert(fresh_record(key.0, key.1, rec0_spec));
                    assert(rec == spec_after_failure(rec0_spec, now, *config));
                }
                let status = Self::status_of(&rec, now);
                self.records.push(rec);
                status
            },
        }
    }

    /// Record a successful attempt: the pair's record, if any, resets to
    /// zero failures with its deadlines cleared.
    pub fn record_success(&mut self, user_id: Option<&str>, ip: &str, now: u64)
        requires
            old(self).wf(),
        ensures
            final(self).wf(),
            ({
                let fi = find_rec_index(old(self).records@, lookup_key(user_id, ip));
                if fi >= 0 {
                    final(self).records@ == old(self).records@.update(
                        fi,
                        spec_after_success(old(self).records@[fi], now),
                    )
                } else {
                    final(self).records@ == old(self).records@
                }
            }),
    {
        let ghost key = lookup_key(user_id, ip);
        match self.find_record(user_id, ip) {
            Some(i) => {
                proof {
                    lemma_find_rec_index_found(self.records@, key);
                }
                let ghost old_rec = self.records@[i as int];
                let rec = &mut self.records[i];
                rec.consecutive_failures = 0;
                rec.delayed_until = None;
                rec.locked_until = None;
                rec.last_attempt = now;
                proof {
                    assert(self.records@[i as int] == spec_after_success(old_rec, now));
                    assert(rec_key(self.records@[i as int]) == rec_key(old_rec));
                }
            },
            None => {},
        }
    }

    /// Reset every record of the given account, whatever address it was
    /// attempted from; other records stay untouched.
    pub fn reset_user(&mut self, user_id: &str, now: u64)
        requires
            old(self).wf(),
        ensures
            final(self).wf(),
            final(self).records@.len() == old(self).records@.len(),
            forall|i: int|
                0 <= i < old(self).records@.len() ==> final(self).records@[i] == (
                    if (match old(self).records@[i].user_id {
                        Option::Some(u) => Option::Some(u@),
                        Option::None => Option::None,
                    }) == Option::Some(user_id@) {
                        spec_after_success(old(self).records@[i], now)
                    } else {
                        old(self).records@[i]
                    }),
    {
        let mut j: usize = 0;
        while j < self.records.len()
            invariant
                j <= self.records@.len(),
                self.records@.len() == old(self).records@.len(),
                forall|i: int|
                    0 <= i < j ==> self.records@[i] == (
                        if (match old(self).records@[i].user_id {
                            Option::Some(u) => Option::Some(u@),
                            Option::None => Option::None,
                        }) == Option::Some(user_id@) {
                            spec_after_success(old(self).records@[i], now)
                        } else {
                            old(self).records@[i]
                        }),
                forall|i: int| j <= i < self.records@.len()
                    ==> self.records@[i] == old(self).records@[i],
            decreases self.records@.len() - j,
        {
            let ghost old_rec = self.records@[j as int];
            let matches_user = match &self.records[j].user_id {
                Some(u) => crate::ids::str_eq(u.as_str(), user_id),
                None => false,
            };
            if matches_user {
                let rec = &mut self.records[j];
                rec.consecutive_failures = 0;
                rec.delayed_until = None;
                rec.locked_until = None;
                rec.last_attempt = now;
                proof {
                    assert(self.records@[j as int] == spec_after_success(old_rec, now));
                }
            }
            j = j + 1;
        }
        proof {
            assert forall|i: int, k: int|
                0 <= i < k < self.records@.len() implies rec_key(self.records@[i])
                != rec_key(self.records@[k]) by {
                assert(rec_key(self.records@[i]) == rec_key(old(self).records@[i]));
                assert(rec_key(self.records@[k]) == rec_key(old(self).records@[k]));
            }
        }
    }
}


/// Law: failures escalate by thresholds. After one more recorded failure the
/// pair is allowed while its count stays under the delay threshold, must wait
/// out a delay ending after `now` from the delay threshold up to the lock
/// threshold, and is locked until after `now` from the lock threshold on.
pub proof fn lemma_failure_escalation(rec: LoginAttemptRecord, now: u64, cfg: LoginRateLimitConfig)
    requires
        cfg.wf(),
        rec.consecutive_failures < u32::MAX,
        now + cfg.lock_duration_seconds <= u64::MAX,
        now + spec_delay_seconds(cfg, (rec.consecutive_failures + 1) as u32) <= u64::MAX,
    ensures
        ({
            let f = (rec.consecutive_failures + 1) as u32;
            let rec2 = spec_after_failure(rec, now, cfg);
            &&& rec2.consecutive_failures == f
            &&& (f < cfg.delay_threshold ==> spec_status(rec2, now) == RateLimitStatus::Allowed)
            &&& (cfg.delay_threshold <= f < cfg.lock_threshold ==> spec_status(rec2, now)
                == (RateLimitStatus::Delayed { until: sat_add(now, spec_delay_seconds(cfg, f)) })
                && now < sat_add(now, spec_delay_seconds(cfg, f)))
            &&& (f >= cfg.lock_threshold ==> spec_status(rec2, now) == (RateLimitStatus::Locked {
                until: sat_add(now, cfg.lock_duration_seconds),
                can_unlock: rec.user_id is Some,
            }) && now < sat_add(now, cfg.lock_duration_seconds))
        }),
{
    let f = (rec.consecutive_failures + 1) as u32;
    if cfg.delay_threshold <= f < cfg.lock_threshold {
        assert(spec_delay_seconds(cfg, f) >= 1) by {
            lemma_mul_at_least_one(cfg.base_delay_seconds as int, (f - cfg.delay_threshold + 1) as int);
        }
    }
}

/// The product of two positive integers is at least the first factor.
proof fn lemma_mul_at_least_one(a: int, b: int)
    by (nonlinear_arith)
    requires
        a >= 1,
        b >= 1,
    ensures
        a * b >= a,
{
}

/// Law: a success wipes the slate. A record reset by a successful attempt is
/// allowed at every later check, whatever its history was.
pub proof fn lemma_success_resets(rec: LoginAttemptRecord, now: u64, later: u64)
    ensures
        spec_after_success(rec, now).consecutive_failures == 0,
        spec_status(spec_after_success(rec, now), later) == RateLimitStatus::Allowed,
{
}

} // verus!
