//! The authentication service: throttle, two-factor and unlock flows wired
//! together.
//!
//! Methods here take the same decisions the login and two-factor endpoints
//! need: whether an attempt may proceed, what a failed password costs, and
//! whether a submitted one-time code is accepted. Every security-relevant
//! outcome is a typed value; user-facing messages stay generic while the
//! audit log records the precise reason. Outbound mail is decoupled: a lock
//! eligible for self-service recovery mints a token and queues one
//! notification in the outbox for the boundary to dispatch, best effort.

use vstd::prelude::*;
use vstd::string::*;
use crate::arith::sat_add;
use crate::audit::{AuditEntry, AuditLog};
use crate::throttle::{
    LoginAttemptRecord, LoginRateLimitConfig, LoginThrottle, RateLimitStatus, find_rec_index,
    lookup_key, lemma_find_rec_index_at, lemma_find_rec_index_found, rec_key, spec_after_failure,
    spec_after_success, spec_check_status, fresh_record,
};
use crate::two_factor::{
    DecryptRequest, TwoFactorAuth, TwoFactorConfig, TwoFactorGuard, all_hex, contains_code,
    find_code_index, find_user_index, lemma_find_user_index_at, lemma_user_entry_found,
    spec_contains_code, spec_failures, spec_hex_decode,
};
use crate::unlock::{UnlockTokenStore, spec_redeem};

verus! {

/// A byte-for-byte copy of a buffer.
fn copy_bytes(src: &Vec<u8>) -> (r: Vec<u8>)
    ensures
        r@ == src@,
{
    let mut out: Vec<u8> = Vec::new();
    let mut i: usize = 0;
    while i < src.len()
        invariant
            i <= src@.len(),
            out@ == src@.subrange(0, i as int),
        decreases src@.len() - i,
    {
        out.push(src[i]);
        i = i + 1;
        proof {
            assert(out@ =~= src@.subrange(0, i as int));
        }
    }
    proof {
        assert(out@ =~= src@);
    }
    out
}

/// The typed outcomes the boundary translates into responses.
#[derive(Debug)]
pub enum AppError {
    /// The attempt is throttled; retry after the given wait.
    TooManyAttempts { retry_after_seconds: u64, message: String },
    /// The account is locked until the given instant.
    AccountLocked { locked_until: u64, message: String },
    /// The credentials were wrong; deliberately generic.
    InvalidCredentials,
    /// A generic client error, carrying its message.
    BadRequest(String),
}

/// What happened during a login attempt.
#[derive(Debug)]
pub enum LoginOutcome {
    /// Credentials valid and a session was created.
    Success { session_id: String, user_id: String },
    /// Credentials valid but a two-factor code is required first.
    TwoFactorRequired,
}

/// One queued account-locked notification, ready for dispatch.
#[derive(Debug)]
pub struct UnlockNotification {
    pub email: String,
    pub name: String,
    pub user_id: String,
    pub token: String,
    pub unlock_url: String,
}

/// Process-wide security configuration.
#[derive(Debug)]
pub struct AuthConfig {
    pub login_rate_limit: LoginRateLimitConfig,
    pub two_factor: TwoFactorConfig,
}

/// The account-security service: configuration plus the stores it rules.
#[derive(Debug)]
pub struct AuthService {
    pub config: AuthConfig,
    pub throttle: LoginThrottle,
    pub two_factor: TwoFactorGuard,
    pub unlock_tokens: UnlockTokenStore,
    pub audit_log: AuditLog,
    /// Notifications minted on lock events, awaiting dispatch.
    pub outbox: Vec<UnlockNotification>,
}

/// Whether a lock may start self-service recovery: the record can unlock,
/// the feature is on, and the caller knows whom to write to.
pub open spec fn spec_unlock_eligible(
    can_unlock: bool,
    enable_email_unlock: bool,
    user_id: Option<&str>,
    user_email: Option<&str>,
    user_name: Option<&str>,
) -> bool {
    can_unlock && enable_email_unlock && user_id is Some && user_email is Some
        && user_name is Some
}

/// The token and notification a lock event leaves behind: one token for the
/// account, and one outbox entry carrying it to the user.
pub open spec fn spec_notified(
    old_svc: AuthService,
    new_svc: AuthService,
    uid: Seq<char>,
    email: Seq<char>,
    name: Seq<char>,
    now: u64,
) -> bool {
    let n = old_svc.unlock_tokens.tokens@.len();
    let m = old_svc.outbox@.len();
    &&& new_svc.unlock_tokens.tokens@.len() == n + 1
    &&& new_svc.unlock_tokens.tokens@.subrange(0, n as int) == old_svc.unlock_tokens.tokens@
    &&& new_svc.unlock_tokens.tokens@.last().user_id@ == uid
    &&& !new_svc.unlock_tokens.tokens@.last().used
    &&& new_svc.unlock_tokens.tokens@.last().expires_at == sat_add(
        now,
        old_svc.config.login_rate_limit.unlock_token_ttl_seconds,
    )
    &&& new_svc.outbox@.len() == m + 1
    &&& new_svc.outbox@.subrange(0, m as int) == old_svc.outbox@
    &&& new_svc.outbox@.last().email@ == email
    &&& new_svc.outbox@.last().name@ == name
    &&& new_svc.outbox@.last().user_id@ == uid
    &&& new_svc.outbox@.last().token@ == new_svc.unlock_tokens.tokens@.last().token@
    &&& new_svc.outbox@.last().unlock_url@ == old_svc.config.login_rate_limit.frontend_unlock_url@
}

/// Nothing was minted: tokens and outbox as they were.
pub open spec fn spec_not_notified(old_svc: AuthService, new_svc: AuthService) -> bool {
    &&& new_svc.unlock_tokens.tokens@ == old_svc.unlock_tokens.tokens@
    &&& new_svc.outbox@ == old_svc.outbox@
}

impl AuthService {
    /// The service's stores are maps.
    pub open spec fn wf(self) -> bool {
        &&& self.throttle.wf()
        &&& self.two_factor.wf()
    }

    /// A fresh service: no history anywhere.
    pub fn new(config: AuthConfig) -> (r: Self)
        ensures
            r.wf(),
            r.config == config,
            r.throttle.records@.len() == 0,
            r.two_factor.entries@.len() == 0,
            r.unlock_tokens.tokens@.len() == 0,
            r.audit_log.entries@.len() == 0,
            r.outbox@.len() == 0,
    {
        AuthService {
            config,
            throttle: LoginThrottle::new(),
            two_factor: TwoFactorGuard::new(),
            unlock_tokens: UnlockTokenStore::new(),
            audit_log: AuditLog::new(),
            outbox: Vec::new(),
        }
    }

    /// Gate a login attempt before any credential is checked, at clock
    /// reading `now` (epoch seconds).
    ///
    /// The throttle record itself never changes here. A delayed pair is
    /// refused with the remaining wait; a locked account is refused with the
    /// lock deadline, and — when the lock is eligible for self-service
    /// recovery — a single-use unlock token is minted and a notification
    /// queued for dispatch.
    pub fn check_login_rate_limit(
        &mut self,
        user_id: Option<&str>,
        ip: &str,
        user_email: Option<&str>,
        user_name: Option<&str>,
        now: u64,
    ) -> (r: Result<(), AppError>)
        requires
            old(self).wf(),
        ensures
            final(self).wf(),
            final(self).config == old(self).config,
            final(self).throttle == old(self).throttle,
            final(self).two_factor == old(self).two_factor,
            final(self).audit_log == old(self).audit_log,
            ({
                let st = spec_check_status(old(self).throttle.records@, lookup_key(user_id, ip), now);
                match st {
                    RateLimitStatus::Allowed => r is Ok && spec_not_notified(*old(self), *final(self)),
                    RateLimitStatus::Delayed { until } => spec_not_notified(*old(self), *final(self))
                        && (r matches Err(AppError::TooManyAttempts { retry_after_seconds, message })
                            && retry_after_seconds == (if until > now { (until - now) as u64 } else { 0 })
                            && message@ == "Too many failed attempts. Please wait before trying again."@),
                    RateLimitStatus::Locked { until, can_unlock } => (r matches Err(
                        AppError::AccountLocked { locked_until, message },
                    ) && locked_until == until
                        && message@
                        == "Account temporarily locked due to too many failed attempts. Check your email for unlock instructions."@)
                        && (if spec_unlock_eligible(
                            can_unlock,
                            old(self).config.login_rate_limit.enable_email_unlock,
                            user_id,
                            user_email,
                            user_name,
                        ) {
                            spec_notified(
                                *old(self),
                                *final(self),
                                (match user_id {
                                    Option::Some(u) => u@,
                                    Option::None => Seq::empty(),
                                }),
                                (match user_email {
                                    Option::Some(e) => e@,
                                    Option::None => Seq::empty(),
                                }),
                                (match user_name {
                                    Option::Some(n) => n@,
                                    Option::None => Seq::empty(),
                                }),
                                now,
                            )
                        } else {
                            spec_not_notified(*old(self), *final(self))
                        }),
                }
            }),
    {
        let status = self.throttle.check(user_id, ip, now);
        match status {
            RateLimitStatus::Allowed => Ok(()),
            RateLimitStatus::Delayed { until } => {
                let remaining = if until > now {
                    until - now
                } else {
                    0
                };
                Err(AppError::TooManyAttempts {
                    retry_after_seconds: remaining,
                    message: String::from_str("Too many failed attempts. Please wait before trying again."),
                })
            },
            RateLimitStatus::Locked { until, can_unlock } => {
                if can_unlock && self.config.login_rate_limit.enable_email_unlock {
                    match (user_id, user_email, user_name) {
                        (Some(uid), Some(email), Some(name)) => {
                            let ttl = self.config.login_rate_limit.unlock_token_ttl_seconds;
                            let token = self.unlock_tokens.issue_unlock_token(uid, now, ttl);
                            let notification = UnlockNotification {
                                email: email.to_owned(),
                                name: name.to_owned(),
                                user_id: uid.to_owned(),
                                token,
                                unlock_url: self.config.login_rate_limit.frontend_unlock_url.clone(),
                            };
                            self.outbox.push(notification);
                            proof {
                                assert(self.outbox@.subrange(0, old(self).outbox@.len() as int)
                                    =~= old(self).outbox@);
                            }
                        },
                        _ => {},
                    }
                }
                Err(AppError::AccountLocked {
                    locked_until: until,
                    message: String::from_str(
                        "Account temporarily locked due to too many failed attempts. Check your email for unlock instructions.",
                    ),
                })
            },
        }
    }

    /// Record a failed password attempt at clock reading `now` and say how
    /// to answer it.
    ///
    /// The pair's throttle record takes the failure, an audit entry records
    /// the precise reason, and the answer follows the pair's new status:
    /// still under the delay threshold means plain invalid credentials, a
    /// delay means a wait, and a fresh or standing lock means a locked
    /// response — minting an unlock token and queueing the notification when
    /// self-service recovery is on.
    pub fn handle_failed_password(
        &mut self,
        user_id: &str,
        user_email: &str,
        user_name: &str,
        ip: &str,
        client_ip: Option<String>,
        user_agent: Option<String>,
        now: u64,
    ) -> (r: AppError)
        requires
            old(self).wf(),
        ensures
            final(self).wf(),
            final(self).config == old(self).config,
            final(self).two_factor == old(self).two_factor,
            ({
                let key = lookup_key(Some(user_id), ip);
                let fi = find_rec_index(old(self).throttle.records@, key);
                if fi >= 0 {
                    final(self).throttle.records@ == old(self).throttle.records@.update(
                        fi,
                        spec_after_failure(
                            old(self).throttle.records@[fi],
                            now,
                            old(self).config.login_rate_limit,
                        ),
                    )
                } else {
                    exists|rec0: LoginAttemptRecord|
                        #[trigger] fresh_record(key.0, key.1, rec0) && final(self).throttle.records@
                            == old(self).throttle.records@.push(
                            spec_after_failure(rec0, now, old(self).config.login_rate_limit),
                        )
                }
            }),
            final(self).audit_log.entries@.len() == old(self).audit_log.entries@.len() + 1,
            final(self).audit_log.entries@.subrange(0, old(self).audit_log.entries@.len() as int)
                == old(self).audit_log.entries@,
            ({
                let e = final(self).audit_log.entries@.last();
                &&& e.user_id matches Some(u) && u@ == user_id@
                &&& e.event@ == "login_failed"@
                &&& e.success == false
                &&& e.client_ip == client_ip
                &&& e.user_agent == user_agent
                &&& e.reason@ == "invalid_password"@
            }),
            ({
                let st = spec_check_status(final(self).throttle.records@, lookup_key(Some(user_id), ip), now);
                match st {
                    RateLimitStatus::Allowed => r is InvalidCredentials
                        && spec_not_notified(*old(self), *final(self)),
                    RateLimitStatus::Delayed { until } => spec_not_notified(*old(self), *final(self))
                        && (r matches AppError::TooManyAttempts { retry_after_seconds, message }
                            && retry_after_seconds == (if until > now { (until - now) as u64 } else { 0 })
                            && message@ == "Too many failed attempts. Please wait before trying again."@),
                    RateLimitStatus::Locked { until, can_unlock } => (r matches AppError::AccountLocked {
                        locked_until, message
                    } && locked_until == until
                        && message@
                        == "Account temporarily locked due to too many failed attempts. Check your email for unlock instructions."@)
                        && (if can_unlock && old(self).config.login_rate_limit.enable_email_unlock {
                            spec_notified(*old(self), *final(self), user_id@, user_email@, user_name@, now)
                        } else {
                            spec_not_notified(*old(self), *final(self))
                        }),
                }
            }),
    {
        let cfg = self.config.login_rate_limit.clone();
        let status = self.throttle.record_failure(Some(user_id), ip, now, &cfg);
        proof {
            let key = lookup_key(Some(user_id), ip);
            let fi = find_rec_index(old(self).throttle.records@, key);
            lemma_find_rec_index_found(old(self).throttle.records@, key);
            if fi >= 0 {
                assert(rec_key(self.throttle.records@[fi]) == key);
                lemma_find_rec_index_at(self.throttle.records@, key, fi);
            } else {
                let rec0 = choose|rec0: LoginAttemptRecord|
                    #[trigger] fresh_record(key.0, key.1, rec0) && self.throttle.records@
                        == old(self).throttle.records@.push(
                        spec_after_failure(rec0, now, old(self).config.login_rate_limit),
                    );
                assert(rec_key(self.throttle.records@.last()) == key);
                lemma_find_rec_index_at(
                    self.throttle.records@,
                    key,
                    old(self).throttle.records@.len() as int,
                );
            }
            assert(status == spec_check_status(self.throttle.records@, key, now));
        }
        self.audit_log.append(
            AuditEntry {
                user_id: Some(user_id.to_owned()),
                event: String::from_str("login_failed"),
                success: false,
                client_ip,
                user_agent,
                reason: String::from_str("invalid_password"),
            },
        );
        proof {
            assert(self.audit_log.entries@.subrange(0, old(self).audit_log.entries@.len() as int)
                =~= old(self).audit_log.entries@);
        }
        match status {
            RateLimitStatus::Delayed { until } => {
                let remaining = if until > now {
                    until - now
                } else {
                    0
                };
                AppError::TooManyAttempts {
                    retry_after_seconds: remaining,
                    message: String::from_str("Too many failed attempts. Please wait before trying again."),
                }
            },
            RateLimitStatus::Locked { until, can_unlock } => {
                if can_unlock && self.config.login_rate_limit.enable_email_unlock {
                    let ttl = self.config.login_rate_limit.unlock_token_ttl_seconds;
                    let token = self.unlock_tokens.issue_unlock_token(user_id, now, ttl);
                    let notification = UnlockNotification {
                        email: user_email.to_owned(),
                        name: user_name.to_owned(),
                        user_id: user_id.to_owned(),
                        token,
                        unlock_url: self.config.login_rate_limit.frontend_unlock_url.clone(),
                    };
                    self.outbox.push(notification);
                    proof {
                        assert(self.outbox@.subrange(0, old(self).outbox@.len() as int)
                            =~= old(self).outbox@);
                    }
                }
                AppError::AccountLocked {
                    locked_until: until,
                    message: String::from_str(
                        "Account temporarily locked due to too many failed attempts. Check your email for unlock instructions.",
                    ),
                }
            },
            RateLimitStatus::Allowed => AppError::InvalidCredentials,
        }
    }

    /// Open a two-factor verification: the user's failure budget is checked
    /// and the process key parsed before any decryption work is spent.
    ///
    /// On success the caller receives the decryption work for the crypto
    /// collaborator: the parsed key with the stored nonce and ciphertext.
    /// The collaborator decrypts and derives the time-based candidate codes,
    /// and the caller then submits them to `verify_two_factor`.
    pub fn begin_two_factor(&self, user_id: &str, two_factor_data: &TwoFactorAuth) -> (r: Result<
        DecryptRequest,
        AppError,
    >)
        ensures
            ({
                let limited = spec_failures(self.two_factor.entries@, user_id@)
                    >= self.config.two_factor.max_attempts;
                let key_ok = self.config.two_factor.encryption_key@.len() == 64
                    && all_hex(self.config.two_factor.encryption_key@);
                if limited {
                    r matches Err(AppError::BadRequest(m))
                        && m@ == "Too many failed attempts. Please try again later."@
                } else if !key_ok {
                    r matches Err(AppError::BadRequest(m))
                        && m@ == "Invalid two-factor encryption key configuration."@
                } else {
                    r matches Ok(d) && d.key@ == spec_hex_decode(self.config.two_factor.encryption_key@)
                        && d.nonce@ == two_factor_data.encryption_nonce@
                        && d.ciphertext@ == two_factor_data.encrypted_secret@
                }
            }),
    {
        let max_attempts = self.config.two_factor.max_attempts;
        if self.two_factor.check_rate_limit(user_id, max_attempts) {
            return Err(
                AppError::BadRequest(String::from_str("Too many failed attempts. Please try again later.")),
            );
        }
        let key = match self.config.two_factor.parse_encryption_key() {
            Ok(k) => k,
            Err(m) => {
                return Err(AppError::BadRequest(m));
            },
        };
        let nonce = copy_bytes(&two_factor_data.encryption_nonce);
        let ciphertext = copy_bytes(&two_factor_data.encrypted_secret);
        Ok(DecryptRequest { key, nonce, ciphertext })
    }

    /// Verify a submitted two-factor code for a user.
    ///
    /// `totp_candidates` are the time-based codes the collaborator derived
    /// from the user's decrypted secret for the accepted clock-skew window.
    /// The user's own failure budget is checked first; then the submitted
    /// code must read as one of the candidates or, failing that, as one of
    /// the user's unused backup codes, which consumes it. Success reports
    /// whether a backup code was spent and clears the failure count; total
    /// failure counts one attempt, writes an audit entry with the precise
    /// reason, and answers with one generic message whatever part failed.
    pub fn verify_two_factor(
        &mut self,
        user_id: &str,
        code: &str,
        totp_candidates: &Vec<String>,
        client_ip: Option<String>,
        user_agent: Option<String>,
    ) -> (r: Result<bool, AppError>)
        requires
            old(self).wf(),
        ensures
            final(self).wf(),
            final(self).config == old(self).config,
            final(self).throttle == old(self).throttle,
            final(self).unlock_tokens == old(self).unlock_tokens,
            final(self).outbox == old(self).outbox,
            ({
                let limited = spec_failures(old(self).two_factor.entries@, user_id@)
                    >= old(self).config.two_factor.max_attempts;
                let key_ok = old(self).config.two_factor.encryption_key@.len() == 64
                    && all_hex(old(self).config.two_factor.encryption_key@);
                let totp_ok = spec_contains_code(totp_candidates@, code@);
                let fi = find_user_index(old(self).two_factor.entries@, user_id@);
                let ci = if fi >= 0 {
                    find_code_index(old(self).two_factor.entries@[fi].backup_codes@, code@)
                } else {
                    -1
                };
                if limited {
                    (r matches Err(AppError::BadRequest(m))
                        && m@ == "Too many failed attempts. Please try again later."@)
                        && final(self).two_factor == old(self).two_factor
                        && final(self).audit_log == old(self).audit_log
                } else if !key_ok {
                    (r matches Err(AppError::BadRequest(m))
                        && m@ == "Invalid two-factor encryption key configuration."@)
                        && final(self).two_factor == old(self).two_factor
                        && final(self).audit_log == old(self).audit_log
                } else if totp_ok {
                    r == Result::<bool, AppError>::Ok(false)
                        && final(self).audit_log == old(self).audit_log
                        && spec_failures(final(self).two_factor.entries@, user_id@) == 0
                        && (if fi >= 0 {
                            final(self).two_factor.entries@.len() == old(self).two_factor.entries@.len()
                            && (forall|k: int|
                                0 <= k < old(self).two_factor.entries@.len() && k != fi
                                    ==> final(self).two_factor.entries@[k]
                                        == old(self).two_factor.entries@[k])
                            && final(self).two_factor.entries@[fi].user_id
                                == old(self).two_factor.entries@[fi].user_id
                            && final(self).two_factor.entries@[fi].backup_codes
                                == old(self).two_factor.entries@[fi].backup_codes
                        } else {
                            final(self).two_factor.entries@ == old(self).two_factor.entries@
                        })
                } else if ci >= 0 {
                    r == Result::<bool, AppError>::Ok(true)
                        && final(self).audit_log == old(self).audit_log
                        && spec_failures(final(self).two_factor.entries@, user_id@) == 0
                        && final(self).two_factor.entries@.len() == old(self).two_factor.entries@.len()
                        && (forall|k: int|
                            0 <= k < old(self).two_factor.entries@.len() && k != fi
                                ==> final(self).two_factor.entries@[k]
                                    == old(self).two_factor.entries@[k])
                        && final(self).two_factor.entries@[fi].user_id
                            == old(self).two_factor.entries@[fi].user_id
                        && final(self).two_factor.entries@[fi].backup_codes@
                            == old(self).two_factor.entries@[fi].backup_codes@.remove(ci)
                } else {
                    (r matches Err(AppError::BadRequest(m))
                        && m@ == "Invalid two-factor authentication code."@)
                        && spec_failures(final(self).two_factor.entries@, user_id@) == (
                            if spec_failures(old(self).two_factor.entries@, user_id@) < u32::MAX {
                                spec_failures(old(self).two_factor.entries@, user_id@) + 1
                            } else {
                                u32::MAX as int
                            })
                        && final(self).audit_log.entries@.len()
                            == old(self).audit_log.entries@.len() + 1
                        && final(self).audit_log.entries@.subrange(
                            0,
                            old(self).audit_log.entries@.len() as int,
                        ) == old(self).audit_log.entries@
                        && ({
                            let e = final(self).audit_log.entries@.last();
                            &&& e.user_id matches Some(u) && u@ == user_id@
                            &&& e.event@ == "login_failed"@
                            &&& e.success == false
                            &&& e.client_ip == client_ip
                            &&& e.user_agent == user_agent
                            &&& e.reason@ == "invalid_2fa_code"@
                        })
                }
            }),
    {
        let max_attempts = self.config.two_factor.max_attempts;
        if self.two_factor.check_rate_limit(user_id, max_attempts) {
            return Err(
                AppError::BadRequest(String::from_str("Too many failed attempts. Please try again later.")),
            );
        }
        match self.config.two_factor.parse_encryption_key() {
            Ok(_) => {},
            Err(m) => {
                return Err(AppError::BadRequest(m));
            },
        }
        let totp_valid = contains_code(totp_candidates, code);
        let backup_valid = if !totp_valid {
            self.two_factor.verify_backup_code(user_id, code)
        } else {
            false
        };
        if !totp_valid && !backup_valid {
            self.two_factor.record_failed_attempt(user_id);
            self.audit_log.append(
                AuditEntry {
                    user_id: Some(user_id.to_owned()),
                    event: String::from_str("login_failed"),
                    success: false,
                    client_ip,
                    user_agent,
                    reason: String::from_str("invalid_2fa_code"),
                },
            );
            proof {
                assert(self.audit_log.entries@.subrange(0, old(self).audit_log.entries@.len() as int)
                    =~= old(self).audit_log.entries@);
            }
            return Err(
                AppError::BadRequest(String::from_str("Invalid two-factor authentication code.")),
            );
        }
        proof {
            let uid = user_id@;
            let fi = find_user_index(old(self).two_factor.entries@, uid);
            lemma_user_entry_found(old(self).two_factor.entries@, uid);
            if fi >= 0 {
                assert(forall|k: int|
                    0 <= k < self.two_factor.entries@.len()
                        ==> (#[trigger] self.two_factor.entries@[k]).user_id
                            == old(self).two_factor.entries@[k].user_id);
                lemma_find_user_index_at(self.two_factor.entries@, uid, fi);
            }
        }
        self.two_factor.reset_rate_limit(user_id);
        Ok(backup_valid)
    }

    /// Redeem an unlock token at clock reading `now`.
    ///
    /// A known, unspent, unexpired token is consumed exactly once; on
    /// success every throttle record of the account it names resets to
    /// allowed, and the account id is returned. Anything else — an unknown
    /// credential, a spent token, an expired one — changes nothing.
    pub fn redeem_unlock_token(&mut self, token: &str, now: u64) -> (r: Option<String>)
        requires
            old(self).wf(),
        ensures
            final(self).wf(),
            final(self).config == old(self).config,
            final(self).two_factor == old(self).two_factor,
            final(self).audit_log == old(self).audit_log,
            final(self).outbox == old(self).outbox,
            ({
                let (tokens2, outcome) = spec_redeem(old(self).unlock_tokens.tokens@, token@, now);
                &&& final(self).unlock_tokens.tokens@ == tokens2
                &&& (r is Some <==> outcome is Some)
                &&& (r matches Some(u) ==> outcome == Option::Some(u@))
                &&& (match outcome {
                    Option::Some(uid) => final(self).throttle.records@.len()
                        == old(self).throttle.records@.len() && (forall|i: int|
                        0 <= i < old(self).throttle.records@.len()
                            ==> final(self).throttle.records@[i] == (
                            if (match old(self).throttle.records@[i].user_id {
                                Option::Some(u) => Option::Some(u@),
                                Option::None => Option::None,
                            }) == Option::Some(uid) {
                                spec_after_success(old(self).throttle.records@[i], now)
                            } else {
                                old(self).throttle.records@[i]
                            })),
                    Option::None => final(self).throttle == old(self).throttle,
                })
            }),
    {
        match self.unlock_tokens.redeem(token, now) {
            Some(user_id) => {
                self.throttle.reset_user(user_id.as_str(), now);
                Some(user_id)
            },
            None => None,
        }
    }
}

} // verus!
