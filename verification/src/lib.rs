//! Account-security and abuse-mitigation core.
//!
//! Two guards stand in front of every sensitive operation: an in-process
//! fixed-window request rate limiter keyed by caller identity and operation
//! class, and a login-attempt throttle that escalates from free attempts to
//! delays and a terminal lock, combined with two-factor verification and a
//! single-use account-unlock token flow.
//!
//! All decisions are pure functions of the stores, the configuration and a
//! caller-supplied clock value; the surrounding application owns the clock,
//! the persistence and the delivery of notifications.

use vstd::prelude::*;

pub mod arith;
pub mod audit;
pub mod auth;
pub mod ids;
pub mod models;
pub mod rate_limit;
pub mod throttle;
pub mod two_factor;
pub mod unlock;

verus! {

} // verus!
