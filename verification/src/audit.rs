//! Security audit log.
//!
//! Every failed credential or two-factor attempt appends one immutable entry
//! recording the precise reason; user-facing errors stay generic. Appending
//! never fails and never disturbs the throttle update it accompanies.

use vstd::prelude::*;

verus! {

/// One immutable audit record.
#[derive(Debug)]
pub struct AuditEntry {
    /// The account concerned, when known.
    pub user_id: Option<String>,
    /// The event recorded, such as a failed login.
    pub event: String,
    /// Whether the attempt succeeded.
    pub success: bool,
    /// The client address reported by the boundary.
    pub client_ip: Option<String>,
    /// The client software reported by the boundary.
    pub user_agent: Option<String>,
    /// The precise reason, kept out of user-facing errors.
    pub reason: String,
}

/// The append-only audit log.
#[derive(Debug)]
pub struct AuditLog {
    pub entries: Vec<AuditEntry>,
}

impl AuditLog {
    /// An empty log.
    pub fn new() -> (r: Self)
        ensures
            r.entries@.len() == 0,
    {
        AuditLog { entries: Vec::new() }
    }

    /// Append one entry; nothing already logged changes.
    pub fn append(&mut self, entry: AuditEntry)
        ensures
            final(self).entries@ == old(self).entries@.push(entry),
    {
        self.entries.push(entry);
    }
}

} // verus!
