//! Two-factor verification state.
//!
//! Each user owns a failure counter — repeated bad one-time codes are
//! throttled independently of the login throttle — and a set of single-use
//! backup codes. The stored secret is encrypted; the process-wide encryption
//! key is configured as hexadecimal text and validated here. Deriving the
//! time-based codes from the decrypted secret is the collaborator's work: the
//! verifier receives the codes acceptable in the current tolerance window and
//! decides against them.

use vstd::prelude::*;

verus! {

/// A user's stored second factor: the secret, encrypted with the process key
/// and this nonce.
#[derive(Debug)]
pub struct TwoFactorAuth {
    pub encrypted_secret: Vec<u8>,
    pub encryption_nonce: Vec<u8>,
}

/// Two-factor configuration: the process encryption key as hexadecimal text,
/// and the per-user failure budget.
#[derive(Debug)]
pub struct TwoFactorConfig {
    /// 64 hexadecimal digits encoding the 32-byte encryption key.
    pub encryption_key: String,
    /// Failures at or above this count reject further attempts.
    pub max_attempts: u32,
}

impl Clone for TwoFactorConfig {
    fn clone(&self) -> (r: Self)
        ensures
            r == *self,
    {
        TwoFactorConfig {
            encryption_key: self.encryption_key.clone(),
            max_attempts: self.max_attempts,
        }
    }
}

/// The decryption work handed to the crypto collaborator: the parsed process
/// key, and the stored nonce and ciphertext. Decryption and deriving the
/// time-based codes run off the request path.
#[derive(Debug)]
pub struct DecryptRequest {
    pub key: Vec<u8>,
    pub nonce: Vec<u8>,
    pub ciphertext: Vec<u8>,
}

/// Whether `c` is a hexadecimal digit.
pub open spec fn is_hex_digit(c: char) -> bool {
    ||| '0' as u32 <= c as u32 <= '9' as u32
    ||| 'a' as u32 <= c as u32 <= 'f' as u32
    ||| 'A' as u32 <= c as u32 <= 'F' as u32
}

/// The value of a hexadecimal digit.
pub open spec fn hex_digit_value(c: char) -> u8 {
    if '0' as u32 <= c as u32 <= '9' as u32 {
        (c as u32 - '0' as u32) as u8
    } else if 'a' as u32 <= c as u32 <= 'f' as u32 {
        (c as u32 - 'a' as u32 + 10) as u8
    } else {
        (c as u32 - 'A' as u32 + 10) as u8
    }
}

/// Whether every character of `s` is a hexadecimal digit.
pub open spec fn all_hex(s: Seq<char>) -> bool {
    forall|i: int| 0 <= i < s.len() ==> is_hex_digit(#[trigger] s[i])
}

/// The bytes encoded by a string of hexadecimal digit pairs.
pub open spec fn spec_hex_decode(s: Seq<char>) -> Seq<u8> {
    Seq::new((s.len() / 2) as nat, |i: int| (16 * hex_digit_value(s[2 * i]) + hex_digit_value(s[2 * i + 1])) as u8)
}

/// The value of a hexadecimal digit, or nothing for any other character.
fn hex_digit(c: char) -> (r: Option<u8>)
    ensures
        r is Some <==> is_hex_digit(c),
        r matches Some(v) ==> v == hex_digit_value(c),
{
    let u = c as u32;
    if u >= '0' as u32 && u <= '9' as u32 {
        Some((u - '0' as u32) as u8)
    } else if u >= 'a' as u32 && u <= 'f' as u32 {
        Some((u - 'a' as u32 + 10) as u8)
    } else if u >= 'A' as u32 && u <= 'F' as u32 {
        Some((u - 'A' as u32 + 10) as u8)
    } else {
        None
    }
}

impl TwoFactorConfig {
    /// Decode the configured encryption key: exactly 64 hexadecimal digits
    /// yield the 32-byte key; anything else is a configuration error.
    pub fn parse_encryption_key(&self) -> (r: Result<Vec<u8>, String>)
        ensures
            r is Ok <==> (self.encryption_key@.len() == 64 && all_hex(self.encryption_key@)),
            r matches Ok(k) ==> k@ == spec_hex_decode(self.encryption_key@) && k@.len() == 32,
            r matches Err(m) ==> m@ == "Invalid two-factor encryption key configuration."@,
    {
        let s = self.encryption_key.as_str();
        let n = s.unicode_len();
        if n != 64 {
            return Err(String::from_str("Invalid two-factor encryption key configuration."));
        }
        let mut bytes: Vec<u8> = Vec::new();
        let mut i: usize = 0;
        while i < 64
            invariant
                i % 2 == 0,
                i <= 64,
                n == s@.len() == 64,
                s@ == self.encryption_key@,
                forall|k: int| 0 <= k < i ==> is_hex_digit(#[trigger] s@[k]),
                bytes@ == spec_hex_decode(s@).subrange(0, i as int / 2),
            decreases 64 - i,
        {
            let hi = match hex_digit(s.get_char(i)) {
                Some(v) => v,
                None => {
                    return Err(String::from_str("Invalid two-factor encryption key configuration."));
                },
            };
            let lo = match hex_digit(s.get_char(i + 1)) {
                Some(v) => v,
                None => {
                    return Err(String::from_str("Invalid two-factor encryption key configuration."));
                },
            };
            bytes.push(16 * hi + lo);
            i = i + 2;
            proof {
                assert(bytes@ =~= spec_hex_decode(s@).subrange(0, i as int / 2));
            }
        }
        proof {
            assert(bytes@ =~= spec_hex_decode(s@));
        }
        Ok(bytes)
    }
}

/// Whether `code` is among `codes`.
pub open spec fn spec_contains_code(codes: Seq<String>, code: Seq<char>) -> bool {
    exists|i: int| 0 <= i < codes.len() && (#[trigger] codes[i])@ == code
}

/// Whether the submitted `code` reads the same as one of `codes`.
pub fn contains_code(codes: &Vec<String>, code: &str) -> (r: bool)
    ensures
        r == spec_contains_code(codes@, code@),
{
    let mut j: usize = 0;
    while j < codes.len()
        invariant
            j <= codes@.len(),
            forall|k: int| 0 <= k < j ==> (#[trigger] codes@[k])@ != code@,
        decreases codes@.len() - j,
    {
        if crate::ids::str_eq(codes[j].as_str(), code) {
            return true;
        }
        j = j + 1;
    }
    false
}

/// First index in `codes` reading `code`, or `-1`.
pub open spec fn find_code_index(codes: Seq<String>, code: Seq<char>) -> int
    decreases codes.len(),
{
    if codes.len() == 0 {
        -1
    } else if codes[0]@ == code {
        0
    } else {
        let r = find_code_index(codes.drop_first(), code);
        if r < 0 {
            -1
        } else {
            r + 1
        }
    }
}

/// Scanning past `i` mismatches and hitting a match at `i` (or the end) pins
/// `find_code_index`.
proof fn lemma_find_code_index_at(codes: Seq<String>, code: Seq<char>, i: int)
    requires
        0 <= i <= codes.len(),
        forall|k: int| 0 <= k < i ==> codes[k]@ != code,
        i < codes.len() ==> codes[i]@ == code,
    ensures
        i < codes.len() ==> find_code_index(codes, code) == i,
        i == codes.len() ==> find_code_index(codes, code) == -1,
    decreases codes.len(),
{
    if codes.len() > 0 {
        if codes[0]@ == code {
            assert(i == 0);
        } else {
            let rest = codes.drop_first();
            assert(forall|k: int| 0 <= k < i - 1 ==> rest[k]@ != code);
            lemma_find_code_index_at(rest, code, i - 1);
        }
    }
}

/// One user's two-factor state: the failure counter and the unused backup
/// codes.
#[derive(Debug)]
pub struct TwoFactorEntry {
    pub user_id: String,
    pub failures: u32,
    pub backup_codes: Vec<String>,
}

/// First index in `entries` belonging to `user_id`, or `-1`.
pub open spec fn find_user_index(entries: Seq<TwoFactorEntry>, user_id: Seq<char>) -> int
    decreases entries.len(),
{
    if entries.len() == 0 {
        -1
    } else if entries[0].user_id@ == user_id {
        0
    } else {
        let r = find_user_index(entries.drop_first(), user_id);
        if r < 0 {
            -1
        } else {
            r + 1
        }
    }
}

/// Scanning past `i` mismatches and hitting a match at `i` (or the end) pins
/// `find_user_index`.
pub proof fn lemma_find_user_index_at(entries: Seq<TwoFactorEntry>, user_id: Seq<char>, i: int)
    requires
        0 <= i <= entries.len(),
        forall|k: int| 0 <= k < i ==> entries[k].user_id@ != user_id,
        i < entries.len() ==> entries[i].user_id@ == user_id,
    ensures
        i < entries.len() ==> find_user_index(entries, user_id) == i,
        i == entries.len() ==> find_user_index(entries, user_id) == -1,
    decreases entries.len(),
{
    if entries.len() > 0 {
        if entries[0].user_id@ == user_id {
            assert(i == 0);
        } else {
            let rest = entries.drop_first();
            assert(forall|k: int| 0 <= k < i - 1 ==> rest[k].user_id@ != user_id);
            lemma_find_user_index_at(rest, user_id, i - 1);
        }
    }
}

/// The failure count on record for a user; a user with no entry has none.
pub open spec fn spec_failures(entries: Seq<TwoFactorEntry>, user_id: Seq<char>) -> u32 {
    let fi = find_user_index(entries, user_id);
    if fi >= 0 {
        entries[fi].failures
    } else {
        0
    }
}

/// The per-user two-factor store.
#[derive(Debug)]
pub struct TwoFactorGuard {
    pub entries: Vec<TwoFactorEntry>,
}

impl TwoFactorGuard {
    /// Entries are keyed uniquely by user.
    pub open spec fn wf(self) -> bool {
        forall|i: int, j: int|
            0 <= i < j < self.entries@.len() ==> self.entries@[i].user_id@ != self.entries@[j].user_id@
    }

    /// A store with no two-factor state.
    pub fn new() -> (r: Self)
        ensures
            r.wf(),
            r.entries@.len() == 0,
    {
        TwoFactorGuard { entries: Vec::new() }
    }

    /// Position of the entry for `user_id`, if one is present.
    fn find_entry(&self, user_id: &str) -> (r: Option<usize>)
        ensures
            ({
                let fi = find_user_index(self.entries@, user_id@);
                match r {
                    Option::Some(i) => fi == i && i < self.entries@.len(),
                    Option::None => fi == -1,
                }
            }),
    {
        let mut j: usize = 0;
        while j < self.entries.len()
            invariant
                j <= self.entries@.len(),
                forall|k: int| 0 <= k < j ==> self.entries@[k].user_id@ != user_id@,
            decreases self.entries@.len() - j,
        {
            if crate::ids::str_eq(self.entries[j].user_id.as_str(), user_id) {
                proof {
                    lemma_find_user_index_at(self.entries@, user_id@, j as int);
                }
                return Some(j);
            }
            j = j + 1;
        }
        proof {
            lemma_find_user_index_at(self.entries@, user_id@, self.entries@.len() as int);
        }
        None
    }

    /// Whether the user's failures have reached the budget.
    pub fn check_rate_limit(&self, user_id: &str, max_attempts: u32) -> (r: bool)
        ensures
            r == (spec_failures(self.entries@, user_id@) >= max_attempts),
    {
        match self.find_entry(user_id) {
            Some(i) => self.entries[i].failures >= max_attempts,
            None => 0 >= max_attempts,
        }
    }

    /// Count one failed two-factor attempt for the user, creating the entry
    /// when none is on record.
    pub fn record_failed_attempt(&mut self, user_id: &str)
        requires
            old(self).wf(),
        ensures
            final(self).wf(),
            spec_failures(final(self).entries@, user_id@) == (
                if spec_failures(old(self).entries@, user_id@) < u32::MAX {
                    spec_failures(old(self).entries@, user_id@) + 1
                } else {
                    u32::MAX as int
                }),
            ({
                let fi = find_user_index(old(self).entries@, user_id@);
                if fi >= 0 {
                    final(self).entries@.len() == old(self).entries@.len()
                    && (forall|k: int|
                        0 <= k < old(self).entries@.len() && k != fi ==> final(self).entries@[k]
                            == old(self).entries@[k])
                    && final(self).entries@[fi].user_id == old(self).entries@[fi].user_id
                    && final(self).entries@[fi].backup_codes == old(self).entries@[fi].backup_codes
                } else {
                    final(self).entries@.len() == old(self).entries@.len() + 1
                    && final(self).entries@.subrange(0, old(self).entries@.len() as int)
                        == old(self).entries@
                    && final(self).entries@.last().user_id@ == user_id@
                    && final(self).entries@.last().backup_codes@.len() == 0
                }
            }),
    {
        match self.find_entry(user_id) {
            Some(i) => {
                proof {
                    lemma_user_entry_found(self.entries@, user_id@);
                }
                let entry = &mut self.entries[i];
                if entry.failures < u32::MAX {
                    entry.failures = entry.failures + 1;
                }
                proof {
                    assert(forall|k: int|
                        0 <= k < self.entries@.len() ==> (#[trigger] self.entries@[k]).user_id
                            == old(self).entries@[k].user_id);
                    lemma_find_user_index_at(self.entries@, user_id@, i as int);
                }
            },
            None => {
                proof {
                    lemma_user_entry_found(self.entries@, user_id@);
                }
                let entry = TwoFactorEntry {
                    user_id: user_id.to_owned(),
                    failures: 1,
                    backup_codes: Vec::new(),
                };
                self.entries.push(entry);
                proof {
                    lemma_find_user_index_at(self.entries@, user_id@, old(self).entries@.len() as int);
                    assert(self.entries@.subrange(0, old(self).entries@.len() as int)
                        =~= old(self).entries@);
                }
            },
        }
    }

    /// Clear the user's failure count; a user with no entry stays without
    /// one.
    pub fn reset_rate_limit(&mut self, user_id: &str)
        requires
            old(self).wf(),
        ensures
            final(self).wf(),
            spec_failures(final(self).entries@, user_id@) == 0,
            ({
                let fi = find_user_index(old(self).entries@, user_id@);
                if fi >= 0 {
                    final(self).entries@.len() == old(self).entries@.len()
                    && (forall|k: int|
                        0 <= k < old(self).entries@.len() && k != fi ==> final(self).entries@[k]
                            == old(self).entries@[k])
                    && final(self).entries@[fi].user_id == old(self).entries@[fi].user_id
                    && final(self).entries@[fi].failures == 0
                    && final(self).entries@[fi].backup_codes == old(self).entries@[fi].backup_codes
                } else {
                    final(self).entries@ == old(self).entries@
                }
            }),
    {
        match self.find_entry(user_id) {
            Some(i) => {
                proof {
                    lemma_user_entry_found(self.entries@, user_id@);
                }
                let entry = &mut self.entries[i];
                entry.failures = 0;
                proof {
                    assert(forall|k: int|
                        0 <= k < self.entries@.len() ==> (#[trigger] self.entries@[k]).user_id
                            == old(self).entries@[k].user_id);
                    lemma_find_user_index_at(self.entries@, user_id@, i as int);
                }
            },
            None => {},
        }
    }

    /// Store the user's unused backup codes, replacing any earlier set;
    /// the failure count is kept.
    pub fn set_backup_codes(&mut self, user_id: &str, codes: Vec<String>)
        requires
            old(self).wf(),
        ensures
            final(self).wf(),
            ({
                let fi = find_user_index(old(self).entries@, user_id@);
                if fi >= 0 {
                    final(self).entries@.len() == old(self).entries@.len()
                    && (forall|k: int|
                        0 <= k < old(self).entries@.len() && k != fi ==> final(self).entries@[k]
                            == old(self).entries@[k])
                    && final(self).entries@[fi].user_id == old(self).entries@[fi].user_id
                    && final(self).entries@[fi].failures == old(self).entries@[fi].failures
                    && final(self).entries@[fi].backup_codes == codes
                } else {
                    final(self).entries@.len() == old(self).entries@.len() + 1
                    && final(self).entries@.subrange(0, old(self).entries@.len() as int)
                        == old(self).entries@
                    && final(self).entries@.last().user_id@ == user_id@
                    && final(self).entries@.last().failures == 0
                    && final(self).entries@.last().backup_codes == codes
                }
            }),
    {
        match self.find_entry(user_id) {
            Some(i) => {
                proof {
                    lemma_user_entry_found(self.entries@, user_id@);
                }
                let entry = &mut self.entries[i];
                entry.backup_codes = codes;
                proof {
                    assert(forall|k: int|
                        0 <= k < self.entries@.len() ==> (#[trigger] self.entries@[k]).user_id
                            == old(self).entries@[k].user_id);
                }
            },
            None => {
                proof {
                    lemma_user_entry_found(self.entries@, user_id@);
                }
                let entry = TwoFactorEntry { user_id: user_id.to_owned(), failures: 0, backup_codes: codes };
                self.entries.push(entry);
                proof {
                    assert(self.entries@.subrange(0, old(self).entries@.len() as int)
                        =~= old(self).entries@);
                }
            },
        }
    }

    /// Try `code` against the user's unused backup codes: a match consumes
    /// the code and succeeds; anything else changes nothing and fails.
    pub fn verify_backup_code(&mut self, user_id: &str, code: &str) -> (r: bool)
        requires
            old(self).wf(),
        ensures
            final(self).wf(),
            ({
                let fi = find_user_index(old(self).entries@, user_id@);
                if fi >= 0 {
                    let ci = find_code_index(old(self).entries@[fi].backup_codes@, code@);
                    if ci >= 0 {
                        r == true
                        && final(self).entries@.len() == old(self).entries@.len()
                        && (forall|k: int|
                            0 <= k < old(self).entries@.len() && k != fi ==> final(self).entries@[k]
                                == old(self).entries@[k])
                        && final(self).entries@[fi].user_id == old(self).entries@[fi].user_id
                        && final(self).entries@[fi].failures == old(self).entries@[fi].failures
                        && final(self).entries@[fi].backup_codes@
                            == old(self).entries@[fi].backup_codes@.remove(ci)
                    } else {
                        r == false && final(self).entries@ == old(self).entries@
                    }
                } else {
                    r == false && final(self).entries@ == old(self).entries@
                }
            }),
    {
        match self.find_entry(user_id) {
            Some(i) => {
                proof {
                    lemma_user_entry_found(self.entries@, user_id@);
                }
                let ghost old_codes = self.entries@[i as int].backup_codes@;
                let mut j: usize = 0;
                let codes_len = self.entries[i].backup_codes.len();
                while j < codes_len
                    invariant
                        j <= old_codes.len(),
                        codes_len == old_codes.len(),
                        i < self.entries@.len(),
                        old(self).wf(),
                        self.entries@ == old(self).entries@,
                        find_user_index(old(self).entries@, user_id@) == i,
                        old_codes == self.entries@[i as int].backup_codes@,
                        forall|k: int| 0 <= k < j ==> old_codes[k]@ != code@,
                    decreases codes_len - j,
                {
                    if crate::ids::str_eq(self.entries[i].backup_codes[j].as_str(), code) {
                        proof {
                            lemma_find_code_index_at(old_codes, code@, j as int);
                        }
                        let entry = &mut self.entries[i];
                        entry.backup_codes.remove(j);
                        proof {
                            assert(forall|k: int|
                                0 <= k < self.entries@.len() ==> (#[trigger] self.entries@[k]).user_id
                                    == old(self).entries@[k].user_id);
                        }
                        return true;
                    }
                    j = j + 1;
                }
                proof {
                    lemma_find_code_index_at(old_codes, code@, old_codes.len() as int);
                }
                false
            },
            None => false,
        }
    }
}

/// The entry `find_user_index` points at carries that user id, and nothing
/// before it does.
pub proof fn lemma_user_entry_found(entries: Seq<TwoFactorEntry>, user_id: Seq<char>)
    ensures
        find_user_index(entries, user_id) != -1 ==> 0 <= find_user_index(entries, user_id)
            < entries.len() && entries[find_user_index(entries, user_id)].user_id@ == user_id,
        find_user_index(entries, user_id) != -1 ==> forall|k: int|
            0 <= k < find_user_index(entries, user_id) ==> entries[k].user_id@ != user_id,
        find_user_index(entries, user_id) == -1 ==> forall|k: int|
            0 <= k < entries.len() ==> entries[k].user_id@ != user_id,
    decreases entries.len(),
{
    if entries.len() > 0 && entries[0].user_id@ != user_id {
        let rest = entries.drop_first();
        lemma_user_entry_found(rest, user_id);
        if find_user_index(entries, user_id) == -1 {
            assert forall|k: int| 0 <= k < entries.len() implies entries[k].user_id@ != user_id by {
                if k > 0 {
                    assert(rest[k - 1] == entries[k]);
                }
            }
        } else {
            assert forall|k: int| 0 <= k < find_user_index(entries, user_id) implies entries[k].user_id@
                != user_id by {
                if k > 0 {
                    assert(rest[k - 1] == entries[k]);
                }
            }
        }
    }
}

} // verus!
