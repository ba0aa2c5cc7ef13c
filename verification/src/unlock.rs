//! Single-use account-unlock tokens.
//!
//! When a lockout is eligible for self-service recovery, a token is minted,
//! stored, and sent to the user out of band. Redeeming a token succeeds at
//! most once, and only before it expires; the successful redemption names the
//! account to reopen.

use vstd::prelude::*;
use crate::arith::{sat_add, saturating_add};

verus! {

/// One minted token.
#[derive(Debug)]
pub struct UnlockToken {
    /// The opaque credential handed to the user.
    pub token: String,
    /// The account the token reopens.
    pub user_id: String,
    /// Redemptions at or after this instant fail.
    pub expires_at: u64,
    /// Whether the token was already redeemed.
    pub used: bool,
}

/// Relies on uuid::Uuid::new_v4 and uuid::Uuid::to_string: a freshly drawn
/// random identifier, printed in the 36-character lowercase hyphenated form.
/// Nothing relates two mints; only the length is promised.
#[verifier::external_body]
fn mint_token() -> (r: String)
    ensures
        r@.len() == 36,
{
    uuid::Uuid::new_v4().to_string()
}

/// First index in `tokens` whose credential reads `token`, or `-1`.
pub open spec fn find_token_index(tokens: Seq<UnlockToken>, token: Seq<char>) -> int
    decreases tokens.len(),
{
    if tokens.len() == 0 {
        -1
    } else if tokens[0].token@ == token {
        0
    } else {
        let r = find_token_index(tokens.drop_first(), token);
        if r < 0 {
            -1
        } else {
            r + 1
        }
    }
}

/// Scanning past `i` mismatches and hitting a match at `i` (or the end) pins
/// `find_token_index`.
proof fn lemma_find_token_index_at(tokens: Seq<UnlockToken>, token: Seq<char>, i: int)
    requires
        0 <= i <= tokens.len(),
        forall|k: int| 0 <= k < i ==> tokens[k].token@ != token,
        i < tokens.len() ==> tokens[i].token@ == token,
    ensures
        i < tokens.len() ==> find_token_index(tokens, token) == i,
        i == tokens.len() ==> find_token_index(tokens, token) == -1,
    decreases tokens.len(),
{
    if tokens.len() > 0 {
        if tokens[0].token@ == token {
            assert(i == 0);
        } else {
            let rest = tokens.drop_first();
            assert(forall|k: int| 0 <= k < i - 1 ==> rest[k].token@ != token);
            lemma_find_token_index_at(rest, token, i - 1);
        }
    }
}

/// A redemption, on the store's mathematical value: the first token reading
/// `token` is consumed if it is present, unused and unexpired, and the
/// account it names is returned; in every other case nothing changes.
pub open spec fn spec_redeem(tokens: Seq<UnlockToken>, token: Seq<char>, now: u64) -> (
    Seq<UnlockToken>,
    Option<Seq<char>>,
) {
    let fi = find_token_index(tokens, token);
    if fi >= 0 {
        let t = tokens[fi];
        if !t.used && now < t.expires_at {
            (tokens.update(fi, UnlockToken { used: true, ..t }), Option::Some(t.user_id@))
        } else {
            (tokens, Option::None)
        }
    } else {
        (tokens, Option::None)
    }
}

/// The stored unlock tokens.
#[derive(Debug)]
pub struct UnlockTokenStore {
    pub tokens: Vec<UnlockToken>,
}

impl UnlockTokenStore {
    /// A store with no tokens.
    pub fn new() -> (r: Self)
        ensures
            r.tokens@.len() == 0,
    {
        UnlockTokenStore { tokens: Vec::new() }
    }

    /// Mint and store a token for `user_id`, valid for `ttl_seconds` from
    /// `now`; the minted credential is returned for delivery.
    pub fn issue_unlock_token(&mut self, user_id: &str, now: u64, ttl_seconds: u64) -> (token: String)
        ensures
            final(self).tokens@.len() == old(self).tokens@.len() + 1,
            final(self).tokens@.subrange(0, old(self).tokens@.len() as int) == old(self).tokens@,
            ({
                let t = final(self).tokens@[old(self).tokens@.len() as int];
                &&& t.token@ == token@
                &&& t.user_id@ == user_id@
                &&& t.expires_at == sat_add(now, ttl_seconds)
                &&& !t.used
                &&& token@.len() == 36
            }),
    {
        let token = mint_token();
        let entry = UnlockToken {
            token: token.clone(),
            user_id: user_id.to_owned(),
            expires_at: saturating_add(now, ttl_seconds),
            used: false,
        };
        self.tokens.push(entry);
        proof {
            assert(self.tokens@.subrange(0, old(self).tokens@.len() as int) =~= old(self).tokens@);
        }
        token
    }

    /// Redeem `token` at clock reading `now`: consume it and name its
    /// account, or report nothing when it is unknown, spent or expired.
    pub fn redeem(&mut self, token: &str, now: u64) -> (r: Option<String>)
        ensures
            ({
                let (tokens2, outcome) = spec_redeem(old(self).tokens@, token@, now);
                &&& final(self).tokens@ == tokens2
                &&& (r is Some <==> outcome is Some)
                &&& (r matches Some(u) ==> outcome == Option::Some(u@))
            }),
    {
        let ghost key = token@;
        let mut j: usize = 0;
        while j < self.tokens.len()
            invariant
                j <= self.tokens@.len(),
                self.tokens@ == old(self).tokens@,
                key == token@,
                forall|k: int| 0 <= k < j ==> self.tokens@[k].token@ != key,
            decreases self.tokens@.len() - j,
        {
            if crate::ids::str_eq(self.tokens[j].token.as_str(), token) {
                proof {
                    lemma_find_token_index_at(self.tokens@, key, j as int);
                }
                let ghost old_entry = self.tokens@[j as int];
                let entry = &mut self.tokens[j];
                if !entry.used && now < entry.expires_at {
                    entry.used = true;
                    proof {
                        assert(self.tokens@[j as int] == (UnlockToken { used: true, ..old_entry }));
                        assert(self.tokens@ =~= spec_redeem(old(self).tokens@, key, now).0);
                    }
                    let owner = self.tokens[j].user_id.clone();
                    return Some(owner);
                } else {
                    proof {
                        assert(self.tokens@ =~= old(self).tokens@);
                    }
                    return None;
                }
            }
            j = j + 1;
        }
        proof {
            lemma_find_token_index_at(self.tokens@, key, self.tokens@.len() as int);
        }
        None
    }
}

/// Law: a token is consumed exactly once. After a successful redemption, a
/// second redemption of the same credential fails, at whatever later clock
/// reading it is tried.
pub proof fn lemma_redeem_single_use(tokens: Seq<UnlockToken>, token: Seq<char>, now: u64, later: u64)
    requires
        spec_redeem(tokens, token, now).1 is Some,
    ensures
        spec_redeem(spec_redeem(tokens, token, now).0, token, later).1 is None,
{
    let fi = find_token_index(tokens, token);
    let tokens2 = spec_redeem(tokens, token, now).0;
    lemma_find_token_prefix(tokens, token);
    assert(forall|k: int| 0 <= k < fi ==> tokens2[k].token@ != token);
    assert(tokens2[fi].token@ == token);
    lemma_find_token_index_at(tokens2, token, fi);
}

/// The prefix before `find_token_index` holds no match.
proof fn lemma_find_token_prefix(tokens: Seq<UnlockToken>, token: Seq<char>)
    ensures
        find_token_index(tokens, token) != -1 ==> 0 <= find_token_index(tokens, token)
            < tokens.len() && tokens[find_token_index(tokens, token)].token@ == token,
        find_token_index(tokens, token) != -1 ==> forall|k: int|
            0 <= k < find_token_index(tokens, token) ==> tokens[k].token@ != token,
    decreases tokens.len(),
{
    if tokens.len() > 0 && tokens[0].token@ != token {
        let rest = tokens.drop_first();
        lemma_find_token_prefix(rest, token);
        if find_token_index(tokens, token) != -1 {
            assert forall|k: int| 0 <= k < find_token_index(tokens, token) implies tokens[k].token@
                != token by {
                if k > 0 {
                    assert(rest[k - 1] == tokens[k]);
                }
            }
        }
    }
}

/// Law: an expired token is worthless. Once `now` has reached a token's
/// expiry, redeeming it changes nothing and names no account.
pub proof fn lemma_redeem_expired(tokens: Seq<UnlockToken>, token: Seq<char>, now: u64)
    requires
        ({
            let fi = find_token_index(tokens, token);
            fi >= 0 ==> now >= tokens[fi].expires_at
        }),
    ensures
        spec_redeem(tokens, token, now).0 == tokens,
        spec_redeem(tokens, token, now).1 is None,
{
}

} // verus!
