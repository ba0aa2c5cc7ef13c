//! Caller and user identifiers.
//!
//! User ids travel as uuid strings. Parsing and normalising them is delegated
//! to the uuid crate behind one trusted wrapper; everything that surrounds the
//! call — validation outcomes and the session-cookie format `id:email` — is
//! verified here.

use vstd::prelude::*;
use vstd::string::*;

verus! {

/// Whether two strings hold the same characters.
pub fn str_eq(a: &str, b: &str) -> (r: bool)
    ensures
        r == (a@ == b@),
{
    let sa = a.to_owned();
    let sb = b.to_owned();
    sa == sb
}

/// The value the uuid parser assigns to a string: the canonical hyphenated
/// form when the string is one of the accepted uuid encodings, and nothing
/// otherwise. Depends on the characters alone.
pub uninterp spec fn parsed_uuid(s: Seq<char>) -> Option<Seq<char>>;

/// Relies on uuid::Uuid::parse_str and uuid::Uuid::to_string: parsing accepts
/// a string of hexadecimal digits in one of the documented uuid encodings and
/// depends on its characters alone, and the canonical form printed back is
/// the 36-character lowercase hyphenated one.
#[verifier::external_body]
pub(crate) fn parse_uuid_string(s: &str) -> (r: Option<String>)
    ensures
        r is Some <==> parsed_uuid(s@) is Some,
        r matches Some(u) ==> (parsed_uuid(s@) matches Some(p) && u@ == p && p.len() == 36),
{
    uuid::Uuid::parse_str(s).ok().map(|u| u.to_string())
}

/// A rejected field value, carrying the validation code that failed.
#[derive(Debug)]
pub struct ValidationError {
    pub code: String,
}

/// Whether `id` is a well-formed uuid string; rejections carry the code
/// `Valid Uuid`.
pub fn validate_uuid_v4(id: &str) -> (r: Result<(), ValidationError>)
    ensures
        r is Ok <==> parsed_uuid(id@) is Some,
        r matches Err(e) ==> e.code@ == "Valid Uuid"@,
{
    match parse_uuid_string(id) {
        Some(_) => Ok(()),
        None => Err(ValidationError { code: String::from_str("Valid Uuid") }),
    }
}

/// The characters of `s` before its first `:`, or nothing when `s` has no
/// `:` at all.
pub open spec fn before_first_colon(s: Seq<char>) -> Option<Seq<char>>
    decreases s.len(),
{
    if s.len() == 0 {
        Option::None
    } else if s[0] == ':' {
        Option::Some(Seq::empty())
    } else {
        match before_first_colon(s.drop_first()) {
            Option::None => Option::None,
            Option::Some(p) => Option::Some(seq![s[0]] + p),
        }
    }
}

/// Scanning past `i` non-colons pins what `before_first_colon` returns: the
/// prefix up to a colon at `i`, or nothing when the scan reached the end.
proof fn lemma_before_first_colon_at(s: Seq<char>, i: int)
    requires
        0 <= i <= s.len(),
        forall|k: int| 0 <= k < i ==> s[k] != ':',
        i < s.len() ==> s[i] == ':',
    ensures
        i < s.len() ==> before_first_colon(s) == Option::Some(s.subrange(0, i)),
        i == s.len() ==> before_first_colon(s) is None,
    decreases s.len(),
{
    if s.len() > 0 {
        if s[0] == ':' {
            assert(i == 0);
            assert(s.subrange(0, 0) =~= Seq::<char>::empty());
        } else {
            let rest = s.drop_first();
            assert(forall|k: int| 0 <= k < i - 1 ==> rest[k] != ':');
            lemma_before_first_colon_at(rest, i - 1);
            if i < s.len() {
                assert(seq![s[0]] + rest.subrange(0, i - 1) =~= s.subrange(0, i));
            }
        }
    }
}

/// The user id carried by a session cookie value of the form `id:email`:
/// the part before the first `:`, parsed and normalised as a uuid. Nothing is
/// extracted when the value has no `:` or its prefix is not a uuid.
pub fn extract_user_id(cookie_value: &str) -> (r: Option<String>)
    ensures
        ({
            match before_first_colon(cookie_value@) {
                Option::None => r is None,
                Option::Some(p) => (r is Some <==> parsed_uuid(p) is Some) && (r matches Some(u)
                    ==> (parsed_uuid(p) matches Some(q) && u@ == q)),
            }
        }),
{
    let n = cookie_value.unicode_len();
    let mut i: usize = 0;
    while i < n
        invariant
            i <= n,
            n == cookie_value@.len(),
            forall|k: int| 0 <= k < i ==> cookie_value@[k] != ':',
        decreases n - i,
    {
        if cookie_value.get_char(i) == ':' {
            let prefix = cookie_value.substring_char(0, i);
            proof {
                lemma_before_first_colon_at(cookie_value@, i as int);
            }
            return parse_uuid_string(prefix);
        }
        i = i + 1;
    }
    proof {
        lemma_before_first_colon_at(cookie_value@, n as int);
    }
    None
}

} // verus!
