//! Account names.
use vstd::prelude::*;

verus! {

pub open spec fn is_separator(c: char) -> bool {
    c == '-' || c == '_' || c == '.'
}

pub open spec fn is_account_char(c: char) -> bool {
    ('a' <= c && c <= 'z') || ('0' <= c && c <= '9') || is_separator(c)
}

/// An account name: 2 to 64 characters among `a-z`, `0-9`, `-`, `_` and
/// `.`, where a separator neither starts nor ends the name nor follows
/// another separator.
pub open spec fn valid_account_id(s: Seq<char>) -> bool {
    &&& 2 <= s.len() <= 64
    &&& forall|i: int| 0 <= i < s.len() ==> is_account_char(#[trigger] s[i])
    &&& !is_separator(s[0])
    &&& !is_separator(s[s.len() - 1])
    &&& forall|i: int| 0 <= i < s.len() - 1 ==> !(is_separator(#[trigger] s[i]) && is_separator(s[i + 1]))
}

/// Relies on near_sdk::AccountId::validate: `Ok` exactly for the names that
/// `valid_account_id` describes.
#[verifier::external_body]
pub(crate) fn is_valid_account_id(s: &str) -> (r: bool)
    ensures
        r == valid_account_id(s@),
{
    near_sdk::AccountId::validate(s).is_ok()
}

} // verus!
