//! Tier-name handling: validation of the allowed character set and
//! normalization (trim, then case-fold) of names used as registry keys.

use vstd::prelude::*;
use vstd::string::StrSliceExecFns;
use crate::errors::PresaleError;

verus! {

/// The characters a tier name may hold: ASCII letters, digits and underscore.
pub open spec fn is_tier_name_char(c: char) -> bool {
    ||| 'a' <= c && c <= 'z'
    ||| 'A' <= c && c <= 'Z'
    ||| '0' <= c && c <= '9'
    ||| c == '_'
}

/// Whether every character of `s` is allowed in a tier name.
pub open spec fn valid_tier_name(s: Seq<char>) -> bool {
    forall|i: int| 0 <= i < s.len() ==> is_tier_name_char(#[trigger] s[i])
}

/// The characters of `s` with leading and trailing whitespace removed.
pub uninterp spec fn trimmed(s: Seq<char>) -> Seq<char>;

/// The case-folded (lowercased) form of `s`.
pub uninterp spec fn folded(s: Seq<char>) -> Seq<char>;

/// The normalized form of a tier name: trimmed, then case-folded.
pub open spec fn normalized(s: Seq<char>) -> Seq<char> {
    folded(trimmed(s))
}

/// Relies on str::trim: removes leading and trailing whitespace; the result
/// depends on the characters alone and is a subsequence of the input.
#[verifier::external_body]
fn trim_str(s: &str) -> (r: &str)
    ensures
        r@ == trimmed(s@),
        r@.len() <= s@.len(),
{
    s.trim()
}

/// Relies on str::to_lowercase: the result depends on the characters alone;
/// an empty input stays empty.
#[verifier::external_body]
fn lowercase_str(s: &str) -> (r: String)
    ensures
        r@ == folded(s@),
        s@.len() == 0 ==> r@.len() == 0,
{
    s.to_lowercase()
}

/// Normalizes a tier name for use as a registry key.
pub fn normalize_tier_name(s: &str) -> (r: String)
    ensures
        r@ == normalized(s@),
{
    let t = trim_str(s);
    lowercase_str(t)
}

/// Checks that `name` holds only ASCII letters, digits and underscores.
pub fn validate_tier_name(name: &str) -> (r: Result<(), PresaleError>)
    ensures
        r matches Ok(u) ==> valid_tier_name(name@),
        r matches Err(e) ==> !valid_tier_name(name@) && e == PresaleError::InvalidTierNameFormat,
{
    let n = name.unicode_len();
    let mut i: usize = 0;
    while i < n
        invariant
            n == name@.len(),
            i <= n,
            forall|j: int| 0 <= j < i ==> is_tier_name_char(#[trigger] name@[j]),
        decreases n - i,
    {
        let c = name.get_char(i);
        let ok = ('a' <= c && c <= 'z') || ('A' <= c && c <= 'Z') || ('0' <= c && c <= '9')
            || c == '_';
        if !ok {
            return Err(PresaleError::InvalidTierNameFormat);
        }
        i = i + 1;
    }
    Ok(())
}

} // verus!
