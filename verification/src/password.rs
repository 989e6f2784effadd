//! Generation of fresh control credentials.
//!
//! A credential is an opaque token of 16 characters drawn from a broad
//! alphanumeric alphabet, compared by exact equality. One is generated at
//! startup and one more each time a control connection authenticates.

use vstd::prelude::*;
use rand::Rng;

verus! {

/// A character the credential generator can produce.
pub open spec fn is_password_char(c: char) -> bool {
    ||| 'a' <= c && c <= 'z'
    ||| 'A' <= c && c <= 'Z'
    ||| '0' <= c && c <= '9'
}

/// Every character of `s` comes from the generator's alphabet.
pub open spec fn is_password_text(s: Seq<char>) -> bool {
    forall|i: int| 0 <= i < s.len() ==> is_password_char(#[trigger] s[i])
}

/// Relies on rand's `Alphanumeric` distribution: every sampled byte is one of
/// `a`-`z`, `A`-`Z`, `0`-`9`, so the collected string has exactly the 16
/// characters drawn. Nothing is promised about which characters come out.
#[verifier::external_body]
pub(crate) fn generate_password() -> (r: String)
    ensures
        r@.len() == 16,
        is_password_text(r@),
{
    rand::thread_rng()
        .sample_iter(&rand::distributions::Alphanumeric)
        .take(16)
        .map(char::from)
        .collect()
}

} // verus!
