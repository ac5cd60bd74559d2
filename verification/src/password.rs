//! Password hashing with bcrypt.

use vstd::prelude::*;

verus! {

/// What `bcrypt::verify(password, hash)` answers: `Ok(matches)`, or the text of the
/// error it reports when `hash` is not a bcrypt hash it can read.
pub uninterp spec fn bcrypt_verdict(password: Seq<char>, hash: Seq<char>) -> Result<bool, Seq<char>>;

/// Hashes a password (`bcrypt::hash` with `bcrypt::DEFAULT_COST`, random salt).
/// Claimed, as the source shows (the hash records cost and salt, and `verify`
/// recomputes it from them, truncating the password the same way): a hash that
/// comes back verifies the password. Not claimed: which hash (the salt is random)
/// or that hashing succeeds.
#[verifier::external_body]
pub(crate) fn hash_password(password: &str) -> (res: Result<String, String>)
    ensures
        res matches Ok(h) ==> bcrypt_verdict(password@, h@) matches Ok(true),
{
    bcrypt::hash(password, bcrypt::DEFAULT_COST).map_err(|e| e.to_string())
}

/// Checks a password against a stored hash (`bcrypt::verify`). Claimed: the answer
/// is `bcrypt_verdict` of the two, the error's text included.
#[verifier::external_body]
pub(crate) fn verify_password(password: &str, hash: &str) -> (res: Result<bool, String>)
    ensures
        bcrypt_verdict(password@, hash@) == match res {
            Ok(b) => Ok(b),
            Err(m) => Err(m@),
        },
{
    bcrypt::verify(password, hash).map_err(|e| e.to_string())
}

} // verus!
