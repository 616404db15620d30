//! Password hashing for the settings password (Argon2id, never plaintext).

use vstd::prelude::*;
use argon2::{Argon2, PasswordHasher, PasswordVerifier};
use password_hash::rand_core::{OsRng, RngCore};
use password_hash::{PasswordHash, SaltString};
use crate::error::Error;
use crate::text::starts_with;

verus! {

/// Whether `PasswordHash::new` accepts `phc` as a PHC string.
pub uninterp spec fn phc_parses(phc: Seq<char>) -> bool;

/// Whether `Argon2::default().verify_password` accepts `password` against the
/// parsed PHC string `phc`.
pub uninterp spec fn argon2_verifies(password: Seq<char>, phc: Seq<char>) -> bool;

/// The prefix of every PHC string produced with Argon2's default (Argon2id).
pub open spec fn argon2id_prefix() -> Seq<char> {
    "$argon2id$"@
}

/// A salt of 16 bytes (`Salt::RECOMMENDED_LENGTH`) from `OsRng.try_fill_bytes`,
/// made a `SaltString` by `SaltString::encode_b64`, then
/// `Argon2::default().hash_password`, rendered with `to_string`; each step's
/// failure (the operating system supplying no randomness among them) is an
/// `Err`. The salt is random, so the string is not determined by the
/// password; what is claimed is what the same crate promises of its own
/// output: it is an Argon2id PHC string that `PasswordHash::new` parses and
/// against which `Argon2::verify_password` (recomputing with the stored salt
/// and parameters) accepts the same password. Nothing is claimed of the
/// error text.
#[verifier::external_body]
fn argon2_hash(password: &str) -> (r: Result<String, String>)
    ensures
        r matches Ok(h) ==> phc_parses(h@) && argon2_verifies(password@, h@) && starts_with(
            h@,
            argon2id_prefix(),
        ),
{
    let mut bytes = [0u8; 16];
    if let Err(e) = OsRng.try_fill_bytes(&mut bytes) {
        return Err(e.to_string());
    }
    let salt = match SaltString::encode_b64(&bytes) {
        Ok(s) => s,
        Err(e) => return Err(e.to_string()),
    };
    match Argon2::default().hash_password(password.as_bytes(), &salt) {
        Ok(h) => Ok(h.to_string()),
        Err(e) => Err(e.to_string()),
    }
}

/// `PasswordHash::new(phc)`, then `Argon2::default().verify_password` on the
/// parsed hash. Fails exactly when `PasswordHash::new` rejects `phc`;
/// otherwise gives whether the verifier accepted the password. Nothing is
/// claimed of the error text.
#[verifier::external_body]
fn argon2_verify(password: &str, phc: &str) -> (r: Result<bool, String>)
    ensures
        r is Ok <==> phc_parses(phc@),
        r matches Ok(b) ==> b == argon2_verifies(password@, phc@),
{
    match PasswordHash::new(phc) {
        Ok(parsed) => Ok(Argon2::default().verify_password(password.as_bytes(), &parsed).is_ok()),
        Err(e) => Err(e.to_string()),
    }
}

/// Hash a password with Argon2id and return a PHC string (safe to store).
/// Whatever string comes back, the same password verifies against it.
pub fn hash_password(password: &str) -> (r: Result<String, Error>)
    ensures
        r matches Ok(h) ==> phc_parses(h@) && argon2_verifies(password@, h@) && starts_with(
            h@,
            argon2id_prefix(),
        ),
        r matches Err(e) ==> e is Password,
{
    match argon2_hash(password) {
        Ok(h) => Ok(h),
        Err(m) => Err(Error::Password(m)),
    }
}

/// Verify a password against a stored PHC hash. Returns `Ok(false)` on a
/// wrong password, `Err` only if the stored hash is malformed.
pub fn verify_password(password: &str, phc: &str) -> (r: Result<bool, Error>)
    ensures
        r is Ok <==> phc_parses(phc@),
        r matches Ok(b) ==> b == argon2_verifies(password@, phc@),
        r matches Err(e) ==> e is Password,
{
    match argon2_verify(password, phc) {
        Ok(b) => Ok(b),
        Err(m) => Err(Error::Password(m)),
    }
}

/// Whether `submitted` passes the settings password: it always does when no
/// password is set (`stored` is `None`); otherwise it must verify against the
/// stored hash.
pub open spec fn password_accepts(stored: Option<Seq<char>>, submitted: Seq<char>) -> bool {
    match stored {
        None => true,
        Some(h) => argon2_verifies(submitted, h),
    }
}

/// A weakening op is allowed if no password is set, or the password matches.
/// Fails only when the stored hash is malformed.
pub fn check_password(stored: Option<&str>, submitted: &str) -> (r: Result<bool, Error>)
    ensures
        r is Ok <==> (stored matches Some(h) ==> phc_parses(h@)),
        r matches Ok(b) ==> b == password_accepts(
            match stored {
                Some(h) => Some(h@),
                None => None,
            },
            submitted@,
        ),
        r matches Err(e) ==> e is Password,
{
    match stored {
        None => Ok(true),
        Some(h) => verify_password(submitted, h),
    }
}

} // verus!
