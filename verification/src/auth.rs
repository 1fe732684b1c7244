//! Password hashing for server-side account authentication.
//!
//! Passwords are never stored in the clear: each account is hashed with
//! Argon2id and a fresh random salt, and the stored form is a standard PHC
//! string that bundles the algorithm, its cost parameters, the salt and the
//! digest in one self-describing record.

use vstd::prelude::*;
use vstd::string::StringSliceAdditionalSpecFns;

use argon2::password_hash::SaltString;
use argon2::{Argon2, PasswordHash, PasswordHasher, PasswordVerifier};

use crate::random::fill_random;

verus! {

/// Length of the random per-account salt, in bytes.
pub const SALT_LEN: usize = 16;

/// The record stored when hashing failed: PHC parsing rejects it, so no
/// password ever verifies against it.
pub open spec fn unusable_record() -> Seq<char> {
    seq!['!', 'i', 'n', 'v', 'a', 'l', 'i', 'd']
}

/// The prefix of every Argon2id PHC string.
pub open spec fn argon2id_prefix() -> Seq<char> {
    seq!['$', 'a', 'r', 'g', 'o', 'n', '2', 'i', 'd', '$']
}

/// The PHC string that Argon2id with the crate's default parameters produces
/// for `password` and `salt`.
pub uninterp spec fn argon2_phc(password: Seq<char>, salt: Seq<u8>) -> Seq<char>;

/// Whether Argon2 accepts `password` against the PHC record `stored`.
pub uninterp spec fn argon2_accepts(password: Seq<char>, stored: Seq<char>) -> bool;

/// Whether `record` is what hashing `password` with some salt produced.
pub open spec fn is_hash_of(password: Seq<char>, record: Seq<char>) -> bool {
    exists|salt: Seq<u8>| salt.len() == SALT_LEN && record == #[trigger] argon2_phc(password, salt)
}

/// A fresh salt from the operating system's random source, or `None` when that
/// source fails.
fn random_salt() -> (r: Option<[u8; SALT_LEN]>) {
    let mut salt = [0u8; SALT_LEN];
    if fill_random(&mut salt) {
        Some(salt)
    } else {
        None
    }
}

/// Hashes `password` with Argon2id (`Argon2::default().hash_password`, the salt
/// B64-encoded by `SaltString::encode_b64`) and renders the PHC string. Claims:
/// a produced string is `argon2_phc(password, salt)` and, as the crate's PHC
/// rendering writes `$` and the algorithm identifier first, starts with
/// `$argon2id$`; and hashing succeeds exactly when the password is at most
/// `0xFFFFFFFF` bytes long (argon2's `MAX_PWD_LEN`: with the default parameters
/// and a 16-byte salt, its input checks reject nothing else).
#[verifier::external_body]
fn argon2_hash(password: &str, salt: &[u8; SALT_LEN]) -> (r: Option<String>)
    ensures
        r is Some <==> password.spec_bytes().len() <= 0xFFFF_FFFF,
        r matches Some(s) ==> s@ == argon2_phc(password@, salt@),
        r matches Some(s) ==> s@.len() >= 10 && s@.take(10) == argon2id_prefix(),
{
    match SaltString::encode_b64(salt) {
        Ok(salt) => match Argon2::default().hash_password(password.as_bytes(), &salt) {
            Ok(hash) => Some(hash.to_string()),
            Err(_) => None,
        },
        Err(_) => None,
    }
}

/// Verifies `password` against the PHC record `stored` (`PasswordHash::new`, then
/// `Argon2::default().verify_password`). Claims: the answer is
/// `argon2_accepts(password, stored)`; a record that does not start with `$` is
/// rejected (PHC parsing requires the leading separator); a password over
/// `0xFFFFFFFF` bytes is rejected (re-hashing it fails argon2's `MAX_PWD_LEN`
/// check); and a record that hashing this very password produced is accepted
/// when the password is within that length.
#[verifier::external_body]
fn argon2_verify(password: &str, stored: &str) -> (r: bool)
    ensures
        r == argon2_accepts(password@, stored@),
        (stored@.len() == 0 || stored@[0] != '$') ==> !r,
        password.spec_bytes().len() > 0xFFFF_FFFF ==> !r,
        is_hash_of(password@, stored@) && password.spec_bytes().len() <= 0xFFFF_FFFF ==> r,
{
    match PasswordHash::new(stored) {
        Ok(parsed) => Argon2::default().verify_password(password.as_bytes(), &parsed).is_ok(),
        Err(_) => false,
    }
}

/// Hash `password` with Argon2id under `salt`: the PHC string, or `None` when
/// the password is too long for Argon2 (over `0xFFFFFFFF` bytes).
pub fn hash_with_salt(password: &str, salt: &[u8; SALT_LEN]) -> (r: Option<String>)
    ensures
        r is Some <==> password.spec_bytes().len() <= 0xFFFF_FFFF,
        r matches Some(s) ==> s@ == argon2_phc(password@, salt@) && s@.take(10) == argon2id_prefix(),
{
    argon2_hash(password, salt)
}

/// Hash `password` under a fresh random salt, or `None` when either the random
/// source or the hashing failed.
fn try_hash(password: &str) -> (r: Option<String>)
    ensures
        r matches Some(s) ==> is_hash_of(password@, s@) && s@.take(10) == argon2id_prefix(),
        password.spec_bytes().len() > 0xFFFF_FFFF ==> r is None,
{
    match random_salt() {
        Some(salt) => {
            let r = hash_with_salt(password, &salt);
            proof {
                if r is Some {
                    assert(r->0@ == argon2_phc(password@, salt@));
                }
            }
            r
        },
        None => None,
    }
}

/// The record to store for a hashing outcome: the PHC string when hashing
/// succeeded, otherwise an unusable record that no password verifies against.
pub fn record_for(hashed: Option<String>) -> (r: String)
    ensures
        match hashed {
            Some(s) => r@ == s@,
            None => r@ == unusable_record(),
        },
{
    match hashed {
        Some(s) => s,
        None => {
            let r = String::from_str("!invalid");
            proof {
                reveal_strlit("!invalid");
            }
            r
        },
    }
}

/// Hash `password` for storage with Argon2id under a fresh random salt, as an
/// encoded PHC string. On the practically-impossible event of a hashing failure
/// this returns an unusable record that no password will ever verify against.
pub fn hash_password(password: &str) -> (r: String)
    ensures
        r@ == unusable_record() || (is_hash_of(password@, r@) && r@.take(10) == argon2id_prefix()),
        password.spec_bytes().len() > 0xFFFF_FFFF ==> r@ == unusable_record(),
{
    record_for(try_hash(password))
}

/// Verify `password` against a previously hashed record. Returns `false` for any
/// mismatch, for a record that can't be parsed and for a password over
/// `0xFFFFFFFF` bytes; a record hashed from this very password verifies.
pub fn verify_password(password: &str, stored: &str) -> (r: bool)
    ensures
        r == argon2_accepts(password@, stored@),
        (stored@.len() == 0 || stored@[0] != '$') ==> !r,
        password.spec_bytes().len() > 0xFFFF_FFFF ==> !r,
        is_hash_of(password@, stored@) && password.spec_bytes().len() <= 0xFFFF_FFFF ==> r,
{
    argon2_verify(password, stored)
}

} // verus!
