//! Password hashes (argon2), random identifiers (nanoid) and the clock (chrono).

use vstd::prelude::*;
use argon2::{Argon2, PasswordHash, PasswordHasher, PasswordVerifier};
use argon2::password_hash::{SaltString, rand_core::OsRng};
use chrono::Datelike;

verus! {

/// What argon2 answers when `password` is checked against the PHC string
/// `hash`: `None` when `hash` is not a PHC string, else whether the
/// password matches it.
pub uninterp spec fn password_check(hash: Seq<char>, password: Seq<char>) -> Option<bool>;

/// The characters of nanoid's URL-safe alphabet: `_`, `-`, digits and ASCII letters.
pub open spec fn is_safe_char(c: char) -> bool {
    c == '_' || c == '-' || ('0' <= c && c <= '9') || ('a' <= c && c <= 'z') || ('A' <= c
        && c <= 'Z')
}

/// `PasswordHash::new(hash).is_ok()`: whether `hash` parses as a PHC
/// string, which is exactly when checking any password against it gives an
/// answer (`password_check` is `None` for a string that does not parse).
/// The password is not read.
#[verifier::external_body]
pub(crate) fn phc_string(hash: &str, password: &str) -> (r: bool)
    ensures
        r == (password_check(hash@, password@) is Some),
{
    PasswordHash::new(hash).is_ok()
}

/// Parses `hash` with `PasswordHash::new` and, where that succeeds, checks
/// `password` against it with `Argon2::default().verify_password`. The
/// contract names the answer: it depends on the two strings alone.
#[verifier::external_body]
pub(crate) fn argon2_check(hash: &str, password: &str) -> (r: Option<bool>)
    ensures
        r == password_check(hash@, password@),
{
    match PasswordHash::new(hash) {
        Ok(parsed) => Some(Argon2::default().verify_password(password.as_bytes(), &parsed).is_ok()),
        Err(_) => None,
    }
}

/// Hashes `password` with `Argon2::default().hash_password` and a salt from
/// `SaltString::generate(OsRng)`, giving the PHC string. The salt is random,
/// so the string is not named. The contract states what argon2's source
/// shows: the only input it refuses is a password of more than 2^32 - 1
/// bytes (a character takes at most 4), the string is `$argon2id$` (the
/// default algorithm's identifier) followed by the rest of the PHC fields,
/// and it checks against the same password.
#[verifier::external_body]
pub(crate) fn argon2_hash(password: &str) -> (r: Option<String>)
    ensures
        password@.len() < 0x4000_0000 ==> r is Some,
        r matches Some(h) ==> password_check(h@, password@) == Some(true),
        r matches Some(h) ==> "$argon2id$"@.is_prefix_of(h@),
{
    let salt = SaltString::generate(OsRng);
    match Argon2::default().hash_password(password.as_bytes(), &salt) {
        Ok(h) => Some(h.to_string()),
        Err(_) => None,
    }
}

/// `nanoid::format(nanoid::rngs::default, &nanoid::alphabet::SAFE, size)`,
/// what `nanoid!(size)` expands to: `size` random characters of the URL-safe
/// alphabet. For `size == 0` that function never returns, hence the `requires`.
#[verifier::external_body]
pub(crate) fn random_id(size: usize) -> (r: String)
    requires
        size > 0,
    ensures
        r@.len() == size,
        forall|i: int| 0 <= i < r@.len() ==> is_safe_char(#[trigger] r@[i]),
{
    nanoid::format(nanoid::rngs::default, &nanoid::alphabet::SAFE, size)
}

/// `chrono::Utc::now().timestamp_micros()`: the current time, in microseconds
/// since the Unix epoch. Nothing is promised of it.
#[verifier::external_body]
pub(crate) fn now_micros() -> (r: i64) {
    chrono::Utc::now().timestamp_micros()
}

/// `chrono::Utc::now().year()`: the current year. Nothing is promised of it.
#[verifier::external_body]
pub(crate) fn current_year() -> (r: i32) {
    chrono::Utc::now().year()
}

} // verus!
