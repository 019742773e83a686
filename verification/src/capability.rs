//! What the library takes from outside: password hashing from `bcrypt`,
//! random characters from `rand`, the time from `chrono`. Nothing here is
//! proved: each contract states what the outside function's source shows.
use vstd::prelude::*;

verus! {

/// The error type of `bcrypt`. The library looks at no part of it.
#[verifier::external_type_specification]
#[verifier::external_body]
pub struct ExBcryptError(bcrypt::BcryptError);

/// What `bcrypt::verify` makes of a password and a stored hash: whether the
/// hash was made from the password, or nothing where it gives an error (the
/// hash is not a bcrypt hash).
pub uninterp spec fn bcrypt_verdict(password: Seq<char>, hash: Seq<char>) -> Option<bool>;

/// `String::push` appends one character.
pub assume_specification[ String::push ](s: &mut String, ch: char)
    ensures
        final(s)@ == old(s)@.push(ch),
;

/// A character is an ASCII letter or digit.
pub open spec fn alphanumeric(c: char) -> bool {
    ||| 0x30 <= c as u32 <= 0x39
    ||| 0x41 <= c as u32 <= 0x5a
    ||| 0x61 <= c as u32 <= 0x7a
}

/// Calls `bcrypt::verify`, which splits the hash into cost, salt and digest,
/// hashes the password again with that cost and salt, and compares. It is a
/// function of its two arguments: the contract gives its result the name
/// `bcrypt_verdict`.
#[verifier::external_body]
pub(crate) fn bcrypt_verify(password: &str, hash: &str) -> (r: Result<bool, bcrypt::BcryptError>)
    ensures
        match r {
            Ok(b) => bcrypt_verdict(password@, hash@) == Some(b),
            Err(_) => bcrypt_verdict(password@, hash@) is None,
        },
{
    bcrypt::verify(password, hash)
}

/// Calls `bcrypt::hash` at `bcrypt::DEFAULT_COST`. The salt is random, so
/// the hash is not named; it fails when the system gives no random bytes.
/// Whatever hash comes back, `bcrypt::verify` accepts the same password for
/// it: it reads cost and salt back from the hash and repeats the computation.
#[verifier::external_body]
pub(crate) fn bcrypt_hash(password: &str) -> (r: Result<String, bcrypt::BcryptError>)
    ensures
        r matches Ok(h) ==> bcrypt_verdict(password@, h@) == Some(true),
{
    bcrypt::hash(password, bcrypt::DEFAULT_COST)
}

/// Draws one byte from `rand`'s `Alphanumeric` distribution with the
/// thread's generator. The distribution picks from the 62 ASCII letters and
/// digits. (The generator panics if the system cannot seed it.)
#[verifier::external_body]
pub(crate) fn sample_alphanumeric() -> (b: u8)
    ensures
        alphanumeric(b as char),
{
    rand::Rng::sample(&mut rand::thread_rng(), rand::distributions::Alphanumeric)
}

/// Reads the clock through `chrono::Utc::now` and returns the seconds since
/// the Unix epoch, which `chrono` takes from a duration and so never returns
/// negative. (It panics if the system clock stands before the epoch.)
#[verifier::external_body]
pub(crate) fn unix_seconds() -> (t: i64)
    ensures
        0 <= t,
{
    chrono::Utc::now().timestamp()
}

} // verus!
