//! Passwords.

use vstd::prelude::*;
use vstd::string::StringExecFns;

verus! {

/// The outcome of a check of who a user is.
#[derive(Debug, PartialEq, Eq)]
pub enum Verify<T> {
    /// The check went through; what it found.
    Authorized(T),
    /// The user is not who they say.
    Unauthorized,
}

/// Why a password or a token could not be made.
#[derive(Clone, Copy, Debug, PartialEq, Eq, Structural)]
pub enum Error {
    /// The password could not be hashed.
    Encrypt,
    /// The token could not be encoded.
    EncodeToken,
    /// The secret key is not set.
    SecretKey,
}

impl Error {
    /// The error in words.
    pub open spec fn spec_message(self) -> Seq<char> {
        match self {
            Error::Encrypt => "Encrypt Error"@,
            Error::EncodeToken => "Encode Token Error"@,
            Error::SecretKey => "Secret key not found"@,
        }
    }

    /// The error in words.
    pub fn message(&self) -> (text: String)
        ensures
            text@ == self.spec_message(),
    {
        match self {
            Error::Encrypt => String::from_str("Encrypt Error"),
            Error::EncodeToken => String::from_str("Encode Token Error"),
            Error::SecretKey => String::from_str("Secret key not found"),
        }
    }
}

/// The errors of the `bcrypt` crate. Nothing is known of a value but that
/// it is one.
#[verifier::external_type_specification]
#[verifier::external_body]
pub struct ExBcryptError(bcrypt::BcryptError);

/// What `bcrypt::verify` finds for a password and a stored hash: whether
/// the password is the one that was hashed, or `None` where the hash cannot
/// be read.
pub uninterp spec fn bcrypt_verdict(password: Seq<u8>, hash: Seq<char>) -> Option<bool>;

/// Checks a password against a stored hash with `bcrypt::verify`. The
/// answer depends on the password and the hash alone; it is named
/// [`bcrypt_verdict`] and not stated further.
#[verifier::external_body]
fn bcrypt_verify(password: &[u8], hash: &str) -> (r: Result<bool, bcrypt::BcryptError>)
    ensures
        match r {
            Ok(same) => bcrypt_verdict(password@, hash@) == Some(same),
            Err(_) => bcrypt_verdict(password@, hash@) is None,
        },
{
    bcrypt::verify(password, hash)
}

/// Hashes a password with `bcrypt::hash` at `bcrypt::DEFAULT_COST`, under a
/// salt that the crate draws at random. Which hash comes back, and whether
/// one does, is not promised. What is claimed holds of every hash that does:
/// `bcrypt::verify` finds the password to be the one hashed. The hash is
/// the text `$2b$12$`, the salt and the digest; `bcrypt::verify` takes cost
/// and salt back out of it, hashes the password anew and compares.
#[verifier::external_body]
fn bcrypt_hash(password: &[u8]) -> (r: Result<String, bcrypt::BcryptError>)
    ensures
        r is Ok ==> bcrypt_verdict(password@, r->Ok_0@) == Some(true),
{
    bcrypt::hash(password, bcrypt::DEFAULT_COST)
}

/// What a check of a password comes to: it goes through where the password
/// was found to be the one hashed, and nowhere else.
pub open spec fn verdict_of(found: Option<bool>) -> Verify<bool> {
    if found == Some(true) {
        Verify::Authorized(true)
    } else {
        Verify::Unauthorized
    }
}

/// Says what a check of a password comes to.
pub fn verdict(found: Option<bool>) -> (r: Verify<bool>)
    ensures
        r == verdict_of(found),
{
    match found {
        Some(true) => Verify::Authorized(true),
        _ => Verify::Unauthorized,
    }
}

/// Checks the password `pass` against the stored hash `pass_db`.
pub fn verify_pass(pass: &[u8], pass_db: &str) -> (r: Verify<bool>)
    ensures
        r == verdict_of(bcrypt_verdict(pass@, pass_db@)),
{
    match bcrypt_verify(pass, pass_db) {
        Ok(same) => verdict(Some(same)),
        Err(_) => verdict(None),
    }
}

/// The hash as it is handed on, or the error that stands for a failure of
/// the hashing.
pub fn hashed(outcome: Result<String, bcrypt::BcryptError>) -> (r: Result<String, Error>)
    ensures
        match outcome {
            Ok(hash) => r == Ok::<String, Error>(hash),
            Err(_) => r == Err::<String, Error>(Error::Encrypt),
        },
{
    match outcome {
        Ok(hash) => Ok(hash),
        Err(_) => Err(Error::Encrypt),
    }
}

/// Hashes a password for storing. The hash differs from call to call, and
/// the hashing may fail. A hash that comes back is one against which
/// [`verify_pass`] lets this password through. A failure is always
/// [`Error::Encrypt`].
pub fn encrypt(pass: &[u8]) -> (r: Result<String, Error>)
    ensures
        r is Ok ==> bcrypt_verdict(pass@, r->Ok_0@) == Some(true) && verdict_of(
            bcrypt_verdict(pass@, r->Ok_0@),
        ) == Verify::Authorized(true),
        r is Err ==> r == Err::<String, Error>(Error::Encrypt),
{
    hashed(bcrypt_hash(pass))
}

} // verus!
