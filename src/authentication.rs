//! Checking a password against its stored Argon2 hash.
use vstd::prelude::*;
use vstd::string::StringExecFns;
use argon2::PasswordVerifier;
use crate::errors::AuthError;

verus! {

/// Whether a text is a well-formed PHC password-hash string.
pub uninterp spec fn phc_parses(phc: Seq<char>) -> bool;

/// Whether Argon2 accepts `password` against the PHC string `phc`.
pub uninterp spec fn argon2_accepts(password: Seq<char>, phc: Seq<char>) -> bool;

/// Relies on password_hash::PasswordHash::new, which parses the PHC string
/// (None where it does not parse), and on argon2's
/// PasswordVerifier::verify_password with the default Argon2 instance, which
/// tells whether the password hashes to the stored output.
#[verifier::external_body]
fn verify_password_hash(password: &str, phc: &str) -> (r: Option<bool>)
    ensures
        r is None <==> !phc_parses(phc@),
        r matches Some(m) ==> m == argon2_accepts(password@, phc@),
{
    match argon2::PasswordHash::new(phc) {
        Ok(h) => Some(argon2::Argon2::default().verify_password(password.as_bytes(), &h).is_ok()),
        Err(_) => None,
    }
}

pub open spec fn credentials_result(
    user: Option<u128>,
    hash_parses: bool,
    password_matches: bool,
) -> Result<u128, Seq<char>> {
    match user {
        None => Err("Unknown username"@),
        Some(id) => if !hash_parses {
            Err("Failed to parse hash in PHC string format."@)
        } else if !password_matches {
            Err("Invalid password."@)
        } else {
            Ok(id)
        },
    }
}

pub open spec fn auth_result_view(r: Result<u128, AuthError>) -> Result<u128, Seq<char>> {
    match r {
        Ok(id) => Ok(id),
        Err(AuthError::InvalidCredentials(m)) => Err(m@),
        Err(AuthError::UnexpectedError(m)) => Err(m@),
    }
}

/// Decides a login from what was found: the user's id, if the name is
/// known, whether the stored hash parses, and whether the password matches
/// it. An unparsable hash is the server's fault; anything else refused is
/// the caller's.
pub fn credentials_outcome(user: Option<u128>, hash_parses: bool, password_matches: bool) -> (r:
    Result<u128, AuthError>)
    ensures
        auth_result_view(r) == credentials_result(user, hash_parses, password_matches),
        r matches Err(AuthError::UnexpectedError(_)) <==> user is Some && !hash_parses,
        r matches Err(AuthError::InvalidCredentials(_)) <==> user is None || (hash_parses
            && !password_matches),
{
    match user {
        None => Err(AuthError::InvalidCredentials(String::from_str("Unknown username"))),
        Some(id) => {
            if !hash_parses {
                Err(
                    AuthError::UnexpectedError(
                        String::from_str("Failed to parse hash in PHC string format."),
                    ),
                )
            } else if !password_matches {
                Err(AuthError::InvalidCredentials(String::from_str("Invalid password.")))
            } else {
                Ok(id)
            }
        },
    }
}

/// Checks `password` against the stored row of the user, if one was found:
/// the user's id and PHC hash string.
pub fn check_password(stored: Option<(u128, String)>, password: &str) -> (r: Result<u128, AuthError>)
    ensures
        stored is None ==> auth_result_view(r) == credentials_result(None, false, false),
        stored matches Some((id, phc)) ==> auth_result_view(r) == credentials_result(
            Some(id),
            phc_parses(phc@),
            argon2_accepts(password@, phc@),
        ),
        stored is None ==> r matches Err(AuthError::InvalidCredentials(_)),
        stored matches Some((id, phc)) ==> (r matches Err(AuthError::UnexpectedError(_))
            <==> !phc_parses(phc@)),
        stored matches Some((id, phc)) ==> (r matches Err(AuthError::InvalidCredentials(_))
            <==> phc_parses(phc@) && !argon2_accepts(password@, phc@)),
{
    match stored {
        None => credentials_outcome(None, false, false),
        Some((id, phc)) => {
            match verify_password_hash(password, phc.as_str()) {
                None => credentials_outcome(Some(id), false, false),
                Some(matches) => credentials_outcome(Some(id), true, matches),
            }
        },
    }
}

} // verus!
