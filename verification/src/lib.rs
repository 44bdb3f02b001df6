//! Retrieval and validation of a user's public SSH keys from a source code
//! hosting provider (GitHub or GitLab): per-provider username validation,
//! response-format validation and parsing, and a shared error taxonomy.
//!
//! The outbound HTTP request itself is left to the caller; this crate decides
//! what to request, and turns a response (status code plus body text) into a
//! list of normalized key lines or a typed error.

use vstd::prelude::*;
use vstd::string::StringExecFns;

pub mod github;
pub mod gitlab;
pub mod json;
pub mod text;

verus! {

/// A remote hosting service exposing an HTTP endpoint for a user's public SSH keys.
#[derive(Clone, Copy, Debug, PartialEq, Eq, Structural)]
pub enum Provider {
    Github,
    Gitlab,
}

/// A failed key fetch: invalid username (checked before any request), a
/// response body that does not have the provider's format, or a non-2xx
/// HTTP status code passed through verbatim.
#[derive(Clone, Copy, Debug, PartialEq, Eq, Structural)]
pub enum FetchError {
    InvalidUsername(Provider),
    InvalidApiResponse(Provider),
    TransportStatus(u16),
}

/// The stable numeric code of an error: internal validation failures get
/// fixed four-digit codes, transport status codes pass through unchanged.
pub open spec fn spec_error_code(e: FetchError) -> u16 {
    match e {
        FetchError::InvalidUsername(Provider::Github) => 1001,
        FetchError::InvalidApiResponse(Provider::Github) => 1002,
        FetchError::InvalidUsername(Provider::Gitlab) => 1003,
        FetchError::InvalidApiResponse(Provider::Gitlab) => 1004,
        FetchError::TransportStatus(c) => c,
    }
}

impl FetchError {
    /// The legacy numeric value of this error, for the channel that carries
    /// HTTP status codes and internal codes together.
    pub fn code(&self) -> (c: u16)
        ensures
            c == spec_error_code(*self),
    {
        match *self {
            FetchError::InvalidUsername(Provider::Github) => 1001,
            FetchError::InvalidApiResponse(Provider::Github) => 1002,
            FetchError::InvalidUsername(Provider::Gitlab) => 1003,
            FetchError::InvalidApiResponse(Provider::Gitlab) => 1004,
            FetchError::TransportStatus(c) => c,
        }
    }
}

/// The user-facing message for "the fetch succeeded but the user has no keys".
pub open spec fn no_keys_message() -> Seq<char> {
    "User has no SSH keys available"@
}

/// The user-facing message for a numeric error code: a fixed text for the
/// known codes, and the raw code embedded in a generic text for every other
/// transport status.
pub open spec fn error_message(code: u16) -> Seq<char> {
    if code == 404 {
        "Wrong username, doesn't exists"@
    } else if code == github::INVALID_GH_API_RESPONSE {
        "Invalid GitHub API response"@
    } else if code == github::INVALID_GH_USERNAME {
        "Invalid username. Username isn't allowed on GitHub. If you think this is a bug, please open an issue on the project's repository"@
    } else if code == gitlab::INVALID_GITLAB_API_RESPONSE {
        "Invalid GitLab API response"@
    } else if code == gitlab::INVALID_GITLAB_USERNAME {
        "Invalid username. Username isn't allowed on GitLab. If you think this is a bug, please open an issue on the project's repository"@
    } else {
        "API response code: "@ + text::dec_seq(code as int)
    }
}

/// Turn a provider call's outcome into the final result: a successful,
/// non-empty key list passes through unchanged (the identical sequence, no
/// mutation); an empty list is an error of its own (there is nothing to
/// append); every numeric error code becomes its user-facing message, with
/// "no such user" (404) kept distinct from a malformed response.
pub fn error_handler_wrapper(res: Result<Vec<String>, u16>) -> (r: Result<Vec<String>, String>)
    ensures
        res is Ok && res->Ok_0@.len() == 0 ==> r is Err && r->Err_0@ == no_keys_message(),
        res is Ok && res->Ok_0@.len() > 0 ==> r is Ok && r->Ok_0 == res->Ok_0,
        res is Err ==> r is Err && r->Err_0@ == error_message(res->Err_0),
{
    match res {
        Ok(keys) => {
            if keys.len() == 0 {
                Err(String::from_str("User has no SSH keys available"))
            } else {
                Ok(keys)
            }
        },
        Err(code) => {
            if code == 404 {
                Err(String::from_str("Wrong username, doesn't exists"))
            } else if code == github::INVALID_GH_API_RESPONSE {
                Err(String::from_str("Invalid GitHub API response"))
            } else if code == github::INVALID_GH_USERNAME {
                Err(
                    String::from_str(
                        "Invalid username. Username isn't allowed on GitHub. If you think this is a bug, please open an issue on the project's repository",
                    ),
                )
            } else if code == gitlab::INVALID_GITLAB_API_RESPONSE {
                Err(String::from_str("Invalid GitLab API response"))
            } else if code == gitlab::INVALID_GITLAB_USERNAME {
                Err(
                    String::from_str(
                        "Invalid username. Username isn't allowed on GitLab. If you think this is a bug, please open an issue on the project's repository",
                    ),
                )
            } else {
                let mut msg = String::from_str("API response code: ");
                let digits = text::u64_dec_chars(code as u64);
                let ds = text::chars_string(&digits);
                msg.append(ds.as_str());
                Err(msg)
            }
        },
    }
}

} // verus!
