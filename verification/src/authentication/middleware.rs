//! The identity that authentication attaches to a request, and what a
//! failed authentication is answered with.

use crate::idempotency::response::HeaderPairView;
use crate::idempotency::response::ResponseView;
use crate::idempotency::response::SavedResponse;
use vstd::prelude::*;
use vstd::string::*;

verus! {

/// The id of a user, as the number of its UUID.
#[derive(Copy, Clone, Debug, PartialEq, Eq, Structural)]
pub struct UserId(pub u128);

impl UserId {
    /// The number of the id.
    pub fn as_u128(&self) -> (id: u128)
        ensures
            id == self.0,
    {
        self.0
    }
}

/// Why basic authentication failed.
#[derive(Debug, PartialEq, Eq)]
pub enum BasicAuthError {
    /// Something went wrong that is not the client's fault.
    Unexpected(String),
    /// The credentials are missing or wrong.
    Unauthorized(String),
}

/// The answer to wrong or missing credentials: status 401 and the
/// challenge for the realm `publish`.
pub open spec fn unauthorized_response() -> ResponseView {
    ResponseView {
        status_code: 401,
        headers: seq![
            HeaderPairView {
                name: "www-authenticate"@,
                value: "Basic realm=\"publish\"".spec_bytes(),
            },
        ],
        body: Seq::empty(),
    }
}

/// The answer to a failure that is not the client's fault: status 500.
pub open spec fn internal_error_response() -> ResponseView {
    ResponseView { status_code: 500, headers: Seq::empty(), body: Seq::empty() }
}

impl BasicAuthError {
    /// The status that this error is answered with.
    pub fn status_code(&self) -> (code: u16)
        ensures
            code == (if *self is Unauthorized {
                401u16
            } else {
                500u16
            }),
    {
        match self {
            BasicAuthError::Unexpected(_) => 500,
            BasicAuthError::Unauthorized(_) => 401,
        }
    }

    /// The response that this error is answered with.
    pub fn error_response(&self) -> (response: SavedResponse)
        ensures
            *self is Unauthorized ==> response@ == unauthorized_response(),
            *self is Unexpected ==> response@ == internal_error_response(),
    {
        match self {
            BasicAuthError::Unexpected(_) => {
                match SavedResponse::build(500) {
                    Some(response) => response,
                    None => vstd::pervasive::unreached(),
                }
            },
            BasicAuthError::Unauthorized(_) => {
                let response = match SavedResponse::build(401) {
                    Some(response) => response,
                    None => vstd::pervasive::unreached(),
                };
                let response = response.append_header(
                    String::from_str("www-authenticate"),
                    "Basic realm=\"publish\"".as_bytes_vec(),
                );
                proof {
                    assert(response@.headers =~= unauthorized_response().headers);
                }
                response
            },
        }
    }
}

} // verus!
