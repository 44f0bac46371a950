//! The models of the HTTP front end and the mapping from client status
//! to response body and HTTP status code.
//!
//! The front end itself (routing, JSON, sockets) lives outside the
//! library; these functions decide what it sends.

use vstd::prelude::*;
use crate::prover::{ZkpClientAuthenticationStatus, ZkpClientRegistrationStatus};

verus! {

/// The request body of both endpoints: a user and a decimal-string secret.
#[derive(Debug, Clone)]
pub struct LoginDetails {
    pub user: String,
    pub password: String,
}

/// The response body of the registration endpoint.
#[derive(Debug)]
pub struct RegistrationResponse {
    pub user: String,
    pub status: String,
}

/// The response body of the login endpoint.
#[derive(Debug)]
pub struct AuthenticationResponse {
    pub user: String,
    pub status: String,
    pub session_id: Option<String>,
}

/// The registration reply and its HTTP status code: `201 Created` for a
/// fresh registration, `409 Conflict` for a repeated one.
pub fn registration_reply(user: String, status: &ZkpClientRegistrationStatus) -> (r: (
    RegistrationResponse,
    u16,
))
    ensures
        r.0.user@ == user@,
        match status {
            ZkpClientRegistrationStatus::Registered => r.0.status@ == "registered"@ && r.1
                == 201,
            ZkpClientRegistrationStatus::AlreadyRegistered => r.0.status@
                == "already registered"@ && r.1 == 409,
        },
{
    match status {
        ZkpClientRegistrationStatus::Registered => (
            RegistrationResponse { user, status: "registered".to_owned() },
            201,
        ),
        ZkpClientRegistrationStatus::AlreadyRegistered => (
            RegistrationResponse { user, status: "already registered".to_owned() },
            409,
        ),
    }
}

/// The authentication reply and its HTTP status code, as the front end
/// reports them: an unregistered user gives `404`, a completed
/// authentication gives `401` with the session id attached, and a failed
/// one gives `200` carrying the server's message.
pub fn authentication_reply(user: String, status: ZkpClientAuthenticationStatus) -> (r: (
    AuthenticationResponse,
    u16,
))
    ensures
        r.0.user@ == user@,
        match status {
            ZkpClientAuthenticationStatus::UnregisteredUser => r.0.status@
                == "unregistered user"@ && r.0.session_id is None && r.1 == 404,
            ZkpClientAuthenticationStatus::Authenticated { session_id } => r.0.status@
                == "authenticated"@ && r.0.session_id == Some(session_id) && r.1 == 401,
            ZkpClientAuthenticationStatus::NotAuthenticated { status: msg } => r.0.status@
                == msg@ && r.0.session_id is None && r.1 == 200,
        },
{
    match status {
        ZkpClientAuthenticationStatus::UnregisteredUser => (
            AuthenticationResponse {
                user,
                status: "unregistered user".to_owned(),
                session_id: None,
            },
            404,
        ),
        ZkpClientAuthenticationStatus::Authenticated { session_id } => (
            AuthenticationResponse {
                user,
                status: "authenticated".to_owned(),
                session_id: Some(session_id),
            },
            401,
        ),
        ZkpClientAuthenticationStatus::NotAuthenticated { status } => (
            AuthenticationResponse { user, status, session_id: None },
            200,
        ),
    }
}

} // verus!
