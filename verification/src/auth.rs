//! The auth bootstrapper's decisions: whether a stored token can be used, how
//! a token handed back by the remote service is accepted, and how an obtained
//! token is stored back into the credentials.
//!
//! The network steps themselves — requesting a temporary token, exchanging the
//! PIN — happen outside; this module decides what to do with their outcomes.

use vstd::prelude::*;
use crate::creds::{Credentials, KeyPair, Token};
use crate::error::AuthError;

verus! {

/// A token as the remote service hands it back: either an access token, the
/// only grant type this client can use, or a bearer token.
#[derive(Debug)]
pub enum RemoteToken {
    /// A user-scoped access token.
    Access { consumer: KeyPair, access: KeyPair },
    /// An application-only bearer token, unusable here.
    Bearer { token: Vec<u8> },
}

/// What obtaining a token starts with: the stored token is used as it is, or
/// the interactive PIN flow must run under the consumer pair.
#[derive(Debug)]
pub enum AuthStep {
    /// A token is already stored; no network call is made.
    UseStored { token: Token },
    /// No token is stored; request a temporary token under this consumer pair,
    /// show the authorization URL, and exchange the PIN.
    RequestAuth { consumer: KeyPair },
}

/// Decides how a token is obtained: the stored token when the credentials
/// hold one, else the interactive flow under the credentials' consumer pair.
pub fn begin_auth(creds: Credentials) -> (r: AuthStep)
    ensures
        match creds.token {
            Some(t) => r matches AuthStep::UseStored { token } && token@ == t@,
            None => r matches AuthStep::RequestAuth { consumer } && consumer@ == creds.consumer@,
        },
{
    match creds.token {
        Some(t) => AuthStep::UseStored { token: t },
        None => AuthStep::RequestAuth { consumer: creds.consumer },
    }
}

/// Accepts a token handed back by the remote service: an access token is
/// taken as it is; a bearer token is an unsupported grant type and is
/// rejected, never a crash.
pub fn accept_remote_token(t: RemoteToken) -> (r: Result<Token, AuthError>)
    ensures
        match t {
            RemoteToken::Access { consumer, access } => r matches Ok(tok) && tok@.consumer
                == consumer@ && tok@.access == access@,
            RemoteToken::Bearer { .. } => r == Err::<Token, AuthError>(
                AuthError::InvalidTokenKind,
            ),
        },
{
    match t {
        RemoteToken::Access { consumer, access } => Ok(Token { consumer, access }),
        RemoteToken::Bearer { .. } => Err(AuthError::InvalidTokenKind),
    }
}

/// Stores an obtained token into the credentials, which are then written back
/// to the credential file. The consumer pair is kept; only the token changes.
pub fn store_token(creds: Credentials, token: Token) -> (r: Credentials)
    ensures
        r.consumer@ == creds.consumer@,
        r.token matches Some(t) && t@ == token@,
{
    Credentials { consumer: creds.consumer, token: Some(token) }
}

/// The line shown to the user ahead of the PIN prompt: `visit ` and the
/// authorization URL.
pub open spec fn visit_line(url: Seq<u8>) -> Seq<u8> {
    seq![118u8, 105u8, 115u8, 105u8, 116u8, 32u8] + url
}

/// Writes the authorization prompt line for a URL.
pub fn authorize_line(url: &Vec<u8>) -> (r: Vec<u8>)
    ensures
        r@ == visit_line(url@),
{
    let mut r: Vec<u8> = Vec::new();
    r.push(118);
    r.push(105);
    r.push(115);
    r.push(105);
    r.push(116);
    r.push(32);
    let mut u = crate::creds::dup_bytes(url);
    r.append(&mut u);
    proof {
        assert(r@ =~= visit_line(url@));
    }
    r
}

} // verus!
