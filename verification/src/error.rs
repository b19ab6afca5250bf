//! Error taxonomy: every failure surfaces to the top level; there is no local
//! recovery anywhere in the core.

use vstd::prelude::*;

verus! {

/// Failure while loading or saving the credential file.
#[derive(Debug, PartialEq, Eq, Structural)]
pub enum ConfigError {
    /// The user's home directory could not be resolved.
    MissingHomeDir,
    /// The credential file could not be read.
    Unreadable,
    /// The credential file does not match the expected schema.
    Malformed,
    /// The credential file could not be written.
    Unwritable,
}

/// Failure during the interactive OAuth handshake.
#[derive(Debug, PartialEq, Eq, Structural)]
pub enum AuthError {
    /// A network step of the handshake failed.
    Network,
    /// The token obtained or stored is of a grant type this client cannot use.
    InvalidTokenKind,
}

/// Failure during a timeline poll.
#[derive(Debug, PartialEq, Eq, Structural)]
pub enum FetchError {
    /// A transport or API error while fetching the timeline.
    Network,
}

/// Failure while setting up the terminal surface.
#[derive(Debug, PartialEq, Eq, Structural)]
pub enum RenderError {
    /// Terminal input/output setup failed.
    Terminal,
}

} // verus!
