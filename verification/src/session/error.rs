use vstd::prelude::*;

use crate::coding::DecodeError;
use crate::serve::ServeError;
use crate::setup::Versions;

verus! {

/// Why a session failed to handle a message or a stream.
#[derive(Clone, Debug, PartialEq, Eq)]
pub enum SessionError {
    /// A message or an object could not be decoded.
    Decode(DecodeError),
    /// Serving a track or a request failed.
    Serve(ServeError),
    /// The same namespace was announced twice.
    Duplicate,
    /// A stream ended before the announced payload was read.
    WrongSize,
    /// A request the session does not handle, or one for a namespace it never announced.
    Internal,
    /// A message for a role this side of the session does not play.
    RoleViolation,
    /// The two sides share no version: the client's versions, then the server's.
    Version(Versions, Versions),
}

} // verus!
