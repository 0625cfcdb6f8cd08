use vstd::prelude::*;

use crate::setup::version::DRAFT_14;
use crate::setup::{Version, Versions};

use super::error::SessionError;

verus! {

/// The versions a server offers: draft 14.
pub fn server_versions() -> (v: Versions)
    ensures
        v@ == seq![DRAFT_14],
{
    let v = Versions(vec![Version(DRAFT_14)]);
    assert(v@ =~= seq![DRAFT_14]);
    v
}

/// The version a server picks for a client: the most recent one both offer; when they
/// share none, the `Version` error with the client's versions, then the server's.
pub fn select_version(server: Versions, client: Versions) -> (res: Result<Version, SessionError>)
    ensures
        res is Err <==> (forall|i: int| 0 <= i < server@.len() ==> !client@.contains(#[trigger] server@[i])),
        res matches Err(e) ==> e == SessionError::Version(client, server),
        res matches Ok(v) ==> server@.contains(v.0) && client@.contains(v.0) && forall|i: int|
            0 <= i < server@.len() && client@.contains(#[trigger] server@[i]) ==> server@[i] <= v.0,
{
    match server.largest_common(&client) {
        Some(v) => Ok(v),
        None => Err(SessionError::Version(client, server)),
    }
}

} // verus!
