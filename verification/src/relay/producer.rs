use vstd::prelude::*;

use crate::coding::track_namespace::is_prefix;
use crate::coding::TrackNamespace;
use crate::serve::TrackReader;

use super::local::Locals;

verus! {

/// The local track that serves a subscription to (`namespace`, `name`): the broadcast
/// registered under the longest prefix of the namespace is asked for the track (which it
/// may create on request), with the full namespace asked for. Nothing if no broadcast
/// matches, or if it no longer takes requests.
pub fn serve_subscribe_local(locals: &Locals, namespace: &TrackNamespace, name: &str) -> (r: Option<TrackReader>)
    requires
        locals.wf(),
    ensures
        r matches Some(t) ==> t@ == (namespace@, name@),
        (forall|k: Seq<Seq<u8>>| locals.namespaces().contains(k) ==> !is_prefix(k, namespace@)) ==> r is None,
{
    match locals.route(namespace) {
        Some(mut local) => local.subscribe(namespace.duplicate(), name),
        None => None,
    }
}

/// The local track whose status is asked for: the broadcast registered under the longest
/// prefix of the namespace is looked up for a track of that full name, without creating
/// one. Nothing if there is none (answered as "track not found").
pub fn serve_track_status_local(locals: &Locals, namespace: &TrackNamespace, name: &str) -> (r: Option<TrackReader>)
    requires
        locals.wf(),
    ensures
        r matches Some(t) ==> t@ == (namespace@, name@),
        (forall|k: Seq<Seq<u8>>| locals.namespaces().contains(k) ==> !is_prefix(k, namespace@)) ==> r is None,
{
    match locals.route(namespace) {
        Some(mut local) => local.get_track_reader(namespace, name),
        None => None,
    }
}

} // verus!
