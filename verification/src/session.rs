//! The per-connection translation logic and the backend dispatcher's
//! routing decision. A client's reader rewrites each request's id to a
//! fresh surrogate before it reaches the shared backend; the dispatcher
//! resolves a response's surrogate to the owning client; the client's
//! writer restores the original id before the response goes back out.
//! Notifications — messages with no id — cross in both directions untouched,
//! with no id bookkeeping at all.

use vstd::prelude::*;

use crate::message::{id_in, parses, with_id, Message, ProtocolError};
use crate::router::{LocalIdMap, RequestIdMap};

verus! {

/// Where the backend dispatcher sends one backend message.
#[derive(Debug, PartialEq, Eq, Structural, Clone, Copy)]
pub enum RouteDecision {
    /// A response whose surrogate id this client owns: deliver it there.
    ToClient(u64),
    /// A backend notification has no single owner: hand it to every client.
    ToAll,
    /// A response for an id never issued, or already resolved: drop it.
    Discard,
}

/// How one client-to-backend pass changes the message's id and the two
/// tables. A request with an id gets the next surrogate, recorded in the
/// router (owner) and in the session's private table (original id); a
/// notification passes untouched and records nothing.
pub open spec fn forward_step(
    m0: Message,
    m1: Message,
    r0: RequestIdMap,
    r1: RequestIdMap,
    l0: LocalIdMap,
    l1: LocalIdMap,
    client_id: u64,
) -> bool {
    match m0.id {
        None => {
            &&& m1 == m0
            &&& r1.table() == r0.table()
            &&& r1.next() == r0.next()
            &&& l1.table() == l0.table()
        },
        Some(x) => {
            &&& m1.id == Some(r0.next())
            &&& m1.headers == m0.headers
            &&& r1.table() == r0.table().insert(r0.next(), client_id)
            &&& r1.next() == r0.next() + 1
            &&& l1.table() == l0.table().insert(r0.next(), x)
        },
    }
}

/// How the dispatcher treats one backend message: a notification goes to
/// all clients; a response's surrogate id resolves to its owner, whose
/// entry is spent by that resolution; an unknown surrogate id is discarded.
pub open spec fn route_step(
    m: Message,
    r0: RequestIdMap,
    r1: RequestIdMap,
    d: RouteDecision,
) -> bool {
    match m.id {
        None => d == RouteDecision::ToAll && r1.table() == r0.table(),
        Some(s) => {
            if r0.table().dom().contains(s) {
                &&& d == RouteDecision::ToClient(r0.table()[s])
                &&& r1.table() == r0.table().remove(s)
            } else {
                &&& d == RouteDecision::Discard
                &&& r1.table() == r0.table()
            }
        },
    }
}

/// How one backend-to-client pass changes the message and the session's
/// private table. A response whose surrogate the table knows gets its
/// original id back and spends the entry; one the table does not know is
/// dropped rather than forwarded with a bogus id; a notification passes
/// untouched.
pub open spec fn deliver_step(
    m0: Message,
    l0: LocalIdMap,
    l1: LocalIdMap,
    out: Option<Message>,
) -> bool {
    match m0.id {
        None => out == Some(m0) && l1.table() == l0.table(),
        Some(s) => {
            if l0.table().dom().contains(s) {
                &&& l1.table() == l0.table().remove(s)
                &&& (match out {
                    Some(m1) => m1.id == Some(l0.table()[s]) && m1.headers == m0.headers,
                    None => false,
                })
            } else {
                &&& out is None
                &&& l1.table() == l0.table()
            }
        },
    }
}

/// The client-to-backend pass: mints and installs a surrogate id for a
/// request, leaves a notification byte-identical.
pub fn forward_request(
    msg: Message,
    router: &mut RequestIdMap,
    local: &mut LocalIdMap,
    client_id: u64,
) -> (r: Message)
    requires
        msg.wf(),
        old(router).wf(),
        old(router).next() < u64::MAX,
    ensures
        r.wf(),
        final(router).wf(),
        forward_step(msg, r, *old(router), *final(router), *old(local), *final(local), client_id),
        msg.id is Some ==> r.content@ == with_id(msg.content@, Some(old(router).next())),
{
    let mut msg = msg;
    match msg.get_id() {
        None => msg,
        Some(original) => {
            let surrogate = router.new_request_id(client_id);
            local.record(surrogate, original);
            msg.patch_id(Some(surrogate));
            msg
        },
    }
}

/// The dispatcher's half of response routing: resolves (and spends) the
/// surrogate id's routing entry. The message itself is not changed here;
/// the owning session restores the id.
pub fn route_response(msg: &Message, router: &mut RequestIdMap) -> (d: RouteDecision)
    ensures
        old(router).wf() ==> final(router).wf(),
        final(router).next() == old(router).next(),
        route_step(*msg, *old(router), *final(router), d),
{
    match msg.get_id() {
        None => RouteDecision::ToAll,
        Some(surrogate) => {
            match router.resolve_and_remove(surrogate) {
                Some(client_id) => RouteDecision::ToClient(client_id),
                None => {
                    proof {
                        assert(old(router).table().remove(surrogate) =~= old(router).table());
                    }
                    RouteDecision::Discard
                },
            }
        },
    }
}

/// The backend-to-client pass: restores a response's original id and
/// spends the translation entry, passes a notification byte-identical, and
/// drops a response whose surrogate this session never recorded.
pub fn deliver_response(msg: Message, local: &mut LocalIdMap) -> (r: Option<Message>)
    requires
        msg.wf(),
    ensures
        deliver_step(msg, *old(local), *final(local), r),
        r matches Some(m1) ==> m1.wf(),
        (msg.id is Some && old(local).table().dom().contains(msg.id->0)) ==> (r matches Some(m1)
            && m1.content@ == with_id(msg.content@, Some(old(local).table()[msg.id->0]))),
{
    let mut msg = msg;
    match msg.get_id() {
        None => Some(msg),
        Some(surrogate) => {
            match local.take(surrogate) {
                Some(original) => {
                    msg.patch_id(Some(original));
                    Some(msg)
                },
                None => {
                    proof {
                        assert(old(local).table().remove(surrogate) =~= old(local).table());
                    }
                    None
                },
            }
        },
    }
}

/// One whole inbound step, from the raw pieces a connection's reader has
/// framed: builds the message, then forwards it, rewriting its id to a
/// fresh surrogate when it has one. Fails exactly when the payload is not
/// JSON, and then changes nothing.
pub fn handle_incoming(
    headers: Vec<Vec<u8>>,
    content: Vec<u8>,
    router: &mut RequestIdMap,
    local: &mut LocalIdMap,
    client_id: u64,
) -> (r: Result<Message, ProtocolError>)
    requires
        old(router).wf(),
        old(router).next() < u64::MAX,
    ensures
        final(router).wf(),
        r is Ok <==> parses(content@),
        r matches Ok(m1) ==> m1.wf() && forward_step(
            (Message { headers, content, id: id_in(content@) }),
            m1,
            *old(router),
            *final(router),
            *old(local),
            *final(local),
            client_id,
        ),
        r is Err ==> r == Err::<Message, ProtocolError>(ProtocolError::BodyParse)
            && final(router).table() == old(router).table()
            && final(router).next() == old(router).next()
            && final(local).table() == old(local).table(),
{
    match Message::from_parts(headers, content) {
        Ok(msg) => Ok(forward_request(msg, router, local, client_id)),
        Err(e) => Err(e),
    }
}

/// One whole outbound step, from the raw pieces the backend pump has
/// framed: builds the message, then translates it back for this session's
/// client — or drops it. Fails exactly when the payload is not JSON, and
/// then changes nothing.
pub fn handle_outgoing(
    headers: Vec<Vec<u8>>,
    content: Vec<u8>,
    local: &mut LocalIdMap,
) -> (r: Result<Option<Message>, ProtocolError>)
    ensures
        r is Ok <==> parses(content@),
        r matches Ok(out) ==> deliver_step(
            (Message { headers, content, id: id_in(content@) }),
            *old(local),
            *final(local),
            out,
        ),
        r is Err ==> r == Err::<Option<Message>, ProtocolError>(ProtocolError::BodyParse)
            && final(local).table() == old(local).table(),
{
    match Message::from_parts(headers, content) {
        Ok(msg) => Ok(deliver_response(msg, local)),
        Err(e) => Err(e),
    }
}

} // verus!
