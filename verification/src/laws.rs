//! The guarantees the multiplexer lives by, stated over the step relations
//! of the session logic and proved once and for all: surrogate ids never
//! collide, answered requests come back under their original id, clients
//! are isolated from each other's responses, stray responses are dropped,
//! and notifications cross untouched.

use vstd::prelude::*;

use crate::message::Message;
use crate::router::{LocalIdMap, RequestIdMap};
use crate::session::{deliver_step, forward_step, route_step, RouteDecision};

verus! {

/// One surrogate-id issue, as `RequestIdMap::new_request_id` performs it:
/// the id is the counter's value, the counter moves up by one, and the
/// issuing client is recorded as the id's owner.
pub open spec fn issue_step(r0: RequestIdMap, r1: RequestIdMap, client_id: u64, s: u64) -> bool {
    &&& s == r0.next()
    &&& r1.next() == r0.next() + 1
    &&& r1.table() == r0.table().insert(s, client_id)
}

/// After `i` issues the counter stands `i` above where it started.
proof fn lemma_next_after_run(
    routers: Seq<RequestIdMap>,
    clients: Seq<u64>,
    ids: Seq<u64>,
    i: int,
)
    requires
        routers.len() == ids.len() + 1,
        clients.len() == ids.len(),
        forall|k: int|
            0 <= k < ids.len() ==> #[trigger] issue_step(
                routers[k],
                routers[k + 1],
                clients[k],
                ids[k],
            ),
        0 <= i < routers.len(),
    ensures
        routers[i].next() == routers[0].next() + i,
    decreases i,
{
    if i > 0 {
        lemma_next_after_run(routers, clients, ids, i - 1);
        assert(issue_step(routers[i - 1], routers[(i - 1) + 1], clients[i - 1], ids[i - 1]));
    }
}

/// For any run of requests-with-ids, sent by any clients in any
/// interleaving, the surrogate ids issued are strictly increasing — and so
/// pairwise distinct across all clients.
pub proof fn lemma_surrogate_ids_strictly_increase(
    routers: Seq<RequestIdMap>,
    clients: Seq<u64>,
    ids: Seq<u64>,
)
    requires
        routers.len() == ids.len() + 1,
        clients.len() == ids.len(),
        forall|k: int|
            0 <= k < ids.len() ==> #[trigger] issue_step(
                routers[k],
                routers[k + 1],
                clients[k],
                ids[k],
            ),
    ensures
        forall|i: int, j: int| 0 <= i < j < ids.len() ==> ids[i] < ids[j],
{
    assert forall|i: int, j: int| 0 <= i < j < ids.len() implies ids[i] < ids[j] by {
        lemma_next_after_run(routers, clients, ids, i);
        lemma_next_after_run(routers, clients, ids, j);
        assert(issue_step(routers[i], routers[i + 1], clients[i], ids[i]));
        assert(issue_step(routers[j], routers[j + 1], clients[j], ids[j]));
    }
}

/// Round trip: a request forwarded with original id `x`, once the backend
/// answers it under the surrogate id, is delivered back to the client with
/// its id restored to exactly `x` — never the surrogate value.
pub proof fn lemma_round_trip(
    req: Message,
    fwd: Message,
    r0: RequestIdMap,
    r1: RequestIdMap,
    l0: LocalIdMap,
    l1: LocalIdMap,
    l2: LocalIdMap,
    resp: Message,
    out: Option<Message>,
    client_id: u64,
    x: u64,
)
    requires
        req.id == Some(x),
        forward_step(req, fwd, r0, r1, l0, l1, client_id),
        resp.id == fwd.id,
        deliver_step(resp, l1, l2, out),
    ensures
        out matches Some(m) && m.id == Some(x),
{
    assert(fwd.id == Some(r0.next()));
    assert(l1.table().dom().contains(r0.next()));
    assert(l1.table()[r0.next()] == x);
}

/// Isolation: when two in-flight surrogate ids belong to different
/// clients, each response is routed to its own client — two clients never
/// receive each other's responses.
pub proof fn lemma_isolation(
    ra0: RequestIdMap,
    ra1: RequestIdMap,
    ra2: RequestIdMap,
    resp_a: Message,
    resp_b: Message,
    sa: u64,
    sb: u64,
    a: u64,
    b: u64,
    da: RouteDecision,
    db: RouteDecision,
)
    requires
        ra0.table().dom().contains(sa),
        ra0.table()[sa] == a,
        ra0.table().dom().contains(sb),
        ra0.table()[sb] == b,
        a != b,
        resp_a.id == Some(sa),
        resp_b.id == Some(sb),
        route_step(resp_a, ra0, ra1, da),
        route_step(resp_b, ra1, ra2, db),
    ensures
        da == RouteDecision::ToClient(a),
        db == RouteDecision::ToClient(b),
        da != db,
{
    assert(sa != sb);
    assert(ra1.table().dom().contains(sb));
    assert(ra1.table()[sb] == b);
}

/// A response whose surrogate id was never issued is discarded, leaving
/// the routing table as it was — it neither reaches a client nor disturbs
/// the dispatcher.
pub proof fn lemma_unknown_id_dropped(
    r0: RequestIdMap,
    r1: RequestIdMap,
    resp: Message,
    s: u64,
    d: RouteDecision,
)
    requires
        resp.id == Some(s),
        !r0.table().dom().contains(s),
        route_step(resp, r0, r1, d),
    ensures
        d == RouteDecision::Discard,
        r1.table() == r0.table(),
{
}

/// A surrogate id's routing entry is spent by the response that resolves
/// it: a second response carrying the same surrogate id is discarded.
pub proof fn lemma_resolved_once(
    r0: RequestIdMap,
    r1: RequestIdMap,
    r2: RequestIdMap,
    resp: Message,
    again: Message,
    s: u64,
    d1: RouteDecision,
    d2: RouteDecision,
)
    requires
        resp.id == Some(s),
        again.id == Some(s),
        r0.table().dom().contains(s),
        route_step(resp, r0, r1, d1),
        route_step(again, r1, r2, d2),
    ensures
        d1 == RouteDecision::ToClient(r0.table()[s]),
        d2 == RouteDecision::Discard,
        r2.table() == r1.table(),
{
    assert(!r1.table().dom().contains(s));
}

/// Notifications — messages with no id — pass through in both directions
/// byte-identical, and no surrogate-id bookkeeping is performed on any
/// table for them; the backend-bound dispatcher hands one to every client.
pub proof fn lemma_notification_passthrough(
    m_in: Message,
    fwd: Message,
    r0: RequestIdMap,
    r1: RequestIdMap,
    l0: LocalIdMap,
    l1: LocalIdMap,
    client_id: u64,
    m_out: Message,
    rr0: RequestIdMap,
    rr1: RequestIdMap,
    dl0: LocalIdMap,
    dl1: LocalIdMap,
    d: RouteDecision,
    delivered: Option<Message>,
)
    requires
        m_in.id is None,
        forward_step(m_in, fwd, r0, r1, l0, l1, client_id),
        m_out.id is None,
        route_step(m_out, rr0, rr1, d),
        deliver_step(m_out, dl0, dl1, delivered),
    ensures
        fwd == m_in,
        r1.table() == r0.table(),
        l1.table() == l0.table(),
        d == RouteDecision::ToAll,
        rr1.table() == rr0.table(),
        delivered == Some(m_out),
        dl1.table() == dl0.table(),
{
}

} // verus!
