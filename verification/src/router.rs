//! The id router: a process-wide table from surrogate request id to the
//! client connection that owns it, together with the counter that mints the
//! surrogate ids. The table is a `dashmap::DashMap`, seen through trusted
//! wrappers whose contracts speak of its contents as a `Map`.

use vstd::prelude::*;

verus! {

#[verifier::external_type_specification]
#[verifier::external_body]
#[verifier::reject_recursive_types(K)]
#[verifier::reject_recursive_types(V)]
#[verifier::reject_recursive_types(S)]
pub struct ExDashMap<K, V, S>(dashmap::DashMap<K, V, S>);

/// A table from surrogate request id to another id, as the proxy keeps it.
pub type IdTable = dashmap::DashMap<u64, u64>;

/// The entries a `DashMap` from id to id holds.
pub uninterp spec fn table_view(m: IdTable) -> Map<u64, u64>;

/// The table with no entries.
pub open spec fn empty_table() -> Map<u64, u64> {
    Map::empty()
}

/// The table shorn of every entry the given client owns.
pub open spec fn table_without(t: Map<u64, u64>, client_id: u64) -> Map<u64, u64> {
    Map::new(|k: u64| t.dom().contains(k) && t[k] != client_id, |k: u64| t[k])
}

/// Relies on `dashmap::DashMap::new`: the new map holds no entries.
#[verifier::external_body]
fn table_new() -> (m: IdTable)
    ensures
        table_view(m) == empty_table(),
{
    dashmap::DashMap::new()
}

/// Relies on `dashmap::DashMap::insert`: maps the key to the value and
/// returns the value the key held before, if any.
#[verifier::external_body]
fn table_insert(m: &mut IdTable, key: u64, value: u64) -> (r: Option<u64>)
    ensures
        table_view(*final(m)) == table_view(*old(m)).insert(key, value),
        r == (if table_view(*old(m)).dom().contains(key) {
            Some(table_view(*old(m))[key])
        } else {
            None::<u64>
        }),
{
    m.insert(key, value)
}

/// Relies on `dashmap::DashMap::remove`: deletes the key's entry and
/// returns the value it held, if any.
#[verifier::external_body]
fn table_remove(m: &mut IdTable, key: u64) -> (r: Option<u64>)
    ensures
        table_view(*final(m)) == table_view(*old(m)).remove(key),
        r == (if table_view(*old(m)).dom().contains(key) {
            Some(table_view(*old(m))[key])
        } else {
            None::<u64>
        }),
{
    m.remove(&key).map(|kv| kv.1)
}

/// Tells a sweep which entries survive: those owned by some other client.
fn keeps_entry(value: u64, client_id: u64) -> (r: bool)
    ensures
        r == (value != client_id),
{
    value != client_id
}

/// Relies on `dashmap::DashMap::retain`: keeps exactly the entries the
/// predicate accepts, here those whose value is not the departing client.
#[verifier::external_body]
fn table_retain_others(m: &mut IdTable, client_id: u64)
    ensures
        table_view(*final(m)) == table_without(table_view(*old(m)) , client_id),
{
    m.retain(|_k, v| keeps_entry(*v, client_id))
}

/// The surrogate-id allocator and routing table: mints globally unique,
/// strictly increasing surrogate request ids and remembers, for each id in
/// flight, the client connection that must receive its response.
pub struct RequestIdMap {
    next_request_id: u64,
    routes: IdTable,
}

impl RequestIdMap {
    /// The routing entries: surrogate request id to owning client id.
    pub closed spec fn table(&self) -> Map<u64, u64> {
        table_view(self.routes)
    }

    /// The next surrogate id to be minted.
    pub closed spec fn next(&self) -> u64 {
        self.next_request_id
    }

    /// Every id in the table was minted earlier, so no future id collides
    /// with one in flight.
    pub open spec fn wf(&self) -> bool {
        forall|s: u64| self.table().dom().contains(s) ==> s < self.next()
    }

    /// The counter's current value: the id the next issue would mint. A
    /// caller reads it to rule out counter exhaustion before issuing.
    pub fn counter_value(&self) -> (r: u64)
        ensures
            r == self.next(),
    {
        self.next_request_id
    }

    /// An empty router, its counter at zero.
    pub fn new() -> (r: Self)
        ensures
            r.wf(),
            r.table() == Map::<u64, u64>::empty(),
            r.next() == 0,
    {
        RequestIdMap { next_request_id: 0, routes: table_new() }
    }

    /// Mints a fresh surrogate id for a request of the given client and
    /// records the client as owner of the eventual response.
    pub fn new_request_id(&mut self, client_id: u64) -> (r: u64)
        requires
            old(self).wf(),
            old(self).next() < u64::MAX,
        ensures
            final(self).wf(),
            r == old(self).next(),
            !old(self).table().dom().contains(r),
            final(self).next() == old(self).next() + 1,
            final(self).table() == old(self).table().insert(r, client_id),
    {
        let r = self.next_request_id;
        self.next_request_id = self.next_request_id + 1;
        table_insert(&mut self.routes, r, client_id);
        proof {
            assert forall|s: u64| self.table().dom().contains(s) implies s < self.next() by {
                if s != r {
                    assert(old(self).table().dom().contains(s));
                }
            }
        }
        r
    }

    /// Looks the surrogate id up and deletes its entry in one step: the
    /// owning client if the id is in flight, `None` for an id this router
    /// never issued or whose response was already routed.
    pub fn resolve_and_remove(&mut self, request_id: u64) -> (r: Option<u64>)
        ensures
            old(self).wf() ==> final(self).wf(),
            final(self).next() == old(self).next(),
            final(self).table() == old(self).table().remove(request_id),
            r == (if old(self).table().dom().contains(request_id) {
                Some(old(self).table()[request_id])
            } else {
                None::<u64>
            }),
    {
        let r = table_remove(&mut self.routes, request_id);
        proof {
            if old(self).wf() {
                assert forall|s: u64| self.table().dom().contains(s) implies s < self.next() by {
                    assert(old(self).table().dom().contains(s));
                }
            }
        }
        r
    }

    /// Sweeps out every entry a departing client still owns, so that a
    /// request the backend never answers cannot leak its routing entry past
    /// the connection's lifetime.
    pub fn remove_client(&mut self, client_id: u64)
        ensures
            old(self).wf() ==> final(self).wf(),
            final(self).next() == old(self).next(),
            final(self).table() == table_without(old(self).table(), client_id),
    {
        table_retain_others(&mut self.routes, client_id);
        proof {
            if old(self).wf() {
                assert forall|s: u64| self.table().dom().contains(s) implies s < self.next() by {
                    assert(old(self).table().dom().contains(s));
                }
            }
        }
    }
}

/// One client session's private id-translation table: surrogate request id
/// back to the id the client originally sent, invisible to other sessions.
pub struct LocalIdMap {
    entries: IdTable,
}

impl LocalIdMap {
    /// The entries: surrogate request id to the client's original id.
    pub closed spec fn table(&self) -> Map<u64, u64> {
        table_view(self.entries)
    }

    /// An empty translation table.
    pub fn new() -> (r: Self)
        ensures
            r.table() == Map::<u64, u64>::empty(),
    {
        LocalIdMap { entries: table_new() }
    }

    /// Remembers which original id a surrogate id stands for.
    pub fn record(&mut self, surrogate: u64, original: u64)
        ensures
            final(self).table() == old(self).table().insert(surrogate, original),
    {
        table_insert(&mut self.entries, surrogate, original);
    }

    /// Recovers and forgets the original id behind a surrogate id: an entry
    /// serves exactly one response.
    pub fn take(&mut self, surrogate: u64) -> (r: Option<u64>)
        ensures
            final(self).table() == old(self).table().remove(surrogate),
            r == (if old(self).table().dom().contains(surrogate) {
                Some(old(self).table()[surrogate])
            } else {
                None::<u64>
            }),
    {
        table_remove(&mut self.entries, surrogate)
    }
}

/// Mints the identity for a newly accepted connection: client ids are
/// assigned monotonically and never reused.
pub fn next_client_id(counter: &mut u64) -> (r: u64)
    requires
        *old(counter) < u64::MAX,
    ensures
        r == *old(counter),
        *final(counter) == *old(counter) + 1,
{
    let r = *counter;
    *counter = *counter + 1;
    r
}

} // verus!
