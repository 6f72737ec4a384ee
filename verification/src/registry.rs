//! The registry of reverse-proxy services that are online.
//!
//! Each service id is held by at most one provider: the first to register
//! keeps it until it is unregistered. A provider stands in the registry as
//! the number of its multiplexer handle.

use dashmap::DashMap;
use std::collections::hash_map::RandomState;
use vstd::prelude::*;

verus! {

/// `dashmap::DashMap`: the concurrent map that holds the connections.
/// What it holds is known through `conns_of` alone.
#[verifier::external_type_specification]
#[verifier::external_body]
#[verifier::reject_recursive_types(K)]
#[verifier::reject_recursive_types(V)]
#[verifier::reject_recursive_types(S)]
pub struct ExDashMap<K, V, S>(DashMap<K, V, S>);

/// The entries that a map of connections holds.
pub uninterp spec fn conns_of(m: DashMap<usize, u64, RandomState>) -> Map<usize, u64>;

/// `DashMap::new`: a map without entries.
#[verifier::external_body]
fn map_new() -> (m: DashMap<usize, u64, RandomState>)
    ensures
        conns_of(m) =~= Map::empty(),
{
    DashMap::new()
}

/// `DashMap::contains_key`: whether the map holds an entry for `id`.
#[verifier::external_body]
fn map_contains(m: &DashMap<usize, u64, RandomState>, id: usize) -> (r: bool)
    ensures
        r == conns_of(*m).dom().contains(id),
{
    m.contains_key(&id)
}

/// `DashMap::get`: the value that the map holds for `id`, if any.
#[verifier::external_body]
fn map_get(m: &DashMap<usize, u64, RandomState>, id: usize) -> (r: Option<u64>)
    ensures
        r == if conns_of(*m).dom().contains(id) {
            Some(conns_of(*m)[id])
        } else {
            None
        },
{
    m.get(&id).map(|entry| *entry.value())
}

/// `DashMap::insert`: puts `handle` under `id`, replacing and returning
/// the value that stood there.
#[verifier::external_body]
fn map_insert(m: &mut DashMap<usize, u64, RandomState>, id: usize, handle: u64) -> (r: Option<u64>)
    ensures
        conns_of(*final(m)) == conns_of(*old(m)).insert(id, handle),
        r == if conns_of(*old(m)).dom().contains(id) {
            Some(conns_of(*old(m))[id])
        } else {
            None
        },
{
    m.insert(id, handle)
}

/// `DashMap::remove`: takes the entry for `id` out of the map and returns
/// its value, if there was one.
#[verifier::external_body]
fn map_remove(m: &mut DashMap<usize, u64, RandomState>, id: usize) -> (r: Option<u64>)
    ensures
        conns_of(*final(m)) == conns_of(*old(m)).remove(id),
        r == if conns_of(*old(m)).dom().contains(id) {
            Some(conns_of(*old(m))[id])
        } else {
            None
        },
{
    m.remove(&id).map(|entry| entry.1)
}

/// The services that are online, each with the handle of its provider.
pub struct Registry {
    conns: DashMap<usize, u64, RandomState>,
}

impl View for Registry {
    type V = Map<usize, u64>;

    closed spec fn view(&self) -> Map<usize, u64> {
        conns_of(self.conns)
    }
}

/// What registering `handle` for `id` makes of the registry `m`: nothing
/// changes where `id` is online.
pub open spec fn registered(m: Map<usize, u64>, id: usize, handle: u64) -> Map<usize, u64> {
    if m.dom().contains(id) {
        m
    } else {
        m.insert(id, handle)
    }
}

impl Registry {
    /// A registry in which no service is online.
    pub fn new() -> (r: Registry)
        ensures
            r@ == Map::<usize, u64>::empty(),
    {
        Registry { conns: map_new() }
    }

    /// Whether a provider of service `id` is online.
    pub fn is_online(&self, id: usize) -> (r: bool)
        ensures
            r == self@.dom().contains(id),
    {
        map_contains(&self.conns, id)
    }

    /// The handle of the provider of service `id`, if one is online.
    pub fn lookup(&self, id: usize) -> (r: Option<u64>)
        ensures
            r == if self@.dom().contains(id) {
                Some(self@[id])
            } else {
                None
            },
    {
        map_get(&self.conns, id)
    }

    /// Registers a provider for service `id`, unless one is online: then
    /// nothing changes and the answer is `false`.
    pub fn register(&mut self, id: usize, handle: u64) -> (r: bool)
        ensures
            r == !old(self)@.dom().contains(id),
            final(self)@ == registered(old(self)@, id, handle),
    {
        if map_contains(&self.conns, id) {
            false
        } else {
            map_insert(&mut self.conns, id, handle);
            true
        }
    }

    /// Takes service `id` offline where `handle` is the provider that
    /// holds it; else nothing changes and the answer is `false`.
    pub fn release(&mut self, id: usize, handle: u64) -> (r: bool)
        ensures
            r == (old(self)@.dom().contains(id) && old(self)@[id] == handle),
            final(self)@ == released(old(self)@, id, handle),
    {
        match map_get(&self.conns, id) {
            Some(held) => {
                if held == handle {
                    map_remove(&mut self.conns, id);
                    true
                } else {
                    false
                }
            },
            None => false,
        }
    }

    /// Takes service `id` offline and returns the handle of its provider,
    /// if one was online.
    pub fn unregister(&mut self, id: usize) -> (r: Option<u64>)
        ensures
            final(self)@ == old(self)@.remove(id),
            r == if old(self)@.dom().contains(id) {
                Some(old(self)@[id])
            } else {
                None
            },
    {
        map_remove(&mut self.conns, id)
    }
}

/// What taking the provider `handle` of service `id` offline makes of the
/// registry `m`: nothing changes unless `handle` holds the service.
pub open spec fn released(m: Map<usize, u64>, id: usize, handle: u64) -> Map<usize, u64> {
    if m.dom().contains(id) && m[id] == handle {
        m.remove(id)
    } else {
        m
    }
}

/// A provider that does not hold a service cannot take it offline: who
/// was refused at registration leaves the first provider in its place.
pub proof fn lemma_refused_cannot_release(
    m: Map<usize, u64>,
    id: usize,
    first: u64,
    second: u64,
)
    requires
        !m.dom().contains(id),
        first != second,
    ensures
        released(registered(registered(m, id, first), id, second), id, second) == registered(
            m,
            id,
            first,
        ),
        released(registered(m, id, first), id, first) =~= m,
{
}

/// While a provider of a service is online, no other provider can take
/// its place: a second registration for the same id changes nothing, and
/// the first provider stays the one that visitors reach.
pub proof fn lemma_first_provider_holds(m: Map<usize, u64>, id: usize, first: u64, second: u64)
    requires
        !m.dom().contains(id),
    ensures
        registered(registered(m, id, first), id, second) == registered(m, id, first),
        registered(m, id, first)[id] == first,
{
}

/// Registering and unregistering touch one service only.
pub proof fn lemma_other_services_untouched(m: Map<usize, u64>, id: usize, handle: u64, other: usize)
    requires
        other != id,
    ensures
        registered(m, id, handle).dom().contains(other) == m.dom().contains(other),
        m.dom().contains(other) ==> registered(m, id, handle)[other] == m[other],
        m.remove(id).dom().contains(other) == m.dom().contains(other),
        m.dom().contains(other) ==> m.remove(id)[other] == m[other],
{
}

/// A service that went offline can be registered anew.
pub proof fn lemma_register_after_unregister(m: Map<usize, u64>, id: usize, handle: u64)
    ensures
        !m.remove(id).dom().contains(id),
        registered(m.remove(id), id, handle)[id] == handle,
{
}

} // verus!
