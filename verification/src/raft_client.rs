//! The transport client: address resolution, connection lifecycle, batching.
//!
//! `RaftClient` owns the address cache and the connection registry, and is
//! generic over the two capabilities the surrounding process supplies: a
//! resolver from store id to address, and a sink that puts a batch on the
//! wire. `send` enqueues one message onto the destination store's buffered
//! connection, resolving the address only when the cache cannot answer or
//! the connection broke; `flush` drains every buffer through the sink;
//! `need_flush` reports, without I/O, whether any buffer is non-empty.

use vstd::prelude::*;
use crate::cache::AddressCache;
use crate::registry::pending_plan;
use crate::registry::ConnState;
use crate::registry::ConnectionRegistry;
use crate::resolve::Resolution;
use crate::resolve::StoreAddrResolver;
use crate::types::RaftMessage;
use crate::types::TransportError;
use crate::wire::failed_store;
use crate::wire::MessageSink;
use crate::wire::Transmission;

verus! {

/// Routes consensus messages to per-store buffered connections.
pub struct RaftClient<S: StoreAddrResolver, W: MessageSink> {
    /// The address-lookup capability; consulted only on a cache miss or
    /// after a connection broke.
    pub resolver: S,
    /// The transmission capability; used only by `flush`.
    pub sink: W,
    /// Memoized store-id to address resolutions.
    pub cache: AddressCache,
    /// The live connections, at most one per store.
    pub registry: ConnectionRegistry,
    /// Ghost log of every resolver consultation `send` made, oldest first;
    /// the contracts count consultations over it.
    pub resolve_log: Ghost<Seq<Resolution>>,
    /// Ghost log of every batch `flush` handed to the sink, oldest first;
    /// the contracts state transmissions over it.
    pub transmit_log: Ghost<Seq<Transmission>>,
}

impl<S: StoreAddrResolver, W: MessageSink> RaftClient<S, W> {
    /// Both owned structures keep at most one entry per store id.
    pub open spec fn wf(self) -> bool {
        self.cache.wf() && self.registry.wf()
    }

    /// The cache holds a usable address for this store.
    pub open spec fn has_valid_addr(self, store_id: u64) -> bool {
        self.cache.is_valid(store_id)
    }

    /// This store has a usable connection.
    pub open spec fn live_conn(self, store_id: u64) -> bool {
        self.registry.is_live(store_id)
    }

    /// This store's connection exists but is marked broken.
    pub open spec fn broken_conn(self, store_id: u64) -> bool {
        self.registry.is_broken(store_id)
    }

    /// The messages buffered for this store, in enqueue order.
    pub open spec fn queued(self, store_id: u64) -> Seq<RaftMessage> {
        self.registry.queued_at(store_id)
    }

    /// At least one connection holds at least one unflushed message.
    pub open spec fn needs_flush(self) -> bool {
        self.registry.some_pending()
    }

    /// How many resolver consultations the next `send` to this store makes:
    /// none while the cached address is valid and the connection is not
    /// broken, and exactly one otherwise.
    pub open spec fn resolves_needed(self, store_id: u64) -> nat {
        if self.has_valid_addr(store_id) && !self.broken_conn(store_id) {
            0
        } else {
            1
        }
    }

    /// The view another store keeps of the client: its cache entry and its
    /// connection.
    pub open spec fn same_peer_view(self, other: RaftClient<S, W>, store_id: u64) -> bool {
        &&& self.cache.contains(store_id) == other.cache.contains(store_id)
        &&& self.cache.is_valid(store_id) == other.cache.is_valid(store_id)
        &&& (other.cache.contains(store_id) ==> self.cache.addr_of(store_id)
            == other.cache.addr_of(store_id))
        &&& self.registry.same_store_view(other.registry, store_id)
    }

    /// A client with nothing resolved and nothing connected, built over the
    /// given capabilities.
    pub fn new(resolver: S, sink: W) -> (c: RaftClient<S, W>)
        ensures
            c.wf(),
            c.resolver == resolver,
            c.sink == sink,
            forall|s: u64| !c.cache.contains(s),
            forall|s: u64| !c.registry.has_store(s),
            !c.needs_flush(),
            c.resolve_log@ == Seq::<Resolution>::empty(),
            c.transmit_log@ == Seq::<Transmission>::empty(),
    {
        RaftClient {
            resolver,
            sink,
            cache: AddressCache::new(),
            registry: ConnectionRegistry::new(),
            resolve_log: Ghost(Seq::empty()),
            transmit_log: Ghost(Seq::empty()),
        }
    }

    /// Routes `msg` to its destination store's connection.
    ///
    /// The address comes from the cache when it can answer; otherwise the
    /// resolver is consulted once and a success is cached. A store whose
    /// connection broke has its cache entry invalidated and is re-resolved
    /// once before a replacement connection is attempted; if that one
    /// resolution also fails the store is given up on for this message.
    /// A message is never dropped silently: either it is enqueued and `Ok`
    /// is returned, or an error is returned and no buffer changes.
    pub fn send(&mut self, msg: RaftMessage) -> (r: Result<(), TransportError>)
        requires
            old(self).wf(),
        ensures
            final(self).wf(),
            final(self).sink == old(self).sink,
            forall|s: u64|
                s != msg.to_store ==> final(self).same_peer_view(*old(self), s),
            old(self).resolves_needed(msg.to_store) == 0 ==> final(self).resolver == old(
                self,
            ).resolver && final(self).resolve_log@ == old(self).resolve_log@,
            final(self).transmit_log@ == old(self).transmit_log@,
            final(self).resolve_log@.len() == old(self).resolve_log@.len() + old(
                self,
            ).resolves_needed(msg.to_store),
            forall|k: int|
                0 <= k < old(self).resolve_log@.len() ==> final(self).resolve_log@[k] == old(
                    self,
                ).resolve_log@[k],
            forall|k: int|
                old(self).resolve_log@.len() <= k < final(self).resolve_log@.len() ==> (
                #[trigger] final(self).resolve_log@[k]).store_id == msg.to_store,
            r is Ok && old(self).resolves_needed(msg.to_store) == 1
                ==> final(self).resolve_log@.last() == (Resolution {
                store_id: msg.to_store,
                outcome: Some(final(self).cache.addr_of(msg.to_store)),
            }),
            r is Err ==> final(self).resolve_log@.last() == (Resolution {
                store_id: msg.to_store,
                outcome: None,
            }),
            old(self).has_valid_addr(msg.to_store) && !old(self).broken_conn(msg.to_store) ==> r
                is Ok,
            r is Ok ==> {
                &&& final(self).live_conn(msg.to_store)
                &&& final(self).has_valid_addr(msg.to_store)
                &&& final(self).queued(msg.to_store) == (if old(self).live_conn(msg.to_store) {
                    old(self).queued(msg.to_store)
                } else {
                    Seq::<RaftMessage>::empty()
                }).push(msg)
                &&& final(self).resolves_needed(msg.to_store) == 0
            },
            r is Ok && !old(self).live_conn(msg.to_store) ==> final(self).registry.conn_of(
                msg.to_store,
            ).addr() == final(self).cache.addr_of(msg.to_store),
            r is Ok && old(self).live_conn(msg.to_store) ==> final(self).registry.conn_of(
                msg.to_store,
            ).addr() == old(self).registry.conn_of(msg.to_store).addr(),
            r matches Err(TransportError::Resolve(_)) ==> {
                &&& !old(self).has_valid_addr(msg.to_store)
                &&& final(self).cache == old(self).cache
                &&& final(self).registry == old(self).registry
            },
            r matches Err(TransportError::Unreachable) ==> {
                &&& old(self).has_valid_addr(msg.to_store)
                &&& old(self).broken_conn(msg.to_store)
                &&& !final(self).has_valid_addr(msg.to_store)
                &&& final(self).broken_conn(msg.to_store)
                &&& final(self).registry == old(self).registry
            },
    {
        let store = msg.to_store;
        let cached = self.cache.get_valid(store);
        let addr: String;
        let fresh: bool;
        match cached {
            Some(a) => {
                addr = a;
                fresh = false;
            },
            None => {
                match self.resolver.resolve(store) {
                    Ok(a) => {
                        self.resolve_log = Ghost(
                            self.resolve_log@.push(
                                Resolution { store_id: store, outcome: Some(a@) },
                            ),
                        );
                        self.cache.store(store, a.clone());
                        addr = a;
                        fresh = true;
                    },
                    Err(e) => {
                        self.resolve_log = Ghost(
                            self.resolve_log@.push(Resolution { store_id: store, outcome: None }),
                        );
                        return Err(TransportError::Resolve(e));
                    },
                }
            },
        }
        let ghost resolved = *self;
        match self.registry.state_of(store) {
            ConnState::Live => {
                self.registry.enqueue_msg(store, msg);
                proof {
                    assert forall|s: u64| s != store implies self.same_peer_view(*old(self), s) by {
                        assert(resolved.same_peer_view(*old(self), s));
                        assert(self.same_peer_view(resolved, s));
                    }
                }
                Ok(())
            },
            ConnState::Absent => {
                self.registry.create_or_replace(store, addr);
                let ghost created = *self;
                self.registry.enqueue_msg(store, msg);
                proof {
                    assert forall|s: u64| s != store implies self.same_peer_view(*old(self), s) by {
                        assert(resolved.same_peer_view(*old(self), s));
                        assert(created.same_peer_view(resolved, s));
                        assert(self.same_peer_view(created, s));
                    }
                }
                Ok(())
            },
            ConnState::Broken => {
                if fresh {
                    // The address in hand was resolved within this call, so
                    // the replacement connection may be built from it
                    // directly.
                    self.registry.create_or_replace(store, addr);
                    let ghost created = *self;
                    self.registry.enqueue_msg(store, msg);
                    proof {
                        assert forall|s: u64|
                            s != store implies self.same_peer_view(*old(self), s) by {
                            assert(resolved.same_peer_view(*old(self), s));
                            assert(created.same_peer_view(resolved, s));
                            assert(self.same_peer_view(created, s));
                        }
                    }
                    Ok(())
                } else {
                    // The connection built from the cached address broke:
                    // the entry is stale. Invalidate it and re-resolve once
                    // before attempting a replacement connection.
                    self.cache.invalidate(store);
                    let ghost invalidated = *self;
                    match self.resolver.resolve(store) {
                        Ok(a2) => {
                            self.resolve_log = Ghost(
                                self.resolve_log@.push(
                                    Resolution { store_id: store, outcome: Some(a2@) },
                                ),
                            );
                            self.cache.store(store, a2.clone());
                            let ghost restored = *self;
                            self.registry.create_or_replace(store, a2);
                            let ghost created = *self;
                            self.registry.enqueue_msg(store, msg);
                            proof {
                                assert forall|s: u64|
                                    s != store implies self.same_peer_view(*old(self), s) by {
                                    assert(invalidated.same_peer_view(*old(self), s));
                                    assert(restored.same_peer_view(invalidated, s));
                                    assert(created.same_peer_view(restored, s));
                                    assert(self.same_peer_view(created, s));
                                }
                            }
                            Ok(())
                        },
                        Err(_) => {
                            self.resolve_log = Ghost(
                                self.resolve_log@.push(
                                    Resolution { store_id: store, outcome: None },
                                ),
                            );
                            Err(TransportError::Unreachable)
                        },
                    }
                }
            },
        }
    }

    /// Whether a flush is warranted; answers from the buffers alone, with
    /// no I/O.
    pub fn need_flush(&self) -> (r: bool)
        ensures
            r == self.needs_flush(),
    {
        self.registry.need_flush()
    }

    /// Drains every connection's buffer through the sink, one store at a
    /// time, so one store's failure cannot keep another store's batch from
    /// being transmitted. A connection whose transmission fails is marked
    /// broken and its batch is reported lost; afterwards no buffer holds a
    /// message, whatever the sink answered, and the cache and resolver are
    /// untouched. The transmit log grows by exactly one batch per store
    /// that had pending messages — its queued messages in enqueue order, to
    /// its connection's address, each batch handed over once — and a
    /// connection is broken afterwards exactly when it already was or its
    /// batch's transmission failed.
    pub fn flush(&mut self)
        requires
            old(self).wf(),
        ensures
            final(self).wf(),
            final(self).cache == old(self).cache,
            final(self).resolver == old(self).resolver,
            final(self).resolve_log@ == old(self).resolve_log@,
            !final(self).needs_flush(),
            final(self).transmit_log@.len() == old(self).transmit_log@.len() + pending_plan(
                old(self).registry.conn_seq(),
            ).len(),
            forall|k: int|
                0 <= k < old(self).transmit_log@.len() ==> final(self).transmit_log@[k] == old(
                    self,
                ).transmit_log@[k],
            forall|k: int|
                0 <= k < pending_plan(old(self).registry.conn_seq()).len() ==> {
                    &&& (#[trigger] final(self).transmit_log@[old(self).transmit_log@.len() + k]).store_id
                        == pending_plan(old(self).registry.conn_seq())[k].0
                    &&& final(self).transmit_log@[old(self).transmit_log@.len() + k].addr
                        == pending_plan(old(self).registry.conn_seq())[k].1
                    &&& final(self).transmit_log@[old(self).transmit_log@.len() + k].batch
                        == pending_plan(old(self).registry.conn_seq())[k].2
                },
            forall|s: u64| final(self).registry.has_store(s) == old(self).registry.has_store(s),
            forall|s: u64|
                old(self).registry.has_store(s) ==> {
                    &&& final(self).queued(s).len() == 0
                    &&& final(self).registry.conn_of(s).addr() == old(self).registry.conn_of(
                        s,
                    ).addr()
                    &&& (final(self).registry.conn_of(s).broken() <==> (old(
                        self,
                    ).registry.conn_of(s).broken() || failed_store(
                        final(self).transmit_log@.skip(old(self).transmit_log@.len() as int),
                        s,
                    )))
                },
    {
        let events = self.registry.flush_all(&mut self.sink);
        self.transmit_log = Ghost(self.transmit_log@ + events@);
        proof {
            assert(self.transmit_log@.skip(old(self).transmit_log@.len() as int) =~= events@);
            assert(self.transmit_log@.skip(old(self).transmit_log@.len() as int) == events@);
            assert forall|s: u64| old(self).registry.has_store(s) implies {
                &&& self.queued(s).len() == 0
                &&& self.registry.conn_of(s).addr() == old(self).registry.conn_of(s).addr()
                &&& (self.registry.conn_of(s).broken() <==> (old(self).registry.conn_of(
                    s,
                ).broken() || failed_store(
                    self.transmit_log@.skip(old(self).transmit_log@.len() as int),
                    s,
                )))
            } by {
                assert(failed_store(
                    self.transmit_log@.skip(old(self).transmit_log@.len() as int),
                    s,
                ) == failed_store(events@, s));
            }
        }
    }
}

/// A store never resolved, or whose entry was invalidated, costs the next
/// `send` to it exactly one resolver consultation.
pub proof fn lemma_unresolved_store_needs_one_resolution<S: StoreAddrResolver, W: MessageSink>(
    c: RaftClient<S, W>,
    store_id: u64,
)
    requires
        !c.has_valid_addr(store_id),
    ensures
        c.resolves_needed(store_id) == 1,
{
}

/// A store with a valid cached address and an unbroken connection costs the
/// next `send` to it no resolver consultation at all.
pub proof fn lemma_cached_store_needs_no_resolution<S: StoreAddrResolver, W: MessageSink>(
    c: RaftClient<S, W>,
    store_id: u64,
)
    requires
        c.has_valid_addr(store_id),
        !c.broken_conn(store_id),
    ensures
        c.resolves_needed(store_id) == 0,
{
}

/// A store whose connection is marked broken costs the next `send` to it
/// exactly one re-resolution, whatever the cache still holds for it.
pub proof fn lemma_broken_conn_needs_one_resolution<S: StoreAddrResolver, W: MessageSink>(
    c: RaftClient<S, W>,
    store_id: u64,
)
    requires
        c.broken_conn(store_id),
    ensures
        c.resolves_needed(store_id) == 1,
{
}

} // verus!
