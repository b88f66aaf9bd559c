//! The Router-facing transport facade.
//!
//! `ServerTransport` adapts the client's contract to the Router's expected
//! error kind: `send` delegates and wraps any transport error, `flush` and
//! `need_flush` delegate directly. It adds no routing state of its own, so
//! everything its contracts say is said over the one wrapped client.

use vstd::prelude::*;
use crate::raft_client::RaftClient;
use crate::registry::pending_plan;
use crate::resolve::Resolution;
use crate::resolve::StoreAddrResolver;
use crate::types::RaftMessage;
use crate::types::RouterError;
use crate::types::TransportError;
use crate::wire::failed_store;
use crate::wire::MessageSink;

verus! {

/// Thin facade over one `RaftClient`, speaking the Router's error type.
pub struct ServerTransport<S: StoreAddrResolver, W: MessageSink> {
    raft_client: RaftClient<S, W>,
}

impl<S: StoreAddrResolver, W: MessageSink> ServerTransport<S, W> {
    /// The wrapped client; every contract of the facade speaks of it.
    pub closed spec fn client(self) -> RaftClient<S, W> {
        self.raft_client
    }

    /// The facade is well formed exactly when its client is.
    pub open spec fn wf(self) -> bool {
        self.client().wf()
    }

    /// Wraps an existing client; its cache, connections and buffers carry
    /// over unchanged.
    pub fn new(raft_client: RaftClient<S, W>) -> (t: ServerTransport<S, W>)
        ensures
            t.client() == raft_client,
    {
        ServerTransport { raft_client }
    }

    /// Delegates to the client's `send`, mapping a transport error to the
    /// Router-facing kind; the routing outcome is exactly the client's.
    pub fn send(&mut self, msg: RaftMessage) -> (r: Result<(), RouterError>)
        requires
            old(self).wf(),
        ensures
            final(self).wf(),
            final(self).client().sink == old(self).client().sink,
            forall|s: u64|
                s != msg.to_store ==> final(self).client().same_peer_view(
                    old(self).client(),
                    s,
                ),
            old(self).client().resolves_needed(msg.to_store) == 0 ==> final(self).client().resolver
                == old(self).client().resolver && final(self).client().resolve_log@ == old(
                self,
            ).client().resolve_log@,
            final(self).client().transmit_log@ == old(self).client().transmit_log@,
            final(self).client().resolve_log@.len() == old(self).client().resolve_log@.len() + old(
                self,
            ).client().resolves_needed(msg.to_store),
            forall|k: int|
                0 <= k < old(self).client().resolve_log@.len()
                    ==> final(self).client().resolve_log@[k] == old(self).client().resolve_log@[k],
            forall|k: int|
                old(self).client().resolve_log@.len() <= k < final(self).client().resolve_log@.len()
                    ==> (#[trigger] final(self).client().resolve_log@[k]).store_id == msg.to_store,
            r is Ok && old(self).client().resolves_needed(msg.to_store) == 1
                ==> final(self).client().resolve_log@.last() == (Resolution {
                store_id: msg.to_store,
                outcome: Some(final(self).client().cache.addr_of(msg.to_store)),
            }),
            r is Err ==> final(self).client().resolve_log@.last() == (Resolution {
                store_id: msg.to_store,
                outcome: None,
            }),
            old(self).client().has_valid_addr(msg.to_store) && !old(self).client().broken_conn(
                msg.to_store,
            ) ==> r is Ok,
            r is Ok ==> {
                &&& final(self).client().live_conn(msg.to_store)
                &&& final(self).client().has_valid_addr(msg.to_store)
                &&& final(self).client().queued(msg.to_store) == (if old(
                    self,
                ).client().live_conn(msg.to_store) {
                    old(self).client().queued(msg.to_store)
                } else {
                    Seq::<RaftMessage>::empty()
                }).push(msg)
                &&& final(self).client().resolves_needed(msg.to_store) == 0
            },
            r is Ok && !old(self).client().live_conn(msg.to_store)
                ==> final(self).client().registry.conn_of(msg.to_store).addr()
                == final(self).client().cache.addr_of(msg.to_store),
            r is Ok && old(self).client().live_conn(msg.to_store)
                ==> final(self).client().registry.conn_of(msg.to_store).addr()
                == old(self).client().registry.conn_of(msg.to_store).addr(),
            r matches Err(RouterError::Transport(TransportError::Resolve(_))) ==> {
                &&& !old(self).client().has_valid_addr(msg.to_store)
                &&& final(self).client().cache == old(self).client().cache
                &&& final(self).client().registry == old(self).client().registry
            },
            r matches Err(RouterError::Transport(TransportError::Unreachable)) ==> {
                &&& old(self).client().has_valid_addr(msg.to_store)
                &&& old(self).client().broken_conn(msg.to_store)
                &&& !final(self).client().has_valid_addr(msg.to_store)
                &&& final(self).client().broken_conn(msg.to_store)
                &&& final(self).client().registry == old(self).client().registry
            },
    {
        match self.raft_client.send(msg) {
            Ok(()) => Ok(()),
            Err(reason) => Err(RouterError::Transport(reason)),
        }
    }

    /// Delegates to the client's `need_flush`: whether any connection holds
    /// an unflushed message, with no I/O.
    pub fn need_flush(&self) -> (r: bool)
        ensures
            r == self.client().needs_flush(),
    {
        self.raft_client.need_flush()
    }

    /// Delegates to the client's `flush`: every buffer is drained through
    /// the sink, one batch per pending store in enqueue order, per-store
    /// failures are isolated, and no buffer holds a message afterwards.
    pub fn flush(&mut self)
        requires
            old(self).wf(),
        ensures
            final(self).wf(),
            final(self).client().cache == old(self).client().cache,
            final(self).client().resolver == old(self).client().resolver,
            final(self).client().resolve_log@ == old(self).client().resolve_log@,
            !final(self).client().needs_flush(),
            final(self).client().transmit_log@.len() == old(self).client().transmit_log@.len()
                + pending_plan(old(self).client().registry.conn_seq()).len(),
            forall|k: int|
                0 <= k < old(self).client().transmit_log@.len()
                    ==> final(self).client().transmit_log@[k] == old(
                    self,
                ).client().transmit_log@[k],
            forall|k: int|
                0 <= k < pending_plan(old(self).client().registry.conn_seq()).len() ==> {
                    &&& (#[trigger] final(self).client().transmit_log@[old(
                        self,
                    ).client().transmit_log@.len() + k]).store_id == pending_plan(
                        old(self).client().registry.conn_seq(),
                    )[k].0
                    &&& final(self).client().transmit_log@[old(self).client().transmit_log@.len()
                        + k].addr == pending_plan(old(self).client().registry.conn_seq())[k].1
                    &&& final(self).client().transmit_log@[old(self).client().transmit_log@.len()
                        + k].batch == pending_plan(old(self).client().registry.conn_seq())[k].2
                },
            forall|s: u64|
                final(self).client().registry.has_store(s) == old(
                    self,
                ).client().registry.has_store(s),
            forall|s: u64|
                old(self).client().registry.has_store(s) ==> {
                    &&& final(self).client().queued(s).len() == 0
                    &&& final(self).client().registry.conn_of(s).addr() == old(
                        self,
                    ).client().registry.conn_of(s).addr()
                    &&& (final(self).client().registry.conn_of(s).broken() <==> (old(
                        self,
                    ).client().registry.conn_of(s).broken() || failed_store(
                        final(self).client().transmit_log@.skip(
                            old(self).client().transmit_log@.len() as int,
                        ),
                        s,
                    )))
                },
    {
        self.raft_client.flush();
    }
}

} // verus!
