//! Per-store buffered connections and the registry that owns them.
//!
//! A `PeerConnection` is one logical outbound channel to one store: the
//! address it was built with, a broken flag, and the ordered buffer of
//! messages accepted since the last flush. The `ConnectionRegistry` keeps at
//! most one connection per store id, creates one lazily on first use,
//! replaces one that broke, and drains every buffer on flush.

use vstd::prelude::*;
use crate::types::RaftMessage;
use crate::wire::failed_store;
use crate::wire::MessageSink;
use crate::wire::Transmission;

verus! {

/// The batches one flush owes the sink, read off the connections in
/// registry order: one triple of store id, address and queued messages per
/// connection with a non-empty buffer, each batch in enqueue order.
pub open spec fn pending_plan(conns: Seq<PeerConnection>) -> Seq<(u64, Seq<char>, Seq<RaftMessage>)>
    decreases conns.len(),
{
    if conns.len() == 0 {
        Seq::empty()
    } else {
        let rest = pending_plan(conns.drop_last());
        if conns.last().queued().len() > 0 {
            rest.push((conns.last().store(), conns.last().addr(), conns.last().queued()))
        } else {
            rest
        }
    }
}

/// Some connection among the first `upto` is for this store.
spec fn store_seen(conns: Seq<PeerConnection>, upto: int, store_id: u64) -> bool {
    exists|j: int| 0 <= j < upto && (#[trigger] conns[j]).store() == store_id
}

/// Extending the prefix by one connection extends its plan by that
/// connection's batch exactly when its buffer is non-empty.
proof fn lemma_plan_step(s: Seq<PeerConnection>, i: int)
    requires
        0 <= i < s.len(),
    ensures
        pending_plan(s.take(i + 1)) == if s[i].queued().len() > 0 {
            pending_plan(s.take(i)).push((s[i].store(), s[i].addr(), s[i].queued()))
        } else {
            pending_plan(s.take(i))
        },
{
    assert(s.take(i + 1).drop_last() =~= s.take(i));
    assert(s.take(i + 1).last() == s[i]);
    assert(s.take(i + 1).len() == i + 1);
}

/// One buffered outbound connection to one store.
pub struct PeerConnection {
    store_id: u64,
    addr: String,
    broken: bool,
    buf: Vec<RaftMessage>,
}

impl PeerConnection {
    /// The store this connection was created for.
    pub closed spec fn store(self) -> u64 {
        self.store_id
    }

    /// The address the connection was built with.
    pub closed spec fn addr(self) -> Seq<char> {
        self.addr@
    }

    /// Whether the connection has been marked broken; a broken connection is
    /// never reused.
    pub closed spec fn broken(self) -> bool {
        self.broken
    }

    /// The messages accepted since the last flush, in enqueue order.
    pub closed spec fn queued(self) -> Seq<RaftMessage> {
        self.buf@
    }

    /// A fresh, open connection to `store_id` bound to `addr`, with an empty
    /// buffer.
    pub fn new(store_id: u64, addr: String) -> (c: PeerConnection)
        ensures
            c.store() == store_id,
            c.addr() == addr@,
            !c.broken(),
            c.queued() == Seq::<RaftMessage>::empty(),
    {
        PeerConnection { store_id, addr, broken: false, buf: Vec::new() }
    }

    /// Appends `msg` to the buffer without transmitting; order is kept.
    pub fn enqueue(&mut self, msg: RaftMessage)
        requires
            !old(self).broken(),
        ensures
            final(self).queued() == old(self).queued().push(msg),
            final(self).store() == old(self).store(),
            final(self).addr() == old(self).addr(),
            !final(self).broken(),
    {
        self.buf.push(msg);
    }

    /// Hands out the whole buffer, in enqueue order, and leaves it empty.
    pub fn take_batch(&mut self) -> (batch: Vec<RaftMessage>)
        ensures
            batch@ == old(self).queued(),
            final(self).queued() == Seq::<RaftMessage>::empty(),
            final(self).store() == old(self).store(),
            final(self).addr() == old(self).addr(),
            final(self).broken() == old(self).broken(),
    {
        let mut batch: Vec<RaftMessage> = Vec::new();
        core::mem::swap(&mut self.buf, &mut batch);
        batch
    }

    /// Whether at least one message waits in the buffer.
    pub fn has_pending(&self) -> (r: bool)
        ensures
            r == (self.queued().len() > 0),
    {
        self.buf.len() > 0
    }

    /// Marks the connection broken; the buffer and the address are kept so
    /// that the caller can still observe what was lost.
    pub fn mark_broken(&mut self)
        ensures
            final(self).broken(),
            final(self).queued() == old(self).queued(),
            final(self).store() == old(self).store(),
            final(self).addr() == old(self).addr(),
    {
        self.broken = true;
    }

    /// Whether the connection has been marked broken.
    pub fn is_broken(&self) -> (r: bool)
        ensures
            r == self.broken(),
    {
        self.broken
    }

    /// The store id the connection was created for.
    pub fn store_id(&self) -> (r: u64)
        ensures
            r == self.store(),
    {
        self.store_id
    }

    /// The address the connection was built with.
    pub fn addr_ref(&self) -> (r: &String)
        ensures
            r@ == self.addr(),
    {
        &self.addr
    }
}

/// What the registry holds for a given store id.
pub enum ConnState {
    /// No connection has been created for the store.
    Absent,
    /// A connection exists and is usable.
    Live,
    /// A connection exists but has been marked broken; it must be replaced,
    /// with a freshly resolved address, before the store can be reached.
    Broken,
}

/// Owns the set of live connections, at most one per store id.
pub struct ConnectionRegistry {
    conns: Vec<PeerConnection>,
}

impl ConnectionRegistry {
    /// The connections, in creation order.
    pub closed spec fn conn_seq(self) -> Seq<PeerConnection> {
        self.conns@
    }

    /// There is at most one connection per store id.
    pub open spec fn wf(self) -> bool {
        forall|i: int, j: int|
            0 <= i < j < self.conn_seq().len() ==> (#[trigger] self.conn_seq()[i]).store() != (
            #[trigger] self.conn_seq()[j]).store()
    }

    /// Some connection, live or broken, exists for this store.
    pub open spec fn has_store(self, store_id: u64) -> bool {
        exists|i: int|
            0 <= i < self.conn_seq().len() && (#[trigger] self.conn_seq()[i]).store() == store_id
    }

    /// The index of this store's connection, meaningful when `has_store`
    /// holds.
    closed spec fn idx(self, store_id: u64) -> int {
        choose|i: int|
            0 <= i < self.conn_seq().len() && (#[trigger] self.conn_seq()[i]).store() == store_id
    }

    /// This store's connection, meaningful when `has_store` holds.
    pub closed spec fn conn_of(self, store_id: u64) -> PeerConnection {
        self.conn_seq()[self.idx(store_id)]
    }

    /// A connection exists for this store and is usable.
    pub open spec fn is_live(self, store_id: u64) -> bool {
        self.has_store(store_id) && !self.conn_of(store_id).broken()
    }

    /// A connection exists for this store but is marked broken.
    pub open spec fn is_broken(self, store_id: u64) -> bool {
        self.has_store(store_id) && self.conn_of(store_id).broken()
    }

    /// The messages buffered for this store, empty when it has no
    /// connection.
    pub open spec fn queued_at(self, store_id: u64) -> Seq<RaftMessage> {
        if self.has_store(store_id) {
            self.conn_of(store_id).queued()
        } else {
            Seq::<RaftMessage>::empty()
        }
    }

    /// At least one connection holds at least one unflushed message.
    pub open spec fn some_pending(self) -> bool {
        exists|i: int|
            0 <= i < self.conn_seq().len() && (#[trigger] self.conn_seq()[i]).queued().len() > 0
    }

    /// The view another store keeps of the registry: whether it has a
    /// connection, and which.
    pub open spec fn same_store_view(self, other: ConnectionRegistry, store_id: u64) -> bool {
        &&& self.has_store(store_id) == other.has_store(store_id)
        &&& (other.has_store(store_id) ==> self.conn_of(store_id) == other.conn_of(store_id))
    }

    /// A registry with no connections.
    pub fn new() -> (r: ConnectionRegistry)
        ensures
            r.wf(),
            forall|s: u64| !r.has_store(s),
            !r.some_pending(),
    {
        ConnectionRegistry { conns: Vec::new() }
    }

    /// Under `wf`, any index holding `store_id` is the one `idx` denotes.
    proof fn lemma_idx_unique(self, store_id: u64, i: int)
        requires
            self.wf(),
            0 <= i < self.conn_seq().len(),
            self.conn_seq()[i].store() == store_id,
        ensures
            self.has_store(store_id),
            self.idx(store_id) == i,
            self.conn_of(store_id) == self.conn_seq()[i],
    {
        assert(self.has_store(store_id));
        let j = self.idx(store_id);
        assert(self.conn_seq()[j].store() == store_id);
        if i < j {
            assert(self.conn_seq()[i].store() != self.conn_seq()[j].store());
        } else if j < i {
            assert(self.conn_seq()[j].store() != self.conn_seq()[i].store());
        }
    }

    /// Replacing the connection at `i` by one for the same store leaves
    /// every other store's view unchanged.
    proof fn lemma_frame_after_update(self, pre: ConnectionRegistry, s: u64, i: int)
        requires
            pre.wf(),
            self.wf(),
            0 <= i < pre.conn_seq().len(),
            self.conn_seq().len() == pre.conn_seq().len(),
            forall|k: int|
                0 <= k < pre.conn_seq().len() && k != i ==> self.conn_seq()[k] == pre.conn_seq()[k],
            self.conn_seq()[i].store() == pre.conn_seq()[i].store(),
            s != pre.conn_seq()[i].store(),
        ensures
            self.same_store_view(pre, s),
    {
        if pre.has_store(s) {
            let j = pre.idx(s);
            assert(pre.conn_seq()[j].store() == s);
            assert(j != i);
            assert(self.conn_seq()[j].store() == s);
            self.lemma_idx_unique(s, j);
            pre.lemma_idx_unique(s, j);
        }
        if self.has_store(s) {
            let j = self.idx(s);
            assert(self.conn_seq()[j].store() == s);
            assert(j != i);
            assert(pre.conn_seq()[j].store() == s);
            assert(pre.has_store(s));
        }
    }

    /// Appending a connection for a different store leaves every other
    /// store's view unchanged.
    proof fn lemma_frame_after_push(self, pre: ConnectionRegistry, s: u64)
        requires
            pre.wf(),
            self.wf(),
            self.conn_seq().len() == pre.conn_seq().len() + 1,
            forall|k: int| 0 <= k < pre.conn_seq().len() ==> self.conn_seq()[k] == pre.conn_seq()[k],
            s != self.conn_seq()[pre.conn_seq().len() as int].store(),
        ensures
            self.same_store_view(pre, s),
    {
        if pre.has_store(s) {
            let j = pre.idx(s);
            assert(pre.conn_seq()[j].store() == s);
            assert(self.conn_seq()[j].store() == s);
            self.lemma_idx_unique(s, j);
            pre.lemma_idx_unique(s, j);
        }
        if self.has_store(s) {
            let j = self.idx(s);
            assert(self.conn_seq()[j].store() == s);
            assert(j < pre.conn_seq().len());
            assert(pre.conn_seq()[j].store() == s);
            assert(pre.has_store(s));
        }
    }

    /// At any instant the registry holds at most one connection per store:
    /// two positions holding the same store id are the same position.
    pub proof fn lemma_single_connection_per_store(self, i: int, j: int)
        requires
            self.wf(),
            0 <= i < self.conn_seq().len(),
            0 <= j < self.conn_seq().len(),
            self.conn_seq()[i].store() == self.conn_seq()[j].store(),
        ensures
            i == j,
    {
        if i < j {
            assert(self.conn_seq()[i].store() != self.conn_seq()[j].store());
        } else if j < i {
            assert(self.conn_seq()[j].store() != self.conn_seq()[i].store());
        }
    }

    /// The connection kept for a store is keyed by that store: it is never
    /// used for any other.
    pub proof fn lemma_conn_of_store(self, store_id: u64)
        requires
            self.wf(),
            self.has_store(store_id),
        ensures
            self.conn_of(store_id).store() == store_id,
    {
        let j = self.idx(store_id);
        assert(self.conn_seq()[j].store() == store_id);
    }

    /// One store with a non-empty buffer is witness enough that a flush is
    /// needed: `queued_at` and `some_pending` agree.
    pub proof fn lemma_pending_store_implies_some_pending(self, store_id: u64)
        requires
            self.queued_at(store_id).len() > 0,
        ensures
            self.some_pending(),
    {
        let j = self.idx(store_id);
        assert(self.conn_seq()[j].queued().len() > 0);
    }

    /// Index of the connection for `store_id`, if one exists.
    fn find(&self, store_id: u64) -> (r: Option<usize>)
        requires
            self.wf(),
        ensures
            match r {
                Some(i) => self.has_store(store_id) && i == self.idx(store_id) && i
                    < self.conn_seq().len(),
                None => !self.has_store(store_id),
            },
    {
        let n = self.conns.len();
        let mut i: usize = 0;
        while i < n
            invariant
                n == self.conn_seq().len(),
                i <= n,
                self.wf(),
                forall|k: int| 0 <= k < i ==> (#[trigger] self.conn_seq()[k]).store() != store_id,
            decreases n - i,
        {
            if self.conns[i].store_id == store_id {
                proof {
                    self.lemma_idx_unique(store_id, i as int);
                }
                return Some(i);
            }
            i = i + 1;
        }
        None
    }

    /// What the registry currently holds for `store_id`: no connection, a
    /// usable one, or a broken one awaiting replacement.
    pub fn state_of(&self, store_id: u64) -> (r: ConnState)
        requires
            self.wf(),
        ensures
            match r {
                ConnState::Absent => !self.has_store(store_id),
                ConnState::Live => self.is_live(store_id),
                ConnState::Broken => self.is_broken(store_id),
            },
    {
        match self.find(store_id) {
            Some(i) => {
                if self.conns[i].is_broken() {
                    ConnState::Broken
                } else {
                    ConnState::Live
                }
            },
            None => ConnState::Absent,
        }
    }

    /// Installs a fresh connection to `store_id` bound to `addr`, replacing
    /// any existing one — in particular a broken one — and starting with an
    /// empty buffer. Other stores' connections are untouched.
    pub fn create_or_replace(&mut self, store_id: u64, addr: String)
        requires
            old(self).wf(),
        ensures
            final(self).wf(),
            final(self).is_live(store_id),
            final(self).queued_at(store_id) == Seq::<RaftMessage>::empty(),
            final(self).conn_of(store_id).addr() == addr@,
            forall|s: u64| s != store_id ==> final(self).same_store_view(*old(self), s),
    {
        let fresh = PeerConnection::new(store_id, addr);
        match self.find(store_id) {
            Some(i) => {
                let ghost pre = *self;
                self.conns.remove(i);
                self.conns.insert(i, fresh);
                proof {
                    assert(self.conns@ =~= pre.conns@.update(i as int, self.conns@[i as int]));
                    assert(pre.conn_seq()[i as int].store() == store_id);
                    self.lemma_idx_unique(store_id, i as int);
                    assert forall|s: u64| s != store_id implies self.same_store_view(pre, s) by {
                        self.lemma_frame_after_update(pre, s, i as int);
                    }
                }
            },
            None => {
                let ghost pre = *self;
                self.conns.push(fresh);
                proof {
                    self.lemma_idx_unique(store_id, pre.conn_seq().len() as int);
                    assert forall|s: u64| s != store_id implies self.same_store_view(pre, s) by {
                        self.lemma_frame_after_push(pre, s);
                    }
                }
            },
        }
    }

    /// Appends `msg` to the buffer of `store_id`'s live connection; the
    /// buffer keeps enqueue order and other stores are untouched.
    pub fn enqueue_msg(&mut self, store_id: u64, msg: RaftMessage)
        requires
            old(self).wf(),
            old(self).is_live(store_id),
        ensures
            final(self).wf(),
            final(self).is_live(store_id),
            final(self).queued_at(store_id) == old(self).queued_at(store_id).push(msg),
            final(self).conn_of(store_id).addr() == old(self).conn_of(store_id).addr(),
            forall|s: u64| s != store_id ==> final(self).same_store_view(*old(self), s),
    {
        let r = self.find(store_id);
        let i = r.unwrap();
        let ghost pre = *self;
        let mut c = self.conns.remove(i);
        c.enqueue(msg);
        self.conns.insert(i, c);
        proof {
            assert(self.conns@ =~= pre.conns@.update(i as int, self.conns@[i as int]));
            assert(pre.conn_seq()[i as int].store() == store_id);
            self.lemma_idx_unique(store_id, i as int);
            assert forall|s: u64| s != store_id implies self.same_store_view(pre, s) by {
                self.lemma_frame_after_update(pre, s, i as int);
            }
        }
    }

    /// Marks `store_id`'s connection, if any, broken; its buffer and address
    /// are kept, and other stores are untouched.
    pub fn mark_broken(&mut self, store_id: u64)
        requires
            old(self).wf(),
        ensures
            final(self).wf(),
            final(self).has_store(store_id) == old(self).has_store(store_id),
            old(self).has_store(store_id) ==> {
                &&& final(self).is_broken(store_id)
                &&& final(self).queued_at(store_id) == old(self).queued_at(store_id)
                &&& final(self).conn_of(store_id).addr() == old(self).conn_of(store_id).addr()
            },
            forall|s: u64| s != store_id ==> final(self).same_store_view(*old(self), s),
    {
        match self.find(store_id) {
            Some(i) => {
                let ghost pre = *self;
                let mut c = self.conns.remove(i);
                c.mark_broken();
                self.conns.insert(i, c);
                proof {
                    assert(self.conns@ =~= pre.conns@.update(i as int, self.conns@[i as int]));
                    assert(pre.conn_seq()[i as int].store() == store_id);
                    self.lemma_idx_unique(store_id, i as int);
                    assert forall|s: u64| s != store_id implies self.same_store_view(pre, s) by {
                        self.lemma_frame_after_update(pre, s, i as int);
                    }
                }
            },
            None => {},
        }
    }

    /// Whether any connection holds at least one unflushed message; no I/O.
    pub fn need_flush(&self) -> (r: bool)
        ensures
            r == self.some_pending(),
    {
        let n = self.conns.len();
        let mut i: usize = 0;
        while i < n
            invariant
                n == self.conn_seq().len(),
                i <= n,
                forall|k: int| 0 <= k < i ==> (#[trigger] self.conn_seq()[k]).queued().len() == 0,
            decreases n - i,
        {
            if self.conns[i].has_pending() {
                return true;
            }
            i = i + 1;
        }
        false
    }

    /// Flushes every connection with pending messages: each buffer is handed
    /// to `sink` as one batch, in enqueue order, one store at a time, so one
    /// store's failure cannot keep another store's batch from being
    /// transmitted. A connection whose transmission fails is marked broken
    /// and its batch is reported lost: every buffer is empty afterwards,
    /// whatever the sink answered. The returned ghost record lists the
    /// transmissions made, one per pending store, exactly following
    /// `pending_plan` of the connections as they stood; a connection is
    /// broken afterwards exactly when it was broken before or its recorded
    /// transmission failed.
    pub fn flush_all<W: MessageSink>(&mut self, sink: &mut W) -> (events: Ghost<
        Seq<Transmission>,
    >)
        requires
            old(self).wf(),
        ensures
            final(self).wf(),
            events@.len() == pending_plan(old(self).conn_seq()).len(),
            forall|k: int|
                0 <= k < events@.len() ==> {
                    &&& (#[trigger] events@[k]).store_id == pending_plan(old(self).conn_seq())[k].0
                    &&& events@[k].addr == pending_plan(old(self).conn_seq())[k].1
                    &&& events@[k].batch == pending_plan(old(self).conn_seq())[k].2
                },
            forall|s: u64| final(self).has_store(s) == old(self).has_store(s),
            forall|s: u64|
                old(self).has_store(s) ==> {
                    &&& final(self).queued_at(s).len() == 0
                    &&& final(self).conn_of(s).addr() == old(self).conn_of(s).addr()
                    &&& (final(self).conn_of(s).broken() <==> (old(self).conn_of(s).broken()
                        || failed_store(events@, s)))
                },
            !final(self).some_pending(),
    {
        let ghost pre = *self;
        let ghost mut log: Seq<Transmission> = Seq::empty();
        let n = self.conns.len();
        let mut i: usize = 0;
        while i < n
            invariant
                n == self.conn_seq().len(),
                i <= n,
                self.wf(),
                self.conn_seq().len() == pre.conn_seq().len(),
                pre.wf(),
                log.len() == pending_plan(pre.conn_seq().take(i as int)).len(),
                forall|k: int|
                    0 <= k < log.len() ==> {
                        &&& (#[trigger] log[k]).store_id == pending_plan(
                            pre.conn_seq().take(i as int),
                        )[k].0
                        &&& log[k].addr == pending_plan(pre.conn_seq().take(i as int))[k].1
                        &&& log[k].batch == pending_plan(pre.conn_seq().take(i as int))[k].2
                    },
                forall|k: int|
                    0 <= k < log.len() ==> store_seen(
                        pre.conn_seq(),
                        i as int,
                        (#[trigger] log[k]).store_id,
                    ),
                forall|k: int|
                    0 <= k < n ==> (#[trigger] self.conn_seq()[k]).store() == pre.conn_seq()[
                        k
                    ].store(),
                forall|k: int|
                    0 <= k < n ==> (#[trigger] self.conn_seq()[k]).addr() == pre.conn_seq()[
                        k
                    ].addr(),
                forall|k: int|
                    0 <= k < i ==> ((#[trigger] self.conn_seq()[k]).broken() <==> (
                    pre.conn_seq()[k].broken() || failed_store(log, pre.conn_seq()[k].store()))),
                forall|k: int| 0 <= k < i ==> (#[trigger] self.conn_seq()[k]).queued().len() == 0,
                forall|k: int| i <= k < n ==> self.conn_seq()[k] == pre.conn_seq()[k],
            decreases n - i,
        {
            let ghost pre_iter = *self;
            let ghost pre_log = log;
            if self.conns[i].has_pending() {
                let mut c = self.conns.remove(i);
                let batch = c.take_batch();
                let outcome = sink.transmit(c.store_id(), c.addr_ref(), batch);
                let delivered = outcome.is_ok();
                if !delivered {
                    c.mark_broken();
                }
                self.conns.insert(i, c);
                proof {
                    assert(self.conns@ =~= pre_iter.conns@.update(i as int, self.conns@[i as int]));
                    log = log.push(
                        Transmission {
                            store_id: pre.conn_seq()[i as int].store(),
                            addr: pre.conn_seq()[i as int].addr(),
                            batch: pre.conn_seq()[i as int].queued(),
                            delivered,
                        },
                    );
                }
            }
            proof {
                lemma_plan_step(pre.conn_seq(), i as int);
                assert forall|k: int|
                    0 <= k < i + 1 implies ((#[trigger] self.conn_seq()[k]).broken() <==> (
                pre.conn_seq()[k].broken() || failed_store(log, pre.conn_seq()[k].store()))) by {
                    if k < i {
                        assert(pre.conn_seq()[k].store() != pre.conn_seq()[i as int].store());
                        let sk = pre.conn_seq()[k].store();
                        if failed_store(pre_log, sk) {
                            let m = choose|m: int|
                                0 <= m < pre_log.len() && (#[trigger] pre_log[m]).store_id == sk
                                    && !pre_log[m].delivered;
                            assert(log[m].store_id == sk && !log[m].delivered);
                            assert(failed_store(log, sk));
                        }
                        if failed_store(log, sk) {
                            let m = choose|m: int|
                                0 <= m < log.len() && (#[trigger] log[m]).store_id == sk && !log[
                                    m
                                ].delivered;
                            assert(m < pre_log.len());
                            assert(pre_log[m].store_id == sk && !pre_log[m].delivered);
                            assert(failed_store(pre_log, sk));
                        }
                        assert(failed_store(log, sk) == failed_store(pre_log, sk));
                    } else {
                        if pre.conn_seq()[i as int].queued().len() > 0 {
                            assert(log.last().store_id == pre.conn_seq()[i as int].store());
                        }
                        assert forall|m: int|
                            0 <= m < pre_log.len() implies (#[trigger] pre_log[m]).store_id
                            != pre.conn_seq()[i as int].store() by {
                            assert(store_seen(pre.conn_seq(), i as int, pre_log[m].store_id));
                            let j = choose|j: int|
                                0 <= j < i && (#[trigger] pre.conn_seq()[j]).store() == pre_log[
                                    m
                                ].store_id;
                            assert(pre.conn_seq()[j].store() != pre.conn_seq()[i as int].store());
                        }
                    }
                }
            }
            i = i + 1;
        }
        proof {
            assert(pre.conn_seq().take(n as int) =~= pre.conn_seq());
            assert forall|s: u64| self.has_store(s) == pre.has_store(s) by {
                if pre.has_store(s) {
                    let j = pre.idx(s);
                    assert(pre.conn_seq()[j].store() == s);
                    assert(self.conn_seq()[j].store() == s);
                }
                if self.has_store(s) {
                    let j = self.idx(s);
                    assert(self.conn_seq()[j].store() == s);
                    assert(pre.conn_seq()[j].store() == s);
                }
            }
            assert forall|s: u64| pre.has_store(s) implies {
                &&& self.queued_at(s).len() == 0
                &&& self.conn_of(s).addr() == pre.conn_of(s).addr()
                &&& (self.conn_of(s).broken() <==> (pre.conn_of(s).broken() || failed_store(
                    log,
                    s,
                )))
            } by {
                let j = pre.idx(s);
                assert(pre.conn_seq()[j].store() == s);
                assert(self.conn_seq()[j].store() == s);
                self.lemma_idx_unique(s, j);
                pre.lemma_idx_unique(s, j);
            }
        }
        Ghost(log)
    }
}

} // verus!
