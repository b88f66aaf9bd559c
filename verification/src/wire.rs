//! The transmission capability the transport is built over.

use vstd::prelude::*;
use crate::types::RaftMessage;
use crate::types::TransmitError;

verus! {

/// Ghost record of one batch handed to the sink: the store it was for, the
/// address it was sent to, exactly the messages it carried in enqueue
/// order, and whether the sink accepted it.
pub ghost struct Transmission {
    /// The destination store of the batch.
    pub store_id: u64,
    /// The address the batch was transmitted to.
    pub addr: Seq<char>,
    /// The messages of the batch, in enqueue order.
    pub batch: Seq<RaftMessage>,
    /// Whether the sink reported the transmission delivered.
    pub delivered: bool,
}

/// Some recorded transmission to this store failed.
pub open spec fn failed_store(events: Seq<Transmission>, store_id: u64) -> bool {
    exists|k: int|
        0 <= k < events.len() && (#[trigger] events[k]).store_id == store_id
            && !events[k].delivered
}

/// Transmits one batch of messages to one store over the wire.
///
/// Implemented by the surrounding process on top of its RPC stack; a
/// transmission may fail for network reasons, so nothing is promised of its
/// outcome. The transport hands it, per flush, each connection's buffered
/// batch in enqueue order, and marks the connection broken when it fails.
pub trait MessageSink {
    /// Sends `batch` to the store `store_id` at `addr`, or reports that the
    /// transmission failed. The batch is consumed either way: a failed batch
    /// is reported lost, never silently retried by this layer.
    fn transmit(&mut self, store_id: u64, addr: &String, batch: Vec<RaftMessage>) -> Result<
        (),
        TransmitError,
    >;
}

} // verus!
