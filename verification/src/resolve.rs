//! The address-lookup capability the transport is built over.

use vstd::prelude::*;
use crate::types::ResolveError;

verus! {

/// Ghost record of one resolver consultation: the store asked about and
/// the outcome the resolver handed back.
pub ghost struct Resolution {
    /// The store whose address was asked for.
    pub store_id: u64,
    /// The address the resolver answered with, or `None` when the lookup
    /// failed.
    pub outcome: Option<Seq<char>>,
}

/// Maps a store id to its current network address.
///
/// Implemented by the surrounding process against the cluster's metadata
/// service; the lookup may be slow and may fail transiently, so nothing is
/// promised of its outcome. The transport consults it only on a cache miss
/// or after an invalidation, and reacts to either outcome as its own
/// contracts state.
pub trait StoreAddrResolver {
    /// Looks up the current address of `store_id`, or reports why it could
    /// not be determined.
    fn resolve(&mut self, store_id: u64) -> Result<String, ResolveError>;
}

} // verus!
