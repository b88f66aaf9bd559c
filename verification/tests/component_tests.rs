use raft_transport::cache::AddressCache;
use raft_transport::registry::ConnState;
use raft_transport::registry::ConnectionRegistry;
use raft_transport::registry::PeerConnection;
use raft_transport::types::RaftMessage;
use raft_transport::types::TransmitError;
use raft_transport::wire::MessageSink;

fn msg(to_store: u64, tag: u8) -> RaftMessage {
    RaftMessage { to_store, payload: vec![tag] }
}

#[test]
fn cache_misses_before_first_store() {
    let cache = AddressCache::new();
    assert!(cache.get_valid(1).is_none());
}

#[test]
fn cache_returns_stored_address() {
    let mut cache = AddressCache::new();
    cache.store(1, "10.0.0.1:20160".to_string());
    let got = cache.get_valid(1);
    assert_eq!(got.unwrap().as_str(), "10.0.0.1:20160");
    assert!(cache.get_valid(2).is_none());
}

#[test]
fn cache_overwrites_on_re_resolution() {
    let mut cache = AddressCache::new();
    cache.store(1, "10.0.0.1:20160".to_string());
    cache.store(1, "10.0.0.9:20160".to_string());
    assert_eq!(cache.get_valid(1).unwrap().as_str(), "10.0.0.9:20160");
}

#[test]
fn cache_invalidation_forces_miss_until_re_stored() {
    let mut cache = AddressCache::new();
    cache.store(1, "10.0.0.1:20160".to_string());
    cache.invalidate(1);
    assert!(cache.get_valid(1).is_none());
    cache.store(1, "10.0.0.2:20160".to_string());
    assert_eq!(cache.get_valid(1).unwrap().as_str(), "10.0.0.2:20160");
}

#[test]
fn cache_invalidation_of_absent_store_is_harmless() {
    let mut cache = AddressCache::new();
    cache.invalidate(42);
    assert!(cache.get_valid(42).is_none());
}

#[test]
fn connection_buffers_in_order_and_take_batch_clears() {
    let mut conn = PeerConnection::new(3, "10.0.0.3:20160".to_string());
    assert!(!conn.has_pending());
    conn.enqueue(msg(3, 1));
    conn.enqueue(msg(3, 2));
    assert!(conn.has_pending());
    let batch = conn.take_batch();
    assert_eq!(batch.len(), 2);
    assert_eq!(batch[0].payload, vec![1]);
    assert_eq!(batch[1].payload, vec![2]);
    assert!(!conn.has_pending());
    assert_eq!(conn.store_id(), 3);
    assert_eq!(conn.addr_ref().as_str(), "10.0.0.3:20160");
}

#[test]
fn connection_marked_broken_stays_broken() {
    let mut conn = PeerConnection::new(3, "10.0.0.3:20160".to_string());
    assert!(!conn.is_broken());
    conn.mark_broken();
    assert!(conn.is_broken());
}

#[test]
fn registry_creates_lazily_and_replaces_broken() {
    let mut registry = ConnectionRegistry::new();
    assert!(matches!(registry.state_of(1), ConnState::Absent));
    registry.create_or_replace(1, "10.0.0.1:20160".to_string());
    assert!(matches!(registry.state_of(1), ConnState::Live));
    registry.enqueue_msg(1, msg(1, 7));
    registry.mark_broken(1);
    assert!(matches!(registry.state_of(1), ConnState::Broken));
    registry.create_or_replace(1, "10.0.0.8:20160".to_string());
    // The replacement starts fresh: live and with an empty buffer.
    assert!(matches!(registry.state_of(1), ConnState::Live));
    assert!(!registry.need_flush());
}

#[test]
fn registry_mark_broken_without_connection_is_harmless() {
    let mut registry = ConnectionRegistry::new();
    registry.mark_broken(5);
    assert!(matches!(registry.state_of(5), ConnState::Absent));
}

#[test]
fn registry_need_flush_sees_any_pending_store() {
    let mut registry = ConnectionRegistry::new();
    registry.create_or_replace(1, "10.0.0.1:20160".to_string());
    registry.create_or_replace(2, "10.0.0.2:20160".to_string());
    assert!(!registry.need_flush());
    registry.enqueue_msg(2, msg(2, 1));
    assert!(registry.need_flush());
}

/// A sink that drops every batch after counting it.
struct CountingSink {
    batches: usize,
}

impl MessageSink for CountingSink {
    fn transmit(
        &mut self,
        _store_id: u64,
        _addr: &String,
        _batch: Vec<RaftMessage>,
    ) -> Result<(), TransmitError> {
        self.batches += 1;
        Ok(())
    }
}

#[test]
fn registry_flush_sends_one_batch_per_pending_store() {
    let mut registry = ConnectionRegistry::new();
    registry.create_or_replace(1, "10.0.0.1:20160".to_string());
    registry.create_or_replace(2, "10.0.0.2:20160".to_string());
    registry.create_or_replace(3, "10.0.0.3:20160".to_string());
    registry.enqueue_msg(1, msg(1, 1));
    registry.enqueue_msg(3, msg(3, 1));
    let mut sink = CountingSink { batches: 0 };
    registry.flush_all(&mut sink);
    // Only the two stores with pending messages cost a transmission.
    assert_eq!(sink.batches, 2);
    assert!(!registry.need_flush());
}
