use raft_transport::raft_client::RaftClient;
use raft_transport::registry::ConnState;
use raft_transport::resolve::StoreAddrResolver;
use raft_transport::transport::ServerTransport;
use raft_transport::types::RaftMessage;
use raft_transport::types::ResolveError;
use raft_transport::types::RouterError;
use raft_transport::types::TransmitError;
use raft_transport::types::TransportError;
use raft_transport::wire::MessageSink;

/// A resolver over a fixed table, counting every consultation.
struct ScriptedResolver {
    known: Vec<(u64, String)>,
    timing_out: Vec<u64>,
    faulty: Vec<u64>,
    calls: u64,
}

impl ScriptedResolver {
    fn with_known(known: Vec<(u64, &str)>) -> ScriptedResolver {
        ScriptedResolver {
            known: known.into_iter().map(|(s, a)| (s, a.to_string())).collect(),
            timing_out: Vec::new(),
            faulty: Vec::new(),
            calls: 0,
        }
    }
}

impl StoreAddrResolver for ScriptedResolver {
    fn resolve(&mut self, store_id: u64) -> Result<String, ResolveError> {
        self.calls += 1;
        if self.timing_out.contains(&store_id) {
            return Err(ResolveError::Timeout);
        }
        if self.faulty.contains(&store_id) {
            return Err(ResolveError::LookupFailed);
        }
        for (s, a) in &self.known {
            if *s == store_id {
                return Ok(a.clone());
            }
        }
        Err(ResolveError::StoreNotFound)
    }
}

/// A sink that records every delivered batch and every attempt, and can be
/// told to fail for chosen stores.
struct RecordingSink {
    delivered: Vec<(u64, String, Vec<RaftMessage>)>,
    attempts: Vec<u64>,
    failing: Vec<u64>,
}

impl RecordingSink {
    fn new() -> RecordingSink {
        RecordingSink { delivered: Vec::new(), attempts: Vec::new(), failing: Vec::new() }
    }
}

impl MessageSink for RecordingSink {
    fn transmit(
        &mut self,
        store_id: u64,
        addr: &String,
        batch: Vec<RaftMessage>,
    ) -> Result<(), TransmitError> {
        self.attempts.push(store_id);
        if self.failing.contains(&store_id) {
            return Err(TransmitError::WriteFailed);
        }
        self.delivered.push((store_id, addr.clone(), batch));
        Ok(())
    }
}

fn msg(to_store: u64, tag: u8) -> RaftMessage {
    RaftMessage { to_store, payload: vec![tag] }
}

fn client_with(
    known: Vec<(u64, &str)>,
) -> RaftClient<ScriptedResolver, RecordingSink> {
    RaftClient::new(ScriptedResolver::with_known(known), RecordingSink::new())
}

#[test]
fn first_send_resolves_exactly_once() {
    let mut client = client_with(vec![(5, "10.0.0.5:20160")]);
    assert_eq!(client.resolver.calls, 0);
    let r = client.send(msg(5, 1));
    assert!(r.is_ok());
    assert_eq!(client.resolver.calls, 1);
    assert!(matches!(client.registry.state_of(5), ConnState::Live));
}

#[test]
fn cached_sends_resolve_no_further() {
    let mut client = client_with(vec![(5, "10.0.0.5:20160")]);
    assert!(client.send(msg(5, 1)).is_ok());
    assert!(client.send(msg(5, 2)).is_ok());
    assert!(client.send(msg(5, 3)).is_ok());
    assert_eq!(client.resolver.calls, 1);
}

#[test]
fn broken_connection_re_resolves_exactly_once() {
    let mut client = client_with(vec![(5, "10.0.0.5:20160")]);
    assert!(client.send(msg(5, 1)).is_ok());
    assert_eq!(client.resolver.calls, 1);
    client.registry.mark_broken(5);
    let r = client.send(msg(5, 2));
    assert!(r.is_ok());
    assert_eq!(client.resolver.calls, 2);
    assert!(matches!(client.registry.state_of(5), ConnState::Live));
}

#[test]
fn need_flush_tracks_pending_messages() {
    let mut client = client_with(vec![(5, "10.0.0.5:20160")]);
    assert!(!client.need_flush());
    assert!(client.send(msg(5, 1)).is_ok());
    assert!(client.need_flush());
    client.flush();
    assert!(!client.need_flush());
}

#[test]
fn flush_keeps_per_store_order_and_isolates_failure() {
    let mut client = client_with(vec![(1, "10.0.0.1:20160"), (2, "10.0.0.2:20160")]);
    assert!(client.send(msg(1, 11)).is_ok());
    assert!(client.send(msg(1, 12)).is_ok());
    assert!(client.send(msg(2, 21)).is_ok());
    client.sink.failing.push(2);
    client.flush();
    // Store 2 was attempted, but only store 1's batch was delivered.
    assert!(client.sink.attempts.contains(&1));
    assert!(client.sink.attempts.contains(&2));
    assert_eq!(client.sink.delivered.len(), 1);
    let (store, addr, batch) = &client.sink.delivered[0];
    assert_eq!(*store, 1);
    assert_eq!(addr.as_str(), "10.0.0.1:20160");
    // Store 1's messages were transmitted in enqueue order.
    assert_eq!(batch.len(), 2);
    assert_eq!(batch[0].payload, vec![11]);
    assert_eq!(batch[1].payload, vec![12]);
    // The failed store's connection is broken; the flushed one stays live.
    assert!(matches!(client.registry.state_of(1), ConnState::Live));
    assert!(matches!(client.registry.state_of(2), ConnState::Broken));
}

#[test]
fn resolve_send_flush_delivers_single_batch() {
    let mut client = client_with(vec![(7, "10.0.0.7:20160")]);
    let r = client.send(msg(7, 1));
    assert!(r.is_ok());
    assert!(client.need_flush());
    client.flush();
    assert!(!client.need_flush());
    assert_eq!(client.sink.delivered.len(), 1);
    let (store, addr, batch) = &client.sink.delivered[0];
    assert_eq!(*store, 7);
    assert_eq!(addr.as_str(), "10.0.0.7:20160");
    assert_eq!(batch.len(), 1);
    assert_eq!(batch[0].to_store, 7);
    assert_eq!(batch[0].payload, vec![1]);
}

#[test]
fn resolution_timeout_fails_send_and_creates_no_connection() {
    let mut client = client_with(vec![]);
    client.resolver.timing_out.push(9);
    let r = client.send(msg(9, 1));
    assert!(matches!(r, Err(TransportError::Resolve(ResolveError::Timeout))));
    assert_eq!(client.resolver.calls, 1);
    assert!(matches!(client.registry.state_of(9), ConnState::Absent));
    assert!(!client.need_flush());
}

#[test]
fn unknown_store_surfaces_not_found() {
    let mut client = client_with(vec![]);
    let r = client.send(msg(6, 1));
    assert!(matches!(r, Err(TransportError::Resolve(ResolveError::StoreNotFound))));
    assert!(matches!(client.registry.state_of(6), ConnState::Absent));
}

#[test]
fn lookup_fault_surfaces_lookup_failed() {
    let mut client = client_with(vec![]);
    client.resolver.faulty.push(8);
    let r = client.send(msg(8, 1));
    assert!(matches!(r, Err(TransportError::Resolve(ResolveError::LookupFailed))));
}

#[test]
fn flush_failure_clears_buffer_breaks_connection_and_next_send_recovers() {
    let mut client = client_with(vec![(3, "10.0.0.3:20160")]);
    assert!(client.send(msg(3, 1)).is_ok());
    assert_eq!(client.resolver.calls, 1);
    client.sink.failing.push(3);
    client.flush();
    // The batch is reported lost: the buffer is cleared despite the failure,
    // and the connection is marked broken.
    assert!(!client.need_flush());
    assert!(matches!(client.registry.state_of(3), ConnState::Broken));
    // The next send re-resolves once and builds a fresh connection.
    let r = client.send(msg(3, 2));
    assert!(r.is_ok());
    assert_eq!(client.resolver.calls, 2);
    assert!(matches!(client.registry.state_of(3), ConnState::Live));
}

#[test]
fn unreachable_when_re_resolution_fails_after_break() {
    let mut client = client_with(vec![(4, "10.0.0.4:20160")]);
    assert!(client.send(msg(4, 1)).is_ok());
    client.registry.mark_broken(4);
    client.resolver.timing_out.push(4);
    let r = client.send(msg(4, 2));
    assert!(matches!(r, Err(TransportError::Unreachable)));
    assert!(matches!(client.registry.state_of(4), ConnState::Broken));
    // The stale cache entry was invalidated, so a later send resolves anew
    // and succeeds once the lookup works again.
    client.resolver.timing_out.clear();
    let calls_before = client.resolver.calls;
    assert!(client.send(msg(4, 3)).is_ok());
    assert_eq!(client.resolver.calls, calls_before + 1);
    assert!(matches!(client.registry.state_of(4), ConnState::Live));
}

#[test]
fn facade_delegates_and_maps_errors() {
    let client = client_with(vec![(7, "10.0.0.7:20160")]);
    let mut transport = ServerTransport::new(client);
    assert!(transport.send(msg(7, 1)).is_ok());
    assert!(transport.need_flush());
    transport.flush();
    assert!(!transport.need_flush());
    let r = transport.send(msg(9, 1));
    assert!(matches!(
        r,
        Err(RouterError::Transport(TransportError::Resolve(ResolveError::StoreNotFound)))
    ));
}
