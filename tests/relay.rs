use dnsproxy::{
    DefaultInterceptor, DnsInterceptor, HostAddress, NamePattern, RelayAction, RelayEvent,
    RelayState, ResourceRecord, UdpRelay,
};

fn query(id: u16, name: &str) -> Vec<u8> {
    let mut b = vec![(id >> 8) as u8, id as u8, 0x01, 0x00, 0, 1, 0, 0, 0, 0, 0, 0];
    for label in name.split('.') {
        b.push(label.len() as u8);
        b.extend_from_slice(label.as_bytes());
    }
    b.extend_from_slice(&[0, 0, 1, 0, 1]);
    b
}

fn local_relay() -> UdpRelay<&'static str, DnsInterceptor> {
    let records = vec![ResourceRecord {
        rdata: HostAddress::V4([10, 0, 0, 7]),
        name: NamePattern::Literal("nas.lan".to_string()),
        ttl: 30,
    }];
    UdpRelay::new("upstream", DnsInterceptor::new(records))
}

#[test]
fn new_relay_awaits_client() {
    let relay = local_relay();
    assert_eq!(relay.state(), RelayState::AwaitClient);
    assert_eq!(*relay.target(), "upstream");
}

#[test]
fn intercepted_query_is_answered_directly() {
    let mut relay = local_relay();
    let q = query(9, "nas.lan");
    match relay.step(RelayEvent::Received(q.clone())) {
        RelayAction::SendToClient(reply) => {
            assert_eq!(&reply[..2], &q[..2]);
            assert_eq!(&reply[reply.len() - 4..], &[10, 0, 0, 7]);
        }
        _ => panic!("expected a direct reply"),
    }
    assert_eq!(relay.state(), RelayState::ReplyPending);
    assert!(matches!(relay.step(RelayEvent::Sent), RelayAction::ReceiveFromClient));
    assert_eq!(relay.state(), RelayState::AwaitClient);
}

#[test]
fn other_query_is_forwarded_and_reply_relayed() {
    let mut relay = local_relay();
    let q = query(11, "www.example.com");
    match relay.step(RelayEvent::Received(q.clone())) {
        RelayAction::SendUpstream(bytes) => assert_eq!(bytes, q),
        _ => panic!("expected forwarding"),
    }
    assert!(matches!(relay.step(RelayEvent::Sent), RelayAction::ReceiveFromUpstream));
    let upstream_reply = vec![0, 11, 0x81, 0x80, 1, 2, 3];
    match relay.step(RelayEvent::Received(upstream_reply.clone())) {
        RelayAction::SendToClient(bytes) => assert_eq!(bytes, upstream_reply),
        _ => panic!("expected the upstream reply to be relayed"),
    }
    assert!(matches!(relay.step(RelayEvent::Sent), RelayAction::ReceiveFromClient));
}

#[test]
fn upstream_failure_drops_request_and_relay_continues() {
    let mut relay = local_relay();
    let q = query(12, "www.example.com");
    assert!(matches!(relay.step(RelayEvent::Received(q)), RelayAction::SendUpstream(_)));
    assert!(matches!(relay.step(RelayEvent::Sent), RelayAction::ReceiveFromUpstream));
    assert!(matches!(relay.step(RelayEvent::ReceiveFailed), RelayAction::ReceiveFromClient));
    assert_eq!(relay.state(), RelayState::AwaitClient);
    let next = query(13, "nas.lan");
    match relay.step(RelayEvent::Received(next.clone())) {
        RelayAction::SendToClient(reply) => assert_eq!(&reply[..2], &next[..2]),
        _ => panic!("expected the next request to be answered"),
    }
}

#[test]
fn failures_in_every_state_resume_waiting() {
    let mut relay = local_relay();
    assert!(matches!(relay.step(RelayEvent::ReceiveFailed), RelayAction::ReceiveFromClient));
    assert!(matches!(relay.step(RelayEvent::Received(query(1, "x.y"))), RelayAction::SendUpstream(_)));
    assert!(matches!(relay.step(RelayEvent::SendFailed), RelayAction::ReceiveFromClient));
    assert!(matches!(relay.step(RelayEvent::Received(query(2, "nas.lan"))), RelayAction::SendToClient(_)));
    assert!(matches!(relay.step(RelayEvent::SendFailed), RelayAction::ReceiveFromClient));
    assert_eq!(relay.state(), RelayState::AwaitClient);
}

#[test]
fn default_policy_forwards_everything() {
    let mut relay = UdpRelay::new(53u16, DefaultInterceptor);
    let q = query(3, "nas.lan");
    match relay.step(RelayEvent::Received(q.clone())) {
        RelayAction::SendUpstream(bytes) => assert_eq!(bytes, q),
        _ => panic!("expected forwarding"),
    }
    assert_eq!(relay.state(), RelayState::ForwardPending);
}
