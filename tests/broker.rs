use mqtt_server::distributor::{Distributor, MAX_CONNECTIONS, MAX_MESSAGE_LEN, QUEUE_DEPTH};
use mqtt_server::registry::TopicRegistry;
use mqtt_server::session::{IncomingPacket, Session, SessionAction, SessionEvent, SessionState};
use mqtt_server::{
    filter_matches, is_valid_filter, is_valid_topic_name, DisconnectReasonCode, DistributorError,
    MqttCodecError, TopicsError, MAX_TOPIC_LEN,
};

fn b(s: &str) -> Vec<u8> {
    s.as_bytes().to_vec()
}

fn publish(topic: &str, payload: &str, qos: u8) -> SessionEvent {
    SessionEvent::Packet(IncomingPacket::Publish { topic: b(topic), payload: b(payload), qos })
}

fn subscribe(filter: &str, max_qos: u8) -> SessionEvent {
    SessionEvent::Packet(IncomingPacket::Subscribe { filter: b(filter), max_qos })
}

fn connected(d: &mut Distributor) -> (Session, usize) {
    let mut s = Session::new();
    assert_eq!(s.handle(d, SessionEvent::Packet(IncomingPacket::Connect)), SessionAction::SendConnAck);
    match s.state() {
        SessionState::Established(slot) => (s, slot),
        other => panic!("not established: {:?}", other),
    }
}

#[test]
fn register_topic_checks_length() {
    let mut r = TopicRegistry::new(4);
    let long = vec![b'a'; MAX_TOPIC_LEN + 1];
    assert_eq!(r.register_topic(&long), Err(TopicsError::TopicTooLong));
    let longest = vec![b'a'; MAX_TOPIC_LEN];
    assert_eq!(r.register_topic(&longest), Ok(0));
    assert_eq!(r.register_topic(&b("x")), Ok(1));
    assert_eq!(r.register_topic(&Vec::new()), Ok(2));
}

#[test]
fn register_topic_full_registry() {
    let mut r = TopicRegistry::new(2);
    assert_eq!(r.register_topic(&b("a")), Ok(0));
    assert_eq!(r.register_topic(&b("b")), Ok(1));
    assert_eq!(r.register_topic(&b("c")), Err(TopicsError::Full));
    assert_eq!(r.register_topic(&b("a")), Ok(0));
    assert_eq!(r.register_topic(&b("b")), Ok(1));
}

#[test]
fn wildcard_matching() {
    assert!(filter_matches(&b("a/+/c"), &b("a/b/c")));
    assert!(!filter_matches(&b("a/+/c"), &b("a/b/b/c")));
    assert!(filter_matches(&b("a/#"), &b("a")));
    assert!(filter_matches(&b("a/#"), &b("a/b")));
    assert!(filter_matches(&b("a/#"), &b("a/b/c")));
    assert!(!filter_matches(&b("a/#"), &b("b/a")));
    assert!(filter_matches(&b("#"), &b("a/b/c")));
    assert!(filter_matches(&b("#"), &b("")));
    assert!(filter_matches(&b("#"), &b("/")));
    assert!(filter_matches(&b("a/+"), &b("a/")));
    assert!(!filter_matches(&b("a/+/c"), &b("a//c")));
    assert!(filter_matches(&b("+/b"), &b("a/b")));
    assert!(!filter_matches(&b("+"), &b("a/b")));
    assert!(!filter_matches(&b("a/b"), &b("a/c")));
    assert!(filter_matches(&b("a/b"), &b("a/b")));
}

#[test]
fn filter_and_name_validity() {
    assert!(is_valid_filter(&b("a/+/c")));
    assert!(is_valid_filter(&b("a/#")));
    assert!(is_valid_filter(&b("#")));
    assert!(!is_valid_filter(&b("a/#/c")));
    assert!(!is_valid_filter(&b("a+/c")));
    assert!(!is_valid_filter(&b("")));
    assert!(!is_valid_filter(&vec![b'a'; MAX_TOPIC_LEN + 1]));
    assert!(is_valid_topic_name(&b("a/b")));
    assert!(!is_valid_topic_name(&b("a/+")));
    assert!(!is_valid_topic_name(&b("")));
}

#[test]
fn resubscribe_updates_qos() {
    let mut r = TopicRegistry::new(4);
    assert_eq!(r.subscribe(&b("a/b"), 3, 0), Ok(()));
    assert_eq!(r.subscribe(&b("a/b"), 3, 2), Ok(()));
    assert_eq!(r.matching_subscribers(&b("a/b")), vec![(3, 2)]);
}

#[test]
fn subscribe_rejects_bad_filter() {
    let mut r = TopicRegistry::new(1);
    assert_eq!(r.subscribe(&b("a/#/b"), 0, 0), Err(TopicsError::TopicTooLong));
    assert_eq!(r.subscribe(&b("a"), 0, 0), Ok(()));
    assert_eq!(r.subscribe(&b("b"), 0, 0), Err(TopicsError::Full));
    assert_eq!(r.subscribe(&b("a"), 1, 1), Ok(()));
    assert_eq!(r.matching_subscribers(&b("a")), vec![(0, 0), (1, 1)]);
}

#[test]
fn unsubscribe_and_drop_connection() {
    let mut r = TopicRegistry::new(4);
    r.subscribe(&b("x/+"), 1, 1).unwrap();
    r.subscribe(&b("x/#"), 1, 0).unwrap();
    r.subscribe(&b("x/y"), 2, 1).unwrap();
    r.unsubscribe(&b("x/+"), 1);
    r.unsubscribe(&b("nothing"), 1);
    assert_eq!(r.matching_subscribers(&b("x/y")), vec![(1, 0), (2, 1)]);
    r.drop_connection(1);
    assert_eq!(r.matching_subscribers(&b("x/y")), vec![(2, 1)]);
}

#[test]
fn publish_without_subscribers() {
    let mut d = Distributor::new(2, 4, 2);
    let a = d.register_connection().unwrap();
    assert_eq!(d.subscribe(a, &b("other"), 1), Ok(()));
    assert_eq!(d.publish(&b("t"), &b("p"), 0), Ok(()));
    assert_eq!(d.queue_len(a), 0);
    assert_eq!(d.queue_len(1), 0);
}

#[test]
fn publish_message_too_long() {
    let mut d = Distributor::new(2, 4, 2);
    let a = d.register_connection().unwrap();
    d.subscribe(a, &b("t"), 1).unwrap();
    let big = vec![0u8; MAX_MESSAGE_LEN + 1];
    assert_eq!(d.publish(&b("t"), &big, 0), Err(DistributorError::MessageTooLong));
    assert_eq!(d.queue_len(a), 0);
    let fits = vec![0u8; MAX_MESSAGE_LEN];
    assert_eq!(d.publish(&b("t"), &fits, 0), Ok(()));
    assert_eq!(d.queue_len(a), 1);
}

#[test]
fn publish_bad_topic() {
    let mut d = Distributor::new(1, 4, 2);
    assert_eq!(d.publish(&b("a/+"), &b("p"), 0), Err(DistributorError::TopicTooLong));
    assert_eq!(
        d.publish(&vec![b'a'; MAX_TOPIC_LEN + 1], &b("p"), 0),
        Err(DistributorError::TopicTooLong)
    );
}

#[test]
fn full_queue_does_not_block_others() {
    let mut d = Distributor::new(2, 4, 1);
    let a = d.register_connection().unwrap();
    let c = d.register_connection().unwrap();
    d.subscribe(a, &b("t"), 1).unwrap();
    d.subscribe(c, &b("t"), 1).unwrap();
    assert_eq!(d.publish(&b("t"), &b("one"), 1), Ok(()));
    let got = d.drain_outgoing(c);
    assert_eq!(got.len(), 1);
    assert_eq!(d.publish(&b("t"), &b("two"), 1), Err(DistributorError::QueueFull));
    assert_eq!(d.queue_len(a), 1);
    let got = d.drain_outgoing(c);
    assert_eq!(got.len(), 1);
    assert_eq!(got[0].payload, b("two"));
    let got = d.drain_outgoing(a);
    assert_eq!(got.len(), 1);
    assert_eq!(got[0].payload, b("one"));
}

#[test]
fn delivered_qos_is_the_lower_one() {
    let mut d = Distributor::new(1, 4, 4);
    let a = d.register_connection().unwrap();
    d.subscribe(a, &b("q"), 1).unwrap();
    d.publish(&b("q"), &b("x"), 2).unwrap();
    d.publish(&b("q"), &b("y"), 0).unwrap();
    let got = d.drain_outgoing(a);
    assert_eq!(got[0].qos, 1);
    assert_eq!(got[1].qos, 0);
    assert_eq!(d.drain_outgoing(a).len(), 0);
}

#[test]
fn release_clears_subscriptions_and_slot() {
    let mut d = Distributor::new(1, 4, 4);
    let a = d.register_connection().unwrap();
    d.subscribe(a, &b("s/#"), 1).unwrap();
    d.publish(&b("s/1"), &b("x"), 0).unwrap();
    assert_eq!(d.register_connection(), Err(DistributorError::Unknown));
    d.release_connection(a);
    assert!(!d.is_live(a));
    assert_eq!(d.queue_len(a), 0);
    assert_eq!(d.matching_subscribers(&b("s/1")), vec![]);
    assert_eq!(d.register_connection(), Ok(a));
    assert_eq!(d.publish(&b("s/1"), &b("x"), 0), Ok(()));
    assert_eq!(d.queue_len(a), 0);
}

#[test]
fn subscribe_needs_live_slot() {
    let mut d = Distributor::new(2, 4, 4);
    assert_eq!(d.subscribe(0, &b("a"), 0), Err(DistributorError::Unknown));
    assert_eq!(d.subscribe(7, &b("a"), 0), Err(DistributorError::Unknown));
    let a = d.register_connection().unwrap();
    assert_eq!(d.subscribe(a, &b("a/#/b"), 0), Err(DistributorError::TopicTooLong));
}

#[test]
fn registry_exhaustion_is_queue_full() {
    let mut d = Distributor::new(1, 1, 4);
    let a = d.register_connection().unwrap();
    d.subscribe(a, &b("a"), 0).unwrap();
    assert_eq!(d.subscribe(a, &b("b"), 0), Err(DistributorError::QueueFull));
}

#[test]
fn disconnect_reason_table() {
    let table = [
        (DistributorError::TopicTooLong, DisconnectReasonCode::TopicNameInvalid, 0x90u8),
        (DistributorError::MessageTooLong, DisconnectReasonCode::PacketTooLarge, 0x95),
        (DistributorError::QueueFull, DisconnectReasonCode::ReceiveMaximumExceeded, 0x93),
        (DistributorError::UnexpectedPacket, DisconnectReasonCode::ProtocolError, 0x82),
        (DistributorError::Unknown, DisconnectReasonCode::UnspecifiedError, 0x80),
    ];
    for (e, reason, code) in table {
        assert_eq!(DisconnectReasonCode::from(e), reason);
        assert_eq!(DisconnectReasonCode::from(e).code(), code);
    }
    assert_eq!(DisconnectReasonCode::KeepAliveTimeout.code(), 0x8d);
}

#[test]
fn topics_error_conversion() {
    assert_eq!(DistributorError::from(TopicsError::TopicTooLong), DistributorError::TopicTooLong);
    assert_eq!(DistributorError::from(TopicsError::Full), DistributorError::QueueFull);
}

#[test]
fn codec_error_fatality() {
    assert!(!MqttCodecError::Incomplete.is_fatal());
    assert!(MqttCodecError::Invalid.is_fatal());
    assert!(MqttCodecError::InvalidLength.is_fatal());
    assert!(MqttCodecError::BufferTooSmall.is_fatal());
    assert!(MqttCodecError::ConnectionReset.is_fatal());
}

#[test]
fn end_to_end_fan_out() {
    let mut d = Distributor::new(3, 8, 4);
    let (mut a, slot_a) = connected(&mut d);
    let (mut pub_b, _) = connected(&mut d);
    let (mut c, _) = connected(&mut d);
    assert_eq!(a.handle(&mut d, subscribe("sensors/+/temp", 1)), SessionAction::SendSubAck);
    assert_eq!(c.handle(&mut d, subscribe("sensors/room1/humidity", 1)), SessionAction::SendSubAck);
    assert_eq!(pub_b.handle(&mut d, publish("sensors/room1/temp", "21.5", 0)), SessionAction::Nothing);
    let got = a.take_outgoing(&mut d);
    assert_eq!(got.len(), 1);
    assert_eq!(got[0].topic, b("sensors/room1/temp"));
    assert_eq!(got[0].payload, b("21.5"));
    assert_eq!(c.take_outgoing(&mut d).len(), 0);
    assert_eq!(d.queue_len(slot_a), 0);
}

#[test]
fn packet_before_connect_is_protocol_error() {
    let mut d = Distributor::new(1, 4, 4);
    let mut s = Session::new();
    assert_eq!(
        s.handle(&mut d, SessionEvent::Packet(IncomingPacket::PingReq)),
        SessionAction::SendDisconnect(DisconnectReasonCode::ProtocolError)
    );
    assert_eq!(s.state(), SessionState::Closing(DisconnectReasonCode::ProtocolError));
    s.finish();
    assert_eq!(s.state(), SessionState::Closed);
    assert_eq!(s.handle(&mut d, publish("a", "b", 0)), SessionAction::Nothing);
    assert!(!d.is_live(0));
}

#[test]
fn connect_without_free_slot() {
    let mut d = Distributor::new(1, 4, 4);
    let (_first, _) = connected(&mut d);
    let mut s = Session::new();
    assert_eq!(
        s.handle(&mut d, SessionEvent::Packet(IncomingPacket::Connect)),
        SessionAction::SendDisconnect(DisconnectReasonCode::UnspecifiedError)
    );
}

#[test]
fn established_session_events() {
    let mut d = Distributor::new(2, 4, 4);
    let (mut s, slot) = connected(&mut d);
    assert_eq!(s.handle(&mut d, SessionEvent::Packet(IncomingPacket::PingReq)), SessionAction::SendPingResp);
    assert_eq!(s.handle(&mut d, SessionEvent::Codec(MqttCodecError::Incomplete)), SessionAction::Nothing);
    assert_eq!(s.handle(&mut d, subscribe("a", 0)), SessionAction::SendSubAck);
    assert_eq!(
        s.handle(&mut d, SessionEvent::Packet(IncomingPacket::Unsubscribe { filter: b("a") })),
        SessionAction::SendUnsubAck
    );
    assert_eq!(d.matching_subscribers(&b("a")), vec![]);
    assert_eq!(s.handle(&mut d, subscribe("a", 0)), SessionAction::SendSubAck);
    assert_eq!(
        s.handle(&mut d, SessionEvent::Packet(IncomingPacket::Connect)),
        SessionAction::SendDisconnect(DisconnectReasonCode::ProtocolError)
    );
    assert!(!d.is_live(slot));
    assert_eq!(d.matching_subscribers(&b("a")), vec![]);
}

#[test]
fn session_failures_release_the_slot() {
    let mut d = Distributor::new(1, 4, 4);
    let (mut s, slot) = connected(&mut d);
    assert_eq!(
        s.handle(&mut d, publish("t", &"x".repeat(MAX_MESSAGE_LEN + 1), 0)),
        SessionAction::SendDisconnect(DisconnectReasonCode::PacketTooLarge)
    );
    assert!(!d.is_live(slot));

    let (mut s, slot) = connected(&mut d);
    assert_eq!(
        s.handle(&mut d, SessionEvent::Codec(MqttCodecError::Invalid)),
        SessionAction::SendDisconnect(DisconnectReasonCode::ProtocolError)
    );
    assert!(!d.is_live(slot));

    let (mut s, slot) = connected(&mut d);
    assert_eq!(
        s.handle(&mut d, SessionEvent::KeepAliveExpired),
        SessionAction::SendDisconnect(DisconnectReasonCode::KeepAliveTimeout)
    );
    assert!(!d.is_live(slot));

    let (mut s, slot) = connected(&mut d);
    assert_eq!(s.handle(&mut d, SessionEvent::Codec(MqttCodecError::ConnectionReset)), SessionAction::CloseTransport);
    assert_eq!(s.state(), SessionState::Closed);
    assert!(!d.is_live(slot));

    let (mut s, slot) = connected(&mut d);
    assert_eq!(s.handle(&mut d, SessionEvent::Packet(IncomingPacket::Disconnect)), SessionAction::CloseTransport);
    assert!(!d.is_live(slot));
}

#[test]
fn default_distributor_limits() {
    let mut d = Distributor::default();
    for i in 0..MAX_CONNECTIONS {
        assert_eq!(d.register_connection(), Ok(i));
    }
    assert_eq!(d.register_connection(), Err(DistributorError::Unknown));
    d.subscribe(3, &b("q"), 0).unwrap();
    for _ in 0..QUEUE_DEPTH {
        assert_eq!(d.publish(&b("q"), &b("m"), 0), Ok(()));
    }
    assert_eq!(d.publish(&b("q"), &b("m"), 0), Err(DistributorError::QueueFull));
    assert_eq!(d.queue_len(3), QUEUE_DEPTH);
}

#[test]
fn distributor_error_messages() {
    assert_eq!(DistributorError::TopicTooLong.message(), "Topic too long");
    assert_eq!(DistributorError::MessageTooLong.message(), "Message too long");
    assert_eq!(DistributorError::QueueFull.message(), "Queue full");
    assert_eq!(DistributorError::UnexpectedPacket.message(), "Unexpected packet");
    assert_eq!(DistributorError::Unknown.message(), "Unknown error");
}
