//! Tests of the retransmit manager, the roundtrip estimator, the status
//! responders, the connection handshake, and the endpoint routing.

use fastnet::ack::AckManager;
use fastnet::codec::encode_datagram;
use fastnet::connection::{Connection, ConnectionState, Error, Event};
use fastnet::endpoint::{Endpoint, Outgoing, PeerAddress};
use fastnet::estimator::RoundtripEstimator;
use fastnet::packets::{DataPacketBuilder, Packet, StatusRequest, StatusResponse, Uuid};
use fastnet::responders::{ConnectionResponder, EchoResponder, HeartbeatResponder};
use fastnet::status::{translate, StatusHandler, StatusResponder};

fn reliable_data(chan: i16, sn: u64) -> Packet {
    Packet::Data {
        chan,
        packet: DataPacketBuilder::with_payload(sn, vec![1u8; 20]).set_reliable(true).build(),
    }
}

#[test]
fn test_retransmit_backoff() {
    let mut mgr = AckManager::new();
    assert!(mgr.submit_packet(reliable_data(4, 9), 0));
    // Nothing is due before 100 ms.
    assert!(mgr.iter_needs_ack(99).is_empty());
    // At about 100 ms it retransmits; then about 110 ms later; then 121.
    let due = mgr.iter_needs_ack(100);
    assert_eq!(due.len(), 1);
    assert_eq!(due[0], reliable_data(4, 9));
    assert!(mgr.iter_needs_ack(209).is_empty());
    assert_eq!(mgr.iter_needs_ack(210).len(), 1);
    assert!(mgr.iter_needs_ack(330).is_empty());
    assert_eq!(mgr.iter_needs_ack(331).len(), 1);
}

#[test]
fn test_ack_clears_retransmission() {
    let mut mgr = AckManager::new();
    assert!(mgr.submit_packet(reliable_data(4, 9), 0));
    assert!(mgr.submit_packet(Packet::Ack { chan: 4, sequence_number: 9 }, 50));
    assert!(mgr.iter_needs_ack(10_000).is_empty());
    // Packets the manager does not track are declined.
    assert!(!mgr.submit_packet(Packet::Heartbeat { counter: 0, sent: 0, received: 0 }, 0));
}

#[test]
fn test_unreliable_data_never_tracked() {
    let mut mgr = AckManager::new();
    let unreliable = Packet::Data {
        chan: 4,
        packet: DataPacketBuilder::with_payload(9, vec![1u8; 20]).build(),
    };
    assert!(!mgr.submit_packet(unreliable, 0));
    assert!(mgr.packets.is_empty());
    assert!(mgr.iter_needs_ack(10_000).is_empty());
}

#[test]
fn test_closing_finishes_on_tick() {
    let mut a = Endpoint::new(StatusResponder::new(true, b"1.0".to_vec(), Vec::new()));
    let bytes = encode_datagram(&Packet::Connect(Uuid { hi: 2, lo: 2 })).unwrap();
    a.handle_datagram(bytes, addr(9), 0);
    let local = a.connections[0].1.local_id;
    a.disconnect(local, 8);
    let (_, events) = a.tick200(0);
    assert!(events.is_empty());
    assert!(matches!(a.connections[0].1.state, ConnectionState::Closed));
}

#[test]
fn test_echo_rtt_single_estimate() {
    let endpoint_id = Uuid { hi: 5, lo: 6 };
    let mut est = RoundtripEstimator::new(5);
    let echoes = est.tick(0, endpoint_id);
    assert_eq!(echoes.len(), 5);
    let mut estimates = Vec::new();
    for echo in &echoes {
        match echo {
            Packet::Echo { endpoint, probe } => {
                assert_eq!(*endpoint, endpoint_id);
                if let Some(e) = est.handle_echo(*probe, 40) {
                    estimates.push(e);
                }
            }
            _ => panic!("estimator issued a non-echo packet"),
        }
    }
    assert_eq!(estimates, vec![40]);
    assert_eq!(est.get_last_estimate(), Some(40));
    assert_eq!(est.estimation.len(), 0);
}

#[test]
fn test_stale_probes_dropped() {
    let endpoint_id = Uuid { hi: 5, lo: 6 };
    let mut est = RoundtripEstimator::new(5);
    let first = est.tick(0, endpoint_id);
    assert_eq!(first.len(), 5);
    // Five seconds later the outstanding probes age out and fresh ones go out.
    let second = est.tick(5000, endpoint_id);
    assert_eq!(second.len(), 5);
    assert_eq!(est.expected_echoes.len(), 5);
    for (_, sent) in est.expected_echoes.iter() {
        assert_eq!(*sent, 5000);
    }
}

#[test]
fn test_translate() {
    assert_eq!(
        translate(&StatusRequest::FastnetQuery),
        StatusResponse::FastnetResponse(true)
    );
    assert_eq!(
        translate(&StatusRequest::VersionQuery),
        StatusResponse::VersionResponse(b"1.0".to_vec())
    );
    assert_eq!(
        translate(&StatusRequest::ExtensionQuery(b"test_atest".to_vec())),
        StatusResponse::ExtensionResponse { name: b"test_atest".to_vec(), supported: false }
    );
}

#[test]
fn test_status_responder() {
    let responder =
        StatusResponder::new(true, b"1.0".to_vec(), vec![b"test_atest".to_vec()]);
    let answer = responder
        .handle_incoming_packet_connectionless(&Packet::StatusRequest(
            StatusRequest::ExtensionQuery(b"test_atest".to_vec()),
        ))
        .unwrap();
    assert_eq!(
        answer,
        Packet::StatusResponse(StatusResponse::ExtensionResponse {
            name: b"test_atest".to_vec(),
            supported: true,
        })
    );
    let unknown = responder
        .handle_incoming_packet_connectionless(&Packet::StatusRequest(
            StatusRequest::ExtensionQuery(b"other".to_vec()),
        ))
        .unwrap();
    assert_eq!(
        unknown,
        Packet::StatusResponse(StatusResponse::ExtensionResponse {
            name: b"other".to_vec(),
            supported: false,
        })
    );
    assert!(responder
        .handle_incoming_packet_connectionless(&Packet::Connect(Uuid { hi: 1, lo: 2 }))
        .is_none());
}

#[test]
fn test_status_handler() {
    let handler = StatusHandler::new(true, b"1.0".to_vec(), Vec::new());
    let answer = handler
        .handle_incoming_packet_always(&Packet::StatusRequest(StatusRequest::FastnetQuery))
        .unwrap();
    assert_eq!(answer, Packet::StatusResponse(StatusResponse::FastnetResponse(true)));
}

#[test]
fn test_small_responders() {
    let local = Uuid { hi: 1, lo: 2 };
    let conn = ConnectionResponder::new();
    assert_eq!(
        conn.handle_incoming_packet_connectionless(&Packet::Connect(Uuid { hi: 9, lo: 9 }), local),
        Some(Packet::Connected(local))
    );
    let echo = EchoResponder::new();
    let probe = Packet::Echo { endpoint: Uuid { hi: 3, lo: 4 }, probe: Uuid { hi: 5, lo: 6 } };
    assert_eq!(echo.handle_incoming_packet(&probe), Some(probe.clone()));
    let heartbeat = HeartbeatResponder::new();
    assert!(heartbeat.handle_incoming_packet(&Packet::Heartbeat {
        counter: 1,
        sent: 2,
        received: 5
    }));
    assert!(!heartbeat.handle_incoming_packet(&probe));
}

fn addr(n: u16) -> PeerAddress {
    PeerAddress { ip: 0x7f000001, port: n }
}

/// Carries every pending datagram between the two endpoints until both
/// sides fall silent; returns the callbacks each side reported.
fn pump(
    a: &mut Endpoint,
    addr_a: PeerAddress,
    b: &mut Endpoint,
    addr_b: PeerAddress,
    initial_from_b: Vec<Outgoing>,
) -> (Vec<Event>, Vec<Event>) {
    let mut a_events = Vec::new();
    let mut b_events = Vec::new();
    let mut to_a: Vec<Outgoing> = initial_from_b;
    let mut to_b: Vec<Outgoing> = Vec::new();
    for _ in 0..32 {
        if to_a.is_empty() && to_b.is_empty() {
            break;
        }
        for out in to_a.drain(..) {
            assert_eq!(out.to, addr_a);
            let bytes = encode_datagram(&out.packet).unwrap();
            let (sends, events) = a.handle_datagram(bytes, addr_b, 0);
            a_events.extend(events);
            to_b.extend(sends);
        }
        for out in to_b.drain(..) {
            assert_eq!(out.to, addr_b);
            let bytes = encode_datagram(&out.packet).unwrap();
            let (sends, events) = b.handle_datagram(bytes, addr_a, 0);
            b_events.extend(events);
            to_a.extend(sends);
        }
    }
    (a_events, b_events)
}

#[test]
fn test_handshake_success() {
    let mut a = Endpoint::new(StatusResponder::new(true, b"1.0".to_vec(), Vec::new()));
    let mut b = Endpoint::new(StatusResponder::new(false, b"1.0".to_vec(), Vec::new()));
    let (to_a, start_events) = b.connect(addr(1), 42);
    assert!(start_events.is_empty());
    assert_eq!(to_a.len(), 1);
    let (a_events, b_events) = pump(&mut a, addr(1), &mut b, addr(2), to_a);
    assert!(a_events.is_empty());
    assert_eq!(b_events.len(), 1);
    match &b_events[0] {
        Event::Connected(_, request_id) => assert_eq!(*request_id, Some(42)),
        other => panic!("expected a connected event, got {:?}", other),
    }
    assert!(matches!(b.connections[0].1.state, ConnectionState::Established));
    // Neither side's heartbeat counters reflect the handshake packets.
    assert_eq!(b.connections[0].1.sent_packets, 0);
    assert_eq!(b.connections[0].1.received_packets, 0);
    assert!(matches!(a.connections[0].1.state, ConnectionState::Established));
    assert_eq!(a.connections[0].1.sent_packets, 0);
}

#[test]
fn test_version_mismatch_fails_once() {
    let mut a = Endpoint::new(StatusResponder::new(true, b"2.0".to_vec(), Vec::new()));
    let mut b = Endpoint::new(StatusResponder::new(false, b"1.0".to_vec(), Vec::new()));
    let (to_a, _) = b.connect(addr(1), 42);
    let (_, b_events) = pump(&mut a, addr(1), &mut b, addr(2), to_a);
    assert_eq!(b_events, vec![Event::RequestFailed(42, Error::IncompatibleVersions)]);
    assert!(matches!(b.connections[0].1.state, ConnectionState::Closed));
}

#[test]
fn test_handshake_times_out() {
    let mut b = Endpoint::new(StatusResponder::new(false, b"1.0".to_vec(), Vec::new()));
    let (_, _) = b.connect(addr(1), 42);
    let mut failures = Vec::new();
    for tick in 0..45u64 {
        let (_, events) = b.tick200(tick * 200);
        failures.extend(events);
    }
    assert_eq!(failures, vec![Event::RequestFailed(42, Error::TimedOut)]);
    assert!(matches!(b.connections[0].1.state, ConnectionState::Closed));
}

#[test]
fn test_connectionless_status_query() {
    let mut a = Endpoint::new(StatusResponder::new(
        true,
        b"1.0".to_vec(),
        vec![b"test_atest".to_vec()],
    ));
    let query = Packet::StatusRequest(StatusRequest::ExtensionQuery(b"test_atest".to_vec()));
    let bytes = encode_datagram(&query).unwrap();
    let (sends, events) = a.handle_datagram(bytes, addr(9), 0);
    assert!(events.is_empty());
    assert_eq!(sends.len(), 1);
    assert_eq!(sends[0].to, addr(9));
    assert_eq!(
        sends[0].packet,
        Packet::StatusResponse(StatusResponse::ExtensionResponse {
            name: b"test_atest".to_vec(),
            supported: true,
        })
    );
}

#[test]
fn test_corrupted_datagram_dropped() {
    let mut a = Endpoint::new(StatusResponder::new(true, b"1.0".to_vec(), Vec::new()));
    let query = Packet::StatusRequest(StatusRequest::FastnetQuery);
    let mut bytes = encode_datagram(&query).unwrap();
    bytes[5] ^= 0x40;
    let (sends, events) = a.handle_datagram(bytes, addr(9), 0);
    assert!(sends.is_empty());
    assert!(events.is_empty());
}

#[test]
fn test_connect_creates_connection_and_replies() {
    let mut a = Endpoint::new(StatusResponder::new(true, b"1.0".to_vec(), Vec::new()));
    let remote = Uuid { hi: 11, lo: 22 };
    let bytes = encode_datagram(&Packet::Connect(remote)).unwrap();
    let (sends, _) = a.handle_datagram(bytes, addr(9), 0);
    assert_eq!(sends.len(), 1);
    assert_eq!(a.connections.len(), 1);
    assert_eq!(a.connections[0].1.remote_id, remote);
    let local = a.connections[0].1.local_id;
    assert_eq!(sends[0].packet, Packet::Connected(local));
    // A second connect from the same address re-announces the existing id.
    let bytes = encode_datagram(&Packet::Connect(remote)).unwrap();
    let (sends, _) = a.handle_datagram(bytes, addr(9), 0);
    assert_eq!(a.connections.len(), 1);
    assert_eq!(sends[0].packet, Packet::Connected(local));
}

#[test]
fn test_disconnect() {
    let mut a = Endpoint::new(StatusResponder::new(true, b"1.0".to_vec(), Vec::new()));
    let events = a.disconnect(Uuid { hi: 1, lo: 1 }, 7);
    assert_eq!(events, vec![Event::RequestFailed(7, Error::PeerNotFound)]);
    let bytes = encode_datagram(&Packet::Connect(Uuid { hi: 2, lo: 2 })).unwrap();
    a.handle_datagram(bytes, addr(9), 0);
    let local = a.connections[0].1.local_id;
    let events = a.disconnect(local, 8);
    assert_eq!(events, vec![Event::Disconnected(local, Some(8))]);
    assert!(matches!(
        a.connections[0].1.state,
        ConnectionState::Closing { request_id: Some(8) }
    ));
}

#[test]
fn test_established_heartbeat_tick() {
    let mut a = Endpoint::new(StatusResponder::new(true, b"1.0".to_vec(), Vec::new()));
    let bytes = encode_datagram(&Packet::Connect(Uuid { hi: 2, lo: 2 })).unwrap();
    a.handle_datagram(bytes, addr(9), 0);
    let (sends, _) = a.tick1000(1000);
    assert!(sends.iter().any(|o| matches!(
        o.packet,
        Packet::Heartbeat { counter: 0, .. }
    )));
    let (sends, _) = a.tick1000(2000);
    assert!(sends.iter().any(|o| matches!(
        o.packet,
        Packet::Heartbeat { counter: 1, .. }
    )));
}

#[test]
fn test_echo_is_returned_by_connection() {
    let mut conn = Connection::from_connection_request(Uuid { hi: 1, lo: 1 }, Uuid { hi: 2, lo: 2 });
    let probe = Packet::Echo { endpoint: Uuid { hi: 9, lo: 9 }, probe: Uuid { hi: 3, lo: 3 } };
    let (consumed, events) = conn.handle_incoming_packet(&probe, 0);
    assert!(consumed);
    assert_eq!(events, vec![Event::Transmit(probe)]);
}

#[test]
fn test_not_listening_fails_once() {
    let mut a = Endpoint::new(StatusResponder::new(false, b"1.0".to_vec(), Vec::new()));
    let mut b = Endpoint::new(StatusResponder::new(false, b"1.0".to_vec(), Vec::new()));
    let (to_a, _) = b.connect(addr(1), 42);
    let (_, b_events) = pump(&mut a, addr(1), &mut b, addr(2), to_a);
    assert_eq!(b_events, vec![Event::RequestFailed(42, Error::NotListening)]);
    assert!(matches!(b.connections[0].1.state, ConnectionState::Closed));
}

#[test]
fn test_aborted_fails_once() {
    let mut conn = Connection::new(Uuid { hi: 1, lo: 1 });
    conn.establish(Some(7));
    // Walk the handshake past the status phase by hand.
    conn.handle_incoming_packet(&Packet::StatusResponse(StatusResponse::FastnetResponse(true)), 0);
    conn.handle_incoming_packet(
        &Packet::StatusResponse(StatusResponse::VersionResponse(b"1.0".to_vec())),
        0,
    );
    let (consumed, events) =
        conn.handle_incoming_packet(&Packet::Aborted(b"no room".to_vec()), 0);
    assert!(consumed);
    assert_eq!(events, vec![Event::RequestFailed(7, Error::ConnectionAborted)]);
    assert!(matches!(conn.state, ConnectionState::Closed));
}

#[test]
fn test_send_message_frames_and_tracks() {
    let mut conn = Connection::from_connection_request(Uuid { hi: 1, lo: 1 }, Uuid { hi: 2, lo: 2 });
    let payload: Vec<u8> = (0..1200u32).map(|i| (i % 256) as u8).collect();
    let events = conn.send_message(7, payload.clone(), true, 0).unwrap();
    assert_eq!(events.len(), 3);
    let mut reassembled = Vec::new();
    for (k, event) in events.iter().enumerate() {
        match event {
            Event::Transmit(Packet::Data { chan, packet }) => {
                assert_eq!(*chan, 7);
                assert_eq!(packet.sequence_number, 1 + k as u64);
                assert!(packet.is_reliable());
                reassembled.extend_from_slice(&packet.payload);
            }
            other => panic!("expected a data transmission, got {:?}", other),
        }
    }
    assert_eq!(reassembled, payload);
    // All three packets wait for their acks.
    assert_eq!(conn.ack_manager.packets.len(), 3);
    // A second reliable message continues the sequence and names the first
    // frame in its header.
    let events = conn.send_message(7, vec![1u8; 10], true, 0).unwrap();
    match &events[0] {
        Event::Transmit(Packet::Data { packet, .. }) => {
            assert_eq!(packet.sequence_number, 4);
            assert_eq!(packet.header.unwrap().last_reliable_frame, 1);
        }
        other => panic!("expected a data transmission, got {:?}", other),
    }
}

#[test]
fn test_send_message_too_large() {
    let mut conn = Connection::from_connection_request(Uuid { hi: 1, lo: 1 }, Uuid { hi: 2, lo: 2 });
    // A channel number outside the wire's signed range is rejected.
    assert_eq!(
        conn.send_message(0x8000, vec![1u8; 4], false, 0),
        Err(Error::MessageTooLarge)
    );
}

#[test]
fn test_sent_messages_reach_the_receiver() {
    let mut sender =
        Connection::from_connection_request(Uuid { hi: 1, lo: 1 }, Uuid { hi: 2, lo: 2 });
    let mut receiver =
        Connection::from_connection_request(Uuid { hi: 2, lo: 2 }, Uuid { hi: 1, lo: 1 });
    let payload: Vec<u8> = (0..900u32).map(|i| (i % 100) as u8).collect();
    let events = sender.send_message(3, payload.clone(), true, 0).unwrap();
    let mut delivered = Vec::new();
    for event in events {
        if let Event::Transmit(packet) = event {
            let (consumed, out) = receiver.handle_incoming_packet(&packet, 0);
            assert!(consumed);
            for ev in out {
                match ev {
                    Event::IncomingMessage(_, chan, bytes) => {
                        assert_eq!(chan, 3);
                        delivered.push(bytes);
                    }
                    Event::Transmit(Packet::Ack { chan, sequence_number }) => {
                        assert_eq!(chan, 3);
                        sender
                            .ack_manager
                            .submit_packet(Packet::Ack { chan, sequence_number }, 0);
                    }
                    other => panic!("unexpected event {:?}", other),
                }
            }
        }
    }
    assert_eq!(delivered, vec![payload]);
    // Every packet was acknowledged: nothing is left to retransmit.
    assert_eq!(sender.ack_manager.packets.len(), 0);
}
