//! Frame encoder and channel receiver tests: chunking, reordering,
//! deduplication, the memory limit, and in-order delivery.

use fastnet::frame::FrameEncoder;
use fastnet::packets::{DataPacket, DataPacketBuilder, FrameHeader, Packet};
use fastnet::receiver::DataPacketHandler;

fn collect(mut enc: FrameEncoder) -> Vec<Packet> {
    let mut out = Vec::new();
    while let Some(p) = enc.next() {
        out.push(p);
    }
    out
}

fn data_packets(payload: Vec<u8>, chan: i16, sn: u64, lrf: u64, reliable: bool) -> Vec<DataPacket> {
    collect(FrameEncoder::new(payload, chan, sn, lrf, reliable))
        .into_iter()
        .map(|p| match p {
            Packet::Data { packet, .. } => packet,
            _ => panic!("frame encoder produced a non-data packet"),
        })
        .collect()
}

#[test]
fn test_frames() {
    let test_data: Vec<u8> = vec![1u8; 1000];
    // channel 100, start at sn 3, last reliable is 1.
    let got_packets = collect(FrameEncoder::new(test_data.clone(), 100, 3, 1, false));
    let expected_packets = vec![
        Packet::Data {
            chan: 100,
            packet: DataPacketBuilder::with_payload_and_header(
                3,
                vec![1u8; 500],
                Some(FrameHeader { length: 1012, last_reliable_frame: 1 }),
            )
            .build(),
        },
        Packet::Data {
            chan: 100,
            packet: DataPacketBuilder::with_payload(4, vec![1u8; 500]).set_frame_end(true).build(),
        },
    ];
    assert_eq!(got_packets, expected_packets);
    let got_packets = collect(FrameEncoder::new(test_data, 100, 3, 1, true));
    let expected_packets = vec![
        Packet::Data {
            chan: 100,
            packet: DataPacketBuilder::with_payload_and_header(
                3,
                vec![1u8; 500],
                Some(FrameHeader { length: 1012, last_reliable_frame: 1 }),
            )
            .set_reliable(true)
            .build(),
        },
        Packet::Data {
            chan: 100,
            packet: DataPacketBuilder::with_payload(4, vec![1u8; 500])
                .set_reliable(true)
                .set_frame_end(true)
                .build(),
        },
    ];
    assert_eq!(got_packets, expected_packets);
}

#[test]
fn test_frame_flags_and_sequence_numbers() {
    let payload: Vec<u8> = (0..1100u32).map(|i| (i % 251) as u8).collect();
    let packets = data_packets(payload.clone(), 4, 10, 0, true);
    assert_eq!(packets.len(), 3);
    let mut reassembled = Vec::new();
    for (k, dp) in packets.iter().enumerate() {
        assert_eq!(dp.sequence_number, 10 + k as u64);
        assert_eq!(dp.is_frame_start(), k == 0);
        assert_eq!(dp.is_frame_end(), k == 2);
        assert!(dp.is_reliable());
        assert_eq!(dp.header.is_some(), k == 0);
        reassembled.extend_from_slice(&dp.payload);
    }
    assert_eq!(reassembled, payload);
    assert_eq!(packets[0].header.unwrap().length, 12 + 1100);
}

#[test]
fn test_empty_payload_single_packet() {
    let packets = data_packets(Vec::new(), 0, 1, 0, false);
    assert_eq!(packets.len(), 1);
    assert!(packets[0].is_frame_start());
    assert!(packets[0].is_frame_end());
    assert!(packets[0].payload.is_empty());
    assert_eq!(packets[0].header.unwrap().length, 12);
}

#[test]
fn test_collect_packets_matches_next() {
    let payload: Vec<u8> = vec![9u8; 750];
    let enc = FrameEncoder::new(payload.clone(), 2, 5, 1, true);
    let collected = enc.collect_packets();
    let stepped = collect(FrameEncoder::new(payload, 2, 5, 1, true));
    assert_eq!(collected, stepped);
}

#[test]
fn test_reliable_reordering() {
    // A 1,200-byte reliable message over channel 7 starting at sn 3 with
    // lastReliableFrame 1, ingested in the order [5, 3, 4].
    let payload: Vec<u8> = (0..1200u32).map(|i| (i % 256) as u8).collect();
    let packets = data_packets(payload.clone(), 7, 3, 1, true);
    assert_eq!(packets.len(), 3);
    assert_eq!(packets[0].payload.len(), 500);
    assert_eq!(packets[2].payload.len(), 200);

    let mut rx = DataPacketHandler::new(7);
    rx.ignore_number = 2;
    rx.last_reliable_frame = 1;

    // sn 5 alone: no ack, no delivery.
    assert!(rx.handle_incoming_packet(packets[2].clone()).is_none());
    assert!(rx.do_acks().is_empty());
    assert!(rx.deliver().is_empty());

    // sn 3: ack 3; delivery still blocked on 4.
    assert!(rx.handle_incoming_packet(packets[0].clone()).is_none());
    let acks = rx.do_acks();
    assert_eq!(acks, vec![Packet::Ack { chan: 7, sequence_number: 3 }]);
    assert!(rx.deliver().is_empty());

    // sn 4: acks 4 and 5, then the full 1,200 bytes come out.
    assert!(rx.handle_incoming_packet(packets[1].clone()).is_none());
    let acks = rx.do_acks();
    assert_eq!(
        acks,
        vec![
            Packet::Ack { chan: 7, sequence_number: 4 },
            Packet::Ack { chan: 7, sequence_number: 5 },
        ]
    );
    let frames = rx.deliver();
    assert_eq!(frames.len(), 1);
    assert_eq!(frames[0], payload);
    assert_eq!(rx.last_reliable_frame, 3);
}

#[test]
fn test_permutation_with_duplicates_delivers_once() {
    let payload: Vec<u8> = (0..1400u32).map(|i| (i % 200) as u8).collect();
    let packets = data_packets(payload.clone(), 1, 1, 0, true);
    assert_eq!(packets.len(), 3);
    let order = [1usize, 0, 0, 2, 1];
    let mut rx = DataPacketHandler::new(1);
    let mut delivered = Vec::new();
    for &k in order.iter() {
        rx.handle_incoming_packet(packets[k].clone());
        rx.do_acks();
        delivered.extend(rx.deliver());
    }
    assert_eq!(delivered.len(), 1);
    assert_eq!(delivered[0], payload);
}

#[test]
fn test_prefix_yields_no_delivery() {
    let payload: Vec<u8> = vec![3u8; 900];
    let packets = data_packets(payload, 1, 1, 0, true);
    let mut rx = DataPacketHandler::new(1);
    rx.handle_incoming_packet(packets[0].clone());
    rx.do_acks();
    assert!(rx.deliver().is_empty());
}

#[test]
fn test_every_distinct_sequence_number_acked_once() {
    // Three single-packet reliable frames; a duplicate re-acks but is not
    // delivered again.
    let mut rx = DataPacketHandler::new(2);
    let mut all_acks: Vec<u64> = Vec::new();
    let mut deliveries = 0;
    let mut lrf = 0u64;
    for sn in 1..=3u64 {
        let packets = data_packets(vec![sn as u8; 10], 2, sn, lrf, true);
        assert_eq!(packets.len(), 1);
        if let Some(ack) = rx.handle_incoming_packet(packets[0].clone()) {
            if let Packet::Ack { sequence_number, .. } = ack {
                all_acks.push(sequence_number);
            }
        }
        for ack in rx.do_acks() {
            if let Packet::Ack { sequence_number, .. } = ack {
                all_acks.push(sequence_number);
            }
        }
        deliveries += rx.deliver().len();
        lrf = sn;
    }
    assert_eq!(all_acks, vec![1, 2, 3]);
    assert_eq!(deliveries, 3);

    // A duplicate of sn 2 draws one more ack and no delivery.
    let dup = data_packets(vec![2u8; 10], 2, 2, 1, true).remove(0);
    let re_ack = rx.handle_incoming_packet(dup);
    assert_eq!(re_ack, Some(Packet::Ack { chan: 2, sequence_number: 2 }));
    assert!(rx.do_acks().is_empty());
    assert!(rx.deliver().is_empty());
}

#[test]
fn test_memory_limit_holds_and_reliable_evicts_unreliable() {
    let mut rx = DataPacketHandler::new(3);
    rx.limit = 1000;
    // An unreliable packet fills most of the buffer.
    let unreliable = DataPacketBuilder::with_payload(10, vec![1u8; 800]).build();
    assert!(rx.handle_incoming_packet(unreliable).is_none());
    assert_eq!(rx.contained_payload, 800);
    // An unreliable packet that does not fit is dropped.
    let dropped = DataPacketBuilder::with_payload(11, vec![2u8; 300]).build();
    rx.handle_incoming_packet(dropped);
    assert_eq!(rx.contained_payload, 800);
    // A reliable packet that does not fit evicts the unreliable one.
    let reliable = DataPacketBuilder::with_payload(12, vec![3u8; 900])
        .set_reliable(true)
        .build();
    rx.handle_incoming_packet(reliable);
    assert!(rx.contained_payload <= rx.limit);
    assert_eq!(rx.contained_payload, 900);
    assert_eq!(rx.acked_packets.len(), 0);
    assert_eq!(rx.unacked_packets.len(), 1);
}
