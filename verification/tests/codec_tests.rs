//! Wire-format tests: primitive encodings, packet round trips, the CRC
//! framing, and the exact bytes of the documented exchanges.

use fastnet::codec::{decode_datagram, decode_packet, encode_datagram, encode_packet};
use fastnet::packets::{
    DataPacketBuilder, FrameHeader, Packet, StatusRequest, StatusResponse, Uuid,
};
use fastnet::wire::{PacketDecodingError, PacketEncodingError, PacketReader, PacketWriter};

fn encode(p: &Packet) -> Vec<u8> {
    let mut buf = vec![0u8; 996];
    let n = encode_packet(p, &mut buf).expect("encoding failed");
    buf.truncate(n);
    buf
}

fn roundtrip(p: Packet) {
    let bytes = encode(&p);
    let decoded = decode_packet(bytes).expect("decoding failed");
    assert_eq!(decoded, p);
}

#[test]
fn test_writer_big_endian() {
    let mut w = PacketWriter::new(vec![0u8; 16]);
    w.write_u16(0x0102).unwrap();
    w.write_u32(0x03040506).unwrap();
    w.write_u64(0x0708090a0b0c0d0e).unwrap();
    assert_eq!(w.written(), 14);
    let buf = w.into_buffer();
    assert_eq!(
        &buf[..14],
        &[1, 2, 3, 4, 5, 6, 7, 8, 9, 0x0a, 0x0b, 0x0c, 0x0d, 0x0e]
    );
}

#[test]
fn test_writer_too_large() {
    let mut w = PacketWriter::new(vec![0u8; 1]);
    assert!(matches!(w.write_u16(7), Err(PacketEncodingError::TooLarge)));
    assert_eq!(w.written(), 0);
}

#[test]
fn test_reader_big_endian() {
    let mut r = PacketReader::new(vec![0xff, 0xfe, 0x12, 0x34, 0x56, 0x78]);
    assert_eq!(r.read_i16().unwrap(), -2);
    assert_eq!(r.read_u32().unwrap(), 0x12345678);
    assert_eq!(r.available(), 0);
    assert_eq!(r.read_count(), 6);
    assert!(matches!(r.read_u8(), Err(PacketDecodingError::TooSmall)));
}

#[test]
fn test_encode_status_request_packet() {
    let p = Packet::StatusRequest(StatusRequest::FastnetQuery);
    assert_eq!(encode(&p), vec![255, 255, 0, 0]);
}

#[test]
fn test_encode_status_response_packet() {
    let p = Packet::StatusResponse(StatusResponse::FastnetResponse(true));
    assert_eq!(encode(&p), vec![255, 255, 1, 0, 1]);
}

#[test]
fn test_encode_extension_response_bytes() {
    // The documented exchange: the body after the channel is
    // [01 02 't' 'e' 's' 't' '_' 'a' 't' 'e' 's' 't' 00 01].
    let p = Packet::StatusResponse(StatusResponse::ExtensionResponse {
        name: b"test_atest".to_vec(),
        supported: true,
    });
    let mut expected = vec![255, 255, 1, 2];
    expected.extend_from_slice(b"test_atest");
    expected.push(0);
    expected.push(1);
    assert_eq!(encode(&p), expected);
}

#[test]
fn test_encode_heartbeat_packet() {
    let p = Packet::Heartbeat { counter: 5, sent: 10, received: 15 };
    assert_eq!(
        encode(&p),
        vec![
            255, 254, 0, 0, 0, 0, 0, 0, 0, 5, 0, 0, 0, 0, 0, 0, 0, 10, 0, 0, 0, 0, 0, 0, 0, 15
        ]
    );
}

#[test]
fn test_roundtrip_all_variants() {
    let id_a = Uuid { hi: 0x0102030405060708, lo: 0x090a0b0c0d0e0f10 };
    let id_b = Uuid { hi: 0xfedcba9876543210, lo: 0x0123456789abcdef };
    roundtrip(Packet::StatusRequest(StatusRequest::FastnetQuery));
    roundtrip(Packet::StatusRequest(StatusRequest::VersionQuery));
    roundtrip(Packet::StatusRequest(StatusRequest::ExtensionQuery(b"test_atest".to_vec())));
    roundtrip(Packet::StatusResponse(StatusResponse::FastnetResponse(false)));
    roundtrip(Packet::StatusResponse(StatusResponse::VersionResponse(b"1.0".to_vec())));
    roundtrip(Packet::StatusResponse(StatusResponse::ExtensionResponse {
        name: b"a_b".to_vec(),
        supported: true,
    }));
    roundtrip(Packet::Connect(id_a));
    roundtrip(Packet::Connected(id_b));
    roundtrip(Packet::Aborted(b"fail".to_vec()));
    roundtrip(Packet::Heartbeat { counter: 1, sent: 5, received: 10 });
    roundtrip(Packet::Echo { endpoint: id_a, probe: id_b });
    roundtrip(Packet::Ack { chan: 9, sequence_number: 0x123456789abcdef0 });
    let dp = DataPacketBuilder::with_payload_and_header(
        3,
        vec![7u8; 40],
        Some(FrameHeader::new(1, 52)),
    )
    .set_reliable(true)
    .set_frame_end(true)
    .build();
    roundtrip(Packet::Data { chan: 7, packet: dp });
    let dp2 = DataPacketBuilder::with_payload(4, vec![9u8; 10]).set_frame_end(true).build();
    roundtrip(Packet::Data { chan: 0, packet: dp2 });
}

#[test]
fn test_decode_unknown_tag_is_invalid() {
    // Connection channel with an unknown specifier byte.
    assert!(matches!(
        decode_packet(vec![255, 255, 9]),
        Err(PacketDecodingError::Invalid)
    ));
}

#[test]
fn test_decode_short_buffer_is_too_small() {
    assert!(matches!(decode_packet(vec![255]), Err(PacketDecodingError::TooSmall)));
    assert!(matches!(
        decode_packet(vec![255, 254, 0, 0]),
        Err(PacketDecodingError::TooSmall)
    ));
}

#[test]
fn test_decode_bad_bool_is_invalid() {
    // FastnetResponse with a boolean byte that is neither 0 nor 1.
    assert!(matches!(
        decode_packet(vec![255, 255, 1, 0, 7]),
        Err(PacketDecodingError::Invalid)
    ));
}

#[test]
fn test_decode_unterminated_string_is_too_small() {
    // Aborted with no string terminator: the bytes ran out.
    assert!(matches!(
        decode_packet(vec![255, 255, 4, b'e', b'r', b'r']),
        Err(PacketDecodingError::TooSmall)
    ));
}

#[test]
fn test_decode_non_utf8_string_is_invalid() {
    // Aborted whose message is a lone 0xFF byte: terminated, but not UTF-8.
    assert!(matches!(
        decode_packet(vec![255, 255, 4, 0xFF, 0x00]),
        Err(PacketDecodingError::Invalid)
    ));
    // A well-formed multi-byte sequence decodes.
    let two_byte = vec![255, 255, 4, 0xC3, 0xA9, 0x00];
    assert_eq!(
        decode_packet(two_byte).unwrap(),
        Packet::Aborted(vec![0xC3, 0xA9])
    );
    // An overlong encoding is rejected.
    assert!(matches!(
        decode_packet(vec![255, 255, 4, 0xC0, 0x80, 0x00]),
        Err(PacketDecodingError::Invalid)
    ));
    // A UTF-16 surrogate is rejected.
    assert!(matches!(
        decode_packet(vec![255, 255, 4, 0xED, 0xA0, 0x80, 0x00]),
        Err(PacketDecodingError::Invalid)
    ));
}

#[test]
fn test_encode_interior_nul_is_invalid() {
    let p = Packet::Aborted(vec![b'a', 0, b'b']);
    let mut buf = vec![0u8; 996];
    assert!(matches!(
        encode_packet(&p, &mut buf),
        Err(PacketEncodingError::Invalid)
    ));
}

#[test]
fn test_encode_buffer_too_small() {
    let p = Packet::Heartbeat { counter: 1, sent: 2, received: 3 };
    let mut buf = vec![0u8; 8];
    assert!(matches!(
        encode_packet(&p, &mut buf),
        Err(PacketEncodingError::TooLarge)
    ));
}

#[test]
fn test_datagram_roundtrip() {
    let p = Packet::Echo {
        endpoint: Uuid { hi: 1, lo: 2 },
        probe: Uuid { hi: 3, lo: 4 },
    };
    let datagram = encode_datagram(&p).expect("framing failed");
    let decoded = decode_datagram(datagram).expect("decoding failed");
    assert_eq!(decoded, p);
}

#[test]
fn test_datagram_single_bit_flip_fails_checksum() {
    let p = Packet::Aborted(b"something went wrong".to_vec());
    let datagram = encode_datagram(&p).expect("framing failed");
    // Flip every bit outside the CRC field, one at a time.
    for byte in 4..datagram.len() {
        for bit in 0..8 {
            let mut tampered = datagram.clone();
            tampered[byte] ^= 1 << bit;
            assert!(
                matches!(
                    decode_datagram(tampered),
                    Err(PacketDecodingError::ChecksumMismatch)
                ),
                "bit {} of byte {} went unnoticed",
                bit,
                byte
            );
        }
    }
}

#[test]
fn test_datagram_too_short() {
    assert!(matches!(
        decode_datagram(vec![1, 2, 3]),
        Err(PacketDecodingError::TooSmall)
    ));
}
