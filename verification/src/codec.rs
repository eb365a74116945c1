//! The packet codec: the canonical byte encoding of each packet variant, the
//! encoder and decoder holding to it, and the CRC-framed datagram layer.
//!
//! A datagram is `[crc32c big-endian | channel i16 big-endian | body]`; the
//! CRC covers everything after itself.  The packet layer (everything after
//! the CRC) is what `spec_encode_packet` and `spec_decode_packet` describe.

use vstd::prelude::*;

use crate::packets::ABORTED_SPECIFIER;
use crate::packets::ACK_PACKET_SPECIFIER;
use crate::packets::CONNECTED_SPECIFIER;
use crate::packets::CONNECTION_CHANNEL;
use crate::packets::CONNECT_SPECIFIER;
use crate::packets::DATA_PACKET_SPECIFIER;
use crate::packets::ECHO_CHANNEL;
use crate::packets::FLAG_FRAME_START;
use crate::packets::HEARTBEAT_CHANNEL;
use crate::packets::STATUS_EXTENSION_SPECIFIER;
use crate::packets::STATUS_FASTNET_SPECIFIER;
use crate::packets::STATUS_REQUEST_SPECIFIER;
use crate::packets::STATUS_RESPONSE_SPECIFIER;
use crate::packets::STATUS_VERSION_SPECIFIER;
use crate::packets::DataPacket;
use crate::packets::DataPacketView;
use crate::packets::FrameHeader;
use crate::packets::Packet;
use crate::packets::PacketView;
use crate::packets::StatusRequest;
use crate::packets::StatusRequestView;
use crate::packets::StatusResponse;
use crate::packets::StatusResponseView;
use crate::packets::Uuid;
use crate::wire::PacketDecodingError;
use crate::wire::PacketEncodingError;
use crate::wire::PacketReader;
use crate::wire::PacketWriter;
use crate::wire::spec_be_u16;
use crate::wire::spec_be_u32;
use crate::wire::spec_be_u64;
use crate::wire::spec_u16_of_be;
use crate::wire::spec_u32_of_be;
use crate::wire::spec_u64_of_be;
use crate::wire::lemma_be_u16_roundtrip;
use crate::wire::spec_find_nul;
use crate::wire::spec_valid_utf8;
use crate::wire::lemma_find_nul_found;
use crate::wire::lemma_be_u32_roundtrip;
use crate::wire::lemma_be_u64_roundtrip;

verus! {

/// Size of the reusable datagram buffers; no datagram is larger.
pub const MAX_DATAGRAM_SIZE: usize = 1000;

/// A protocol string may not contain the terminator byte.
pub open spec fn spec_valid_string(s: Seq<u8>) -> bool {
    forall|i: int| 0 <= i < s.len() ==> s[i] != 0
}

/// A string on the wire: its bytes, then one zero byte.
pub open spec fn spec_encode_string(s: Seq<u8>) -> Seq<u8> {
    s + seq![0u8]
}

/// A UUID on the wire: its 16 bytes in canonical order.
pub open spec fn spec_encode_uuid(u: Uuid) -> Seq<u8> {
    spec_be_u64(u.hi) + spec_be_u64(u.lo)
}

/// A boolean on the wire: one byte, `1` for true, `0` for false.
pub open spec fn spec_encode_bool(b: bool) -> Seq<u8> {
    seq![if b { 1u8 } else { 0u8 }]
}

/// A status request body: its sub-tag, then its argument if any.
pub open spec fn spec_encode_status_request(r: StatusRequestView) -> Seq<u8> {
    match r {
        StatusRequestView::FastnetQuery => seq![STATUS_FASTNET_SPECIFIER],
        StatusRequestView::VersionQuery => seq![STATUS_VERSION_SPECIFIER],
        StatusRequestView::ExtensionQuery(name) => seq![STATUS_EXTENSION_SPECIFIER]
            + spec_encode_string(name),
    }
}

/// A status response body: its sub-tag, then its payload.
pub open spec fn spec_encode_status_response(r: StatusResponseView) -> Seq<u8> {
    match r {
        StatusResponseView::FastnetResponse(listening) => seq![STATUS_FASTNET_SPECIFIER]
            + spec_encode_bool(listening),
        StatusResponseView::VersionResponse(version) => seq![STATUS_VERSION_SPECIFIER]
            + spec_encode_string(version),
        StatusResponseView::ExtensionResponse { name, supported } => seq![STATUS_EXTENSION_SPECIFIER]
            + spec_encode_string(name) + spec_encode_bool(supported),
    }
}

/// A data packet body: sequence number, flag byte, the frame header when the
/// frame-start flag is set, then the payload to the end of the datagram.
pub open spec fn spec_encode_data_packet(dp: DataPacketView) -> Seq<u8> {
    spec_be_u64(dp.sequence_number) + seq![dp.flags] + (match dp.header {
        Some(h) => spec_be_u64(h.last_reliable_frame) + spec_be_u32(h.length),
        None => Seq::<u8>::empty(),
    }) + dp.payload
}

/// The canonical encoding of a packet: channel, then the variant body.
pub open spec fn spec_encode_packet(p: PacketView) -> Seq<u8> {
    match p {
        PacketView::StatusRequest(req) => spec_be_u16(CONNECTION_CHANNEL as u16)
            + seq![STATUS_REQUEST_SPECIFIER] + spec_encode_status_request(req),
        PacketView::StatusResponse(resp) => spec_be_u16(CONNECTION_CHANNEL as u16)
            + seq![STATUS_RESPONSE_SPECIFIER] + spec_encode_status_response(resp),
        PacketView::Connect(id) => spec_be_u16(CONNECTION_CHANNEL as u16) + seq![CONNECT_SPECIFIER]
            + spec_encode_uuid(id),
        PacketView::Connected(id) => spec_be_u16(CONNECTION_CHANNEL as u16) + seq![CONNECTED_SPECIFIER]
            + spec_encode_uuid(id),
        PacketView::Aborted(msg) => spec_be_u16(CONNECTION_CHANNEL as u16) + seq![ABORTED_SPECIFIER]
            + spec_encode_string(msg),
        PacketView::Heartbeat { counter, sent, received } => spec_be_u16(HEARTBEAT_CHANNEL as u16)
            + spec_be_u64(counter) + spec_be_u64(sent) + spec_be_u64(received),
        PacketView::Echo { endpoint, probe } => spec_be_u16(ECHO_CHANNEL as u16) + spec_encode_uuid(
            endpoint,
        ) + spec_encode_uuid(probe),
        PacketView::Data { chan, packet } => spec_be_u16(chan as u16) + seq![DATA_PACKET_SPECIFIER]
            + spec_encode_data_packet(packet),
        PacketView::Ack { chan, sequence_number } => spec_be_u16(chan as u16)
            + seq![ACK_PACKET_SPECIFIER] + spec_be_u64(sequence_number),
    }
}

/// Every string carried by the packet is free of interior zero bytes.
pub open spec fn spec_strings_valid(p: PacketView) -> bool {
    match p {
        PacketView::StatusRequest(StatusRequestView::ExtensionQuery(name)) => spec_valid_string(name),
        PacketView::StatusResponse(StatusResponseView::VersionResponse(version)) => spec_valid_string(
            version,
        ),
        PacketView::StatusResponse(StatusResponseView::ExtensionResponse { name, .. }) => spec_valid_string(
            name,
        ),
        PacketView::Aborted(msg) => spec_valid_string(msg),
        _ => true,
    }
}

/// Every string carried by the packet is well-formed UTF-8.
pub open spec fn spec_strings_utf8(p: PacketView) -> bool {
    match p {
        PacketView::StatusRequest(StatusRequestView::ExtensionQuery(name)) => spec_valid_utf8(
            name,
        ),
        PacketView::StatusResponse(StatusResponseView::VersionResponse(version)) => spec_valid_utf8(
            version,
        ),
        PacketView::StatusResponse(StatusResponseView::ExtensionResponse { name, .. }) => spec_valid_utf8(
            name,
        ),
        PacketView::Aborted(msg) => spec_valid_utf8(msg),
        _ => true,
    }
}

/// A packet the wire format can represent faithfully: its strings are free
/// of interior zero bytes and well-formed UTF-8, a data or ack packet sits
/// on a user channel, and a data packet carries a header exactly if its
/// frame-start flag is set.
pub open spec fn spec_packet_wf(p: PacketView) -> bool {
    spec_strings_valid(p) && spec_strings_utf8(p) && match p {
        PacketView::Data { chan, packet } => chan >= 0 && packet.wf(),
        PacketView::Ack { chan, .. } => chan >= 0,
        _ => true,
    }
}

/// Whether the byte string contains a zero byte.
fn has_nul(s: &Vec<u8>) -> (r: bool)
    ensures
        r == !spec_valid_string(s@),
{
    let mut i: usize = 0;
    while i < s.len()
        invariant
            i <= s@.len(),
            forall|j: int| 0 <= j < i ==> s@[j] != 0,
        decreases s@.len() - i,
    {
        if s[i] == 0 {
            return true;
        }
        i = i + 1;
    }
    false
}

/// Whether every string carried by the packet is free of zero bytes.
fn strings_valid(p: &Packet) -> (r: bool)
    ensures
        r == spec_strings_valid(p@),
{
    match p {
        Packet::StatusRequest(StatusRequest::ExtensionQuery(name)) => !has_nul(name),
        Packet::StatusResponse(StatusResponse::VersionResponse(version)) => !has_nul(version),
        Packet::StatusResponse(StatusResponse::ExtensionResponse { name, .. }) => !has_nul(name),
        Packet::Aborted(msg) => !has_nul(msg),
        _ => true,
    }
}

/// Writes a string body: its bytes, then the terminator.
fn encode_string(w: &mut PacketWriter, s: &Vec<u8>) -> (r: Result<(), PacketEncodingError>)
    requires
        old(w).wf(),
        spec_valid_string(s@),
    ensures
        final(w).wf(),
        final(w).total_size() == old(w).total_size(),
        old(w).written_bytes().len() + spec_encode_string(s@).len() <= old(w).total_size()
            ==> r is Ok,
        r is Ok ==> final(w).written_bytes() == old(w).written_bytes() + spec_encode_string(s@),
        r is Err ==> r == Result::<(), PacketEncodingError>::Err(PacketEncodingError::TooLarge)
            && old(w).written_bytes().len() + spec_encode_string(s@).len() > old(w).total_size(),
{
    match w.write_bytes(s) {
        Ok(()) => (),
        Err(e) => { return Err(e) },
    }
    match w.write_u8(0) {
        Ok(()) => (),
        Err(e) => { return Err(e) },
    }
    proof {
        assert(final(w).written_bytes() =~= old(w).written_bytes() + spec_encode_string(s@));
    }
    Ok(())
}

/// Writes a UUID body: its 16 canonical bytes.
fn encode_uuid(w: &mut PacketWriter, u: &Uuid) -> (r: Result<(), PacketEncodingError>)
    requires
        old(w).wf(),
    ensures
        final(w).wf(),
        final(w).total_size() == old(w).total_size(),
        old(w).written_bytes().len() + 16 <= old(w).total_size() ==> r is Ok,
        r is Ok ==> final(w).written_bytes() == old(w).written_bytes() + spec_encode_uuid(*u),
        r is Err ==> r == Result::<(), PacketEncodingError>::Err(PacketEncodingError::TooLarge)
            && old(w).written_bytes().len() + 16 > old(w).total_size(),
{
    if w.available() < 16 {
        return Err(PacketEncodingError::TooLarge);
    }
    let r0 = w.write_u64(u.hi);
    let r1 = w.write_u64(u.lo);
    proof {
        assert(final(w).written_bytes() =~= old(w).written_bytes() + spec_encode_uuid(*u));
    }
    Ok(())
}

/// Writes a boolean body: one byte.
fn encode_bool(w: &mut PacketWriter, b: bool) -> (r: Result<(), PacketEncodingError>)
    requires
        old(w).wf(),
    ensures
        final(w).wf(),
        final(w).total_size() == old(w).total_size(),
        old(w).written_bytes().len() + 1 <= old(w).total_size() ==> r is Ok,
        r is Ok ==> final(w).written_bytes() == old(w).written_bytes() + spec_encode_bool(b),
        r is Err ==> r == Result::<(), PacketEncodingError>::Err(PacketEncodingError::TooLarge)
            && old(w).written_bytes().len() + 1 > old(w).total_size(),
{
    let byte: u8 = if b {
        1
    } else {
        0
    };
    match w.write_u8(byte) {
        Ok(()) => {
            proof {
                assert(final(w).written_bytes() =~= old(w).written_bytes() + spec_encode_bool(b));
            }
            Ok(())
        },
        Err(e) => Err(e),
    }
}

/// Writes a status request body.
fn encode_status_request(w: &mut PacketWriter, req: &StatusRequest) -> (r: Result<
    (),
    PacketEncodingError,
>)
    requires
        old(w).wf(),
        spec_strings_valid(PacketView::StatusRequest(req@)),
    ensures
        final(w).wf(),
        final(w).total_size() == old(w).total_size(),
        old(w).written_bytes().len() + spec_encode_status_request(req@).len() <= old(
            w,
        ).total_size() ==> r is Ok,
        r is Ok ==> final(w).written_bytes() == old(w).written_bytes()
            + spec_encode_status_request(req@),
        r is Err ==> r == Result::<(), PacketEncodingError>::Err(PacketEncodingError::TooLarge)
            && old(w).written_bytes().len() + spec_encode_status_request(req@).len() > old(
            w,
        ).total_size(),
{
    match req {
        StatusRequest::FastnetQuery => {
            match w.write_u8(STATUS_FASTNET_SPECIFIER) {
                Ok(()) => (),
                Err(e) => { return Err(e) },
            }
        },
        StatusRequest::VersionQuery => {
            match w.write_u8(STATUS_VERSION_SPECIFIER) {
                Ok(()) => (),
                Err(e) => { return Err(e) },
            }
        },
        StatusRequest::ExtensionQuery(name) => {
            match w.write_u8(STATUS_EXTENSION_SPECIFIER) {
                Ok(()) => (),
                Err(e) => { return Err(e) },
            }
            match encode_string(w, name) {
                Ok(()) => (),
                Err(e) => { return Err(e) },
            }
        },
    }
    proof {
        assert(final(w).written_bytes() =~= old(w).written_bytes() + spec_encode_status_request(
            req@,
        ));
    }
    Ok(())
}

/// Writes a status response body.
fn encode_status_response(w: &mut PacketWriter, resp: &StatusResponse) -> (r: Result<
    (),
    PacketEncodingError,
>)
    requires
        old(w).wf(),
        spec_strings_valid(PacketView::StatusResponse(resp@)),
    ensures
        final(w).wf(),
        final(w).total_size() == old(w).total_size(),
        old(w).written_bytes().len() + spec_encode_status_response(resp@).len() <= old(
            w,
        ).total_size() ==> r is Ok,
        r is Ok ==> final(w).written_bytes() == old(w).written_bytes()
            + spec_encode_status_response(resp@),
        r is Err ==> r == Result::<(), PacketEncodingError>::Err(PacketEncodingError::TooLarge)
            && old(w).written_bytes().len() + spec_encode_status_response(resp@).len() > old(
            w,
        ).total_size(),
{
    match resp {
        StatusResponse::FastnetResponse(listening) => {
            match w.write_u8(STATUS_FASTNET_SPECIFIER) {
                Ok(()) => (),
                Err(e) => { return Err(e) },
            }
            match encode_bool(w, *listening) {
                Ok(()) => (),
                Err(e) => { return Err(e) },
            }
        },
        StatusResponse::VersionResponse(version) => {
            match w.write_u8(STATUS_VERSION_SPECIFIER) {
                Ok(()) => (),
                Err(e) => { return Err(e) },
            }
            match encode_string(w, version) {
                Ok(()) => (),
                Err(e) => { return Err(e) },
            }
        },
        StatusResponse::ExtensionResponse { name, supported } => {
            match w.write_u8(STATUS_EXTENSION_SPECIFIER) {
                Ok(()) => (),
                Err(e) => { return Err(e) },
            }
            match encode_string(w, name) {
                Ok(()) => (),
                Err(e) => { return Err(e) },
            }
            match encode_bool(w, *supported) {
                Ok(()) => (),
                Err(e) => { return Err(e) },
            }
        },
    }
    proof {
        assert(final(w).written_bytes() =~= old(w).written_bytes() + spec_encode_status_response(
            resp@,
        ));
    }
    Ok(())
}

/// Writes a data packet body.
#[verifier::rlimit(100)]
fn encode_data_packet(w: &mut PacketWriter, dp: &DataPacket) -> (r: Result<
    (),
    PacketEncodingError,
>)
    requires
        old(w).wf(),
    ensures
        final(w).wf(),
        final(w).total_size() == old(w).total_size(),
        old(w).written_bytes().len() + spec_encode_data_packet(dp@).len() <= old(w).total_size()
            ==> r is Ok,
        r is Ok ==> final(w).written_bytes() == old(w).written_bytes() + spec_encode_data_packet(
            dp@,
        ),
        r is Err ==> r == Result::<(), PacketEncodingError>::Err(PacketEncodingError::TooLarge)
            && old(w).written_bytes().len() + spec_encode_data_packet(dp@).len() > old(
            w,
        ).total_size(),
{
    match &dp.header {
        Some(h) => {
            match w.write_u64(dp.sequence_number) {
                Ok(()) => (),
                Err(e) => { return Err(e) },
            }
            match w.write_u8(dp.flags) {
                Ok(()) => (),
                Err(e) => { return Err(e) },
            }
            match w.write_u64(h.last_reliable_frame) {
                Ok(()) => (),
                Err(e) => { return Err(e) },
            }
            match w.write_u32(h.length) {
                Ok(()) => (),
                Err(e) => { return Err(e) },
            }
            match w.write_bytes(&dp.payload) {
                Ok(()) => (),
                Err(e) => { return Err(e) },
            }
            proof {
                assert(final(w).written_bytes() =~= old(w).written_bytes()
                    + spec_encode_data_packet(dp@));
            }
        },
        None => {
            match w.write_u64(dp.sequence_number) {
                Ok(()) => (),
                Err(e) => { return Err(e) },
            }
            match w.write_u8(dp.flags) {
                Ok(()) => (),
                Err(e) => { return Err(e) },
            }
            match w.write_bytes(&dp.payload) {
                Ok(()) => (),
                Err(e) => { return Err(e) },
            }
            proof {
                assert(final(w).written_bytes() =~= old(w).written_bytes()
                    + spec_encode_data_packet(dp@));
            }
        },
    }
    Ok(())
}

/// Writes a status request packet: channel, tag, body.
fn encode_status_request_packet(w: &mut PacketWriter, req: &StatusRequest) -> (r: Result<
    (),
    PacketEncodingError,
>)
    requires
        old(w).wf(),
        spec_strings_valid(PacketView::StatusRequest(req@)),
    ensures
        final(w).wf(),
        final(w).total_size() == old(w).total_size(),
        old(w).written_bytes().len() + spec_encode_packet(PacketView::StatusRequest(req@)).len() <= old(
            w,
        ).total_size() ==> r is Ok,
        r is Ok ==> final(w).written_bytes() == old(w).written_bytes() + spec_encode_packet(
            PacketView::StatusRequest(req@),
        ),
        r is Err ==> r == Result::<(), PacketEncodingError>::Err(PacketEncodingError::TooLarge)
            && old(w).written_bytes().len() + spec_encode_packet(PacketView::StatusRequest(req@)).len()
            > old(w).total_size(),
{
    match w.write_i16(CONNECTION_CHANNEL) {
        Ok(()) => (),
        Err(e) => { return Err(e) },
    }
    match w.write_u8(STATUS_REQUEST_SPECIFIER) {
        Ok(()) => (),
        Err(e) => { return Err(e) },
    }
    match encode_status_request(w, req) {
        Ok(()) => (),
        Err(e) => { return Err(e) },
    }
    proof {
        assert(w.written_bytes() =~= old(w).written_bytes() + spec_encode_packet(
            PacketView::StatusRequest(req@),
        ));
    }
    Ok(())
}

/// Writes a status response packet: channel, tag, body.
fn encode_status_response_packet(w: &mut PacketWriter, resp: &StatusResponse) -> (r: Result<
    (),
    PacketEncodingError,
>)
    requires
        old(w).wf(),
        spec_strings_valid(PacketView::StatusResponse(resp@)),
    ensures
        final(w).wf(),
        final(w).total_size() == old(w).total_size(),
        old(w).written_bytes().len() + spec_encode_packet(PacketView::StatusResponse(resp@)).len()
            <= old(w).total_size() ==> r is Ok,
        r is Ok ==> final(w).written_bytes() == old(w).written_bytes() + spec_encode_packet(
            PacketView::StatusResponse(resp@),
        ),
        r is Err ==> r == Result::<(), PacketEncodingError>::Err(PacketEncodingError::TooLarge)
            && old(w).written_bytes().len() + spec_encode_packet(
            PacketView::StatusResponse(resp@),
        ).len() > old(w).total_size(),
{
    match w.write_i16(CONNECTION_CHANNEL) {
        Ok(()) => (),
        Err(e) => { return Err(e) },
    }
    match w.write_u8(STATUS_RESPONSE_SPECIFIER) {
        Ok(()) => (),
        Err(e) => { return Err(e) },
    }
    match encode_status_response(w, resp) {
        Ok(()) => (),
        Err(e) => { return Err(e) },
    }
    proof {
        assert(w.written_bytes() =~= old(w).written_bytes() + spec_encode_packet(
            PacketView::StatusResponse(resp@),
        ));
    }
    Ok(())
}

/// Writes a connect packet: channel, tag, the local UUID.
fn encode_connect(w: &mut PacketWriter, id: &Uuid) -> (r: Result<(), PacketEncodingError>)
    requires
        old(w).wf(),
    ensures
        final(w).wf(),
        final(w).total_size() == old(w).total_size(),
        old(w).written_bytes().len() + spec_encode_packet(PacketView::Connect(*id)).len() <= old(
            w,
        ).total_size() ==> r is Ok,
        r is Ok ==> final(w).written_bytes() == old(w).written_bytes() + spec_encode_packet(
            PacketView::Connect(*id),
        ),
        r is Err ==> r == Result::<(), PacketEncodingError>::Err(PacketEncodingError::TooLarge)
            && old(w).written_bytes().len() + spec_encode_packet(PacketView::Connect(*id)).len() > old(
            w,
        ).total_size(),
{
    match w.write_i16(CONNECTION_CHANNEL) {
        Ok(()) => (),
        Err(e) => { return Err(e) },
    }
    match w.write_u8(CONNECT_SPECIFIER) {
        Ok(()) => (),
        Err(e) => { return Err(e) },
    }
    match encode_uuid(w, id) {
        Ok(()) => (),
        Err(e) => { return Err(e) },
    }
    proof {
        assert(w.written_bytes() =~= old(w).written_bytes() + spec_encode_packet(PacketView::Connect(
            *id,
        )));
    }
    Ok(())
}

/// Writes a connected packet: channel, tag, the responder's UUID.
fn encode_connected(w: &mut PacketWriter, id: &Uuid) -> (r: Result<(), PacketEncodingError>)
    requires
        old(w).wf(),
    ensures
        final(w).wf(),
        final(w).total_size() == old(w).total_size(),
        old(w).written_bytes().len() + spec_encode_packet(PacketView::Connected(*id)).len() <= old(
            w,
        ).total_size() ==> r is Ok,
        r is Ok ==> final(w).written_bytes() == old(w).written_bytes() + spec_encode_packet(
            PacketView::Connected(*id),
        ),
        r is Err ==> r == Result::<(), PacketEncodingError>::Err(PacketEncodingError::TooLarge)
            && old(w).written_bytes().len() + spec_encode_packet(PacketView::Connected(*id)).len()
            > old(w).total_size(),
{
    match w.write_i16(CONNECTION_CHANNEL) {
        Ok(()) => (),
        Err(e) => { return Err(e) },
    }
    match w.write_u8(CONNECTED_SPECIFIER) {
        Ok(()) => (),
        Err(e) => { return Err(e) },
    }
    match encode_uuid(w, id) {
        Ok(()) => (),
        Err(e) => { return Err(e) },
    }
    proof {
        assert(w.written_bytes() =~= old(w).written_bytes() + spec_encode_packet(PacketView::Connected(
            *id,
        )));
    }
    Ok(())
}

/// Writes an aborted packet: channel, tag, the message.
fn encode_aborted(w: &mut PacketWriter, msg: &Vec<u8>) -> (r: Result<(), PacketEncodingError>)
    requires
        old(w).wf(),
        spec_valid_string(msg@),
    ensures
        final(w).wf(),
        final(w).total_size() == old(w).total_size(),
        old(w).written_bytes().len() + spec_encode_packet(PacketView::Aborted(msg@)).len() <= old(
            w,
        ).total_size() ==> r is Ok,
        r is Ok ==> final(w).written_bytes() == old(w).written_bytes() + spec_encode_packet(
            PacketView::Aborted(msg@),
        ),
        r is Err ==> r == Result::<(), PacketEncodingError>::Err(PacketEncodingError::TooLarge)
            && old(w).written_bytes().len() + spec_encode_packet(PacketView::Aborted(msg@)).len() > old(
            w,
        ).total_size(),
{
    match w.write_i16(CONNECTION_CHANNEL) {
        Ok(()) => (),
        Err(e) => { return Err(e) },
    }
    match w.write_u8(ABORTED_SPECIFIER) {
        Ok(()) => (),
        Err(e) => { return Err(e) },
    }
    match encode_string(w, msg) {
        Ok(()) => (),
        Err(e) => { return Err(e) },
    }
    proof {
        assert(w.written_bytes() =~= old(w).written_bytes() + spec_encode_packet(PacketView::Aborted(
            msg@,
        )));
    }
    Ok(())
}

/// Writes a heartbeat packet: channel, then the three counters.
fn encode_heartbeat(w: &mut PacketWriter, counter: u64, sent: u64, received: u64) -> (r: Result<
    (),
    PacketEncodingError,
>)
    requires
        old(w).wf(),
    ensures
        final(w).wf(),
        final(w).total_size() == old(w).total_size(),
        old(w).written_bytes().len() + spec_encode_packet(
            PacketView::Heartbeat { counter, sent, received },
        ).len() <= old(w).total_size() ==> r is Ok,
        r is Ok ==> final(w).written_bytes() == old(w).written_bytes() + spec_encode_packet(
            PacketView::Heartbeat { counter, sent, received },
        ),
        r is Err ==> r == Result::<(), PacketEncodingError>::Err(PacketEncodingError::TooLarge)
            && old(w).written_bytes().len() + spec_encode_packet(
            PacketView::Heartbeat { counter, sent, received },
        ).len() > old(w).total_size(),
{
    match w.write_i16(HEARTBEAT_CHANNEL) {
        Ok(()) => (),
        Err(e) => { return Err(e) },
    }
    match w.write_u64(counter) {
        Ok(()) => (),
        Err(e) => { return Err(e) },
    }
    match w.write_u64(sent) {
        Ok(()) => (),
        Err(e) => { return Err(e) },
    }
    match w.write_u64(received) {
        Ok(()) => (),
        Err(e) => { return Err(e) },
    }
    proof {
        assert(w.written_bytes() =~= old(w).written_bytes() + spec_encode_packet(
            PacketView::Heartbeat { counter, sent, received },
        ));
    }
    Ok(())
}

/// Writes an echo packet: channel, the endpoint UUID, the probe UUID.
fn encode_echo(w: &mut PacketWriter, endpoint: &Uuid, probe: &Uuid) -> (r: Result<
    (),
    PacketEncodingError,
>)
    requires
        old(w).wf(),
    ensures
        final(w).wf(),
        final(w).total_size() == old(w).total_size(),
        old(w).written_bytes().len() + spec_encode_packet(
            PacketView::Echo { endpoint: *endpoint, probe: *probe },
        ).len() <= old(w).total_size() ==> r is Ok,
        r is Ok ==> final(w).written_bytes() == old(w).written_bytes() + spec_encode_packet(
            PacketView::Echo { endpoint: *endpoint, probe: *probe },
        ),
        r is Err ==> r == Result::<(), PacketEncodingError>::Err(PacketEncodingError::TooLarge)
            && old(w).written_bytes().len() + spec_encode_packet(
            PacketView::Echo { endpoint: *endpoint, probe: *probe },
        ).len() > old(w).total_size(),
{
    match w.write_i16(ECHO_CHANNEL) {
        Ok(()) => (),
        Err(e) => { return Err(e) },
    }
    match encode_uuid(w, endpoint) {
        Ok(()) => (),
        Err(e) => { return Err(e) },
    }
    match encode_uuid(w, probe) {
        Ok(()) => (),
        Err(e) => { return Err(e) },
    }
    proof {
        assert(w.written_bytes() =~= old(w).written_bytes() + spec_encode_packet(
            PacketView::Echo { endpoint: *endpoint, probe: *probe },
        ));
    }
    Ok(())
}

/// Writes a data packet: channel, tag, body.
fn encode_data(w: &mut PacketWriter, chan: i16, dp: &DataPacket) -> (r: Result<
    (),
    PacketEncodingError,
>)
    requires
        old(w).wf(),
    ensures
        final(w).wf(),
        final(w).total_size() == old(w).total_size(),
        old(w).written_bytes().len() + spec_encode_packet(
            PacketView::Data { chan, packet: dp@ },
        ).len() <= old(w).total_size() ==> r is Ok,
        r is Ok ==> final(w).written_bytes() == old(w).written_bytes() + spec_encode_packet(
            PacketView::Data { chan, packet: dp@ },
        ),
        r is Err ==> r == Result::<(), PacketEncodingError>::Err(PacketEncodingError::TooLarge)
            && old(w).written_bytes().len() + spec_encode_packet(
            PacketView::Data { chan, packet: dp@ },
        ).len() > old(w).total_size(),
{
    match w.write_i16(chan) {
        Ok(()) => (),
        Err(e) => { return Err(e) },
    }
    match w.write_u8(DATA_PACKET_SPECIFIER) {
        Ok(()) => (),
        Err(e) => { return Err(e) },
    }
    match encode_data_packet(w, dp) {
        Ok(()) => (),
        Err(e) => { return Err(e) },
    }
    proof {
        assert(w.written_bytes() =~= old(w).written_bytes() + spec_encode_packet(
            PacketView::Data { chan, packet: dp@ },
        ));
    }
    Ok(())
}

/// Writes an ack packet: channel, tag, the acknowledged sequence number.
fn encode_ack(w: &mut PacketWriter, chan: i16, sequence_number: u64) -> (r: Result<
    (),
    PacketEncodingError,
>)
    requires
        old(w).wf(),
    ensures
        final(w).wf(),
        final(w).total_size() == old(w).total_size(),
        old(w).written_bytes().len() + spec_encode_packet(
            PacketView::Ack { chan, sequence_number },
        ).len() <= old(w).total_size() ==> r is Ok,
        r is Ok ==> final(w).written_bytes() == old(w).written_bytes() + spec_encode_packet(
            PacketView::Ack { chan, sequence_number },
        ),
        r is Err ==> r == Result::<(), PacketEncodingError>::Err(PacketEncodingError::TooLarge)
            && old(w).written_bytes().len() + spec_encode_packet(
            PacketView::Ack { chan, sequence_number },
        ).len() > old(w).total_size(),
{
    match w.write_i16(chan) {
        Ok(()) => (),
        Err(e) => { return Err(e) },
    }
    match w.write_u8(ACK_PACKET_SPECIFIER) {
        Ok(()) => (),
        Err(e) => { return Err(e) },
    }
    match w.write_u64(sequence_number) {
        Ok(()) => (),
        Err(e) => { return Err(e) },
    }
    proof {
        assert(w.written_bytes() =~= old(w).written_bytes() + spec_encode_packet(
            PacketView::Ack { chan, sequence_number },
        ));
    }
    Ok(())
}

/// Writes a whole packet into the writer, dispatching on its variant.
fn encode_packet_into(w: &mut PacketWriter, packet: &Packet) -> (r: Result<
    (),
    PacketEncodingError,
>)
    requires
        old(w).wf(),
        spec_strings_valid(packet@),
    ensures
        final(w).wf(),
        final(w).total_size() == old(w).total_size(),
        old(w).written_bytes().len() + spec_encode_packet(packet@).len() <= old(w).total_size()
            ==> r is Ok,
        r is Ok ==> final(w).written_bytes() == old(w).written_bytes() + spec_encode_packet(
            packet@,
        ),
        r is Err ==> r == Result::<(), PacketEncodingError>::Err(PacketEncodingError::TooLarge)
            && old(w).written_bytes().len() + spec_encode_packet(packet@).len() > old(
            w,
        ).total_size(),
{
    match packet {
        Packet::StatusRequest(req) => encode_status_request_packet(w, req),
        Packet::StatusResponse(resp) => encode_status_response_packet(w, resp),
        Packet::Connect(id) => encode_connect(w, id),
        Packet::Connected(id) => encode_connected(w, id),
        Packet::Aborted(msg) => encode_aborted(w, msg),
        Packet::Heartbeat { counter, sent, received } => encode_heartbeat(
            w,
            *counter,
            *sent,
            *received,
        ),
        Packet::Echo { endpoint, probe } => encode_echo(w, endpoint, probe),
        Packet::Data { chan, packet: dp } => encode_data(w, *chan, dp),
        Packet::Ack { chan, sequence_number } => encode_ack(w, *chan, *sequence_number),
    }
}

/// Encodes a packet into the prefix of the given fixed-size buffer and
/// returns how many bytes were written.
///
/// Succeeds exactly when the packet's strings are valid and the encoding
/// fits the buffer; `Invalid` reports a bad string, `TooLarge` a buffer too
/// small.  On success the buffer prefix holds the canonical encoding.
pub fn encode_packet(packet: &Packet, buffer: &mut Vec<u8>) -> (r: Result<
    usize,
    PacketEncodingError,
>)
    ensures
        final(buffer)@.len() == old(buffer)@.len(),
        r is Ok <==> spec_strings_valid(packet@) && spec_encode_packet(packet@).len() <= old(
            buffer,
        )@.len(),
        r matches Ok(n) ==> n == spec_encode_packet(packet@).len() && final(buffer)@.take(n as int)
            == spec_encode_packet(packet@),
        !spec_strings_valid(packet@) ==> r == Result::<usize, PacketEncodingError>::Err(
            PacketEncodingError::Invalid,
        ) && *final(buffer) == *old(buffer),
        spec_strings_valid(packet@) && spec_encode_packet(packet@).len() > old(buffer)@.len()
            ==> r == Result::<usize, PacketEncodingError>::Err(PacketEncodingError::TooLarge),
{
    if !strings_valid(packet) {
        return Err(PacketEncodingError::Invalid);
    }
    let mut scratch: Vec<u8> = Vec::new();
    core::mem::swap(buffer, &mut scratch);
    let mut w = PacketWriter::new(scratch);
    let r = encode_packet_into(&mut w, packet);
    proof {
        w.lemma_written_le_total();
    }
    let written = w.written();
    let mut done = w.into_buffer();
    core::mem::swap(buffer, &mut done);
    match r {
        Ok(()) => Ok(written),
        Err(e) => Err(e),
    }
}


/// The big-endian `u16` found at offset `i`.
pub open spec fn spec_u16_at(b: Seq<u8>, i: int) -> u16 {
    spec_u16_of_be(b[i], b[i + 1])
}

/// The big-endian `u32` found at offset `i`.
pub open spec fn spec_u32_at(b: Seq<u8>, i: int) -> u32 {
    spec_u32_of_be(b[i], b[i + 1], b[i + 2], b[i + 3])
}

/// The big-endian `u64` found at offset `i`.
pub open spec fn spec_u64_at(b: Seq<u8>, i: int) -> u64 {
    spec_u64_of_be(b[i], b[i + 1], b[i + 2], b[i + 3], b[i + 4], b[i + 5], b[i + 6], b[i + 7])
}

/// Decoding a boolean: one byte, `0` or `1`; anything else is `Invalid`.
/// Gives the value and what follows it.
pub open spec fn spec_decode_bool(b: Seq<u8>) -> Result<(bool, Seq<u8>), PacketDecodingError> {
    if b.len() < 1 {
        Err(PacketDecodingError::TooSmall)
    } else if b[0] == 0 {
        Ok((false, b.skip(1)))
    } else if b[0] == 1 {
        Ok((true, b.skip(1)))
    } else {
        Err(PacketDecodingError::Invalid)
    }
}

/// Decoding a string: the bytes before the first zero byte, and what follows
/// the terminator.  Bytes that are not well-formed UTF-8 are `Invalid`;
/// running out of bytes before a terminator is `TooSmall`.
pub open spec fn spec_decode_string(b: Seq<u8>) -> Result<(Seq<u8>, Seq<u8>), PacketDecodingError> {
    match spec_find_nul(b) {
        Some(i) => if spec_valid_utf8(b.take(i)) {
            Ok((b.take(i), b.skip(i + 1)))
        } else {
            Err(PacketDecodingError::Invalid)
        },
        None => Err(PacketDecodingError::TooSmall),
    }
}

/// Decoding a UUID: its 16 canonical bytes, and what follows them.
pub open spec fn spec_decode_uuid(b: Seq<u8>) -> Result<(Uuid, Seq<u8>), PacketDecodingError> {
    if b.len() < 16 {
        Err(PacketDecodingError::TooSmall)
    } else {
        Ok((Uuid { hi: spec_u64_at(b, 0), lo: spec_u64_at(b, 8) }, b.skip(16)))
    }
}

/// Decoding a status request body: sub-tag, then its argument if any.
pub open spec fn spec_decode_status_request(b: Seq<u8>) -> Result<
    (StatusRequestView, Seq<u8>),
    PacketDecodingError,
> {
    if b.len() < 1 {
        Err(PacketDecodingError::TooSmall)
    } else {
        let code = b[0];
        let rest = b.skip(1);
        if code == STATUS_FASTNET_SPECIFIER {
            Ok((StatusRequestView::FastnetQuery, rest))
        } else if code == STATUS_VERSION_SPECIFIER {
            Ok((StatusRequestView::VersionQuery, rest))
        } else if code == STATUS_EXTENSION_SPECIFIER {
            match spec_decode_string(rest) {
                Ok(sr) => Ok((StatusRequestView::ExtensionQuery(sr.0), sr.1)),
                Err(e) => Err(e),
            }
        } else {
            Err(PacketDecodingError::Invalid)
        }
    }
}

/// Decoding a status response body: sub-tag, then its payload.
pub open spec fn spec_decode_status_response(b: Seq<u8>) -> Result<
    (StatusResponseView, Seq<u8>),
    PacketDecodingError,
> {
    if b.len() < 1 {
        Err(PacketDecodingError::TooSmall)
    } else {
        let code = b[0];
        let rest = b.skip(1);
        if code == STATUS_FASTNET_SPECIFIER {
            match spec_decode_bool(rest) {
                Ok(br) => Ok((StatusResponseView::FastnetResponse(br.0), br.1)),
                Err(e) => Err(e),
            }
        } else if code == STATUS_VERSION_SPECIFIER {
            match spec_decode_string(rest) {
                Ok(sr) => Ok((StatusResponseView::VersionResponse(sr.0), sr.1)),
                Err(e) => Err(e),
            }
        } else if code == STATUS_EXTENSION_SPECIFIER {
            match spec_decode_string(rest) {
                Ok(sr) => match spec_decode_bool(sr.1) {
                    Ok(br) => Ok(
                        (StatusResponseView::ExtensionResponse { name: sr.0, supported: br.0 },
                        br.1),
                    ),
                    Err(e) => Err(e),
                },
                Err(e) => Err(e),
            }
        } else {
            Err(PacketDecodingError::Invalid)
        }
    }
}

/// Decoding a data packet body: sequence number, flag byte, the frame header
/// when the frame-start flag is set, then everything left as the payload.
pub open spec fn spec_decode_data_packet(b: Seq<u8>) -> Result<
    DataPacketView,
    PacketDecodingError,
> {
    if b.len() < 9 {
        Err(PacketDecodingError::TooSmall)
    } else {
        let sn = spec_u64_at(b, 0);
        let flags = b[8];
        let rest = b.skip(9);
        if flags & FLAG_FRAME_START != 0 {
            if rest.len() < 12 {
                Err(PacketDecodingError::TooSmall)
            } else {
                Ok(
                    DataPacketView {
                        sequence_number: sn,
                        flags,
                        payload: rest.skip(12),
                        header: Some(
                            FrameHeader {
                                last_reliable_frame: spec_u64_at(rest, 0),
                                length: spec_u32_at(rest, 8),
                            },
                        ),
                    },
                )
            }
        } else {
            Ok(DataPacketView { sequence_number: sn, flags, payload: rest, header: None })
        }
    }
}

/// Decoding a connection-channel body: tag byte, then the variant.
pub open spec fn spec_decode_connection_packet(b: Seq<u8>) -> Result<
    PacketView,
    PacketDecodingError,
> {
    if b.len() < 1 {
        Err(PacketDecodingError::TooSmall)
    } else {
        let code = b[0];
        let rest = b.skip(1);
        if code == STATUS_REQUEST_SPECIFIER {
            match spec_decode_status_request(rest) {
                Ok(vr) => Ok(PacketView::StatusRequest(vr.0)),
                Err(e) => Err(e),
            }
        } else if code == STATUS_RESPONSE_SPECIFIER {
            match spec_decode_status_response(rest) {
                Ok(vr) => Ok(PacketView::StatusResponse(vr.0)),
                Err(e) => Err(e),
            }
        } else if code == CONNECT_SPECIFIER {
            match spec_decode_uuid(rest) {
                Ok(ur) => Ok(PacketView::Connect(ur.0)),
                Err(e) => Err(e),
            }
        } else if code == CONNECTED_SPECIFIER {
            match spec_decode_uuid(rest) {
                Ok(ur) => Ok(PacketView::Connected(ur.0)),
                Err(e) => Err(e),
            }
        } else if code == ABORTED_SPECIFIER {
            match spec_decode_string(rest) {
                Ok(sr) => Ok(PacketView::Aborted(sr.0)),
                Err(e) => Err(e),
            }
        } else {
            Err(PacketDecodingError::Invalid)
        }
    }
}

/// Decoding a packet: channel, then the channel's own body format.
pub open spec fn spec_decode_packet(b: Seq<u8>) -> Result<PacketView, PacketDecodingError> {
    if b.len() < 2 {
        Err(PacketDecodingError::TooSmall)
    } else {
        let chan = spec_u16_at(b, 0) as i16;
        let rest = b.skip(2);
        if chan == CONNECTION_CHANNEL {
            spec_decode_connection_packet(rest)
        } else if chan == HEARTBEAT_CHANNEL {
            if rest.len() < 24 {
                Err(PacketDecodingError::TooSmall)
            } else {
                Ok(
                    PacketView::Heartbeat {
                        counter: spec_u64_at(rest, 0),
                        sent: spec_u64_at(rest, 8),
                        received: spec_u64_at(rest, 16),
                    },
                )
            }
        } else if chan == ECHO_CHANNEL {
            match spec_decode_uuid(rest) {
                Ok(er) => match spec_decode_uuid(er.1) {
                    Ok(pr) => Ok(PacketView::Echo { endpoint: er.0, probe: pr.0 }),
                    Err(e) => Err(e),
                },
                Err(e) => Err(e),
            }
        } else {
            if rest.len() < 1 {
                Err(PacketDecodingError::TooSmall)
            } else {
                let tag = rest[0];
                let body = rest.skip(1);
                if tag == DATA_PACKET_SPECIFIER {
                    match spec_decode_data_packet(body) {
                        Ok(dp) => Ok(PacketView::Data { chan, packet: dp }),
                        Err(e) => Err(e),
                    }
                } else if tag == ACK_PACKET_SPECIFIER {
                    if body.len() < 8 {
                        Err(PacketDecodingError::TooSmall)
                    } else {
                        Ok(PacketView::Ack { chan, sequence_number: spec_u64_at(body, 0) })
                    }
                } else {
                    Err(PacketDecodingError::Invalid)
                }
            }
        }
    }
}

/// Reads a boolean.
fn decode_bool(rd: &mut PacketReader) -> (r: Result<bool, PacketDecodingError>)
    requires
        old(rd).wf(),
    ensures
        final(rd).wf(),
        final(rd).data() == old(rd).data(),
        match spec_decode_bool(old(rd).remaining_bytes()) {
            Ok(br) => r matches Ok(v) && v == br.0 && final(rd).remaining_bytes() == br.1,
            Err(e) => r == Result::<bool, PacketDecodingError>::Err(e),
        },
{
    let code = match rd.read_u8() {
        Ok(c) => c,
        Err(e) => { return Err(e) },
    };
    if code == 0 {
        Ok(false)
    } else if code == 1 {
        Ok(true)
    } else {
        Err(PacketDecodingError::Invalid)
    }
}

/// Reads a UUID: 16 bytes, or `TooSmall` without consuming anything.
fn decode_uuid(rd: &mut PacketReader) -> (r: Result<Uuid, PacketDecodingError>)
    requires
        old(rd).wf(),
    ensures
        final(rd).wf(),
        final(rd).data() == old(rd).data(),
        match spec_decode_uuid(old(rd).remaining_bytes()) {
            Ok(ur) => r matches Ok(v) && v == ur.0 && final(rd).remaining_bytes() == ur.1,
            Err(e) => r == Result::<Uuid, PacketDecodingError>::Err(e),
        },
{
    if rd.available() < 16 {
        return Err(PacketDecodingError::TooSmall);
    }
    let hi = match rd.read_u64() {
        Ok(v) => v,
        Err(e) => { return Err(e) },
    };
    let lo = match rd.read_u64() {
        Ok(v) => v,
        Err(e) => { return Err(e) },
    };
    proof {
        assert(rd.remaining_bytes() =~= old(rd).remaining_bytes().skip(16));
    }
    Ok(Uuid { hi, lo })
}

/// Reads a status request body.
fn decode_status_request(rd: &mut PacketReader) -> (r: Result<StatusRequest, PacketDecodingError>)
    requires
        old(rd).wf(),
    ensures
        final(rd).wf(),
        final(rd).data() == old(rd).data(),
        match spec_decode_status_request(old(rd).remaining_bytes()) {
            Ok(vr) => r matches Ok(v) && v@ == vr.0 && final(rd).remaining_bytes() == vr.1,
            Err(e) => r == Result::<StatusRequest, PacketDecodingError>::Err(e),
        },
{
    let code = match rd.read_u8() {
        Ok(c) => c,
        Err(e) => { return Err(e) },
    };
    if code == STATUS_FASTNET_SPECIFIER {
        Ok(StatusRequest::FastnetQuery)
    } else if code == STATUS_VERSION_SPECIFIER {
        Ok(StatusRequest::VersionQuery)
    } else if code == STATUS_EXTENSION_SPECIFIER {
        let name = match rd.read_string_bytes() {
            Ok(s) => s,
            Err(e) => { return Err(e) },
        };
        Ok(StatusRequest::ExtensionQuery(name))
    } else {
        Err(PacketDecodingError::Invalid)
    }
}

/// Reads a status response body.
fn decode_status_response(rd: &mut PacketReader) -> (r: Result<
    StatusResponse,
    PacketDecodingError,
>)
    requires
        old(rd).wf(),
    ensures
        final(rd).wf(),
        final(rd).data() == old(rd).data(),
        match spec_decode_status_response(old(rd).remaining_bytes()) {
            Ok(vr) => r matches Ok(v) && v@ == vr.0 && final(rd).remaining_bytes() == vr.1,
            Err(e) => r == Result::<StatusResponse, PacketDecodingError>::Err(e),
        },
{
    let code = match rd.read_u8() {
        Ok(c) => c,
        Err(e) => { return Err(e) },
    };
    if code == STATUS_FASTNET_SPECIFIER {
        let listening = match decode_bool(rd) {
            Ok(v) => v,
            Err(e) => { return Err(e) },
        };
        Ok(StatusResponse::FastnetResponse(listening))
    } else if code == STATUS_VERSION_SPECIFIER {
        let version = match rd.read_string_bytes() {
            Ok(s) => s,
            Err(e) => { return Err(e) },
        };
        Ok(StatusResponse::VersionResponse(version))
    } else if code == STATUS_EXTENSION_SPECIFIER {
        let name = match rd.read_string_bytes() {
            Ok(s) => s,
            Err(e) => { return Err(e) },
        };
        let supported = match decode_bool(rd) {
            Ok(v) => v,
            Err(e) => { return Err(e) },
        };
        Ok(StatusResponse::ExtensionResponse { name, supported })
    } else {
        Err(PacketDecodingError::Invalid)
    }
}

/// Reads a data packet body, taking everything left as the payload.
fn decode_data_packet(rd: &mut PacketReader) -> (r: Result<DataPacket, PacketDecodingError>)
    requires
        old(rd).wf(),
    ensures
        final(rd).wf(),
        final(rd).data() == old(rd).data(),
        match spec_decode_data_packet(old(rd).remaining_bytes()) {
            Ok(dp) => r matches Ok(v) && v@ == dp,
            Err(e) => r == Result::<DataPacket, PacketDecodingError>::Err(e),
        },
{
    if rd.available() < 9 {
        return Err(PacketDecodingError::TooSmall);
    }
    let sn = match rd.read_u64() {
        Ok(v) => v,
        Err(e) => { return Err(e) },
    };
    let flags = match rd.read_u8() {
        Ok(v) => v,
        Err(e) => { return Err(e) },
    };
    if (flags & FLAG_FRAME_START) != 0 {
        if rd.available() < 12 {
            return Err(PacketDecodingError::TooSmall);
        }
        let lrf = match rd.read_u64() {
            Ok(v) => v,
            Err(e) => { return Err(e) },
        };
        let length = match rd.read_u32() {
            Ok(v) => v,
            Err(e) => { return Err(e) },
        };
        let payload = rd.read_remaining();
        let dp = DataPacket {
            sequence_number: sn,
            flags,
            payload,
            header: Some(FrameHeader { last_reliable_frame: lrf, length }),
        };
        proof {
            let b = old(rd).remaining_bytes();
            assert(b.skip(8).skip(1) =~= b.skip(9));
            assert(b.skip(9).skip(8).skip(4) =~= b.skip(9).skip(12));
            assert(dp@ =~= spec_decode_data_packet(b)->Ok_0);
        }
        Ok(dp)
    } else {
        let payload = rd.read_remaining();
        let dp = DataPacket { sequence_number: sn, flags, payload, header: None };
        proof {
            let b = old(rd).remaining_bytes();
            assert(b.skip(8).skip(1) =~= b.skip(9));
            assert(dp@ =~= spec_decode_data_packet(b)->Ok_0);
        }
        Ok(dp)
    }
}

/// Reads a connection-channel body: tag byte, then the variant.
fn decode_connection_packet(rd: &mut PacketReader) -> (r: Result<Packet, PacketDecodingError>)
    requires
        old(rd).wf(),
    ensures
        final(rd).wf(),
        match spec_decode_connection_packet(old(rd).remaining_bytes()) {
            Ok(v) => r matches Ok(p) && p@ == v,
            Err(e) => r == Result::<Packet, PacketDecodingError>::Err(e),
        },
{
    let code = match rd.read_u8() {
        Ok(c) => c,
        Err(e) => { return Err(e) },
    };
    if code == STATUS_REQUEST_SPECIFIER {
        match decode_status_request(rd) {
            Ok(req) => Ok(Packet::StatusRequest(req)),
            Err(e) => Err(e),
        }
    } else if code == STATUS_RESPONSE_SPECIFIER {
        match decode_status_response(rd) {
            Ok(resp) => Ok(Packet::StatusResponse(resp)),
            Err(e) => Err(e),
        }
    } else if code == CONNECT_SPECIFIER {
        match decode_uuid(rd) {
            Ok(id) => Ok(Packet::Connect(id)),
            Err(e) => Err(e),
        }
    } else if code == CONNECTED_SPECIFIER {
        match decode_uuid(rd) {
            Ok(id) => Ok(Packet::Connected(id)),
            Err(e) => Err(e),
        }
    } else if code == ABORTED_SPECIFIER {
        match rd.read_string_bytes() {
            Ok(msg) => Ok(Packet::Aborted(msg)),
            Err(e) => Err(e),
        }
    } else {
        Err(PacketDecodingError::Invalid)
    }
}

/// Decodes one packet from a buffer (the bytes after the CRC).
///
/// Returns exactly what `spec_decode_packet` ascribes to the buffer: the
/// decoded packet, or `TooSmall` when bytes run out, or `Invalid` on an
/// unknown tag, a bad boolean, or an unterminated string.
#[verifier::rlimit(100)]
pub fn decode_packet(buffer: Vec<u8>) -> (r: Result<Packet, PacketDecodingError>)
    ensures
        match spec_decode_packet(buffer@) {
            Ok(v) => r matches Ok(p) && p@ == v,
            Err(e) => r == Result::<Packet, PacketDecodingError>::Err(e),
        },
{
    let ghost b = buffer@;
    let mut rd = PacketReader::new(buffer);
    let chan = match rd.read_i16() {
        Ok(c) => c,
        Err(e) => { return Err(e) },
    };
    if chan == CONNECTION_CHANNEL {
        decode_connection_packet(&mut rd)
    } else if chan == HEARTBEAT_CHANNEL {
        if rd.available() < 24 {
            return Err(PacketDecodingError::TooSmall);
        }
        let counter = match rd.read_u64() {
            Ok(v) => v,
            Err(e) => { return Err(e) },
        };
        let sent = match rd.read_u64() {
            Ok(v) => v,
            Err(e) => { return Err(e) },
        };
        let received = match rd.read_u64() {
            Ok(v) => v,
            Err(e) => { return Err(e) },
        };
        proof {
            let rest = b.skip(2);
            assert(rest.skip(8) =~= b.skip(10));
            assert(rest.skip(8).skip(8) =~= b.skip(18));
            assert(sent == spec_u64_at(rest, 8));
            assert(received == spec_u64_at(rest, 16));
        }
        Ok(Packet::Heartbeat { counter, sent, received })
    } else if chan == ECHO_CHANNEL {
        let endpoint = match decode_uuid(&mut rd) {
            Ok(v) => v,
            Err(e) => { return Err(e) },
        };
        let probe = match decode_uuid(&mut rd) {
            Ok(v) => v,
            Err(e) => { return Err(e) },
        };
        Ok(Packet::Echo { endpoint, probe })
    } else {
        let tag = match rd.read_u8() {
            Ok(c) => c,
            Err(e) => { return Err(e) },
        };
        if tag == DATA_PACKET_SPECIFIER {
            match decode_data_packet(&mut rd) {
                Ok(dp) => Ok(Packet::Data { chan, packet: dp }),
                Err(e) => Err(e),
            }
        } else if tag == ACK_PACKET_SPECIFIER {
            let sequence_number = match rd.read_u64() {
                Ok(v) => v,
                Err(e) => { return Err(e) },
            };
            Ok(Packet::Ack { chan, sequence_number })
        } else {
            Err(PacketDecodingError::Invalid)
        }
    }
}


/// What CRC-32 Castagnoli returns for a byte sequence.
pub uninterp spec fn crc32c_of(data: Seq<u8>) -> u32;

/// Relies on `crc::Crc::<u32>::new(&crc::CRC_32_ISCSI).checksum`: the CRC-32
/// Castagnoli checksum, a function of the bytes alone.
#[verifier::external_body]
pub(crate) fn crc32c(data: &Vec<u8>) -> (r: u32)
    ensures
        r == crc32c_of(data@),
{
    crc::Crc::<u32>::new(&crc::CRC_32_ISCSI).checksum(data.as_slice())
}

/// Decoding a datagram: check the CRC over everything after it, then decode
/// the packet.
pub open spec fn spec_decode_datagram(b: Seq<u8>) -> Result<PacketView, PacketDecodingError> {
    if b.len() < 4 {
        Err(PacketDecodingError::TooSmall)
    } else if spec_u32_at(b, 0) != crc32c_of(b.skip(4)) {
        Err(PacketDecodingError::ChecksumMismatch)
    } else {
        spec_decode_packet(b.skip(4))
    }
}

/// Encodes a packet and frames it as a datagram: the CRC-32 Castagnoli of
/// the encoded bytes, big-endian, then the encoded bytes.
///
/// Succeeds exactly when the packet's strings are valid and the datagram
/// fits `MAX_DATAGRAM_SIZE`.
pub fn encode_datagram(packet: &Packet) -> (r: Result<Vec<u8>, PacketEncodingError>)
    ensures
        r is Ok <==> spec_strings_valid(packet@) && spec_encode_packet(packet@).len() + 4
            <= MAX_DATAGRAM_SIZE,
        r matches Ok(d) ==> d@ == spec_be_u32(crc32c_of(spec_encode_packet(packet@)))
            + spec_encode_packet(packet@),
        !spec_strings_valid(packet@) ==> r == Result::<Vec<u8>, PacketEncodingError>::Err(
            PacketEncodingError::Invalid,
        ),
        spec_strings_valid(packet@) && spec_encode_packet(packet@).len() + 4 > MAX_DATAGRAM_SIZE
            ==> r == Result::<Vec<u8>, PacketEncodingError>::Err(PacketEncodingError::TooLarge),
{
    let cap: usize = MAX_DATAGRAM_SIZE - 4;
    let mut body: Vec<u8> = vec![0u8; cap];
    let n = match encode_packet(packet, &mut body) {
        Ok(n) => n,
        Err(e) => { return Err(e) },
    };
    body.truncate(n);
    proof {
        assert(body@ =~= spec_encode_packet(packet@));
    }
    let crc = crc32c(&body);
    let mut out: Vec<u8> = Vec::new();
    out.push(((crc >> 24) & 0xff) as u8);
    out.push(((crc >> 16) & 0xff) as u8);
    out.push(((crc >> 8) & 0xff) as u8);
    out.push((crc & 0xff) as u8);
    out.append(&mut body);
    proof {
        assert(out@ =~= spec_be_u32(crc) + spec_encode_packet(packet@));
    }
    Ok(out)
}

/// Decodes a datagram: rejects a short or corrupted one, then decodes the
/// packet after the CRC.
///
/// Fails with `ChecksumMismatch` exactly when the stored CRC differs from
/// the CRC-32 Castagnoli of the bytes after it.
pub fn decode_datagram(data: Vec<u8>) -> (r: Result<Packet, PacketDecodingError>)
    ensures
        match spec_decode_datagram(data@) {
            Ok(v) => r matches Ok(p) && p@ == v,
            Err(e) => r == Result::<Packet, PacketDecodingError>::Err(e),
        },
{
    let ghost b = data@;
    let mut rd = PacketReader::new(data);
    let stored = match rd.read_u32() {
        Ok(v) => v,
        Err(e) => { return Err(e) },
    };
    let tail = rd.read_remaining();
    let computed = crc32c(&tail);
    if stored != computed {
        return Err(PacketDecodingError::ChecksumMismatch);
    }
    decode_packet(tail)
}

/// A two's-complement channel number survives the trip through its wire
/// representation.
proof fn lemma_i16_wire_roundtrip(chan: i16)
    ensures
        (chan as u16) as i16 == chan,
{
    assert((chan as u16) as i16 == chan) by (bit_vector);
}

/// Decoding an encoded string gives the string and what followed it.
proof fn lemma_decode_string_of_encoded(s: Seq<u8>, rest: Seq<u8>)
    requires
        spec_valid_string(s),
        spec_valid_utf8(s),
    ensures
        spec_decode_string(spec_encode_string(s) + rest) == Ok::<
            (Seq<u8>, Seq<u8>),
            PacketDecodingError,
        >((s, rest)),
{
    let b = spec_encode_string(s) + rest;
    lemma_find_nul_found(b, s.len() as int);
    assert(b.take(s.len() as int) =~= s);
    assert(b.skip(s.len() as int + 1) =~= rest);
}

/// Decoding an encoded boolean gives the boolean and what followed it.
proof fn lemma_decode_bool_of_encoded(v: bool, rest: Seq<u8>)
    ensures
        spec_decode_bool(spec_encode_bool(v) + rest) == Ok::<
            (bool, Seq<u8>),
            PacketDecodingError,
        >((v, rest)),
{
    let b = spec_encode_bool(v) + rest;
    assert(b.skip(1) =~= rest);
}

/// Decoding an encoded UUID gives the UUID and what followed it.
proof fn lemma_decode_uuid_of_encoded(u: Uuid, rest: Seq<u8>)
    ensures
        spec_decode_uuid(spec_encode_uuid(u) + rest) == Ok::<
            (Uuid, Seq<u8>),
            PacketDecodingError,
        >((u, rest)),
{
    let b = spec_encode_uuid(u) + rest;
    lemma_be_u64_roundtrip(u.hi);
    lemma_be_u64_roundtrip(u.lo);
    assert(spec_u64_at(b, 0) == u.hi);
    assert(spec_u64_at(b, 8) == u.lo);
    assert(b.skip(16) =~= rest);
}

/// The `u64` at the front of its own encoding is the value again.
proof fn lemma_decode_u64_of_encoded(v: u64, rest: Seq<u8>)
    ensures
        spec_u64_at(spec_be_u64(v) + rest, 0) == v,
        (spec_be_u64(v) + rest).skip(8) =~= rest,
{
    lemma_be_u64_roundtrip(v);
}

/// Decoding an encoded status request gives the request back.
proof fn lemma_decode_status_request_of_encoded(req: StatusRequestView)
    requires
        spec_strings_valid(PacketView::StatusRequest(req)),
        spec_strings_utf8(PacketView::StatusRequest(req)),
    ensures
        spec_decode_status_request(spec_encode_status_request(req)) matches Ok(vr) && vr.0 == req,
{
    let b = spec_encode_status_request(req);
    match req {
        StatusRequestView::FastnetQuery => {
            assert(b[0] == STATUS_FASTNET_SPECIFIER);
        },
        StatusRequestView::VersionQuery => {
            assert(b[0] == STATUS_VERSION_SPECIFIER);
        },
        StatusRequestView::ExtensionQuery(name) => {
            assert(b.skip(1) =~= spec_encode_string(name) + Seq::<u8>::empty());
            lemma_decode_string_of_encoded(name, Seq::<u8>::empty());
            assert(spec_decode_status_request(b) matches Ok(vr) && vr.0 == req);
        },
    }
}

/// Decoding an encoded status response gives the response back.
proof fn lemma_decode_status_response_of_encoded(resp: StatusResponseView)
    requires
        spec_strings_valid(PacketView::StatusResponse(resp)),
        spec_strings_utf8(PacketView::StatusResponse(resp)),
    ensures
        spec_decode_status_response(spec_encode_status_response(resp)) matches Ok(vr) && vr.0
            == resp,
{
    let b = spec_encode_status_response(resp);
    match resp {
        StatusResponseView::FastnetResponse(listening) => {
            assert(b.skip(1) =~= spec_encode_bool(listening) + Seq::<u8>::empty());
            lemma_decode_bool_of_encoded(listening, Seq::<u8>::empty());
        },
        StatusResponseView::VersionResponse(version) => {
            assert(b.skip(1) =~= spec_encode_string(version) + Seq::<u8>::empty());
            lemma_decode_string_of_encoded(version, Seq::<u8>::empty());
        },
        StatusResponseView::ExtensionResponse { name, supported } => {
            assert(b.skip(1) =~= spec_encode_string(name) + spec_encode_bool(supported));
            lemma_decode_string_of_encoded(name, spec_encode_bool(supported));
            lemma_decode_bool_of_encoded(supported, Seq::<u8>::empty());
            assert(spec_encode_bool(supported) =~= spec_encode_bool(supported)
                + Seq::<u8>::empty());
        },
    }
}

/// Decoding an encoded data packet body gives the packet back.
proof fn lemma_decode_data_packet_of_encoded(dp: DataPacketView)
    requires
        dp.wf(),
    ensures
        spec_decode_data_packet(spec_encode_data_packet(dp)) == Ok::<
            DataPacketView,
            PacketDecodingError,
        >(dp),
{
    let b = spec_encode_data_packet(dp);
    lemma_be_u64_roundtrip(dp.sequence_number);
    assert(spec_u64_at(b, 0) == dp.sequence_number);
    assert(b[8] == dp.flags);
    match dp.header {
        Some(h) => {
            let hdr = spec_be_u64(h.last_reliable_frame) + spec_be_u32(h.length);
            assert(b.skip(9) =~= hdr + dp.payload);
            let rest = b.skip(9);
            lemma_be_u64_roundtrip(h.last_reliable_frame);
            lemma_be_u32_roundtrip(h.length);
            assert(spec_u64_at(rest, 0) == h.last_reliable_frame);
            assert(spec_u32_at(rest, 8) == h.length);
            assert(rest.skip(12) =~= dp.payload);
            assert(spec_decode_data_packet(b) matches Ok(v) && v =~= dp);
        },
        None => {
            assert(b.skip(9) =~= dp.payload);
            assert(spec_decode_data_packet(b) matches Ok(v) && v =~= dp);
        },
    }
}

/// Round trip for the connection-channel variants.
#[verifier::rlimit(100)]
proof fn lemma_roundtrip_connection_channel(p: PacketView)
    requires
        spec_packet_wf(p),
        p matches PacketView::StatusRequest(_) || p matches PacketView::StatusResponse(_) || p
            matches PacketView::Connect(_) || p matches PacketView::Connected(_) || p
            matches PacketView::Aborted(_),
    ensures
        spec_decode_packet(spec_encode_packet(p)) == Ok::<PacketView, PacketDecodingError>(p),
{
    let b = spec_encode_packet(p);
    lemma_i16_wire_roundtrip(CONNECTION_CHANNEL);
    lemma_be_u16_roundtrip(CONNECTION_CHANNEL as u16);
    match p {
        PacketView::StatusRequest(req) => {
            assert(b.skip(2) =~= seq![STATUS_REQUEST_SPECIFIER] + spec_encode_status_request(req));
            assert(b.skip(2).skip(1) =~= spec_encode_status_request(req));
            lemma_decode_status_request_of_encoded(req);
            assert(spec_decode_packet(b) matches Ok(v) && v =~= p);
        },
        PacketView::StatusResponse(resp) => {
            assert(b.skip(2) =~= seq![STATUS_RESPONSE_SPECIFIER] + spec_encode_status_response(
                resp,
            ));
            assert(b.skip(2).skip(1) =~= spec_encode_status_response(resp));
            lemma_decode_status_response_of_encoded(resp);
            assert(spec_decode_packet(b) matches Ok(v) && v =~= p);
        },
        PacketView::Connect(id) => {
            assert(b.skip(2) =~= seq![CONNECT_SPECIFIER] + spec_encode_uuid(id));
            assert(b.skip(2).skip(1) =~= spec_encode_uuid(id) + Seq::<u8>::empty());
            lemma_decode_uuid_of_encoded(id, Seq::<u8>::empty());
            assert(spec_decode_packet(b) matches Ok(v) && v =~= p);
        },
        PacketView::Connected(id) => {
            assert(b.skip(2) =~= seq![CONNECTED_SPECIFIER] + spec_encode_uuid(id));
            assert(b.skip(2).skip(1) =~= spec_encode_uuid(id) + Seq::<u8>::empty());
            lemma_decode_uuid_of_encoded(id, Seq::<u8>::empty());
            assert(spec_decode_packet(b) matches Ok(v) && v =~= p);
        },
        PacketView::Aborted(msg) => {
            assert(b.skip(2) =~= seq![ABORTED_SPECIFIER] + spec_encode_string(msg));
            assert(b.skip(2).skip(1) =~= spec_encode_string(msg) + Seq::<u8>::empty());
            lemma_decode_string_of_encoded(msg, Seq::<u8>::empty());
            assert(spec_decode_packet(b) matches Ok(v) && v =~= p);
        },
        _ => {},
    }
}

/// Round trip for the heartbeat and echo variants.
#[verifier::rlimit(100)]
proof fn lemma_roundtrip_control_channel(p: PacketView)
    requires
        spec_packet_wf(p),
        p matches PacketView::Heartbeat { .. } || p matches PacketView::Echo { .. },
    ensures
        spec_decode_packet(spec_encode_packet(p)) == Ok::<PacketView, PacketDecodingError>(p),
{
    let b = spec_encode_packet(p);
    match p {
        PacketView::Heartbeat { counter, sent, received } => {
            lemma_i16_wire_roundtrip(HEARTBEAT_CHANNEL);
            lemma_be_u16_roundtrip(HEARTBEAT_CHANNEL as u16);
            let rest = b.skip(2);
            assert(rest =~= spec_be_u64(counter) + spec_be_u64(sent) + spec_be_u64(received));
            lemma_be_u64_roundtrip(counter);
            lemma_be_u64_roundtrip(sent);
            lemma_be_u64_roundtrip(received);
            assert(spec_u64_at(rest, 0) == counter);
            assert(spec_u64_at(rest, 8) == sent);
            assert(spec_u64_at(rest, 16) == received);
            assert(spec_decode_packet(b) matches Ok(v) && v =~= p);
        },
        PacketView::Echo { endpoint, probe } => {
            lemma_i16_wire_roundtrip(ECHO_CHANNEL);
            lemma_be_u16_roundtrip(ECHO_CHANNEL as u16);
            assert(b.skip(2) =~= spec_encode_uuid(endpoint) + (spec_encode_uuid(probe)
                + Seq::<u8>::empty()));
            lemma_decode_uuid_of_encoded(endpoint, spec_encode_uuid(probe) + Seq::<u8>::empty());
            lemma_decode_uuid_of_encoded(probe, Seq::<u8>::empty());
            assert(spec_decode_packet(b) matches Ok(v) && v =~= p);
        },
        _ => {},
    }
}

/// Round trip for the user-channel variants.
#[verifier::rlimit(100)]
proof fn lemma_roundtrip_user_channel(p: PacketView)
    requires
        spec_packet_wf(p),
        p matches PacketView::Data { .. } || p matches PacketView::Ack { .. },
    ensures
        spec_decode_packet(spec_encode_packet(p)) == Ok::<PacketView, PacketDecodingError>(p),
{
    let b = spec_encode_packet(p);
    match p {
        PacketView::Data { chan, packet } => {
            lemma_i16_wire_roundtrip(chan);
            lemma_be_u16_roundtrip(chan as u16);
            assert(b.skip(2) =~= seq![DATA_PACKET_SPECIFIER] + spec_encode_data_packet(packet));
            assert(b.skip(2).skip(1) =~= spec_encode_data_packet(packet));
            lemma_decode_data_packet_of_encoded(packet);
            assert(spec_decode_packet(b) matches Ok(v) && v =~= p);
        },
        PacketView::Ack { chan, sequence_number } => {
            lemma_i16_wire_roundtrip(chan);
            lemma_be_u16_roundtrip(chan as u16);
            assert(b.skip(2) =~= seq![ACK_PACKET_SPECIFIER] + spec_be_u64(sequence_number));
            assert(b.skip(2).skip(1) =~= spec_be_u64(sequence_number));
            lemma_be_u64_roundtrip(sequence_number);
            assert(spec_decode_packet(b) matches Ok(v) && v =~= p);
        },
        _ => {},
    }
}

/// Round trip: decoding the canonical encoding of any well-formed packet
/// gives the packet back.
pub proof fn lemma_packet_codec_roundtrip(p: PacketView)
    requires
        spec_packet_wf(p),
    ensures
        spec_decode_packet(spec_encode_packet(p)) == Ok::<PacketView, PacketDecodingError>(p),
{
    match p {
        PacketView::StatusRequest(_) => lemma_roundtrip_connection_channel(p),
        PacketView::StatusResponse(_) => lemma_roundtrip_connection_channel(p),
        PacketView::Connect(_) => lemma_roundtrip_connection_channel(p),
        PacketView::Connected(_) => lemma_roundtrip_connection_channel(p),
        PacketView::Aborted(_) => lemma_roundtrip_connection_channel(p),
        PacketView::Heartbeat { .. } => lemma_roundtrip_control_channel(p),
        PacketView::Echo { .. } => lemma_roundtrip_control_channel(p),
        PacketView::Data { .. } => lemma_roundtrip_user_channel(p),
        PacketView::Ack { .. } => lemma_roundtrip_user_channel(p),
    }
}

/// Round trip through the CRC framing: a well-formed packet framed as a
/// datagram decodes to itself.
pub proof fn lemma_datagram_roundtrip(p: PacketView)
    requires
        spec_packet_wf(p),
    ensures
        spec_decode_datagram(
            spec_be_u32(crc32c_of(spec_encode_packet(p))) + spec_encode_packet(p),
        ) == Ok::<PacketView, PacketDecodingError>(p),
{
    let body = spec_encode_packet(p);
    let b = spec_be_u32(crc32c_of(body)) + body;
    lemma_be_u32_roundtrip(crc32c_of(body));
    assert(spec_u32_at(b, 0) == crc32c_of(body));
    assert(b.skip(4) =~= body);
    lemma_packet_codec_roundtrip(p);
}

} // verus!
