//! The packet data model: the tagged `Packet` union, data packets with their
//! flag byte, frame headers, and the UUID value type used for peer and probe
//! identities.
//!
//! Protocol strings (extension names, version strings, abort messages) are
//! byte strings: UTF-8 bytes free of interior zero bytes, zero-terminated on
//! the wire.

use vstd::prelude::*;

verus! {

/// Channel carrying status queries and the connection handshake.
pub const CONNECTION_CHANNEL: i16 = -1;

/// Channel carrying heartbeats.
pub const HEARTBEAT_CHANNEL: i16 = -2;

/// Channel carrying echo probes.
pub const ECHO_CHANNEL: i16 = -3;

/// Tag byte of a status request on the connection channel.
pub const STATUS_REQUEST_SPECIFIER: u8 = 0;

/// Tag byte of a status response on the connection channel.
pub const STATUS_RESPONSE_SPECIFIER: u8 = 1;

/// Tag byte of a connect request on the connection channel.
pub const CONNECT_SPECIFIER: u8 = 2;

/// Tag byte of a connect acknowledgement on the connection channel.
pub const CONNECTED_SPECIFIER: u8 = 3;

/// Tag byte of an abort notice on the connection channel.
pub const ABORTED_SPECIFIER: u8 = 4;

/// Sub-tag shared by `FastnetQuery` and `FastnetResponse`.
pub const STATUS_FASTNET_SPECIFIER: u8 = 0;

/// Sub-tag shared by `VersionQuery` and `VersionResponse`.
pub const STATUS_VERSION_SPECIFIER: u8 = 1;

/// Sub-tag shared by `ExtensionQuery` and `ExtensionResponse`.
pub const STATUS_EXTENSION_SPECIFIER: u8 = 2;

/// Flag bit marking the first packet of a frame.
pub const FLAG_FRAME_START: u8 = 1;

/// Flag bit marking the last packet of a frame.
pub const FLAG_FRAME_END: u8 = 2;

/// Flag bit marking a packet of a reliable frame.
pub const FLAG_RELIABLE: u8 = 4;

/// Tag byte of a data packet on a user channel.
pub const DATA_PACKET_SPECIFIER: u8 = 0;

/// Tag byte of an ack on a user channel.
pub const ACK_PACKET_SPECIFIER: u8 = 1;

/// Encoded size of a frame header: a 64-bit sequence number and a 32-bit
/// length.
pub const FRAME_HEADER_SIZE: usize = 12;

/// A 16-byte UUID held as its two big-endian 64-bit halves: `hi` holds the
/// first eight bytes of the canonical form, `lo` the last eight.
#[derive(Debug, Clone, Copy, PartialEq, Eq, Structural)]
pub struct Uuid {
    pub hi: u64,
    pub lo: u64,
}

impl Uuid {
    /// A UUID from its two halves.
    pub fn new(hi: u64, lo: u64) -> (r: Uuid)
        ensures
            r == (Uuid { hi, lo }),
    {
        Uuid { hi, lo }
    }
}

/// Draws a fresh random (version 4) UUID.
///
/// Relies on `uuid::Uuid::new_v4` for the randomness and on
/// `uuid::Uuid::as_u64_pair`, which splits the canonical 16-byte form into
/// its big-endian high and low halves.  Nothing is promised of the result:
/// it is random.
#[verifier::external_body]
pub fn fresh_uuid() -> (r: Uuid)
{
    let (hi, lo) = uuid::Uuid::new_v4().as_u64_pair();
    Uuid { hi, lo }
}

/// The header carried by the first packet of each frame.
#[derive(Debug, Clone, Copy, PartialEq, Eq, Structural)]
pub struct FrameHeader {
    /// Sequence number of the start packet of the last reliable frame the
    /// sender knew to be delivered on this channel.
    pub last_reliable_frame: u64,
    /// Total encoded frame bytes, header included.
    pub length: u32,
}

impl FrameHeader {
    /// A frame header from its two fields.
    pub fn new(last_reliable_frame: u64, length: u32) -> (r: FrameHeader)
        ensures
            r == (FrameHeader { last_reliable_frame, length }),
    {
        FrameHeader { last_reliable_frame, length }
    }
}

/// The part of a data packet that a channel uses to reassemble frames.  The
/// channel number itself is kept in the enclosing `Packet::Data` variant.
#[derive(Debug, Clone, PartialEq, Eq)]
pub struct DataPacket {
    pub sequence_number: u64,
    pub flags: u8,
    pub payload: Vec<u8>,
    pub header: Option<FrameHeader>,
}

impl DataPacket {
    /// A data packet is well formed when it carries a header exactly if its
    /// frame-start flag is set.
    pub open spec fn wf(self) -> bool {
        self.header is Some <==> (self.flags & FLAG_FRAME_START) != 0
    }

    /// Whether the reliable flag is set.
    pub open spec fn spec_is_reliable(self) -> bool {
        (self.flags & FLAG_RELIABLE) != 0
    }

    /// Whether the frame-start flag is set.
    pub open spec fn spec_is_frame_start(self) -> bool {
        (self.flags & FLAG_FRAME_START) != 0
    }

    /// Whether the frame-end flag is set.
    pub open spec fn spec_is_frame_end(self) -> bool {
        (self.flags & FLAG_FRAME_END) != 0
    }

    /// Whether the reliable flag is set.
    pub fn is_reliable(&self) -> (r: bool)
        ensures
            r == self.spec_is_reliable(),
    {
        (self.flags & FLAG_RELIABLE) != 0
    }

    /// Whether the frame-start flag is set.
    pub fn is_frame_start(&self) -> (r: bool)
        ensures
            r == self.spec_is_frame_start(),
    {
        (self.flags & FLAG_FRAME_START) != 0
    }

    /// Whether the frame-end flag is set.
    pub fn is_frame_end(&self) -> (r: bool)
        ensures
            r == self.spec_is_frame_end(),
    {
        (self.flags & FLAG_FRAME_END) != 0
    }

    /// The packet's sequence number.
    pub fn sequence_number(&self) -> (r: u64)
        ensures
            r == self.sequence_number,
    {
        self.sequence_number
    }

    /// Borrows the frame header, when there is one.
    pub fn borrow_header(&self) -> (r: Option<&FrameHeader>)
        ensures
            match r {
                Some(h) => self.header == Some(*h),
                None => self.header is None,
            },
    {
        self.header.as_ref()
    }

    /// The frame header, when there is one.
    pub fn get_header(&self) -> (r: Option<FrameHeader>)
        ensures
            r == self.header,
    {
        self.header
    }

    /// Borrows the payload bytes.
    pub fn borrow_payload(&self) -> (r: &Vec<u8>)
        ensures
            r@ == self.payload@,
    {
        &self.payload
    }

    /// Consumes the packet and keeps only its payload bytes.
    pub fn into_payload(self) -> (r: Vec<u8>)
        ensures
            r@ == self.payload@,
    {
        self.payload
    }
}

/// The flag byte assembled from the three flag booleans.
pub open spec fn spec_flags_byte(start: bool, end: bool, reliable: bool) -> u8 {
    (((if start {
        FLAG_FRAME_START
    } else {
        0
    }) | (if end {
        FLAG_FRAME_END
    } else {
        0
    })) | (if reliable {
        FLAG_RELIABLE
    } else {
        0
    })) as u8
}

/// Which flags the assembled flag byte has set.
pub proof fn lemma_flags_byte(start: bool, end: bool, reliable: bool)
    ensures
        (spec_flags_byte(start, end, reliable) & FLAG_FRAME_START != 0) <==> start,
        (spec_flags_byte(start, end, reliable) & FLAG_FRAME_END != 0) <==> end,
        (spec_flags_byte(start, end, reliable) & FLAG_RELIABLE != 0) <==> reliable,
{
    let s: u8 = if start { 1 } else { 0 };
    let e: u8 = if end { 2 } else { 0 };
    let r: u8 = if reliable { 4 } else { 0 };
    assert((((s | e) | r) & 1u8 != 0 <==> s == 1) && (((s | e) | r) & 2u8 != 0 <==> e == 2) && (((s
        | e) | r) & 4u8 != 0 <==> r == 4)) by (bit_vector)
        requires
            (s == 0 || s == 1) && (e == 0 || e == 2) && (r == 0 || r == 4),
    ;
}

/// Step-by-step constructor for data packets.  The initial state is
/// unreliable, mid-frame, with an empty payload; a packet may only be built
/// once its frame-start flag agrees with the presence of a header.
#[derive(Debug, Clone, PartialEq, Eq)]
pub struct DataPacketBuilder {
    pub sequence_number: u64,
    pub is_reliable: bool,
    pub is_frame_start: bool,
    pub is_frame_end: bool,
    pub payload: Vec<u8>,
    pub header: Option<FrameHeader>,
}

impl DataPacketBuilder {
    /// A builder with an empty payload, no header, and all flags cleared.
    pub fn new(sequence_number: u64) -> (r: DataPacketBuilder)
        ensures
            r.sequence_number == sequence_number,
            r.is_reliable == false,
            r.is_frame_start == false,
            r.is_frame_end == false,
            r.payload@ == Seq::<u8>::empty(),
            r.header is None,
    {
        DataPacketBuilder::with_payload(sequence_number, Vec::new())
    }

    /// A builder carrying the given payload, no header, and all flags
    /// cleared.
    pub fn with_payload(sequence_number: u64, payload: Vec<u8>) -> (r: DataPacketBuilder)
        ensures
            r.sequence_number == sequence_number,
            r.is_reliable == false,
            r.is_frame_start == false,
            r.is_frame_end == false,
            r.payload@ == payload@,
            r.header is None,
    {
        DataPacketBuilder::with_payload_and_header(sequence_number, payload, None)
    }

    /// A builder carrying the given payload and header.  When a header is
    /// given, the frame-start flag is set with it.
    pub fn with_payload_and_header(
        sequence_number: u64,
        payload: Vec<u8>,
        header: Option<FrameHeader>,
    ) -> (r: DataPacketBuilder)
        ensures
            r.sequence_number == sequence_number,
            r.is_reliable == false,
            r.is_frame_start == (header is Some),
            r.is_frame_end == false,
            r.payload@ == payload@,
            r.header == header,
    {
        DataPacketBuilder {
            sequence_number,
            is_reliable: false,
            is_frame_start: header.is_some(),
            is_frame_end: false,
            payload,
            header,
        }
    }

    /// Replaces the payload.
    pub fn set_payload(self, payload: Vec<u8>) -> (r: DataPacketBuilder)
        ensures
            r == (DataPacketBuilder { payload, ..self }),
    {
        DataPacketBuilder { payload, ..self }
    }

    /// Replaces the header; the frame-start flag follows its presence.
    pub fn set_header(self, header: Option<FrameHeader>) -> (r: DataPacketBuilder)
        ensures
            r == (DataPacketBuilder { header, is_frame_start: header is Some, ..self }),
    {
        let start = header.is_some();
        DataPacketBuilder { header, is_frame_start: start, ..self }
    }

    /// Sets or clears the reliable flag.
    pub fn set_reliable(self, reliable: bool) -> (r: DataPacketBuilder)
        ensures
            r == (DataPacketBuilder { is_reliable: reliable, ..self }),
    {
        DataPacketBuilder { is_reliable: reliable, ..self }
    }

    /// Sets or clears the frame-start flag.
    pub fn set_frame_start(self, start: bool) -> (r: DataPacketBuilder)
        ensures
            r == (DataPacketBuilder { is_frame_start: start, ..self }),
    {
        DataPacketBuilder { is_frame_start: start, ..self }
    }

    /// Sets or clears the frame-end flag.
    pub fn set_frame_end(self, end: bool) -> (r: DataPacketBuilder)
        ensures
            r == (DataPacketBuilder { is_frame_end: end, ..self }),
    {
        DataPacketBuilder { is_frame_end: end, ..self }
    }

    /// Replaces the sequence number.
    pub fn set_sequence_number(self, sequence_number: u64) -> (r: DataPacketBuilder)
        ensures
            r == (DataPacketBuilder { sequence_number, ..self }),
    {
        DataPacketBuilder { sequence_number, ..self }
    }

    /// Builds the packet.  A frame-start flag that disagrees with the
    /// presence of a header is a programming error and is ruled out here.
    pub fn build(self) -> (r: DataPacket)
        requires
            self.is_frame_start == (self.header is Some),
        ensures
            r.sequence_number == self.sequence_number,
            r.flags == spec_flags_byte(self.is_frame_start, self.is_frame_end, self.is_reliable),
            r.payload@ == self.payload@,
            r.header == self.header,
            r.wf(),
            r.spec_is_frame_start() == self.is_frame_start,
            r.spec_is_frame_end() == self.is_frame_end,
            r.spec_is_reliable() == self.is_reliable,
    {
        let start_flag: u8 = if self.is_frame_start {
            FLAG_FRAME_START
        } else {
            0
        };
        let end_flag: u8 = if self.is_frame_end {
            FLAG_FRAME_END
        } else {
            0
        };
        let reliable_flag: u8 = if self.is_reliable {
            FLAG_RELIABLE
        } else {
            0
        };
        let flags: u8 = (start_flag | end_flag) | reliable_flag;
        proof {
            lemma_flags_byte(self.is_frame_start, self.is_frame_end, self.is_reliable);
        }
        DataPacket {
            sequence_number: self.sequence_number,
            flags,
            payload: self.payload,
            header: self.header,
        }
    }
}

/// The mathematical value of a `DataPacket`: its payload as a byte sequence.
#[verifier::ext_equal]
pub struct DataPacketView {
    pub sequence_number: u64,
    pub flags: u8,
    pub payload: Seq<u8>,
    pub header: Option<FrameHeader>,
}

impl DataPacketView {
    /// A data packet carries a header exactly if its frame-start flag is
    /// set.
    pub open spec fn wf(self) -> bool {
        self.header is Some <==> (self.flags & FLAG_FRAME_START) != 0
    }

    /// Whether the reliable flag is set.
    pub open spec fn is_reliable(self) -> bool {
        (self.flags & FLAG_RELIABLE) != 0
    }

    /// Whether the frame-start flag is set.
    pub open spec fn is_frame_start(self) -> bool {
        (self.flags & FLAG_FRAME_START) != 0
    }

    /// Whether the frame-end flag is set.
    pub open spec fn is_frame_end(self) -> bool {
        (self.flags & FLAG_FRAME_END) != 0
    }
}

impl View for DataPacket {
    type V = DataPacketView;

    open spec fn view(&self) -> DataPacketView {
        DataPacketView {
            sequence_number: self.sequence_number,
            flags: self.flags,
            payload: self.payload@,
            header: self.header,
        }
    }
}

/// A status query: is the peer a listening endpoint, which protocol version
/// does it speak, does it support a named extension.
#[derive(Debug, Clone, PartialEq, Eq)]
pub enum StatusRequest {
    FastnetQuery,
    VersionQuery,
    ExtensionQuery(Vec<u8>),
}

/// The mathematical value of a `StatusRequest`.
#[verifier::ext_equal]
pub enum StatusRequestView {
    FastnetQuery,
    VersionQuery,
    ExtensionQuery(Seq<u8>),
}

impl View for StatusRequest {
    type V = StatusRequestView;

    open spec fn view(&self) -> StatusRequestView {
        match self {
            StatusRequest::FastnetQuery => StatusRequestView::FastnetQuery,
            StatusRequest::VersionQuery => StatusRequestView::VersionQuery,
            StatusRequest::ExtensionQuery(name) => StatusRequestView::ExtensionQuery(name@),
        }
    }
}

/// The answers to the status queries.
#[derive(Debug, Clone, PartialEq, Eq)]
pub enum StatusResponse {
    FastnetResponse(bool),
    VersionResponse(Vec<u8>),
    ExtensionResponse { name: Vec<u8>, supported: bool },
}

/// The mathematical value of a `StatusResponse`.
#[verifier::ext_equal]
pub enum StatusResponseView {
    FastnetResponse(bool),
    VersionResponse(Seq<u8>),
    ExtensionResponse { name: Seq<u8>, supported: bool },
}

impl View for StatusResponse {
    type V = StatusResponseView;

    open spec fn view(&self) -> StatusResponseView {
        match self {
            StatusResponse::FastnetResponse(listening) => StatusResponseView::FastnetResponse(
                *listening,
            ),
            StatusResponse::VersionResponse(version) => StatusResponseView::VersionResponse(
                version@,
            ),
            StatusResponse::ExtensionResponse { name, supported } =>
                StatusResponseView::ExtensionResponse { name: name@, supported: *supported },
        }
    }
}

/// One decoded datagram.
#[derive(Debug, Clone, PartialEq, Eq)]
pub enum Packet {
    /// Status query (connection channel).
    StatusRequest(StatusRequest),
    /// Status answer (connection channel).
    StatusResponse(StatusResponse),
    /// Handshake: request a connection, announcing the local UUID.
    Connect(Uuid),
    /// Handshake: the connection stands; the peer announces its UUID.
    Connected(Uuid),
    /// Handshake aborted, with a message.
    Aborted(Vec<u8>),
    /// Periodic liveness report (heartbeat channel).
    Heartbeat { counter: u64, sent: u64, received: u64 },
    /// Roundtrip probe (echo channel).
    Echo { endpoint: Uuid, probe: Uuid },
    /// A chunk of a frame on a user channel.
    Data { chan: i16, packet: DataPacket },
    /// Acknowledges the reliable data packet with this sequence number.
    Ack { chan: i16, sequence_number: u64 },
}

/// The mathematical value of a `Packet`.
#[verifier::ext_equal]
pub enum PacketView {
    StatusRequest(StatusRequestView),
    StatusResponse(StatusResponseView),
    Connect(Uuid),
    Connected(Uuid),
    Aborted(Seq<u8>),
    Heartbeat { counter: u64, sent: u64, received: u64 },
    Echo { endpoint: Uuid, probe: Uuid },
    Data { chan: i16, packet: DataPacketView },
    Ack { chan: i16, sequence_number: u64 },
}

impl View for Packet {
    type V = PacketView;

    open spec fn view(&self) -> PacketView {
        match self {
            Packet::StatusRequest(req) => PacketView::StatusRequest(req@),
            Packet::StatusResponse(resp) => PacketView::StatusResponse(resp@),
            Packet::Connect(id) => PacketView::Connect(*id),
            Packet::Connected(id) => PacketView::Connected(*id),
            Packet::Aborted(msg) => PacketView::Aborted(msg@),
            Packet::Heartbeat { counter, sent, received } => PacketView::Heartbeat {
                counter: *counter,
                sent: *sent,
                received: *received,
            },
            Packet::Echo { endpoint, probe } => PacketView::Echo {
                endpoint: *endpoint,
                probe: *probe,
            },
            Packet::Data { chan, packet } => PacketView::Data { chan: *chan, packet: packet@ },
            Packet::Ack { chan, sequence_number } => PacketView::Ack {
                chan: *chan,
                sequence_number: *sequence_number,
            },
        }
    }
}

} // verus!
