//! The per-peer connection state machine: drives the handshake with its
//! retry budgets, counts traffic, owns the per-channel receivers, the
//! retransmit manager and the roundtrip estimator, and turns incoming
//! packets and timer ticks into packets to transmit and events to report.

use vstd::prelude::*;

use crate::ack::AckManager;
use crate::estimator::RoundtripEstimator;
use crate::packets::Packet;
use crate::packets::PacketView;
use crate::packets::StatusRequest;
use crate::packets::StatusResponse;
use crate::packets::StatusResponseView;
use crate::packets::Uuid;
use crate::packets::fresh_uuid;
use crate::packets::DataPacket;
use crate::packets::DataPacketView;
use crate::receiver::DataPacketHandler;
use crate::receiver::PER_CHANNEL_MEMORY_LIMIT_DEFAULT;
use crate::receiver::spec_admission_rel;
use crate::receiver::spec_promotion_rel;
use crate::receiver::spec_delivery_rel;
use crate::estimator::spec_echo_rel;
use crate::ack::spec_find_index;
use crate::ack::spec_due_packets;
use crate::ack::spec_has_key;
use crate::ack::spec_packet_key;
use crate::frame::lemma_chunk_count_bounds;
use crate::status::spec_protocol_version;

verus! {

/// How many 200 ms ticks a status-phase probe may go unanswered.
pub const MAX_STATUS_ATTEMPTS: u32 = 10;

/// How many 200 ms ticks a connect probe may go unanswered.
pub const MAX_CONNECTION_ATTEMPTS: u32 = 25;

/// How many roundtrip samples make an estimate.
pub const REQUIRED_ECHOES: usize = 5;

/// An error reported to the user through `request_failed`.
#[derive(Debug, Clone, Copy, PartialEq, Eq, Structural)]
pub enum Error {
    TimedOut,
    HostNotFound,
    PeerNotFound,
    NotListening,
    IncompatibleVersions,
    ConnectionAborted,
    MessageTooLarge,
    IoError,
}

/// Where a connection stands in its lifecycle.
#[derive(Debug, Clone, Copy, PartialEq, Eq)]
pub enum ConnectionState {
    /// The handshake runs: probe for a listener, check versions, connect.
    Establishing { listening: bool, compatible_version: bool, attempts: u32, request_id: Option<
        u64,
    > },
    /// The handshake completed; traffic flows.
    Established,
    /// A disconnect is under way.
    Closing { request_id: Option<u64> },
    /// No connection stands.
    Closed,
}

/// What a connection asks its surroundings to do: transmit a packet to its
/// peer, or report something to the user.
#[derive(Debug, Clone, PartialEq, Eq)]
pub enum Event {
    /// Send this packet to the connection's peer.
    Transmit(Packet),
    /// Report that the connection stands.
    Connected(Uuid, Option<u64>),
    /// Report that the connection is gone.
    Disconnected(Uuid, Option<u64>),
    /// Deliver a reassembled message from a user channel.
    IncomingMessage(Uuid, u16, Vec<u8>),
    /// Report that a request failed.
    RequestFailed(u64, Error),
    /// Report a fresh roundtrip estimate, in milliseconds.
    RoundtripEstimate(Uuid, u32),
}

/// One 200 ms tick of the handshake with no response: the attempt counter
/// grows, and past its phase's budget the handshake dies.
pub open spec fn spec_establishing_tick(s: ConnectionState) -> ConnectionState {
    match s {
        ConnectionState::Establishing { listening, compatible_version, attempts, request_id } => {
            let cap = if !listening || !compatible_version {
                MAX_STATUS_ATTEMPTS
            } else {
                MAX_CONNECTION_ATTEMPTS
            };
            if attempts + 1 > cap {
                ConnectionState::Closed
            } else {
                ConnectionState::Establishing {
                    listening,
                    compatible_version,
                    attempts: (attempts + 1) as u32,
                    request_id,
                }
            }
        },
        _ => s,
    }
}

/// The handshake state after `n` unanswered ticks.
pub open spec fn spec_establishing_run(s: ConnectionState, n: nat) -> ConnectionState
    decreases n,
{
    if n == 0 {
        s
    } else {
        spec_establishing_run(spec_establishing_tick(s), (n - 1) as nat)
    }
}

/// A handshake left unanswered dies within the tick budget: from any
/// handshake state whose attempt counter is within its phase's cap, after
/// `MAX_STATUS_ATTEMPTS + MAX_STATUS_ATTEMPTS + MAX_CONNECTION_ATTEMPTS`
/// 200 ms ticks with no response the connection is closed.  The tick that
/// closes it reports `TimedOut` to the pending request exactly once, and a
/// closed connection's ticks do nothing more.
pub proof fn lemma_handshake_times_out(s: ConnectionState, n: nat)
    requires
        s matches ConnectionState::Establishing { listening, compatible_version, attempts, .. }
            && attempts <= (if !listening || !compatible_version {
            MAX_STATUS_ATTEMPTS
        } else {
            MAX_CONNECTION_ATTEMPTS
        }),
        n >= MAX_STATUS_ATTEMPTS + MAX_STATUS_ATTEMPTS + MAX_CONNECTION_ATTEMPTS,
    ensures
        spec_establishing_run(s, n) == ConnectionState::Closed,
{
    lemma_handshake_budget(s, n);
}

/// The tight form of the timeout bound: the ticks left before the phase's
/// budget runs out suffice.
proof fn lemma_handshake_budget(s: ConnectionState, n: nat)
    requires
        s matches ConnectionState::Establishing { listening, compatible_version, attempts, .. }
            && attempts <= (if !listening || !compatible_version {
            MAX_STATUS_ATTEMPTS
        } else {
            MAX_CONNECTION_ATTEMPTS
        }) && n >= (if !listening || !compatible_version {
            MAX_STATUS_ATTEMPTS
        } else {
            MAX_CONNECTION_ATTEMPTS
        }) + 1 - attempts,
    ensures
        spec_establishing_run(s, n) == ConnectionState::Closed,
    decreases n,
{
    let s2 = spec_establishing_tick(s);
    if s2 == ConnectionState::Closed {
        lemma_establishing_run_closed_stays((n - 1) as nat);
        assert(spec_establishing_run(s, n) == spec_establishing_run(s2, (n - 1) as nat));
    } else {
        lemma_handshake_budget(s2, (n - 1) as nat);
    }
}

/// A closed connection stays closed under handshake ticks.
proof fn lemma_establishing_run_closed_stays(n: nat)
    ensures
        spec_establishing_run(ConnectionState::Closed, n) == ConnectionState::Closed,
    decreases n,
{
    if n > 0 {
        lemma_establishing_run_closed_stays((n - 1) as nat);
    }
}

/// The events that transmit each of the given packets, in order.
pub open spec fn spec_transmits(ps: Seq<Packet>) -> Seq<Event> {
    ps.map_values(|p: Packet| Event::Transmit(p))
}

/// The events that deliver each of the given frames on one channel, in
/// order.
pub open spec fn spec_messages(id: Uuid, chan: i16, frames: Seq<Vec<u8>>) -> Seq<Event> {
    frames.map_values(|f: Vec<u8>| Event::IncomingMessage(id, chan as u16, f))
}

/// The connection with one more received packet counted (the count sticks
/// at its maximum), everything else as it was.
pub open spec fn spec_counted(pre: Connection) -> Connection {
    Connection {
        received_packets: if pre.received_packets < u64::MAX {
            (pre.received_packets + 1) as u64
        } else {
            u64::MAX
        },
        ..pre
    }
}

/// A fresh receiver for one user channel, as `DataPacketHandler::new`
/// leaves it.
pub open spec fn spec_fresh_receiver(r: DataPacketHandler, chan: i16) -> bool {
    &&& r.channel == chan
    &&& r.ignore_number == 0
    &&& r.last_reliable_frame == 0
    &&& r.contained_payload == 0
    &&& r.limit == PER_CHANNEL_MEMORY_LIMIT_DEFAULT
    &&& r.acked_packets@.len() == 0
    &&& r.unacked_packets@.len() == 0
}

/// The data-path relation: the channel's receiver (found, or fresh on first
/// use) admits the packet, emits the acks now due, and delivers the frames
/// now ready; the events are the re-emitted ack, then those acks, then the
/// deliveries, in order.  Every other receiver stays as it was.
pub open spec fn spec_data_rel(
    pre: Connection,
    post: Connection,
    chan: i16,
    dpv: DataPacketView,
    events: Seq<Event>,
) -> bool {
    exists|
        pre_r: DataPacketHandler,
        mid1: DataPacketHandler,
        mid2: DataPacketHandler,
        post_r: DataPacketHandler,
        dp: DataPacket,
        reack: Option<Packet>,
        acks: Seq<Packet>,
        frames: Seq<Vec<u8>>,
    |
        {
            &&& dp@ == dpv
            &&& #[trigger] spec_admission_rel(pre_r, mid1, dp, reack)
            &&& #[trigger] spec_promotion_rel(mid1, mid2, acks)
            &&& #[trigger] spec_delivery_rel(mid2, post_r, frames)
            &&& ((exists|idx: int|
                0 <= idx < pre.receivers@.len() && (#[trigger] pre.receivers@[idx]).channel == chan
                    && pre_r == pre.receivers@[idx] && post.receivers@ == pre.receivers@.update(
                    idx,
                    post_r,
                )) || (spec_fresh_receiver(pre_r, chan) && (forall|j: int|
                0 <= j < pre.receivers@.len() ==> (#[trigger] pre.receivers@[j]).channel != chan)
                && post.receivers@ == pre.receivers@.push(post_r)))
            &&& events == (match reack {
                Some(a) => seq![Event::Transmit(a)],
                None => Seq::<Event>::empty(),
            }) + spec_transmits(acks) + spec_messages(pre.local_id, chan, frames)
        }
}

/// The state half of one 200 ms tick: what any connection's fields become,
/// by its phase (probe retries while establishing, channel servicing and
/// retransmission while established, the closing transition, nothing when
/// closed).
pub open spec fn spec_tick200_state_rel(pre: Connection, post: Connection) -> bool {
    &&& post.wf()
    &&& post.local_id == pre.local_id
    &&& post.remote_id == pre.remote_id
    &&& post.endpoint_id == pre.endpoint_id
    &&& post.heartbeat_counter == pre.heartbeat_counter
    &&& post.roundtrip_estimator == pre.roundtrip_estimator
    &&& post.senders == pre.senders
    &&& (match pre.state {
        ConnectionState::Establishing { .. } => post.state == spec_establishing_tick(pre.state)
            && post.receivers == pre.receivers && post.ack_manager == pre.ack_manager
            && post.sent_packets == pre.sent_packets && post.received_packets
            == pre.received_packets,
        ConnectionState::Established => post.state == ConnectionState::Established
            && post.received_packets == pre.received_packets && post.receivers@.len()
            == pre.receivers@.len() && (forall|j: int|
            0 <= j < pre.receivers@.len() ==> #[trigger] spec_receiver_ticked(
                pre.receivers@[j],
                post.receivers@[j],
            )),
        ConnectionState::Closing { .. } => post == (Connection {
            state: ConnectionState::Closed,
            ..pre
        }),
        ConnectionState::Closed => post == pre,
    })
}

/// The state half of one 1000 ms tick: an established connection advances
/// its heartbeat counter and refreshes its echo probes; any other state is
/// untouched.
pub open spec fn spec_tick1000_state_rel(pre: Connection, post: Connection) -> bool {
    &&& post.wf()
    &&& post.local_id == pre.local_id
    &&& post.remote_id == pre.remote_id
    &&& post.endpoint_id == pre.endpoint_id
    &&& post.receivers == pre.receivers
    &&& post.senders == pre.senders
    &&& post.ack_manager == pre.ack_manager
    &&& (match pre.state {
        ConnectionState::Established => post.state == ConnectionState::Established
            && post.received_packets == pre.received_packets && post.heartbeat_counter == (
        if pre.heartbeat_counter < u64::MAX {
            (pre.heartbeat_counter + 1) as u64
        } else {
            u64::MAX
        }),
        _ => post == pre,
    })
}

/// The probe an establishing connection resends, by its phase.
pub open spec fn spec_establishing_probe(
    listening: bool,
    compatible_version: bool,
    local_id: Uuid,
) -> Packet {
    if !listening {
        Packet::StatusRequest(StatusRequest::FastnetQuery)
    } else if !compatible_version {
        Packet::StatusRequest(StatusRequest::VersionQuery)
    } else {
        Packet::Connect(local_id)
    }
}

/// The outbound state of one channel: the next sequence number to assign
/// and the last reliable frame sent, read from the first matching sender
/// entry; a channel never sent on starts at sequence number 1 with no
/// reliable frame behind it.
pub open spec fn spec_sender_state(l: Seq<ChannelSender>, chan: i16) -> (u64, u64)
    decreases l.len(),
{
    if l.len() == 0 {
        (1u64, 0u64)
    } else if l[0].channel == chan {
        (l[0].next_sequence_number, l[0].last_reliable_frame)
    } else {
        spec_sender_state(l.skip(1), chan)
    }
}

/// A first matching entry is what the lookup reads.
proof fn lemma_sender_state_found(l: Seq<ChannelSender>, chan: i16, i: int)
    requires
        0 <= i < l.len(),
        l[i].channel == chan,
        forall|j: int| 0 <= j < i ==> l[j].channel != chan,
    ensures
        spec_sender_state(l, chan) == (l[i].next_sequence_number, l[i].last_reliable_frame),
    decreases i,
{
    if i > 0 {
        lemma_sender_state_found(l.skip(1), chan, i - 1);
    }
}

/// Without a matching entry the lookup reads the fresh state.
proof fn lemma_sender_state_none(l: Seq<ChannelSender>, chan: i16)
    requires
        forall|j: int| 0 <= j < l.len() ==> l[j].channel != chan,
    ensures
        spec_sender_state(l, chan) == (1u64, 0u64),
    decreases l.len(),
{
    if l.len() > 0 {
        lemma_sender_state_none(l.skip(1), chan);
    }
}

/// Appending the channel's first entry makes it what the lookup reads.
proof fn lemma_sender_state_push(l: Seq<ChannelSender>, chan: i16, s: ChannelSender)
    requires
        forall|j: int| 0 <= j < l.len() ==> l[j].channel != chan,
        s.channel == chan,
    ensures
        spec_sender_state(l.push(s), chan) == (s.next_sequence_number, s.last_reliable_frame),
{
    lemma_sender_state_found(l.push(s), chan, l.len() as int);
}

/// Updating the channel's first entry makes it what the lookup reads.
proof fn lemma_sender_state_update(l: Seq<ChannelSender>, chan: i16, i: int, s: ChannelSender)
    requires
        0 <= i < l.len(),
        l[i].channel == chan,
        forall|j: int| 0 <= j < i ==> l[j].channel != chan,
        s.channel == chan,
    ensures
        spec_sender_state(l.update(i, s), chan) == (
            s.next_sequence_number,
            s.last_reliable_frame,
        ),
{
    lemma_sender_state_found(l.update(i, s), chan, i);
}

/// One 200 ms servicing round of a channel receiver: its due acks are
/// promoted, then every ready frame is delivered.
pub open spec fn spec_receiver_ticked(pre: DataPacketHandler, post: DataPacketHandler) -> bool {
    exists|mid: DataPacketHandler, acks: Seq<Packet>, frames: Seq<Vec<u8>>|
        #[trigger] spec_promotion_rel(pre, mid, acks) && #[trigger] spec_delivery_rel(
            mid,
            post,
            frames,
        )
}

/// What handling one incoming packet does: the packet is counted on entry,
/// then dispatched on its variant.  Status responses drive the handshake
/// per `spec_status_response_step`; `Connected` completes it; `Aborted`
/// kills it; echoes are returned and fed to the roundtrip estimator; data
/// packets go to their channel's receiver; acks retire their retransmit
/// record; heartbeats are counted and dropped; status requests and connect
/// requests are connectionless and left to the endpoint.
pub open spec fn spec_handle_packet_rel(
    pre: Connection,
    post: Connection,
    v: PacketView,
    now_ms: u64,
    consumed: bool,
    events: Seq<Event>,
) -> bool {
    let c = spec_counted(pre);
    &&& post.wf()
    &&& post.local_id == pre.local_id
    &&& post.endpoint_id == pre.endpoint_id
    &&& post.heartbeat_counter == pre.heartbeat_counter
    &&& (match v {
        PacketView::StatusRequest(_) => !consumed && post == c && events == Seq::<Event>::empty(),
        PacketView::Connect(_) => !consumed && post == c && events == Seq::<Event>::empty(),
        PacketView::Heartbeat { .. } => consumed && post == c && events == Seq::<Event>::empty(),
        PacketView::StatusResponse(resp) => consumed && (match pre.state {
            ConnectionState::Establishing { listening, compatible_version, attempts, request_id } => {
                let step = Connection::spec_status_response_step(
                    listening,
                    compatible_version,
                    request_id,
                    pre.local_id,
                    resp,
                );
                &&& post.state == step.0
                &&& post.remote_id == pre.remote_id
                &&& post.receivers == pre.receivers
                &&& post.senders == pre.senders
                &&& post.ack_manager == pre.ack_manager
                &&& post.roundtrip_estimator == pre.roundtrip_estimator
                &&& post.received_packets == c.received_packets
                &&& (match step.2 {
                    Some(err) => events == (match request_id {
                        Some(id) => seq![Event::RequestFailed(id, err)],
                        None => Seq::<Event>::empty(),
                    }) && post.sent_packets == pre.sent_packets,
                    None => events == step.1.map_values(|pk: Packet| Event::Transmit(pk)) && (
                    pre.sent_packets + step.1.len() <= u64::MAX ==> post.sent_packets
                        == pre.sent_packets + step.1.len()) && post.sent_packets
                        >= pre.sent_packets,
                })
            },
            _ => post == c && events == Seq::<Event>::empty(),
        }),
        PacketView::Connected(id) => consumed && (match pre.state {
            ConnectionState::Establishing { listening, compatible_version, attempts, request_id } => {
                if listening && compatible_version {
                    &&& post.state == ConnectionState::Established
                    &&& post.remote_id == id
                    &&& post.sent_packets == 0
                    &&& post.received_packets == 0
                    &&& post.receivers == pre.receivers
                    &&& post.senders == pre.senders
                    &&& post.ack_manager == pre.ack_manager
                    &&& post.roundtrip_estimator == pre.roundtrip_estimator
                    &&& events == seq![Event::Connected(pre.local_id, request_id)]
                } else {
                    post == c && events == Seq::<Event>::empty()
                }
            },
            _ => post == c && events == Seq::<Event>::empty(),
        }),
        PacketView::Aborted(_) => consumed && (match pre.state {
            ConnectionState::Establishing { listening, compatible_version, attempts, request_id } => {
                if listening && compatible_version {
                    &&& post == (Connection { state: ConnectionState::Closed, ..c })
                    &&& events == (match request_id {
                        Some(id) => seq![Event::RequestFailed(id, Error::ConnectionAborted)],
                        None => Seq::<Event>::empty(),
                    })
                } else {
                    post == c && events == Seq::<Event>::empty()
                }
            },
            _ => post == c && events == Seq::<Event>::empty(),
        }),
        PacketView::Echo { endpoint, probe } => consumed && (if endpoint == pre.endpoint_id {
            post == c && events == Seq::<Event>::empty()
        } else {
            &&& post.state == pre.state
            &&& post.remote_id == pre.remote_id
            &&& post.receivers == pre.receivers
            &&& post.senders == pre.senders
            &&& post.ack_manager == pre.ack_manager
            &&& post.received_packets == c.received_packets
            &&& post.sent_packets == (if pre.sent_packets < u64::MAX {
                (pre.sent_packets + 1) as u64
            } else {
                u64::MAX
            })
            &&& exists|er: Option<u32>|
                #[trigger] spec_echo_rel(
                    pre.roundtrip_estimator,
                    post.roundtrip_estimator,
                    probe,
                    now_ms,
                    er,
                ) && events == seq![Event::Transmit(Packet::Echo { endpoint, probe })] + (match er {
                    Some(estimate) => seq![Event::RoundtripEstimate(pre.local_id, estimate)],
                    None => Seq::<Event>::empty(),
                })
        }),
        PacketView::Data { chan, packet: dpv } => consumed && (if chan >= 0 && (dpv.header is Some
            <==> dpv.is_frame_start()) {
            &&& post.state == pre.state
            &&& post.remote_id == pre.remote_id
            &&& post.senders == pre.senders
            &&& post.ack_manager == pre.ack_manager
            &&& post.roundtrip_estimator == pre.roundtrip_estimator
            &&& post.received_packets == c.received_packets
            &&& post.sent_packets == pre.sent_packets
            &&& spec_data_rel(c, post, chan, dpv, events)
        } else {
            post == c && events == Seq::<Event>::empty()
        }),
        PacketView::Ack { chan, sequence_number } => consumed && {
            &&& post == (Connection { ack_manager: post.ack_manager, ..c })
            &&& (match spec_find_index(pre.ack_manager.packets@, (chan, sequence_number)) {
                Some(i) => post.ack_manager.packets@ == pre.ack_manager.packets@.remove(i),
                None => post.ack_manager.packets@ == pre.ack_manager.packets@,
            })
            &&& events == Seq::<Event>::empty()
        },
    })
}

/// The outbound framing state of one user channel: the next sequence
/// number to assign, and the start sequence number of the last reliable
/// frame sent, carried in later frame headers.
#[derive(Debug, Clone, Copy, PartialEq, Eq, Structural)]
pub struct ChannelSender {
    pub channel: i16,
    pub next_sequence_number: u64,
    pub last_reliable_frame: u64,
}

/// One logical connection to one peer.
#[derive(Debug, Clone, PartialEq, Eq)]
pub struct Connection {
    /// Where the connection stands.
    pub state: ConnectionState,
    /// This side's identity for the connection.
    pub local_id: Uuid,
    /// The peer's identity, fixed by the first `Connected`.
    pub remote_id: Uuid,
    /// Packets sent since establishment.
    pub sent_packets: u64,
    /// Packets received since establishment.
    pub received_packets: u64,
    /// Heartbeats emitted.
    pub heartbeat_counter: u64,
    /// The identity stamped into this side's echo probes.
    pub endpoint_id: Uuid,
    /// The roundtrip estimator for this peer.
    pub roundtrip_estimator: RoundtripEstimator,
    /// The retransmit manager for outgoing reliable packets.
    pub ack_manager: AckManager,
    /// The per-channel receivers, one per user channel seen.
    pub receivers: Vec<DataPacketHandler>,
    /// The per-channel outbound framing state.
    pub senders: Vec<ChannelSender>,
}

impl Connection {
    /// The owned machinery is well formed; the handshake counter stays in
    /// budget; each receiver serves a distinct user channel.
    pub open spec fn wf(self) -> bool {
        &&& self.roundtrip_estimator.wf()
        &&& self.ack_manager.wf()
        &&& forall|i: int|
            0 <= i < self.receivers@.len() ==> (#[trigger] self.receivers@[i]).wf()
                && self.receivers@[i].channel >= 0
        &&& forall|i: int, j: int|
            0 <= i < j < self.receivers@.len() ==> self.receivers@[i].channel
                != self.receivers@[j].channel
        &&& (self.state matches ConnectionState::Establishing { listening, compatible_version, attempts, .. }
            ==> attempts <= (if !listening || !compatible_version {
            MAX_STATUS_ATTEMPTS
        } else {
            MAX_CONNECTION_ATTEMPTS
        }))
    }

    /// A closed connection to a peer, with a fresh random echo identity.
    pub fn new(local_id: Uuid) -> (r: Connection)
        ensures
            r.wf(),
            r.state == ConnectionState::Closed,
            r.local_id == local_id,
            r.sent_packets == 0,
            r.received_packets == 0,
            r.heartbeat_counter == 0,
            r.receivers@.len() == 0,
            r.senders@.len() == 0,
            r.ack_manager.packets@.len() == 0,
            r.roundtrip_estimator.expected_echoes@.len() == 0,
            r.roundtrip_estimator.estimation@.len() == 0,
            r.roundtrip_estimator.required_echoes == REQUIRED_ECHOES,
            r.roundtrip_estimator.last_estimate is None,
    {
        Connection {
            state: ConnectionState::Closed,
            local_id,
            remote_id: Uuid { hi: 0, lo: 0 },
            sent_packets: 0,
            received_packets: 0,
            heartbeat_counter: 0,
            endpoint_id: fresh_uuid(),
            roundtrip_estimator: RoundtripEstimator::new(REQUIRED_ECHOES),
            ack_manager: AckManager::new(),
            receivers: Vec::new(),
            senders: Vec::new(),
        }
    }

    /// An established connection, made for a peer that connected to us.
    pub fn from_connection_request(local_id: Uuid, remote_id: Uuid) -> (r: Connection)
        ensures
            r.wf(),
            r.state == ConnectionState::Established,
            r.local_id == local_id,
            r.remote_id == remote_id,
            r.sent_packets == 0,
            r.received_packets == 0,
            r.heartbeat_counter == 0,
            r.receivers@.len() == 0,
            r.senders@.len() == 0,
            r.ack_manager.packets@.len() == 0,
            r.roundtrip_estimator.expected_echoes@.len() == 0,
            r.roundtrip_estimator.estimation@.len() == 0,
            r.roundtrip_estimator.required_echoes == REQUIRED_ECHOES,
            r.roundtrip_estimator.last_estimate is None,
    {
        let mut c = Connection::new(local_id);
        c.remote_id = remote_id;
        c.state = ConnectionState::Established;
        c
    }

    /// Starts the handshake from a closed connection: the state moves to
    /// its first phase and the first listener probe goes out.  Anywhere
    /// else it does nothing.
    pub fn establish(&mut self, request_id: Option<u64>) -> (events: Vec<Event>)
        requires
            old(self).wf(),
        ensures
            final(self).wf(),
            old(self).state == ConnectionState::Closed ==> final(self).state
                == (ConnectionState::Establishing {
                listening: false,
                compatible_version: false,
                attempts: 0,
                request_id,
            }) && events@ == seq![
                Event::Transmit(Packet::StatusRequest(StatusRequest::FastnetQuery)),
            ] && final(self).sent_packets == (if old(self).sent_packets < u64::MAX {
                (old(self).sent_packets + 1) as u64
            } else {
                u64::MAX
            }),
            old(self).state != ConnectionState::Closed ==> *final(self) == *old(self) && events@
                == Seq::<Event>::empty(),
            final(self).local_id == old(self).local_id,
            final(self).remote_id == old(self).remote_id,
            final(self).receivers == old(self).receivers,
            final(self).senders == old(self).senders,
            final(self).ack_manager == old(self).ack_manager,
            final(self).roundtrip_estimator == old(self).roundtrip_estimator,
            final(self).endpoint_id == old(self).endpoint_id,
            final(self).heartbeat_counter == old(self).heartbeat_counter,
            final(self).received_packets == old(self).received_packets,
    {
        let mut events: Vec<Event> = Vec::new();
        match self.state {
            ConnectionState::Closed => {
                self.state = ConnectionState::Establishing {
                    listening: false,
                    compatible_version: false,
                    attempts: 0,
                    request_id,
                };
                self.note_sent();
                events.push(Event::Transmit(Packet::StatusRequest(StatusRequest::FastnetQuery)));
                proof {
                    assert(events@ =~= seq![
                        Event::Transmit(Packet::StatusRequest(StatusRequest::FastnetQuery)),
                    ]);
                }
            },
            _ => {},
        }
        events
    }

    /// Counts one outgoing packet (the count sticks at its maximum).
    fn note_sent(&mut self)
        ensures
            *final(self) == (Connection {
                sent_packets: if old(self).sent_packets < u64::MAX {
                    (old(self).sent_packets + 1) as u64
                } else {
                    u64::MAX
                },
                ..*old(self)
            }),
    {
        if self.sent_packets < u64::MAX {
            self.sent_packets = self.sent_packets + 1;
        }
    }
}


impl Connection {
    /// What the handshake does with a status response, per the current
    /// phase: a dead listener or a foreign version kills it; a live
    /// listener advances it and draws the version probe; once both checks
    /// pass the connect probe goes out; every processed response resets
    /// the attempt counter.  Gives the new state, the probes to send, and
    /// the error to report, if any.
    pub open spec fn spec_status_response_step(
        listening: bool,
        compatible_version: bool,
        request_id: Option<u64>,
        local_id: Uuid,
        resp: StatusResponseView,
    ) -> (ConnectionState, Seq<Packet>, Option<Error>) {
        let connect_if_done = |l: bool, c: bool| if l && c {
            seq![Packet::Connect(local_id)]
        } else {
            Seq::<Packet>::empty()
        };
        let stay = |l: bool, c: bool| ConnectionState::Establishing {
            listening: l,
            compatible_version: c,
            attempts: 0,
            request_id,
        };
        match resp {
            StatusResponseView::FastnetResponse(now_listening) => if !listening {
                if !now_listening {
                    (ConnectionState::Closed, Seq::<Packet>::empty(), Some(Error::NotListening))
                } else {
                    (
                        stay(true, compatible_version),
                        seq![Packet::StatusRequest(StatusRequest::VersionQuery)]
                            + connect_if_done(true, compatible_version),
                        None,
                    )
                }
            } else {
                (stay(listening, compatible_version), connect_if_done(listening, compatible_version), None)
            },
            StatusResponseView::VersionResponse(v) => if !compatible_version {
                if v != spec_protocol_version() {
                    (
                        ConnectionState::Closed,
                        Seq::<Packet>::empty(),
                        Some(Error::IncompatibleVersions),
                    )
                } else {
                    (stay(listening, true), connect_if_done(listening, true), None)
                }
            } else {
                (stay(listening, compatible_version), connect_if_done(listening, compatible_version), None)
            },
            _ => (
                stay(listening, compatible_version),
                connect_if_done(listening, compatible_version),
                None,
            ),
        }
    }

    /// Handles a status response while establishing; outside the handshake
    /// it is dropped.
    fn handle_status_response(&mut self, resp: &StatusResponse) -> (events: Vec<Event>)
        requires
            old(self).wf(),
        ensures
            final(self).wf(),
            final(self).local_id == old(self).local_id,
            final(self).remote_id == old(self).remote_id,
            final(self).receivers == old(self).receivers,
            final(self).senders == old(self).senders,
            final(self).ack_manager == old(self).ack_manager,
            final(self).roundtrip_estimator == old(self).roundtrip_estimator,
            final(self).endpoint_id == old(self).endpoint_id,
            final(self).heartbeat_counter == old(self).heartbeat_counter,
            final(self).received_packets == old(self).received_packets,
            match old(self).state {
                ConnectionState::Establishing { listening, compatible_version, attempts, request_id } => ({
                    let step = Connection::spec_status_response_step(
                        listening,
                        compatible_version,
                        request_id,
                        old(self).local_id,
                        resp@,
                    );
                    &&& final(self).state == step.0
                    &&& (match step.2 {
                        Some(err) => events@ == (match request_id {
                            Some(id) => seq![Event::RequestFailed(id, err)],
                            None => Seq::<Event>::empty(),
                        }) && final(self).sent_packets == old(self).sent_packets,
                        None => events@ == step.1.map_values(|pk: Packet| Event::Transmit(pk)) && (
                        old(self).sent_packets + step.1.len() <= u64::MAX ==> final(self).sent_packets == old(self).sent_packets + step.1.len()) && final(self).sent_packets >= old(self).sent_packets,
                    })
                }),
                _ => *final(self) == *old(self) && events@ == Seq::<Event>::empty(),
            },
    {
        let mut events: Vec<Event> = Vec::new();
        match self.state {
            ConnectionState::Establishing { listening, compatible_version, attempts, request_id } => {
                let mut new_listening = listening;
                let mut new_compatible = compatible_version;
                match resp {
                    StatusResponse::FastnetResponse(now_listening) if !listening => {
                        if !*now_listening {
                            match request_id {
                                Some(id) => {
                                    events.push(Event::RequestFailed(id, Error::NotListening));
                                    proof {
                                        assert(events@ =~= seq![
                                            Event::RequestFailed(id, Error::NotListening),
                                        ]);
                                    }
                                },
                                None => {},
                            }
                            self.state = ConnectionState::Closed;
                            return events;
                        }
                        new_listening = true;
                        self.note_sent();
                        events.push(
                            Event::Transmit(Packet::StatusRequest(StatusRequest::VersionQuery)),
                        );
                    },
                    StatusResponse::VersionResponse(v) if !compatible_version => {
                        let expected = crate::status::protocol_version();
                        if !crate::status::bytes_equal(v, &expected) {
                            match request_id {
                                Some(id) => {
                                    events.push(
                                        Event::RequestFailed(id, Error::IncompatibleVersions),
                                    );
                                    proof {
                                        assert(events@ =~= seq![
                                            Event::RequestFailed(id, Error::IncompatibleVersions),
                                        ]);
                                    }
                                },
                                None => {},
                            }
                            self.state = ConnectionState::Closed;
                            return events;
                        }
                        new_compatible = true;
                    },
                    _ => {},
                }
                if new_listening && new_compatible {
                    self.note_sent();
                    events.push(Event::Transmit(Packet::Connect(self.local_id)));
                }
                self.state = ConnectionState::Establishing {
                    listening: new_listening,
                    compatible_version: new_compatible,
                    attempts: 0,
                    request_id,
                };
                proof {
                    let step = Connection::spec_status_response_step(
                        listening,
                        compatible_version,
                        request_id,
                        old(self).local_id,
                        resp@,
                    );
                    assert(events@ =~= step.1.map_values(|pk: Packet| Event::Transmit(pk)));
                }
            },
            _ => {},
        }
        events
    }

    /// Handles the peer's `Connected` answer: once both handshake checks
    /// have passed, the peer's identity is fixed, the traffic counters
    /// reset, the connection stands, and the user hears of it.  Anywhere
    /// else the packet is dropped.
    fn handle_connected(&mut self, id: Uuid) -> (events: Vec<Event>)
        requires
            old(self).wf(),
        ensures
            final(self).wf(),
            final(self).local_id == old(self).local_id,
            final(self).receivers == old(self).receivers,
            final(self).senders == old(self).senders,
            final(self).ack_manager == old(self).ack_manager,
            final(self).roundtrip_estimator == old(self).roundtrip_estimator,
            final(self).endpoint_id == old(self).endpoint_id,
            final(self).heartbeat_counter == old(self).heartbeat_counter,
            match old(self).state {
                ConnectionState::Establishing { listening, compatible_version, attempts, request_id } => {
                    if listening && compatible_version {
                        &&& final(self).state == ConnectionState::Established
                        &&& final(self).remote_id == id
                        &&& final(self).sent_packets == 0
                        &&& final(self).received_packets == 0
                        &&& events@ == seq![
                            Event::Connected(old(self).local_id, request_id),
                        ]
                    } else {
                        *final(self) == *old(self) && events@ == Seq::<Event>::empty()
                    }
                },
                _ => *final(self) == *old(self) && events@ == Seq::<Event>::empty(),
            },
    {
        let mut events: Vec<Event> = Vec::new();
        match self.state {
            ConnectionState::Establishing { listening, compatible_version, request_id, .. } => {
                if listening && compatible_version {
                    self.remote_id = id;
                    self.sent_packets = 0;
                    self.received_packets = 0;
                    self.state = ConnectionState::Established;
                    events.push(Event::Connected(self.local_id, request_id));
                    proof {
                        assert(events@ =~= seq![Event::Connected(old(self).local_id, request_id)]);
                    }
                }
            },
            _ => {},
        }
        events
    }

    /// Handles the peer's abort notice: past the status phase it closes
    /// the connection and fails the pending request once.  Anywhere else
    /// the packet is dropped.
    fn handle_aborted(&mut self) -> (events: Vec<Event>)
        requires
            old(self).wf(),
        ensures
            final(self).wf(),
            final(self).local_id == old(self).local_id,
            final(self).remote_id == old(self).remote_id,
            final(self).receivers == old(self).receivers,
            final(self).senders == old(self).senders,
            final(self).ack_manager == old(self).ack_manager,
            final(self).roundtrip_estimator == old(self).roundtrip_estimator,
            final(self).endpoint_id == old(self).endpoint_id,
            final(self).heartbeat_counter == old(self).heartbeat_counter,
            final(self).sent_packets == old(self).sent_packets,
            final(self).received_packets == old(self).received_packets,
            match old(self).state {
                ConnectionState::Establishing { listening, compatible_version, attempts, request_id } => {
                    if listening && compatible_version {
                        &&& final(self).state == ConnectionState::Closed
                        &&& events@ == (match request_id {
                            Some(id) => seq![
                                Event::RequestFailed(id, Error::ConnectionAborted),
                            ],
                            None => Seq::<Event>::empty(),
                        })
                    } else {
                        *final(self) == *old(self) && events@ == Seq::<Event>::empty()
                    }
                },
                _ => *final(self) == *old(self) && events@ == Seq::<Event>::empty(),
            },
    {
        let mut events: Vec<Event> = Vec::new();
        match self.state {
            ConnectionState::Establishing { listening, compatible_version, request_id, .. } => {
                if listening && compatible_version {
                    self.state = ConnectionState::Closed;
                    match request_id {
                        Some(id) => {
                            events.push(Event::RequestFailed(id, Error::ConnectionAborted));
                            proof {
                                assert(events@ =~= seq![
                                    Event::RequestFailed(id, Error::ConnectionAborted),
                                ]);
                            }
                        },
                        None => {},
                    }
                }
            },
            _ => {},
        }
        events
    }

    /// Position of the receiver serving this channel, if any.
    fn find_receiver(&self, chan: i16) -> (r: Option<usize>)
        ensures
            match r {
                Some(i) => i < self.receivers@.len() && self.receivers@[i as int].channel == chan,
                None => forall|j: int|
                    0 <= j < self.receivers@.len() ==> (#[trigger] self.receivers@[j]).channel
                        != chan,
            },
    {
        let mut i: usize = 0;
        while i < self.receivers.len()
            invariant
                i <= self.receivers@.len(),
                forall|j: int| 0 <= j < i ==> (#[trigger] self.receivers@[j]).channel != chan,
            decreases self.receivers@.len() - i,
        {
            if self.receivers[i].channel == chan {
                return Some(i);
            }
            i = i + 1;
        }
        None
    }

    /// Hands a data packet to its channel's receiver (created on first
    /// use), emits the acks that are due, and delivers every frame that is
    /// ready.
    fn handle_data_packet(&mut self, chan: i16, packet: DataPacket) -> (events: Vec<Event>)
        requires
            old(self).wf(),
            chan >= 0,
            packet.wf(),
        ensures
            final(self).wf(),
            final(self).state == old(self).state,
            final(self).local_id == old(self).local_id,
            final(self).remote_id == old(self).remote_id,
            final(self).endpoint_id == old(self).endpoint_id,
            final(self).heartbeat_counter == old(self).heartbeat_counter,
            final(self).sent_packets == old(self).sent_packets,
            final(self).received_packets == old(self).received_packets,
            final(self).senders == old(self).senders,
            final(self).ack_manager == old(self).ack_manager,
            final(self).roundtrip_estimator == old(self).roundtrip_estimator,
            spec_data_rel(*old(self), *final(self), chan, packet@, events@),
    {
        let mut events: Vec<Event> = Vec::new();
        let ghost dpg = packet;
        let ghost receivers0 = self.receivers@;
        let ghost created: bool;
        let idx = match self.find_receiver(chan) {
            Some(i) => {
                proof {
                    created = false;
                }
                i
            },
            None => {
                let r = DataPacketHandler::new(chan);
                self.receivers.push(r);
                proof {
                    created = true;
                    assert(forall|j: int|
                        0 <= j < receivers0.len() ==> #[trigger] self.receivers@[j]
                            == receivers0[j]);
                }
                self.receivers.len() - 1
            },
        };
        let ghost pre = self.receivers@;
        let ghost pre_r = self.receivers@[idx as int];
        let receiver = &mut self.receivers[idx];
        let reack = receiver.handle_incoming_packet(packet);
        let ghost reack_g = reack;
        let ghost mid1 = *receiver;
        match reack {
            Some(ack) => {
                events.push(Event::Transmit(ack));
            },
            None => {},
        }
        let ghost base0 = events@;
        let acks = receiver.do_acks();
        let ghost mid2 = *receiver;
        let frames = receiver.deliver();
        let ghost post_r = *receiver;
        proof {
            assert(forall|j: int|
                0 <= j < pre.len() && j != idx ==> #[trigger] self.receivers@[j] == pre[j]);
            assert(self.receivers@ =~= pre.update(idx as int, post_r));
            if created {
                assert(self.receivers@ =~= receivers0.push(post_r));
            }
        }
        let mut acks_w: Ghost<Seq<Packet>> = Ghost(Seq::<Packet>::empty());
        let mut k: usize = 0;
        proof {
            assert(events@ =~= base0 + spec_transmits(acks_w@));
        }
        while k < acks.len()
            invariant
                k <= acks@.len(),
                acks_w@.len() == k,
                forall|x: int| 0 <= x < k ==> (#[trigger] acks_w@[x])@ == acks@[x]@,
                forall|x: int|
                    0 <= x < acks@.len() ==> (#[trigger] acks@[x]@) matches PacketView::Ack { .. },
                events@ == base0 + spec_transmits(acks_w@),
            decreases acks@.len() - k,
        {
            let cl = clone_control_packet(&acks[k]);
            acks_w = Ghost(acks_w@.push(cl));
            events.push(Event::Transmit(cl));
            proof {
                assert(events@ =~= base0 + spec_transmits(acks_w@));
            }
            k = k + 1;
        }
        let ghost base1 = events@;
        let local = self.local_id;
        let mut frames_w: Ghost<Seq<Vec<u8>>> = Ghost(Seq::<Vec<u8>>::empty());
        let mut f: usize = 0;
        proof {
            assert(events@ =~= base1 + spec_messages(local, chan, frames_w@));
        }
        while f < frames.len()
            invariant
                f <= frames@.len(),
                frames_w@.len() == f,
                chan >= 0,
                forall|x: int| 0 <= x < f ==> (#[trigger] frames_w@[x])@ == frames@[x]@,
                events@ == base1 + spec_messages(local, chan, frames_w@),
            decreases frames@.len() - f,
        {
            let payload = clone_byte_vec(&frames[f]);
            frames_w = Ghost(frames_w@.push(payload));
            let chan_u16: u16 = chan as u16;
            events.push(Event::IncomingMessage(local, chan_u16, payload));
            proof {
                assert(events@ =~= base1 + spec_messages(local, chan, frames_w@));
            }
            f = f + 1;
        }
        proof {
            assert(spec_promotion_rel(mid1, mid2, acks_w@));
            assert(spec_delivery_rel(mid2, post_r, frames_w@));
            assert(events@ =~= (match reack_g {
                Some(a) => seq![Event::Transmit(a)],
                None => Seq::<Event>::empty(),
            }) + spec_transmits(acks_w@) + spec_messages(old(self).local_id, chan, frames_w@));
            assert(spec_data_rel(*old(self), *self, chan, dpg@, events@)) by {
                assert(spec_admission_rel(pre_r, mid1, dpg, reack_g));
            }
        }
        events
    }

    /// Handles one incoming packet, counting it on entry.  Returns whether
    /// this connection consumed it, and what to do about it; the whole
    /// behaviour is `spec_handle_packet_rel`.  Status requests and connect
    /// requests are connectionless and fall through to the endpoint.
    pub fn handle_incoming_packet(&mut self, packet: &Packet, now_ms: u64) -> (r: (
        bool,
        Vec<Event>,
    ))
        requires
            old(self).wf(),
        ensures
            final(self).wf(),
            final(self).local_id == old(self).local_id,
            r.0 == !(packet@ matches PacketView::StatusRequest(_) || packet@
                matches PacketView::Connect(_)),
            spec_handle_packet_rel(*old(self), *final(self), packet@, now_ms, r.0, r.1@),
    {
        self.note_received();
        let ghost c = *self;
        match packet {
            Packet::StatusResponse(resp) => {
                let events = self.handle_status_response(resp);
                (true, events)
            },
            Packet::Echo { endpoint, probe } => {
                let mut events: Vec<Event> = Vec::new();
                if !(endpoint.hi == self.endpoint_id.hi && endpoint.lo == self.endpoint_id.lo) {
                    self.note_sent();
                    events.push(
                        Event::Transmit(Packet::Echo { endpoint: *endpoint, probe: *probe }),
                    );
                    let er = self.roundtrip_estimator.handle_echo(*probe, now_ms);
                    match er {
                        Some(estimate) => {
                            events.push(Event::RoundtripEstimate(self.local_id, estimate));
                            proof {
                                assert(events@ =~= seq![
                                    Event::Transmit(
                                        Packet::Echo { endpoint: *endpoint, probe: *probe },
                                    ),
                                    Event::RoundtripEstimate(old(self).local_id, estimate),
                                ]);
                            }
                        },
                        None => {
                            proof {
                                assert(events@ =~= seq![
                                    Event::Transmit(
                                        Packet::Echo { endpoint: *endpoint, probe: *probe },
                                    ),
                                ]);
                            }
                        },
                    }
                    proof {
                        assert(spec_echo_rel(
                            old(self).roundtrip_estimator,
                            self.roundtrip_estimator,
                            *probe,
                            now_ms,
                            er,
                        ));
                        assert(events@ =~= seq![
                            Event::Transmit(Packet::Echo { endpoint: *endpoint, probe: *probe }),
                        ] + (match er {
                            Some(estimate) => seq![
                                Event::RoundtripEstimate(old(self).local_id, estimate),
                            ],
                            None => Seq::<Event>::empty(),
                        }));
                    }
                } else {
                    proof {
                        assert(*self == c);
                    }
                }
                (true, events)
            },
            Packet::Heartbeat { .. } => (true, Vec::new()),
            Packet::Connected(id) => {
                let events = self.handle_connected(*id);
                (true, events)
            },
            Packet::Aborted(_) => {
                let events = self.handle_aborted();
                (true, events)
            },
            Packet::Data { chan, packet: dp } => {
                if *chan >= 0 && dp.is_frame_start() == dp.header.is_some() {
                    let copy = clone_data_packet_pub(dp);
                    proof {
                        assert(copy@ == dp@);
                        assert(copy.wf());
                    }
                    let events = self.handle_data_packet(*chan, copy);
                    proof {
                        assert(spec_data_rel(c, *self, *chan, dp@, events@));
                    }
                    (true, events)
                } else {
                    (true, Vec::new())
                }
            },
            Packet::Ack { .. } => {
                let handled = self.ack_manager.submit_packet(
                    clone_control_packet(packet),
                    now_ms,
                );
                (true, Vec::new())
            },
            _ => (false, Vec::new()),
        }
    }

    /// Counts one incoming packet (the count sticks at its maximum).
    fn note_received(&mut self)
        ensures
            *final(self) == (Connection {
                received_packets: if old(self).received_packets < u64::MAX {
                    (old(self).received_packets + 1) as u64
                } else {
                    u64::MAX
                },
                ..*old(self)
            }),
    {
        if self.received_packets < u64::MAX {
            self.received_packets = self.received_packets + 1;
        }
    }

    /// The 200 ms tick.  While establishing it retries the current probe
    /// and enforces the phase's attempt budget, exactly as
    /// `spec_establishing_tick` describes; once past the budget the
    /// pending request fails with `TimedOut` and the connection closes.
    /// While established it lets every channel receiver re-ack and
    /// deliver, and retransmits whatever the ack manager holds due.  A
    /// closing connection finishes its transition to closed (its
    /// `Disconnected` report was made when the disconnect was requested).
    pub fn tick200(&mut self, now_ms: u64) -> (events: Vec<Event>)
        requires
            old(self).wf(),
        ensures
            final(self).wf(),
            final(self).local_id == old(self).local_id,
            final(self).remote_id == old(self).remote_id,
            final(self).endpoint_id == old(self).endpoint_id,
            final(self).heartbeat_counter == old(self).heartbeat_counter,
            final(self).roundtrip_estimator == old(self).roundtrip_estimator,
            final(self).senders == old(self).senders,
            spec_tick200_state_rel(*old(self), *final(self)),
            match old(self).state {
                ConnectionState::Establishing { listening, compatible_version, attempts, request_id } => {
                    &&& final(self).state == spec_establishing_tick(old(self).state)
                    &&& final(self).receivers == old(self).receivers
                    &&& final(self).ack_manager == old(self).ack_manager
                    &&& final(self).sent_packets == old(self).sent_packets
                    &&& final(self).received_packets == old(self).received_packets
                    &&& (final(self).state == ConnectionState::Closed ==> events@ == (
                    match request_id {
                        Some(id) => seq![Event::RequestFailed(id, Error::TimedOut)],
                        None => Seq::<Event>::empty(),
                    }))
                    &&& (final(self).state != ConnectionState::Closed ==> events@ == seq![
                        Event::Transmit(
                            if !listening {
                                Packet::StatusRequest(StatusRequest::FastnetQuery)
                            } else if !compatible_version {
                                Packet::StatusRequest(StatusRequest::VersionQuery)
                            } else {
                                Packet::Connect(old(self).local_id)
                            },
                        ),
                    ])
                },
                ConnectionState::Established => {
                    &&& final(self).state == ConnectionState::Established
                    &&& final(self).received_packets == old(self).received_packets
                    &&& final(self).receivers@.len() == old(self).receivers@.len()
                    &&& (forall|j: int|
                        0 <= j < old(self).receivers@.len() ==> #[trigger] spec_receiver_ticked(
                            old(self).receivers@[j],
                            final(self).receivers@[j],
                        ))
                    &&& final(self).ack_manager.packets@.len() == old(self).ack_manager.packets@.len()
                    &&& (forall|x: int|
                        0 <= x < old(self).ack_manager.packets@.len() ==> (#[trigger] final(self).ack_manager.packets@[x]).packet@ == old(self).ack_manager.packets@[x].packet@)
                    &&& (forall|x: int|
                        0 <= x < old(self).ack_manager.packets@.len() && old(self).ack_manager.packets@[x].next_time_ms > now_ms ==> (#[trigger] final(self).ack_manager.packets@[x]) == old(self).ack_manager.packets@[x])
                    &&& (forall|x: int|
                        0 <= x < old(self).ack_manager.packets@.len() && old(self).ack_manager.packets@[x].next_time_ms <= now_ms ==> (#[trigger] final(self).ack_manager.packets@[x]).next_time_ms == (if now_ms + old(self).ack_manager.packets@[x].duration_ms <= u64::MAX {
                            (now_ms + old(self).ack_manager.packets@[x].duration_ms) as u64
                        } else {
                            u64::MAX
                        }))
                    &&& ({
                        let due = spec_due_packets(old(self).ack_manager.packets@, now_ms);
                        &&& events@.len() >= due.len()
                        &&& (forall|k: int|
                            0 <= k < due.len() ==> ((#[trigger] events@[events@.len() - due.len()
                                + k]) matches Event::Transmit(p) && p@ == due[k]))
                        &&& (old(self).sent_packets + due.len() <= u64::MAX ==> final(self).sent_packets == old(self).sent_packets + due.len())
                        &&& final(self).sent_packets >= old(self).sent_packets
                    })
                },
                ConnectionState::Closing { request_id } => {
                    &&& *final(self) == (Connection {
                        state: ConnectionState::Closed,
                        ..*old(self)
                    })
                    &&& events@ == Seq::<Event>::empty()
                },
                ConnectionState::Closed => *final(self) == *old(self) && events@
                    == Seq::<Event>::empty(),
            },
    {
        let mut events: Vec<Event> = Vec::new();
        match self.state {
            ConnectionState::Establishing { listening, compatible_version, attempts, request_id } => {
                let cap = if !listening || !compatible_version {
                    MAX_STATUS_ATTEMPTS
                } else {
                    MAX_CONNECTION_ATTEMPTS
                };
                if attempts + 1 > cap {
                    match request_id {
                        Some(id) => {
                            events.push(Event::RequestFailed(id, Error::TimedOut));
                            proof {
                                assert(events@ =~= seq![Event::RequestFailed(id, Error::TimedOut)]);
                            }
                        },
                        None => {},
                    }
                    self.state = ConnectionState::Closed;
                } else {
                    self.state = ConnectionState::Establishing {
                        listening,
                        compatible_version,
                        attempts: attempts + 1,
                        request_id,
                    };
                    let probe = if !listening {
                        Packet::StatusRequest(StatusRequest::FastnetQuery)
                    } else if !compatible_version {
                        Packet::StatusRequest(StatusRequest::VersionQuery)
                    } else {
                        Packet::Connect(self.local_id)
                    };
                    events.push(Event::Transmit(probe));
                    proof {
                        assert(events@ =~= seq![
                            Event::Transmit(
                                if !listening {
                                    Packet::StatusRequest(StatusRequest::FastnetQuery)
                                } else if !compatible_version {
                                    Packet::StatusRequest(StatusRequest::VersionQuery)
                                } else {
                                    Packet::Connect(old(self).local_id)
                                },
                            ),
                        ]);
                    }
                }
            },
            ConnectionState::Established => {
                let mut i: usize = 0;
                while i < self.receivers.len()
                    invariant
                        i <= old(self).receivers@.len(),
                        old(self).state == ConnectionState::Established,
                        self.wf(),
                        self.state == ConnectionState::Established,
                        self.local_id == old(self).local_id,
                        self.remote_id == old(self).remote_id,
                        self.endpoint_id == old(self).endpoint_id,
                        self.heartbeat_counter == old(self).heartbeat_counter,
                        self.sent_packets == old(self).sent_packets,
                        self.received_packets == old(self).received_packets,
                        self.roundtrip_estimator == old(self).roundtrip_estimator,
                        self.senders == old(self).senders,
                        self.ack_manager == old(self).ack_manager,
                        self.receivers@.len() == old(self).receivers@.len(),
                        forall|j: int|
                            i <= j < old(self).receivers@.len() ==> #[trigger] self.receivers@[j]
                                == old(self).receivers@[j],
                        forall|j: int|
                            0 <= j < i ==> #[trigger] spec_receiver_ticked(
                                old(self).receivers@[j],
                                self.receivers@[j],
                            ),
                    decreases self.receivers@.len() - i,
                {
                    let ghost pre = self.receivers@;
                    let receiver = &mut self.receivers[i];
                    let acks = receiver.do_acks();
                    let ghost mid_g = *receiver;
                    let frames = receiver.deliver();
                    let ghost post_g = *receiver;
                    let chan = receiver.channel;
                    proof {
                        assert(forall|j: int|
                            0 <= j < pre.len() && j != i ==> #[trigger] self.receivers@[j]
                                == pre[j]);
                        assert(spec_promotion_rel(old(self).receivers@[i as int], mid_g, acks@));
                        assert(spec_delivery_rel(mid_g, self.receivers@[i as int], frames@));
                        assert(spec_receiver_ticked(
                            old(self).receivers@[i as int],
                            self.receivers@[i as int],
                        ));
                    }
                    let mut k: usize = 0;
                    while k < acks.len()
                        invariant
                            k <= acks@.len(),
                            forall|x: int|
                                0 <= x < acks@.len() ==> (#[trigger] acks@[x]@) matches PacketView::Ack { .. },
                        decreases acks@.len() - k,
                    {
                        events.push(Event::Transmit(clone_control_packet(&acks[k])));
                        k = k + 1;
                    }
                    let local = self.local_id;
                    let mut f: usize = 0;
                    while f < frames.len()
                        invariant
                            f <= frames@.len(),
                        decreases frames@.len() - f,
                    {
                        let payload = clone_byte_vec(&frames[f]);
                        let chan_u16: u16 = if chan >= 0 {
                            chan as u16
                        } else {
                            0
                        };
                        events.push(Event::IncomingMessage(local, chan_u16, payload));
                        f = f + 1;
                    }
                    i = i + 1;
                }
                let due = self.ack_manager.iter_needs_ack(now_ms);
                let ghost acked_after = self.ack_manager;
                let ghost n0 = events@.len() as int;
                let ghost due_views = spec_due_packets(old(self).ack_manager.packets@, now_ms);
                let mut d: usize = 0;
                while d < due.len()
                    invariant
                        d <= due@.len(),
                        old(self).state == ConnectionState::Established,
                        self.wf(),
                        self.state == ConnectionState::Established,
                        self.local_id == old(self).local_id,
                        self.remote_id == old(self).remote_id,
                        self.endpoint_id == old(self).endpoint_id,
                        self.heartbeat_counter == old(self).heartbeat_counter,
                        self.received_packets == old(self).received_packets,
                        self.roundtrip_estimator == old(self).roundtrip_estimator,
                        self.senders == old(self).senders,
                        self.ack_manager == acked_after,
                        acked_after.packets@.len() == old(self).ack_manager.packets@.len(),
                        forall|x: int|
                            0 <= x < old(self).ack_manager.packets@.len() ==> (
                            #[trigger] acked_after.packets@[x]).packet@ == old(self).ack_manager.packets@[x].packet@,
                        forall|x: int|
                            0 <= x < old(self).ack_manager.packets@.len() && old(self).ack_manager.packets@[x].next_time_ms > now_ms ==> (
                            #[trigger] acked_after.packets@[x]) == old(self).ack_manager.packets@[x],
                        forall|x: int|
                            0 <= x < old(self).ack_manager.packets@.len() && old(self).ack_manager.packets@[x].next_time_ms <= now_ms ==> (
                            #[trigger] acked_after.packets@[x]).next_time_ms == (if now_ms + old(self).ack_manager.packets@[x].duration_ms <= u64::MAX {
                                (now_ms + old(self).ack_manager.packets@[x].duration_ms) as u64
                            } else {
                                u64::MAX
                            }),
                        self.receivers@.len() == old(self).receivers@.len(),
                        forall|j: int|
                            0 <= j < old(self).receivers@.len() ==> #[trigger] spec_receiver_ticked(
                                old(self).receivers@[j],
                                self.receivers@[j],
                            ),
                        due_views.len() == due@.len(),
                        forall|k: int| 0 <= k < due@.len() ==> (#[trigger] due@[k])@ == due_views[k],
                        old(self).sent_packets + d <= u64::MAX ==> self.sent_packets == old(self).sent_packets + d,
                        self.sent_packets >= old(self).sent_packets,
                        0 <= n0,
                        events@.len() == n0 + d,
                        forall|k: int|
                            0 <= k < d ==> ((#[trigger] events@[n0 + k]) matches Event::Transmit(
                                p,
                            ) && p@ == due_views[k]),
                    decreases due@.len() - d,
                {
                    self.note_sent();
                    let ghost ev0 = events@;
                    events.push(Event::Transmit(clone_any_packet(&due[d])));
                    proof {
                        assert(events@[n0 + d] matches Event::Transmit(p) && p@ == due_views[
                            d as int
                        ]);
                        assert forall|k: int| 0 <= k < d + 1 implies ((#[trigger] events@[n0 + k])
                            matches Event::Transmit(p) && p@ == due_views[k]) by {
                            if k < d {
                                assert(events@[n0 + k] == ev0[n0 + k]);
                            }
                        }
                    }
                    d = d + 1;
                }
            },
            ConnectionState::Closing { .. } => {
                self.state = ConnectionState::Closed;
            },
            _ => {},
        }
        events
    }

    /// The 1000 ms tick.  While established it emits the heartbeat with
    /// the traffic counters (then advances the heartbeat counter), and lets
    /// the roundtrip estimator drop stale probes and send fresh ones; every
    /// packet sent is counted.
    pub fn tick1000(&mut self, now_ms: u64) -> (events: Vec<Event>)
        requires
            old(self).wf(),
        ensures
            final(self).wf(),
            final(self).local_id == old(self).local_id,
            final(self).remote_id == old(self).remote_id,
            final(self).endpoint_id == old(self).endpoint_id,
            final(self).receivers == old(self).receivers,
            final(self).senders == old(self).senders,
            final(self).ack_manager == old(self).ack_manager,
            spec_tick1000_state_rel(*old(self), *final(self)),
            match old(self).state {
                ConnectionState::Established => {
                    &&& final(self).state == ConnectionState::Established
                    &&& final(self).received_packets == old(self).received_packets
                    &&& events@.len() >= 1
                    &&& events@[0] == Event::Transmit(
                        Packet::Heartbeat {
                            counter: old(self).heartbeat_counter,
                            sent: old(self).sent_packets,
                            received: old(self).received_packets,
                        },
                    )
                    &&& final(self).heartbeat_counter == (
                    if old(self).heartbeat_counter < u64::MAX {
                        (old(self).heartbeat_counter + 1) as u64
                    } else {
                        u64::MAX
                    })
                    &&& exists|issued: Seq<PacketView>|
                        #[trigger] crate::estimator::spec_estimator_tick_rel(
                            old(self).roundtrip_estimator,
                            final(self).roundtrip_estimator,
                            now_ms,
                            old(self).endpoint_id,
                            issued,
                        ) && events@.len() == 1 + issued.len() && (forall|k: int|
                            0 <= k < issued.len() ==> ((#[trigger] events@[1 + k])
                                matches Event::Transmit(p) && p@ == issued[k]))
                    &&& (old(self).sent_packets + events@.len() <= u64::MAX ==> final(self).sent_packets == old(self).sent_packets + events@.len())
                    &&& final(self).sent_packets >= old(self).sent_packets
                },
                _ => *final(self) == *old(self) && events@ == Seq::<Event>::empty(),
            },
    {
        let mut events: Vec<Event> = Vec::new();
        match self.state {
            ConnectionState::Established => {
                let heartbeat = Packet::Heartbeat {
                    counter: self.heartbeat_counter,
                    sent: self.sent_packets,
                    received: self.received_packets,
                };
                if self.heartbeat_counter < u64::MAX {
                    self.heartbeat_counter = self.heartbeat_counter + 1;
                }
                self.note_sent();
                events.push(Event::Transmit(heartbeat));
                let endpoint_id = self.endpoint_id;
                let echoes = self.roundtrip_estimator.tick(now_ms, endpoint_id);
                let ghost issued_g = echoes@.map_values(|p: Packet| p@);
                let mut k: usize = 0;
                while k < echoes.len()
                    invariant
                        k <= echoes@.len(),
                        issued_g == echoes@.map_values(|p: Packet| p@),
                        events@.len() == 1 + k,
                        events@[0] == Event::Transmit(
                            Packet::Heartbeat {
                                counter: old(self).heartbeat_counter,
                                sent: old(self).sent_packets,
                                received: old(self).received_packets,
                            },
                        ),
                        forall|x: int|
                            0 <= x < k ==> ((#[trigger] events@[1 + x]) matches Event::Transmit(
                                p,
                            ) && p@ == issued_g[x]),
                        old(self).state == ConnectionState::Established,
                        self.wf(),
                        self.state == ConnectionState::Established,
                        self.local_id == old(self).local_id,
                        self.remote_id == old(self).remote_id,
                        self.endpoint_id == old(self).endpoint_id,
                        self.receivers == old(self).receivers,
                        self.senders == old(self).senders,
                        self.ack_manager == old(self).ack_manager,
                        self.received_packets == old(self).received_packets,
                        crate::estimator::spec_estimator_tick_rel(
                            old(self).roundtrip_estimator,
                            self.roundtrip_estimator,
                            now_ms,
                            old(self).endpoint_id,
                            issued_g,
                        ),
                        old(self).sent_packets + 1 + k <= u64::MAX ==> self.sent_packets == old(self).sent_packets + 1 + k,
                        self.sent_packets >= old(self).sent_packets,
                        self.heartbeat_counter == (if old(self).heartbeat_counter < u64::MAX {
                            (old(self).heartbeat_counter + 1) as u64
                        } else {
                            u64::MAX
                        }),
                    decreases echoes@.len() - k,
                {
                    self.note_sent();
                    let ghost ev0 = events@;
                    events.push(Event::Transmit(clone_any_packet(&echoes[k])));
                    proof {
                        assert(events@[1 + k] matches Event::Transmit(p) && p@ == issued_g[
                            k as int
                        ]);
                        assert forall|x: int| 0 <= x < k + 1 implies ((#[trigger] events@[1 + x])
                            matches Event::Transmit(p) && p@ == issued_g[x]) by {
                            if x < k {
                                assert(events@[1 + x] == ev0[1 + x]);
                            }
                        }
                    }
                    k = k + 1;
                }
                proof {
                    assert(events@.len() == 1 + issued_g.len());
                }
            },
            _ => {},
        }
        events
    }
}

impl Connection {
    /// Splits a user message into data packets on the given channel,
    /// hands the reliable ones to the retransmit manager, and returns the
    /// packets to transmit.  Sequence numbers continue from the channel's
    /// last frame; the first packet's header carries the channel's last
    /// reliable frame.  Succeeds exactly when the channel number, the
    /// frame's header length and the channel's remaining sequence numbers
    /// fit the wire format; anything else is `MessageTooLarge`.
    pub fn send_message(&mut self, channel: u16, payload: Vec<u8>, reliable: bool, now_ms: u64)
        -> (r: Result<Vec<Event>, Error>)
        requires
            old(self).wf(),
        ensures
            final(self).wf(),
            final(self).state == old(self).state,
            final(self).local_id == old(self).local_id,
            final(self).remote_id == old(self).remote_id,
            final(self).endpoint_id == old(self).endpoint_id,
            final(self).heartbeat_counter == old(self).heartbeat_counter,
            final(self).received_packets == old(self).received_packets,
            final(self).receivers == old(self).receivers,
            final(self).roundtrip_estimator == old(self).roundtrip_estimator,
            ({
                let chan = channel as i16;
                let st = spec_sender_state(old(self).senders@, chan);
                let sn0 = st.0;
                let lrf0 = st.1;
                let n = crate::frame::spec_chunk_count(payload@.len() as int);
                let ok = channel <= 0x7fff && crate::packets::FRAME_HEADER_SIZE + payload@.len()
                    <= u32::MAX && sn0 + payload@.len() + 1 <= u64::MAX;
                &&& (r is Ok <==> ok)
                &&& (!ok ==> r == Result::<Vec<Event>, Error>::Err(Error::MessageTooLarge)
                    && *final(self) == *old(self))
                &&& (r matches Ok(events) ==> {
                    &&& events@.len() == n
                    &&& (forall|k: int|
                        0 <= k < n ==> ((#[trigger] events@[k]) matches Event::Transmit(p) && p@
                            == crate::frame::spec_frame_packet(
                            payload@,
                            chan,
                            sn0,
                            lrf0,
                            reliable,
                            k,
                        )))
                    &&& spec_sender_state(final(self).senders@, chan) == (
                        ((sn0 + n) as u64),
                        (if reliable {
                            sn0
                        } else {
                            lrf0
                        }),
                    )
                    &&& (!reliable ==> final(self).ack_manager == old(self).ack_manager)
                    &&& (reliable ==> (forall|k: int|
                        0 <= k < n ==> #[trigger] spec_has_key(
                            final(self).ack_manager.packets@,
                            (chan, (sn0 + k) as u64),
                        )))
                    &&& (old(self).sent_packets + n <= u64::MAX ==> final(self).sent_packets
                        == old(self).sent_packets + n)
                    &&& final(self).sent_packets >= old(self).sent_packets
                })
            }),
    {
        let ghost payload_g = payload@;
        let chan: i16 = if channel <= 0x7fff {
            channel as i16
        } else {
            return Err(Error::MessageTooLarge);
        };
        if payload.len() > (u32::MAX as usize) - crate::packets::FRAME_HEADER_SIZE {
            return Err(Error::MessageTooLarge);
        }
        let found = self.find_sender(chan);
        let (sn0, lrf) = match found {
            Some(i) => {
                proof {
                    lemma_sender_state_found(self.senders@, chan, i as int);
                }
                (self.senders[i].next_sequence_number, self.senders[i].last_reliable_frame)
            },
            None => {
                proof {
                    lemma_sender_state_none(self.senders@, chan);
                }
                (1u64, 0u64)
            },
        };
        if sn0 > u64::MAX - (payload.len() as u64) - 1 {
            return Err(Error::MessageTooLarge);
        }
        let idx = match found {
            Some(i) => i,
            None => {
                self.senders.push(
                    ChannelSender {
                        channel: chan,
                        next_sequence_number: sn0,
                        last_reliable_frame: lrf,
                    },
                );
                self.senders.len() - 1
            },
        };
        proof {
            lemma_chunk_count_bounds(payload_g.len() as int);
        }
        let ghost n = crate::frame::spec_chunk_count(payload_g.len() as int);
        let encoder = crate::frame::FrameEncoder::new(payload, chan, sn0, lrf, reliable);
        let packets = encoder.collect_packets();
        let count = packets.len() as u64;
        let ghost packets0 = packets@;
        let mut events: Vec<Event> = Vec::new();
        let mut rest = packets;
        let mut done: usize = 0;
        let ghost senders_now = self.senders@;
        loop
            invariant
                self.wf(),
                self.state == old(self).state,
                self.local_id == old(self).local_id,
                self.remote_id == old(self).remote_id,
                self.endpoint_id == old(self).endpoint_id,
                self.heartbeat_counter == old(self).heartbeat_counter,
                self.received_packets == old(self).received_packets,
                self.receivers == old(self).receivers,
                self.roundtrip_estimator == old(self).roundtrip_estimator,
                self.senders@ == senders_now,
                idx < self.senders@.len(),
                self.senders@[idx as int].channel == chan,
                forall|j: int| 0 <= j < idx ==> self.senders@[j].channel != chan,
                n == crate::frame::spec_chunk_count(payload_g.len() as int),
                0 <= n <= payload_g.len() + 1,
                payload_g.len() + crate::packets::FRAME_HEADER_SIZE <= u32::MAX,
                sn0 + payload_g.len() + 1 <= u64::MAX,
                packets0.len() == n,
                forall|k: int|
                    0 <= k < n ==> (#[trigger] packets0[k])@ == crate::frame::spec_frame_packet(
                        payload_g,
                        chan,
                        sn0,
                        lrf,
                        reliable,
                        k,
                    ),
                done <= n,
                rest@ == packets0.skip(done as int),
                events@.len() == done,
                forall|k: int|
                    0 <= k < done ==> ((#[trigger] events@[k]) matches Event::Transmit(p) && p@
                        == crate::frame::spec_frame_packet(
                        payload_g,
                        chan,
                        sn0,
                        lrf,
                        reliable,
                        k,
                    )),
                !reliable ==> self.ack_manager == old(self).ack_manager,
                reliable ==> forall|k: int|
                    0 <= k < done ==> #[trigger] spec_has_key(
                        self.ack_manager.packets@,
                        (chan, (sn0 + k) as u64),
                    ),
                old(self).sent_packets + done <= u64::MAX ==> self.sent_packets == old(
                    self,
                ).sent_packets + done,
                self.sent_packets >= old(self).sent_packets,
            ensures
                self.wf(),
                self.state == old(self).state,
                self.local_id == old(self).local_id,
                self.remote_id == old(self).remote_id,
                self.endpoint_id == old(self).endpoint_id,
                self.heartbeat_counter == old(self).heartbeat_counter,
                self.received_packets == old(self).received_packets,
                self.receivers == old(self).receivers,
                self.roundtrip_estimator == old(self).roundtrip_estimator,
                self.senders@ == senders_now,
                idx < self.senders@.len(),
                self.senders@[idx as int].channel == chan,
                forall|j: int| 0 <= j < idx ==> self.senders@[j].channel != chan,
                events@.len() == n,
                forall|k: int|
                    0 <= k < n ==> ((#[trigger] events@[k]) matches Event::Transmit(p) && p@
                        == crate::frame::spec_frame_packet(
                        payload_g,
                        chan,
                        sn0,
                        lrf,
                        reliable,
                        k,
                    )),
                !reliable ==> self.ack_manager == old(self).ack_manager,
                reliable ==> forall|k: int|
                    0 <= k < n ==> #[trigger] spec_has_key(
                        self.ack_manager.packets@,
                        (chan, (sn0 + k) as u64),
                    ),
                old(self).sent_packets + n <= u64::MAX ==> self.sent_packets == old(
                    self,
                ).sent_packets + n,
                self.sent_packets >= old(self).sent_packets,
            decreases rest@.len(),
        {
            if rest.len() == 0 {
                break ;
            }
            let ghost ack0 = self.ack_manager.packets@;
            proof {
                assert(done < n);
            }
            let packet = rest.remove(0);
            proof {
                assert(packet@ == packets0[done as int]@);
                assert(rest@ =~= packets0.skip(done as int + 1));
            }
            if reliable {
                let copy = clone_any_packet(&packet);
                proof {
                    crate::packets::lemma_flags_byte(done == 0, done as int == n - 1, reliable);
                    assert(copy@ matches PacketView::Data { chan: c2, packet: dp2 } && c2 == chan
                        && dp2.sequence_number == (sn0 + done) as u64 && dp2.is_reliable());
                }
                self.ack_manager.submit_packet(copy, now_ms);
                proof {
                    assert forall|k: int| 0 <= k < done + 1 implies #[trigger] spec_has_key(
                        self.ack_manager.packets@,
                        (chan, (sn0 + k) as u64),
                    ) by {
                        if k == done {
                            assert(self.ack_manager.packets@.last().packet@ == copy@);
                            assert(spec_packet_key(self.ack_manager.packets@.last().packet)
                                == Some((chan, (sn0 + done) as u64)));
                            let last = self.ack_manager.packets@.len() - 1;
                            assert(spec_packet_key(self.ack_manager.packets@[last].packet)
                                == Some((chan, (sn0 + k) as u64)));
                        } else {
                            assert(spec_has_key(ack0, (chan, (sn0 + k) as u64)));
                            let w = choose|w: int|
                                0 <= w < ack0.len() && spec_packet_key(#[trigger] ack0[w].packet)
                                    == Some((chan, (sn0 + k) as u64));
                            assert((sn0 + k) as u64 != (sn0 + done) as u64);
                            assert(spec_packet_key(ack0[w].packet) != Some(
                                (chan, (sn0 + done) as u64),
                            ));
                            assert(self.ack_manager.packets@.contains(ack0[w]));
                            let w2 = choose|w2: int|
                                0 <= w2 < self.ack_manager.packets@.len() && #[trigger] self.ack_manager.packets@[w2]
                                    == ack0[w];
                            assert(spec_packet_key(self.ack_manager.packets@[w2].packet) == Some(
                                (chan, (sn0 + k) as u64),
                            ));
                        }
                    }
                }
            }
            self.note_sent();
            let ghost ev0 = events@;
            events.push(Event::Transmit(packet));
            proof {
                assert(events@[done as int] matches Event::Transmit(p) && p@ == packets0[
                    done as int
                ]@);
                assert(forall|k: int| 0 <= k < done ==> events@[k] == ev0[k]);
            }
            done = done + 1;
        }
        let ghost pre_senders = self.senders@;
        let new_next: u64 = sn0 + count;
        let sender = &mut self.senders[idx];
        sender.next_sequence_number = new_next;
        if reliable {
            sender.last_reliable_frame = sn0;
        }
        proof {
            assert(self.senders@ =~= pre_senders.update(
                idx as int,
                self.senders@[idx as int],
            ));
            lemma_sender_state_update(
                pre_senders,
                chan,
                idx as int,
                self.senders@[idx as int],
            );
        }
        Ok(events)
    }

    /// Position of the first outbound state entry for this channel, if
    /// any.
    fn find_sender(&self, chan: i16) -> (r: Option<usize>)
        ensures
            match r {
                Some(i) => i < self.senders@.len() && self.senders@[i as int].channel == chan
                    && forall|j: int| 0 <= j < i ==> self.senders@[j].channel != chan,
                None => forall|j: int|
                    0 <= j < self.senders@.len() ==> (#[trigger] self.senders@[j]).channel != chan,
            },
    {
        let mut i: usize = 0;
        while i < self.senders.len()
            invariant
                i <= self.senders@.len(),
                forall|j: int| 0 <= j < i ==> (#[trigger] self.senders@[j]).channel != chan,
            decreases self.senders@.len() - i,
        {
            if self.senders[i].channel == chan {
                return Some(i);
            }
            i = i + 1;
        }
        None
    }
}

/// A copy of a packet that carries no byte payload.
fn clone_control_packet(p: &Packet) -> (r: Packet)
    requires
        p@ matches PacketView::Ack { .. } || p@ matches PacketView::Echo { .. } || p@
            matches PacketView::Connect(_) || p@ matches PacketView::Connected(_) || p@
            matches PacketView::Heartbeat { .. },
    ensures
        r@ == p@,
{
    match p {
        Packet::Ack { chan, sequence_number } => Packet::Ack {
            chan: *chan,
            sequence_number: *sequence_number,
        },
        Packet::Echo { endpoint, probe } => Packet::Echo { endpoint: *endpoint, probe: *probe },
        Packet::Connect(id) => Packet::Connect(*id),
        Packet::Connected(id) => Packet::Connected(*id),
        Packet::Heartbeat { counter, sent, received } => Packet::Heartbeat {
            counter: *counter,
            sent: *sent,
            received: *received,
        },
        _ => {
            proof {
                assert(false);
            }
            Packet::Ack { chan: 0, sequence_number: 0 }
        },
    }
}

/// A copy of any packet, preserving its mathematical value.
fn clone_any_packet(p: &Packet) -> (r: Packet)
    ensures
        r@ == p@,
{
    match p {
        Packet::StatusRequest(req) => {
            let r = Packet::StatusRequest(
                match req {
                    StatusRequest::FastnetQuery => StatusRequest::FastnetQuery,
                    StatusRequest::VersionQuery => StatusRequest::VersionQuery,
                    StatusRequest::ExtensionQuery(name) => StatusRequest::ExtensionQuery(
                        clone_byte_vec(name),
                    ),
                },
            );
            proof {
                assert(r@ =~= p@);
            }
            r
        },
        Packet::StatusResponse(resp) => {
            let r = Packet::StatusResponse(
                match resp {
                    StatusResponse::FastnetResponse(listening) => StatusResponse::FastnetResponse(
                        *listening,
                    ),
                    StatusResponse::VersionResponse(version) => StatusResponse::VersionResponse(
                        clone_byte_vec(version),
                    ),
                    StatusResponse::ExtensionResponse { name, supported } =>
                        StatusResponse::ExtensionResponse {
                        name: clone_byte_vec(name),
                        supported: *supported,
                    },
                },
            );
            proof {
                assert(r@ =~= p@);
            }
            r
        },
        Packet::Aborted(msg) => {
            let r = Packet::Aborted(clone_byte_vec(msg));
            proof {
                assert(r@ =~= p@);
            }
            r
        },
        Packet::Data { chan, packet } => {
            let r = Packet::Data { chan: *chan, packet: clone_data_packet_pub(packet) };
            proof {
                assert(r@ =~= p@);
            }
            r
        },
        _ => clone_control_packet(p),
    }
}

/// A copy of a byte string.
fn clone_byte_vec(a: &Vec<u8>) -> (r: Vec<u8>)
    ensures
        r@ == a@,
{
    let r = a.clone();
    proof {
        assert(r@ =~= a@);
    }
    r
}

/// A copy of a data packet with the same mathematical value.
fn clone_data_packet_pub(dp: &crate::packets::DataPacket) -> (r: crate::packets::DataPacket)
    ensures
        r@ == dp@,
        r.wf() == dp.wf(),
        r.header == dp.header,
{
    let r = crate::packets::DataPacket {
        sequence_number: dp.sequence_number,
        flags: dp.flags,
        payload: clone_byte_vec(&dp.payload),
        header: dp.header,
    };
    proof {
        assert(r@ =~= dp@);
    }
    r
}

} // verus!
