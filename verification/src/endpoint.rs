//! The endpoint: owns the table of peer connections, decodes incoming
//! datagrams, routes them to their connection or to the connectionless
//! responders, services external commands, and drives the timer ticks.
//!
//! Socket I/O stays outside: the endpoint consumes decoded datagram bytes
//! and clock readings and returns the datagrams to transmit (as packets
//! with their destination) and the events to report to the user.  Closed
//! connections stay in the table until a later connect to the same address
//! replaces them.

use vstd::prelude::*;

use crate::codec::decode_datagram;
use crate::codec::spec_decode_datagram;
use crate::connection::Connection;
use crate::connection::ConnectionState;
use crate::connection::Error;
use crate::connection::Event;
use crate::connection::spec_counted;
use crate::connection::spec_establishing_probe;
use crate::connection::spec_establishing_tick;
use crate::connection::spec_handle_packet_rel;
use crate::connection::spec_tick1000_state_rel;
use crate::connection::spec_tick200_state_rel;
use crate::packets::Packet;
use crate::packets::PacketView;
use crate::packets::StatusRequest;
use crate::packets::Uuid;
use crate::status::StatusResponder;

verus! {

/// Default timeout for connection requests, in milliseconds.
pub const DEFAULT_TIMEOUT_MS: u64 = 10000;

/// A peer's address as plain values: the IP (v4 mapped into v6 space) and
/// the port.
#[derive(Debug, Clone, Copy, PartialEq, Eq, Structural)]
pub struct PeerAddress {
    pub ip: u128,
    pub port: u16,
}

/// A packet to transmit, with its destination.
#[derive(Debug, Clone, PartialEq, Eq)]
pub struct Outgoing {
    pub to: PeerAddress,
    pub packet: Packet,
}

/// The wire transmissions among a connection's events, paired with its
/// peer's address, in order.
pub open spec fn spec_routed_sends(events: Seq<Event>, address: PeerAddress) -> Seq<Outgoing>
    decreases events.len(),
{
    if events.len() == 0 {
        Seq::<Outgoing>::empty()
    } else {
        (match events[0] {
            Event::Transmit(p) => seq![Outgoing { to: address, packet: p }],
            _ => Seq::<Outgoing>::empty(),
        }) + spec_routed_sends(events.skip(1), address)
    }
}

/// The user-facing reports among a connection's events, in order.
pub open spec fn spec_routed_callbacks(events: Seq<Event>) -> Seq<Event>
    decreases events.len(),
{
    if events.len() == 0 {
        Seq::<Event>::empty()
    } else {
        (match events[0] {
            Event::Transmit(_) => Seq::<Event>::empty(),
            _ => seq![events[0]],
        }) + spec_routed_callbacks(events.skip(1))
    }
}

/// Some transmission in the batch is exactly this one.
pub open spec fn spec_contains_send(sends: Seq<Outgoing>, o: Outgoing) -> bool {
    exists|k: int| 0 <= k < sends.len() && sends[k] == o
}

/// Some report in the batch is exactly this one.
pub open spec fn spec_contains_callback(callbacks: Seq<Event>, ev: Event) -> bool {
    exists|k: int| 0 <= k < callbacks.len() && callbacks[k] == ev
}

/// Containment survives appending.
proof fn lemma_contains_send_extended(pre: Seq<Outgoing>, post: Seq<Outgoing>, o: Outgoing)
    requires
        spec_contains_send(pre, o),
        post.len() >= pre.len(),
        forall|k: int| 0 <= k < pre.len() ==> post[k] == pre[k],
    ensures
        spec_contains_send(post, o),
{
    let k = choose|k: int| 0 <= k < pre.len() && pre[k] == o;
    assert(post[k] == o);
}

/// Containment survives appending.
proof fn lemma_contains_callback_extended(pre: Seq<Event>, post: Seq<Event>, ev: Event)
    requires
        spec_contains_callback(pre, ev),
        post.len() >= pre.len(),
        forall|k: int| 0 <= k < pre.len() ==> post[k] == pre[k],
    ensures
        spec_contains_callback(post, ev),
{
    let k = choose|k: int| 0 <= k < pre.len() && pre[k] == ev;
    assert(post[k] == ev);
}

/// A connection as `connect` leaves it: the handshake started under this
/// request, one probe already out, nothing else yet.
pub open spec fn spec_fresh_establishing(c: Connection, request_id: u64) -> bool {
    &&& c.state == (ConnectionState::Establishing {
        listening: false,
        compatible_version: false,
        attempts: 0,
        request_id: Some(request_id),
    })
    &&& c.sent_packets == 1
    &&& c.received_packets == 0
    &&& c.heartbeat_counter == 0
    &&& c.receivers@.len() == 0
    &&& c.senders@.len() == 0
    &&& c.ack_manager.packets@.len() == 0
}

/// Position of the first connection with this identity, if any.
pub open spec fn spec_find_by_id(l: Seq<(PeerAddress, Connection)>, id: Uuid) -> Option<int>
    decreases l.len(),
{
    if l.len() == 0 {
        None
    } else if l[0].1.local_id == id {
        Some(0)
    } else {
        match spec_find_by_id(l.skip(1), id) {
            Some(i) => Some(i + 1),
            None => None,
        }
    }
}

/// A hit preceded only by misses is what the search finds.
proof fn lemma_find_by_id_found(l: Seq<(PeerAddress, Connection)>, id: Uuid, i: int)
    requires
        0 <= i < l.len(),
        l[i].1.local_id == id,
        forall|j: int| 0 <= j < i ==> l[j].1.local_id != id,
    ensures
        spec_find_by_id(l, id) == Some(i),
    decreases i,
{
    if i > 0 {
        lemma_find_by_id_found(l.skip(1), id, i - 1);
    }
}

/// Without a hit nothing is found.
proof fn lemma_find_by_id_none(l: Seq<(PeerAddress, Connection)>, id: Uuid)
    requires
        forall|j: int| 0 <= j < l.len() ==> l[j].1.local_id != id,
    ensures
        spec_find_by_id(l, id) is None,
    decreases l.len(),
{
    if l.len() > 0 {
        lemma_find_by_id_none(l.skip(1), id);
    }
}

/// One endpoint: a table of connections keyed by peer address and the
/// status configuration answered to connectionless queries.
pub struct Endpoint {
    /// The connections, at most one per peer address.
    pub connections: Vec<(PeerAddress, Connection)>,
    /// Answers connectionless status queries.
    pub responder: StatusResponder,
    /// The configured connection timeout, in milliseconds.
    pub timeout_ms: u64,
}

impl Endpoint {
    /// Every connection is well formed and no two share an address.
    pub open spec fn wf(self) -> bool {
        &&& forall|i: int|
            0 <= i < self.connections@.len() ==> (#[trigger] self.connections@[i].1).wf()
        &&& forall|i: int, j: int|
            0 <= i < j < self.connections@.len() ==> self.connections@[i].0
                != self.connections@[j].0
    }

    /// A fresh endpoint with the given status configuration.
    pub fn new(responder: StatusResponder) -> (r: Endpoint)
        ensures
            r.wf(),
            r.connections@.len() == 0,
            r.responder == responder,
            r.timeout_ms == DEFAULT_TIMEOUT_MS,
    {
        Endpoint { connections: Vec::new(), responder, timeout_ms: DEFAULT_TIMEOUT_MS }
    }

    /// Reconfigures the connection timeout.
    pub fn configure_timeout(&mut self, timeout_ms: u64)
        ensures
            *final(self) == (Endpoint { timeout_ms, ..*old(self) }),
    {
        self.timeout_ms = timeout_ms;
    }

    /// Position of the connection to this address, if any.
    fn find_connection(&self, address: PeerAddress) -> (r: Option<usize>)
        ensures
            match r {
                Some(i) => i < self.connections@.len() && self.connections@[i as int].0 == address,
                None => forall|j: int|
                    0 <= j < self.connections@.len() ==> (#[trigger] self.connections@[j]).0
                        != address,
            },
    {
        let mut i: usize = 0;
        while i < self.connections.len()
            invariant
                i <= self.connections@.len(),
                forall|j: int| 0 <= j < i ==> (#[trigger] self.connections@[j]).0 != address,
            decreases self.connections@.len() - i,
        {
            if self.connections[i].0.ip == address.ip && self.connections[i].0.port == address.port
            {
                proof {
                    assert(self.connections@[i as int].0 == address);
                }
                return Some(i);
            }
            i = i + 1;
        }
        None
    }

    /// Handles one received datagram: checks its CRC and decodes it, hands
    /// it to the connection for its sender's address, and otherwise
    /// answers the connectionless cases — status queries from the
    /// configuration, and connect requests by creating (or re-announcing)
    /// a connection.  Undecodable datagrams and unrouted packets are
    /// dropped silently.
    pub fn handle_datagram(&mut self, data: Vec<u8>, from: PeerAddress, now_ms: u64) -> (r: (
        Vec<Outgoing>,
        Vec<Event>,
    ))
        requires
            old(self).wf(),
        ensures
            final(self).wf(),
            final(self).responder == old(self).responder,
            final(self).timeout_ms == old(self).timeout_ms,
            match spec_decode_datagram(data@) {
                Err(_) => *final(self) == *old(self) && r.0@ == Seq::<Outgoing>::empty() && r.1@
                    == Seq::<Event>::empty(),
                Ok(v) => match v {
                    PacketView::StatusRequest(req) => r.1@ == Seq::<Event>::empty() && r.0@.len()
                        == 1 && r.0@[0].to == from && r.0@[0].packet@ == PacketView::StatusResponse(
                        crate::status::spec_status_answer(
                            old(self).responder.listening,
                            old(self).responder.version@,
                            old(self).responder.spec_extensions(),
                            req,
                        ),
                    ) && (match spec_find_addr(old(self).connections@, from) {
                        Some(i) => final(self).connections@ == old(self).connections@.update(
                            i,
                            (from, spec_counted(old(self).connections@[i].1)),
                        ),
                        None => *final(self) == *old(self),
                    }),
                    PacketView::Connect(remote) => r.1@ == Seq::<Event>::empty() && (
                    match spec_find_addr(old(self).connections@, from) {
                        Some(i) => final(self).connections@ == old(self).connections@.update(
                            i,
                            (from, spec_counted(old(self).connections@[i].1)),
                        ) && r.0@ == seq![
                            Outgoing {
                                to: from,
                                packet: Packet::Connected(old(self).connections@[i].1.local_id),
                            },
                        ],
                        None => final(self).connections@.len() == old(self).connections@.len() + 1
                            && final(self).connections@.take(old(self).connections@.len() as int)
                            == old(self).connections@ && final(self).connections@.last().0 == from
                            && (final(self).connections@.last().1.state
                            == ConnectionState::Established) && final(self).connections@.last().1.remote_id == remote && final(self).connections@.last().1.sent_packets == 0 && final(self).connections@.last().1.received_packets == 0 && r.0@ == seq![
                            Outgoing {
                                to: from,
                                packet: Packet::Connected(
                                    final(self).connections@.last().1.local_id,
                                ),
                            },
                        ],
                    }),
                    _ => (match spec_find_addr(old(self).connections@, from) {
                        Some(i) => exists|events: Seq<Event>|
                            #[trigger] spec_handle_packet_rel(
                                old(self).connections@[i].1,
                                final(self).connections@[i].1,
                                v,
                                now_ms,
                                true,
                                events,
                            ) && final(self).connections@ == old(self).connections@.update(
                                i,
                                (from, final(self).connections@[i].1),
                            ) && r.0@ == spec_routed_sends(events, from) && r.1@
                                == spec_routed_callbacks(events),
                        None => *final(self) == *old(self) && r.0@ == Seq::<Outgoing>::empty()
                            && r.1@ == Seq::<Event>::empty(),
                    }),
                },
            },
    {
        let mut sends: Vec<Outgoing> = Vec::new();
        let mut callbacks: Vec<Event> = Vec::new();
        let packet = match decode_datagram(data) {
            Ok(p) => p,
            Err(_) => { return (sends, callbacks) },
        };
        let found = self.find_connection(from);
        proof {
            match found {
                Some(i) => {
                    lemma_find_addr_some(old(self).connections@, from, i as int);
                },
                None => {
                    lemma_find_addr_none(old(self).connections@, from);
                },
            }
        }
        let consumed = match found {
            Some(i) => {
                let ghost pre = self.connections@;
                let conn = &mut self.connections[i].1;
                let (consumed, events) = conn.handle_incoming_packet(&packet, now_ms);
                let ghost evg = events@;
                proof {
                    assert(forall|j: int|
                        0 <= j < pre.len() && j != i ==> #[trigger] self.connections@[j]
                            == pre[j]);
                    assert(self.connections@[i as int].0 == pre[i as int].0);
                    assert(self.connections@ =~= pre.update(
                        i as int,
                        (from, self.connections@[i as int].1),
                    ));
                }
                if consumed {
                    route_events(events, from, &mut sends, &mut callbacks);
                    proof {
                        assert(sends@ =~= spec_routed_sends(evg, from));
                        assert(callbacks@ =~= spec_routed_callbacks(evg));
                    }
                    true
                } else {
                    false
                }
            },
            None => false,
        };
        if consumed {
            return (sends, callbacks);
        }
        match &packet {
            Packet::StatusRequest(_) => {
                match self.responder.handle_incoming_packet_connectionless(&packet) {
                    Some(resp) => {
                        sends.push(Outgoing { to: from, packet: resp });
                    },
                    None => {},
                }
            },
            Packet::Connect(remote_id) => {
                match found {
                    Some(i) => {
                        let local = self.connections[i].1.local_id;
                        sends.push(Outgoing { to: from, packet: Packet::Connected(local) });
                    },
                    None => {
                        let local = crate::packets::fresh_uuid();
                        let conn = Connection::from_connection_request(local, *remote_id);
                        let ghost pre = self.connections@;
                        self.connections.push((from, conn));
                        proof {
                            assert(forall|j: int|
                                0 <= j < pre.len() ==> #[trigger] self.connections@[j] == pre[j]);
                            assert(self.connections@.take(pre.len() as int) =~= pre);
                        }
                        sends.push(Outgoing { to: from, packet: Packet::Connected(local) });
                    },
                }
            },
            _ => {},
        }
        (sends, callbacks)
    }

    /// Schedules a connection to a peer: a fresh closed connection replaces
    /// whatever stood at that address, and its handshake starts with the
    /// first listener probe.
    pub fn connect(&mut self, address: PeerAddress, request_id: u64) -> (r: (
        Vec<Outgoing>,
        Vec<Event>,
    ))
        requires
            old(self).wf(),
        ensures
            final(self).wf(),
            final(self).responder == old(self).responder,
            final(self).timeout_ms == old(self).timeout_ms,
            r.1@ == Seq::<Event>::empty(),
            r.0@.len() == 1 && r.0@[0].to == address && r.0@[0].packet == Packet::StatusRequest(
                StatusRequest::FastnetQuery,
            ),
            match spec_find_addr(old(self).connections@, address) {
                Some(i) => final(self).connections@.len() == old(self).connections@.len()
                    && final(self).connections@[i].0 == address && spec_fresh_establishing(
                    final(self).connections@[i].1,
                    request_id,
                ) && (forall|j: int|
                    0 <= j < old(self).connections@.len() && j != i ==> #[trigger] final(self).connections@[j] == old(self).connections@[j]),
                None => final(self).connections@.len() == old(self).connections@.len() + 1
                    && final(self).connections@.take(old(self).connections@.len() as int) == old(self).connections@ && final(self).connections@.last().0 == address
                    && spec_fresh_establishing(final(self).connections@.last().1, request_id),
            },
    {
        let mut sends: Vec<Outgoing> = Vec::new();
        let mut callbacks: Vec<Event> = Vec::new();
        let local = crate::packets::fresh_uuid();
        let mut conn = Connection::new(local);
        let events = conn.establish(Some(request_id));
        let ghost evg = events@;
        route_events(events, address, &mut sends, &mut callbacks);
        proof {
            lemma_routed_single(evg[0], address);
            assert(evg =~= seq![evg[0]]);
            assert(sends@ =~= seq![
                Outgoing {
                    to: address,
                    packet: Packet::StatusRequest(StatusRequest::FastnetQuery),
                },
            ]);
            assert(callbacks@ =~= Seq::<Event>::empty());
        }
        let found = self.find_connection(address);
        proof {
            match found {
                Some(i) => {
                    lemma_find_addr_some(old(self).connections@, address, i as int);
                },
                None => {
                    lemma_find_addr_none(old(self).connections@, address);
                },
            }
        }
        match found {
            Some(i) => {
                let ghost pre = self.connections@;
                self.connections[i] = (address, conn);
                proof {
                    assert(forall|j: int|
                        0 <= j < pre.len() && j != i ==> #[trigger] self.connections@[j]
                            == pre[j]);
                    assert(self.connections@[i as int].0 == pre[i as int].0);
                }
            },
            None => {
                let ghost pre = self.connections@;
                self.connections.push((address, conn));
                proof {
                    assert(forall|j: int|
                        0 <= j < pre.len() ==> #[trigger] self.connections@[j] == pre[j]);
                    assert(self.connections@.take(pre.len() as int) =~= pre);
                }
            },
        }
        (sends, callbacks)
    }

    /// Schedules a disconnect: the connection with this identity moves to
    /// `Closing` and the user hears of it once; without one the request
    /// fails with `PeerNotFound`.  The closing connection finishes its
    /// transition to closed on the next 200 ms tick.
    pub fn disconnect(&mut self, local_id: Uuid, request_id: u64) -> (r: Vec<Event>)
        requires
            old(self).wf(),
        ensures
            final(self).wf(),
            final(self).responder == old(self).responder,
            final(self).timeout_ms == old(self).timeout_ms,
            match spec_find_by_id(old(self).connections@, local_id) {
                Some(i) => final(self).connections@ == old(self).connections@.update(
                    i,
                    (
                        old(self).connections@[i].0,
                        Connection {
                            state: ConnectionState::Closing { request_id: Some(request_id) },
                            ..old(self).connections@[i].1
                        },
                    ),
                ) && r@ == seq![Event::Disconnected(local_id, Some(request_id))],
                None => *final(self) == *old(self) && r@ == seq![
                    Event::RequestFailed(request_id, Error::PeerNotFound),
                ],
            },
    {
        let mut callbacks: Vec<Event> = Vec::new();
        let mut i: usize = 0;
        while i < self.connections.len()
            invariant
                i <= self.connections@.len(),
                *self == *old(self),
                self.wf(),
                callbacks@.len() == 0,
                forall|j: int| 0 <= j < i ==> (#[trigger] self.connections@[j]).1.local_id
                    != local_id,
            decreases self.connections@.len() - i,
        {
            if self.connections[i].1.local_id.hi == local_id.hi && self.connections[i].1.local_id.lo
                == local_id.lo {
                proof {
                    assert(self.connections@[i as int].1.local_id == local_id);
                    lemma_find_by_id_found(self.connections@, local_id, i as int);
                }
                let ghost pre = self.connections@;
                let conn = &mut self.connections[i].1;
                conn.state = ConnectionState::Closing { request_id: Some(request_id) };
                proof {
                    assert(self.connections@ =~= pre.update(
                        i as int,
                        (
                            pre[i as int].0,
                            Connection {
                                state: ConnectionState::Closing {
                                    request_id: Some(request_id),
                                },
                                ..pre[i as int].1
                            },
                        ),
                    ));
                    assert(forall|j: int|
                        0 <= j < pre.len() && j != i ==> #[trigger] self.connections@[j]
                            == pre[j]);
                }
                callbacks.push(Event::Disconnected(local_id, Some(request_id)));
                proof {
                    assert(callbacks@ =~= seq![Event::Disconnected(local_id, Some(request_id))]);
                }
                return callbacks;
            }
            i = i + 1;
        }
        proof {
            lemma_find_by_id_none(self.connections@, local_id);
        }
        callbacks.push(Event::RequestFailed(request_id, Error::PeerNotFound));
        proof {
            assert(callbacks@ =~= seq![Event::RequestFailed(request_id, Error::PeerNotFound)]);
        }
        callbacks
    }

    /// The 200 ms tick: every connection retries its handshake probe,
    /// services its channels and retransmissions, or finishes closing.
    /// Every establishing connection's probe — or its one `TimedOut`
    /// report, when its budget ran out — appears in the result.
    pub fn tick200(&mut self, now_ms: u64) -> (r: (Vec<Outgoing>, Vec<Event>))
        requires
            old(self).wf(),
        ensures
            final(self).wf(),
            final(self).responder == old(self).responder,
            final(self).timeout_ms == old(self).timeout_ms,
            final(self).connections@.len() == old(self).connections@.len(),
            forall|i: int|
                0 <= i < old(self).connections@.len() ==> (#[trigger] final(self).connections@[i]).0 == old(self).connections@[i].0,
            forall|i: int|
                0 <= i < old(self).connections@.len() ==> #[trigger] spec_tick200_state_rel(
                    old(self).connections@[i].1,
                    final(self).connections@[i].1,
                ),
            forall|i: int|
                #![trigger old(self).connections@[i]]
                0 <= i < old(self).connections@.len() ==> (match old(self).connections@[i].1.state {
                    ConnectionState::Establishing { listening, compatible_version, attempts, request_id } => {
                        if spec_establishing_tick(old(self).connections@[i].1.state)
                            != ConnectionState::Closed {
                            spec_contains_send(
                                r.0@,
                                Outgoing {
                                    to: old(self).connections@[i].0,
                                    packet: spec_establishing_probe(
                                        listening,
                                        compatible_version,
                                        old(self).connections@[i].1.local_id,
                                    ),
                                },
                            )
                        } else {
                            match request_id {
                                Some(id) => spec_contains_callback(
                                    r.1@,
                                    Event::RequestFailed(id, Error::TimedOut),
                                ),
                                None => true,
                            }
                        }
                    },
                    _ => true,
                }),
    {
        let mut sends: Vec<Outgoing> = Vec::new();
        let mut callbacks: Vec<Event> = Vec::new();
        let mut i: usize = 0;
        while i < self.connections.len()
            invariant
                i <= old(self).connections@.len(),
                self.wf(),
                self.responder == old(self).responder,
                self.timeout_ms == old(self).timeout_ms,
                self.connections@.len() == old(self).connections@.len(),
                forall|j: int|
                    i <= j < old(self).connections@.len() ==> #[trigger] self.connections@[j]
                        == old(self).connections@[j],
                forall|j: int|
                    0 <= j < old(self).connections@.len() ==> (#[trigger] self.connections@[j]).0
                        == old(self).connections@[j].0,
                forall|j: int|
                    0 <= j < i ==> #[trigger] spec_tick200_state_rel(
                        old(self).connections@[j].1,
                        self.connections@[j].1,
                    ),
                forall|j: int|
                    #![trigger old(self).connections@[j]]
                    0 <= j < i ==> (match old(self).connections@[j].1.state {
                        ConnectionState::Establishing { listening, compatible_version, attempts, request_id } => {
                            if spec_establishing_tick(old(self).connections@[j].1.state)
                                != ConnectionState::Closed {
                                spec_contains_send(
                                    sends@,
                                    Outgoing {
                                        to: old(self).connections@[j].0,
                                        packet: spec_establishing_probe(
                                            listening,
                                            compatible_version,
                                            old(self).connections@[j].1.local_id,
                                        ),
                                    },
                                )
                            } else {
                                match request_id {
                                    Some(id) => spec_contains_callback(
                                        callbacks@,
                                        Event::RequestFailed(id, Error::TimedOut),
                                    ),
                                    None => true,
                                }
                            }
                        },
                        _ => true,
                    }),
            decreases self.connections@.len() - i,
        {
            let address = self.connections[i].0;
            let ghost pre = self.connections@;
            let ghost sends0 = sends@;
            let ghost callbacks0 = callbacks@;
            let conn = &mut self.connections[i].1;
            let ghost conn0 = *conn;
            let events = conn.tick200(now_ms);
            let ghost evg = events@;
            proof {
                assert(forall|j: int|
                    0 <= j < pre.len() && j != i ==> #[trigger] self.connections@[j] == pre[j]);
                assert(self.connections@[i as int].0 == pre[i as int].0);
            }
            route_events(events, address, &mut sends, &mut callbacks);
            proof {
                assert(forall|k: int| 0 <= k < sends0.len() ==> sends@[k] == sends0[k]);
                assert(forall|k: int|
                    0 <= k < callbacks0.len() ==> callbacks@[k] == callbacks0[k]);
                match conn0.state {
                    ConnectionState::Establishing { listening, compatible_version, attempts, request_id } => {
                        if spec_establishing_tick(conn0.state) != ConnectionState::Closed {
                            let probe = spec_establishing_probe(
                                listening,
                                compatible_version,
                                conn0.local_id,
                            );
                            assert(evg == seq![Event::Transmit(probe)]);
                            lemma_routed_single(Event::Transmit(probe), address);
                            assert(sends@[sends0.len() as int] == (Outgoing {
                                to: address,
                                packet: probe,
                            }));
                            assert(spec_contains_send(
                                sends@,
                                Outgoing { to: address, packet: probe },
                            ));
                        } else {
                            match request_id {
                                Some(id) => {
                                    assert(evg == seq![Event::RequestFailed(id, Error::TimedOut)]);
                                    lemma_routed_single(
                                        Event::RequestFailed(id, Error::TimedOut),
                                        address,
                                    );
                                    assert(callbacks@[callbacks0.len() as int]
                                        == Event::RequestFailed(id, Error::TimedOut));
                                    assert(spec_contains_callback(
                                        callbacks@,
                                        Event::RequestFailed(id, Error::TimedOut),
                                    ));
                                },
                                None => {},
                            }
                        }
                    },
                    _ => {},
                }
                assert forall|j: int|
                    #![trigger old(self).connections@[j]]
                    0 <= j < i implies (match old(self).connections@[j].1.state {
                    ConnectionState::Establishing { listening, compatible_version, attempts, request_id } => {
                        if spec_establishing_tick(old(self).connections@[j].1.state)
                            != ConnectionState::Closed {
                            spec_contains_send(
                                sends@,
                                Outgoing {
                                    to: old(self).connections@[j].0,
                                    packet: spec_establishing_probe(
                                        listening,
                                        compatible_version,
                                        old(self).connections@[j].1.local_id,
                                    ),
                                },
                            )
                        } else {
                            match request_id {
                                Some(id) => spec_contains_callback(
                                    callbacks@,
                                    Event::RequestFailed(id, Error::TimedOut),
                                ),
                                None => true,
                            }
                        }
                    },
                    _ => true,
                }) by {
                    match old(self).connections@[j].1.state {
                        ConnectionState::Establishing { listening, compatible_version, attempts, request_id } => {
                            if spec_establishing_tick(old(self).connections@[j].1.state)
                                != ConnectionState::Closed {
                                let o = Outgoing {
                                    to: old(self).connections@[j].0,
                                    packet: spec_establishing_probe(
                                        listening,
                                        compatible_version,
                                        old(self).connections@[j].1.local_id,
                                    ),
                                };
                                lemma_contains_send_extended(sends0, sends@, o);
                            } else {
                                match request_id {
                                    Some(id) => {
                                        lemma_contains_callback_extended(
                                            callbacks0,
                                            callbacks@,
                                            Event::RequestFailed(id, Error::TimedOut),
                                        );
                                    },
                                    None => {},
                                }
                            }
                        },
                        _ => {},
                    }
                }
            }
            i = i + 1;
        }
        (sends, callbacks)
    }

    /// The 1000 ms tick: every established connection emits its heartbeat
    /// — which appears in the result, carrying the traffic counters as
    /// they stood — and refreshes its echo probes.
    pub fn tick1000(&mut self, now_ms: u64) -> (r: (Vec<Outgoing>, Vec<Event>))
        requires
            old(self).wf(),
        ensures
            final(self).wf(),
            final(self).responder == old(self).responder,
            final(self).timeout_ms == old(self).timeout_ms,
            final(self).connections@.len() == old(self).connections@.len(),
            forall|i: int|
                0 <= i < old(self).connections@.len() ==> (#[trigger] final(self).connections@[i]).0 == old(self).connections@[i].0,
            forall|i: int|
                0 <= i < old(self).connections@.len() ==> #[trigger] spec_tick1000_state_rel(
                    old(self).connections@[i].1,
                    final(self).connections@[i].1,
                ),
            forall|i: int|
                #![trigger old(self).connections@[i]]
                0 <= i < old(self).connections@.len() ==> (old(self).connections@[i].1.state
                    == ConnectionState::Established ==> spec_contains_send(
                    r.0@,
                    Outgoing {
                        to: old(self).connections@[i].0,
                        packet: Packet::Heartbeat {
                            counter: old(self).connections@[i].1.heartbeat_counter,
                            sent: old(self).connections@[i].1.sent_packets,
                            received: old(self).connections@[i].1.received_packets,
                        },
                    },
                )),
    {
        let mut sends: Vec<Outgoing> = Vec::new();
        let mut callbacks: Vec<Event> = Vec::new();
        let mut i: usize = 0;
        while i < self.connections.len()
            invariant
                i <= old(self).connections@.len(),
                self.wf(),
                self.responder == old(self).responder,
                self.timeout_ms == old(self).timeout_ms,
                self.connections@.len() == old(self).connections@.len(),
                forall|j: int|
                    i <= j < old(self).connections@.len() ==> #[trigger] self.connections@[j]
                        == old(self).connections@[j],
                forall|j: int|
                    0 <= j < old(self).connections@.len() ==> (#[trigger] self.connections@[j]).0
                        == old(self).connections@[j].0,
                forall|j: int|
                    0 <= j < i ==> #[trigger] spec_tick1000_state_rel(
                        old(self).connections@[j].1,
                        self.connections@[j].1,
                    ),
                forall|j: int|
                    #![trigger old(self).connections@[j]]
                    0 <= j < i ==> (old(self).connections@[j].1.state
                        == ConnectionState::Established ==> spec_contains_send(
                        sends@,
                        Outgoing {
                            to: old(self).connections@[j].0,
                            packet: Packet::Heartbeat {
                                counter: old(self).connections@[j].1.heartbeat_counter,
                                sent: old(self).connections@[j].1.sent_packets,
                                received: old(self).connections@[j].1.received_packets,
                            },
                        },
                    )),
            decreases self.connections@.len() - i,
        {
            let address = self.connections[i].0;
            let ghost pre = self.connections@;
            let ghost sends0 = sends@;
            let conn = &mut self.connections[i].1;
            let ghost conn0 = *conn;
            let events = conn.tick1000(now_ms);
            let ghost evg = events@;
            proof {
                assert(forall|j: int|
                    0 <= j < pre.len() && j != i ==> #[trigger] self.connections@[j] == pre[j]);
                assert(self.connections@[i as int].0 == pre[i as int].0);
            }
            route_events(events, address, &mut sends, &mut callbacks);
            proof {
                assert(forall|k: int| 0 <= k < sends0.len() ==> sends@[k] == sends0[k]);
                if conn0.state == ConnectionState::Established {
                    let heartbeat = Packet::Heartbeat {
                        counter: conn0.heartbeat_counter,
                        sent: conn0.sent_packets,
                        received: conn0.received_packets,
                    };
                    assert(evg[0] == Event::Transmit(heartbeat));
                    lemma_routed_sends_head(evg, address);
                    assert(sends@[sends0.len() as int] == (Outgoing {
                        to: address,
                        packet: heartbeat,
                    }));
                }
                assert forall|j: int|
                    #![trigger old(self).connections@[j]]
                    0 <= j < i + 1 && old(self).connections@[j].1.state
                        == ConnectionState::Established implies spec_contains_send(
                    sends@,
                    Outgoing {
                        to: old(self).connections@[j].0,
                        packet: Packet::Heartbeat {
                            counter: old(self).connections@[j].1.heartbeat_counter,
                            sent: old(self).connections@[j].1.sent_packets,
                            received: old(self).connections@[j].1.received_packets,
                        },
                    },
                ) by {
                    let hb = Outgoing {
                        to: old(self).connections@[j].0,
                        packet: Packet::Heartbeat {
                            counter: old(self).connections@[j].1.heartbeat_counter,
                            sent: old(self).connections@[j].1.sent_packets,
                            received: old(self).connections@[j].1.received_packets,
                        },
                    };
                    if j < i {
                        lemma_contains_send_extended(sends0, sends@, hb);
                    } else {
                        assert(sends@[sends0.len() as int] == hb);
                        assert(spec_contains_send(sends@, hb));
                    }
                }
            }
            i = i + 1;
        }
        (sends, callbacks)
    }
}

/// Position of the connection entry with this address, if any.
pub open spec fn spec_find_addr(l: Seq<(PeerAddress, Connection)>, address: PeerAddress) -> Option<
    int,
>
    decreases l.len(),
{
    if l.len() == 0 {
        None
    } else if l[0].0 == address {
        Some(0)
    } else {
        match spec_find_addr(l.skip(1), address) {
            Some(i) => Some(i + 1),
            None => None,
        }
    }
}

/// A hit preceded only by misses is what the search finds.
proof fn lemma_find_addr_some(l: Seq<(PeerAddress, Connection)>, address: PeerAddress, i: int)
    requires
        0 <= i < l.len(),
        l[i].0 == address,
        forall|j: int| 0 <= j < l.len() && j != i ==> l[j].0 != address,
    ensures
        spec_find_addr(l, address) == Some(i),
    decreases i,
{
    if i > 0 {
        lemma_find_addr_some(l.skip(1), address, i - 1);
    }
}

/// Without a hit nothing is found.
proof fn lemma_find_addr_none(l: Seq<(PeerAddress, Connection)>, address: PeerAddress)
    requires
        forall|j: int| 0 <= j < l.len() ==> (#[trigger] l[j]).0 != address,
    ensures
        spec_find_addr(l, address) is None,
    decreases l.len(),
{
    if l.len() > 0 {
        lemma_find_addr_none(l.skip(1), address);
    }
}

/// A transmission at the head of the events comes out at the head of the
/// routed sends.
proof fn lemma_routed_sends_head(events: Seq<Event>, address: PeerAddress)
    requires
        events.len() >= 1,
        events[0] matches Event::Transmit(_),
    ensures
        spec_routed_sends(events, address).len() >= 1,
        events[0] matches Event::Transmit(p) ==> spec_routed_sends(events, address)[0]
            == (Outgoing { to: address, packet: p }),
{
}

/// How a single event routes.
proof fn lemma_routed_single(ev: Event, address: PeerAddress)
    ensures
        spec_routed_sends(seq![ev], address) == (match ev {
            Event::Transmit(p) => seq![Outgoing { to: address, packet: p }],
            _ => Seq::<Outgoing>::empty(),
        }),
        spec_routed_callbacks(seq![ev]) == (match ev {
            Event::Transmit(_) => Seq::<Event>::empty(),
            _ => seq![ev],
        }),
{
    assert(seq![ev].skip(1) =~= Seq::<Event>::empty());
    assert(spec_routed_sends(Seq::<Event>::empty(), address) =~= Seq::<Outgoing>::empty());
    assert(spec_routed_callbacks(Seq::<Event>::empty()) =~= Seq::<Event>::empty());
    match ev {
        Event::Transmit(p) => {
            assert(spec_routed_sends(seq![ev], address) =~= seq![
                Outgoing { to: address, packet: p },
            ]);
            assert(spec_routed_callbacks(seq![ev]) =~= Seq::<Event>::empty());
        },
        _ => {
            assert(spec_routed_sends(seq![ev], address) =~= Seq::<Outgoing>::empty());
            assert(spec_routed_callbacks(seq![ev]) =~= seq![ev]);
        },
    }
}

/// Splits a connection's events: transmissions go to the wire with the
/// connection's address, everything else goes to the user.
fn route_events(
    events: Vec<Event>,
    address: PeerAddress,
    sends: &mut Vec<Outgoing>,
    callbacks: &mut Vec<Event>,
)
    ensures
        final(sends)@ == old(sends)@ + spec_routed_sends(events@, address),
        final(callbacks)@ == old(callbacks)@ + spec_routed_callbacks(events@),
{
    let ghost events0 = events@;
    let mut rest = events;
    loop
        invariant
            old(sends)@ + spec_routed_sends(events0, address) == sends@ + spec_routed_sends(
                rest@,
                address,
            ),
            old(callbacks)@ + spec_routed_callbacks(events0) == callbacks@ + spec_routed_callbacks(
                rest@,
            ),
        ensures
            sends@ == old(sends)@ + spec_routed_sends(events0, address),
            callbacks@ == old(callbacks)@ + spec_routed_callbacks(events0),
        decreases rest@.len(),
    {
        if rest.len() == 0 {
            proof {
                assert(spec_routed_sends(rest@, address) =~= Seq::<Outgoing>::empty());
                assert(spec_routed_callbacks(rest@) =~= Seq::<Event>::empty());
                assert(sends@ =~= old(sends)@ + spec_routed_sends(events0, address));
                assert(callbacks@ =~= old(callbacks)@ + spec_routed_callbacks(events0));
            }
            break ;
        }
        let ghost rest0 = rest@;
        let ev = rest.remove(0);
        proof {
            assert(rest@ =~= rest0.skip(1));
        }
        match ev {
            Event::Transmit(packet) => {
                sends.push(Outgoing { to: address, packet });
                proof {
                    assert(old(sends)@ + spec_routed_sends(events0, address) =~= sends@
                        + spec_routed_sends(rest@, address));
                    assert(old(callbacks)@ + spec_routed_callbacks(events0) =~= callbacks@
                        + spec_routed_callbacks(rest@));
                }
            },
            other => {
                callbacks.push(other);
                proof {
                    assert(old(sends)@ + spec_routed_sends(events0, address) =~= sends@
                        + spec_routed_sends(rest@, address));
                    assert(old(callbacks)@ + spec_routed_callbacks(events0) =~= callbacks@
                        + spec_routed_callbacks(rest@));
                }
            },
        }
    }
}

} // verus!
