//! The small fixed responders for connectionless and connection-bound
//! control packets: connect requests, echoes, and heartbeats.

use vstd::prelude::*;

use crate::packets::Packet;
use crate::packets::PacketView;
use crate::packets::Uuid;

verus! {

/// Answers connectionless connect requests.
#[derive(Debug, Clone, Copy, PartialEq, Eq, Structural, Default)]
pub struct ConnectionResponder;

impl ConnectionResponder {
    /// A connect responder.
    pub fn new() -> (r: ConnectionResponder)
        ensures
            r == ConnectionResponder,
    {
        ConnectionResponder
    }

    /// Answers a connect request with the identity assigned to the new
    /// connection; any other packet is not this responder's business.
    pub fn handle_incoming_packet_connectionless(&self, packet: &Packet, local_id: Uuid) -> (r:
        Option<Packet>)
        ensures
            match packet@ {
                PacketView::Connect(_) => r == Some(Packet::Connected(local_id)),
                _ => r is None,
            },
    {
        match packet {
            Packet::Connect(_) => Some(Packet::Connected(local_id)),
            _ => None,
        }
    }
}

/// Sends echo probes straight back to their sender.
#[derive(Debug, Clone, Copy, PartialEq, Eq, Structural, Default)]
pub struct EchoResponder;

impl EchoResponder {
    /// An echo responder.
    pub fn new() -> (r: EchoResponder)
        ensures
            r == EchoResponder,
    {
        EchoResponder
    }

    /// Returns the echo to send back; any other packet is not this
    /// responder's business.
    pub fn handle_incoming_packet(&self, packet: &Packet) -> (r: Option<Packet>)
        ensures
            match packet@ {
                PacketView::Echo { endpoint, probe } => r == Some(
                    Packet::Echo { endpoint, probe },
                ),
                _ => r is None,
            },
    {
        match packet {
            Packet::Echo { endpoint, probe } => Some(
                Packet::Echo { endpoint: *endpoint, probe: *probe },
            ),
            _ => None,
        }
    }
}

/// Accepts heartbeats, which need no reply.
#[derive(Debug, Clone, Copy, PartialEq, Eq, Structural, Default)]
pub struct HeartbeatResponder;

impl HeartbeatResponder {
    /// A heartbeat responder.
    pub fn new() -> (r: HeartbeatResponder)
        ensures
            r == HeartbeatResponder,
    {
        HeartbeatResponder
    }

    /// Swallows a heartbeat; returns whether the packet was one.
    pub fn handle_incoming_packet(&self, packet: &Packet) -> (r: bool)
        ensures
            r == (packet@ matches PacketView::Heartbeat { .. }),
    {
        match packet {
            Packet::Heartbeat { .. } => true,
            _ => false,
        }
    }
}

} // verus!
