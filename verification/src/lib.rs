//! Fastnet: a connection-oriented reliable/unreliable messaging protocol
//! engine designed to run over UDP.
//!
//! A single endpoint acts symmetrically as initiator and listener: it
//! multiplexes many logical peer connections over one datagram socket.  This
//! crate contains the whole protocol core — the wire codec with CRC framing,
//! the message framing layer, the per-channel receive/ack machinery, the
//! retransmit manager, the roundtrip estimator and the connection state
//! machine — as verified code.  Socket I/O, timers and user callbacks live
//! outside; the core consumes decoded datagrams and clock readings and
//! returns the packets to transmit and the events to report.

pub mod ack;
pub mod codec;
pub mod connection;
pub mod endpoint;
pub mod estimator;
pub mod frame;
pub mod packets;
pub mod receiver;
pub mod responders;
pub mod status;
pub mod wire;
