//! Status queries and their answers: the protocol version, the translator
//! from query to response, and the configurable status responders.

use vstd::prelude::*;

use crate::packets::Packet;
use crate::packets::PacketView;
use crate::packets::StatusRequest;
use crate::packets::StatusRequestView;
use crate::packets::StatusResponse;
use crate::packets::StatusResponseView;

verus! {

/// The protocol version string, as bytes: `"1.0"`.
pub open spec fn spec_protocol_version() -> Seq<u8> {
    seq![49u8, 46u8, 48u8]
}

/// The protocol version string, as bytes: `"1.0"`.
pub fn protocol_version() -> (r: Vec<u8>)
    ensures
        r@ == spec_protocol_version(),
{
    let mut v: Vec<u8> = Vec::new();
    v.push(49);
    v.push(46);
    v.push(48);
    proof {
        assert(v@ =~= spec_protocol_version());
    }
    v
}

/// Some listed extension name equals this one.
pub open spec fn spec_supports(extensions: Seq<Seq<u8>>, name: Seq<u8>) -> bool {
    exists|i: int| 0 <= i < extensions.len() && extensions[i] == name
}

/// Whether two byte strings hold the same bytes.
pub fn bytes_equal(a: &Vec<u8>, b: &Vec<u8>) -> (r: bool)
    ensures
        r == (a@ == b@),
{
    if a.len() != b.len() {
        return false;
    }
    let mut i: usize = 0;
    while i < a.len()
        invariant
            a@.len() == b@.len(),
            i <= a@.len(),
            forall|j: int| 0 <= j < i ==> a@[j] == b@[j],
        decreases a@.len() - i,
    {
        if a[i] != b[i] {
            return false;
        }
        i = i + 1;
    }
    proof {
        assert(a@ =~= b@);
    }
    true
}

/// A copy of a byte string.
fn clone_bytes(a: &Vec<u8>) -> (r: Vec<u8>)
    ensures
        r@ == a@,
{
    let r = a.clone();
    proof {
        assert(r@ =~= a@);
    }
    r
}

/// The answer this always-listening endpoint with no extensions gives to a
/// status query: it is listening, it speaks the protocol version, and it
/// supports no extension.
pub fn translate(request: &StatusRequest) -> (r: StatusResponse)
    ensures
        r@ == (match request@ {
            StatusRequestView::FastnetQuery => StatusResponseView::FastnetResponse(true),
            StatusRequestView::VersionQuery => StatusResponseView::VersionResponse(
                spec_protocol_version(),
            ),
            StatusRequestView::ExtensionQuery(name) => StatusResponseView::ExtensionResponse {
                name: name,
                supported: false,
            },
        }),
{
    match request {
        StatusRequest::FastnetQuery => StatusResponse::FastnetResponse(true),
        StatusRequest::VersionQuery => StatusResponse::VersionResponse(protocol_version()),
        StatusRequest::ExtensionQuery(name) => StatusResponse::ExtensionResponse {
            name: clone_bytes(name),
            supported: false,
        },
    }
}

/// What a configured responder answers to a status query.
pub open spec fn spec_status_answer(
    listening: bool,
    version: Seq<u8>,
    extensions: Seq<Seq<u8>>,
    req: StatusRequestView,
) -> StatusResponseView {
    match req {
        StatusRequestView::FastnetQuery => StatusResponseView::FastnetResponse(listening),
        StatusRequestView::VersionQuery => StatusResponseView::VersionResponse(version),
        StatusRequestView::ExtensionQuery(name) => StatusResponseView::ExtensionResponse {
            name: name,
            supported: spec_supports(extensions, name),
        },
    }
}

/// Answers connectionless status queries from its configuration: the
/// listening flag, the version string, and the supported extension names.
#[derive(Debug, Clone, PartialEq, Eq)]
pub struct StatusResponder {
    pub listening: bool,
    pub version: Vec<u8>,
    pub supported_extensions: Vec<Vec<u8>>,
}

impl StatusResponder {
    /// A responder with the given configuration.
    pub fn new(listening: bool, version: Vec<u8>, supported_extensions: Vec<Vec<u8>>) -> (r:
        StatusResponder)
        ensures
            r.listening == listening,
            r.version@ == version@,
            r.supported_extensions@ == supported_extensions@,
    {
        StatusResponder { listening, version, supported_extensions }
    }

    /// The names of the supported extensions, as byte sequences.
    pub open spec fn spec_extensions(&self) -> Seq<Seq<u8>> {
        self.supported_extensions@.map_values(|v: Vec<u8>| v@)
    }

    /// Whether this responder supports the named extension.
    fn supports(&self, name: &Vec<u8>) -> (r: bool)
        ensures
            r == spec_supports(self.spec_extensions(), name@),
    {
        let mut i: usize = 0;
        while i < self.supported_extensions.len()
            invariant
                i <= self.supported_extensions@.len(),
                forall|j: int| 0 <= j < i ==> self.spec_extensions()[j] != name@,
            decreases self.supported_extensions@.len() - i,
        {
            if bytes_equal(&self.supported_extensions[i], name) {
                proof {
                    assert(self.spec_extensions()[i as int] == name@);
                }
                return true;
            }
            i = i + 1;
        }
        false
    }

    /// Answers a status request; any other packet is not this responder's
    /// business.
    pub fn handle_incoming_packet_connectionless(&self, packet: &Packet) -> (r: Option<Packet>)
        ensures
            match packet@ {
                PacketView::StatusRequest(req) => r matches Some(resp) && resp@
                    == PacketView::StatusResponse(
                    spec_status_answer(self.listening, self.version@, self.spec_extensions(), req),
                ),
                _ => r is None,
            },
    {
        match packet {
            Packet::StatusRequest(req) => {
                let resp = match req {
                    StatusRequest::FastnetQuery => StatusResponse::FastnetResponse(self.listening),
                    StatusRequest::VersionQuery => StatusResponse::VersionResponse(
                        clone_bytes(&self.version),
                    ),
                    StatusRequest::ExtensionQuery(name) => StatusResponse::ExtensionResponse {
                        supported: self.supports(name),
                        name: clone_bytes(name),
                    },
                };
                Some(Packet::StatusResponse(resp))
            },
            _ => None,
        }
    }
}

/// The same answering logic attached to an established connection's packet
/// stream.
#[derive(Debug, Clone, PartialEq, Eq)]
pub struct StatusHandler {
    pub responder: StatusResponder,
}

impl StatusHandler {
    /// A handler with the given configuration.
    pub fn new(listening: bool, version: Vec<u8>, supported_extensions: Vec<Vec<u8>>) -> (r:
        StatusHandler)
        ensures
            r.responder.listening == listening,
            r.responder.version@ == version@,
            r.responder.supported_extensions@ == supported_extensions@,
    {
        StatusHandler { responder: StatusResponder::new(listening, version, supported_extensions) }
    }

    /// Answers a status request whether or not a connection stands; any
    /// other packet is not this handler's business.
    pub fn handle_incoming_packet_always(&self, packet: &Packet) -> (r: Option<Packet>)
        ensures
            match packet@ {
                PacketView::StatusRequest(req) => r matches Some(resp) && resp@
                    == PacketView::StatusResponse(
                    spec_status_answer(
                        self.responder.listening,
                        self.responder.version@,
                        self.responder.spec_extensions(),
                        req,
                    ),
                ),
                _ => r is None,
            },
    {
        self.responder.handle_incoming_packet_connectionless(packet)
    }
}

} // verus!
