//! The envelope that every frame carries, its status codes, and the
//! envelopes that clients and servers build.
use vstd::prelude::*;

verus! {

/// Version number written into every envelope.
pub const PROTOCOL_VERSION: u8 = 1;

/// Outcome class of a call.
#[derive(Debug, Clone, Copy, PartialEq, Eq, Structural)]
pub enum StatusCode {
    OK,
    InvalidArgument,
    NotFound,
    DeadlineExceeded,
    Unavailable,
    Internal,
}

/// Outcome of a call: a code and a human-readable message.
#[derive(Debug)]
pub struct RPCStatus {
    pub code: StatusCode,
    pub message: String,
}

/// What a frame carries: the protocol version, the sequence number that
/// pairs a response with its request, the route, an optional status (set on
/// responses) and the opaque payload.
#[derive(Debug)]
pub struct RPCEnvelope {
    pub version: u8,
    pub sequence_number: u64,
    pub service_name: String,
    pub method_name: String,
    pub status: Option<RPCStatus>,
    pub payload: Vec<u8>,
}

/// The status a server attaches to a successful reply.
pub open spec fn is_success_status(s: RPCStatus) -> bool {
    s.code == StatusCode::OK && s.message@ == "Success"@
}

/// The status a server attaches to a request for an unknown route.
pub open spec fn is_not_found_status(s: RPCStatus) -> bool {
    s.code == StatusCode::NotFound && s.message@ == "Method not found"@
}

impl RPCStatus {
    /// A status with the given code and message.
    pub fn new(code: StatusCode, message: String) -> (s: RPCStatus)
        ensures
            s.code == code,
            s.message@ == message@,
    {
        RPCStatus { code, message }
    }

    /// The status of a successful reply: `OK`, "Success".
    pub fn success() -> (s: RPCStatus)
        ensures
            is_success_status(s),
    {
        RPCStatus { code: StatusCode::OK, message: "Success".to_owned() }
    }

    /// The status of a reply to an unknown route: `NotFound`, "Method not found".
    pub fn not_found() -> (s: RPCStatus)
        ensures
            is_not_found_status(s),
    {
        RPCStatus { code: StatusCode::NotFound, message: "Method not found".to_owned() }
    }

    /// A copy with the same code and message.
    pub fn duplicate(&self) -> (s: RPCStatus)
        ensures
            s.code == self.code,
            s.message@ == self.message@,
    {
        RPCStatus { code: self.code, message: self.message.clone() }
    }
}

/// `e` is the request of call `sequence_number` to (service, method) with
/// `payload`.
pub open spec fn is_request(
    e: RPCEnvelope,
    sequence_number: u64,
    service: Seq<char>,
    method: Seq<char>,
    payload: Seq<u8>,
) -> bool {
    &&& e.version == PROTOCOL_VERSION
    &&& e.sequence_number == sequence_number
    &&& e.service_name@ == service
    &&& e.method_name@ == method
    &&& e.status is None
    &&& e.payload@ == payload
}

/// The request envelope a client writes for a call.
pub fn request_envelope(sequence_number: u64, service: &str, method: &str, payload: Vec<u8>) -> (e:
    RPCEnvelope)
    ensures
        is_request(e, sequence_number, service@, method@, payload@),
{
    RPCEnvelope {
        version: PROTOCOL_VERSION,
        sequence_number,
        service_name: service.to_owned(),
        method_name: method.to_owned(),
        status: None,
        payload,
    }
}

/// The reply a server writes for a request whose route has no handler: the
/// request's sequence number and route, the `NotFound` status, no payload.
pub fn not_found_envelope(request: RPCEnvelope) -> (e: RPCEnvelope)
    ensures
        e.version == PROTOCOL_VERSION,
        e.sequence_number == request.sequence_number,
        e.service_name@ == request.service_name@,
        e.method_name@ == request.method_name@,
        e.status is Some,
        is_not_found_status(e.status->0),
        e.payload@.len() == 0,
{
    RPCEnvelope {
        version: PROTOCOL_VERSION,
        sequence_number: request.sequence_number,
        service_name: request.service_name,
        method_name: request.method_name,
        status: Some(RPCStatus::not_found()),
        payload: Vec::new(),
    }
}

/// An envelope that reports `error` for `sequence_number` outside any route:
/// empty service and method names, no payload.
pub fn error_envelope(error: &RPCStatus, sequence_number: u64) -> (e: RPCEnvelope)
    ensures
        e.version == PROTOCOL_VERSION,
        e.sequence_number == sequence_number,
        e.service_name@.len() == 0,
        e.method_name@.len() == 0,
        e.status is Some,
        e.status->0.code == error.code,
        e.status->0.message@ == error.message@,
        e.payload@.len() == 0,
{
    RPCEnvelope {
        version: PROTOCOL_VERSION,
        sequence_number,
        service_name: String::new(),
        method_name: String::new(),
        status: Some(error.duplicate()),
        payload: Vec::new(),
    }
}

} // verus!
