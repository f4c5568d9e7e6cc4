//! Errors of the framework.
use vstd::prelude::*;

verus! {

/// What can go wrong while serving, calling or framing. The variants that
/// come from the operating system or the serializer carry its message.
#[derive(Debug, PartialEq, Eq)]
pub enum Error {
    BindFailed { message: String },
    AcceptFailed { message: String },
    ReadFailed { message: String },
    WriteFailed { message: String },
    FrameTooLarge { length: usize },
    DeserializeFailed { message: String },
    SerializeFailed { message: String },
    ConnectFailed { message: String },
    AddressRequired,
    RecvFailed { message: String },
    SendFailed,
    ConnectionClosed,
    /// The server answered a call with a status other than `OK`.
    CallFailed { code: crate::protocol::StatusCode, message: String },
}

} // verus!
