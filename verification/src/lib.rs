//! A small RPC framework: length-prefixed frames carrying envelopes, a
//! routing table of handlers on the server side, sequence-number matching
//! of responses on the client side, and the naming plan used to generate
//! typed client and server stubs from a service definition.
pub mod bench;
pub mod client;
pub mod codegen;
pub mod error;
pub mod frame;
pub mod ping;
pub mod protocol;
pub mod server;

pub use error::Error;
pub use protocol::{RPCEnvelope, RPCStatus, StatusCode};
