//! The ping service: one method that answers a message with a message.
use vstd::prelude::*;
use std::sync::Arc;

use crate::error::Error;

verus! {

/// Name under which the ping service is registered.
pub const SERVICE_NAME: &'static str = "Ping";

/// Name of the ping method.
pub const METHOD_PING: &'static str = "ping";

/// Message of the status returned when the ping service fails.
pub const PING_FAILURE_MESSAGE: &'static str = "Failed to ping";

/// The request of the ping method.
#[derive(Debug)]
pub struct PingRequest {
    pub message: String,
}

/// The response of the ping method.
#[derive(Debug)]
pub struct PingResponse {
    pub message: String,
}

/// What a ping service does with a request.
pub trait PingService {
    fn ping(&self, request: PingRequest) -> Result<PingResponse, Error>;
}

/// Serves a ping service: shares it between the calls it handles.
pub struct PingServer<T: PingService> {
    inner: Arc<T>,
}

impl<T: PingService> PingServer<T> {
    /// The service being served.
    pub closed spec fn spec_service(&self) -> T {
        *self.inner
    }

    /// A server for `service`.
    pub fn new(service: T) -> (s: PingServer<T>)
        ensures
            s.spec_service() == service,
    {
        PingServer { inner: Arc::new(service) }
    }

    /// The shared service, for the handlers that call it.
    pub fn service(&self) -> (s: &Arc<T>)
        ensures
            **s == self.spec_service(),
    {
        &self.inner
    }
}

/// A ping service that answers "Pong: " followed by the message.
pub struct PingServerImpl;

impl PingService for PingServerImpl {
    fn ping(&self, request: PingRequest) -> (r: Result<PingResponse, Error>)
        ensures
            r matches Ok(resp) && resp.message@ == "Pong: "@ + request.message@,
    {
        let mut message = "Pong: ".to_owned();
        message.append(request.message.as_str());
        Ok(PingResponse { message })
    }
}

} // verus!
