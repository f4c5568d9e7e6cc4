//! The server side: the table that routes a (service, method) pair to its
//! handler, and the decisions a connection makes on each incoming frame.
use vstd::prelude::*;

use crate::error::Error;
use crate::protocol::{not_found_envelope, RPCEnvelope, RPCStatus, PROTOCOL_VERSION};

verus! {

/// The key under which a handler is registered: (service name, method name).
pub type RouteKey = (Seq<char>, Seq<char>);

/// One registered handler and its route.
pub struct Route<H> {
    pub service: String,
    pub method: String,
    pub handler: H,
}

/// The key of a route.
pub open spec fn route_key<H>(r: Route<H>) -> RouteKey {
    (r.service@, r.method@)
}

/// The map that a list of routes denotes: a later route for a key takes the
/// place of an earlier one.
pub open spec fn routes_map<H>(routes: Seq<Route<H>>) -> Map<RouteKey, H>
    decreases routes.len(),
{
    if routes.len() == 0 {
        Map::empty()
    } else {
        routes_map(routes.drop_last()).insert(route_key(routes.last()), routes.last().handler)
    }
}

/// No two routes share a key.
pub open spec fn distinct_keys<H>(routes: Seq<Route<H>>) -> bool {
    forall|i: int, j: int|
        0 <= i < routes.len() && 0 <= j < routes.len() && i != j ==> route_key(#[trigger] routes[i])
            != route_key(#[trigger] routes[j])
}

/// A key is in the map exactly when some route has it, and with distinct
/// keys the map gives that route's handler.
proof fn lemma_routes_map<H>(routes: Seq<Route<H>>)
    ensures
        forall|k: RouteKey|
            #[trigger] routes_map(routes).contains_key(k) <==> exists|i: int|
                0 <= i < routes.len() && route_key(#[trigger] routes[i]) == k,
        distinct_keys(routes) ==> forall|i: int|
            0 <= i < routes.len() ==> #[trigger] routes_map(routes)[route_key(routes[i])]
                == routes[i].handler,
    decreases routes.len(),
{
    if routes.len() > 0 {
        let init = routes.drop_last();
        lemma_routes_map(init);
        assert forall|k: RouteKey| #[trigger] routes_map(routes).contains_key(k) <==> exists|i: int|
            0 <= i < routes.len() && route_key(#[trigger] routes[i]) == k by {
            if routes_map(routes).contains_key(k) && k != route_key(routes.last()) {
                assert(routes_map(init).contains_key(k));
                let i = choose|i: int| 0 <= i < init.len() && route_key(#[trigger] init[i]) == k;
                assert(routes[i] == init[i]);
            }
            if exists|i: int| 0 <= i < routes.len() && route_key(#[trigger] routes[i]) == k {
                let i = choose|i: int| 0 <= i < routes.len() && route_key(#[trigger] routes[i]) == k;
                if i < init.len() {
                    assert(init[i] == routes[i]);
                    assert(routes_map(init).contains_key(k));
                }
            }
        }
        if distinct_keys(routes) {
            assert(distinct_keys(init)) by {
                assert forall|i: int, j: int|
                    0 <= i < init.len() && 0 <= j < init.len() && i != j implies route_key(
                        #[trigger] init[i],
                    ) != route_key(#[trigger] init[j]) by {
                    assert(init[i] == routes[i] && init[j] == routes[j]);
                }
            }
            assert forall|i: int| 0 <= i < routes.len() implies #[trigger] routes_map(
                routes,
            )[route_key(routes[i])] == routes[i].handler by {
                if i < init.len() {
                    assert(init[i] == routes[i]);
                    assert(route_key(routes[i]) != route_key(routes[routes.len() - 1]));
                    assert(routes_map(init)[route_key(init[i])] == init[i].handler);
                }
            }
        }
    }
}

/// The map of a list of routes has finitely many keys.
proof fn lemma_routes_map_finite<H>(routes: Seq<Route<H>>)
    ensures
        routes_map(routes).dom().finite(),
    decreases routes.len(),
{
    if routes.len() > 0 {
        lemma_routes_map_finite(routes.drop_last());
    }
}

/// The registered handlers, keyed by (service, method); at most one handler
/// per key.
pub struct HandlerTable<H> {
    routes: Vec<Route<H>>,
}

impl<H> HandlerTable<H> {
    #[verifier::type_invariant]
    spec fn well_formed(self) -> bool {
        distinct_keys(self.routes@)
    }

    /// The handler registered for each key.
    pub closed spec fn handlers(self) -> Map<RouteKey, H> {
        routes_map(self.routes@)
    }
}

impl<H> View for HandlerTable<H> {
    type V = Map<RouteKey, H>;

    open spec fn view(&self) -> Map<RouteKey, H> {
        self.handlers()
    }
}

/// A handler table holds finitely many routes.
pub proof fn lemma_handlers_finite<H>(table: &HandlerTable<H>)
    ensures
        table@.dom().finite(),
{
    lemma_routes_map_finite(table.routes@);
}

/// The handler registered for (service, method), if any.
pub open spec fn lookup<H>(table: Map<RouteKey, H>, service: Seq<char>, method: Seq<char>) -> Option<H> {
    if table.contains_key((service, method)) {
        Some(table[(service, method)])
    } else {
        None
    }
}

impl<H> HandlerTable<H> {
    /// An empty table.
    pub fn new() -> (t: HandlerTable<H>)
        ensures
            t@ == Map::<RouteKey, H>::empty(),
            t@.dom().finite(),
    {
        HandlerTable { routes: Vec::new() }
    }

    /// Number of registered routes.
    pub fn len(&self) -> (n: usize)
        ensures
            n == self@.len(),
    {
        proof {
            use_type_invariant(self);
            lemma_routes_map(self.routes@);
            self.lemma_len();
        }
        self.routes.len()
    }

    proof fn lemma_len(&self)
        requires
            distinct_keys(self.routes@),
        ensures
            self.routes@.len() == self@.len(),
    {
        let routes = self.routes@;
        let keys = routes.map_values(|r: Route<H>| route_key(r));
        lemma_routes_map(routes);
        assert(keys.no_duplicates()) by {
            assert forall|i: int, j: int|
                0 <= i < keys.len() && 0 <= j < keys.len() && i != j implies keys[i] != keys[j] by {
                assert(route_key(routes[i]) != route_key(routes[j]));
            }
        }
        assert(keys.to_set() =~= self@.dom()) by {
            assert forall|k: RouteKey| keys.to_set().contains(k) <==> self@.dom().contains(k) by {
                if keys.to_set().contains(k) {
                    let i = choose|i: int| 0 <= i < keys.len() && keys[i] == k;
                    assert(route_key(routes[i]) == k);
                }
                if self@.dom().contains(k) {
                    let i = choose|i: int| 0 <= i < routes.len() && route_key(#[trigger] routes[i]) == k;
                    assert(keys[i] == k);
                }
            }
        }
        keys.unique_seq_to_set();
    }

    /// Position of the route for (service, method), if there is one.
    fn position(&self, service: &String, method: &String) -> (pos: Option<usize>)
        ensures
            match pos {
                Some(i) => i < self.routes@.len() && route_key(self.routes@[i as int]) == (
                    service@,
                    method@,
                ),
                None => forall|i: int|
                    0 <= i < self.routes@.len() ==> route_key(#[trigger] self.routes@[i]) != (
                        service@,
                        method@,
                    ),
            },
    {
        let mut i: usize = 0;
        while i < self.routes.len()
            invariant
                i <= self.routes@.len(),
                forall|j: int|
                    0 <= j < i ==> route_key(#[trigger] self.routes@[j]) != (service@, method@),
            decreases self.routes@.len() - i,
        {
            let r = &self.routes[i];
            if r.service == *service && r.method == *method {
                return Some(i);
            }
            i = i + 1;
        }
        None
    }

    /// The handler for (service, method), if one is registered.
    pub fn get(&self, service: &String, method: &String) -> (h: Option<&H>)
        ensures
            match h {
                Some(h) => lookup(self@, service@, method@) == Some(*h),
                None => lookup(self@, service@, method@) is None,
            },
    {
        proof {
            use_type_invariant(self);
            lemma_routes_map(self.routes@);
        }
        match self.position(service, method) {
            Some(i) => Some(&self.routes[i].handler),
            None => None,
        }
    }

    /// Whether a handler is registered for (service, method).
    pub fn contains(&self, service: &String, method: &String) -> (b: bool)
        ensures
            b == self@.contains_key((service@, method@)),
    {
        proof {
            use_type_invariant(self);
            lemma_routes_map(self.routes@);
        }
        self.position(service, method).is_some()
    }

    /// Registers `handler` for (service, method); a handler already
    /// registered for that pair is replaced, the others stay.
    pub fn insert(&mut self, service: String, method: String, handler: H)
        ensures
            final(self)@ == old(self)@.insert((service@, method@), handler),
            final(self)@.dom().finite(),
            final(self)@.len() == old(self)@.len() + (if old(self)@.contains_key((service@, method@)) {
                0int
            } else {
                1int
            }),
    {
        proof {
            use_type_invariant(&*self);
            lemma_routes_map(self.routes@);
        }
        let ghost old_routes = self.routes@;
        let ghost key = (service@, method@);
        proof {
            lemma_routes_map_finite(old_routes);
        }
        let found = self.position(&service, &method);
        let mut routes: Vec<Route<H>> = Vec::new();
        std::mem::swap(&mut routes, &mut self.routes);
        match found {
            Some(i) => {
                let route = Route { service, method, handler };
                routes.set(i, route);
                proof {
                    let routes = routes@;
                    assert(distinct_keys(routes)) by {
                        assert forall|a: int, b: int|
                            0 <= a < routes.len() && 0 <= b < routes.len() && a != b implies route_key(
                                #[trigger] routes[a],
                            ) != route_key(#[trigger] routes[b]) by {
                            assert(route_key(routes[a]) == route_key(old_routes[a]));
                            assert(route_key(routes[b]) == route_key(old_routes[b]));
                        }
                    }
                    lemma_routes_map(routes);
                    assert(routes_map(routes) =~= routes_map(old_routes).insert(key, handler)) by {
                        assert forall|k: RouteKey| #[trigger] routes_map(routes).contains_key(k)
                            <==> routes_map(old_routes).insert(key, handler).contains_key(k) by {
                            if routes_map(routes).contains_key(k) {
                                let j = choose|j: int|
                                    0 <= j < routes.len() && route_key(#[trigger] routes[j]) == k;
                                assert(route_key(old_routes[j]) == k);
                            }
                            if routes_map(old_routes).contains_key(k) {
                                let j = choose|j: int|
                                    0 <= j < old_routes.len() && route_key(#[trigger] old_routes[j])
                                        == k;
                                assert(route_key(routes[j]) == k);
                            }
                        }
                        assert forall|k: RouteKey| #[trigger] routes_map(routes).contains_key(k)
                            implies routes_map(routes)[k] == routes_map(old_routes).insert(
                            key,
                            handler,
                        )[k] by {
                            let j = choose|j: int|
                                0 <= j < routes.len() && route_key(#[trigger] routes[j]) == k;
                            assert(route_key(old_routes[j]) == k);
                        }
                    }
                }
            },
            None => {
                let route = Route { service, method, handler };
                routes.push(route);
                proof {
                    let routes = routes@;
                    assert(routes.drop_last() =~= old_routes);
                    assert(distinct_keys(routes)) by {
                        assert forall|a: int, b: int|
                            0 <= a < routes.len() && 0 <= b < routes.len() && a != b implies route_key(
                                #[trigger] routes[a],
                            ) != route_key(#[trigger] routes[b]) by {
                            if a < old_routes.len() {
                                assert(routes[a] == old_routes[a]);
                            }
                            if b < old_routes.len() {
                                assert(routes[b] == old_routes[b]);
                            }
                        }
                    }
                }
            },
        }
        self.routes = routes;
        proof {
            lemma_routes_map_finite(self.routes@);
        }
    }
}

/// A server's routing state: the handler of each (service, method).
pub struct RPCServer<H> {
    pub handlers: HandlerTable<H>,
}

impl<H> RPCServer<H> {
    /// A server with no handler registered.
    pub fn new() -> (s: RPCServer<H>)
        ensures
            s.handlers@ == Map::<RouteKey, H>::empty(),
            s.handlers@.dom().finite(),
    {
        RPCServer { handlers: HandlerTable::new() }
    }

    /// Registers `handler` for (service, method), replacing any handler
    /// registered for the same pair.
    pub fn register_service(&mut self, service: String, method: String, handler: H)
        ensures
            final(self).handlers@ == old(self).handlers@.insert((service@, method@), handler),
            final(self).handlers@.dom().finite(),
            final(self).handlers@.len() == old(self).handlers@.len() + (if old(
                self,
            ).handlers@.contains_key((service@, method@)) {
                0int
            } else {
                1int
            }),
    {
        self.handlers.insert(service, method, handler);
    }
}

/// Registering a handler and looking its route up gives that handler back;
/// every other route is looked up as before.
pub proof fn lemma_register_then_lookup<H>(
    table: Map<RouteKey, H>,
    service: Seq<char>,
    method: Seq<char>,
    handler: H,
    other_service: Seq<char>,
    other_method: Seq<char>,
)
    ensures
        lookup(table.insert((service, method), handler), service, method) == Some(handler),
        (other_service, other_method) != (service, method) ==> lookup(
            table.insert((service, method), handler),
            other_service,
            other_method,
        ) == lookup(table, other_service, other_method),
{
}

/// What the read side of a connection hands to the server.
#[derive(Debug)]
pub enum Incoming {
    /// A frame whose body decoded into an envelope.
    Envelope(RPCEnvelope),
    /// A frame whose body did not decode.
    Undecodable,
    /// The peer closed the connection between frames.
    Closed,
    /// Reading failed otherwise.
    Failed(Error),
}

/// What a connection does next.
#[derive(Debug)]
pub enum ServerAction {
    /// Run the handler of the route on the payload, in a task of its own.
    Dispatch { sequence_number: u64, service_name: String, method_name: String, payload: Vec<u8> },
    /// Write this envelope back.
    Reply(RPCEnvelope),
    /// Drop the frame and read the next one.
    Skip,
    /// Stop serving the connection with this result.
    Finish(Result<(), Error>),
}

/// `a` is what a connection does on `incoming` with handlers `table`.
pub open spec fn action_for<H>(table: Map<RouteKey, H>, incoming: Incoming, a: ServerAction) -> bool {
    match incoming {
        Incoming::Envelope(e) => if table.contains_key((e.service_name@, e.method_name@)) {
            a matches ServerAction::Dispatch { sequence_number, service_name, method_name, payload }
                && sequence_number == e.sequence_number && service_name@ == e.service_name@
                && method_name@ == e.method_name@ && payload@ == e.payload@
        } else {
            a matches ServerAction::Reply(r) && r.version == crate::protocol::PROTOCOL_VERSION
                && r.sequence_number == e.sequence_number && r.service_name@ == e.service_name@
                && r.method_name@ == e.method_name@ && r.status is Some
                && crate::protocol::is_not_found_status(r.status->0) && r.payload@.len() == 0
        },
        Incoming::Undecodable => a is Skip,
        Incoming::Closed => a == ServerAction::Finish(Ok(())),
        Incoming::Failed(err) => a == ServerAction::Finish(Err(err)),
    }
}

/// `e` is the reply to call `sequence_number` of (service, method) whose
/// handler returned `result`.
pub open spec fn is_handler_reply(
    e: RPCEnvelope,
    sequence_number: u64,
    service: Seq<char>,
    method: Seq<char>,
    result: Result<Vec<u8>, RPCStatus>,
) -> bool {
    &&& e.version == crate::protocol::PROTOCOL_VERSION
    &&& e.sequence_number == sequence_number
    &&& e.service_name@ == service
    &&& e.method_name@ == method
    &&& e.status is Some
    &&& match result {
        Ok(bytes) => crate::protocol::is_success_status(e.status->0) && e.payload@ == bytes@,
        Err(status) => e.status->0 == status && e.payload@.len() == 0,
    }
}

/// The decision a connection makes on what it has read: a request for a
/// registered route is dispatched to its handler, one for an unknown route
/// is answered `NotFound`, an undecodable frame is skipped, a clean close
/// ends the connection with `Ok`, and a read error ends it with that error.
pub fn next_action<H>(handlers: &HandlerTable<H>, incoming: Incoming) -> (a: ServerAction)
    ensures
        action_for(handlers@, incoming, a),
{
    match incoming {
        Incoming::Envelope(e) => {
            if handlers.contains(&e.service_name, &e.method_name) {
                ServerAction::Dispatch {
                    sequence_number: e.sequence_number,
                    service_name: e.service_name,
                    method_name: e.method_name,
                    payload: e.payload,
                }
            } else {
                ServerAction::Reply(not_found_envelope(e))
            }
        },
        Incoming::Undecodable => ServerAction::Skip,
        Incoming::Closed => ServerAction::Finish(Ok(())),
        Incoming::Failed(err) => ServerAction::Finish(Err(err)),
    }
}

/// The reply a server writes once a handler has run: on success the
/// handler's bytes with the `OK` status, on failure the handler's status and
/// an empty payload; the sequence number and route are those of the request.
pub fn handler_reply(
    sequence_number: u64,
    service_name: String,
    method_name: String,
    result: Result<Vec<u8>, RPCStatus>,
) -> (e: RPCEnvelope)
    ensures
        is_handler_reply(e, sequence_number, service_name@, method_name@, result),
{
    match result {
        Ok(bytes) => RPCEnvelope {
            version: PROTOCOL_VERSION,
            sequence_number,
            service_name,
            method_name,
            status: Some(RPCStatus::success()),
            payload: bytes,
        },
        Err(status) => RPCEnvelope {
            version: PROTOCOL_VERSION,
            sequence_number,
            service_name,
            method_name,
            status: Some(status),
            payload: Vec::new(),
        },
    }
}

/// The envelope a connection writes back for a request on which it took
/// action `a`: the `NotFound` reply it wrote at once, or else the reply of
/// the dispatched handler.
pub open spec fn written_reply(a: ServerAction, dispatched: RPCEnvelope) -> RPCEnvelope {
    match a {
        ServerAction::Reply(r) => r,
        _ => dispatched,
    }
}

/// `reply` answers `request`: same sequence number and route.
pub open spec fn answers(request: RPCEnvelope, reply: RPCEnvelope) -> bool {
    &&& reply.sequence_number == request.sequence_number
    &&& reply.service_name@ == request.service_name@
    &&& reply.method_name@ == request.method_name@
}

/// Over a whole connection: when requests q_1..q_n are read and each
/// dispatched handler returns, the connection writes exactly one reply per
/// request, which answers it; in whatever order they are written, the
/// sequence numbers of the replies are those of the requests, each as often.
/// A request is dispatched exactly when its route has a handler.
pub proof fn lemma_connection_answers_each_request<H>(
    table: Map<RouteKey, H>,
    requests: Seq<RPCEnvelope>,
    actions: Seq<ServerAction>,
    results: Seq<Result<Vec<u8>, RPCStatus>>,
    dispatched: Seq<RPCEnvelope>,
)
    requires
        actions.len() == requests.len(),
        results.len() == requests.len(),
        dispatched.len() == requests.len(),
        forall|i: int|
            0 <= i < requests.len() ==> action_for(table, Incoming::Envelope(requests[i]), #[trigger] actions[i]),
        forall|i: int|
            0 <= i < requests.len() ==> (#[trigger] actions[i] matches ServerAction::Dispatch {
                sequence_number,
                service_name,
                method_name,
                payload,
            } ==> is_handler_reply(dispatched[i], sequence_number, service_name@, method_name@, results[i])),
    ensures
        forall|i: int|
            0 <= i < requests.len() ==> answers(requests[i], #[trigger] written_reply(actions[i], dispatched[i])),
        forall|i: int|
            0 <= i < requests.len() ==> ((#[trigger] actions[i] is Dispatch) <==> table.contains_key(
                (requests[i].service_name@, requests[i].method_name@),
            )),
        Seq::new(requests.len(), |i: int| written_reply(actions[i], dispatched[i]).sequence_number).to_multiset()
            =~= requests.map_values(|q: RPCEnvelope| q.sequence_number).to_multiset(),
{
    assert forall|i: int| 0 <= i < requests.len() implies answers(
        requests[i],
        #[trigger] written_reply(actions[i], dispatched[i]),
    ) && ((actions[i] is Dispatch) <==> table.contains_key(
        (requests[i].service_name@, requests[i].method_name@),
    )) by {
        assert(action_for(table, Incoming::Envelope(requests[i]), actions[i]));
    }
    assert(Seq::new(requests.len(), |i: int| written_reply(actions[i], dispatched[i]).sequence_number)
        =~= requests.map_values(|q: RPCEnvelope| q.sequence_number));
}

/// How far a generated handler got with a call.
#[derive(Debug)]
pub enum CallStage {
    /// The request bytes did not decode into the request type.
    RequestUndecodable,
    /// The service returned an error.
    ServiceFailed,
    /// The service's response did not encode.
    ResponseUnencodable,
    /// The service answered and its response encoded into these bytes.
    Encoded(Vec<u8>),
}

/// What a generated handler returns to the server: the encoded response, or
/// an `Internal` status saying which step failed; `failure_message` is the
/// method's message for a failed service call.
pub fn call_result(failure_message: &str, stage: CallStage) -> (r: Result<Vec<u8>, RPCStatus>)
    ensures
        match stage {
            CallStage::RequestUndecodable => r matches Err(s) && s.code
                == crate::protocol::StatusCode::Internal && s.message@ == "Failed to decode request"@,
            CallStage::ServiceFailed => r matches Err(s) && s.code
                == crate::protocol::StatusCode::Internal && s.message@ == failure_message@,
            CallStage::ResponseUnencodable => r matches Err(s) && s.code
                == crate::protocol::StatusCode::Internal && s.message@ == "Failed to encode response"@,
            CallStage::Encoded(bytes) => r matches Ok(b) && b@ == bytes@,
        },
{
    match stage {
        CallStage::RequestUndecodable => Err(
            RPCStatus::new(crate::protocol::StatusCode::Internal, "Failed to decode request".to_owned()),
        ),
        CallStage::ServiceFailed => Err(
            RPCStatus::new(crate::protocol::StatusCode::Internal, failure_message.to_owned()),
        ),
        CallStage::ResponseUnencodable => Err(
            RPCStatus::new(crate::protocol::StatusCode::Internal, "Failed to encode response".to_owned()),
        ),
        CallStage::Encoded(bytes) => Ok(bytes),
    }
}

} // verus!
