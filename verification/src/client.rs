//! The client side: choosing the server address, numbering calls, and
//! matching each response to the call that waits for it.
use vstd::prelude::*;
use std::collections::HashMap;
use vstd::std_specs::iter::IteratorSpec;

use crate::error::Error;
use crate::protocol::{RPCEnvelope, RPCStatus, StatusCode};

verus! {

broadcast use {
    vstd::std_specs::hash::group_hash_axioms,
    vstd::std_specs::hash::axiom_u64_obeys_hash_table_key_model,
    vstd::std_specs::hash::axiom_random_state_builds_valid_hashers,
};

/// Collects what a client needs before it connects.
pub struct RPCClientBuilder {
    address: Option<String>,
}

impl RPCClientBuilder {
    /// The address the builder will connect to, if one was given.
    pub closed spec fn spec_address(&self) -> Option<Seq<char>> {
        match self.address {
            Some(a) => Some(a@),
            None => None,
        }
    }

    /// A builder with no address yet.
    pub fn new() -> (b: RPCClientBuilder)
        ensures
            b.spec_address() is None,
    {
        RPCClientBuilder { address: None }
    }

    /// Sets the address to connect to, replacing any earlier one.
    pub fn address(self, address: String) -> (b: RPCClientBuilder)
        ensures
            b.spec_address() == Some(address@),
    {
        RPCClientBuilder { address: Some(address) }
    }

    /// The address to connect to; `AddressRequired` when none was given.
    pub fn connect_address(self) -> (res: Result<String, Error>)
        ensures
            match self.spec_address() {
                Some(a) => res matches Ok(s) && s@ == a,
                None => res == Err::<String, Error>(Error::AddressRequired),
            },
    {
        match self.address {
            Some(a) => Ok(a),
            None => Err(Error::AddressRequired),
        }
    }
}

/// Hands out the sequence numbers of a client's calls, starting at 1.
pub struct SequenceCounter {
    next: u64,
}

impl SequenceCounter {
    /// The number the next call will get.
    pub closed spec fn spec_next(&self) -> u64 {
        self.next
    }

    /// A counter whose first number is 1.
    pub fn new() -> (c: SequenceCounter)
        ensures
            c.spec_next() == 1,
    {
        SequenceCounter { next: 1 }
    }

    /// The number the next call will get.
    pub fn peek(&self) -> (n: u64)
        ensures
            n == self.spec_next(),
    {
        self.next
    }

    /// Takes the next number for a call; the counter moves one up.
    pub fn take(&mut self) -> (n: u64)
        requires
            old(self).spec_next() < u64::MAX,
        ensures
            n == old(self).spec_next(),
            final(self).spec_next() == old(self).spec_next() + 1,
    {
        let n = self.next;
        self.next = self.next + 1;
        n
    }
}

/// The counter values of a run of calls: each call takes the current value
/// and moves the counter one up.
pub open spec fn successive_takes(states: Seq<u64>) -> bool {
    forall|i: int| 0 <= i < states.len() - 1 ==> #[trigger] states[i + 1] == states[i] + 1
}

/// Calls made one after another get increasing, hence distinct, sequence
/// numbers: the one taken later is larger by the number of calls between.
pub proof fn lemma_sequence_numbers_increase(states: Seq<u64>, i: int, j: int)
    requires
        successive_takes(states),
        0 <= i < j < states.len(),
    ensures
        states[j] == states[i] + (j - i),
        states[i] < states[j],
    decreases j - i,
{
    if j > i + 1 {
        lemma_sequence_numbers_increase(states, i, j - 1);
        assert(states[(j - 1) + 1] == states[j - 1] + 1);
    } else {
        assert(states[i + 1] == states[i] + 1);
    }
}

/// While every waiting call has a number below the counter, the number a
/// new call takes is not already waiting, so recording the call replaces no
/// other, and afterwards every waiting call still has a number below the
/// counter.
pub proof fn lemma_fresh_number_not_pending<S>(pending: Map<u64, S>, next: u64, sender: S)
    requires
        forall|k: u64| #[trigger] pending.contains_key(k) ==> k < next,
        next < u64::MAX,
    ensures
        !pending.contains_key(next),
        pending.insert(next, sender).len() == pending.len() + 1 || !pending.dom().finite(),
        forall|k: u64| #[trigger] pending.insert(next, sender).contains_key(k) ==> k < next + 1,
{
    if pending.dom().finite() {
        assert(pending.insert(next, sender).dom() =~= pending.dom().insert(next));
    }
}

/// The calls waiting for their response, by sequence number, each with the
/// means `S` of handing the response over.
pub struct PendingRequests<S> {
    map: HashMap<u64, S>,
}

impl<S> View for PendingRequests<S> {
    type V = Map<u64, S>;

    closed spec fn view(&self) -> Map<u64, S> {
        self.map@
    }
}

impl<S> PendingRequests<S> {
    /// No call waiting.
    pub fn new() -> (p: PendingRequests<S>)
        ensures
            p@ == Map::<u64, S>::empty(),
    {
        PendingRequests { map: HashMap::new() }
    }

    /// Number of waiting calls.
    pub fn len(&self) -> (n: usize)
        ensures
            n == self@.len(),
    {
        self.map.len()
    }

    /// Records that the call numbered `sequence_number` waits, with `sender`;
    /// an earlier record for that number is replaced.
    pub fn insert(&mut self, sequence_number: u64, sender: S)
        ensures
            final(self)@ == old(self)@.insert(sequence_number, sender),
    {
        self.map.insert(sequence_number, sender);
    }

    /// Takes the record of the call numbered `sequence_number` out, if it waits.
    pub fn remove(&mut self, sequence_number: u64) -> (s: Option<S>)
        ensures
            final(self)@ == old(self)@.remove(sequence_number),
            match s {
                Some(s) => old(self)@.contains_key(sequence_number) && s == old(self)@[sequence_number],
                None => !old(self)@.contains_key(sequence_number),
            },
    {
        self.map.remove(&sequence_number)
    }

    /// Takes every waiting call out, each once, with its number.
    pub fn drain(&mut self) -> (all: Vec<(u64, S)>)
        ensures
            final(self)@ == Map::<u64, S>::empty(),
            all@.len() == old(self)@.len(),
            forall|i: int|
                0 <= i < all@.len() ==> old(self)@.contains_key(#[trigger] all@[i].0) && old(
                    self,
                )@[all@[i].0] == all@[i].1,
            forall|i: int, j: int|
                0 <= i < all@.len() && 0 <= j < all@.len() && i != j ==> #[trigger] all@[i].0
                    != #[trigger] all@[j].0,
            forall|k: u64| #[trigger] old(self)@.contains_key(k) ==> exists|i: int|
                0 <= i < all@.len() && #[trigger] all@[i].0 == k,
    {
        let ghost m0 = self.map@;
        let mut keys: Vec<u64> = Vec::new();
        let ghost ks = spec_keys_iter_of(&self.map).remaining();
        for k in it: self.map.keys()
            invariant
                keys@.len() == it.index(),
                forall|j: int| 0 <= j < it.index() ==> keys@[j] == *it.seq()[j],
        {
            keys.push(*k);
        }
        proof {
            assert(keys@ =~= ks.unref());
            assert(keys@.to_set() =~= m0.dom());
            assert(keys@.no_duplicates());
        }
        let mut all: Vec<(u64, S)> = Vec::new();
        let mut i: usize = 0;
        while i < keys.len()
            invariant
                i <= keys@.len(),
                keys@.no_duplicates(),
                keys@.to_set() == m0.dom(),
                all@.len() == i,
                forall|j: int| 0 <= j < i ==> #[trigger] all@[j].0 == keys@[j],
                forall|j: int| 0 <= j < i ==> #[trigger] all@[j].1 == m0[keys@[j]],
                self.map@ == m0.remove_keys(keys@.take(i as int).to_set()),
            decreases keys@.len() - i,
        {
            let k = keys[i];
            proof {
                assert(keys@.to_set().contains(k));
                assert(!keys@.take(i as int).to_set().contains(k)) by {
                    if keys@.take(i as int).to_set().contains(k) {
                        let j = choose|j: int| 0 <= j < i && keys@.take(i as int)[j] == k;
                        assert(keys@[j] == keys@[i as int]);
                    }
                }
            }
            let v = self.map.remove(&k);
            match v {
                Some(v) => {
                    all.push((k, v));
                },
                None => {
                    proof {
                        assert(false);
                    }
                },
            }
            proof {
                let prev = keys@.take(i as int);
                let next = keys@.take(i + 1);
                assert(next =~= prev.push(k));
                assert forall|x: u64| next.to_set().contains(x) <==> prev.to_set().insert(
                    k,
                ).contains(x) by {
                    if next.to_set().contains(x) {
                        let j = choose|j: int| 0 <= j < next.len() && next[j] == x;
                        if j < prev.len() {
                            assert(prev[j] == x);
                        }
                    }
                    if prev.to_set().contains(x) {
                        let j = choose|j: int| 0 <= j < prev.len() && prev[j] == x;
                        assert(next[j] == x);
                    }
                    if x == k {
                        assert(next[i as int] == k);
                    }
                }
                assert(next.to_set() =~= prev.to_set().insert(k));
                assert(self.map@ =~= m0.remove_keys(keys@.take(i + 1).to_set()));
            }
            i = i + 1;
        }
        proof {
            assert(keys@.take(keys@.len() as int) =~= keys@);
            assert(self.map@ =~= Map::<u64, S>::empty());
            keys@.unique_seq_to_set();
            assert forall|a: int| 0 <= a < all@.len() implies m0.contains_key(
                #[trigger] all@[a].0,
            ) && m0[all@[a].0] == all@[a].1 by {
                assert(keys@.to_set().contains(keys@[a]));
            }
            assert forall|k: u64| #[trigger] m0.contains_key(k) implies exists|a: int|
                0 <= a < all@.len() && #[trigger] all@[a].0 == k by {
                assert(keys@.to_set().contains(k));
                let a = choose|a: int| 0 <= a < keys@.len() && keys@[a] == k;
                assert(all@[a].0 == k);
            }
        }
        all
    }
}

spec fn spec_keys_iter_of<S>(m: &HashMap<u64, S>) -> std::collections::hash_map::Keys<'_, u64, S> {
    vstd::std_specs::hash::spec_keys_iter(m)
}

/// What the read side of a client connection hands over.
#[derive(Debug)]
pub enum ClientIncoming {
    /// A response frame that decoded into an envelope.
    Envelope(RPCEnvelope),
    /// A frame that did not decode, with the decoder's message.
    Undecodable { message: String },
    /// Reading stopped: the connection closed or failed.
    Ended,
}

/// What the client's read loop does next.
#[derive(Debug)]
pub enum ClientAction<S> {
    /// Hand `payload` to the call that waits through `sender`.
    Deliver { sender: S, outcome: Result<Vec<u8>, RPCStatus> },
    /// No call waits for this response; read on.
    Ignore,
    /// Stop the read loop with this error.
    Fail(Error),
    /// Stop reading; each waiting call gets an empty response.
    Drain(Vec<(u64, S)>),
}

/// What a call gets from its reply `e`: the reply's status when that status
/// is not `OK` (the server refused or the handler failed), else the reply's
/// payload.
pub open spec fn is_call_outcome(e: RPCEnvelope, outcome: Result<Vec<u8>, RPCStatus>) -> bool {
    if e.status is Some && e.status->0.code != StatusCode::OK {
        outcome == Err::<Vec<u8>, RPCStatus>(e.status->0)
    } else {
        outcome matches Ok(b) && b@ == e.payload@
    }
}

/// The result a call gets from its reply: `Err` with the reply's status
/// when that status is not `OK`, else `Ok` with the reply's payload.
pub fn reply_outcome(e: RPCEnvelope) -> (outcome: Result<Vec<u8>, RPCStatus>)
    ensures
        is_call_outcome(e, outcome),
{
    match e.status {
        Some(status) => {
            if status.code != StatusCode::OK {
                Err(status)
            } else {
                Ok(e.payload)
            }
        },
        None => Ok(e.payload),
    }
}

/// The waiting calls go from `before` to `after`, and the read loop takes
/// action `a`, on `incoming`.
pub open spec fn client_step<S>(
    before: Map<u64, S>,
    after: Map<u64, S>,
    incoming: ClientIncoming,
    a: ClientAction<S>,
) -> bool {
    match incoming {
        ClientIncoming::Envelope(e) => {
            &&& after == before.remove(e.sequence_number)
            &&& if before.contains_key(e.sequence_number) {
                a matches ClientAction::Deliver { sender, outcome } && sender == before[e.sequence_number]
                    && is_call_outcome(e, outcome)
            } else {
                a is Ignore
            }
        },
        ClientIncoming::Undecodable { message } => {
            &&& after == before
            &&& a matches ClientAction::Fail(err) && err == (Error::DeserializeFailed { message })
        },
        ClientIncoming::Ended => {
            &&& after == Map::<u64, S>::empty()
            &&& a matches ClientAction::Drain(all) && all@.len() == before.len() && (forall|i: int|
                0 <= i < all@.len() ==> before.contains_key(#[trigger] all@[i].0) && before[all@[i].0]
                    == all@[i].1) && (forall|i: int, j: int|
                0 <= i < all@.len() && 0 <= j < all@.len() && i != j ==> #[trigger] all@[i].0
                    != #[trigger] all@[j].0) && (forall|k: u64| #[trigger]
                before.contains_key(k) ==> exists|i: int|
                    0 <= i < all@.len() && #[trigger] all@[i].0 == k)
        },
    }
}

/// The read loop's decision: a response goes to the call with its sequence
/// number, which stops waiting, and one that no call waits for is dropped;
/// an undecodable frame stops the loop with `DeserializeFailed`, the waiting
/// calls left as they are; the end of the stream releases every waiting call.
pub fn on_client_incoming<S>(pending: &mut PendingRequests<S>, incoming: ClientIncoming) -> (a:
    ClientAction<S>)
    ensures
        client_step(old(pending)@, final(pending)@, incoming, a),
{
    match incoming {
        ClientIncoming::Envelope(e) => {
            match pending.remove(e.sequence_number) {
                Some(sender) => ClientAction::Deliver { sender, outcome: reply_outcome(e) },
                None => ClientAction::Ignore,
            }
        },
        ClientIncoming::Undecodable { message } => ClientAction::Fail(
            Error::DeserializeFailed { message },
        ),
        ClientIncoming::Ended => ClientAction::Drain(pending.drain()),
    }
}

/// A response reaches the call that registered its sequence number, and no
/// other call is released by it.
pub proof fn lemma_response_reaches_its_call<S>(
    pending: Map<u64, S>,
    sequence_number: u64,
    sender: S,
    other: u64,
)
    requires
        other != sequence_number,
    ensures
        pending.insert(sequence_number, sender).contains_key(sequence_number),
        pending.insert(sequence_number, sender)[sequence_number] == sender,
        pending.insert(sequence_number, sender).remove(sequence_number).contains_key(other)
            == pending.contains_key(other),
{
}

/// The calls of a client: the counter that numbers them and the calls that
/// wait for their response. Every waiting call has a number below the
/// counter, so a new call never takes a number that is waiting.
pub struct ClientCalls<S> {
    counter: SequenceCounter,
    pending: PendingRequests<S>,
}

/// A call was begun: it took number `n`, the counter's value, which no
/// waiting call had; the counter moved one up and the call waits with
/// `sender`.
pub open spec fn began_call<S>(
    next_before: u64,
    waiting_before: Map<u64, S>,
    next_after: u64,
    waiting_after: Map<u64, S>,
    n: u64,
    sender: S,
) -> bool {
    &&& n == next_before
    &&& next_after == next_before + 1
    &&& !waiting_before.contains_key(n)
    &&& waiting_after == waiting_before.insert(n, sender)
}

impl<S> ClientCalls<S> {
    /// The number the next call will take.
    pub closed spec fn next(&self) -> u64 {
        self.counter.spec_next()
    }

    /// The calls waiting for their response.
    pub closed spec fn waiting(&self) -> Map<u64, S> {
        self.pending@
    }

    /// Every waiting call has a number below the counter.
    pub closed spec fn wf(&self) -> bool {
        forall|k: u64| #[trigger] self.pending@.contains_key(k) ==> k < self.counter.spec_next()
    }

    /// No call yet; the first will take number 1.
    pub fn new() -> (c: ClientCalls<S>)
        ensures
            c.wf(),
            c.next() == 1,
            c.waiting() == Map::<u64, S>::empty(),
    {
        ClientCalls { counter: SequenceCounter::new(), pending: PendingRequests::new() }
    }

    /// The number the next call will take.
    pub fn next_number(&self) -> (n: u64)
        ensures
            n == self.next(),
    {
        self.counter.peek()
    }

    /// Number of waiting calls.
    pub fn waiting_len(&self) -> (n: usize)
        ensures
            n == self.waiting().len(),
    {
        self.pending.len()
    }

    /// Begins a call: it takes the next number and waits with `sender`.
    pub fn begin_call(&mut self, sender: S) -> (n: u64)
        requires
            old(self).wf(),
            old(self).next() < u64::MAX,
        ensures
            final(self).wf(),
            began_call(old(self).next(), old(self).waiting(), final(self).next(), final(self).waiting(), n, sender),
    {
        let n = self.counter.take();
        self.pending.insert(n, sender);
        n
    }

    /// The read loop's step on `incoming`, as `on_client_incoming` takes it;
    /// the counter stays.
    pub fn on_incoming(&mut self, incoming: ClientIncoming) -> (a: ClientAction<S>)
        requires
            old(self).wf(),
        ensures
            final(self).wf(),
            final(self).next() == old(self).next(),
            client_step(old(self).waiting(), final(self).waiting(), incoming, a),
    {
        on_client_incoming(&mut self.pending, incoming)
    }
}

/// Calls begun one after another, from any tasks that take turns, get the
/// numbers s0, s0 + 1, ..., s0 + k - 1, pairwise distinct, and leave the
/// counter at s0 + k; a number once taken is not handed out again.
pub proof fn lemma_calls_numbered_consecutively<S>(
    nexts: Seq<u64>,
    waitings: Seq<Map<u64, S>>,
    numbers: Seq<u64>,
    senders: Seq<S>,
)
    requires
        nexts.len() == numbers.len() + 1,
        waitings.len() == numbers.len() + 1,
        senders.len() == numbers.len(),
        forall|i: int|
            0 <= i < numbers.len() ==> began_call(
                nexts[i],
                waitings[i],
                nexts[i + 1],
                waitings[i + 1],
                #[trigger] numbers[i],
                senders[i],
            ),
    ensures
        forall|i: int| 0 <= i < numbers.len() ==> #[trigger] numbers[i] == nexts[0] + i,
        nexts[numbers.len() as int] == nexts[0] + numbers.len(),
        forall|i: int, j: int|
            0 <= i < numbers.len() && 0 <= j < numbers.len() && i != j ==> #[trigger] numbers[i]
                != #[trigger] numbers[j],
    decreases numbers.len(),
{
    if numbers.len() > 0 {
        let k = numbers.len() - 1;
        lemma_calls_numbered_consecutively(
            nexts.drop_last(),
            waitings.drop_last(),
            numbers.drop_last(),
            senders.drop_last(),
        );
        assert(began_call(nexts[k], waitings[k], nexts[k + 1], waitings[k + 1], numbers[k], senders[k]));
        assert forall|i: int| 0 <= i < numbers.len() implies #[trigger] numbers[i] == nexts[0] + i by {
            if i < k {
                assert(numbers.drop_last()[i] == numbers[i]);
            }
        }
    }
}

/// A call to a route whose handler echoes its payload gets that payload
/// back: the server dispatches the request, the handler's reply carries the
/// call's number, and the client hands the payload to that call, which stops
/// waiting. (The transport in between carries each envelope unchanged.)
pub proof fn lemma_echo_call_gets_its_payload<H, S>(
    table: Map<crate::server::RouteKey, H>,
    sequence_number: u64,
    service: Seq<char>,
    method: Seq<char>,
    payload: Seq<u8>,
    request: RPCEnvelope,
    action: crate::server::ServerAction,
    result: Result<Vec<u8>, crate::protocol::RPCStatus>,
    reply: RPCEnvelope,
    waiting_before: Map<u64, S>,
    waiting_after: Map<u64, S>,
    delivered: ClientAction<S>,
)
    requires
        crate::protocol::is_request(request, sequence_number, service, method, payload),
        table.contains_key((service, method)),
        crate::server::action_for(table, crate::server::Incoming::Envelope(request), action),
        action matches crate::server::ServerAction::Dispatch {
            sequence_number: n,
            service_name,
            method_name,
            payload: p,
        } ==> result matches Ok(b) && b@ == p@ && crate::server::is_handler_reply(
            reply,
            n,
            service_name@,
            method_name@,
            result,
        ),
        waiting_before.contains_key(sequence_number),
        client_step(waiting_before, waiting_after, ClientIncoming::Envelope(reply), delivered),
    ensures
        delivered matches ClientAction::Deliver { sender, outcome } && sender
            == waiting_before[sequence_number] && (outcome matches Ok(got) && got@ == payload),
        !waiting_after.contains_key(sequence_number),
{
}

/// A call to a route with no handler fails: the server answers `NotFound`,
/// "Method not found", with the call's number, and the client hands that
/// status to the call as its error; the call stops waiting.
pub proof fn lemma_refused_call_fails<H, S>(
    table: Map<crate::server::RouteKey, H>,
    sequence_number: u64,
    service: Seq<char>,
    method: Seq<char>,
    payload: Seq<u8>,
    request: RPCEnvelope,
    action: crate::server::ServerAction,
    waiting_before: Map<u64, S>,
    waiting_after: Map<u64, S>,
    delivered: ClientAction<S>,
)
    requires
        crate::protocol::is_request(request, sequence_number, service, method, payload),
        !table.contains_key((service, method)),
        crate::server::action_for(table, crate::server::Incoming::Envelope(request), action),
        waiting_before.contains_key(sequence_number),
        action matches crate::server::ServerAction::Reply(reply) ==> client_step(
            waiting_before,
            waiting_after,
            ClientIncoming::Envelope(reply),
            delivered,
        ),
    ensures
        action is Reply,
        delivered matches ClientAction::Deliver { sender, outcome } && sender
            == waiting_before[sequence_number] && (outcome matches Err(status) && status.code
            == StatusCode::NotFound && status.message@ == "Method not found"@),
        !waiting_after.contains_key(sequence_number),
{
}

/// A handler's failure reaches the call: when the handler returns
/// `Err(status)`, the call gets `Err(status)`.
pub proof fn lemma_failed_handler_fails_call<S>(
    sequence_number: u64,
    service: Seq<char>,
    method: Seq<char>,
    status: RPCStatus,
    reply: RPCEnvelope,
    waiting_before: Map<u64, S>,
    waiting_after: Map<u64, S>,
    delivered: ClientAction<S>,
)
    requires
        status.code != StatusCode::OK,
        crate::server::is_handler_reply(reply, sequence_number, service, method, Err(status)),
        waiting_before.contains_key(sequence_number),
        client_step(waiting_before, waiting_after, ClientIncoming::Envelope(reply), delivered),
    ensures
        delivered matches ClientAction::Deliver { sender, outcome } && sender
            == waiting_before[sequence_number] && (outcome == Err::<Vec<u8>, RPCStatus>(status)),
{
}

} // verus!
