use geerpc::client::{
    on_client_incoming, ClientAction, ClientCalls, ClientIncoming, PendingRequests, RPCClientBuilder,
    SequenceCounter,
};
use geerpc::protocol::{not_found_envelope, request_envelope};
use geerpc::server::handler_reply;
use geerpc::{RPCStatus, StatusCode};
use geerpc::Error;

#[test]
fn test_client_builder_missing_address() {
    let result = RPCClientBuilder::new().connect_address();
    assert!(result.is_err());
    if let Err(e) = result {
        match e {
            Error::AddressRequired => (),
            _ => panic!("Expected AddressRequired error"),
        }
    }
}

#[test]
fn builder_keeps_the_last_address() {
    let result = RPCClientBuilder::new()
        .address("127.0.0.1:1".to_string())
        .address("127.0.0.1:8080".to_string())
        .connect_address();
    assert_eq!(result, Ok("127.0.0.1:8080".to_string()));
}

#[test]
fn sequence_numbers_start_at_one_and_increase() {
    let mut counter = SequenceCounter::new();
    assert_eq!(counter.peek(), 1);
    assert_eq!(counter.take(), 1);
    assert_eq!(counter.peek(), 2);
    assert_eq!(counter.take(), 2);
    assert_eq!(counter.take(), 3);
}

#[test]
fn response_goes_to_the_waiting_call() {
    let mut pending: PendingRequests<&str> = PendingRequests::new();
    pending.insert(1, "first");
    pending.insert(2, "second");
    let response = request_envelope(2, "Echo", "echo", vec![9]);
    match on_client_incoming(&mut pending, ClientIncoming::Envelope(response)) {
        ClientAction::Deliver { sender, outcome } => {
            assert_eq!(sender, "second");
            assert_eq!(outcome.unwrap(), vec![9]);
        }
        other => panic!("unexpected {:?}", other),
    }
    assert_eq!(pending.len(), 1);
    let again = request_envelope(2, "Echo", "echo", vec![9]);
    assert!(matches!(on_client_incoming(&mut pending, ClientIncoming::Envelope(again)), ClientAction::Ignore));
    assert_eq!(pending.len(), 1);
}

#[test]
fn undecodable_response_stops_reading() {
    let mut pending: PendingRequests<&str> = PendingRequests::new();
    pending.insert(1, "first");
    match on_client_incoming(&mut pending, ClientIncoming::Undecodable { message: "bad".to_string() }) {
        ClientAction::Fail(e) => assert_eq!(e, Error::DeserializeFailed { message: "bad".to_string() }),
        other => panic!("unexpected {:?}", other),
    }
    assert_eq!(pending.len(), 1);
}

#[test]
fn end_of_stream_releases_every_waiting_call() {
    let mut pending: PendingRequests<u32> = PendingRequests::new();
    for seq in 1..=5u64 {
        pending.insert(seq, (seq * 10) as u32);
    }
    match on_client_incoming(&mut pending, ClientIncoming::Ended) {
        ClientAction::Drain(mut all) => {
            all.sort();
            assert_eq!(all, vec![(1, 10), (2, 20), (3, 30), (4, 40), (5, 50)]);
        }
        other => panic!("unexpected {:?}", other),
    }
    assert_eq!(pending.len(), 0);
}

#[test]
fn pending_remove_takes_the_record_out() {
    let mut pending: PendingRequests<u8> = PendingRequests::new();
    pending.insert(4, 1);
    pending.insert(4, 2);
    assert_eq!(pending.len(), 1);
    assert_eq!(pending.remove(4), Some(2));
    assert_eq!(pending.remove(4), None);
    assert_eq!(pending.drain(), Vec::new());
}

#[test]
fn client_calls_number_from_one_and_match_responses() {
    let mut calls: ClientCalls<&str> = ClientCalls::new();
    assert_eq!(calls.next_number(), 1);
    assert_eq!(calls.begin_call("a"), 1);
    assert_eq!(calls.begin_call("b"), 2);
    assert_eq!(calls.begin_call("c"), 3);
    assert_eq!(calls.next_number(), 4);
    assert_eq!(calls.waiting_len(), 3);
    let reply = request_envelope(2, "Echo", "echo", vec![5]);
    match calls.on_incoming(ClientIncoming::Envelope(reply)) {
        ClientAction::Deliver { sender, outcome } => {
            assert_eq!(sender, "b");
            assert_eq!(outcome.unwrap(), vec![5]);
        }
        other => panic!("unexpected {:?}", other),
    }
    assert_eq!(calls.waiting_len(), 2);
    assert_eq!(calls.next_number(), 4);
    assert_eq!(calls.begin_call("d"), 4);
}

#[test]
fn refused_call_gets_the_status_as_its_error() {
    let mut calls: ClientCalls<&str> = ClientCalls::new();
    let seq = calls.begin_call("waiting");
    let reply = not_found_envelope(request_envelope(seq, "Unknown", "Method", vec![1, 2, 3]));
    match calls.on_incoming(ClientIncoming::Envelope(reply)) {
        ClientAction::Deliver { sender, outcome } => {
            assert_eq!(sender, "waiting");
            match outcome {
                Err(status) => {
                    assert_eq!(status.code, StatusCode::NotFound);
                    assert_eq!(status.message, "Method not found");
                }
                Ok(_) => panic!("a refused call must fail"),
            }
        }
        other => panic!("unexpected {:?}", other),
    }
    assert_eq!(calls.waiting_len(), 0);
}

#[test]
fn handler_failure_and_success_reach_the_call() {
    let mut calls: ClientCalls<u8> = ClientCalls::new();
    let a = calls.begin_call(1);
    let b = calls.begin_call(2);
    let failed = handler_reply(
        a,
        "Faulty".to_string(),
        "error".to_string(),
        Err(RPCStatus { code: StatusCode::Internal, message: "Handler error".to_string() }),
    );
    match calls.on_incoming(ClientIncoming::Envelope(failed)) {
        ClientAction::Deliver { sender: 1, outcome: Err(status) } => {
            assert_eq!(status.code, StatusCode::Internal);
            assert_eq!(status.message, "Handler error");
        }
        other => panic!("unexpected {:?}", other),
    }
    let ok = handler_reply(b, "Echo".to_string(), "echo".to_string(), Ok(vec![4]));
    match calls.on_incoming(ClientIncoming::Envelope(ok)) {
        ClientAction::Deliver { sender: 2, outcome: Ok(bytes) } => assert_eq!(bytes, vec![4]),
        other => panic!("unexpected {:?}", other),
    }
}
