use geerpc::protocol::{error_envelope, not_found_envelope, request_envelope};
use geerpc::server::{
    call_result, handler_reply, next_action, CallStage, HandlerTable, Incoming, RPCServer,
    ServerAction,
};
use geerpc::{Error, RPCEnvelope, RPCStatus, StatusCode};

fn create_test_envelope(service: &str, method: &str, payload: Vec<u8>) -> RPCEnvelope {
    RPCEnvelope {
        version: 1,
        sequence_number: 42,
        service_name: service.to_string(),
        method_name: method.to_string(),
        status: None,
        payload,
    }
}

#[test]
fn registered_handler_is_found_and_replaced() {
    let mut server: RPCServer<u32> = RPCServer::new();
    server.register_service("Echo".to_string(), "echo".to_string(), 1);
    server.register_service("Math".to_string(), "Double".to_string(), 2);
    assert_eq!(server.handlers.len(), 2);
    assert_eq!(server.handlers.get(&"Echo".to_string(), &"echo".to_string()), Some(&1));
    assert_eq!(server.handlers.get(&"Math".to_string(), &"Double".to_string()), Some(&2));
    assert_eq!(server.handlers.get(&"Math".to_string(), &"Add".to_string()), None);
    assert_eq!(server.handlers.get(&"echo".to_string(), &"Echo".to_string()), None);

    server.register_service("Echo".to_string(), "echo".to_string(), 3);
    assert_eq!(server.handlers.len(), 2);
    assert_eq!(server.handlers.get(&"Echo".to_string(), &"echo".to_string()), Some(&3));
    assert!(server.handlers.contains(&"Math".to_string(), &"Double".to_string()));
}

#[test]
fn request_for_registered_route_is_dispatched() {
    let mut table: HandlerTable<&str> = HandlerTable::new();
    table.insert("Calculator".to_string(), "Add".to_string(), "add");
    let request = create_test_envelope("Calculator", "Add", vec![1, 2, 3]);
    match next_action(&table, Incoming::Envelope(request)) {
        ServerAction::Dispatch { sequence_number, service_name, method_name, payload } => {
            assert_eq!(sequence_number, 42);
            assert_eq!(service_name, "Calculator");
            assert_eq!(method_name, "Add");
            assert_eq!(payload, vec![1, 2, 3]);
        }
        other => panic!("unexpected {:?}", other),
    }
}

#[test]
fn request_for_unknown_route_is_answered_not_found() {
    let table: HandlerTable<&str> = HandlerTable::new();
    let request = create_test_envelope("Unknown", "Method", vec![1, 2, 3]);
    match next_action(&table, Incoming::Envelope(request)) {
        ServerAction::Reply(response) => {
            assert_eq!(response.sequence_number, 42);
            assert_eq!(response.service_name, "Unknown");
            assert_eq!(response.method_name, "Method");
            assert_eq!(response.status.as_ref().unwrap().code, StatusCode::NotFound);
            assert_eq!(response.status.as_ref().unwrap().message, "Method not found");
            assert!(response.payload.is_empty());
        }
        other => panic!("unexpected {:?}", other),
    }
}

#[test]
fn connection_end_and_bad_frames() {
    let table: HandlerTable<&str> = HandlerTable::new();
    assert!(matches!(next_action(&table, Incoming::Undecodable), ServerAction::Skip));
    assert!(matches!(next_action(&table, Incoming::Closed), ServerAction::Finish(Ok(()))));
    match next_action(&table, Incoming::Failed(Error::FrameTooLarge { length: 9 })) {
        ServerAction::Finish(Err(e)) => assert_eq!(e, Error::FrameTooLarge { length: 9 }),
        other => panic!("unexpected {:?}", other),
    }
}

#[test]
fn successful_handler_reply_carries_request_sequence_number() {
    let reply = handler_reply(42, "Calculator".to_string(), "Add".to_string(), Ok(vec![2, 4, 6]));
    assert_eq!(reply.version, 1);
    assert_eq!(reply.service_name, "Calculator");
    assert_eq!(reply.method_name, "Add");
    assert_eq!(reply.sequence_number, 42);
    assert_eq!(reply.payload, vec![2, 4, 6]);
    assert_eq!(reply.status.as_ref().unwrap().code, StatusCode::OK);
    assert_eq!(reply.status.as_ref().unwrap().message, "Success");
}

#[test]
fn failed_handler_reply_carries_its_status() {
    let status = RPCStatus { code: StatusCode::Internal, message: "Handler error".to_string() };
    let reply = handler_reply(42, "Faulty".to_string(), "error".to_string(), Err(status));
    assert_eq!(reply.sequence_number, 42);
    assert_eq!(reply.status.as_ref().unwrap().code, StatusCode::Internal);
    assert_eq!(reply.status.as_ref().unwrap().message, "Handler error");
    assert!(reply.payload.is_empty());
}

#[test]
fn envelopes_built_by_client_and_server() {
    let request = request_envelope(7, "Echo", "echo", vec![1]);
    assert_eq!(request.version, 1);
    assert_eq!(request.sequence_number, 7);
    assert_eq!(request.service_name, "Echo");
    assert_eq!(request.method_name, "echo");
    assert!(request.status.is_none());
    assert_eq!(request.payload, vec![1]);

    let response = handler_reply(7, "Echo".to_string(), "echo".to_string(), Ok(vec![1]));
    assert_eq!(response.status.unwrap().code, StatusCode::OK);

    let missing = not_found_envelope(request);
    assert_eq!(missing.sequence_number, 7);
    assert_eq!(missing.status.unwrap().code, StatusCode::NotFound);

    let status = RPCStatus { code: StatusCode::Unavailable, message: "busy".to_string() };
    let error = error_envelope(&status, 9);
    assert_eq!(error.sequence_number, 9);
    assert_eq!(error.service_name, "");
    assert_eq!(error.method_name, "");
    assert_eq!(error.status.as_ref().unwrap().code, StatusCode::Unavailable);
    assert_eq!(error.status.as_ref().unwrap().message, "busy");
    assert!(error.payload.is_empty());
}

#[test]
fn generated_handler_results() {
    match call_result("Failed to ping", CallStage::RequestUndecodable) {
        Err(s) => {
            assert_eq!(s.code, StatusCode::Internal);
            assert_eq!(s.message, "Failed to decode request");
        }
        Ok(_) => panic!("expected an error"),
    }
    match call_result("Failed to ping", CallStage::ServiceFailed) {
        Err(s) => {
            assert_eq!(s.code, StatusCode::Internal);
            assert_eq!(s.message, "Failed to ping");
        }
        Ok(_) => panic!("expected an error"),
    }
    match call_result("Failed to ping", CallStage::ResponseUnencodable) {
        Err(s) => assert_eq!(s.message, "Failed to encode response"),
        Ok(_) => panic!("expected an error"),
    }
    match call_result("Failed to ping", CallStage::Encoded(vec![3, 4])) {
        Ok(bytes) => assert_eq!(bytes, vec![3, 4]),
        Err(_) => panic!("expected bytes"),
    }
}

#[test]
fn registration_grows_the_table_only_for_new_routes() {
    let mut server: RPCServer<u8> = RPCServer::new();
    assert_eq!(server.handlers.len(), 0);
    server.register_service("A".to_string(), "m".to_string(), 1);
    server.register_service("B".to_string(), "m".to_string(), 2);
    server.register_service("A".to_string(), "m".to_string(), 3);
    assert_eq!(server.handlers.len(), 2);
}
