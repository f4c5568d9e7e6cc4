use geerpc::ping::{PingRequest, PingServer, PingServerImpl, PingService, METHOD_PING, SERVICE_NAME};

#[test]
fn ping_service_answers_pong() {
    let service = PingServerImpl;
    let response = service.ping(PingRequest { message: "Hello, world!".to_string() }).unwrap();
    assert_eq!(response.message, "Pong: Hello, world!");
}

#[test]
fn ping_server_shares_its_service() {
    let server = PingServer::new(PingServerImpl);
    let response = server.service().ping(PingRequest { message: String::new() }).unwrap();
    assert_eq!(response.message, "Pong: ");
    assert_eq!(SERVICE_NAME, "Ping");
    assert_eq!(METHOD_PING, "ping");
}
