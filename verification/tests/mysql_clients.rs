use rds_proxy::mysql_client::{
    try_mysql_handle_client, ClientAction, ClientError, ClientEvent, ClientState,
};
use rds_proxy::mysql_handshake::{
    build_handshake_response, build_server_handshake, build_ssl_request, ClientHandshakeError,
    PROXY_CAPS,
};
use rds_proxy::mysql_packet::{build_ok_packet, parse_err_packet};

fn packet(seq_id: u8, payload: Vec<u8>) -> ClientEvent {
    ClientEvent::Packet { seq_id, payload }
}

fn step(state: ClientState, event: ClientEvent) -> (ClientState, ClientAction) {
    try_mysql_handle_client(state, event).unwrap()
}

fn refusal(action: ClientAction) -> (u8, String, ClientError) {
    match action {
        ClientAction::Refuse { seq_id, payload, error } => {
            (seq_id, parse_err_packet(&payload).unwrap(), error)
        }
        other => panic!("expected a refusal, got {:?}", other),
    }
}

#[test]
fn client_is_served() {
    let (state, action) = step(ClientState::Accepted, ClientEvent::Connected { connection_id: 9 });
    assert_eq!(state, ClientState::AwaitingResponse);
    match action {
        ClientAction::Send { seq_id, payload } => {
            assert_eq!(seq_id, 0);
            assert_eq!(payload, build_server_handshake(9));
        }
        other => panic!("unexpected {:?}", other),
    }
    let response = build_handshake_response(PROXY_CAPS, "me", "anything", "db");
    let (state, action) = step(state, packet(1, response));
    assert_eq!(state, ClientState::Connecting { seq_id: 1 });
    match action {
        ClientAction::Connect(db) => {
            assert_eq!((db.user(), db.database()), ("me", "db"));
        }
        other => panic!("unexpected {:?}", other),
    }
    let (state, action) = step(state, ClientEvent::BackendReady);
    assert_eq!(state, ClientState::Proxying);
    match action {
        ClientAction::SendAndProxy { seq_id, payload } => {
            assert_eq!(seq_id, 2);
            assert_eq!(payload, build_ok_packet());
        }
        other => panic!("unexpected {:?}", other),
    }
}

#[test]
fn client_that_asks_for_tls_is_refused() {
    let request = build_ssl_request(PROXY_CAPS);
    let (state, action) = step(ClientState::AwaitingResponse, packet(1, request));
    assert_eq!(state, ClientState::Closed);
    let (seq_id, text, error) = refusal(action);
    assert_eq!(seq_id, 2);
    assert_eq!(text, "Error 1045: SSL not supported by proxy (connect without --ssl)");
    assert!(matches!(error, ClientError::SslRequested));
}

#[test]
fn client_without_a_username_is_refused() {
    let response = build_handshake_response(PROXY_CAPS, "", "anything", "db");
    let (state, action) = step(ClientState::AwaitingResponse, packet(1, response));
    assert_eq!(state, ClientState::Closed);
    let (seq_id, text, error) = refusal(action);
    assert_eq!(seq_id, 2);
    assert_eq!(text, "Error 1045: Username is required");
    assert!(matches!(error, ClientError::NoUsername));
}

#[test]
fn client_is_told_why_the_backend_failed() {
    let event = ClientEvent::BackendFailed { reason: "no route to host".to_string() };
    let (state, action) = step(ClientState::Connecting { seq_id: 1 }, event);
    assert_eq!(state, ClientState::Closed);
    let (seq_id, text, error) = refusal(action);
    assert_eq!(seq_id, 2);
    assert_eq!(text, "Error 2003: Backend connection failed: no route to host");
    assert!(matches!(error, ClientError::Backend));
}

#[test]
fn malformed_answer_closes_the_connection() {
    let (state, action) = step(ClientState::AwaitingResponse, packet(1, vec![0; 31]));
    assert_eq!(state, ClientState::Closed);
    assert!(matches!(
        action,
        ClientAction::Close(ClientError::Handshake(ClientHandshakeError::TooShort(31)))
    ));
    let (_, action) = step(ClientState::AwaitingResponse, packet(1, vec![0; 32]));
    assert!(matches!(
        action,
        ClientAction::Close(ClientError::Handshake(ClientHandshakeError::MissingUsernameNul))
    ));
}

#[test]
fn steps_that_cannot_be_numbered() {
    let can = |state, event| try_mysql_handle_client(state, event).is_some();
    let full = build_handshake_response(PROXY_CAPS, "me", "pw", "db");
    assert!(can(ClientState::AwaitingResponse, packet(255, full)));
    let nameless = build_handshake_response(PROXY_CAPS, "", "pw", "db");
    assert!(!can(ClientState::AwaitingResponse, packet(255, nameless)));
    let request = build_ssl_request(PROXY_CAPS);
    assert!(!can(ClientState::AwaitingResponse, packet(255, request)));
    assert!(can(ClientState::AwaitingResponse, packet(255, vec![])));
    assert!(!can(ClientState::Connecting { seq_id: 255 }, ClientEvent::BackendReady));
    assert!(can(ClientState::Connecting { seq_id: 254 }, ClientEvent::BackendReady));
    assert!(!can(ClientState::Accepted, ClientEvent::BackendReady));
    assert!(!can(ClientState::Closed, packet(0, vec![])));
}
