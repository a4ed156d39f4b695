use rds_proxy::backend_config::DbSpec;
use rds_proxy::mysql_handshake::{
    build_handshake_response, build_ssl_request, parse_client_handshake, HandshakeError,
};
use rds_proxy::mysql_login::{
    mysql_connect, try_mysql_connect, LoginAction, LoginError, LoginEvent, LoginState,
};
use rds_proxy::mysql_packet::{build_err_packet, build_ok_packet, CLIENT_SSL};

const CAPS: u32 = 0xFFFF_FFFF;

fn greeting(caps: u32) -> Vec<u8> {
    let mut packet = vec![10, b'8', 0, 0x2A, 0, 0, 0, 1, 2, 3, 4, 5, 6, 7, 8, 0];
    packet.extend_from_slice(&((caps & 0xFFFF) as u16).to_le_bytes());
    packet.extend_from_slice(&[33, 2, 0]);
    packet.extend_from_slice(&((caps >> 16) as u16).to_le_bytes());
    packet.push(21);
    packet.extend_from_slice(&[0; 10]);
    packet.extend_from_slice(b"abcdefghijkl\0mysql_native_password\0");
    packet
}

fn db() -> DbSpec {
    DbSpec::new("me".to_string(), "db".to_string())
}

fn packet(seq_id: u8, payload: Vec<u8>) -> LoginEvent {
    LoginEvent::Packet { seq_id, payload }
}

fn step(state: LoginState, event: LoginEvent) -> (LoginState, LoginAction) {
    try_mysql_connect(state, event, &db(), "token").unwrap()
}

fn error(action: LoginAction) -> LoginError {
    match action {
        LoginAction::Fail(e) => e,
        other => panic!("expected a failure, got {:?}", other),
    }
}

#[test]
fn login_to_a_server_that_says_ok() {
    let (state, action) = step(LoginState::Greeting, packet(0, greeting(CAPS)));
    assert_eq!(state, LoginState::Tls { seq_id: 0, server_caps: CAPS });
    match action {
        LoginAction::SendAndStartTls { seq_id, payload } => {
            assert_eq!(seq_id, 1);
            assert_eq!(payload, build_ssl_request(CAPS));
        }
        other => panic!("unexpected {:?}", other),
    }
    let (state, action) = step(state, LoginEvent::TlsReady);
    assert_eq!(state, LoginState::AwaitingResult);
    match action {
        LoginAction::Send { seq_id, payload } => {
            assert_eq!(seq_id, 2);
            assert_eq!(payload, build_handshake_response(CAPS, "me", "token", "db"));
            let (user, database, _) = parse_client_handshake(&payload).unwrap();
            assert_eq!((user.as_str(), database.as_str()), ("me", "db"));
        }
        other => panic!("unexpected {:?}", other),
    }
    let (state, action) = step(state, packet(3, build_ok_packet()));
    assert_eq!(state, LoginState::Authenticated);
    assert!(matches!(action, LoginAction::Done));
}

#[test]
fn login_with_a_switch_of_the_plugin() {
    for plugin in ["mysql_clear_password", "mysql_native_password"] {
        let mut request = vec![0xFE];
        request.extend_from_slice(plugin.as_bytes());
        request.extend_from_slice(b"\0salt");
        let (state, action) = step(LoginState::AwaitingResult, packet(4, request));
        assert_eq!(state, LoginState::AwaitingSwitched);
        match action {
            LoginAction::Send { seq_id, payload } => {
                assert_eq!(seq_id, 5);
                assert_eq!(payload, b"token\0".to_vec());
            }
            other => panic!("unexpected {:?}", other),
        }
        let (state, action) = step(state, packet(6, build_ok_packet()));
        assert_eq!(state, LoginState::Authenticated);
        assert!(matches!(action, LoginAction::Done));
    }
}

#[test]
fn nothing_before_tls_depends_on_who_logs_in() {
    let other = DbSpec::new("you".to_string(), "".to_string());
    let first = mysql_connect(LoginState::Greeting, packet(0, greeting(CAPS)), &db(), "token");
    let second = mysql_connect(LoginState::Greeting, packet(0, greeting(CAPS)), &other, "else");
    assert_eq!(first.0, second.0);
    assert_eq!(format!("{:?}", first.1), format!("{:?}", second.1));
}

#[test]
fn greeting_errors() {
    let refusal = build_err_packet(1040, "08004", "Too many connections");
    let (state, action) = step(LoginState::Greeting, packet(0, refusal));
    assert_eq!(state, LoginState::Failed);
    match error(action) {
        LoginError::ServerError(text) => assert_eq!(text, "Error 1040: Too many connections"),
        other => panic!("unexpected {:?}", other),
    }
    let (_, action) = step(LoginState::Greeting, packet(0, vec![]));
    assert!(matches!(error(action), LoginError::Handshake(HandshakeError::EmptyPayload)));
    let (_, action) = step(LoginState::Greeting, packet(0, greeting(CAPS & !CLIENT_SSL)));
    assert!(matches!(error(action), LoginError::NoTls));
}

#[test]
fn result_errors() {
    let (_, action) = step(LoginState::AwaitingResult, packet(3, vec![]));
    assert!(matches!(error(action), LoginError::EmptyResult));
    let refusal = build_err_packet(1045, "28000", "Access denied");
    let (_, action) = step(LoginState::AwaitingResult, packet(3, refusal));
    match error(action) {
        LoginError::AuthFailed(text) => assert_eq!(text, "Error 1045: Access denied"),
        other => panic!("unexpected {:?}", other),
    }
    let (_, action) = step(LoginState::AwaitingResult, packet(3, b"\xFEother\0".to_vec()));
    match error(action) {
        LoginError::UnsupportedPlugin(name) => assert_eq!(name, "other"),
        other => panic!("unexpected {:?}", other),
    }
    let (_, action) = step(LoginState::AwaitingResult, packet(3, vec![1, 2]));
    assert!(matches!(error(action), LoginError::UnexpectedPacket(1)));
}

#[test]
fn switch_result_errors() {
    let (_, action) = step(LoginState::AwaitingSwitched, packet(5, vec![]));
    assert!(matches!(error(action), LoginError::EmptySwitchResult));
    let refusal = build_err_packet(1045, "28000", "Access denied");
    let (_, action) = step(LoginState::AwaitingSwitched, packet(5, refusal));
    match error(action) {
        LoginError::AuthFailedAfterSwitch(text) => assert_eq!(text, "Error 1045: Access denied"),
        other => panic!("unexpected {:?}", other),
    }
    let (_, action) = step(LoginState::AwaitingSwitched, packet(5, vec![0xFE]));
    assert!(matches!(error(action), LoginError::UnexpectedPacketAfterSwitch(0xFE)));
}

#[test]
fn steps_that_cannot_be_taken() {
    let can = |state, event| try_mysql_connect(state, event, &db(), "token").is_some();
    assert!(!can(LoginState::Greeting, packet(255, greeting(CAPS))));
    assert!(can(LoginState::Greeting, packet(255, greeting(0))));
    assert!(!can(LoginState::Greeting, LoginEvent::TlsReady));
    assert!(!can(LoginState::Greeting, packet(0, greeting(CAPS)[..23].to_vec())));
    assert!(!can(LoginState::Tls { seq_id: 254, server_caps: CAPS }, LoginEvent::TlsReady));
    assert!(can(LoginState::Tls { seq_id: 253, server_caps: CAPS }, LoginEvent::TlsReady));
    assert!(!can(LoginState::AwaitingResult, packet(255, b"\xFEmysql_clear_password\0".to_vec())));
    assert!(can(LoginState::AwaitingResult, packet(255, b"\xFEother\0".to_vec())));
    assert!(!can(LoginState::Authenticated, packet(0, build_ok_packet())));
    assert!(!can(LoginState::Failed, packet(0, build_ok_packet())));
}
