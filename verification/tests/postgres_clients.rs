use bytes::{Bytes, BytesMut};
use rds_proxy::backend_config::{Addr, BackendConfig, DbSpec, DbType};
use rds_proxy::postgres_client::{
    auth_backend, parse_startup, password_request, pg_error, verify_pg_local_password, Buffer,
    PasswordError, PgAction, PgError, PgEvent, PgState, StartupError,
};

fn config(local_password: Option<&str>) -> BackendConfig {
    BackendConfig {
        db_type: DbType::Postgres,
        endpoint: Addr { hostname: "db.example.com".to_string(), port: 5432 },
        region: "us-east-1".to_string(),
        proxy_endpoint: None,
        ca_bundle: None,
        danger_accept_invalid_certs: false,
        local_password: local_password.map(|p| p.to_string()),
    }
}

fn message(bytes: &[u8]) -> PgEvent {
    PgEvent::Message(BytesMut::from(bytes))
}

fn startup(parameters: &[u8]) -> Vec<u8> {
    let mut bytes = ((parameters.len() + 8) as i32).to_be_bytes().to_vec();
    bytes.extend_from_slice(&196608i32.to_be_bytes());
    bytes.extend_from_slice(parameters);
    bytes
}

fn first(local_password: Option<&str>, bytes: &[u8]) -> (PgState, PgAction) {
    auth_backend(&config(local_password), PgState::AwaitingStartup, message(bytes), false)
}

fn closed(step: (PgState, PgAction)) -> PgError {
    match step {
        (PgState::Closed, PgAction::Close(error)) => error,
        other => panic!("expected a close, got {:?}", other),
    }
}

fn parse(parameters: &[u8]) -> Result<(String, String), StartupError> {
    parse_with(parameters, false)
}

fn parse_with(parameters: &[u8], text_names: bool) -> Result<(String, String), StartupError> {
    parse_startup(Bytes::copy_from_slice(parameters), text_names)
        .map(|db| (db.user().to_string(), db.database().to_string()))
}

fn not_utf8(bytes: &[u8]) -> StartupError {
    StartupError::NotUtf8(std::str::from_utf8(bytes).unwrap_err())
}

#[test]
fn buffer_reads_field_by_field() {
    let mut buffer = Buffer::new(Bytes::from_static(b"ab\0\0cd"));
    assert_eq!(buffer.slice(), b"ab\0\0cd");
    assert_eq!(&buffer.read_cstr().unwrap()[..], b"ab");
    assert_eq!(buffer.slice(), b"\0cd");
    assert_eq!(&buffer.read_cstr().unwrap()[..], b"");
    assert_eq!(buffer.read_cstr().unwrap_err(), StartupError::UnexpectedEof);
    assert_eq!(buffer.slice(), b"cd");
}

#[test]
fn startup_parameters_in_any_order() {
    let both = Ok(("me".to_string(), "db".to_string()));
    assert_eq!(parse(b"user\0me\0database\0db\0\0"), both);
    assert_eq!(parse(b"database\0db\0user\0me\0\0"), both);
    assert_eq!(parse(b"application_name\0psql\0user\0me\0x\0y\0database\0db\0"), both);
}

#[test]
fn startup_parameters_and_what_follows_them() {
    let both = Ok(("me".to_string(), "db".to_string()));
    for more in [&b""[..], b"\0", b"user", b"user\0you\0", b"\xFF\0\xFF\0"] {
        assert_eq!(parse(&[b"user\0me\0database\0db\0", more].concat()), both);
        assert_eq!(parse(&[b"user\0\xFF\0", more].concat()), Err(not_utf8(b"\xFF")));
    }
}

#[test]
fn startup_parameters_that_come_twice() {
    assert_eq!(
        parse(b"user\0first\0user\0second\0database\0db\0user\0third\0"),
        Ok(("second".to_string(), "db".to_string()))
    );
}

#[test]
fn startup_with_an_ignored_name_that_is_not_utf8() {
    assert_eq!(
        parse(b"\xFF\0x\0user\0me\0database\0db\0"),
        Ok(("me".to_string(), "db".to_string()))
    );
}

#[test]
fn startup_names_that_must_be_text() {
    let both = Ok(("me".to_string(), "db".to_string()));
    assert_eq!(parse_with(b"x\0\xFF\0user\0me\0database\0db\0\xFF\0x\0", true), both);
    assert_eq!(parse_with(b"a\xFF\0x\0user\0me\0database\0db\0", false), both);
    assert_eq!(
        parse_with(b"a\xFF\0x\0user\0me\0database\0db\0", true),
        Err(not_utf8(b"a\xFF"))
    );
    let bytes = startup(b"\xFF\0x\0user\0me\0database\0db\0\0");
    let step = auth_backend(&config(None), PgState::AwaitingStartup, message(&bytes), true);
    assert_eq!(closed(step), PgError::Startup(not_utf8(b"\xFF")));
    assert!(matches!(first(None, &bytes).1, PgAction::Connect(_)));
}

#[test]
fn startup_errors() {
    assert_eq!(parse(b""), Err(StartupError::UnexpectedEof));
    assert_eq!(parse(b"user\0me\0\0"), Err(StartupError::UnexpectedEof));
    assert_eq!(parse(b"user\0me\0database\0db"), Err(StartupError::UnexpectedEof));
    assert_eq!(parse(b"user\0m\xFF\0database\0db\0"), Err(not_utf8(b"m\xFF")));
    assert_eq!(parse(b"user\0me\0database\0\xC3\0"), Err(not_utf8(b"\xC3")));
}

#[test]
fn startup_message_reads_back() {
    let db = DbSpec::new("jürgen".to_string(), "Ünïcode".to_string());
    let bytes = db.startup_message().unwrap();
    match first(None, &bytes) {
        (PgState::Connecting, PgAction::Connect(found)) => {
            assert_eq!((found.user(), found.database()), ("jürgen", "Ünïcode"));
        }
        other => panic!("unexpected {:?}", other),
    }
}

#[test]
fn error_response_bytes() {
    let mut expected = vec![b'E', 0, 0, 0, 23];
    expected.extend_from_slice(b"SERROR\0C28P01\0Mno\0\0");
    assert_eq!(&pg_error("28P01", "no")[..], &expected[..]);
}

#[test]
fn password_request_bytes() {
    assert_eq!(&password_request()[..], &[b'R', 0, 0, 0, 8, 0, 0, 0, 3]);
}

#[test]
fn local_password_with_and_without_terminator() {
    assert_eq!(verify_pg_local_password(b"p\0\0\0\x0Bsesame\0", "sesame"), Ok(()));
    assert_eq!(verify_pg_local_password(b"p\0\0\0\x0Asesame", "sesame"), Ok(()));
    assert_eq!(verify_pg_local_password(b"p\0\0\0\x04", ""), Ok(()));
}

#[test]
fn local_password_errors() {
    assert_eq!(
        verify_pg_local_password(b"", "sesame"),
        Err(PasswordError::NotPasswordMessage(None))
    );
    assert_eq!(
        verify_pg_local_password(b"Q\0\0\0\x04", "sesame"),
        Err(PasswordError::NotPasswordMessage(Some(b'Q')))
    );
    assert_eq!(verify_pg_local_password(b"p\0\0\0", "sesame"), Err(PasswordError::TooShort));
    assert_eq!(verify_pg_local_password(b"p\0\0\0\x06\xFF\0", "sesame"), Err(PasswordError::NotUtf8));
    assert_eq!(
        verify_pg_local_password(b"p\0\0\0\x0Bsesame!\0", "sesame"),
        Err(PasswordError::Mismatch)
    );
    assert_eq!(
        verify_pg_local_password(b"p\0\0\0\x0Csesame\0\0", "sesame"),
        Err(PasswordError::Mismatch)
    );
}

#[test]
fn ssl_request_is_turned_down() {
    match first(None, &[0, 0, 0, 8, 4, 210, 22, 47]) {
        (PgState::AwaitingStartup, PgAction::Send(reply)) => assert_eq!(&reply[..], b"N"),
        other => panic!("unexpected {:?}", other),
    }
}

#[test]
fn client_without_local_password_is_connected() {
    match first(None, &startup(b"user\0me\0database\0db\0\0")) {
        (PgState::Connecting, PgAction::Connect(db)) => {
            assert_eq!((db.user(), db.database()), ("me", "db"));
        }
        other => panic!("unexpected {:?}", other),
    }
}

#[test]
fn client_is_asked_for_the_local_password() {
    let config = config(Some("sesame"));
    let opening = message(&startup(b"user\0me\0database\0db\0\0"));
    let (state, action) = auth_backend(&config, PgState::AwaitingStartup, opening, false);
    match action {
        PgAction::Send(request) => assert_eq!(request, password_request()),
        other => panic!("unexpected {:?}", other),
    }
    match auth_backend(&config, state, message(b"p\0\0\0\x0Bsesame\0"), false) {
        (PgState::Connecting, PgAction::Connect(db)) => {
            assert_eq!((db.user(), db.database()), ("me", "db"));
        }
        other => panic!("unexpected {:?}", other),
    }
}

fn answered(answer: &[u8]) -> (PgState, PgAction) {
    let db = DbSpec::new("me".to_string(), "db".to_string());
    auth_backend(&config(Some("sesame")), PgState::AwaitingPassword(db), message(answer), false)
}

#[test]
fn wrong_local_password_is_answered() {
    let cases: [(&[u8], &str, PasswordError); 3] = [
        (b"Q", "Expected password message", PasswordError::NotPasswordMessage(Some(b'Q'))),
        (b"p\0", "Malformed password message", PasswordError::TooShort),
        (b"p\0\0\0\x06x\0", "Invalid local proxy password", PasswordError::Mismatch),
    ];
    for (answer, text, fault) in cases {
        match answered(answer) {
            (PgState::Closed, PgAction::Refuse { reply, error }) => {
                assert_eq!(reply, pg_error("28P01", text));
                assert_eq!(error, PgError::Password(fault));
            }
            other => panic!("unexpected {:?}", other),
        }
    }
}

#[test]
fn local_password_that_is_no_text_is_not_answered() {
    assert_eq!(
        closed(answered(b"p\0\0\0\x06\xFF\0")),
        PgError::Password(PasswordError::NotUtf8)
    );
}

#[test]
fn client_closes_early() {
    let step = auth_backend(&config(None), PgState::AwaitingStartup, PgEvent::Closed, false);
    assert_eq!(closed(step), PgError::ClientClosed);
    let db = DbSpec::new("me".to_string(), "db".to_string());
    let state = PgState::AwaitingPassword(db);
    let step = auth_backend(&config(Some("sesame")), state, PgEvent::Closed, false);
    assert_eq!(closed(step), PgError::ClosedBeforePassword);
}

#[test]
fn first_message_errors() {
    assert_eq!(closed(first(None, &[0; 7])), PgError::TooSmall);
    assert_eq!(closed(first(None, &[0, 0, 0, 8, 0, 0, 0, 1])), PgError::UnknownTag(1));
    assert_eq!(closed(first(None, &[0, 0, 0, 9, 4, 210, 22, 47])), PgError::UnknownTag(80877103));
    let mut short = startup(b"user\0me\0database\0db\0\0");
    short.pop();
    assert_eq!(closed(first(None, &short)), PgError::Incomplete { wanted: 29, provided: 28 });
    assert_eq!(
        closed(first(None, &[0xFF, 0xFF, 0xFF, 0xFF, 0, 3, 0, 0])),
        PgError::Incomplete { wanted: -1, provided: 8 }
    );
    assert_eq!(
        closed(first(None, &startup(b"user\0me\0\0"))),
        PgError::Startup(StartupError::UnexpectedEof)
    );
}
