use bytes::{Bytes, BytesMut};
use postgres_protocol::authentication::sasl::{ChannelBinding, ScramSha256};
use rds_proxy::backend_config::DbSpec;
use rds_proxy::postgres_client::{password_request, pg_error, verify_pg_local_password};
use rds_proxy::postgres_login::{
    open_exchange, send_password, try_send_password, PgLoginAction, PgLoginError, PgLoginEvent,
    PgLoginState,
};

// ---------------------------------------------------------------------------
// The server's side of SCRAM-SHA-256
// ---------------------------------------------------------------------------

const ROUND: [u32; 64] = [
    0x428a2f98, 0x71374491, 0xb5c0fbcf, 0xe9b5dba5, 0x3956c25b, 0x59f111f1, 0x923f82a4, 0xab1c5ed5,
    0xd807aa98, 0x12835b01, 0x243185be, 0x550c7dc3, 0x72be5d74, 0x80deb1fe, 0x9bdc06a7, 0xc19bf174,
    0xe49b69c1, 0xefbe4786, 0x0fc19dc6, 0x240ca1cc, 0x2de92c6f, 0x4a7484aa, 0x5cb0a9dc, 0x76f988da,
    0x983e5152, 0xa831c66d, 0xb00327c8, 0xbf597fc7, 0xc6e00bf3, 0xd5a79147, 0x06ca6351, 0x14292967,
    0x27b70a85, 0x2e1b2138, 0x4d2c6dfc, 0x53380d13, 0x650a7354, 0x766a0abb, 0x81c2c92e, 0x92722c85,
    0xa2bfe8a1, 0xa81a664b, 0xc24b8b70, 0xc76c51a3, 0xd192e819, 0xd6990624, 0xf40e3585, 0x106aa070,
    0x19a4c116, 0x1e376c08, 0x2748774c, 0x34b0bcb5, 0x391c0cb3, 0x4ed8aa4a, 0x5b9cca4f, 0x682e6ff3,
    0x748f82ee, 0x78a5636f, 0x84c87814, 0x8cc70208, 0x90befffa, 0xa4506ceb, 0xbef9a3f7, 0xc67178f2,
];

fn sha256(data: &[u8]) -> Vec<u8> {
    let mut state: [u32; 8] = [
        0x6a09e667, 0xbb67ae85, 0x3c6ef372, 0xa54ff53a, 0x510e527f, 0x9b05688c, 0x1f83d9ab,
        0x5be0cd19,
    ];
    let mut padded = data.to_vec();
    padded.push(0x80);
    while padded.len() % 64 != 56 {
        padded.push(0);
    }
    padded.extend_from_slice(&((data.len() as u64) * 8).to_be_bytes());
    for block in padded.chunks(64) {
        let mut w = [0u32; 64];
        for i in 0..16 {
            w[i] = u32::from_be_bytes([
                block[4 * i],
                block[4 * i + 1],
                block[4 * i + 2],
                block[4 * i + 3],
            ]);
        }
        for i in 16..64 {
            let a = w[i - 15].rotate_right(7) ^ w[i - 15].rotate_right(18) ^ (w[i - 15] >> 3);
            let b = w[i - 2].rotate_right(17) ^ w[i - 2].rotate_right(19) ^ (w[i - 2] >> 10);
            w[i] = w[i - 16].wrapping_add(a).wrapping_add(w[i - 7]).wrapping_add(b);
        }
        let mut v = state;
        for i in 0..64 {
            let s1 = v[4].rotate_right(6) ^ v[4].rotate_right(11) ^ v[4].rotate_right(25);
            let ch = (v[4] & v[5]) ^ (!v[4] & v[6]);
            let t1 = v[7]
                .wrapping_add(s1)
                .wrapping_add(ch)
                .wrapping_add(ROUND[i])
                .wrapping_add(w[i]);
            let s0 = v[0].rotate_right(2) ^ v[0].rotate_right(13) ^ v[0].rotate_right(22);
            let maj = (v[0] & v[1]) ^ (v[0] & v[2]) ^ (v[1] & v[2]);
            let t2 = s0.wrapping_add(maj);
            v = [t1.wrapping_add(t2), v[0], v[1], v[2], v[3].wrapping_add(t1), v[4], v[5], v[6]];
        }
        for i in 0..8 {
            state[i] = state[i].wrapping_add(v[i]);
        }
    }
    state.iter().flat_map(|word| word.to_be_bytes()).collect()
}

fn hmac(key: &[u8], data: &[u8]) -> Vec<u8> {
    let mut block = if key.len() > 64 { sha256(key) } else { key.to_vec() };
    block.resize(64, 0);
    let mut inner: Vec<u8> = block.iter().map(|b| b ^ 0x36).collect();
    inner.extend_from_slice(data);
    let mut outer: Vec<u8> = block.iter().map(|b| b ^ 0x5c).collect();
    outer.extend_from_slice(&sha256(&inner));
    sha256(&outer)
}

fn base64(data: &[u8]) -> String {
    let alphabet = b"ABCDEFGHIJKLMNOPQRSTUVWXYZabcdefghijklmnopqrstuvwxyz0123456789+/";
    let mut text = String::new();
    for chunk in data.chunks(3) {
        let mut bits = 0u32;
        for i in 0..3 {
            bits = bits << 8 | *chunk.get(i).unwrap_or(&0) as u32;
        }
        for i in 0..4 {
            if i <= chunk.len() {
                text.push(alphabet[(bits >> (18 - 6 * i)) as usize & 63] as char);
            } else {
                text.push('=');
            }
        }
    }
    text
}

/// What a server says to a client with this password and this first message: its challenge, the
/// answer that it waits for, and its last word.
fn server(password: &[u8], client_first: &str) -> (String, String, String) {
    let nonce = client_first.strip_prefix("n,,n=,r=").unwrap();
    let challenge = format!("r={}server,s={},i=1", nonce, base64(b"salt"));
    let salted = hmac(password, b"salt\0\0\0\x01");
    let client_key = hmac(&salted, b"Client Key");
    let without_proof = format!("c=biws,r={}server", nonce);
    let auth_message = format!("n=,r={},{},{}", nonce, challenge, without_proof);
    let signature = hmac(&sha256(&client_key), auth_message.as_bytes());
    let proof: Vec<u8> = client_key.iter().zip(signature).map(|(k, s)| k ^ s).collect();
    let answer = format!("{},p={}", without_proof, base64(&proof));
    let server_key = hmac(&salted, b"Server Key");
    let last_word = format!("v={}", base64(&hmac(&server_key, auth_message.as_bytes())));
    (challenge, answer, last_word)
}

// ---------------------------------------------------------------------------
// Messages
// ---------------------------------------------------------------------------

fn db() -> DbSpec {
    DbSpec::new("me".to_string(), "db".to_string())
}

fn authentication(code: i32, data: &[u8]) -> Vec<u8> {
    let mut bytes = vec![b'R'];
    bytes.extend_from_slice(&((data.len() + 8) as i32).to_be_bytes());
    bytes.extend_from_slice(&code.to_be_bytes());
    bytes.extend_from_slice(data);
    bytes
}

fn message(bytes: &[u8]) -> PgLoginEvent {
    PgLoginEvent::Message(BytesMut::from(bytes))
}

fn step(state: PgLoginState, event: PgLoginEvent) -> (PgLoginState, PgLoginAction) {
    match try_send_password(state, event, &db(), "token") {
        Some(step) => step,
        None => panic!("the step cannot be taken"),
    }
}

fn asked(bytes: &[u8]) -> (PgLoginState, PgLoginAction) {
    step(PgLoginState::AwaitingRequest, message(bytes))
}

fn error(step: (PgLoginState, PgLoginAction)) -> PgLoginError {
    assert!(matches!(step.0, PgLoginState::Failed));
    match step.1 {
        PgLoginAction::Fail(e) => e,
        other => panic!("expected a failure, got {:?}", other),
    }
}

fn sent(action: PgLoginAction) -> Bytes {
    match action {
        PgLoginAction::Send(bytes) => bytes,
        other => panic!("expected something to send, got {:?}", other),
    }
}

/// A SASL exchange up to the server's challenge: the state, and what the server expects.
fn opened() -> (PgLoginState, (String, String, String)) {
    let (state, action) = asked(&authentication(10, b"SCRAM-SHA-256-PLUS\0SCRAM-SHA-256\0\0"));
    let bytes = sent(action);
    assert_eq!(&bytes[..19], b"p\0\0\0\x36SCRAM-SHA-256\0");
    assert_eq!(&bytes[19..23], &[0, 0, 0, 32]);
    let first = std::str::from_utf8(&bytes[23..]).unwrap();
    assert_eq!(first.len(), 32);
    (state, server(b"token", first))
}

/// A SASL exchange up to the server's last word.
fn answered() -> (PgLoginState, String) {
    let (state, (challenge, answer, last_word)) = opened();
    let (state, action) = step(state, message(&authentication(11, challenge.as_bytes())));
    let bytes = sent(action);
    assert_eq!(bytes[0], b'p');
    assert_eq!(&bytes[1..5], &((answer.len() + 4) as i32).to_be_bytes());
    assert_eq!(&bytes[5..], answer.as_bytes());
    (state, last_word)
}

#[test]
fn the_hash_in_this_file_is_right() {
    assert_eq!(base64(&sha256(b"abc")), "ungWv48Bz+pBQUDeXa4iI7ADYaOWF3qctBD/YfIAFa0=");
}

#[test]
fn login_begins_with_the_startup_message() {
    let (state, action) = step(PgLoginState::Start, PgLoginEvent::Begin);
    assert!(matches!(state, PgLoginState::AwaitingRequest));
    assert_eq!(sent(action), db().startup_message().unwrap());
}

#[test]
fn startup_message_that_cannot_be_written() {
    let bad = DbSpec::new("a\0b".to_string(), "db".to_string());
    let step = send_password(PgLoginState::Start, PgLoginEvent::Begin, &bad, "token");
    match error(step) {
        PgLoginError::Startup(e) => assert_eq!(e.to_string(), "string contains embedded null"),
        other => panic!("unexpected {:?}", other),
    }
}

#[test]
fn cleartext_password_is_sent() {
    let (state, action) = asked(&authentication(3, b""));
    assert!(matches!(state, PgLoginState::Done));
    match action {
        PgLoginAction::SendAndFinish(bytes) => assert_eq!(&bytes[..], b"p\0\0\0\x0Atoken\0"),
        other => panic!("unexpected {:?}", other),
    }
}

#[test]
fn own_login_gets_past_the_local_password() {
    match asked(&password_request()).1 {
        PgLoginAction::SendAndFinish(bytes) => {
            assert!(verify_pg_local_password(&bytes, "token").is_ok());
            assert!(verify_pg_local_password(&bytes, "Token").is_err());
        }
        other => panic!("unexpected {:?}", other),
    }
}

#[test]
fn password_that_cannot_be_written() {
    let request = message(&authentication(3, b""));
    let step = send_password(PgLoginState::AwaitingRequest, request, &db(), "to\0ken");
    match error(step) {
        PgLoginError::Password(e) => assert_eq!(e.to_string(), "string contains embedded null"),
        other => panic!("unexpected {:?}", other),
    }
}

#[test]
fn scram_exchange_with_proof() {
    let (state, last_word) = answered();
    let (state, action) = step(state, message(&authentication(12, last_word.as_bytes())));
    assert!(matches!(state, PgLoginState::Done));
    assert!(matches!(action, PgLoginAction::Finish));
}

#[test]
fn scram_exchange_without_proof() {
    let (state, _) = answered();
    let (state, action) = step(state, message(&authentication(0, b"")));
    assert!(matches!(state, PgLoginState::Done));
    assert!(matches!(action, PgLoginAction::Finish));
}

#[test]
fn scram_server_that_does_not_know_the_password() {
    let (state, _) = answered();
    let wrong = format!("v={}", base64(&[7; 32]));
    let step = step(state, message(&authentication(12, wrong.as_bytes())));
    match error(step) {
        PgLoginError::ScramFinish(e) => assert_eq!(e.to_string(), "SCRAM verification error"),
        other => panic!("unexpected {:?}", other),
    }
}

#[test]
fn scram_challenge_for_another_nonce() {
    let (state, _) = opened();
    let step = step(state, message(&authentication(11, b"r=other,s=c2FsdA==,i=1")));
    match error(step) {
        PgLoginError::ScramUpdate(e) => assert_eq!(e.to_string(), "invalid nonce"),
        other => panic!("unexpected {:?}", other),
    }
}

#[test]
fn scram_out_of_turn() {
    let (state, _) = opened();
    assert!(matches!(
        error(step(state, message(&authentication(0, b"")))),
        PgLoginError::ExpectedSaslContinue
    ));
    let (state, _) = answered();
    match error(step(state, message(&authentication(3, b"")))) {
        PgLoginError::ExpectedSaslFinal(bytes) => assert_eq!(bytes, authentication(3, b"")),
        other => panic!("unexpected {:?}", other),
    }
}

#[test]
fn incomplete_last_word_is_shown_in_part() {
    let (state, _) = answered();
    let mut long = vec![b'R', 0, 0, 4, 0];
    long.resize(200, b'x');
    match error(step(state, message(&long))) {
        PgLoginError::ExpectedSaslFinal(bytes) => assert_eq!(bytes, long[..128].to_vec()),
        other => panic!("unexpected {:?}", other),
    }
}

#[test]
fn error_after_the_exchange_is_shown() {
    let (state, _) = answered();
    let refusal = pg_error("28P01", "no");
    match error(step(state, message(&refusal))) {
        PgLoginError::ErrorAfterSasl(text) => assert_eq!(text.as_bytes(), &refusal[..]),
        other => panic!("unexpected {:?}", other),
    }
}

#[test]
fn error_in_place_of_a_request() {
    let mut bytes = pg_error("28000", "no").to_vec();
    bytes.extend_from_slice(b"behind");
    match error(asked(&bytes)) {
        PgLoginError::ErrorDuringAuth(rest) => assert_eq!(rest, b"behind".to_vec()),
        other => panic!("unexpected {:?}", other),
    }
}

#[test]
fn scram_must_be_offered() {
    assert!(matches!(
        error(asked(&authentication(10, b"SCRAM-SHA-256-PLUS\0\0"))),
        PgLoginError::ScramNotOffered
    ));
    assert!(matches!(error(asked(&authentication(10, b"\0"))), PgLoginError::ScramNotOffered));
}

#[test]
fn malformed_offers() {
    let not_utf8 = std::str::from_utf8(b"a\xFF").unwrap_err().to_string();
    let behind = "invalid message length: expected to be at end of iterator for sasl";
    let cases: [(&[u8], &str); 5] = [
        (b"", "unexpected EOF"),
        (b"SCRAM-SHA-256\0", "unexpected EOF"),
        (b"SCRAM-SHA-256\0\0x", behind),
        (b"SCRAM-SHA-256\0a\xFF\0\0", &not_utf8),
        (b"a\xFF\0\0x", &not_utf8),
    ];
    for (offer, expected) in cases {
        match error(asked(&authentication(10, offer))) {
            PgLoginError::Mechanisms(e) => assert_eq!(e.to_string(), expected),
            other => panic!("unexpected {:?}", other),
        }
    }
}

#[test]
fn requests_that_are_not_understood() {
    assert!(matches!(error(asked(b"")), PgLoginError::UnsupportedMethod));
    assert!(matches!(error(asked(b"R\0\0\0\x08\0\0")), PgLoginError::UnsupportedMethod));
    for code in [2, 6, 7, 9] {
        assert!(matches!(
            error(asked(&authentication(code, b""))),
            PgLoginError::UnsupportedMethod
        ));
    }
    assert!(matches!(error(asked(&authentication(5, b"salt"))), PgLoginError::UnsupportedMethod));
    assert!(matches!(error(asked(&authentication(8, b"gss"))), PgLoginError::UnsupportedMethod));
    assert!(matches!(error(asked(&authentication(0, b""))), PgLoginError::UnsupportedMethod));
    assert!(matches!(error(asked(b"Z\0\0\0\x05I")), PgLoginError::UnsupportedMethod));
}

fn tagged(tag: u8, body: &[u8]) -> Vec<u8> {
    let mut bytes = vec![tag];
    bytes.extend_from_slice(&((body.len() + 4) as i32).to_be_bytes());
    bytes.extend_from_slice(body);
    bytes
}

#[test]
fn messages_out_of_place() {
    let empty = b"123cIns".iter().map(|tag| (*tag, &b""[..], &b"x"[..]));
    let others: [(u8, &[u8], &[u8]); 11] = [
        (b'D', b"\0\0", b"\0"),
        (b'T', b"\0\0x", b""),
        (b't', b"\0\0", b"\0"),
        (b'G', b"\0\0\0", b"\0\0"),
        (b'H', b"\0\0\0x", b"\0\0"),
        (b'K', b"12345678", b"123456789"),
        (b'Z', b"I", b"II"),
        (b'C', b"SELECT 1\0", b"SELECT 1"),
        (b'C', b"\0", b"\0\0"),
        (b'S', b"a\0b\0", b"a\0b\0c"),
        (b'A', b"1234a\0b\0", b"1234a\0"),
    ];
    for (tag, good, bad) in empty.chain(others) {
        let unsupported = error(asked(&tagged(tag, good)));
        assert!(matches!(unsupported, PgLoginError::UnsupportedMethod), "{}", tag as char);
        let malformed = error(asked(&tagged(tag, bad)));
        assert!(matches!(malformed, PgLoginError::Malformed(_)), "{}", tag as char);
    }
    for tag in [b'd', b'N'] {
        for body in [&b""[..], b"x"] {
            assert!(matches!(error(asked(&tagged(tag, body))), PgLoginError::UnsupportedMethod));
        }
    }
}

#[test]
fn malformed_messages() {
    assert!(matches!(error(asked(b"R\0\0\0\x03")), PgLoginError::Malformed(_)));
    assert!(matches!(error(asked(b"R\0\0\0\x05\0")), PgLoginError::Malformed(_)));
    assert!(matches!(error(asked(&authentication(3, b"x"))), PgLoginError::Malformed(_)));
    assert!(matches!(error(asked(&authentication(0, b"x"))), PgLoginError::Malformed(_)));
    assert!(matches!(error(asked(&authentication(5, b"sal"))), PgLoginError::Malformed(_)));
    assert!(matches!(error(asked(&authentication(5, b"salty"))), PgLoginError::Malformed(_)));
    assert!(matches!(error(asked(&authentication(99, b""))), PgLoginError::Malformed(_)));
    assert!(matches!(error(asked(b"Z\0\0\0\x04")), PgLoginError::Malformed(_)));
    match error(asked(b"?\0\0\0\x04")) {
        PgLoginError::Malformed(e) => assert_eq!(e.to_string(), "unknown message tag `63`"),
        other => panic!("unexpected {:?}", other),
    }
    let (state, _) = opened();
    assert!(matches!(error(step(state, message(b"R\0\0\0\x03"))), PgLoginError::Malformed(_)));
    let (state, _) = answered();
    assert!(matches!(error(step(state, message(b"R\0\0\0\x03"))), PgLoginError::Malformed(_)));
}

#[test]
fn server_closes_early() {
    let closed = step(PgLoginState::AwaitingRequest, PgLoginEvent::Closed);
    assert!(matches!(error(closed), PgLoginError::ClosedBeforeAuth));
    let (state, _) = opened();
    assert!(matches!(error(step(state, PgLoginEvent::Closed)), PgLoginError::ClosedDuringSasl));
    let (state, _) = answered();
    assert!(matches!(
        error(step(state, PgLoginEvent::Closed)),
        PgLoginError::ClosedDuringSaslFinal
    ));
}

#[test]
fn exchange_is_opened_with_its_own_message() {
    let scram = ScramSha256::new(b"token", ChannelBinding::unsupported());
    let first = scram.message().to_vec();
    let (state, action) = open_exchange(scram);
    assert!(matches!(state, PgLoginState::AwaitingChallenge(_)));
    assert_eq!(&sent(action)[23..], &first[..]);
}

#[test]
fn nothing_sent_in_an_exchange_shows_the_token() {
    let offer = authentication(10, b"SCRAM-SHA-256\0\0");
    for password in ["token", "another"] {
        let state = PgLoginState::AwaitingRequest;
        let (_, action) = send_password(state, message(&offer), &db(), password);
        assert_eq!(&sent(action)[..31], b"p\0\0\0\x36SCRAM-SHA-256\0\0\0\0\x20n,,n=,r=");
    }
}

#[test]
fn steps_out_of_turn() {
    let can = |state, event| try_send_password(state, event, &db(), "token").is_some();
    assert!(!can(PgLoginState::Start, PgLoginEvent::Closed));
    assert!(!can(PgLoginState::AwaitingRequest, PgLoginEvent::Begin));
    assert!(!can(PgLoginState::Done, PgLoginEvent::Closed));
    assert!(!can(PgLoginState::Failed, message(b"")));
}
