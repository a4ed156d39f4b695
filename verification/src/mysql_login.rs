//! Logging in to a MySQL server with an IAM token.
//!
//! The login is a conversation: the server speaks first, the proxy asks for TLS, and the token is
//! sent once the connection is encrypted. The decisions are here; the caller reads and writes.

use vstd::prelude::*;
use vstd::utf8::encode_utf8;

use crate::backend_config::{DbSpec, DbSpecView};
use crate::mysql_handshake::{
    breaks_off_before_auth_length, build_handshake_response, build_ssl_request, client_header,
    ends_before_auth_length, handshake_of, handshake_response, handshake_response_fits,
    law_what_is_asked_for, lemma_client_header, ssl_request, ssl_request_caps, text_before_nul,
    HandshakeError, HandshakeV10,
};
use crate::mysql_packet::{
    err_text, parse_err_packet, CLIENT_SSL, EOF_PACKET, ERR_PACKET, OK_PACKET,
};
use crate::text::{lemma_lossy_of_encoded, same_text, utf8_lossy};
use crate::wire::{before_nul, cstr, lemma_encode_nul_free, lemma_nul_after};

verus! {

/// How far a login has come.
#[derive(Clone, Copy, Debug, PartialEq, Eq, Structural)]
pub enum LoginState {
    /// Waiting for the server to speak first.
    Greeting,
    /// The request for TLS is out. The server's greeting had this sequence number and these
    /// capabilities.
    Tls { seq_id: u8, server_caps: u32 },
    /// The token is out.
    AwaitingResult,
    /// The token is out again, for the plugin that the server switched to.
    AwaitingSwitched,
    Authenticated,
    Failed,
}

/// What the caller has to tell.
#[derive(Debug)]
pub enum LoginEvent {
    /// A packet came.
    Packet { seq_id: u8, payload: Vec<u8> },
    /// The connection is encrypted now.
    TlsReady,
}

#[derive(Debug)]
pub enum LoginError {
    /// The server greeted with an error.
    ServerError(String),
    Handshake(HandshakeError),
    NoTls,
    EmptyResult,
    AuthFailed(String),
    UnsupportedPlugin(String),
    UnexpectedPacket(u8),
    EmptySwitchResult,
    AuthFailedAfterSwitch(String),
    UnexpectedPacketAfterSwitch(u8),
}

/// What the caller has to do next.
#[derive(Debug)]
pub enum LoginAction {
    /// Send this packet, then encrypt the connection.
    SendAndStartTls { seq_id: u8, payload: Vec<u8> },
    /// Send this packet, then wait for one.
    Send { seq_id: u8, payload: Vec<u8> },
    /// The session is open.
    Done,
    Fail(LoginError),
}

/// A `LoginEvent` with the payload as a sequence.
pub enum LoginEventView {
    Packet { seq_id: u8, payload: Seq<u8> },
    TlsReady,
}

impl View for LoginEvent {
    type V = LoginEventView;

    open spec fn view(&self) -> LoginEventView {
        match self {
            LoginEvent::Packet { seq_id, payload } => LoginEventView::Packet {
                seq_id: *seq_id,
                payload: payload@,
            },
            LoginEvent::TlsReady => LoginEventView::TlsReady,
        }
    }
}

/// A `LoginError` with texts as sequences.
pub enum LoginErrorView {
    ServerError(Seq<char>),
    Handshake(HandshakeError),
    NoTls,
    EmptyResult,
    AuthFailed(Seq<char>),
    UnsupportedPlugin(Seq<char>),
    UnexpectedPacket(u8),
    EmptySwitchResult,
    AuthFailedAfterSwitch(Seq<char>),
    UnexpectedPacketAfterSwitch(u8),
}

impl View for LoginError {
    type V = LoginErrorView;

    open spec fn view(&self) -> LoginErrorView {
        match self {
            LoginError::ServerError(text) => LoginErrorView::ServerError(text@),
            LoginError::Handshake(e) => LoginErrorView::Handshake(*e),
            LoginError::NoTls => LoginErrorView::NoTls,
            LoginError::EmptyResult => LoginErrorView::EmptyResult,
            LoginError::AuthFailed(text) => LoginErrorView::AuthFailed(text@),
            LoginError::UnsupportedPlugin(name) => LoginErrorView::UnsupportedPlugin(name@),
            LoginError::UnexpectedPacket(byte) => LoginErrorView::UnexpectedPacket(*byte),
            LoginError::EmptySwitchResult => LoginErrorView::EmptySwitchResult,
            LoginError::AuthFailedAfterSwitch(text) => LoginErrorView::AuthFailedAfterSwitch(text@),
            LoginError::UnexpectedPacketAfterSwitch(
                byte,
            ) => LoginErrorView::UnexpectedPacketAfterSwitch(*byte),
        }
    }
}

/// A `LoginAction` with payloads and texts as sequences.
pub enum LoginActionView {
    SendAndStartTls { seq_id: int, payload: Seq<u8> },
    Send { seq_id: int, payload: Seq<u8> },
    Done,
    Fail(LoginErrorView),
}

impl View for LoginAction {
    type V = LoginActionView;

    open spec fn view(&self) -> LoginActionView {
        match self {
            LoginAction::SendAndStartTls { seq_id, payload } => LoginActionView::SendAndStartTls {
                seq_id: *seq_id as int,
                payload: payload@,
            },
            LoginAction::Send { seq_id, payload } => LoginActionView::Send {
                seq_id: *seq_id as int,
                payload: payload@,
            },
            LoginAction::Done => LoginActionView::Done,
            LoginAction::Fail(e) => LoginActionView::Fail(e@),
        }
    }
}

/// A step that ends the login without a session.
pub open spec fn failed(error: LoginErrorView) -> (LoginState, LoginActionView) {
    (LoginState::Failed, LoginActionView::Fail(error))
}

/// Whether a greeting is one of a server with TLS.
pub open spec fn greeting_offers_tls(payload: Seq<u8>) -> bool {
    &&& !(payload.len() > 0 && payload[0] == ERR_PACKET)
    &&& handshake_of(payload) matches Ok(handshake) && handshake.capability_flags & CLIENT_SSL != 0
}

/// What follows the server's greeting: the request for TLS, numbered one above the greeting.
pub open spec fn after_greeting(seq_id: u8, payload: Seq<u8>) -> (LoginState, LoginActionView) {
    if payload.len() > 0 && payload[0] == ERR_PACKET {
        failed(LoginErrorView::ServerError(err_text(payload)))
    } else {
        match handshake_of(payload) {
            Err(e) => failed(LoginErrorView::Handshake(e)),
            Ok(handshake) => if handshake.capability_flags & CLIENT_SSL == 0 {
                failed(LoginErrorView::NoTls)
            } else {
                (
                    LoginState::Tls { seq_id, server_caps: handshake.capability_flags },
                    LoginActionView::SendAndStartTls {
                        seq_id: seq_id + 1,
                        payload: ssl_request(handshake.capability_flags),
                    },
                )
            },
        }
    }
}

/// The plugin that a request to switch names.
pub open spec fn requested_plugin(payload: Seq<u8>) -> Seq<char> {
    utf8_lossy(before_nul(payload.skip(1)))
}

/// The plugins for which the token is sent as it is.
pub open spec fn sends_clear_password(plugin: Seq<char>) -> bool {
    plugin == "mysql_clear_password"@ || plugin == "mysql_native_password"@
}

/// Whether an answer asks for the token once more, for a plugin that takes it as it is.
pub open spec fn switches_to_clear_password(payload: Seq<u8>) -> bool {
    payload.len() > 0 && payload[0] == EOF_PACKET && sends_clear_password(requested_plugin(payload))
}

/// What follows the server's answer to the handshake response.
pub open spec fn after_result(seq_id: u8, payload: Seq<u8>, password: Seq<char>) -> (
    LoginState,
    LoginActionView,
) {
    if payload.len() == 0 {
        failed(LoginErrorView::EmptyResult)
    } else if payload[0] == OK_PACKET {
        (LoginState::Authenticated, LoginActionView::Done)
    } else if payload[0] == ERR_PACKET {
        failed(LoginErrorView::AuthFailed(err_text(payload)))
    } else if payload[0] == EOF_PACKET {
        if sends_clear_password(requested_plugin(payload)) {
            (
                LoginState::AwaitingSwitched,
                LoginActionView::Send { seq_id: seq_id + 1, payload: cstr(password) },
            )
        } else {
            failed(LoginErrorView::UnsupportedPlugin(requested_plugin(payload)))
        }
    } else {
        failed(LoginErrorView::UnexpectedPacket(payload[0]))
    }
}

/// What follows the server's answer after a switch of the plugin.
pub open spec fn after_switch(payload: Seq<u8>) -> (LoginState, LoginActionView) {
    if payload.len() == 0 {
        failed(LoginErrorView::EmptySwitchResult)
    } else if payload[0] == OK_PACKET {
        (LoginState::Authenticated, LoginActionView::Done)
    } else if payload[0] == ERR_PACKET {
        failed(LoginErrorView::AuthFailedAfterSwitch(err_text(payload)))
    } else {
        failed(LoginErrorView::UnexpectedPacketAfterSwitch(payload[0]))
    }
}

/// One step of a login. In a state that does not wait for the event, nothing is defined.
pub open spec fn login_step(
    state: LoginState,
    event: LoginEventView,
    db: DbSpecView,
    password: Seq<char>,
) -> (LoginState, LoginActionView) {
    match (state, event) {
        (LoginState::Greeting, LoginEventView::Packet { seq_id, payload }) => after_greeting(
            seq_id,
            payload,
        ),
        (LoginState::Tls { seq_id, server_caps }, LoginEventView::TlsReady) => (
            LoginState::AwaitingResult,
            LoginActionView::Send {
                seq_id: seq_id + 2,
                payload: handshake_response(server_caps, db.user, password, db.database),
            },
        ),
        (LoginState::AwaitingResult, LoginEventView::Packet { seq_id, payload }) => after_result(
            seq_id,
            payload,
            password,
        ),
        (LoginState::AwaitingSwitched, LoginEventView::Packet { seq_id, payload }) => after_switch(
            payload,
        ),
        _ => arbitrary(),
    }
}

/// Whether a login in this state waits for this event.
pub open spec fn expects(state: LoginState, event: LoginEventView) -> bool {
    match (state, event) {
        (LoginState::Greeting, LoginEventView::Packet { .. }) => true,
        (LoginState::Tls { .. }, LoginEventView::TlsReady) => true,
        (LoginState::AwaitingResult, LoginEventView::Packet { .. }) => true,
        (LoginState::AwaitingSwitched, LoginEventView::Packet { .. }) => true,
        _ => false,
    }
}

/// Whether the packet that a step sends, if it sends one, has a number that fits a byte and a
/// size that fits memory; and whether a greeting can be parsed at all.
pub open spec fn step_fits(
    state: LoginState,
    event: LoginEventView,
    db: DbSpecView,
    password: Seq<char>,
) -> bool {
    &&& match login_step(state, event, db, password).1 {
        LoginActionView::SendAndStartTls { seq_id, payload } => seq_id <= 255 && payload.len()
            <= isize::MAX,
        LoginActionView::Send { seq_id, payload } => seq_id <= 255 && payload.len() <= isize::MAX,
        _ => true,
    }
    &&& (state, event) matches (LoginState::Greeting, LoginEventView::Packet { seq_id, payload })
        ==> !ends_before_auth_length(payload)
}

/// Decides the next step of a login to a MySQL server: TLS first, then the IAM token.
pub fn mysql_connect(
    state: LoginState,
    event: LoginEvent,
    db_spec: &DbSpec,
    password: &str,
) -> (step: (LoginState, LoginAction))
    requires
        expects(state, event@),
        step_fits(state, event@, db_spec@, password@),
    ensures
        (step.0, step.1@) == login_step(state, event@, db_spec@, password@),
{
    match (state, event) {
        (LoginState::Greeting, LoginEvent::Packet { seq_id, payload }) => greeted(seq_id, &payload),
        (LoginState::Tls { seq_id, server_caps }, LoginEvent::TlsReady) => {
            let response = build_handshake_response(
                server_caps,
                db_spec.user(),
                password,
                db_spec.database(),
            );
            (
                LoginState::AwaitingResult,
                LoginAction::Send { seq_id: seq_id + 2, payload: response },
            )
        },
        (LoginState::AwaitingResult, LoginEvent::Packet { seq_id, payload }) => result_received(
            seq_id,
            &payload,
            password,
        ),
        (LoginState::AwaitingSwitched, LoginEvent::Packet { seq_id: _, payload }) =>
            switch_result_received(&payload),
        _ => vstd::pervasive::unreached(),
    }
}

/// Takes the next step of a login to a MySQL server, if it can be taken: if it is the event's turn,
/// and what the step would send fits.
pub fn try_mysql_connect(
    state: LoginState,
    event: LoginEvent,
    db_spec: &DbSpec,
    password: &str,
) -> (step: Option<(LoginState, LoginAction)>)
    ensures
        match step {
            Some((next, action)) => {
                &&& expects(state, event@)
                &&& step_fits(state, event@, db_spec@, password@)
                &&& (next, action@) == login_step(state, event@, db_spec@, password@)
            },
            None => !(expects(state, event@) && step_fits(state, event@, db_spec@, password@)),
        },
{
    if can_step(state, &event, db_spec, password) {
        Some(mysql_connect(state, event, db_spec, password))
    } else {
        None
    }
}

/// Tells whether a step can be taken.
fn can_step(
    state: LoginState,
    event: &LoginEvent,
    db_spec: &DbSpec,
    password: &str,
) -> (can: bool)
    ensures
        can <==> expects(state, event@) && step_fits(state, event@, db_spec@, password@),
{
    match (state, event) {
        (LoginState::Greeting, LoginEvent::Packet { seq_id, payload }) => {
            if breaks_off_before_auth_length(payload) {
                return false;
            }
            proof {
                let handshake = handshake_of(payload@)->Ok_0;
                lemma_client_header(ssl_request_caps(handshake.capability_flags));
            }
            *seq_id < 255 || !is_tls_greeting(payload)
        },
        (LoginState::Tls { seq_id, server_caps }, LoginEvent::TlsReady) => {
            seq_id <= 253 && handshake_response_fits(
                server_caps,
                db_spec.user(),
                password,
                db_spec.database(),
            )
        },
        (LoginState::AwaitingResult, LoginEvent::Packet { seq_id, payload }) => {
            !is_clear_password_switch(payload) || (*seq_id < 255 && (password.as_bytes().len()
                as u128) < isize::MAX as u128)
        },
        (LoginState::AwaitingSwitched, LoginEvent::Packet { .. }) => true,
        _ => false,
    }
}

/// Tells whether a greeting is one of a server with TLS.
fn is_tls_greeting(payload: &Vec<u8>) -> (offers: bool)
    requires
        !ends_before_auth_length(payload@),
    ensures
        offers == greeting_offers_tls(payload@),
{
    if payload.len() > 0 && payload[0] == ERR_PACKET {
        return false;
    }
    match HandshakeV10::parse(payload) {
        Ok(handshake) => handshake.capability_flags & CLIENT_SSL != 0,
        Err(_) => false,
    }
}

/// Tells whether an answer asks for the token once more, for a plugin that takes it as it is.
fn is_clear_password_switch(payload: &Vec<u8>) -> (switches: bool)
    ensures
        switches == switches_to_clear_password(payload@),
{
    payload.len() > 0 && payload[0] == EOF_PACKET && {
        let plugin = switch_plugin(payload);
        same_text(plugin.as_str(), "mysql_clear_password") || same_text(
            plugin.as_str(),
            "mysql_native_password",
        )
    }
}

/// The plugin that a request to switch names.
fn switch_plugin(payload: &Vec<u8>) -> (plugin: String)
    requires
        payload@.len() > 0,
    ensures
        plugin@ == requested_plugin(payload@),
{
    let switch_payload = vstd::slice::slice_subrange(payload, 1, payload.len());
    proof {
        assert(switch_payload@ =~= payload@.skip(1));
    }
    text_before_nul(switch_payload)
}

/// The server's greeting came.
fn greeted(seq_id: u8, payload: &Vec<u8>) -> (step: (LoginState, LoginAction))
    requires
        !ends_before_auth_length(payload@),
        after_greeting(seq_id, payload@).1 is SendAndStartTls ==> seq_id < 255,
    ensures
        (step.0, step.1@) == after_greeting(seq_id, payload@),
{
    // Check for ERR_Packet
    if payload.len() > 0 && payload[0] == ERR_PACKET {
        let said = parse_err_packet(payload).unwrap();
        return (LoginState::Failed, LoginAction::Fail(LoginError::ServerError(said)));
    }
    let handshake = match HandshakeV10::parse(payload) {
        Ok(handshake) => handshake,
        Err(e) => {
            return (LoginState::Failed, LoginAction::Fail(LoginError::Handshake(e)));
        },
    };
    if handshake.capability_flags & CLIENT_SSL == 0 {
        return (LoginState::Failed, LoginAction::Fail(LoginError::NoTls));
    }
    let ssl_request = build_ssl_request(handshake.capability_flags);
    (
        LoginState::Tls { seq_id, server_caps: handshake.capability_flags },
        LoginAction::SendAndStartTls { seq_id: seq_id + 1, payload: ssl_request },
    )
}

/// The answer to the handshake response came.
fn result_received(seq_id: u8, payload: &Vec<u8>, password: &str) -> (step: (
    LoginState,
    LoginAction,
))
    requires
        after_result(seq_id, payload@, password@).1 is Send ==> seq_id < 255,
    ensures
        (step.0, step.1@) == after_result(seq_id, payload@, password@),
{
    if payload.len() == 0 {
        return (LoginState::Failed, LoginAction::Fail(LoginError::EmptyResult));
    }
    if payload[0] == OK_PACKET {
        (LoginState::Authenticated, LoginAction::Done)
    } else if payload[0] == ERR_PACKET {
        let said = parse_err_packet(payload).unwrap();
        (LoginState::Failed, LoginAction::Fail(LoginError::AuthFailed(said)))
    } else if payload[0] == EOF_PACKET {
        // AuthSwitchRequest: [0xFE][plugin_name\0][plugin_data...]
        // The server wants us to use a different auth plugin. This is
        // common with RDS MySQL: the server's default plugin is
        // mysql_native_password but the iamdb user uses
        // AWSAuthenticationPlugin, so it sends an auth switch.
        if is_clear_password_switch(payload) {
            // mysql_clear_password: send password + NUL
            let mut auth_data: Vec<u8> = Vec::new();
            auth_data.extend_from_slice(password.as_bytes());
            auth_data.push(0);
            proof {
                assert(auth_data@ =~= cstr(password@));
            }
            (
                LoginState::AwaitingSwitched,
                LoginAction::Send { seq_id: seq_id + 1, payload: auth_data },
            )
        } else {
            (
                LoginState::Failed,
                LoginAction::Fail(LoginError::UnsupportedPlugin(switch_plugin(payload))),
            )
        }
    } else {
        (LoginState::Failed, LoginAction::Fail(LoginError::UnexpectedPacket(payload[0])))
    }
}

/// The answer after a switch of the plugin came.
fn switch_result_received(payload: &Vec<u8>) -> (step: (LoginState, LoginAction))
    ensures
        (step.0, step.1@) == after_switch(payload@),
{
    if payload.len() == 0 {
        return (LoginState::Failed, LoginAction::Fail(LoginError::EmptySwitchResult));
    }
    if payload[0] == OK_PACKET {
        (LoginState::Authenticated, LoginAction::Done)
    } else if payload[0] == ERR_PACKET {
        let said = parse_err_packet(payload).unwrap();
        (LoginState::Failed, LoginAction::Fail(LoginError::AuthFailedAfterSwitch(said)))
    } else {
        (
            LoginState::Failed,
            LoginAction::Fail(LoginError::UnexpectedPacketAfterSwitch(payload[0])),
        )
    }
}

// ---------------------------------------------------------------------------
// What holds of every login
// ---------------------------------------------------------------------------

/// The state that a login is in after these events.
pub open spec fn login_run(events: Seq<LoginEventView>, db: DbSpecView, password: Seq<char>) ->
    LoginState
    decreases events.len(),
{
    if events.len() == 0 {
        LoginState::Greeting
    } else {
        login_step(login_run(events.drop_last(), db, password), events.last(), db, password).0
    }
}

/// Whether each of these events came in its turn.
pub open spec fn in_turn(events: Seq<LoginEventView>, db: DbSpecView, password: Seq<char>) -> bool
    decreases events.len(),
{
    events.len() > 0 ==> {
        &&& in_turn(events.drop_last(), db, password)
        &&& expects(login_run(events.drop_last(), db, password), events.last())
    }
}

/// Whether an event is a packet that says OK.
pub open spec fn says_ok(event: LoginEventView) -> bool {
    event matches LoginEventView::Packet { payload, .. } && payload.len() > 0 && payload[0]
        == OK_PACKET
}

/// Whether an event is the greeting of a server with TLS.
pub open spec fn greets_with_tls(event: LoginEventView) -> bool {
    event matches LoginEventView::Packet { payload, .. } && greeting_offers_tls(payload)
}

/// Whether an event is a request for the token for another plugin that takes it as it is.
pub open spec fn switches(event: LoginEventView) -> bool {
    event matches LoginEventView::Packet { payload, .. } && switches_to_clear_password(payload)
}

/// The only way to each state.
proof fn lemma_login_path(events: Seq<LoginEventView>, db: DbSpecView, password: Seq<char>)
    requires
        in_turn(events, db, password),
    ensures
        match login_run(events, db, password) {
            LoginState::Greeting => events.len() == 0,
            LoginState::Tls { .. } => events.len() == 1 && greets_with_tls(events[0]),
            LoginState::AwaitingResult => events.len() == 2 && greets_with_tls(events[0])
                && events[1] is TlsReady,
            LoginState::AwaitingSwitched => events.len() == 3 && greets_with_tls(events[0])
                && events[1] is TlsReady && switches(events[2]),
            LoginState::Authenticated => {
                &&& events.len() == 3 || (events.len() == 4 && switches(events[2]))
                &&& greets_with_tls(events[0])
                &&& events[1] is TlsReady
                &&& says_ok(events.last())
            },
            LoginState::Failed => 1 <= events.len() <= 4,
        },
    decreases events.len(),
{
    if events.len() > 0 {
        lemma_login_path(events.drop_last(), db, password);
    }
}

/// A session is open only after a server with TLS greeted, the connection was encrypted, and the
/// server said OK to the token, either at once or after one switch of the plugin.
pub proof fn law_session_needs_tls_and_ok(
    events: Seq<LoginEventView>,
    db: DbSpecView,
    password: Seq<char>,
)
    requires
        in_turn(events, db, password),
        login_run(events, db, password) == LoginState::Authenticated,
    ensures
        events.len() == 3 || (events.len() == 4 && switches(events[2])),
        greets_with_tls(events[0]),
        events[1] is TlsReady,
        says_ok(events.last()),
{
    lemma_login_path(events, db, password);
}

/// A login ends: no more than four events are ever waited for.
pub proof fn law_login_is_short(events: Seq<LoginEventView>, db: DbSpecView, password: Seq<char>)
    requires
        in_turn(events, db, password),
    ensures
        events.len() <= 4,
{
    lemma_login_path(events, db, password);
}

/// Before the connection is encrypted, nothing that is done depends on the token, the user or the
/// database.
pub proof fn law_nothing_told_before_tls(
    events: Seq<LoginEventView>,
    event: LoginEventView,
    db: DbSpecView,
    password: Seq<char>,
    other_db: DbSpecView,
    other_password: Seq<char>,
)
    requires
        in_turn(events.push(event), db, password),
        forall|i: int| 0 <= i <= events.len() ==> !(#[trigger] events.push(event)[i] is TlsReady),
    ensures
        login_step(login_run(events, db, password), event, db, password) == login_step(
            login_run(events, other_db, other_password),
            event,
            other_db,
            other_password,
        ),
{
    assert(events.push(event).drop_last() =~= events);
    lemma_login_path(events, db, password);
    if events.len() >= 1 {
        assert(events.push(event)[events.len() as int] == event);
        if events.len() >= 2 {
            lemma_second_is_tls(events, db, password);
            assert(events.push(event)[1] == events[1]);
        }
    }
}

/// After the greeting, a login waits for the connection to be encrypted.
proof fn lemma_second_is_tls(events: Seq<LoginEventView>, db: DbSpecView, password: Seq<char>)
    requires
        in_turn(events, db, password),
        events.len() >= 2,
    ensures
        events[1] is TlsReady,
    decreases events.len(),
{
    lemma_login_path(events.drop_last(), db, password);
    if events.len() > 2 {
        lemma_second_is_tls(events.drop_last(), db, password);
    }
}

/// The packets that the proxy sends before and after TLS is on carry the numbers that follow that
/// of the greeting.
pub proof fn law_numbering(
    seq_id: u8,
    payload: Seq<u8>,
    db: DbSpecView,
    password: Seq<char>,
)
    requires
        greeting_offers_tls(payload),
    ensures
        ({
            let greeting = LoginEventView::Packet { seq_id, payload };
            let (asked, request) = login_step(LoginState::Greeting, greeting, db, password);
            let (_, response) = login_step(asked, LoginEventView::TlsReady, db, password);
            &&& request matches LoginActionView::SendAndStartTls { seq_id: first, .. } && first
                == seq_id + 1
            &&& response matches LoginActionView::Send { seq_id: second, .. } && second == seq_id
                + 2
        }),
{
}

/// What a server's greeting leads to. An error is shown and ends the login, and so does a packet
/// that is no greeting or that offers no TLS; any other greeting is answered, with a number one
/// above its own, by a request for TLS that holds the capabilities 0x28A20F as far as the server
/// has them, and TLS.
pub proof fn law_greeting_is_answered(
    seq_id: u8,
    payload: Seq<u8>,
    db: DbSpecView,
    password: Seq<char>,
)
    ensures
        ({
            let event = LoginEventView::Packet { seq_id, payload };
            let (next, action) = login_step(LoginState::Greeting, event, db, password);
            if payload.len() > 0 && payload[0] == 0xFF {
                &&& next == LoginState::Failed
                &&& action == LoginActionView::Fail(LoginErrorView::ServerError(err_text(payload)))
            } else {
                match handshake_of(payload) {
                    Err(e) => {
                        &&& next == LoginState::Failed
                        &&& action == LoginActionView::Fail(LoginErrorView::Handshake(e))
                    },
                    Ok(said) => if said.capability_flags & 0x0800 == 0 {
                        &&& next == LoginState::Failed
                        &&& action == LoginActionView::Fail(LoginErrorView::NoTls)
                    } else {
                        &&& next == LoginState::Tls { seq_id, server_caps: said.capability_flags }
                        &&& action matches LoginActionView::SendAndStartTls {
                            seq_id: number,
                            payload: sent,
                        }
                        &&& number == seq_id + 1
                        &&& sent == client_header(
                            (said.capability_flags & 0x0028_A20F) | 0x0800,
                        )
                    },
                }
            }
        }),
{
    if let Ok(said) = handshake_of(payload) {
        law_what_is_asked_for(said.capability_flags);
    }
}

/// Once the connection is encrypted, the user, the token and the database go to the server in one
/// packet, numbered two above the greeting, and with what the server offered in its greeting.
pub proof fn law_token_follows_tls(
    seq_id: u8,
    server_caps: u32,
    db: DbSpecView,
    password: Seq<char>,
)
    ensures
        ({
            let (next, action) = login_step(
                LoginState::Tls { seq_id, server_caps },
                LoginEventView::TlsReady,
                db,
                password,
            );
            &&& next == LoginState::AwaitingResult
            &&& action matches LoginActionView::Send { seq_id: number, payload: sent }
            &&& number == seq_id + 2
            &&& sent == handshake_response(server_caps, db.user, password, db.database)
        }),
{
}

/// A request to switch to a plugin that takes a password as it is, `mysql_clear_password` or
/// `mysql_native_password`, is answered with the token and one zero byte, in a packet numbered one
/// above the request. What follows the plugin's name in the request does not matter.
pub proof fn law_switch_is_answered(
    seq_id: u8,
    plugin: Seq<char>,
    data: Seq<u8>,
    db: DbSpecView,
    password: Seq<char>,
)
    requires
        plugin == "mysql_clear_password"@ || plugin == "mysql_native_password"@,
    ensures
        ({
            let request = seq![0xFEu8] + encode_utf8(plugin).push(0) + data;
            let event = LoginEventView::Packet { seq_id, payload: request };
            let (next, action) = login_step(LoginState::AwaitingResult, event, db, password);
            &&& next == LoginState::AwaitingSwitched
            &&& action matches LoginActionView::Send { seq_id: number, payload: sent }
            &&& number == seq_id + 1
            &&& sent.len() == encode_utf8(password).len() + 1
            &&& sent.drop_last() == encode_utf8(password)
            &&& sent.last() == 0
        }),
{
    let request = seq![0xFEu8] + encode_utf8(plugin).push(0) + data;
    reveal_strlit("mysql_clear_password");
    reveal_strlit("mysql_native_password");
    lemma_encode_nul_free(plugin);
    lemma_nul_after(encode_utf8(plugin), data);
    lemma_lossy_of_encoded(plugin);
    assert(request.skip(1) =~= encode_utf8(plugin).push(0) + data);
    assert(cstr(password).drop_last() =~= encode_utf8(password));
}

/// What the server's answer to the token leads to, by its first byte: 0x00 opens the session; 0xFF
/// ends the login with what the server says; 0xFE asks for another plugin, up to a zero byte or
/// the end, and ends the login if it is not one of two that take a password as it is; anything else
/// ends it too.
pub proof fn law_result_decides(
    seq_id: u8,
    payload: Seq<u8>,
    db: DbSpecView,
    password: Seq<char>,
)
    ensures
        ({
            let event = LoginEventView::Packet { seq_id, payload };
            let (next, action) = login_step(LoginState::AwaitingResult, event, db, password);
            let plugin = utf8_lossy(before_nul(payload.skip(1)));
            let known = plugin == "mysql_clear_password"@ || plugin == "mysql_native_password"@;
            if payload.len() == 0 {
                &&& next == LoginState::Failed
                &&& action == LoginActionView::Fail(LoginErrorView::EmptyResult)
            } else if payload[0] == 0x00 {
                next == LoginState::Authenticated && action == LoginActionView::Done
            } else if payload[0] == 0xFF {
                &&& next == LoginState::Failed
                &&& action == LoginActionView::Fail(LoginErrorView::AuthFailed(err_text(payload)))
            } else if payload[0] == 0xFE && known {
                &&& next == LoginState::AwaitingSwitched
                &&& action matches LoginActionView::Send { seq_id: number, payload: sent }
                &&& number == seq_id + 1
                &&& sent == encode_utf8(password).push(0)
            } else if payload[0] == 0xFE {
                &&& next == LoginState::Failed
                &&& action == LoginActionView::Fail(LoginErrorView::UnsupportedPlugin(plugin))
            } else {
                &&& next == LoginState::Failed
                &&& action == LoginActionView::Fail(LoginErrorView::UnexpectedPacket(payload[0]))
            }
        }),
{
}

/// What the server's answer after a switch leads to, by its first byte: 0x00 opens the session, and
/// everything else ends the login; there is no second switch.
pub proof fn law_switch_result_decides(
    seq_id: u8,
    payload: Seq<u8>,
    db: DbSpecView,
    password: Seq<char>,
)
    ensures
        ({
            let event = LoginEventView::Packet { seq_id, payload };
            let (next, action) = login_step(LoginState::AwaitingSwitched, event, db, password);
            if payload.len() == 0 {
                &&& next == LoginState::Failed
                &&& action == LoginActionView::Fail(LoginErrorView::EmptySwitchResult)
            } else if payload[0] == 0x00 {
                next == LoginState::Authenticated && action == LoginActionView::Done
            } else if payload[0] == 0xFF {
                &&& next == LoginState::Failed
                &&& action == LoginActionView::Fail(
                    LoginErrorView::AuthFailedAfterSwitch(err_text(payload)),
                )
            } else {
                &&& next == LoginState::Failed
                &&& action == LoginActionView::Fail(
                    LoginErrorView::UnexpectedPacketAfterSwitch(payload[0]),
                )
            }
        }),
{
}

/// Every event is taken in its turn, and a step can be taken unless the packet that it sends would
/// get a number above 255 or not fit memory, or a greeting breaks off right before the length of
/// the auth data.
pub proof fn law_steps_can_be_taken(
    seq_id: u8,
    server_caps: u32,
    payload: Seq<u8>,
    db: DbSpecView,
    password: Seq<char>,
)
    ensures
        ({
            let packet = LoginEventView::Packet { seq_id, payload };
            let ready = LoginEventView::TlsReady;
            let encrypting = LoginState::Tls { seq_id, server_caps };
            &&& expects(LoginState::Greeting, packet) && !expects(LoginState::Greeting, ready)
            &&& expects(encrypting, ready) && !expects(encrypting, packet)
            &&& expects(LoginState::AwaitingResult, packet)
            &&& expects(LoginState::AwaitingSwitched, packet)
            &&& !expects(LoginState::AwaitingResult, ready)
            &&& !expects(LoginState::AwaitingSwitched, ready)
            &&& !expects(LoginState::Authenticated, packet) && !expects(LoginState::Failed, packet)
            &&& !expects(LoginState::Authenticated, ready) && !expects(LoginState::Failed, ready)
            &&& step_fits(LoginState::Greeting, packet, db, password)
                <==> !ends_before_auth_length(payload) && (seq_id < 255 || !(login_step(
                LoginState::Greeting,
                packet,
                db,
                password,
            ).1 is SendAndStartTls))
            &&& step_fits(encrypting, ready, db, password) <==> (seq_id <= 253
                && handshake_response(server_caps, db.user, password, db.database).len()
                <= isize::MAX)
            &&& step_fits(LoginState::AwaitingResult, packet, db, password) <==> ((seq_id < 255
                && encode_utf8(password).len() < isize::MAX) || !(login_step(
                LoginState::AwaitingResult,
                packet,
                db,
                password,
            ).1 is Send))
            &&& step_fits(LoginState::AwaitingSwitched, packet, db, password)
        }),
{
    if let Ok(said) = handshake_of(payload) {
        lemma_client_header(ssl_request_caps(said.capability_flags));
    }
}

/// A whole login, as servers on RDS do it: a greeting with TLS, an encrypted connection, a switch
/// to a plugin that takes a password as it is, and OK; or OK at once. It opens the session.
pub proof fn law_accepted_login_opens_session(
    seq_id: u8,
    greeting: Seq<u8>,
    switch_seq_id: u8,
    plugin: Seq<char>,
    data: Seq<u8>,
    ok_seq_id: u8,
    ok_data: Seq<u8>,
    db: DbSpecView,
    password: Seq<char>,
)
    requires
        greeting_offers_tls(greeting),
        plugin == "mysql_clear_password"@ || plugin == "mysql_native_password"@,
    ensures
        ({
            let greeted = LoginEventView::Packet { seq_id, payload: greeting };
            let ready = LoginEventView::TlsReady;
            let switch = LoginEventView::Packet {
                seq_id: switch_seq_id,
                payload: seq![0xFEu8] + encode_utf8(plugin).push(0) + data,
            };
            let ok = LoginEventView::Packet { seq_id: ok_seq_id, payload: seq![0u8] + ok_data };
            &&& login_run(seq![greeted, ready, ok], db, password) == LoginState::Authenticated
            &&& login_run(seq![greeted, ready, switch, ok], db, password)
                == LoginState::Authenticated
        }),
{
    let greeted = LoginEventView::Packet { seq_id, payload: greeting };
    let ready = LoginEventView::TlsReady;
    let request = seq![0xFEu8] + encode_utf8(plugin).push(0) + data;
    let switch = LoginEventView::Packet { seq_id: switch_seq_id, payload: request };
    let ok = LoginEventView::Packet { seq_id: ok_seq_id, payload: seq![0u8] + ok_data };
    law_switch_is_answered(switch_seq_id, plugin, data, db, password);
    law_result_decides(ok_seq_id, seq![0u8] + ok_data, db, password);
    law_switch_result_decides(ok_seq_id, seq![0u8] + ok_data, db, password);
    reveal_with_fuel(login_run, 5);
    let two = seq![greeted, ready];
    let three = two.push(switch);
    assert(seq![greeted, ready, ok].drop_last() =~= two);
    assert(seq![greeted, ready, switch, ok].drop_last() =~= three);
    assert(three.drop_last() =~= two);
    assert(two.drop_last() =~= seq![greeted]);
    assert(seq![greeted].drop_last() =~= Seq::<LoginEventView>::empty());
}

/// What is stated of a step is stated of the very packets, numbers and texts that go in and out.
pub proof fn law_steps_are_what_they_say(event: LoginEvent, action: LoginAction, error: LoginError)
    ensures
        match event {
            LoginEvent::Packet { seq_id, payload } => event@ matches LoginEventView::Packet {
                seq_id: number,
                payload: bytes,
            } && number == seq_id && bytes == payload@,
            LoginEvent::TlsReady => event@ is TlsReady,
        },
        match action {
            LoginAction::SendAndStartTls { seq_id, payload } => action@ matches
                LoginActionView::SendAndStartTls { seq_id: number, payload: bytes } && number
                == seq_id && bytes == payload@,
            LoginAction::Send { seq_id, payload } => action@ matches LoginActionView::Send {
                seq_id: number,
                payload: bytes,
            } && number == seq_id && bytes == payload@,
            LoginAction::Done => action@ is Done,
            LoginAction::Fail(e) => action@ == LoginActionView::Fail(e@),
        },
        match error {
            LoginError::ServerError(text) => error@ == LoginErrorView::ServerError(text@),
            LoginError::Handshake(e) => error@ == LoginErrorView::Handshake(e),
            LoginError::NoTls => error@ is NoTls,
            LoginError::EmptyResult => error@ is EmptyResult,
            LoginError::AuthFailed(text) => error@ == LoginErrorView::AuthFailed(text@),
            LoginError::UnsupportedPlugin(name) => error@ == LoginErrorView::UnsupportedPlugin(
                name@,
            ),
            LoginError::UnexpectedPacket(byte) => error@ == LoginErrorView::UnexpectedPacket(byte),
            LoginError::EmptySwitchResult => error@ is EmptySwitchResult,
            LoginError::AuthFailedAfterSwitch(text) => error@
                == LoginErrorView::AuthFailedAfterSwitch(text@),
            LoginError::UnexpectedPacketAfterSwitch(byte) => error@
                == LoginErrorView::UnexpectedPacketAfterSwitch(byte),
        },
{
}

} // verus!
