//! Serving a MySQL client: greeting it, learning as whom it wants to log in, and telling it how
//! the login at the backend went.
//!
//! The decisions are here; the caller reads and writes, and connects to the backend.

use vstd::prelude::*;
use vstd::string::StringExecFns;
use vstd::utf8::encode_utf8;

use crate::backend_config::{DbSpec, DbSpecView};
use crate::mysql_handshake::{
    auth_field, auth_field_holds, build_server_handshake, client_flags, client_handshake_of,
    handshake_response, law_client_answer_says, law_client_handshake_round_trip,
    lemma_auth_field_passed_over, lemma_client_header,
    parse_client_handshake, response_caps, server_handshake, ssl_request, ssl_request_caps,
    ClientHandshakeError, PROXY_CAPS,
};
use crate::mysql_packet::{
    build_err_packet, build_ok_packet, err_packet, err_text, law_err_packet_round_trip,
    law_packet_bytes, ok_packet, CLIENT_CONNECT_WITH_DB, CLIENT_PLUGIN_AUTH_LENENC_CLIENT_DATA,
    CLIENT_SSL,
};
use crate::text::{decimal, lemma_lossy_of_encoded};
use crate::wire::{law_field_ends_at_nul, lemma_encode_nul_free, lemma_le_value_digits};

verus! {

/// How far the service of a client has come.
#[derive(Clone, Copy, Debug, PartialEq, Eq, Structural)]
pub enum ClientState {
    /// Nothing is said yet.
    Accepted,
    /// The greeting is out.
    AwaitingResponse,
    /// The login at the backend is under way. The client's answer had this sequence number.
    Connecting { seq_id: u8 },
    /// All that follows is passed on, both ways.
    Proxying,
    Closed,
}

/// What the caller has to tell.
#[derive(Debug)]
pub enum ClientEvent {
    /// A client connected. It gets this id.
    Connected { connection_id: u32 },
    /// A packet came.
    Packet { seq_id: u8, payload: Vec<u8> },
    /// The session at the backend is open.
    BackendReady,
    /// There is no session at the backend, for this reason.
    BackendFailed { reason: String },
}

#[derive(Debug)]
pub enum ClientError {
    /// The client wants TLS to the proxy.
    SslRequested,
    Handshake(ClientHandshakeError),
    NoUsername,
    /// There is no session at the backend.
    Backend,
}

/// What the caller has to do next.
#[derive(Debug)]
pub enum ClientAction {
    /// Send this packet, then wait for one.
    Send { seq_id: u8, payload: Vec<u8> },
    /// Log in at the backend.
    Connect(DbSpec),
    /// Send this packet, then pass everything on, both ways.
    SendAndProxy { seq_id: u8, payload: Vec<u8> },
    /// Send this packet, then close the connection.
    Refuse { seq_id: u8, payload: Vec<u8>, error: ClientError },
    /// Close the connection without a word.
    Close(ClientError),
}

/// A `ClientEvent` with payloads and texts as sequences.
pub enum ClientEventView {
    Connected { connection_id: u32 },
    Packet { seq_id: u8, payload: Seq<u8> },
    BackendReady,
    BackendFailed { reason: Seq<char> },
}

impl View for ClientEvent {
    type V = ClientEventView;

    open spec fn view(&self) -> ClientEventView {
        match self {
            ClientEvent::Connected { connection_id } => ClientEventView::Connected {
                connection_id: *connection_id,
            },
            ClientEvent::Packet { seq_id, payload } => ClientEventView::Packet {
                seq_id: *seq_id,
                payload: payload@,
            },
            ClientEvent::BackendReady => ClientEventView::BackendReady,
            ClientEvent::BackendFailed { reason } => ClientEventView::BackendFailed {
                reason: reason@,
            },
        }
    }
}

/// A `ClientAction` with payloads as sequences.
pub enum ClientActionView {
    Send { seq_id: int, payload: Seq<u8> },
    Connect(DbSpecView),
    SendAndProxy { seq_id: int, payload: Seq<u8> },
    Refuse { seq_id: int, payload: Seq<u8>, error: ClientError },
    Close(ClientError),
}

impl View for ClientAction {
    type V = ClientActionView;

    open spec fn view(&self) -> ClientActionView {
        match self {
            ClientAction::Send { seq_id, payload } => ClientActionView::Send {
                seq_id: *seq_id as int,
                payload: payload@,
            },
            ClientAction::Connect(db) => ClientActionView::Connect(db@),
            ClientAction::SendAndProxy { seq_id, payload } => ClientActionView::SendAndProxy {
                seq_id: *seq_id as int,
                payload: payload@,
            },
            ClientAction::Refuse { seq_id, payload, error } => ClientActionView::Refuse {
                seq_id: *seq_id as int,
                payload: payload@,
                error: *error,
            },
            ClientAction::Close(error) => ClientActionView::Close(*error),
        }
    }
}

/// Whether a client's first packet is a request for TLS: 32 bytes, with CLIENT_SSL set. The proxy
/// takes no TLS from clients; TLS is only on the way from the proxy to the database.
pub open spec fn is_ssl_request(payload: Seq<u8>) -> bool {
    payload.len() == 32 && client_flags(payload) & CLIENT_SSL != 0
}

/// The packet that refuses TLS.
pub open spec fn ssl_refusal() -> Seq<u8> {
    err_packet(1045, "28000"@, "SSL not supported by proxy (connect without --ssl)"@)
}

/// The packet that refuses a client without a username.
pub open spec fn username_refusal() -> Seq<u8> {
    err_packet(1045, "28000"@, "Username is required"@)
}

/// The packet that says why there is no session at the backend.
pub open spec fn backend_refusal(reason: Seq<char>) -> Seq<u8> {
    err_packet(2003, "HY000"@, "Backend connection failed: "@ + reason)
}

/// What follows a client's answer to the greeting.
pub open spec fn after_response(seq_id: u8, payload: Seq<u8>) -> (ClientState, ClientActionView) {
    if is_ssl_request(payload) {
        (
            ClientState::Closed,
            ClientActionView::Refuse {
                seq_id: seq_id + 1,
                payload: ssl_refusal(),
                error: ClientError::SslRequested,
            },
        )
    } else {
        match client_handshake_of(payload) {
            Err(e) => (ClientState::Closed, ClientActionView::Close(ClientError::Handshake(e))),
            Ok((username, database, _)) => if username.len() == 0 {
                (
                    ClientState::Closed,
                    ClientActionView::Refuse {
                        seq_id: seq_id + 1,
                        payload: username_refusal(),
                        error: ClientError::NoUsername,
                    },
                )
            } else {
                (
                    ClientState::Connecting { seq_id },
                    ClientActionView::Connect(DbSpecView { user: username, database }),
                )
            },
        }
    }
}

/// One step in the service of a client. In a state that does not wait for the event, nothing is
/// defined.
pub open spec fn client_step(state: ClientState, event: ClientEventView) -> (
    ClientState,
    ClientActionView,
) {
    match (state, event) {
        (ClientState::Accepted, ClientEventView::Connected { connection_id }) => (
            ClientState::AwaitingResponse,
            ClientActionView::Send { seq_id: 0, payload: server_handshake(connection_id) },
        ),
        (ClientState::AwaitingResponse, ClientEventView::Packet { seq_id, payload }) =>
            after_response(seq_id, payload),
        (ClientState::Connecting { seq_id }, ClientEventView::BackendReady) => (
            ClientState::Proxying,
            ClientActionView::SendAndProxy { seq_id: seq_id + 1, payload: ok_packet() },
        ),
        (ClientState::Connecting { seq_id }, ClientEventView::BackendFailed { reason }) => (
            ClientState::Closed,
            ClientActionView::Refuse {
                seq_id: seq_id + 1,
                payload: backend_refusal(reason),
                error: ClientError::Backend,
            },
        ),
        _ => arbitrary(),
    }
}

/// Whether the service of a client in this state waits for this event.
pub open spec fn expects(state: ClientState, event: ClientEventView) -> bool {
    match (state, event) {
        (ClientState::Accepted, ClientEventView::Connected { .. }) => true,
        (ClientState::AwaitingResponse, ClientEventView::Packet { .. }) => true,
        (ClientState::Connecting { .. }, ClientEventView::BackendReady) => true,
        (ClientState::Connecting { .. }, ClientEventView::BackendFailed { .. }) => true,
        _ => false,
    }
}

/// Whether the packet that a step sends, if it sends one, has a number that fits a byte.
pub open spec fn step_fits(state: ClientState, event: ClientEventView) -> bool {
    match client_step(state, event).1 {
        ClientActionView::SendAndProxy { seq_id, .. } => seq_id <= 255,
        ClientActionView::Refuse { seq_id, .. } => seq_id <= 255,
        _ => true,
    }
}

/// Decides the next step in the service of a MySQL client:
/// 1. Send the greeting to the client
/// 2. Receive the client's handshake response (extract username/database)
/// 3. Connect to the backend
/// 4. Send OK to the client
/// 5. Pass on all that follows, both ways
pub fn mysql_handle_client(state: ClientState, event: ClientEvent) -> (step: (
    ClientState,
    ClientAction,
))
    requires
        expects(state, event@),
        step_fits(state, event@),
    ensures
        (step.0, step.1@) == client_step(state, event@),
{
    match (state, event) {
        (ClientState::Accepted, ClientEvent::Connected { connection_id }) => {
            let handshake = build_server_handshake(connection_id);
            (ClientState::AwaitingResponse, ClientAction::Send { seq_id: 0, payload: handshake })
        },
        (ClientState::AwaitingResponse, ClientEvent::Packet { seq_id, payload }) =>
            response_received(seq_id, &payload),
        (ClientState::Connecting { seq_id }, ClientEvent::BackendReady) => (
            ClientState::Proxying,
            ClientAction::SendAndProxy { seq_id: seq_id + 1, payload: build_ok_packet() },
        ),
        (ClientState::Connecting { seq_id }, ClientEvent::BackendFailed { reason }) => {
            let mut err_msg = "Backend connection failed: ".to_owned();
            err_msg.append(reason.as_str());
            let err = build_err_packet(2003, "HY000", err_msg.as_str());
            (
                ClientState::Closed,
                ClientAction::Refuse {
                    seq_id: seq_id + 1,
                    payload: err,
                    error: ClientError::Backend,
                },
            )
        },
        _ => vstd::pervasive::unreached(),
    }
}

/// Takes the next step in the service of a MySQL client, if it can be taken: if it is the event's
/// turn, and what the step would send can be numbered.
pub fn try_mysql_handle_client(state: ClientState, event: ClientEvent) -> (step: Option<
    (ClientState, ClientAction),
>)
    ensures
        match step {
            Some((next, action)) => {
                &&& expects(state, event@)
                &&& step_fits(state, event@)
                &&& (next, action@) == client_step(state, event@)
            },
            None => !(expects(state, event@) && step_fits(state, event@)),
        },
{
    if can_step(state, &event) {
        Some(mysql_handle_client(state, event))
    } else {
        None
    }
}

/// Tells whether a step can be taken.
fn can_step(state: ClientState, event: &ClientEvent) -> (can: bool)
    ensures
        can <==> expects(state, event@) && step_fits(state, event@),
{
    match (state, event) {
        (ClientState::Accepted, ClientEvent::Connected { .. }) => true,
        (ClientState::AwaitingResponse, ClientEvent::Packet { seq_id, payload }) => {
            *seq_id < 255 || (!ssl_requested(payload) && match parse_client_handshake(payload) {
                Ok((username, _, _)) => !username.as_str().is_empty(),
                Err(_) => true,
            })
        },
        (ClientState::Connecting { seq_id }, ClientEvent::BackendReady) => seq_id < 255,
        (ClientState::Connecting { seq_id }, ClientEvent::BackendFailed { .. }) => seq_id < 255,
        _ => false,
    }
}

/// Tells whether a client's first packet is a request for TLS.
fn ssl_requested(payload: &Vec<u8>) -> (requested: bool)
    ensures
        requested == is_ssl_request(payload@),
{
    if payload.len() != 32 {
        return false;
    }
    let flags: u32 = payload[0] as u32 + payload[1] as u32 * 256 + payload[2] as u32 * 65536
        + payload[3] as u32 * 16777216;
    proof {
        lemma_le_value_digits(payload@.take(4));
    }
    flags & CLIENT_SSL != 0
}

/// The client's answer to the greeting came.
fn response_received(seq_id: u8, payload: &Vec<u8>) -> (step: (ClientState, ClientAction))
    requires
        after_response(seq_id, payload@).1 is Refuse ==> seq_id < 255,
    ensures
        (step.0, step.1@) == after_response(seq_id, payload@),
{
    if ssl_requested(payload) {
        let err = build_err_packet(
            1045,
            "28000",
            "SSL not supported by proxy (connect without --ssl)",
        );
        return (
            ClientState::Closed,
            ClientAction::Refuse {
                seq_id: seq_id + 1,
                payload: err,
                error: ClientError::SslRequested,
            },
        );
    }
    let (username, database, _client_flags) = match parse_client_handshake(payload) {
        Ok(parsed) => parsed,
        Err(e) => {
            return (ClientState::Closed, ClientAction::Close(ClientError::Handshake(e)));
        },
    };
    if username.as_str().is_empty() {
        let err = build_err_packet(1045, "28000", "Username is required");
        return (
            ClientState::Closed,
            ClientAction::Refuse {
                seq_id: seq_id + 1,
                payload: err,
                error: ClientError::NoUsername,
            },
        );
    }
    let db_spec = DbSpec::new(username, database);
    (ClientState::Connecting { seq_id }, ClientAction::Connect(db_spec))
}

// ---------------------------------------------------------------------------
// What holds of every client
// ---------------------------------------------------------------------------

/// A refusal tells the client why: each of the three packets reads back as its number and its
/// text.
pub proof fn law_refusals_say_why(reason: Seq<char>)
    ensures
        err_text(ssl_refusal()) == "Error "@ + decimal(1045) + ": "@
            + "SSL not supported by proxy (connect without --ssl)"@,
        err_text(username_refusal()) == "Error "@ + decimal(1045) + ": "@ + "Username is required"@,
        err_text(backend_refusal(reason)) == "Error "@ + decimal(2003) + ": "@ + (
        "Backend connection failed: "@ + reason),
{
    broadcast use vstd::utf8::group_utf8_lib;

    reveal_strlit("28000");
    reveal_strlit("HY000");
    vstd::utf8::is_ascii_chars_encode_utf8("28000"@);
    vstd::utf8::is_ascii_chars_encode_utf8("HY000"@);
    law_err_packet_round_trip(
        1045,
        "28000"@,
        "SSL not supported by proxy (connect without --ssl)"@,
    );
    law_err_packet_round_trip(1045, "28000"@, "Username is required"@);
    law_err_packet_round_trip(2003, "HY000"@, "Backend connection failed: "@ + reason);
}

/// A request for TLS, as the proxy itself makes it, is refused with the packet that says so, and
/// nothing else of it is read.
pub proof fn law_ssl_request_is_refused(server_caps: u32, seq_id: u8)
    ensures
        client_step(
            ClientState::AwaitingResponse,
            ClientEventView::Packet { seq_id, payload: ssl_request(server_caps) },
        ) == (
            ClientState::Closed,
            ClientActionView::Refuse {
                seq_id: seq_id + 1,
                payload: ssl_refusal(),
                error: ClientError::SslRequested,
            },
        ),
{
    lemma_client_header(ssl_request_caps(server_caps));
    assert(ssl_request_caps(server_caps) & CLIENT_SSL != 0) by (bit_vector);
}

/// A client that answers the proxy's greeting with a well-formed handshake response is logged in
/// as the user it named, on the database it named. Names with a NUL character cannot be written,
/// and a password is at most 2^24 - 2 bytes long.
pub proof fn law_client_gets_what_it_asked_for(
    seq_id: u8,
    username: Seq<char>,
    password: Seq<char>,
    database: Seq<char>,
)
    requires
        username.len() > 0,
        !username.contains('\0'),
        !database.contains('\0'),
        encode_utf8(password).len() + 1 < 0x100_0000,
    ensures
        client_step(
            ClientState::AwaitingResponse,
            ClientEventView::Packet {
                seq_id,
                payload: handshake_response(PROXY_CAPS, username, password, database),
            },
        ) == (
            ClientState::Connecting { seq_id },
            ClientActionView::Connect(DbSpecView { user: username, database }),
        ),
{
    let payload = handshake_response(PROXY_CAPS, username, password, database);
    assert(response_caps(PROXY_CAPS) & CLIENT_CONNECT_WITH_DB != 0) by (bit_vector);
    assert(response_caps(PROXY_CAPS) & CLIENT_PLUGIN_AUTH_LENENC_CLIENT_DATA != 0) by (bit_vector);
    law_client_handshake_round_trip(PROXY_CAPS, username, password, database);
    lemma_client_header(response_caps(PROXY_CAPS));
    assert(payload.len() > 32);
}

/// The state that the service of a client is in after these events.
pub open spec fn client_run(events: Seq<ClientEventView>) -> ClientState
    decreases events.len(),
{
    if events.len() == 0 {
        ClientState::Accepted
    } else {
        client_step(client_run(events.drop_last()), events.last()).0
    }
}

/// Whether each of these events came in its turn.
pub open spec fn in_turn(events: Seq<ClientEventView>) -> bool
    decreases events.len(),
{
    events.len() > 0 ==> {
        &&& in_turn(events.drop_last())
        &&& expects(client_run(events.drop_last()), events.last())
    }
}

/// Whether an event is an answer that names a user and asks for no TLS.
pub open spec fn names_user(event: ClientEventView) -> bool {
    &&& event matches ClientEventView::Packet { payload, .. }
    &&& !is_ssl_request(payload)
    &&& client_handshake_of(payload) matches Ok((username, _, _))
    &&& username.len() > 0
}

/// The only way to each state.
proof fn lemma_client_path(events: Seq<ClientEventView>)
    requires
        in_turn(events),
    ensures
        match client_run(events) {
            ClientState::Accepted => events.len() == 0,
            ClientState::AwaitingResponse => events.len() == 1,
            ClientState::Connecting { .. } => events.len() == 2 && names_user(events[1]),
            ClientState::Proxying => events.len() == 3 && names_user(events[1])
                && events[2] is BackendReady,
            ClientState::Closed => 2 <= events.len() <= 3,
        },
    decreases events.len(),
{
    if events.len() > 0 {
        lemma_client_path(events.drop_last());
    }
}

/// Traffic is passed on only for a client that named a user and asked for no TLS, and only once
/// the session at the backend is open.
pub proof fn law_proxying_needs_backend(events: Seq<ClientEventView>)
    requires
        in_turn(events),
        client_run(events) == ClientState::Proxying,
    ensures
        events.len() == 3,
        names_user(events[1]),
        events[2] is BackendReady,
{
    lemma_client_path(events);
}

/// A client is greeted as soon as it connects: with the proxy's greeting for the id that it got, in
/// a packet with the number zero.
pub proof fn law_client_is_greeted(connection_id: u32)
    ensures
        client_step(ClientState::Accepted, ClientEventView::Connected { connection_id }) == (
            ClientState::AwaitingResponse,
            ClientActionView::Send { seq_id: 0, payload: server_handshake(connection_id) },
        ),
{
}

/// What a client's answer leads to. An answer of just 32 bytes that asks for TLS is refused. Of any
/// other answer, the user and the database that it names, by whatever flags, are the ones that are
/// logged in; an answer without a username is refused, and one that cannot be read ends the
/// service. A refusal is numbered one above the answer.
pub proof fn law_answer_decides(seq_id: u8, payload: Seq<u8>)
    ensures
        ({
            let event = ClientEventView::Packet { seq_id, payload };
            let (next, action) = client_step(ClientState::AwaitingResponse, event);
            let flags = (payload[0] + 256 * payload[1] + 65536 * payload[2] + 16777216
                * payload[3]) as u32;
            if payload.len() == 32 && flags & 0x0800 != 0 {
                &&& next == ClientState::Closed
                &&& action == ClientActionView::Refuse {
                    seq_id: seq_id + 1,
                    payload: err_packet(
                        1045,
                        "28000"@,
                        "SSL not supported by proxy (connect without --ssl)"@,
                    ),
                    error: ClientError::SslRequested,
                }
            } else {
                match client_handshake_of(payload) {
                    Err(e) => {
                        &&& next == ClientState::Closed
                        &&& action == ClientActionView::Close(ClientError::Handshake(e))
                    },
                    Ok((username, database, _)) => if username.len() == 0 {
                        &&& next == ClientState::Closed
                        &&& action == ClientActionView::Refuse {
                            seq_id: seq_id + 1,
                            payload: err_packet(1045, "28000"@, "Username is required"@),
                            error: ClientError::NoUsername,
                        }
                    } else {
                        &&& next == ClientState::Connecting { seq_id }
                        &&& action matches ClientActionView::Connect(db)
                        &&& db.user == username
                        &&& db.database == database
                    },
                }
            }
        }),
{
    if payload.len() >= 4 {
        lemma_le_value_digits(payload.take(4));
    }
}

/// A client that names no database gets none: where the flags do not say that there is a database,
/// whatever follows the auth data, the user is logged in without one.
pub proof fn law_no_database_unless_named(
    seq_id: u8,
    header: Seq<u8>,
    username: Seq<char>,
    behind: Seq<u8>,
)
    requires
        header.len() == 32,
        header[0] & 0x08 == 0,
        username.len() > 0,
        !username.contains('\0'),
    ensures
        ({
            let payload = header + encode_utf8(username).push(0) + behind;
            let event = ClientEventView::Packet { seq_id, payload };
            client_step(ClientState::AwaitingResponse, event).1 matches ClientActionView::Connect(
                db,
            ) ==> db.user == username && db.database == Seq::<char>::empty()
        }),
{
    let payload = header + encode_utf8(username).push(0) + behind;
    lemma_encode_nul_free(username);
    law_client_answer_says(header, encode_utf8(username), behind);
    lemma_lossy_of_encoded(username);
    lemma_database_flag(header);
    lemma_le_value_digits(header.take(4));
    assert(payload.len() > 32);
    law_answer_decides(seq_id, payload);
}

/// How the login at the backend went is told to the client in one packet, numbered one above its
/// answer: OK, or why not.
pub proof fn law_client_is_told(seq_id: u8, reason: Seq<char>)
    ensures
        client_step(ClientState::Connecting { seq_id }, ClientEventView::BackendReady) == (
            ClientState::Proxying,
            ClientActionView::SendAndProxy {
                seq_id: seq_id + 1,
                payload: seq![0u8, 0, 0, 2, 0, 0, 0],
            },
        ),
        client_step(
            ClientState::Connecting { seq_id },
            ClientEventView::BackendFailed { reason },
        ) == (
            ClientState::Closed,
            ClientActionView::Refuse {
                seq_id: seq_id + 1,
                payload: err_packet(2003, "HY000"@, "Backend connection failed: "@ + reason),
                error: ClientError::Backend,
            },
        ),
{
    law_packet_bytes(2003, "HY000"@, reason);
}

/// Every event is taken in its turn, and a step can be taken if a packet above the last one can be
/// numbered; also if not, where none is sent.
pub proof fn law_steps_can_be_taken(
    connection_id: u32,
    seq_id: u8,
    payload: Seq<u8>,
    reason: Seq<char>,
)
    ensures
        ({
            let connected = ClientEventView::Connected { connection_id };
            let packet = ClientEventView::Packet { seq_id, payload };
            let ready = ClientEventView::BackendReady;
            let broken = ClientEventView::BackendFailed { reason };
            let connecting = ClientState::Connecting { seq_id };
            &&& expects(ClientState::Accepted, connected)
            &&& step_fits(ClientState::Accepted, connected)
            &&& !expects(ClientState::Accepted, packet) && !expects(ClientState::Accepted, ready)
            &&& !expects(ClientState::Accepted, broken)
            &&& expects(ClientState::AwaitingResponse, packet)
            &&& step_fits(ClientState::AwaitingResponse, packet) <==> (seq_id < 255 || !(
            client_step(ClientState::AwaitingResponse, packet).1 is Refuse))
            &&& !expects(ClientState::AwaitingResponse, connected)
            &&& !expects(ClientState::AwaitingResponse, ready)
            &&& !expects(ClientState::AwaitingResponse, broken)
            &&& expects(connecting, ready) && expects(connecting, broken)
            &&& !expects(connecting, connected) && !expects(connecting, packet)
            &&& step_fits(connecting, ready) <==> seq_id < 255
            &&& step_fits(connecting, broken) <==> seq_id < 255
            &&& !expects(ClientState::Proxying, connected)
            &&& !expects(ClientState::Proxying, packet)
            &&& !expects(ClientState::Proxying, ready) && !expects(ClientState::Proxying, broken)
            &&& !expects(ClientState::Closed, connected) && !expects(ClientState::Closed, packet)
            &&& !expects(ClientState::Closed, ready) && !expects(ClientState::Closed, broken)
        }),
{
}

/// Every client is logged in as the user that it names, on the database that it names: whatever its
/// flags, its auth data and what follows the database. Where its flags say that it names no
/// database, there is none.
pub proof fn law_every_client_gets_what_it_asked_for(
    seq_id: u8,
    header: Seq<u8>,
    username: Seq<char>,
    auth: Seq<u8>,
    database: Seq<char>,
    more: Seq<u8>,
)
    requires
        header.len() == 32,
        username.len() > 0,
        !username.contains('\0'),
        !database.contains('\0'),
        auth_field_holds(client_flags(header), auth),
    ensures
        ({
            let payload = header + encode_utf8(username).push(0) + auth_field(
                client_flags(header),
                auth,
            ) + (encode_utf8(database).push(0) + more);
            let event = ClientEventView::Packet { seq_id, payload };
            let (next, action) = client_step(ClientState::AwaitingResponse, event);
            &&& next == ClientState::Connecting { seq_id }
            &&& action matches ClientActionView::Connect(db)
            &&& db.user == username
            &&& db.database == (if header[0] & 0x08 == 0 {
                Seq::<char>::empty()
            } else {
                database
            })
        }),
{
    let rest = encode_utf8(database).push(0) + more;
    let payload = header + encode_utf8(username).push(0) + auth_field(client_flags(header), auth)
        + rest;
    lemma_encode_nul_free(username);
    lemma_encode_nul_free(database);
    lemma_auth_field_passed_over(header, encode_utf8(username), auth, rest);
    law_field_ends_at_nul(encode_utf8(database), more);
    lemma_lossy_of_encoded(username);
    lemma_lossy_of_encoded(database);
    assert(payload.len() > 32);
    lemma_database_flag(header);
}

/// Whether a client names a database is said in its first byte.
proof fn lemma_database_flag(header: Seq<u8>)
    requires
        header.len() == 32,
    ensures
        client_flags(header) & CLIENT_CONNECT_WITH_DB == 0 <==> header[0] & 0x08 == 0,
{
    let b0 = header[0];
    let b1 = header[1];
    let b2 = header[2];
    let b3 = header[3];
    lemma_le_value_digits(header.take(4));
    assert(((b0 + 256 * b1 + 65536 * b2 + 16777216 * b3) as u32) & 0x0008 == 0 <==> b0 & 0x08 == 0)
        by (bit_vector);
}

/// What is stated of a step is stated of the very packets, numbers and texts that go in and out.
pub proof fn law_steps_are_what_they_say(event: ClientEvent, action: ClientAction)
    ensures
        match event {
            ClientEvent::Connected { connection_id } => event@ == ClientEventView::Connected {
                connection_id,
            },
            ClientEvent::Packet { seq_id, payload } => event@ matches ClientEventView::Packet {
                seq_id: number,
                payload: bytes,
            } && number == seq_id && bytes == payload@,
            ClientEvent::BackendReady => event@ is BackendReady,
            ClientEvent::BackendFailed { reason } => event@ matches ClientEventView::BackendFailed {
                reason: text,
            } && text == reason@,
        },
        match action {
            ClientAction::Send { seq_id, payload } => action@ matches ClientActionView::Send {
                seq_id: number,
                payload: bytes,
            } && number == seq_id && bytes == payload@,
            ClientAction::Connect(db) => action@ == ClientActionView::Connect(db@),
            ClientAction::SendAndProxy { seq_id, payload } => action@ matches
                ClientActionView::SendAndProxy { seq_id: number, payload: bytes } && number
                == seq_id && bytes == payload@,
            ClientAction::Refuse { seq_id, payload, error } => action@ matches
                ClientActionView::Refuse { seq_id: number, payload: bytes, error: why } && number
                == seq_id && bytes == payload@ && why == error,
            ClientAction::Close(error) => action@ == ClientActionView::Close(error),
        },
{
}

} // verus!
