//! Logging in to a PostgreSQL server with an IAM token.
//!
//! The server asks for the token in the clear, or for a SCRAM-SHA-256 exchange. The decisions are
//! here; the caller reads and writes.

use std::io::Error as IoError;

use bytes::{Bytes, BytesMut};
use postgres_protocol::authentication::sasl::ScramSha256;
use vstd::prelude::*;
use vstd::utf8::encode_utf8;

use crate::backend_config::{DbSpec, DbSpecView};
use crate::buffer::{buf_bytes, buf_freeze, buf_new, buf_slice, shared_bytes};
use crate::postgres_wire::{
    claimed_length_fits, first_message, law_first_message_is_read_alone, length_claim_fits,
    length_fits, mechanisms_of, message_fault, offers, parse_message, password_frame,
    put_password_message, put_sasl_initial_response, put_sasl_response, sasl_initial_frame,
    sasl_response_frame, sized, unwritable, BackendMessage, BackendMessageView, Reading,
};
use crate::scram::{
    client_first_message, exchange, is_client_nonce, prepared, scram_answer, scram_finish,
    scram_message, scram_open, scram_update, scram_verdict, Exchange,
};
use crate::text::{io_text, text_lossy, utf8_lossy};
use crate::wire::{be_i32, cstr, lemma_be_bytes_len, lemma_encode_nul_free, nul_free};

verus! {

/// How far a login has come.
pub enum PgLoginState {
    /// Nothing is said yet.
    Start,
    /// The startup message is out.
    AwaitingRequest,
    /// An exchange is opened.
    AwaitingChallenge(ScramSha256),
    /// The challenge is answered.
    AwaitingVerdict(ScramSha256),
    Done,
    Failed,
}

/// A `PgLoginState` with what its exchange holds.
pub enum PgLoginStateView {
    Start,
    AwaitingRequest,
    AwaitingChallenge(Exchange),
    AwaitingVerdict(Exchange),
    Done,
    Failed,
}

impl View for PgLoginState {
    type V = PgLoginStateView;

    open spec fn view(&self) -> PgLoginStateView {
        match self {
            PgLoginState::Start => PgLoginStateView::Start,
            PgLoginState::AwaitingRequest => PgLoginStateView::AwaitingRequest,
            PgLoginState::AwaitingChallenge(scram) => PgLoginStateView::AwaitingChallenge(
                exchange(*scram),
            ),
            PgLoginState::AwaitingVerdict(scram) => PgLoginStateView::AwaitingVerdict(
                exchange(*scram),
            ),
            PgLoginState::Done => PgLoginStateView::Done,
            PgLoginState::Failed => PgLoginStateView::Failed,
        }
    }
}

impl PgLoginStateView {
    /// The exchange is as far as the login.
    pub open spec fn well_formed(self) -> bool {
        match self {
            PgLoginStateView::AwaitingChallenge(exchange) => exchange is Opened,
            PgLoginStateView::AwaitingVerdict(exchange) => exchange is Answered,
            _ => true,
        }
    }
}

/// What the caller has to tell.
#[derive(Debug)]
pub enum PgLoginEvent {
    /// The connection is open and encrypted.
    Begin,
    /// Bytes came.
    Message(BytesMut),
    /// The server closed the connection.
    Closed,
}

/// A `PgLoginEvent` with bytes as sequences.
pub enum PgLoginEventView {
    Begin,
    Message(Seq<u8>),
    Closed,
}

impl View for PgLoginEvent {
    type V = PgLoginEventView;

    open spec fn view(&self) -> PgLoginEventView {
        match self {
            PgLoginEvent::Begin => PgLoginEventView::Begin,
            PgLoginEvent::Message(bytes) => PgLoginEventView::Message(buf_bytes(*bytes)),
            PgLoginEvent::Closed => PgLoginEventView::Closed,
        }
    }
}

#[derive(Debug)]
pub enum PgLoginError {
    /// The startup message cannot be written.
    Startup(IoError),
    ClosedBeforeAuth,
    ClosedDuringSasl,
    ClosedDuringSaslFinal,
    /// The server's message is malformed.
    Malformed(IoError),
    /// The token cannot be written as a password message.
    Password(IoError),
    /// The server's offer of mechanisms is malformed.
    Mechanisms(IoError),
    ScramNotOffered,
    ExpectedSaslContinue,
    /// There is no answer to the server's challenge.
    ScramUpdate(IoError),
    /// The answer to the challenge cannot be written.
    Response(IoError),
    /// The server did not show that it knows the token.
    ScramFinish(IoError),
    /// The server answered the exchange with an error: this.
    ErrorAfterSasl(String),
    /// The server ended the exchange with something else: these are its first bytes.
    ExpectedSaslFinal(Vec<u8>),
    /// The server answered the startup message with an error; this is how what came behind the
    /// error begins.
    ErrorDuringAuth(Vec<u8>),
    UnsupportedMethod,
}

/// A `PgLoginError` with texts and bytes as sequences, and with what the outside errors say.
pub enum PgLoginErrorView {
    Startup(Seq<char>),
    ClosedBeforeAuth,
    ClosedDuringSasl,
    ClosedDuringSaslFinal,
    Malformed(Seq<char>),
    Password(Seq<char>),
    Mechanisms(Seq<char>),
    ScramNotOffered,
    ExpectedSaslContinue,
    ScramUpdate(Seq<char>),
    Response(Seq<char>),
    ScramFinish(Seq<char>),
    ErrorAfterSasl(Seq<char>),
    ExpectedSaslFinal(Seq<u8>),
    ErrorDuringAuth(Seq<u8>),
    UnsupportedMethod,
}

impl View for PgLoginError {
    type V = PgLoginErrorView;

    open spec fn view(&self) -> PgLoginErrorView {
        match self {
            PgLoginError::Startup(e) => PgLoginErrorView::Startup(io_text(*e)),
            PgLoginError::ClosedBeforeAuth => PgLoginErrorView::ClosedBeforeAuth,
            PgLoginError::ClosedDuringSasl => PgLoginErrorView::ClosedDuringSasl,
            PgLoginError::ClosedDuringSaslFinal => PgLoginErrorView::ClosedDuringSaslFinal,
            PgLoginError::Malformed(e) => PgLoginErrorView::Malformed(io_text(*e)),
            PgLoginError::Password(e) => PgLoginErrorView::Password(io_text(*e)),
            PgLoginError::Mechanisms(e) => PgLoginErrorView::Mechanisms(io_text(*e)),
            PgLoginError::ScramNotOffered => PgLoginErrorView::ScramNotOffered,
            PgLoginError::ExpectedSaslContinue => PgLoginErrorView::ExpectedSaslContinue,
            PgLoginError::ScramUpdate(e) => PgLoginErrorView::ScramUpdate(io_text(*e)),
            PgLoginError::Response(e) => PgLoginErrorView::Response(io_text(*e)),
            PgLoginError::ScramFinish(e) => PgLoginErrorView::ScramFinish(io_text(*e)),
            PgLoginError::ErrorAfterSasl(text) => PgLoginErrorView::ErrorAfterSasl(text@),
            PgLoginError::ExpectedSaslFinal(bytes) => PgLoginErrorView::ExpectedSaslFinal(bytes@),
            PgLoginError::ErrorDuringAuth(bytes) => PgLoginErrorView::ErrorDuringAuth(bytes@),
            PgLoginError::UnsupportedMethod => PgLoginErrorView::UnsupportedMethod,
        }
    }
}

/// What the caller has to do next.
#[derive(Debug)]
pub enum PgLoginAction {
    /// Send this, then wait for more.
    Send(Bytes),
    /// Send this; the login is done.
    SendAndFinish(Bytes),
    /// The login is done.
    Finish,
    Fail(PgLoginError),
}

/// A `PgLoginAction` with bytes as sequences.
pub enum PgLoginActionView {
    Send(Seq<u8>),
    SendAndFinish(Seq<u8>),
    Finish,
    Fail(PgLoginErrorView),
}

impl View for PgLoginAction {
    type V = PgLoginActionView;

    open spec fn view(&self) -> PgLoginActionView {
        match self {
            PgLoginAction::Send(bytes) => PgLoginActionView::Send(shared_bytes(*bytes)),
            PgLoginAction::SendAndFinish(bytes) => PgLoginActionView::SendAndFinish(
                shared_bytes(*bytes),
            ),
            PgLoginAction::Finish => PgLoginActionView::Finish,
            PgLoginAction::Fail(e) => PgLoginActionView::Fail(e@),
        }
    }
}

/// A step that ends the login without a session.
pub open spec fn failed(error: PgLoginErrorView) -> (PgLoginStateView, PgLoginActionView) {
    (PgLoginStateView::Failed, PgLoginActionView::Fail(error))
}

/// No more than the first 128 bytes.
pub open spec fn excerpt(bytes: Seq<u8>) -> Seq<u8> {
    if bytes.len() <= 128 {
        bytes
    } else {
        bytes.take(128)
    }
}

/// The first step: the startup message, if it can be written.
pub open spec fn after_begin(db: DbSpecView) -> (PgLoginStateView, PgLoginActionView) {
    match db.startup_fault() {
        Some(fault) => failed(PgLoginErrorView::Startup(fault)),
        None => (PgLoginStateView::AwaitingRequest, PgLoginActionView::Send(db.startup_frame())),
    }
}

/// What follows the server's request for a proof of identity. A cleartext password is sent and
/// nothing more is waited for; of the SASL mechanisms only SCRAM-SHA-256 is known. The nonce is
/// the one that a new exchange makes up.
pub open spec fn after_request(message: Seq<u8>, password: Seq<u8>, nonce: Seq<char>) -> (
    PgLoginStateView,
    PgLoginActionView,
) {
    match first_message(message) {
        Reading::Malformed => failed(PgLoginErrorView::Malformed(message_fault(message))),
        Reading::Incomplete => failed(PgLoginErrorView::UnsupportedMethod),
        Reading::Message(found, total) => match found {
            BackendMessageView::CleartextPassword => if nul_free(password) && length_fits(
                password.len() + 5,
            ) {
                (PgLoginStateView::Done, PgLoginActionView::SendAndFinish(password_frame(password)))
            } else {
                failed(PgLoginErrorView::Password(unwritable(nul_free(password))))
            },
            BackendMessageView::Sasl(offer) => match mechanisms_of(offer) {
                Err(fault) => failed(PgLoginErrorView::Mechanisms(fault)),
                Ok(names) => if names.contains("SCRAM-SHA-256"@) {
                    after_open(prepared(password), nonce)
                } else {
                    failed(PgLoginErrorView::ScramNotOffered)
                },
            },
            BackendMessageView::ErrorResponse => failed(
                PgLoginErrorView::ErrorDuringAuth(excerpt(message.skip(total))),
            ),
            _ => failed(PgLoginErrorView::UnsupportedMethod),
        },
    }
}

/// What follows the opening of an exchange with a prepared password: its first message.
pub open spec fn after_open(password: Seq<u8>, nonce: Seq<char>) -> (
    PgLoginStateView,
    PgLoginActionView,
) {
    (
        PgLoginStateView::AwaitingChallenge(Exchange::Opened { password, nonce }),
        PgLoginActionView::Send(
            sasl_initial_frame("SCRAM-SHA-256"@, client_first_message(nonce)),
        ),
    )
}

/// What follows the server's challenge.
pub open spec fn after_challenge(message: Seq<u8>, password: Seq<u8>, nonce: Seq<char>) -> (
    PgLoginStateView,
    PgLoginActionView,
) {
    match first_message(message) {
        Reading::Malformed => failed(PgLoginErrorView::Malformed(message_fault(message))),
        Reading::Message(BackendMessageView::SaslContinue(challenge), _) => match scram_answer(
            password,
            nonce,
            challenge,
        ) {
            Err(fault) => failed(PgLoginErrorView::ScramUpdate(fault)),
            Ok(answer) => if length_fits(answer.len() + 4) {
                (
                    PgLoginStateView::AwaitingVerdict(
                        Exchange::Answered { password, nonce, challenge },
                    ),
                    PgLoginActionView::Send(sasl_response_frame(answer)),
                )
            } else {
                failed(PgLoginErrorView::Response(unwritable(true)))
            },
        },
        _ => failed(PgLoginErrorView::ExpectedSaslContinue),
    }
}

/// What follows the server's last word. Some servers leave out the proof that they know the
/// password, and say at once that all is well.
pub open spec fn after_verdict(
    message: Seq<u8>,
    password: Seq<u8>,
    nonce: Seq<char>,
    challenge: Seq<u8>,
) -> (PgLoginStateView, PgLoginActionView) {
    match first_message(message) {
        Reading::Malformed => failed(PgLoginErrorView::Malformed(message_fault(message))),
        Reading::Message(BackendMessageView::SaslFinal(last_word), _) => match scram_verdict(
            password,
            nonce,
            challenge,
            last_word,
        ) {
            Ok(()) => (PgLoginStateView::Done, PgLoginActionView::Finish),
            Err(fault) => failed(PgLoginErrorView::ScramFinish(fault)),
        },
        Reading::Message(BackendMessageView::AuthenticationOk, _) => (
            PgLoginStateView::Done,
            PgLoginActionView::Finish,
        ),
        Reading::Message(BackendMessageView::ErrorResponse, _) => failed(
            PgLoginErrorView::ErrorAfterSasl(utf8_lossy(message)),
        ),
        _ => failed(PgLoginErrorView::ExpectedSaslFinal(excerpt(message))),
    }
}

/// One step of a login, where a new exchange would make up this nonce. In a state that does not
/// wait for the event, nothing is defined.
pub open spec fn login_step(
    state: PgLoginStateView,
    event: PgLoginEventView,
    db: DbSpecView,
    password: Seq<u8>,
    nonce: Seq<char>,
) -> (PgLoginStateView, PgLoginActionView) {
    match (state, event) {
        (PgLoginStateView::Start, PgLoginEventView::Begin) => after_begin(db),
        (PgLoginStateView::AwaitingRequest, PgLoginEventView::Message(message)) => after_request(
            message,
            password,
            nonce,
        ),
        (PgLoginStateView::AwaitingRequest, PgLoginEventView::Closed) => failed(
            PgLoginErrorView::ClosedBeforeAuth,
        ),
        (
            PgLoginStateView::AwaitingChallenge(
                Exchange::Opened { password: kept, nonce: made_up },
            ),
            PgLoginEventView::Message(message),
        ) => after_challenge(message, kept, made_up),
        (PgLoginStateView::AwaitingChallenge(_), PgLoginEventView::Closed) => failed(
            PgLoginErrorView::ClosedDuringSasl,
        ),
        (
            PgLoginStateView::AwaitingVerdict(
                Exchange::Answered { password: kept, nonce: made_up, challenge },
            ),
            PgLoginEventView::Message(message),
        ) => after_verdict(message, kept, made_up, challenge),
        (PgLoginStateView::AwaitingVerdict(_), PgLoginEventView::Closed) => failed(
            PgLoginErrorView::ClosedDuringSaslFinal,
        ),
        _ => arbitrary(),
    }
}

/// Whether a login in this state waits for this event.
pub open spec fn expects(state: PgLoginStateView, event: PgLoginEventView) -> bool {
    match state {
        PgLoginStateView::Start => event is Begin,
        PgLoginStateView::AwaitingRequest => !(event is Begin),
        PgLoginStateView::AwaitingChallenge(_) => !(event is Begin),
        PgLoginStateView::AwaitingVerdict(_) => !(event is Begin),
        _ => false,
    }
}

/// Whether what came and what is to be sent fit memory. The answer to a challenge adds a few bytes
/// to what came.
pub open spec fn step_fits(
    state: PgLoginStateView,
    event: PgLoginEventView,
    db: DbSpecView,
    password: Seq<u8>,
) -> bool {
    &&& event matches PgLoginEventView::Message(message) ==> claimed_length_fits(message)
    &&& match (state, event) {
        (PgLoginStateView::Start, _) => db.startup_frame().len() <= isize::MAX,
        (PgLoginStateView::AwaitingRequest, PgLoginEventView::Message(_)) => password.len() + 6
            <= isize::MAX,
        (PgLoginStateView::AwaitingChallenge(_), PgLoginEventView::Message(message)) =>
            message.len() + 52 <= isize::MAX,
        _ => true,
    }
}

/// Decides the next step of a login to a PostgreSQL server.
pub fn send_password(
    state: PgLoginState,
    event: PgLoginEvent,
    db_spec: &DbSpec,
    password: &str,
) -> (step: (PgLoginState, PgLoginAction))
    requires
        state@.well_formed(),
        expects(state@, event@),
        step_fits(state@, event@, db_spec@, encode_utf8(password@)),
    ensures
        step.0@.well_formed(),
        exists|nonce: Seq<char>|
            is_client_nonce(nonce) && (step.0@, step.1@) == #[trigger] login_step(
                state@,
                event@,
                db_spec@,
                encode_utf8(password@),
                nonce,
            ),
{
    proof {
        lemma_some_nonce();
    }
    let ghost any = some_nonce();
    let ghost before = state@;
    let ghost told = event@;
    let step = match (state, event) {
        (PgLoginState::Start, PgLoginEvent::Begin) => match db_spec.startup_message() {
            Ok(message) => (PgLoginState::AwaitingRequest, PgLoginAction::Send(message)),
            Err(e) => (PgLoginState::Failed, PgLoginAction::Fail(PgLoginError::Startup(e))),
        },
        (PgLoginState::AwaitingRequest, PgLoginEvent::Message(resp)) => {
            let ghost message = buf_bytes(resp);
            let step = request_received(resp, password);
            proof {
                let made_up = choose|nonce: Seq<char>|
                    is_client_nonce(nonce) && (step.0@, step.1@) == #[trigger] after_request(
                        message,
                        encode_utf8(password@),
                        nonce,
                    );
                assert((step.0@, step.1@) == login_step(
                    before,
                    told,
                    db_spec@,
                    encode_utf8(password@),
                    made_up,
                ));
            }
            return step;
        },
        (PgLoginState::AwaitingRequest, _) => (
            PgLoginState::Failed,
            PgLoginAction::Fail(PgLoginError::ClosedBeforeAuth),
        ),
        (PgLoginState::AwaitingChallenge(scram), PgLoginEvent::Message(resp)) => challenge_received(
            scram,
            resp,
        ),
        (PgLoginState::AwaitingChallenge(_), _) => (
            PgLoginState::Failed,
            PgLoginAction::Fail(PgLoginError::ClosedDuringSasl),
        ),
        (PgLoginState::AwaitingVerdict(scram), PgLoginEvent::Message(resp)) => verdict_received(
            scram,
            resp,
        ),
        (PgLoginState::AwaitingVerdict(_), _) => (
            PgLoginState::Failed,
            PgLoginAction::Fail(PgLoginError::ClosedDuringSaslFinal),
        ),
        _ => vstd::pervasive::unreached(),
    };
    assert((step.0@, step.1@) == login_step(before, told, db_spec@, encode_utf8(password@), any));
    step
}

/// Takes the next step of a login to a PostgreSQL server, if it can be taken: if it is the event's
/// turn, and what came and what is to be sent fit memory.
pub fn try_send_password(
    state: PgLoginState,
    event: PgLoginEvent,
    db_spec: &DbSpec,
    password: &str,
) -> (step: Option<(PgLoginState, PgLoginAction)>)
    requires
        state@.well_formed(),
    ensures
        match step {
            Some((next, action)) => {
                &&& expects(state@, event@)
                &&& step_fits(state@, event@, db_spec@, encode_utf8(password@))
                &&& next@.well_formed()
                &&& exists|nonce: Seq<char>|
                    is_client_nonce(nonce) && (next@, action@) == #[trigger] login_step(
                        state@,
                        event@,
                        db_spec@,
                        encode_utf8(password@),
                        nonce,
                    )
            },
            None => !(expects(state@, event@) && step_fits(
                state@,
                event@,
                db_spec@,
                encode_utf8(password@),
            )),
        },
{
    if can_step(&state, &event, db_spec, password) {
        Some(send_password(state, event, db_spec, password))
    } else {
        None
    }
}

/// Tells whether a step can be taken.
fn can_step(
    state: &PgLoginState,
    event: &PgLoginEvent,
    db_spec: &DbSpec,
    password: &str,
) -> (can: bool)
    ensures
        can <==> expects(state@, event@) && step_fits(
            state@,
            event@,
            db_spec@,
            encode_utf8(password@),
        ),
{
    let limit: u128 = isize::MAX as u128;
    if let PgLoginEvent::Message(bytes) = event {
        if !length_claim_fits(buf_slice(bytes)) {
            return false;
        }
    }
    match (state, event) {
        (PgLoginState::Start, PgLoginEvent::Begin) => db_spec.startup_fits(),
        (PgLoginState::AwaitingRequest, PgLoginEvent::Message(_)) => password.as_bytes().len()
            as u128 + 6 <= limit,
        (PgLoginState::AwaitingRequest, PgLoginEvent::Closed) => true,
        (PgLoginState::AwaitingChallenge(_), PgLoginEvent::Message(bytes)) => buf_slice(bytes).len()
            as u128 + 52 <= limit,
        (PgLoginState::AwaitingChallenge(_), PgLoginEvent::Closed) => true,
        (PgLoginState::AwaitingVerdict(_), PgLoginEvent::Message(_)) => true,
        (PgLoginState::AwaitingVerdict(_), PgLoginEvent::Closed) => true,
        _ => false,
    }
}

/// A nonce, for the steps in which none is made up.
spec fn some_nonce() -> Seq<char> {
    Seq::new(24, |i: int| 'a')
}

proof fn lemma_some_nonce()
    ensures
        is_client_nonce(some_nonce()),
{
}

/// A copy of no more than the first 128 bytes.
fn excerpt_of(bytes: &[u8]) -> (part: Vec<u8>)
    ensures
        part@ == excerpt(bytes@),
{
    let end: usize = if bytes.len() <= 128 {
        bytes.len()
    } else {
        128
    };
    proof {
        assert(bytes@.subrange(0, end as int) =~= excerpt(bytes@));
    }
    vstd::slice::slice_to_vec(vstd::slice::slice_subrange(bytes, 0, end))
}

/// The server's request for a proof of identity came.
fn request_received(mut resp: BytesMut, password: &str) -> (step: (PgLoginState, PgLoginAction))
    requires
        claimed_length_fits(buf_bytes(resp)),
        encode_utf8(password@).len() + 6 <= isize::MAX,
    ensures
        step.0@.well_formed(),
        exists|nonce: Seq<char>|
            is_client_nonce(nonce) && (step.0@, step.1@) == #[trigger] after_request(
                buf_bytes(resp),
                encode_utf8(password@),
                nonce,
            ),
{
    let ghost message = buf_bytes(resp);
    let ghost secret = encode_utf8(password@);
    proof {
        lemma_some_nonce();
    }
    let ghost any = some_nonce();
    let step = match parse_message(&mut resp) {
        Err(e) => (PgLoginState::Failed, PgLoginAction::Fail(PgLoginError::Malformed(e))),
        Ok(Some(BackendMessage::CleartextPassword)) => {
            proof {
                lemma_be_bytes_len(((secret.len() + 5) as int % 0x1_0000_0000) as nat, 4);
            }
            let mut pw_buf = buf_new();
            match put_password_message(password.as_bytes(), &mut pw_buf) {
                Ok(()) => {
                    proof {
                        assert(buf_bytes(pw_buf) =~= password_frame(secret));
                    }
                    (PgLoginState::Done, PgLoginAction::SendAndFinish(buf_freeze(pw_buf)))
                },
                Err(e) => (PgLoginState::Failed, PgLoginAction::Fail(PgLoginError::Password(e))),
            }
        },
        Ok(Some(BackendMessage::Sasl(body))) => {
            // Check that SCRAM-SHA-256 is offered
            match offers(&body, "SCRAM-SHA-256") {
                Err(e) => (PgLoginState::Failed, PgLoginAction::Fail(PgLoginError::Mechanisms(e))),
                Ok(false) => (
                    PgLoginState::Failed,
                    PgLoginAction::Fail(PgLoginError::ScramNotOffered),
                ),
                Ok(true) => {
                    let scram = scram_open(password.as_bytes());
                    let ghost made_up = exchange(scram)->Opened_nonce;
                    let step = open_exchange(scram);
                    assert((step.0@, step.1@) == after_request(message, secret, made_up));
                    return step;
                },
            }
        },
        Ok(Some(BackendMessage::ErrorResponse)) => (
            PgLoginState::Failed,
            PgLoginAction::Fail(PgLoginError::ErrorDuringAuth(excerpt_of(buf_slice(&resp)))),
        ),
        _ => (PgLoginState::Failed, PgLoginAction::Fail(PgLoginError::UnsupportedMethod)),
    };
    assert((step.0@, step.1@) == after_request(message, secret, any));
    step
}

/// Starts a SCRAM-SHA-256 exchange: sends its first message.
pub fn open_exchange(scram: ScramSha256) -> (step: (PgLoginState, PgLoginAction))
    requires
        exchange(scram) matches Exchange::Opened { nonce, .. } && is_client_nonce(nonce),
    ensures
        exchange(scram) matches Exchange::Opened { password, nonce } && (step.0@, step.1@)
            == after_open(password, nonce),
{
    let ghost nonce = exchange(scram)->Opened_nonce;
    proof {
        lemma_first_message_fits(nonce);
    }
    let mut sasl_buf = buf_new();
    put_sasl_initial_response("SCRAM-SHA-256", scram_message(&scram), &mut sasl_buf).unwrap();
    proof {
        assert(buf_bytes(sasl_buf) =~= sasl_initial_frame(
            "SCRAM-SHA-256"@,
            client_first_message(nonce),
        ));
    }
    (PgLoginState::AwaitingChallenge(scram), PgLoginAction::Send(buf_freeze(sasl_buf)))
}

/// The first message of an exchange is short, and the mechanism's name can be written.
proof fn lemma_first_message_fits(nonce: Seq<char>)
    requires
        is_client_nonce(nonce),
    ensures
        client_first_message(nonce).len() == 32,
        encode_utf8("SCRAM-SHA-256"@).len() == 13,
        nul_free(encode_utf8("SCRAM-SHA-256"@)),
        sasl_initial_frame("SCRAM-SHA-256"@, client_first_message(nonce)).len() == 55,
{
    broadcast use vstd::utf8::group_utf8_lib;

    reveal_strlit("n,,n=,r=");
    reveal_strlit("SCRAM-SHA-256");
    let text = "n,,n=,r="@ + nonce;
    assert(vstd::utf8::is_ascii_chars(text)) by {
        assert forall|i: int| 0 <= i < text.len() implies '\0' <= #[trigger] text[i]
            <= '\u{7f}' by {
            if i >= 8 {
                assert(text[i] == nonce[i - 8]);
            }
        }
    }
    vstd::utf8::is_ascii_chars_encode_utf8(text);
    vstd::utf8::is_ascii_chars_encode_utf8("SCRAM-SHA-256"@);
    lemma_encode_nul_free("SCRAM-SHA-256"@);
    lemma_be_bytes_len(32, 4);
    let body = cstr("SCRAM-SHA-256"@) + be_i32(32) + client_first_message(nonce);
    lemma_be_bytes_len(((body.len() + 4) as int % 0x1_0000_0000) as nat, 4);
}

/// The server's challenge came.
fn challenge_received(mut scram: ScramSha256, mut resp: BytesMut) -> (step: (
    PgLoginState,
    PgLoginAction,
))
    requires
        exchange(scram) is Opened,
        claimed_length_fits(buf_bytes(resp)),
        buf_bytes(resp).len() + 52 <= isize::MAX,
    ensures
        step.0@.well_formed(),
        exchange(scram) matches Exchange::Opened { password, nonce } && (step.0@, step.1@)
            == after_challenge(buf_bytes(resp), password, nonce),
{
    let ghost message = buf_bytes(resp);
    let ghost opened = exchange(scram);
    match parse_message(&mut resp) {
        Err(e) => (PgLoginState::Failed, PgLoginAction::Fail(PgLoginError::Malformed(e))),
        Ok(Some(BackendMessage::SaslContinue(data))) => {
            proof {
                lemma_login_data_is_part(message);
            }
            if let Err(e) = scram_update(&mut scram, data.as_slice()) {
                return (PgLoginState::Failed, PgLoginAction::Fail(PgLoginError::ScramUpdate(e)));
            }
            let ghost answer = scram_answer(
                opened->Opened_password,
                opened->Opened_nonce,
                data@,
            )->Ok_0;
            proof {
                lemma_be_bytes_len(((answer.len() + 4) as int % 0x1_0000_0000) as nat, 4);
            }
            let mut sasl_buf = buf_new();
            match put_sasl_response(scram_message(&scram), &mut sasl_buf) {
                Ok(()) => {
                    proof {
                        assert(buf_bytes(sasl_buf) =~= sasl_response_frame(answer));
                    }
                    (
                        PgLoginState::AwaitingVerdict(scram),
                        PgLoginAction::Send(buf_freeze(sasl_buf)),
                    )
                },
                Err(e) => (PgLoginState::Failed, PgLoginAction::Fail(PgLoginError::Response(e))),
            }
        },
        _ => (PgLoginState::Failed, PgLoginAction::Fail(PgLoginError::ExpectedSaslContinue)),
    }
}

/// What a message about the login carries is shorter by nine bytes than what it came in.
proof fn lemma_login_data_is_part(message: Seq<u8>)
    ensures
        first_message(message) matches Reading::Message(
            BackendMessageView::SaslContinue(data),
            _,
        ) ==> data.len() + 9 <= message.len(),
{
}

/// The server's last word came.
fn verdict_received(mut scram: ScramSha256, mut resp: BytesMut) -> (step: (
    PgLoginState,
    PgLoginAction,
))
    requires
        exchange(scram) is Answered,
        claimed_length_fits(buf_bytes(resp)),
    ensures
        step.0@.well_formed(),
        exchange(scram) matches Exchange::Answered { password, nonce, challenge } && (
            step.0@,
            step.1@,
        ) == after_verdict(buf_bytes(resp), password, nonce, challenge),
{
    let raw_snapshot = vstd::slice::slice_to_vec(buf_slice(&resp));
    match parse_message(&mut resp) {
        Err(e) => (PgLoginState::Failed, PgLoginAction::Fail(PgLoginError::Malformed(e))),
        Ok(Some(BackendMessage::SaslFinal(data))) => {
            match scram_finish(&mut scram, data.as_slice()) {
                Ok(()) => (PgLoginState::Done, PgLoginAction::Finish),
                Err(e) => (PgLoginState::Failed, PgLoginAction::Fail(PgLoginError::ScramFinish(e))),
            }
        },
        Ok(Some(BackendMessage::AuthenticationOk)) => {
            // Some servers skip SASLFinal and go straight to Ok
            (PgLoginState::Done, PgLoginAction::Finish)
        },
        Ok(Some(BackendMessage::ErrorResponse)) => (
            PgLoginState::Failed,
            PgLoginAction::Fail(
                PgLoginError::ErrorAfterSasl(text_lossy(raw_snapshot.as_slice())),
            ),
        ),
        _ => (
            PgLoginState::Failed,
            PgLoginAction::Fail(
                PgLoginError::ExpectedSaslFinal(excerpt_of(raw_snapshot.as_slice())),
            ),
        ),
    }
}

// ---------------------------------------------------------------------------
// What holds of every login
// ---------------------------------------------------------------------------

/// A login is done only when the token was sent to a server that asked for it in the clear, or
/// when a server that got the answer to its challenge either showed that it knows the token or
/// said that all is well.
pub proof fn law_ways_to_succeed(
    state: PgLoginStateView,
    event: PgLoginEventView,
    db: DbSpecView,
    password: Seq<u8>,
    nonce: Seq<char>,
)
    requires
        state.well_formed(),
        expects(state, event),
        login_step(state, event, db, password, nonce).0 is Done,
    ensures
        event matches PgLoginEventView::Message(message) && (match (state, first_message(message)) {
            (
                PgLoginStateView::AwaitingRequest,
                Reading::Message(BackendMessageView::CleartextPassword, _),
            ) => login_step(state, event, db, password, nonce).1
                == PgLoginActionView::SendAndFinish(password_frame(password)),
            (
                PgLoginStateView::AwaitingVerdict(
                    Exchange::Answered { password, nonce, challenge },
                ),
                Reading::Message(BackendMessageView::SaslFinal(last_word), _),
            ) => scram_verdict(password, nonce, challenge, last_word) is Ok,
            (
                PgLoginStateView::AwaitingVerdict(_),
                Reading::Message(BackendMessageView::AuthenticationOk, _),
            ) => true,
            _ => false,
        }),
{
}

/// A server that does not ask for the token in the clear gets nothing on its request that depends
/// on the token.
pub proof fn law_token_only_on_request(
    message: Seq<u8>,
    db: DbSpecView,
    password: Seq<u8>,
    other: Seq<u8>,
    nonce: Seq<char>,
)
    requires
        !(first_message(message) matches Reading::Message(
            BackendMessageView::CleartextPassword,
            _,
        )),
    ensures
        ({
            let state = PgLoginStateView::AwaitingRequest;
            let event = PgLoginEventView::Message(message);
            login_step(state, event, db, password, nonce).1 == login_step(
                state,
                event,
                db,
                other,
                nonce,
            ).1
        }),
{
}

/// How many steps a login can still take.
pub open spec fn steps_left(state: PgLoginStateView) -> nat {
    match state {
        PgLoginStateView::Start => 4,
        PgLoginStateView::AwaitingRequest => 3,
        PgLoginStateView::AwaitingChallenge(_) => 2,
        PgLoginStateView::AwaitingVerdict(_) => 1,
        _ => 0,
    }
}

/// A login ends: each step leads to a later state, and at the end there is a session or an error.
pub proof fn law_login_advances(
    state: PgLoginStateView,
    event: PgLoginEventView,
    db: DbSpecView,
    password: Seq<u8>,
    nonce: Seq<char>,
)
    requires
        state.well_formed(),
        expects(state, event),
    ensures
        ({
            let (next, action) = login_step(state, event, db, password, nonce);
            &&& steps_left(next) < steps_left(state)
            &&& next is Done <==> (action is Finish || action is SendAndFinish)
            &&& next is Failed <==> action is Fail
            &&& steps_left(next) > 0 <==> action is Send
        }),
{
}

/// What a login says first: the startup message for the user and the database. Names with a NUL
/// character cannot be written, and neither can a message longer than its length field can tell.
pub proof fn law_login_begins(db: DbSpecView, password: Seq<u8>, nonce: Seq<char>)
    ensures
        ({
            let (next, action) = login_step(
                PgLoginStateView::Start,
                PgLoginEventView::Begin,
                db,
                password,
                nonce,
            );
            if db.user.contains('\0') || db.database.contains('\0') {
                &&& next is Failed
                &&& action == PgLoginActionView::Fail(
                    PgLoginErrorView::Startup("string contains embedded null"@),
                )
            } else if db.startup_frame().len() > 0x7FFF_FFFF {
                &&& next is Failed
                &&& action == PgLoginActionView::Fail(
                    PgLoginErrorView::Startup("value too large to transmit"@),
                )
            } else {
                &&& next is AwaitingRequest
                &&& action == PgLoginActionView::Send(db.startup_frame())
            }
        }),
{
}

/// What the server's request leads to, by its first message alone. A request for the password in
/// the clear is answered with the token, and the login is done. An offer of SCRAM-SHA-256 is
/// answered with the first message of an exchange that holds the token, as it is prepared, and the
/// nonce that was made up. An error, and anything else, ends the login.
pub proof fn law_request_decides(
    message: Seq<u8>,
    db: DbSpecView,
    password: Seq<u8>,
    nonce: Seq<char>,
)
    ensures
        ({
            let event = PgLoginEventView::Message(message);
            let (next, action) = login_step(
                PgLoginStateView::AwaitingRequest,
                event,
                db,
                password,
                nonce,
            );
            match first_message(message) {
                Reading::Incomplete => next is Failed && action == PgLoginActionView::Fail(
                    PgLoginErrorView::UnsupportedMethod,
                ),
                Reading::Malformed => next is Failed && action == PgLoginActionView::Fail(
                    PgLoginErrorView::Malformed(message_fault(message)),
                ),
                Reading::Message(BackendMessageView::CleartextPassword, _) => if password.contains(
                    0,
                ) {
                    next is Failed && action == PgLoginActionView::Fail(
                        PgLoginErrorView::Password("string contains embedded null"@),
                    )
                } else if password.len() + 5 > 0x7FFF_FFFF {
                    next is Failed && action == PgLoginActionView::Fail(
                        PgLoginErrorView::Password("value too large to transmit"@),
                    )
                } else {
                    &&& next is Done
                    &&& action matches PgLoginActionView::SendAndFinish(sent)
                    &&& sent == seq![0x70u8] + be_i32(password.len() as int + 5) + password.push(0)
                },
                Reading::Message(BackendMessageView::Sasl(offer), _) => match mechanisms_of(offer) {
                    Err(fault) => next is Failed && action == PgLoginActionView::Fail(
                        PgLoginErrorView::Mechanisms(fault),
                    ),
                    Ok(names) => if names.contains("SCRAM-SHA-256"@) {
                        &&& next == PgLoginStateView::AwaitingChallenge(
                            Exchange::Opened { password: prepared(password), nonce },
                        )
                        &&& action matches PgLoginActionView::Send(sent)
                        &&& sent == sasl_initial_frame(
                            "SCRAM-SHA-256"@,
                            encode_utf8("n,,n=,r="@ + nonce),
                        )
                    } else {
                        next is Failed && action == PgLoginActionView::Fail(
                            PgLoginErrorView::ScramNotOffered,
                        )
                    },
                },
                Reading::Message(BackendMessageView::ErrorResponse, total) => {
                    &&& next is Failed
                    &&& action matches PgLoginActionView::Fail(
                        PgLoginErrorView::ErrorDuringAuth(shown),
                    )
                    &&& shown.is_prefix_of(message.skip(total))
                    &&& shown.len() == (if message.len() - total < 128 {
                        message.len() - total
                    } else {
                        128
                    })
                },
                Reading::Message(_, _) => next is Failed && action == PgLoginActionView::Fail(
                    PgLoginErrorView::UnsupportedMethod,
                ),
            }
        }),
{
    law_first_message_is_read_alone(message, Seq::empty());
    if let Reading::Message(_, total) = first_message(message) {
        lemma_excerpt(message.skip(total));
    }
    assert(seq!['p' as u8] + sized(password.push(0)) =~= seq![0x70u8] + be_i32(
        password.len() as int + 5,
    ) + password.push(0));
}

/// An excerpt is how bytes begin.
proof fn lemma_excerpt(bytes: Seq<u8>)
    ensures
        excerpt(bytes).is_prefix_of(bytes),
        excerpt(bytes).len() == (if bytes.len() < 128 {
            bytes.len() as int
        } else {
            128
        }),
{
    assert(excerpt(bytes) =~= bytes.subrange(0, excerpt(bytes).len() as int));
}

/// What the server's challenge leads to, by its first message alone. A challenge is answered with
/// what the exchange answers to it, and the exchange is kept with the challenge. Where there is no
/// answer, or where another message comes, the login ends.
pub proof fn law_challenge_decides(
    message: Seq<u8>,
    db: DbSpecView,
    password: Seq<u8>,
    kept: Seq<u8>,
    made_up: Seq<char>,
    nonce: Seq<char>,
)
    ensures
        ({
            let state = PgLoginStateView::AwaitingChallenge(
                Exchange::Opened { password: kept, nonce: made_up },
            );
            let event = PgLoginEventView::Message(message);
            let (next, action) = login_step(state, event, db, password, nonce);
            match first_message(message) {
                Reading::Malformed => next is Failed && action == PgLoginActionView::Fail(
                    PgLoginErrorView::Malformed(message_fault(message)),
                ),
                Reading::Message(BackendMessageView::SaslContinue(challenge), _) => {
                    match scram_answer(kept, made_up, challenge) {
                        Err(fault) => next is Failed && action == PgLoginActionView::Fail(
                            PgLoginErrorView::ScramUpdate(fault),
                        ),
                        Ok(answer) => if answer.len() + 4 > 0x7FFF_FFFF {
                            next is Failed && action == PgLoginActionView::Fail(
                                PgLoginErrorView::Response("value too large to transmit"@),
                            )
                        } else {
                            &&& next == PgLoginStateView::AwaitingVerdict(
                                Exchange::Answered { password: kept, nonce: made_up, challenge },
                            )
                            &&& action matches PgLoginActionView::Send(sent)
                            &&& sent == seq![0x70u8] + be_i32(answer.len() as int + 4) + answer
                        },
                    }
                },
                _ => next is Failed && action == PgLoginActionView::Fail(
                    PgLoginErrorView::ExpectedSaslContinue,
                ),
            }
        }),
{
    if let Reading::Message(BackendMessageView::SaslContinue(challenge), _) = first_message(
        message,
    ) {
        if let Ok(answer) = scram_answer(kept, made_up, challenge) {
            assert(sasl_response_frame(answer) =~= seq![0x70u8] + be_i32(answer.len() as int + 4)
                + answer);
        }
    }
}

/// What the server's last word leads to, by its first message alone: if it shows that the server
/// knows the token, or says that all is well, the login is done, whatever follows in the same
/// bytes. A last word that does not show it, an error, and anything else end the login.
pub proof fn law_verdict_decides(
    message: Seq<u8>,
    db: DbSpecView,
    password: Seq<u8>,
    kept: Seq<u8>,
    made_up: Seq<char>,
    challenge: Seq<u8>,
    nonce: Seq<char>,
)
    ensures
        ({
            let state = PgLoginStateView::AwaitingVerdict(
                Exchange::Answered { password: kept, nonce: made_up, challenge },
            );
            let event = PgLoginEventView::Message(message);
            let (next, action) = login_step(state, event, db, password, nonce);
            match first_message(message) {
                Reading::Malformed => next is Failed && action == PgLoginActionView::Fail(
                    PgLoginErrorView::Malformed(message_fault(message)),
                ),
                Reading::Message(BackendMessageView::SaslFinal(last_word), _) => {
                    match scram_verdict(kept, made_up, challenge, last_word) {
                        Ok(()) => next is Done && action == PgLoginActionView::Finish,
                        Err(fault) => next is Failed && action == PgLoginActionView::Fail(
                            PgLoginErrorView::ScramFinish(fault),
                        ),
                    }
                },
                Reading::Message(BackendMessageView::AuthenticationOk, _) => next is Done && action
                    == PgLoginActionView::Finish,
                Reading::Message(BackendMessageView::ErrorResponse, _) => next is Failed && action
                    == PgLoginActionView::Fail(
                    PgLoginErrorView::ErrorAfterSasl(utf8_lossy(message)),
                ),
                _ => {
                    &&& next is Failed
                    &&& action matches PgLoginActionView::Fail(
                        PgLoginErrorView::ExpectedSaslFinal(shown),
                    )
                    &&& shown.is_prefix_of(message)
                    &&& shown.len() == (if message.len() < 128 {
                        message.len() as int
                    } else {
                        128
                    })
                },
            }
        }),
{
    lemma_excerpt(message);
}

/// A server that closes the connection in the middle of a login ends it, and it is said when.
pub proof fn law_closing_ends_the_login(
    exchange: Exchange,
    db: DbSpecView,
    password: Seq<u8>,
    nonce: Seq<char>,
)
    ensures
        login_step(
            PgLoginStateView::AwaitingRequest,
            PgLoginEventView::Closed,
            db,
            password,
            nonce,
        ) == (
            PgLoginStateView::Failed,
            PgLoginActionView::Fail(PgLoginErrorView::ClosedBeforeAuth),
        ),
        login_step(
            PgLoginStateView::AwaitingChallenge(exchange),
            PgLoginEventView::Closed,
            db,
            password,
            nonce,
        ) == (
            PgLoginStateView::Failed,
            PgLoginActionView::Fail(PgLoginErrorView::ClosedDuringSasl),
        ),
        login_step(
            PgLoginStateView::AwaitingVerdict(exchange),
            PgLoginEventView::Closed,
            db,
            password,
            nonce,
        ) == (
            PgLoginStateView::Failed,
            PgLoginActionView::Fail(PgLoginErrorView::ClosedDuringSaslFinal),
        ),
{
}

/// Whether two actions are the same but for the bytes of the server that an error shows.
pub open spec fn same_but_for_excerpt(one: PgLoginActionView, other: PgLoginActionView) -> bool {
    ||| one == other
    ||| one matches PgLoginActionView::Fail(PgLoginErrorView::ErrorDuringAuth(_)) && other matches
        PgLoginActionView::Fail(PgLoginErrorView::ErrorDuringAuth(_))
    ||| one matches PgLoginActionView::Fail(PgLoginErrorView::ErrorAfterSasl(_)) && other matches
        PgLoginActionView::Fail(PgLoginErrorView::ErrorAfterSasl(_))
    ||| one matches PgLoginActionView::Fail(PgLoginErrorView::ExpectedSaslFinal(_)) && other matches
        PgLoginActionView::Fail(PgLoginErrorView::ExpectedSaslFinal(_))
}

/// A step depends on the first message of what came and not on what follows it in the same bytes:
/// a server may send its next messages along. Only an error may show more.
pub proof fn law_step_takes_one_message(
    state: PgLoginStateView,
    message: Seq<u8>,
    more: Seq<u8>,
    db: DbSpecView,
    password: Seq<u8>,
    nonce: Seq<char>,
)
    requires
        state.well_formed(),
        expects(state, PgLoginEventView::Message(message)),
        first_message(message) is Message,
    ensures
        ({
            let (next, action) = login_step(
                state,
                PgLoginEventView::Message(message),
                db,
                password,
                nonce,
            );
            let (with_more, action_with_more) = login_step(
                state,
                PgLoginEventView::Message(message + more),
                db,
                password,
                nonce,
            );
            next == with_more && same_but_for_excerpt(action, action_with_more)
        }),
{
    law_first_message_is_read_alone(message, more);
}

/// Every event is taken in its turn; and a step can be taken unless what came claims a length that
/// memory cannot hold, or what is to be sent would not fit it.
pub proof fn law_steps_can_be_taken(
    exchange: Exchange,
    message: Seq<u8>,
    db: DbSpecView,
    password: Seq<u8>,
)
    ensures
        ({
            let came = PgLoginEventView::Message(message);
            let closed = PgLoginEventView::Closed;
            let begin = PgLoginEventView::Begin;
            let request = PgLoginStateView::AwaitingRequest;
            let challenge = PgLoginStateView::AwaitingChallenge(exchange);
            let verdict = PgLoginStateView::AwaitingVerdict(exchange);
            &&& expects(PgLoginStateView::Start, begin) && !expects(PgLoginStateView::Start, came)
            &&& !expects(PgLoginStateView::Start, closed)
            &&& expects(request, came) && expects(request, closed) && !expects(request, begin)
            &&& expects(challenge, came) && expects(challenge, closed) && !expects(challenge, begin)
            &&& expects(verdict, came) && expects(verdict, closed) && !expects(verdict, begin)
            &&& !expects(PgLoginStateView::Done, came) && !expects(PgLoginStateView::Failed, came)
            &&& !expects(PgLoginStateView::Done, closed)
            &&& !expects(PgLoginStateView::Failed, closed)
            &&& !expects(PgLoginStateView::Done, begin) && !expects(PgLoginStateView::Failed, begin)
            &&& step_fits(PgLoginStateView::Start, begin, db, password)
                <==> db.startup_frame().len() <= isize::MAX
            &&& step_fits(request, came, db, password) <==> (claimed_length_fits(message)
                && password.len() + 6 <= isize::MAX)
            &&& step_fits(challenge, came, db, password) <==> (claimed_length_fits(message)
                && message.len() + 52 <= isize::MAX)
            &&& step_fits(verdict, came, db, password) <==> claimed_length_fits(message)
            &&& step_fits(request, closed, db, password)
            &&& step_fits(challenge, closed, db, password)
            &&& step_fits(verdict, closed, db, password)
        }),
{
}

/// A whole exchange with a server that knows the token: it offers SCRAM-SHA-256, it gets the answer
/// to its challenge, and its last word, with whatever follows it, is accepted. The login is done.
pub proof fn law_accepted_exchange_is_done(
    request: Seq<u8>,
    challenged: Seq<u8>,
    last: Seq<u8>,
    more: Seq<u8>,
    db: DbSpecView,
    password: Seq<u8>,
    nonce: Seq<char>,
)
    requires
        ({
            &&& first_message(request) matches Reading::Message(BackendMessageView::Sasl(offer), _)
            &&& mechanisms_of(offer) matches Ok(names)
            &&& names.contains("SCRAM-SHA-256"@)
        }),
        ({
            &&& first_message(challenged) matches Reading::Message(
                BackendMessageView::SaslContinue(challenge),
                _,
            )
            &&& scram_answer(prepared(password), nonce, challenge) matches Ok(answer)
            &&& answer.len() + 4 <= 0x7FFF_FFFF
            &&& first_message(last) matches Reading::Message(
                BackendMessageView::SaslFinal(last_word),
                _,
            )
            &&& scram_verdict(prepared(password), nonce, challenge, last_word) is Ok
        }),
    ensures
        ({
            let (opened, _) = login_step(
                PgLoginStateView::AwaitingRequest,
                PgLoginEventView::Message(request),
                db,
                password,
                nonce,
            );
            let (answered, _) = login_step(
                opened,
                PgLoginEventView::Message(challenged),
                db,
                password,
                nonce,
            );
            login_step(answered, PgLoginEventView::Message(last + more), db, password, nonce) == (
                PgLoginStateView::Done,
                PgLoginActionView::Finish,
            )
        }),
{
    law_first_message_is_read_alone(last, more);
}

/// What is stated of a step is stated of the very bytes and texts that go in and out, and of what
/// the exchange holds.
pub proof fn law_steps_are_what_they_say(
    state: PgLoginState,
    event: PgLoginEvent,
    action: PgLoginAction,
    error: PgLoginError,
)
    ensures
        match state {
            PgLoginState::Start => state@ is Start,
            PgLoginState::AwaitingRequest => state@ is AwaitingRequest,
            PgLoginState::AwaitingChallenge(scram) => state@
                == PgLoginStateView::AwaitingChallenge(exchange(scram)),
            PgLoginState::AwaitingVerdict(scram) => state@ == PgLoginStateView::AwaitingVerdict(
                exchange(scram),
            ),
            PgLoginState::Done => state@ is Done,
            PgLoginState::Failed => state@ is Failed,
        },
        state@.well_formed() <==> (match state {
            PgLoginState::AwaitingChallenge(scram) => exchange(scram) is Opened,
            PgLoginState::AwaitingVerdict(scram) => exchange(scram) is Answered,
            _ => true,
        }),
        match event {
            PgLoginEvent::Begin => event@ is Begin,
            PgLoginEvent::Message(bytes) => event@ == PgLoginEventView::Message(buf_bytes(bytes)),
            PgLoginEvent::Closed => event@ is Closed,
        },
        match action {
            PgLoginAction::Send(bytes) => action@ == PgLoginActionView::Send(shared_bytes(bytes)),
            PgLoginAction::SendAndFinish(bytes) => action@ == PgLoginActionView::SendAndFinish(
                shared_bytes(bytes),
            ),
            PgLoginAction::Finish => action@ is Finish,
            PgLoginAction::Fail(e) => action@ == PgLoginActionView::Fail(e@),
        },
        match error {
            PgLoginError::Startup(e) => error@ == PgLoginErrorView::Startup(io_text(e)),
            PgLoginError::ClosedBeforeAuth => error@ is ClosedBeforeAuth,
            PgLoginError::ClosedDuringSasl => error@ is ClosedDuringSasl,
            PgLoginError::ClosedDuringSaslFinal => error@ is ClosedDuringSaslFinal,
            PgLoginError::Malformed(e) => error@ == PgLoginErrorView::Malformed(io_text(e)),
            PgLoginError::Password(e) => error@ == PgLoginErrorView::Password(io_text(e)),
            PgLoginError::Mechanisms(e) => error@ == PgLoginErrorView::Mechanisms(io_text(e)),
            PgLoginError::ScramNotOffered => error@ is ScramNotOffered,
            PgLoginError::ExpectedSaslContinue => error@ is ExpectedSaslContinue,
            PgLoginError::ScramUpdate(e) => error@ == PgLoginErrorView::ScramUpdate(io_text(e)),
            PgLoginError::Response(e) => error@ == PgLoginErrorView::Response(io_text(e)),
            PgLoginError::ScramFinish(e) => error@ == PgLoginErrorView::ScramFinish(io_text(e)),
            PgLoginError::ErrorAfterSasl(text) => error@ == PgLoginErrorView::ErrorAfterSasl(text@),
            PgLoginError::ExpectedSaslFinal(bytes) => error@
                == PgLoginErrorView::ExpectedSaslFinal(bytes@),
            PgLoginError::ErrorDuringAuth(bytes) => error@ == PgLoginErrorView::ErrorDuringAuth(
                bytes@,
            ),
            PgLoginError::UnsupportedMethod => error@ is UnsupportedMethod,
        },
{
}

} // verus!
