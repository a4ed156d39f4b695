//! Serving a PostgreSQL client: learning as whom it wants to log in, and checking the local
//! password.
//!
//! The decisions are here; the caller reads and writes, and connects to the backend.

use std::str::Utf8Error;

use bytes::{Bytes, BytesMut};
use vstd::prelude::*;
use vstd::utf8::{decode_utf8, encode_utf8, valid_utf8};

use crate::backend_config::{BackendConfig, DbSpec, DbSpecView};
use crate::buffer::{
    buf_bytes, buf_freeze, buf_new, buf_put_i32, buf_put_slice, buf_put_u8, buf_remaining,
    buf_slice, buf_split_off, read_i32_be, shared_bytes, shared_is_text, shared_slice,
    shared_subrange,
};
use crate::postgres_login::{after_request, PgLoginActionView, PgLoginStateView};
use crate::postgres_wire::{
    first_message, length_fits, password_frame, sized, ssl_request_frame, BackendMessageView,
    Reading, SSL_REQUEST, STARTUP_MESSAGE,
};
use crate::text::{same_text, utf8_error_text, utf8_fault};
use crate::wire::{
    be_i32, be_i32_value, cstr, lemma_be_bytes_len, lemma_be_i32_round_trip, lemma_be_round_trip,
    lemma_be_value_digits, lemma_encode_injective, lemma_encode_nul_free, lemma_nul_after, nul_free,
    span,
};

verus! {

// ---------------------------------------------------------------------------
// Startup messages
// ---------------------------------------------------------------------------

#[derive(Clone, Copy, Debug, PartialEq, Eq)]
pub enum StartupError {
    /// A name or a value does not end.
    UnexpectedEof,
    NotUtf8(Utf8Error),
}

/// A `StartupError` with what the outside error says.
pub enum StartupErrorView {
    UnexpectedEof,
    NotUtf8(Seq<char>),
}

impl View for StartupError {
    type V = StartupErrorView;

    open spec fn view(&self) -> StartupErrorView {
        match self {
            StartupError::UnexpectedEof => StartupErrorView::UnexpectedEof,
            StartupError::NotUtf8(e) => StartupErrorView::NotUtf8(utf8_error_text(*e)),
        }
    }
}

/// Bytes and how far they are read.
#[derive(Debug)]
pub struct Buffer {
    bytes: Bytes,
    idx: usize,
}

impl View for Buffer {
    type V = Seq<u8>;

    /// What is left to read.
    closed spec fn view(&self) -> Seq<u8> {
        shared_bytes(self.bytes).skip(self.idx as int)
    }
}

impl Buffer {
    /// The position is inside the bytes, or right behind them.
    pub closed spec fn well_formed(self) -> bool {
        self.idx <= shared_bytes(self.bytes).len()
    }

    /// All of the bytes, read or not.
    pub closed spec fn all(self) -> Seq<u8> {
        shared_bytes(self.bytes)
    }

    /// How many of the bytes are read.
    pub closed spec fn position(self) -> int {
        self.idx as int
    }

    /// What is left to read is what stands behind the position.
    pub proof fn law_left_is_behind_the_position(self)
        requires
            self.well_formed(),
        ensures
            0 <= self.position() <= self.all().len(),
            self@ == self.all().skip(self.position()),
    {
    }

    /// All of the bytes, unread.
    pub fn new(bytes: Bytes) -> (buffer: Buffer)
        ensures
            buffer.well_formed(),
            buffer.all() == shared_bytes(bytes),
            buffer.position() == 0,
            buffer@ == shared_bytes(bytes),
    {
        proof {
            assert(shared_bytes(bytes).skip(0) =~= shared_bytes(bytes));
        }
        Buffer { bytes, idx: 0 }
    }

    /// What is left to read.
    pub fn slice(&self) -> (rest: &[u8])
        requires
            self.well_formed(),
        ensures
            rest@ == self@,
    {
        let all = shared_slice(&self.bytes);
        vstd::slice::slice_subrange(all, self.idx, all.len())
    }

    /// Reads up to the next zero byte, and drops that byte.
    pub fn read_cstr(&mut self) -> (read: Result<Bytes, StartupError>)
        requires
            old(self).well_formed(),
        ensures
            final(self).well_formed(),
            final(self).all() == old(self).all(),
            match read {
                Ok(field) => {
                    &&& old(self)@.index_of_first(0) matches Some(end)
                    &&& shared_bytes(field) == old(self)@.take(end)
                    &&& nul_free(shared_bytes(field))
                    &&& final(self)@ == old(self)@.skip(end + 1)
                    &&& final(self).position() == old(self).position() + shared_bytes(field).len()
                        + 1
                },
                Err(e) => {
                    &&& old(self)@.index_of_first(0) is None
                    &&& e == StartupError::UnexpectedEof
                    &&& *final(self) == *old(self)
                },
            },
    {
        let ghost all = shared_bytes(self.bytes);
        let ghost rest = self@;
        proof {
            rest.index_of_first_ensures(0);
        }
        match memchr::memchr(0, self.slice()) {
            Some(pos) => {
                let start: usize = self.idx;
                let length: usize = shared_slice(&self.bytes).len();
                assert(start + pos < length);
                let end: usize = start + pos;
                let cstr = shared_subrange(&self.bytes, start, end);
                self.idx = end + 1;
                proof {
                    assert(shared_bytes(cstr) =~= rest.take(pos as int));
                    assert(self@ =~= rest.skip(pos + 1));
                }
                Ok(cstr)
            },
            None => Err(StartupError::UnexpectedEof),
        }
    }
}

/// Reads the parameters of a startup message, name by name, until both the user and the database
/// are known. What else a client sets is passed over; a name that comes twice counts as it came
/// last. With `text_names`, the names that are passed over must be text.
pub open spec fn startup_parameters(
    rest: Seq<u8>,
    user: Option<Seq<char>>,
    database: Option<Seq<char>>,
    text_names: bool,
) -> Result<DbSpecView, StartupErrorView>
    decreases rest.len(),
{
    if user is Some && database is Some {
        Ok(DbSpecView { user: user->0, database: database->0 })
    } else {
        match next_parameter(rest) {
            None => Err(StartupErrorView::UnexpectedEof),
            Some((tag, value, behind)) => if behind.len() >= rest.len() {
                arbitrary()
            } else if tag == encode_utf8("user"@) {
                if valid_utf8(value) {
                    startup_parameters(behind, Some(decode_utf8(value)), database, text_names)
                } else {
                    Err(StartupErrorView::NotUtf8(utf8_fault(value)))
                }
            } else if tag == encode_utf8("database"@) {
                if valid_utf8(value) {
                    startup_parameters(behind, user, Some(decode_utf8(value)), text_names)
                } else {
                    Err(StartupErrorView::NotUtf8(utf8_fault(value)))
                }
            } else if text_names && !valid_utf8(tag) {
                Err(StartupErrorView::NotUtf8(utf8_fault(tag)))
            } else {
                startup_parameters(behind, user, database, text_names)
            },
        }
    }
}

/// A name, a value, and what follows them.
pub open spec fn next_parameter(rest: Seq<u8>) -> Option<(Seq<u8>, Seq<u8>, Seq<u8>)> {
    match rest.index_of_first(0) {
        None => None,
        Some(end) => {
            let behind = rest.skip(end + 1);
            match behind.index_of_first(0) {
                None => None,
                Some(last) => Some((rest.take(end), behind.take(last), behind.skip(last + 1))),
            }
        },
    }
}

/// A parameter takes up bytes.
proof fn lemma_next_parameter_shrinks(rest: Seq<u8>)
    ensures
        next_parameter(rest) matches Some((_, _, behind)) ==> behind.len() < rest.len(),
{
    rest.index_of_first_ensures(0);
    if let Some(end) = rest.index_of_first(0) {
        rest.skip(end + 1).index_of_first_ensures(0);
    }
}

/// What the parameters of a startup message say.
pub open spec fn startup_of(parameters: Seq<u8>, text_names: bool) -> Result<
    DbSpecView,
    StartupErrorView,
> {
    startup_parameters(parameters, None, None, text_names)
}

/// Bytes as text that must be UTF-8.
fn owned_text(bytes: &Bytes) -> (text: Result<String, StartupError>)
    ensures
        match text {
            Ok(text) => valid_utf8(shared_bytes(*bytes)) && text@ == decode_utf8(
                shared_bytes(*bytes),
            ),
            Err(e) => !valid_utf8(shared_bytes(*bytes)) && e@ == StartupErrorView::NotUtf8(
                utf8_fault(shared_bytes(*bytes)),
            ),
        },
{
    broadcast use vstd::utf8::group_utf8_lib;

    match std::str::from_utf8(shared_slice(bytes)) {
        Ok(text) => Ok(text.to_owned()),
        Err(e) => Err(StartupError::NotUtf8(e)),
    }
}

/// Parses the parameters of a startup message. With `text_names`, the names that are passed over
/// must be text; without, they are not looked at.
pub fn parse_startup(src: Bytes, text_names: bool) -> (parsed: Result<DbSpec, StartupError>)
    ensures
        match parsed {
            Ok(db) => startup_of(shared_bytes(src), text_names) == Ok::<
                DbSpecView,
                StartupErrorView,
            >(db@),
            Err(e) => startup_of(shared_bytes(src), text_names) == Err::<
                DbSpecView,
                StartupErrorView,
            >(e@),
        },
{
    let mut user: Option<String> = None;
    let mut database: Option<String> = None;
    let ghost goal = startup_of(shared_bytes(src), text_names);
    let mut buf = Buffer::new(src);
    while user.is_none() || database.is_none()
        invariant
            buf.well_formed(),
            goal == startup_of(shared_bytes(src), text_names),
            startup_parameters(buf@, text_of(user), text_of(database), text_names) == goal,
        decreases buf@.len(),
    {
        let ghost rest = buf@;
        proof {
            lemma_next_parameter_shrinks(rest);
        }
        let tag = match buf.read_cstr() {
            Ok(field) => field,
            Err(e) => {
                return Err(e);
            },
        };
        let value = match buf.read_cstr() {
            Ok(field) => field,
            Err(e) => {
                return Err(e);
            },
        };
        assert(next_parameter(rest) == Some((shared_bytes(tag), shared_bytes(value), buf@)));
        if shared_is_text(&tag, "user") {
            match owned_text(&value) {
                Ok(text) => {
                    user = Some(text);
                },
                Err(e) => {
                    return Err(e);
                },
            }
        } else if shared_is_text(&tag, "database") {
            match owned_text(&value) {
                Ok(text) => {
                    database = Some(text);
                },
                Err(e) => {
                    return Err(e);
                },
            }
        } else if text_names {
            if let Err(e) = std::str::from_utf8(shared_slice(&tag)) {
                return Err(StartupError::NotUtf8(e));
            }
        }
    }
    Ok(DbSpec::new(user.unwrap(), database.unwrap()))
}

/// An optional string as optional text.
pub open spec fn text_of(string: Option<String>) -> Option<Seq<char>> {
    match string {
        Some(text) => Some(text@),
        None => None,
    }
}

/// The startup message that the proxy writes reads back as what went into it, if the names have
/// no NUL character.
pub proof fn law_startup_round_trip(db: DbSpecView, text_names: bool)
    requires
        !db.user.contains('\0'),
        !db.database.contains('\0'),
    ensures
        startup_of(db.parameters().push(0), text_names) == Ok::<DbSpecView, StartupErrorView>(
            db,
        ),
{
    broadcast use vstd::utf8::group_utf8_lib;

    reveal_with_fuel(startup_parameters, 4);
    let user = encode_utf8(db.user);
    let database = encode_utf8(db.database);
    let last = seq![0u8];
    let third = cstr("database"@) + (cstr(db.database) + last);
    let second = cstr("user"@) + (cstr(db.user) + third);
    let first = cstr("client_encoding"@) + (cstr("UTF8"@) + second);
    lemma_encode_nul_free(db.user);
    lemma_encode_nul_free(db.database);
    lemma_parameter_names();
    assert(db.parameters().push(0) =~= first);
    lemma_one_parameter(encode_utf8("client_encoding"@), encode_utf8("UTF8"@), second);
    lemma_one_parameter(encode_utf8("user"@), user, third);
    lemma_one_parameter(encode_utf8("database"@), database, last);
}

/// What follows in a startup message once the user and the database are named, or once something is
/// found that is no text, changes nothing.
pub proof fn law_startup_ignores_what_follows(
    parameters: Seq<u8>,
    more: Seq<u8>,
    text_names: bool,
)
    requires
        startup_of(parameters, text_names) != Err::<DbSpecView, StartupErrorView>(
            StartupErrorView::UnexpectedEof,
        ),
    ensures
        startup_of(parameters + more, text_names) == startup_of(parameters, text_names),
{
    lemma_parameters_ignore_what_follows(parameters, more, None, None, text_names);
}

/// To ask that the names that are passed over be text refuses some startup messages, and changes
/// nothing about those that it lets through.
pub proof fn law_names_only_refuse(parameters: Seq<u8>)
    ensures
        startup_of(parameters, true) == startup_of(parameters, false) || startup_of(
            parameters,
            true,
        ) matches Err(StartupErrorView::NotUtf8(_)),
{
    lemma_names_only_refuse(parameters, None, None);
}

/// The same with some of the parameters read.
proof fn lemma_names_only_refuse(
    rest: Seq<u8>,
    user: Option<Seq<char>>,
    database: Option<Seq<char>>,
)
    ensures
        startup_parameters(rest, user, database, true) == startup_parameters(
            rest,
            user,
            database,
            false,
        ) || startup_parameters(rest, user, database, true) matches Err(
            StartupErrorView::NotUtf8(_),
        ),
    decreases rest.len(),
{
    if (user is None || database is None) && next_parameter(rest) is Some {
        let (tag, value, behind) = next_parameter(rest)->0;
        lemma_next_parameter_shrinks(rest);
        if tag == encode_utf8("user"@) {
            lemma_names_only_refuse(behind, Some(decode_utf8(value)), database);
        } else if tag == encode_utf8("database"@) {
            lemma_names_only_refuse(behind, user, Some(decode_utf8(value)));
        } else {
            lemma_names_only_refuse(behind, user, database);
        }
    }
}

/// The same with some of the parameters read.
proof fn lemma_parameters_ignore_what_follows(
    rest: Seq<u8>,
    more: Seq<u8>,
    user: Option<Seq<char>>,
    database: Option<Seq<char>>,
    text_names: bool,
)
    requires
        startup_parameters(rest, user, database, text_names) != Err::<
            DbSpecView,
            StartupErrorView,
        >(StartupErrorView::UnexpectedEof),
    ensures
        startup_parameters(rest + more, user, database, text_names) == startup_parameters(
            rest,
            user,
            database,
            text_names,
        ),
    decreases rest.len(),
{
    if user is None || database is None {
        let (tag, value, behind) = next_parameter(rest)->0;
        lemma_next_parameter_shrinks(rest);
        lemma_next_parameter_shrinks(rest + more);
        lemma_next_parameter_of_more(rest, more);
        if tag == encode_utf8("user"@) {
            if valid_utf8(value) {
                lemma_parameters_ignore_what_follows(
                    behind,
                    more,
                    Some(decode_utf8(value)),
                    database,
                    text_names,
                );
            }
        } else if tag == encode_utf8("database"@) {
            if valid_utf8(value) {
                lemma_parameters_ignore_what_follows(
                    behind,
                    more,
                    user,
                    Some(decode_utf8(value)),
                    text_names,
                );
            }
        } else if !text_names || valid_utf8(tag) {
            lemma_parameters_ignore_what_follows(behind, more, user, database, text_names);
        }
    }
}

/// A whole parameter is read in the same way if more follows.
proof fn lemma_next_parameter_of_more(rest: Seq<u8>, more: Seq<u8>)
    requires
        next_parameter(rest) is Some,
    ensures
        next_parameter(rest + more) == (match next_parameter(rest)->0 {
            (tag, value, behind) => Some((tag, value, behind + more)),
        }),
{
    let (tag, value, behind) = next_parameter(rest)->0;
    rest.index_of_first_ensures(0);
    let after = rest.skip(tag.len() as int + 1);
    after.index_of_first_ensures(0);
    assert(rest + more =~= tag.push(0) + (value.push(0) + (behind + more)));
    lemma_one_parameter(tag, value, behind + more);
}

/// A name and a value without a zero byte are read as they were written.
proof fn lemma_one_parameter(name: Seq<u8>, value: Seq<u8>, behind: Seq<u8>)
    requires
        nul_free(name),
        nul_free(value),
    ensures
        next_parameter(name.push(0) + (value.push(0) + behind)) == Some((name, value, behind)),
{
    lemma_nul_after(name, value.push(0) + behind);
    lemma_nul_after(value, behind);
}

/// The names of the parameters are told apart, and have no zero byte.
proof fn lemma_parameter_names()
    ensures
        nul_free(encode_utf8("client_encoding"@)),
        nul_free(encode_utf8("UTF8"@)),
        nul_free(encode_utf8("user"@)),
        nul_free(encode_utf8("database"@)),
        encode_utf8("client_encoding"@) != encode_utf8("user"@),
        encode_utf8("client_encoding"@) != encode_utf8("database"@),
        encode_utf8("database"@) != encode_utf8("user"@),
{
    broadcast use vstd::utf8::group_utf8_lib;

    reveal_strlit("client_encoding");
    reveal_strlit("UTF8");
    reveal_strlit("user");
    reveal_strlit("database");
    lemma_encode_nul_free("client_encoding"@);
    lemma_encode_nul_free("UTF8"@);
    lemma_encode_nul_free("user"@);
    lemma_encode_nul_free("database"@);
    vstd::utf8::is_ascii_chars_encode_utf8("client_encoding"@);
    vstd::utf8::is_ascii_chars_encode_utf8("user"@);
    vstd::utf8::is_ascii_chars_encode_utf8("database"@);
}

// ---------------------------------------------------------------------------
// Errors
// ---------------------------------------------------------------------------

/// `E`, `S`, `C`, `M`: an error, its severity, its code and its message.
pub const ERROR_RESPONSE: u8 = 0x45;

pub const SEVERITY_FIELD: u8 = 0x53;

pub const CODE_FIELD: u8 = 0x43;

pub const MESSAGE_FIELD: u8 = 0x4D;

/// What an error tells: the severity, the code and the message, each as text behind a letter.
pub open spec fn error_fields(code: Seq<char>, message: Seq<char>) -> Seq<u8> {
    seq![SEVERITY_FIELD] + cstr("ERROR"@) + seq![CODE_FIELD] + cstr(code) + seq![MESSAGE_FIELD]
        + cstr(message) + seq![0u8]
}

/// An error response.
pub open spec fn error_frame(code: Seq<char>, message: Seq<char>) -> Seq<u8> {
    seq![ERROR_RESPONSE] + sized(error_fields(code, message))
}

/// A length that does not fit four bytes is written as its low four bytes.
proof fn lemma_truncated_length(length: usize)
    ensures
        be_i32((length as i32) as int) == be_i32(length as int),
{
    let wide = length as u64;
    assert((wide as i32) >= 0 ==> (wide as i32) == wide % 0x1_0000_0000) by (bit_vector);
    assert((wide as i32) < 0 ==> (wide as i32) + 0x1_0000_0000 == wide % 0x1_0000_0000)
        by (bit_vector);
    assert(length as i32 == (length as u64) as i32) by (bit_vector);
}

/// Writes an error response for the client.
pub fn pg_error(code: &str, message: &str) -> (frame: Bytes)
    requires
        error_frame(code@, message@).len() <= isize::MAX,
    ensures
        shared_bytes(frame) == error_frame(code@, message@),
{
    let mut buf = buf_new();
    let severity = "ERROR";
    proof {
        let body = error_fields(code@, message@);
        lemma_be_bytes_len(((body.len() + 4) as int % 0x1_0000_0000) as nat, 4);
    }
    let body_len: usize = 1 + severity.as_bytes().len() + 1 + 1 + code.as_bytes().len() + 1 + 1
        + message.as_bytes().len() + 1 + 1;
    proof {
        lemma_truncated_length((body_len + 4) as usize);
    }
    buf_put_u8(&mut buf, ERROR_RESPONSE);
    buf_put_i32(&mut buf, (body_len + 4) as i32);
    buf_put_u8(&mut buf, SEVERITY_FIELD);
    buf_put_slice(&mut buf, severity.as_bytes());
    buf_put_u8(&mut buf, 0);
    buf_put_u8(&mut buf, CODE_FIELD);
    buf_put_slice(&mut buf, code.as_bytes());
    buf_put_u8(&mut buf, 0);
    buf_put_u8(&mut buf, MESSAGE_FIELD);
    buf_put_slice(&mut buf, message.as_bytes());
    buf_put_u8(&mut buf, 0);
    buf_put_u8(&mut buf, 0);
    proof {
        assert(buf_bytes(buf) =~= error_frame(code@, message@));
    }
    buf_freeze(buf)
}

// ---------------------------------------------------------------------------
// The local password
// ---------------------------------------------------------------------------

/// `R`: a message about the login.
pub const AUTHENTICATION: u8 = 0x52;

/// `p`: a password.
pub const PASSWORD_MESSAGE: u8 = 0x70;

/// The request for a cleartext password: 'R' + int32(8) + int32(3).
pub open spec fn password_request_frame() -> Seq<u8> {
    seq![AUTHENTICATION] + be_i32(8) + be_i32(3)
}

#[derive(Clone, Copy, Debug, PartialEq, Eq, Structural)]
pub enum PasswordError {
    /// Not a password message, but one that starts with this byte, if with any.
    NotPasswordMessage(Option<u8>),
    TooShort,
    NotUtf8,
    Mismatch,
}

/// The password in a password message: what follows the length, without the zero byte that may
/// end it.
pub open spec fn given_password(message: Seq<u8>) -> Seq<u8> {
    let field = message.skip(5);
    if field.len() > 0 && field.last() == 0 {
        field.drop_last()
    } else {
        field
    }
}

/// What is wrong with the answer to the request for a password, if anything is.
pub open spec fn password_fault(message: Seq<u8>, expected: Seq<char>) -> Option<PasswordError> {
    if message.len() == 0 {
        Some(PasswordError::NotPasswordMessage(None))
    } else if message[0] != PASSWORD_MESSAGE {
        Some(PasswordError::NotPasswordMessage(Some(message[0])))
    } else if message.len() < 5 {
        Some(PasswordError::TooShort)
    } else if !valid_utf8(given_password(message)) {
        Some(PasswordError::NotUtf8)
    } else if given_password(message) != encode_utf8(expected) {
        Some(PasswordError::Mismatch)
    } else {
        None
    }
}

/// What the client is told of a fault. Of a password that is no text it is told nothing.
pub open spec fn fault_text(fault: PasswordError) -> Option<Seq<char>> {
    match fault {
        PasswordError::NotPasswordMessage(_) => Some("Expected password message"@),
        PasswordError::TooShort => Some("Malformed password message"@),
        PasswordError::NotUtf8 => None,
        PasswordError::Mismatch => Some("Invalid local proxy password"@),
    }
}

/// The error response to a fault.
pub open spec fn fault_frame(fault: PasswordError) -> Option<Seq<u8>> {
    match fault_text(fault) {
        Some(text) => Some(error_frame("28P01"@, text)),
        None => None,
    }
}

/// Writes the request for a cleartext password.
pub fn password_request() -> (frame: Bytes)
    ensures
        shared_bytes(frame) == password_request_frame(),
{
    let mut auth_req = buf_new();
    proof {
        lemma_be_i32_round_trip(8);
    }
    buf_put_u8(&mut auth_req, AUTHENTICATION);
    buf_put_i32(&mut auth_req, 8);
    buf_put_i32(&mut auth_req, 3);
    proof {
        assert(buf_bytes(auth_req) =~= password_request_frame());
    }
    buf_freeze(auth_req)
}

/// Checks the client's answer to the request for a password against the configured local
/// password.
pub fn verify_pg_local_password(resp: &[u8], expected: &str) -> (verified: Result<
    (),
    PasswordError,
>)
    ensures
        match verified {
            Ok(()) => password_fault(resp@, expected@) is None,
            Err(e) => password_fault(resp@, expected@) == Some(e),
        },
{
    if resp.len() == 0 {
        return Err(PasswordError::NotPasswordMessage(None));
    }
    if resp[0] != PASSWORD_MESSAGE {
        return Err(PasswordError::NotPasswordMessage(Some(resp[0])));
    }
    if resp.len() < 5 {
        return Err(PasswordError::TooShort);
    }
    let password_bytes = vstd::slice::slice_subrange(resp, 5, resp.len());
    let password = if password_bytes.len() > 0 && password_bytes[password_bytes.len() - 1] == 0 {
        vstd::slice::slice_subrange(password_bytes, 0, password_bytes.len() - 1)
    } else {
        password_bytes
    };
    proof {
        assert(password@ =~= given_password(resp@));
    }
    let password_str = match std::str::from_utf8(password) {
        Ok(text) => text,
        Err(_) => {
            return Err(PasswordError::NotUtf8);
        },
    };
    if !same_text(password_str, expected) {
        proof {
            if given_password(resp@) == encode_utf8(expected@) {
                lemma_encode_injective(password_str@, expected@);
            }
        }
        return Err(PasswordError::Mismatch);
    }
    Ok(())
}

/// Writes the error response to a fault, if the client is told of it.
fn fault_reply(fault: PasswordError) -> (reply: Option<Bytes>)
    ensures
        match reply {
            Some(frame) => fault_frame(fault) == Some(shared_bytes(frame)),
            None => fault_frame(fault) is None,
        },
{
    let text = match fault {
        PasswordError::NotPasswordMessage(_) => "Expected password message",
        PasswordError::TooShort => "Malformed password message",
        PasswordError::Mismatch => "Invalid local proxy password",
        PasswordError::NotUtf8 => {
            return None;
        },
    };
    proof {
        lemma_fault_texts(text@);
    }
    Some(pg_error("28P01", text))
}

/// The error responses to faults are short.
proof fn lemma_fault_texts(text: Seq<char>)
    requires
        text == "Expected password message"@ || text == "Malformed password message"@ || text
            == "Invalid local proxy password"@,
    ensures
        error_frame("28P01"@, text).len() <= 100,
{
    broadcast use vstd::utf8::group_utf8_lib;

    reveal_strlit("28P01");
    reveal_strlit("ERROR");
    reveal_strlit("Expected password message");
    reveal_strlit("Malformed password message");
    reveal_strlit("Invalid local proxy password");
    vstd::utf8::is_ascii_chars_encode_utf8("28P01"@);
    vstd::utf8::is_ascii_chars_encode_utf8("ERROR"@);
    vstd::utf8::is_ascii_chars_encode_utf8(text);
    lemma_be_bytes_len(
        ((error_fields("28P01"@, text).len() + 4) as int % 0x1_0000_0000) as nat,
        4,
    );
}

/// The password message that carries the expected password is accepted.
pub proof fn law_expected_password_passes(expected: Seq<char>)
    ensures
        password_fault(password_frame(encode_utf8(expected)), expected) is None,
{
    broadcast use vstd::utf8::group_utf8_lib;

    let message = password_frame(encode_utf8(expected));
    lemma_be_bytes_len(
        ((encode_utf8(expected).len() + 5) as int % 0x1_0000_0000) as nat,
        4,
    );
    assert(message.skip(5) =~= encode_utf8(expected).push(0));
    assert(given_password(message) =~= encode_utf8(expected));
}

/// No other password is accepted: a password message that carries another text is a mismatch.
pub proof fn law_other_password_fails(given: Seq<char>, expected: Seq<char>)
    requires
        given != expected,
    ensures
        password_fault(password_frame(encode_utf8(given)), expected) == Some(
            PasswordError::Mismatch,
        ),
{
    broadcast use vstd::utf8::group_utf8_lib;

    let message = password_frame(encode_utf8(given));
    lemma_be_bytes_len(((encode_utf8(given).len() + 5) as int % 0x1_0000_0000) as nat, 4);
    assert(message.skip(5) =~= encode_utf8(given).push(0));
    assert(given_password(message) =~= encode_utf8(given));
    if encode_utf8(given) == encode_utf8(expected) {
        lemma_encode_injective(given, expected);
    }
}

// ---------------------------------------------------------------------------
// From the first message to the login at the backend
// ---------------------------------------------------------------------------

/// `N`: TLS is not to be had.
pub const SSL_NOT_ALLOWED: u8 = 0x4e;

/// How far the service of a client has come.
#[derive(Debug)]
pub enum PgState {
    AwaitingStartup,
    /// The request for the local password is out.
    AwaitingPassword(DbSpec),
    /// The login at the backend is the caller's turn.
    Connecting,
    Closed,
}

/// What the caller has to tell.
#[derive(Debug)]
pub enum PgEvent {
    /// Bytes came.
    Message(BytesMut),
    /// The client closed the connection.
    Closed,
}

#[derive(Clone, Copy, Debug, PartialEq, Eq)]
pub enum PgError {
    TooSmall,
    /// A startup message announces more bytes than came.
    Incomplete { wanted: i32, provided: usize },
    UnknownTag(i32),
    Startup(StartupError),
    Password(PasswordError),
    ClientClosed,
    ClosedBeforePassword,
}

/// A `PgError` with what the outside errors say.
pub enum PgErrorView {
    TooSmall,
    Incomplete { wanted: i32, provided: usize },
    UnknownTag(i32),
    Startup(StartupErrorView),
    Password(PasswordError),
    ClientClosed,
    ClosedBeforePassword,
}

impl View for PgError {
    type V = PgErrorView;

    open spec fn view(&self) -> PgErrorView {
        match self {
            PgError::TooSmall => PgErrorView::TooSmall,
            PgError::Incomplete { wanted, provided } => PgErrorView::Incomplete {
                wanted: *wanted,
                provided: *provided,
            },
            PgError::UnknownTag(tag) => PgErrorView::UnknownTag(*tag),
            PgError::Startup(e) => PgErrorView::Startup(e@),
            PgError::Password(fault) => PgErrorView::Password(*fault),
            PgError::ClientClosed => PgErrorView::ClientClosed,
            PgError::ClosedBeforePassword => PgErrorView::ClosedBeforePassword,
        }
    }
}

/// What the caller has to do next.
#[derive(Debug)]
pub enum PgAction {
    /// Send this, then wait for more.
    Send(Bytes),
    /// Log in at the backend.
    Connect(DbSpec),
    /// Send this, then close the connection.
    Refuse { reply: Bytes, error: PgError },
    /// Close the connection without a word.
    Close(PgError),
}

/// A `PgState` with texts as sequences.
pub enum PgStateView {
    AwaitingStartup,
    AwaitingPassword(DbSpecView),
    Connecting,
    Closed,
}

impl View for PgState {
    type V = PgStateView;

    open spec fn view(&self) -> PgStateView {
        match self {
            PgState::AwaitingStartup => PgStateView::AwaitingStartup,
            PgState::AwaitingPassword(db) => PgStateView::AwaitingPassword(db@),
            PgState::Connecting => PgStateView::Connecting,
            PgState::Closed => PgStateView::Closed,
        }
    }
}

/// A `PgEvent` with bytes as sequences.
pub enum PgEventView {
    Message(Seq<u8>),
    Closed,
}

impl View for PgEvent {
    type V = PgEventView;

    open spec fn view(&self) -> PgEventView {
        match self {
            PgEvent::Message(bytes) => PgEventView::Message(buf_bytes(*bytes)),
            PgEvent::Closed => PgEventView::Closed,
        }
    }
}

/// A `PgAction` with bytes and texts as sequences.
pub enum PgActionView {
    Send(Seq<u8>),
    Connect(DbSpecView),
    Refuse { reply: Seq<u8>, error: PgErrorView },
    Close(PgErrorView),
}

impl View for PgAction {
    type V = PgActionView;

    open spec fn view(&self) -> PgActionView {
        match self {
            PgAction::Send(bytes) => PgActionView::Send(shared_bytes(*bytes)),
            PgAction::Connect(db) => PgActionView::Connect(db@),
            PgAction::Refuse { reply, error } => PgActionView::Refuse {
                reply: shared_bytes(*reply),
                error: error@,
            },
            PgAction::Close(error) => PgActionView::Close(error@),
        }
    }
}

/// What follows a client's first messages: a request for TLS is turned down and waited on, a
/// startup message leads on, and nothing else is understood. The length that a startup message
/// announces must be there; what follows it is read all the same.
pub open spec fn after_startup(
    message: Seq<u8>,
    local_password: Option<Seq<char>>,
    text_names: bool,
) -> (PgStateView, PgActionView) {
    let len = be_i32_value(message.take(4));
    let tag = be_i32_value(message.subrange(4, 8));
    if message.len() < 8 {
        closed(PgErrorView::TooSmall)
    } else if len == 8 && tag == SSL_REQUEST {
        (PgStateView::AwaitingStartup, PgActionView::Send(seq![SSL_NOT_ALLOWED]))
    } else if tag == STARTUP_MESSAGE {
        if len < 0 || message.len() < len {
            closed(PgErrorView::Incomplete { wanted: len as i32, provided: message.len() as usize })
        } else {
            match startup_of(message.skip(8), text_names) {
                Err(e) => closed(PgErrorView::Startup(e)),
                Ok(db) => if local_password is Some {
                    (
                        PgStateView::AwaitingPassword(db),
                        PgActionView::Send(password_request_frame()),
                    )
                } else {
                    (PgStateView::Connecting, PgActionView::Connect(db))
                },
            }
        }
    } else {
        closed(PgErrorView::UnknownTag(tag as i32))
    }
}

/// A step that ends the service without a word.
pub open spec fn closed(error: PgErrorView) -> (PgStateView, PgActionView) {
    (PgStateView::Closed, PgActionView::Close(error))
}

/// What follows the answer to the request for the local password.
pub open spec fn after_password(db: DbSpecView, message: Seq<u8>, local_password: Seq<char>) -> (
    PgStateView,
    PgActionView,
) {
    match password_fault(message, local_password) {
        None => (PgStateView::Connecting, PgActionView::Connect(db)),
        Some(fault) => match fault_frame(fault) {
            Some(reply) => (
                PgStateView::Closed,
                PgActionView::Refuse { reply, error: PgErrorView::Password(fault) },
            ),
            None => closed(PgErrorView::Password(fault)),
        },
    }
}

/// One step in the service of a client. In a state that does not wait for an event, nothing is
/// defined.
pub open spec fn pg_step(
    local_password: Option<Seq<char>>,
    state: PgStateView,
    event: PgEventView,
    text_names: bool,
) -> (PgStateView, PgActionView) {
    match (state, event) {
        (PgStateView::AwaitingStartup, PgEventView::Message(message)) => after_startup(
            message,
            local_password,
            text_names,
        ),
        (PgStateView::AwaitingStartup, PgEventView::Closed) => closed(PgErrorView::ClientClosed),
        (PgStateView::AwaitingPassword(db), PgEventView::Message(message)) => after_password(
            db,
            message,
            local_password->0,
        ),
        (PgStateView::AwaitingPassword(_), PgEventView::Closed) => closed(
            PgErrorView::ClosedBeforePassword,
        ),
        _ => arbitrary(),
    }
}

/// Whether the service of a client in this state waits for an event.
pub open spec fn pg_waits(local_password: Option<Seq<char>>, state: PgStateView) -> bool {
    state is AwaitingStartup || (state is AwaitingPassword && local_password is Some)
}

/// Decides the next step in the service of a PostgreSQL client, up to the login at the backend.
/// With `text_names`, the names of parameters that are passed over must be text.
pub fn auth_backend(
    config: &BackendConfig,
    state: PgState,
    event: PgEvent,
    text_names: bool,
) -> (step: (PgState, PgAction))
    requires
        pg_waits(text_of(config.local_password), state@),
    ensures
        (step.0@, step.1@) == pg_step(
            text_of(config.local_password),
            state@,
            event@,
            text_names,
        ),
{
    match (state, event) {
        (PgState::AwaitingStartup, PgEvent::Message(bytes)) => startup_received(
            config,
            bytes,
            text_names,
        ),
        (PgState::AwaitingStartup, PgEvent::Closed) => (
            PgState::Closed,
            PgAction::Close(PgError::ClientClosed),
        ),
        (PgState::AwaitingPassword(db), PgEvent::Message(bytes)) => {
            let expected = config.local_password().unwrap();
            match verify_pg_local_password(buf_slice(&bytes), expected) {
                Ok(()) => (PgState::Connecting, PgAction::Connect(db)),
                Err(fault) => {
                    let error = PgError::Password(fault);
                    match fault_reply(fault) {
                        Some(reply) => (PgState::Closed, PgAction::Refuse { reply, error }),
                        None => (PgState::Closed, PgAction::Close(error)),
                    }
                },
            }
        },
        (PgState::AwaitingPassword(_), PgEvent::Closed) => (
            PgState::Closed,
            PgAction::Close(PgError::ClosedBeforePassword),
        ),
        _ => vstd::pervasive::unreached(),
    }
}

/// One of a client's first messages came.
fn startup_received(config: &BackendConfig, mut bytes: BytesMut, text_names: bool) -> (step: (
    PgState,
    PgAction,
))
    ensures
        (step.0@, step.1@) == after_startup(
            buf_bytes(bytes),
            text_of(config.local_password),
            text_names,
        ),
{
    let ghost message = buf_bytes(bytes);
    let provided: usize = buf_remaining(&bytes);
    if provided < 8 {
        return (PgState::Closed, PgAction::Close(PgError::TooSmall));
    }
    let len: i32 = read_i32_be(buf_slice(&bytes));
    let tag: i32 = read_i32_be(vstd::slice::slice_subrange(buf_slice(&bytes), 4, provided));
    proof {
        assert(message.subrange(4, message.len() as int).take(4) =~= message.subrange(4, 8));
    }
    if len == 8 && tag == SSL_REQUEST {
        let mut reply = buf_new();
        buf_put_u8(&mut reply, SSL_NOT_ALLOWED);
        proof {
            assert(buf_bytes(reply) =~= seq![SSL_NOT_ALLOWED]);
        }
        (PgState::AwaitingStartup, PgAction::Send(buf_freeze(reply)))
    } else if tag == STARTUP_MESSAGE {
        if len < 0 || provided < len as usize {
            return (
                PgState::Closed,
                PgAction::Close(PgError::Incomplete { wanted: len, provided }),
            );
        }
        let parameters = buf_freeze(buf_split_off(&mut bytes, 8));
        match parse_startup(parameters, text_names) {
            Err(e) => (PgState::Closed, PgAction::Close(PgError::Startup(e))),
            Ok(db) => {
                // Verify local password if configured
                if config.local_password().is_some() {
                    (PgState::AwaitingPassword(db), PgAction::Send(password_request()))
                } else {
                    (PgState::Connecting, PgAction::Connect(db))
                }
            },
        }
    } else {
        (PgState::Closed, PgAction::Close(PgError::UnknownTag(tag)))
    }
}

// ---------------------------------------------------------------------------
// What holds of every client
// ---------------------------------------------------------------------------

/// A client whose startup message is well formed is logged in as the user it named, on the
/// database it named; if there is a local password, it is asked for that first.
pub proof fn law_client_gets_what_it_asked_for(
    db: DbSpecView,
    local_password: Option<Seq<char>>,
    text_names: bool,
)
    requires
        !db.user.contains('\0'),
        !db.database.contains('\0'),
        length_fits(db.startup_frame().len()),
    ensures
        pg_step(
            local_password,
            PgStateView::AwaitingStartup,
            PgEventView::Message(db.startup_frame()),
            text_names,
        ) == (if local_password is Some {
            (PgStateView::AwaitingPassword(db), PgActionView::Send(password_request_frame()))
        } else {
            (PgStateView::Connecting, PgActionView::Connect(db))
        }),
{
    let message = db.startup_frame();
    let body = be_i32(STARTUP_MESSAGE as int) + db.parameters() + seq![0u8];
    let length = body.len() as int + 4;
    lemma_be_bytes_len((length % 0x1_0000_0000) as nat, 4);
    lemma_be_i32_round_trip(STARTUP_MESSAGE as int);
    assert(message.len() == length);
    lemma_be_i32_round_trip(length);
    assert(message.take(4) =~= be_i32(length));
    assert(message.subrange(4, 8) =~= be_i32(STARTUP_MESSAGE as int));
    assert(message.skip(8) =~= db.parameters().push(0));
    law_startup_round_trip(db, text_names);
}

/// A request for TLS is turned down, and the client may go on without.
pub proof fn law_tls_is_turned_down(local_password: Option<Seq<char>>, text_names: bool)
    ensures
        pg_step(
            local_password,
            PgStateView::AwaitingStartup,
            PgEventView::Message(ssl_request_frame()),
            text_names,
        ) == (PgStateView::AwaitingStartup, PgActionView::Send(seq![SSL_NOT_ALLOWED])),
{
    let message = ssl_request_frame();
    lemma_be_i32_round_trip(SSL_REQUEST as int);
    lemma_be_i32_round_trip(8);
    assert(message.take(4) =~= be_i32(8));
    assert(message.subrange(4, 8) =~= be_i32(SSL_REQUEST as int));
}

/// Where there is a local password, no step leads to the backend but one on which the client gave
/// it; and the backend is connected to exactly when the service comes to that state.
pub proof fn law_password_guards_backend(
    local_password: Option<Seq<char>>,
    state: PgStateView,
    event: PgEventView,
    text_names: bool,
)
    requires
        pg_waits(local_password, state),
    ensures
        ({
            let (next, action) = pg_step(local_password, state, event, text_names);
            &&& next is Connecting <==> action is Connect
            &&& (action is Connect && local_password is Some) ==> {
                &&& state is AwaitingPassword
                &&& event matches PgEventView::Message(message)
                &&& password_fault(message, local_password->0) is None
            }
            &&& (action is Connect && state is AwaitingPassword) ==> action->Connect_0
                == state->AwaitingPassword_0
        }),
{
}

/// A client that does not give the local password is told so, unless what it gave is no text, and
/// the connection is closed either way.
pub proof fn law_wrong_password_is_answered(
    db: DbSpecView,
    message: Seq<u8>,
    local_password: Seq<char>,
    text_names: bool,
)
    requires
        password_fault(message, local_password) is Some,
    ensures
        ({
            let fault = password_fault(message, local_password)->0;
            let (next, action) = pg_step(
                Some(local_password),
                PgStateView::AwaitingPassword(db),
                PgEventView::Message(message),
                text_names,
            );
            &&& next is Closed
            &&& match fault_text(fault) {
                Some(text) => action == (PgActionView::Refuse {
                    reply: error_frame("28P01"@, text),
                    error: PgErrorView::Password(fault),
                }),
                None => action == PgActionView::Close(PgErrorView::Password(fault)),
            }
        }),
{
}

/// What the proxy says to a client are whole messages: an error is read as an error, as far as its
/// length can be written, and the request for a password as just that.
pub proof fn law_replies_are_whole_messages(code: Seq<char>, message: Seq<char>)
    requires
        length_fits(error_frame(code, message).len()),
    ensures
        first_message(error_frame(code, message)) == Reading::Message(
            BackendMessageView::ErrorResponse,
            error_frame(code, message).len() as int,
        ),
        first_message(password_request_frame()) == Reading::Message(
            BackendMessageView::CleartextPassword,
            password_request_frame().len() as int,
        ),
{
    let frame = error_frame(code, message);
    let length = error_fields(code, message).len() + 4;
    reveal_with_fuel(span, 5);
    lemma_be_bytes_len(((length as int) % 0x1_0000_0000) as nat, 4);
    assert(frame.len() == length + 1);
    lemma_be_round_trip(length, 4);
    assert(frame.subrange(1, 5) =~= be_i32(length as int));
    let request = password_request_frame();
    lemma_be_i32_round_trip(8);
    lemma_be_i32_round_trip(3);
    lemma_be_round_trip(8, 4);
    assert(request.subrange(1, 5) =~= be_i32(8));
    let body = request.subrange(5, 9);
    assert(body.take(4) =~= be_i32(3));
}

/// The proxy's own login gets past the local password: to the request for it, the login answers
/// with a message that is accepted if the passwords are the same, and a mismatch if they are not.
pub proof fn law_own_login_passes(password: Seq<char>, expected: Seq<char>, nonce: Seq<char>)
    requires
        !password.contains('\0'),
        length_fits(encode_utf8(password).len() + 5),
    ensures
        after_request(password_request_frame(), encode_utf8(password), nonce) == (
            PgLoginStateView::Done,
            PgLoginActionView::SendAndFinish(password_frame(encode_utf8(password))),
        ),
        password_fault(password_frame(encode_utf8(password)), expected) == (if password
            == expected {
            None
        } else {
            Some(PasswordError::Mismatch)
        }),
{
    lemma_fault_texts("Expected password message"@);
    law_replies_are_whole_messages("28P01"@, "Expected password message"@);
    lemma_encode_nul_free(password);
    law_expected_password_passes(expected);
    if password != expected {
        law_other_password_fails(password, expected);
    }
}

/// How a startup message is read, parameter by parameter, with what is known of the user and the
/// database so far. Once both are known, nothing more is read. Until then a parameter `user` or
/// `database` sets what it names, and must be text; any other is passed over; and there must be
/// another.
pub proof fn law_parameters_one_by_one(
    name: Seq<u8>,
    value: Seq<u8>,
    rest: Seq<u8>,
    user: Option<Seq<char>>,
    database: Option<Seq<char>>,
    text_names: bool,
)
    requires
        !name.contains(0),
        !value.contains(0),
    ensures
        ({
            let all = name.push(0) + (value.push(0) + rest);
            let read = startup_parameters(all, user, database, text_names);
            if user is Some && database is Some {
                read == Ok::<DbSpecView, StartupErrorView>(
                    DbSpecView { user: user->0, database: database->0 },
                )
            } else if name == encode_utf8("user"@) {
                if valid_utf8(value) {
                    read == startup_parameters(
                        rest,
                        Some(decode_utf8(value)),
                        database,
                        text_names,
                    )
                } else {
                    read == Err::<DbSpecView, StartupErrorView>(
                        StartupErrorView::NotUtf8(utf8_fault(value)),
                    )
                }
            } else if name == encode_utf8("database"@) {
                if valid_utf8(value) {
                    read == startup_parameters(rest, user, Some(decode_utf8(value)), text_names)
                } else {
                    read == Err::<DbSpecView, StartupErrorView>(
                        StartupErrorView::NotUtf8(utf8_fault(value)),
                    )
                }
            } else if text_names && !valid_utf8(name) {
                read == Err::<DbSpecView, StartupErrorView>(
                    StartupErrorView::NotUtf8(utf8_fault(name)),
                )
            } else {
                read == startup_parameters(rest, user, database, text_names)
            }
        }),
        (user is None || database is None) ==> {
            &&& startup_parameters(name, user, database, text_names) == Err::<
                DbSpecView,
                StartupErrorView,
            >(StartupErrorView::UnexpectedEof)
            &&& startup_parameters(name.push(0) + value, user, database, text_names) == Err::<
                DbSpecView,
                StartupErrorView,
            >(StartupErrorView::UnexpectedEof)
        },
        (user is Some && database is Some) ==> startup_parameters(
            rest,
            user,
            database,
            text_names,
        ) == Ok::<DbSpecView, StartupErrorView>(
            DbSpecView { user: user->0, database: database->0 },
        ),
        startup_of(rest, text_names) == startup_parameters(rest, None, None, text_names),
{
    lemma_one_parameter(name, value, rest);
    name.index_of_first_ensures(0);
    value.index_of_first_ensures(0);
    lemma_nul_after(name, value);
}

/// A client may name its user and its database in either order, and set something else before,
/// between or behind; it is logged in as the user and on the database that it named.
pub proof fn law_parameters_in_any_order(
    user: Seq<char>,
    database: Seq<char>,
    name: Seq<u8>,
    value: Seq<u8>,
    more: Seq<u8>,
    text_names: bool,
)
    requires
        !user.contains('\0'),
        !database.contains('\0'),
        !name.contains(0),
        !value.contains(0),
        name != encode_utf8("user"@),
        name != encode_utf8("database"@),
        text_names ==> valid_utf8(name),
    ensures
        ({
            let last_u = parameter("user"@, user, more);
            let last_d = parameter("database"@, database, more);
            let named = Ok::<DbSpecView, StartupErrorView>(DbSpecView { user, database });
            &&& startup_of(parameter("user"@, user, last_d), text_names) == named
            &&& startup_of(parameter("database"@, database, last_u), text_names) == named
            &&& startup_of(
                name.push(0) + (value.push(0) + parameter("user"@, user, last_d)),
                text_names,
            ) == named
            &&& startup_of(
                name.push(0) + (value.push(0) + parameter("database"@, database, last_u)),
                text_names,
            ) == named
            &&& startup_of(
                parameter("user"@, user, name.push(0) + (value.push(0) + last_d)),
                text_names,
            ) == named
            &&& startup_of(
                parameter("database"@, database, name.push(0) + (value.push(0) + last_u)),
                text_names,
            ) == named
        }),
{
    let last_u = parameter("user"@, user, more);
    let last_d = parameter("database"@, database, more);
    let other_d = name.push(0) + (value.push(0) + last_d);
    let other_u = name.push(0) + (value.push(0) + last_u);
    lemma_named(user, more, None, None, text_names);
    lemma_named(database, more, None, None, text_names);
    lemma_named(user, more, None, Some(database), text_names);
    lemma_named(database, more, Some(user), None, text_names);
    lemma_named(user, last_d, None, None, text_names);
    lemma_named(database, last_u, None, None, text_names);
    lemma_named(user, other_d, None, None, text_names);
    lemma_named(database, other_u, None, None, text_names);
    law_parameters_one_by_one(
        name,
        value,
        parameter("user"@, user, last_d),
        None,
        None,
        text_names,
    );
    law_parameters_one_by_one(
        name,
        value,
        parameter("database"@, database, last_u),
        None,
        None,
        text_names,
    );
    law_parameters_one_by_one(name, value, last_d, Some(user), None, text_names);
    law_parameters_one_by_one(name, value, last_u, None, Some(database), text_names);
    law_parameters_one_by_one(name, value, more, Some(user), Some(database), text_names);
}

/// A parameter in front of what follows it.
pub open spec fn parameter(name: Seq<char>, value: Seq<char>, rest: Seq<u8>) -> Seq<u8> {
    encode_utf8(name).push(0) + (encode_utf8(value).push(0) + rest)
}

/// The user and the database are read where they are named.
proof fn lemma_named(
    value: Seq<char>,
    rest: Seq<u8>,
    user: Option<Seq<char>>,
    database: Option<Seq<char>>,
    text_names: bool,
)
    requires
        !value.contains('\0'),
        user is None || database is None,
    ensures
        startup_parameters(parameter("user"@, value, rest), user, database, text_names)
            == startup_parameters(rest, Some(value), database, text_names),
        startup_parameters(parameter("database"@, value, rest), user, database, text_names)
            == startup_parameters(rest, user, Some(value), text_names),
{
    broadcast use vstd::utf8::group_utf8_lib;

    lemma_parameter_names();
    lemma_encode_nul_free(value);
    law_parameters_one_by_one(
        encode_utf8("user"@),
        encode_utf8(value),
        rest,
        user,
        database,
        text_names,
    );
    law_parameters_one_by_one(
        encode_utf8("database"@),
        encode_utf8(value),
        rest,
        user,
        database,
        text_names,
    );
}

/// The bytes of what a client is told: an error response carries the severity, the code and the
/// message, each behind a letter and in front of a zero byte, and one more zero byte; its length
/// counts all but the first letter. The request for a password is nine fixed bytes.
pub proof fn law_reply_bytes(code: Seq<char>, message: Seq<char>)
    ensures
        error_frame(code, message) == ({
            let fields = seq![0x53u8] + encode_utf8("ERROR"@).push(0) + seq![0x43u8] + encode_utf8(
                code,
            ).push(0) + seq![0x4Du8] + encode_utf8(message).push(0).push(0);
            seq![0x45u8] + be_i32(fields.len() as int + 4) + fields
        }),
        password_request_frame() == seq![0x52u8, 0, 0, 0, 8, 0, 0, 0, 3],
{
    let fields = seq![0x53u8] + encode_utf8("ERROR"@).push(0) + seq![0x43u8] + encode_utf8(
        code,
    ).push(0) + seq![0x4Du8] + encode_utf8(message).push(0).push(0);
    assert(error_fields(code, message) =~= fields);
    assert(error_frame(code, message) =~= seq![0x45u8] + be_i32(fields.len() as int + 4) + fields);
    reveal_with_fuel(crate::wire::be_bytes, 5);
    assert(be_i32(8) =~= seq![0u8, 0, 0, 8]);
    assert(be_i32(3) =~= seq![0u8, 0, 0, 3]);
    assert(password_request_frame() =~= seq![0x52u8, 0, 0, 0, 8, 0, 0, 0, 3]);
}

/// What is accepted as the local password, and what is wrong with anything else. A password message
/// is `p`, four bytes that are not looked at, and the password, with or without a zero byte at its
/// end, of which one is dropped; it is accepted exactly if the password is the expected one.
pub proof fn law_password_is_judged(
    message: Seq<u8>,
    length: Seq<u8>,
    given: Seq<u8>,
    expected: Seq<char>,
)
    requires
        length.len() == 4,
    ensures
        ({
            let fault = if !valid_utf8(given) {
                Some(PasswordError::NotUtf8)
            } else if given != encode_utf8(expected) {
                Some(PasswordError::Mismatch)
            } else {
                None
            };
            &&& (given.len() == 0 || given.last() != 0) ==> password_fault(
                seq![0x70u8] + length + given,
                expected,
            ) == fault
            &&& password_fault(seq![0x70u8] + length + given.push(0), expected) == fault
        }),
        message.len() == 0 ==> password_fault(message, expected) == Some(
            PasswordError::NotPasswordMessage(None),
        ),
        (message.len() > 0 && message[0] != 0x70) ==> password_fault(message, expected) == Some(
            PasswordError::NotPasswordMessage(Some(message[0])),
        ),
        (0 < message.len() < 5 && message[0] == 0x70) ==> password_fault(message, expected) == Some(
            PasswordError::TooShort,
        ),
{
    let plain = seq![0x70u8] + length + given;
    let ended = seq![0x70u8] + length + given.push(0);
    assert(plain.skip(5) =~= given);
    assert(ended.skip(5) =~= given.push(0));
    assert(given.push(0).drop_last() =~= given);
}

/// What a client's answer to the request for the local password leads to. The expected password,
/// however long it is, connects the client to the database that it asked for; every other answer
/// ends the service, and the client is told why unless what it gave is no text.
pub proof fn law_password_decides(
    db: DbSpecView,
    message: Seq<u8>,
    local_password: Seq<char>,
    text_names: bool,
)
    ensures
        ({
            let (next, action) = pg_step(
                Some(local_password),
                PgStateView::AwaitingPassword(db),
                PgEventView::Message(message),
                text_names,
            );
            match password_fault(message, local_password) {
                None => next is Connecting && action == PgActionView::Connect(db),
                Some(fault) => {
                    let told = PgErrorView::Password(fault);
                    &&& next is Closed
                    &&& match fault {
                        PasswordError::NotPasswordMessage(_) => action == (PgActionView::Refuse {
                            reply: error_frame("28P01"@, "Expected password message"@),
                            error: told,
                        }),
                        PasswordError::TooShort => action == (PgActionView::Refuse {
                            reply: error_frame("28P01"@, "Malformed password message"@),
                            error: told,
                        }),
                        PasswordError::Mismatch => action == (PgActionView::Refuse {
                            reply: error_frame("28P01"@, "Invalid local proxy password"@),
                            error: told,
                        }),
                        PasswordError::NotUtf8 => action == PgActionView::Close(told),
                    }
                },
            }
        }),
{
}

/// The right password always connects: to the request for the local password, the password message
/// that carries it is answered by the login at the backend, for the user and the database that the
/// client named, whatever four bytes stand for the length and whether or not a zero byte ends it.
pub proof fn law_right_password_connects(
    db: DbSpecView,
    length: Seq<u8>,
    local_password: Seq<char>,
    text_names: bool,
)
    requires
        length.len() == 4,
    ensures
        ({
            let state = PgStateView::AwaitingPassword(db);
            let ended = seq![0x70u8] + length + encode_utf8(local_password).push(0);
            pg_step(Some(local_password), state, PgEventView::Message(ended), text_names) == (
                PgStateView::Connecting,
                PgActionView::Connect(db),
            )
        }),
{
    broadcast use vstd::utf8::group_utf8_lib;

    let ended = seq![0x70u8] + length + encode_utf8(local_password).push(0);
    assert(ended.skip(5) =~= encode_utf8(local_password).push(0));
    assert(given_password(ended) =~= encode_utf8(local_password));
}

/// What a client's first bytes lead to: eight of them are a length and a tag. A request for TLS is
/// turned down with one letter and the client may go on; a startup message whose length is there
/// leads to the database, past the local password if there is one; everything else ends the
/// service.
pub proof fn law_first_bytes_decide(
    message: Seq<u8>,
    local_password: Option<Seq<char>>,
    text_names: bool,
)
    ensures
        ({
            let (next, action) = pg_step(
                local_password,
                PgStateView::AwaitingStartup,
                PgEventView::Message(message),
                text_names,
            );
            let length = be_i32_value(message.take(4));
            let tag = be_i32_value(message.subrange(4, 8));
            if message.len() < 8 {
                next is Closed && action == PgActionView::Close(PgErrorView::TooSmall)
            } else if length == 8 && tag == 80877103 {
                next is AwaitingStartup && action == PgActionView::Send(seq![0x4Eu8])
            } else if tag != 196608 {
                &&& next is Closed
                &&& action matches PgActionView::Close(PgErrorView::UnknownTag(unknown))
                &&& unknown == tag
            } else if 0 <= length <= message.len() {
                match startup_of(message.skip(8), text_names) {
                    Err(e) => next is Closed && action == PgActionView::Close(
                        PgErrorView::Startup(e),
                    ),
                    Ok(db) => if local_password is Some {
                        &&& next == PgStateView::AwaitingPassword(db)
                        &&& action == PgActionView::Send(
                            seq![0x52u8, 0, 0, 0, 8, 0, 0, 0, 3],
                        )
                    } else {
                        next is Connecting && action == PgActionView::Connect(db)
                    },
                }
            } else {
                &&& next is Closed
                &&& action matches PgActionView::Close(PgErrorView::Incomplete { wanted, provided })
                &&& wanted == length
                &&& message.len() <= usize::MAX ==> provided == message.len()
            }
        }),
{
    law_reply_bytes("28P01"@, ""@);
    if message.len() >= 8 {
        lemma_be_value_digits(message.take(4));
        lemma_be_value_digits(message.subrange(4, 8));
    }
}

/// A client that closes the connection ends the service, and an event is waited for exactly at the
/// start, and after the request for the local password if there is one.
pub proof fn law_closing_and_waiting(
    db: DbSpecView,
    local_password: Option<Seq<char>>,
    text_names: bool,
)
    ensures
        pg_step(
            local_password,
            PgStateView::AwaitingStartup,
            PgEventView::Closed,
            text_names,
        ) == (PgStateView::Closed, PgActionView::Close(PgErrorView::ClientClosed)),
        pg_step(
            local_password,
            PgStateView::AwaitingPassword(db),
            PgEventView::Closed,
            text_names,
        ) == (PgStateView::Closed, PgActionView::Close(PgErrorView::ClosedBeforePassword)),
        pg_waits(local_password, PgStateView::AwaitingStartup),
        pg_waits(local_password, PgStateView::AwaitingPassword(db)) <==> local_password is Some,
        !pg_waits(local_password, PgStateView::Connecting),
        !pg_waits(local_password, PgStateView::Closed),
{
}

/// A local password that is configured counts, also an empty one; only where there is none is none
/// asked for.
pub proof fn law_any_local_password_counts(local_password: Option<String>)
    ensures
        text_of(local_password) is Some <==> local_password is Some,
        local_password matches Some(text) ==> text_of(local_password) == Some(text@),
{
}

/// What is stated of a step is stated of the very bytes and texts that go in and out.
pub proof fn law_steps_are_what_they_say(
    state: PgState,
    event: PgEvent,
    action: PgAction,
    error: PgError,
    fault: StartupError,
)
    ensures
        match state {
            PgState::AwaitingStartup => state@ is AwaitingStartup,
            PgState::AwaitingPassword(db) => state@ == PgStateView::AwaitingPassword(db@),
            PgState::Connecting => state@ is Connecting,
            PgState::Closed => state@ is Closed,
        },
        match event {
            PgEvent::Message(bytes) => event@ == PgEventView::Message(buf_bytes(bytes)),
            PgEvent::Closed => event@ is Closed,
        },
        match action {
            PgAction::Send(bytes) => action@ == PgActionView::Send(shared_bytes(bytes)),
            PgAction::Connect(db) => action@ == PgActionView::Connect(db@),
            PgAction::Refuse { reply, error } => action@ matches PgActionView::Refuse {
                reply: bytes,
                error: why,
            } && bytes == shared_bytes(reply) && why == error@,
            PgAction::Close(error) => action@ == PgActionView::Close(error@),
        },
        match error {
            PgError::TooSmall => error@ is TooSmall,
            PgError::Incomplete { wanted, provided } => error@ == (PgErrorView::Incomplete {
                wanted,
                provided,
            }),
            PgError::UnknownTag(tag) => error@ == PgErrorView::UnknownTag(tag),
            PgError::Startup(e) => error@ == PgErrorView::Startup(e@),
            PgError::Password(e) => error@ == PgErrorView::Password(e),
            PgError::ClientClosed => error@ is ClientClosed,
            PgError::ClosedBeforePassword => error@ is ClosedBeforePassword,
        },
        match fault {
            StartupError::UnexpectedEof => fault@ is UnexpectedEof,
            StartupError::NotUtf8(e) => fault@ == StartupErrorView::NotUtf8(utf8_error_text(e)),
        },
{
}

} // verus!
