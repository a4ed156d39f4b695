//! PostgreSQL messages, as `postgres_protocol` writes and reads them.
//!
//! What is stated of `postgres_protocol` here is not proved: it is what its source shows.

use std::io::Error as IoError;

use bytes::BytesMut;
use fallible_iterator::FallibleIterator;
use postgres_protocol::message::backend::{AuthenticationSaslBody, Message, SaslMechanisms};
use postgres_protocol::message::frontend;
use vstd::prelude::*;
use vstd::string::StringSliceAdditionalSpecFns;
use vstd::utf8::{decode_utf8, encode_utf8, valid_utf8};

use crate::buffer::buf_bytes;
use crate::text::{io_text, same_text, utf8_fault};
use crate::wire::{
    be_i32, be_i32_value, be_value, cstr, lemma_be_value_digits, lemma_encode_nul_free,
    lemma_nul_after, nul_free,
};

verus! {

// ---------------------------------------------------------------------------
// Messages to the server
// ---------------------------------------------------------------------------

/// The version of the protocol, as a startup message carries it.
pub const STARTUP_MESSAGE: i32 = 196608;

/// The code that asks for TLS in place of a protocol version.
pub const SSL_REQUEST: i32 = 80877103;

/// The parameters of a startup message: names and values, each ended by a zero byte.
pub open spec fn parameter_bytes(parameters: Seq<(&str, &str)>) -> Seq<u8>
    decreases parameters.len(),
{
    if parameters.len() == 0 {
        seq![]
    } else {
        parameter_bytes(parameters.drop_last()) + cstr(parameters.last().0@) + cstr(
            parameters.last().1@,
        )
    }
}

/// A body with its length in front. The length counts itself.
pub open spec fn sized(body: Seq<u8>) -> Seq<u8> {
    be_i32(body.len() as int + 4) + body
}

/// The startup message with these parameters.
pub open spec fn startup_frame(parameters: Seq<(&str, &str)>) -> Seq<u8> {
    sized(be_i32(STARTUP_MESSAGE as int) + parameter_bytes(parameters) + seq![0u8])
}

/// The request for TLS.
pub open spec fn ssl_request_frame() -> Seq<u8> {
    sized(be_i32(SSL_REQUEST as int))
}

/// The answer to a request for a password.
pub open spec fn password_frame(password: Seq<u8>) -> Seq<u8> {
    seq!['p' as u8] + sized(password.push(0))
}

/// The first message of a SASL exchange: the mechanism and what it has to say.
pub open spec fn sasl_initial_frame(mechanism: Seq<char>, data: Seq<u8>) -> Seq<u8> {
    seq!['p' as u8] + sized(cstr(mechanism) + be_i32(data.len() as int) + data)
}

/// A later message of a SASL exchange.
pub open spec fn sasl_response_frame(data: Seq<u8>) -> Seq<u8> {
    seq!['p' as u8] + sized(data)
}

/// Whether a length can stand in the four bytes that a message has for it.
pub open spec fn length_fits(length: nat) -> bool {
    length <= i32::MAX
}

/// Whether no name and no value has a zero byte.
pub open spec fn parameters_nul_free(parameters: Seq<(&str, &str)>) -> bool {
    forall|i: int|
        0 <= i < parameters.len() ==> nul_free((#[trigger] parameters[i]).0.spec_bytes())
            && nul_free(parameters[i].1.spec_bytes())
}

/// What is said of a message that cannot be written. A zero byte is found before the length is
/// looked at.
pub open spec fn unwritable(texts_nul_free: bool) -> Seq<char> {
    if texts_nul_free {
        "value too large to transmit"@
    } else {
        "string contains embedded null"@
    }
}

/// `frontend::startup_message`: appends a startup message. It fails, and the buffer is then not to
/// be used, if a name or a value has a zero byte or the message is too long for its length field.
/// The error says which.
#[verifier::external_body]
pub(crate) fn put_startup_message(parameters: &Vec<(&str, &str)>, buf: &mut BytesMut) -> (done:
    Result<(), IoError>)
    requires
        buf_bytes(*old(buf)).len() + startup_frame(parameters@).len() <= isize::MAX,
    ensures
        done is Ok <==> (parameters_nul_free(parameters@) && length_fits(
            startup_frame(parameters@).len(),
        )),
        done is Ok ==> buf_bytes(*final(buf)) == buf_bytes(*old(buf)) + startup_frame(parameters@),
        done matches Err(e) ==> io_text(e) == unwritable(parameters_nul_free(parameters@)),
{
    frontend::startup_message(parameters.iter().copied(), buf)
}

/// `frontend::ssl_request`: appends the request for TLS.
#[verifier::external_body]
pub(crate) fn put_ssl_request(buf: &mut BytesMut)
    requires
        buf_bytes(*old(buf)).len() + 8 <= isize::MAX,
    ensures
        buf_bytes(*final(buf)) == buf_bytes(*old(buf)) + ssl_request_frame(),
{
    frontend::ssl_request(buf)
}

/// `frontend::password_message`: appends a password message. It fails, and the buffer is then not
/// to be used, if the password has a zero byte or is too long for the length field. The error says
/// which.
#[verifier::external_body]
pub(crate) fn put_password_message(password: &[u8], buf: &mut BytesMut) -> (done: Result<
    (),
    IoError,
>)
    requires
        buf_bytes(*old(buf)).len() + password_frame(password@).len() <= isize::MAX,
    ensures
        done is Ok <==> (nul_free(password@) && length_fits(password@.len() + 5)),
        done is Ok ==> buf_bytes(*final(buf)) == buf_bytes(*old(buf)) + password_frame(password@),
        done matches Err(e) ==> io_text(e) == unwritable(nul_free(password@)),
{
    frontend::password_message(password, buf)
}

/// `frontend::sasl_initial_response`: appends the first message of a SASL exchange. It fails, and
/// the buffer is then not to be used, if the mechanism's name has a zero byte or a length does not
/// fit its field.
#[verifier::external_body]
pub(crate) fn put_sasl_initial_response(mechanism: &str, data: &[u8], buf: &mut BytesMut) -> (done:
    Result<(), IoError>)
    requires
        buf_bytes(*old(buf)).len() + sasl_initial_frame(mechanism@, data@).len() <= isize::MAX,
    ensures
        done is Ok <==> (nul_free(mechanism.spec_bytes()) && length_fits(
            mechanism.spec_bytes().len() + data@.len() + 9,
        )),
        done is Ok ==> buf_bytes(*final(buf)) == buf_bytes(*old(buf)) + sasl_initial_frame(
            mechanism@,
            data@,
        ),
{
    frontend::sasl_initial_response(mechanism, data, buf)
}

/// `frontend::sasl_response`: appends a later message of a SASL exchange. It fails, and the buffer
/// is then not to be used, if the message is too long for its length field, and says so.
#[verifier::external_body]
pub(crate) fn put_sasl_response(data: &[u8], buf: &mut BytesMut) -> (done: Result<(), IoError>)
    requires
        buf_bytes(*old(buf)).len() + sasl_response_frame(data@).len() <= isize::MAX,
    ensures
        done is Ok <==> length_fits(data@.len() + 4),
        done is Ok ==> buf_bytes(*final(buf)) == buf_bytes(*old(buf)) + sasl_response_frame(data@),
        done matches Err(e) ==> io_text(e) == unwritable(true),
{
    frontend::sasl_response(data, buf)
}

// ---------------------------------------------------------------------------
// Messages from the server
// ---------------------------------------------------------------------------

#[verifier::external_type_specification]
#[verifier::external_body]
pub struct ExAuthenticationSaslBody(AuthenticationSaslBody);

#[verifier::external_type_specification]
#[verifier::external_body]
pub struct ExSaslMechanisms<'a>(SaslMechanisms<'a>);

/// A message from the server, as far as a login tells them apart.
pub enum BackendMessage {
    CleartextPassword,
    /// The server offers these mechanisms.
    Sasl(AuthenticationSaslBody),
    SaslContinue(Vec<u8>),
    SaslFinal(Vec<u8>),
    AuthenticationOk,
    ErrorResponse,
    Other,
}

/// A `BackendMessage` with bytes as sequences.
pub enum BackendMessageView {
    CleartextPassword,
    Sasl(Seq<u8>),
    SaslContinue(Seq<u8>),
    SaslFinal(Seq<u8>),
    AuthenticationOk,
    ErrorResponse,
    Other,
}

impl View for BackendMessage {
    type V = BackendMessageView;

    open spec fn view(&self) -> BackendMessageView {
        match self {
            BackendMessage::CleartextPassword => BackendMessageView::CleartextPassword,
            BackendMessage::Sasl(body) => BackendMessageView::Sasl(sasl_offer(*body)),
            BackendMessage::SaslContinue(data) => BackendMessageView::SaslContinue(data@),
            BackendMessage::SaslFinal(data) => BackendMessageView::SaslFinal(data@),
            BackendMessage::AuthenticationOk => BackendMessageView::AuthenticationOk,
            BackendMessage::ErrorResponse => BackendMessageView::ErrorResponse,
            BackendMessage::Other => BackendMessageView::Other,
        }
    }
}

/// The names that an offer of SASL mechanisms holds, as they stand on the wire.
pub uninterp spec fn sasl_offer(body: AuthenticationSaslBody) -> Seq<u8>;

/// The names that are still to be read of an offer.
pub uninterp spec fn offer_left(mechanisms: SaslMechanisms<'_>) -> Seq<u8>;

/// Whether bytes are so many texts, each ended by a zero byte, and nothing more.
pub open spec fn are_texts(bytes: Seq<u8>, count: nat) -> bool
    decreases count,
{
    if count == 0 {
        bytes.len() == 0
    } else {
        match bytes.index_of_first(0) {
            Some(end) => are_texts(bytes.skip(end + 1), (count - 1) as nat),
            None => false,
        }
    }
}

/// Whether a message that is neither about the login nor an error has the form that its tag
/// demands. What rows, columns and notices hold is not looked into.
pub open spec fn other_message_parses(tag: u8, body: Seq<u8>) -> bool {
    let letter = tag as char;
    if letter == '1' || letter == '2' || letter == '3' || letter == 'c' || letter == 'I' || letter
        == 'n' || letter == 's' {
        body.len() == 0
    } else if letter == 'd' || letter == 'N' {
        true
    } else if letter == 'D' || letter == 'T' || letter == 't' {
        body.len() >= 2
    } else if letter == 'G' || letter == 'H' {
        body.len() >= 3
    } else if letter == 'K' {
        body.len() == 8
    } else if letter == 'Z' {
        body.len() == 1
    } else if letter == 'C' {
        are_texts(body, 1)
    } else if letter == 'S' {
        are_texts(body, 2)
    } else {
        letter == 'A' && body.len() >= 4 && are_texts(body.skip(4), 2)
    }
}

/// What is said of bytes whose first message is malformed.
pub uninterp spec fn message_fault(bytes: Seq<u8>) -> Seq<char>;

/// What came of looking for a message.
pub enum Reading {
    /// There is no whole message yet.
    Incomplete,
    Malformed,
    /// A message of so many bytes.
    Message(BackendMessageView, int),
}

/// How many bytes the first message takes up, by what its length field says. The tag is not
/// counted there.
pub open spec fn message_len(bytes: Seq<u8>) -> int {
    be_value(bytes.subrange(1, 5)) as int + 1
}

/// What a message about the login says: a code, and what belongs to it.
pub open spec fn authentication_message(body: Seq<u8>) -> Option<BackendMessageView> {
    let code = be_i32_value(body.take(4));
    let data = body.skip(4);
    if body.len() < 4 {
        None
    } else if code == 10 {
        Some(BackendMessageView::Sasl(data))
    } else if code == 11 {
        Some(BackendMessageView::SaslContinue(data))
    } else if code == 12 {
        Some(BackendMessageView::SaslFinal(data))
    } else if code == 8 || (code == 5 && data.len() == 4) {
        Some(BackendMessageView::Other)
    } else if data.len() > 0 {
        None
    } else if code == 0 {
        Some(BackendMessageView::AuthenticationOk)
    } else if code == 3 {
        Some(BackendMessageView::CleartextPassword)
    } else if code == 2 || code == 6 || code == 7 || code == 9 {
        Some(BackendMessageView::Other)
    } else {
        None
    }
}

/// The first message in the bytes.
pub open spec fn first_message(bytes: Seq<u8>) -> Reading {
    let total = message_len(bytes);
    if bytes.len() < 5 {
        Reading::Incomplete
    } else if total < 5 {
        Reading::Malformed
    } else if bytes.len() < total {
        Reading::Incomplete
    } else if bytes[0] == 'R' as u8 {
        match authentication_message(bytes.subrange(5, total)) {
            Some(message) => Reading::Message(message, total),
            None => Reading::Malformed,
        }
    } else if bytes[0] == 'E' as u8 {
        Reading::Message(BackendMessageView::ErrorResponse, total)
    } else if other_message_parses(bytes[0], bytes.subrange(5, total)) {
        Reading::Message(BackendMessageView::Other, total)
    } else {
        Reading::Malformed
    }
}

/// Whether the length that a message claims can be a length in memory. Room for it is made before
/// it is there.
pub open spec fn claimed_length_fits(bytes: Seq<u8>) -> bool {
    bytes.len() >= 5 ==> message_len(bytes) <= isize::MAX
}

/// Tells whether the length that a message claims can be a length in memory.
pub fn length_claim_fits(bytes: &[u8]) -> (fits: bool)
    ensures
        fits == claimed_length_fits(bytes@),
{
    if bytes.len() < 5 {
        return true;
    }
    let claimed: u64 = bytes[1] as u64 * 16777216 + bytes[2] as u64 * 65536 + bytes[3] as u64 * 256
        + bytes[4] as u64;
    proof {
        lemma_be_value_digits(bytes@.subrange(1, 5));
    }
    claimed + 1 <= isize::MAX as u64
}

/// `Message::parse`: takes the first message out of the buffer, if a whole one is there. What it
/// says of a malformed message depends on the bytes alone. It panics on a claimed length that
/// memory cannot hold.
#[verifier::external_body]
pub(crate) fn parse_message(buf: &mut BytesMut) -> (parsed: Result<Option<BackendMessage>, IoError>)
    requires
        claimed_length_fits(buf_bytes(*old(buf))),
    ensures
        match first_message(buf_bytes(*old(buf))) {
            Reading::Incomplete => parsed matches Ok(None) && buf_bytes(*final(buf)) == buf_bytes(
                *old(buf),
            ),
            Reading::Malformed => parsed matches Err(e) && io_text(e) == message_fault(
                buf_bytes(*old(buf)),
            ),
            Reading::Message(message, total) => parsed matches Ok(Some(found)) && found@ == message
                && buf_bytes(*final(buf)) == buf_bytes(*old(buf)).skip(total),
        },
{
    let message = match Message::parse(buf)? {
        Some(message) => message,
        None => return Ok(None),
    };
    Ok(Some(match message {
        Message::AuthenticationCleartextPassword => BackendMessage::CleartextPassword,
        Message::AuthenticationSasl(body) => BackendMessage::Sasl(body),
        Message::AuthenticationSaslContinue(b) => BackendMessage::SaslContinue(b.data().to_vec()),
        Message::AuthenticationSaslFinal(body) => BackendMessage::SaslFinal(body.data().to_vec()),
        Message::AuthenticationOk => BackendMessage::AuthenticationOk,
        Message::ErrorResponse(_) => BackendMessage::ErrorResponse,
        _ => BackendMessage::Other,
    }))
}

/// `AuthenticationSaslBody::mechanisms`: the names in an offer, to be read one by one.
#[verifier::external_body]
pub(crate) fn offered_mechanisms(body: &AuthenticationSaslBody) -> (mechanisms: SaslMechanisms<'_>)
    ensures
        offer_left(mechanisms) == sasl_offer(*body),
{
    body.mechanisms()
}

/// What is next in an offer: a name, which ends at a zero byte, or an empty name, which ends the
/// offer. Of an offer that breaks off, goes on behind its end, or names what is no text, it is said
/// what is wrong.
pub open spec fn next_of_offer(offer: Seq<u8>) -> Result<Option<Seq<char>>, Seq<char>> {
    match offer.index_of_first(0) {
        None => Err("unexpected EOF"@),
        Some(end) => if end == 0 {
            if offer.len() == 1 {
                Ok(None)
            } else {
                Err("invalid message length: expected to be at end of iterator for sasl"@)
            }
        } else if valid_utf8(offer.take(end)) {
            Ok(Some(decode_utf8(offer.take(end))))
        } else {
            Err(utf8_fault(offer.take(end)))
        },
    }
}

/// What is left of an offer behind its next name.
pub open spec fn after_next(offer: Seq<u8>) -> Seq<u8> {
    offer.skip(offer.index_of_first(0)->0 + 1)
}

/// The mechanisms that an offer names, up to the empty name; or what is said of an offer that is
/// malformed, as far as it was read.
pub open spec fn mechanisms_of(offer: Seq<u8>) -> Result<Seq<Seq<char>>, Seq<char>>
    decreases offer.len(),
{
    match next_of_offer(offer) {
        Err(fault) => Err(fault),
        Ok(None) => Ok(Seq::empty()),
        Ok(Some(name)) => if after_next(offer).len() >= offer.len() {
            arbitrary()
        } else {
            match mechanisms_of(after_next(offer)) {
                Ok(rest) => Ok(seq![name] + rest),
                Err(fault) => Err(fault),
            }
        },
    }
}

/// `SaslMechanisms::next`: the next name of an offer, if there is one. It fails on an offer that
/// breaks off, goes on behind its end, or names what is no text.
#[verifier::external_body]
pub(crate) fn next_mechanism<'a>(mechanisms: &mut SaslMechanisms<'a>) -> (next: Result<
    Option<&'a str>,
    IoError,
>)
    ensures
        match next_of_offer(offer_left(*old(mechanisms))) {
            Err(fault) => next matches Err(e) && io_text(e) == fault,
            Ok(None) => next matches Ok(None),
            Ok(Some(name)) => next matches Ok(Some(found)) && found@ == name && offer_left(
                *final(mechanisms),
            ) == after_next(offer_left(*old(mechanisms))),
        },
{
    mechanisms.next()
}

/// Tells whether an offer names a mechanism.
pub fn offers(body: &AuthenticationSaslBody, wanted: &str) -> (offered: Result<bool, IoError>)
    ensures
        match offered {
            Ok(found) => mechanisms_of(sasl_offer(*body)) matches Ok(names) && found
                == names.contains(wanted@),
            Err(e) => mechanisms_of(sasl_offer(*body)) == Err::<Seq<Seq<char>>, Seq<char>>(
                io_text(e),
            ),
        },
{
    let mut has_wanted = false;
    let mut mechanisms = offered_mechanisms(body);
    let ghost all = mechanisms_of(sasl_offer(*body));
    let ghost mut seen: Seq<Seq<char>> = Seq::empty();
    proof {
        if let Ok(names) = all {
            assert(Seq::<Seq<char>>::empty() + names =~= names);
        }
    }
    loop
        invariant_except_break
            match mechanisms_of(offer_left(mechanisms)) {
                Ok(rest) => all == Ok::<Seq<Seq<char>>, Seq<char>>(seen + rest),
                Err(fault) => all == Err::<Seq<Seq<char>>, Seq<char>>(fault),
            },
            has_wanted == seen.contains(wanted@),
        invariant
            all == mechanisms_of(sasl_offer(*body)),
        ensures
            all matches Ok(names) && has_wanted == names.contains(wanted@),
        decreases offer_left(mechanisms).len(),
    {
        let ghost left = offer_left(mechanisms);
        proof {
            left.index_of_first_ensures(0);
        }
        match next_mechanism(&mut mechanisms) {
            Ok(Some(mechanism)) => {
                if same_text(mechanism, wanted) {
                    has_wanted = true;
                }
                proof {
                    let grown = seen.push(mechanism@);
                    assert(forall|name: Seq<char>| #[trigger]
                        grown.contains(name) <==> seen.contains(name) || name == mechanism@) by {
                        assert forall|name: Seq<char>| seen.contains(name) || name
                            == mechanism@ implies #[trigger] grown.contains(name) by {
                            if seen.contains(name) {
                                let i = seen.index_of(name);
                                assert(grown[i] == name);
                            } else {
                                assert(grown[seen.len() as int] == name);
                            }
                        }
                        assert forall|name: Seq<char>| #[trigger]
                            grown.contains(name) implies seen.contains(name) || name
                            == mechanism@ by {
                            let i = grown.index_of(name);
                            if i < seen.len() {
                                assert(seen[i] == name);
                            }
                        }
                    }
                    if let Ok(rest) = mechanisms_of(offer_left(mechanisms)) {
                        assert(seen + (seq![mechanism@] + rest) =~= grown + rest);
                    }
                    seen = grown;
                }
            },
            Ok(None) => {
                proof {
                    assert(seen + Seq::<Seq<char>>::empty() =~= seen);
                }
                break;
            },
            Err(e) => {
                return Err(e);
            },
        }
    }
    Ok(has_wanted)
}

// ---------------------------------------------------------------------------
// What holds of every offer
// ---------------------------------------------------------------------------

/// An offer that names these mechanisms.
pub open spec fn offer_bytes(names: Seq<Seq<char>>) -> Seq<u8>
    decreases names.len(),
{
    if names.len() == 0 {
        seq![0u8]
    } else {
        encode_utf8(names[0]).push(0) + offer_bytes(names.drop_first())
    }
}

/// An offer is read as the mechanisms that it names, in order, however many there are.
pub proof fn law_offer_reads_back(names: Seq<Seq<char>>)
    requires
        forall|i: int|
            0 <= i < names.len() ==> (#[trigger] names[i]).len() > 0 && !names[i].contains('\0'),
    ensures
        mechanisms_of(offer_bytes(names)) == Ok::<Seq<Seq<char>>, Seq<char>>(names),
    decreases names.len(),
{
    broadcast use vstd::utf8::group_utf8_lib;

    let offer = offer_bytes(names);
    offer.index_of_first_ensures(0);
    if names.len() == 0 {
        assert(offer[0] == 0);
        assert(Seq::<Seq<char>>::empty() =~= names);
    } else {
        let name = encode_utf8(names[0]);
        let rest = names.drop_first();
        assert forall|i: int| 0 <= i < rest.len() implies (#[trigger] rest[i]).len() > 0
            && !rest[i].contains('\0') by {
            assert(rest[i] == names[i + 1]);
        }
        law_offer_reads_back(rest);
        lemma_encode_nul_free(names[0]);
        lemma_nul_after(name, offer_bytes(rest));
        if name.len() == 0 {
            assert(decode_utf8(name) == names[0]);
            assert(name =~= encode_utf8(Seq::<char>::empty()));
        }
        assert(seq![names[0]] + rest =~= names);
    }
}

/// An offer that breaks off, in a name or behind one, or goes on behind its end, is malformed,
/// whatever it names before.
pub proof fn law_broken_offer_is_malformed(
    names: Seq<Seq<char>>,
    more: Seq<u8>,
    begun: Seq<u8>,
)
    requires
        !begun.contains(0),
        forall|i: int|
            0 <= i < names.len() ==> (#[trigger] names[i]).len() > 0 && !names[i].contains('\0'),
        more.len() > 0,
    ensures
        mechanisms_of(offer_bytes(names) + more) == Err::<Seq<Seq<char>>, Seq<char>>(
            "invalid message length: expected to be at end of iterator for sasl"@,
        ),
        mechanisms_of(offer_bytes(names).drop_last() + begun) == Err::<Seq<Seq<char>>, Seq<char>>(
            "unexpected EOF"@,
        ),
    decreases names.len(),
{
    broadcast use vstd::utf8::group_utf8_lib;

    let offer = offer_bytes(names);
    let long = offer + more;
    let short = offer.drop_last() + begun;
    long.index_of_first_ensures(0);
    short.index_of_first_ensures(0);
    if names.len() == 0 {
        assert(long[0] == 0);
        assert(long.contains(0));
        assert(short =~= begun);
    } else {
        let name = encode_utf8(names[0]);
        let rest = names.drop_first();
        assert forall|i: int| 0 <= i < rest.len() implies (#[trigger] rest[i]).len() > 0
            && !rest[i].contains('\0') by {
            assert(rest[i] == names[i + 1]);
        }
        law_broken_offer_is_malformed(rest, more, begun);
        lemma_encode_nul_free(names[0]);
        lemma_nul_after(name, offer_bytes(rest) + more);
        lemma_nul_after(name, offer_bytes(rest).drop_last() + begun);
        assert(offer_bytes(rest).len() > 0);
        assert(long =~= name.push(0) + (offer_bytes(rest) + more));
        assert(short =~= name.push(0) + (offer_bytes(rest).drop_last() + begun));
        if name.len() == 0 {
            assert(decode_utf8(name) == names[0]);
            assert(name =~= encode_utf8(Seq::<char>::empty()));
        }
    }
}

/// The length that a message claims stands behind its tag, highest byte first, and does not count
/// the tag. Without five bytes there is no claim.
pub proof fn law_claimed_length(bytes: Seq<u8>)
    ensures
        claimed_length_fits(bytes) <==> (bytes.len() < 5 || 16777216 * bytes[1] + 65536 * bytes[2]
            + 256 * bytes[3] + bytes[4] + 1 <= isize::MAX),
{
    if bytes.len() >= 5 {
        lemma_be_value_digits(bytes.subrange(1, 5));
    }
}

/// An offer that names what is no text is malformed at that name, whatever it names before and
/// whatever follows.
pub proof fn law_offered_names_are_text(names: Seq<Seq<char>>, bad: Seq<u8>, more: Seq<u8>)
    requires
        forall|i: int|
            0 <= i < names.len() ==> (#[trigger] names[i]).len() > 0 && !names[i].contains('\0'),
        !bad.contains(0),
        !valid_utf8(bad),
    ensures
        mechanisms_of(offer_bytes(names).drop_last() + (bad.push(0) + more)) == Err::<
            Seq<Seq<char>>,
            Seq<char>,
        >(utf8_fault(bad)),
    decreases names.len(),
{
    broadcast use vstd::utf8::group_utf8_lib;

    let offer = offer_bytes(names).drop_last() + (bad.push(0) + more);
    if names.len() == 0 {
        assert(offer =~= bad.push(0) + more);
        lemma_nul_after(bad, more);
        if bad.len() == 0 {
            assert(bad =~= encode_utf8(Seq::<char>::empty()));
        }
    } else {
        let name = encode_utf8(names[0]);
        let rest = names.drop_first();
        assert forall|i: int| 0 <= i < rest.len() implies (#[trigger] rest[i]).len() > 0
            && !rest[i].contains('\0') by {
            assert(rest[i] == names[i + 1]);
        }
        law_offered_names_are_text(rest, bad, more);
        lemma_encode_nul_free(names[0]);
        let left = offer_bytes(rest).drop_last() + (bad.push(0) + more);
        lemma_nul_after(name, left);
        assert(offer_bytes(rest).len() > 0);
        assert(offer =~= name.push(0) + left);
        if name.len() == 0 {
            assert(decode_utf8(name) == names[0]);
            assert(name =~= encode_utf8(Seq::<char>::empty()));
        }
    }
}

/// Once a whole message is there, what follows it does not change how it is read; and a message
/// that is malformed stays so.
pub proof fn law_first_message_is_read_alone(bytes: Seq<u8>, more: Seq<u8>)
    ensures
        !(first_message(bytes) is Incomplete) ==> first_message(bytes + more) == first_message(
            bytes,
        ),
        first_message(bytes) matches Reading::Message(_, total) ==> 5 <= total <= bytes.len(),
{
    let total = message_len(bytes);
    if bytes.len() >= 5 {
        assert((bytes + more).subrange(1, 5) =~= bytes.subrange(1, 5));
        if 5 <= total <= bytes.len() {
            assert((bytes + more).subrange(5, total) =~= bytes.subrange(5, total));
        }
    }
}

} // verus!
