//! SCRAM-SHA-256, as `postgres_protocol` computes it.
//!
//! What is stated of `postgres_protocol` here is not proved: it is what its source shows. How a
//! proof is computed from a password and a challenge is left to it and only given a name.

use std::io::Error as IoError;

use postgres_protocol::authentication::sasl::{ChannelBinding, ScramSha256};
use vstd::prelude::*;
use vstd::utf8::encode_utf8;

use crate::text::io_text;

verus! {

#[verifier::external_type_specification]
#[verifier::external_body]
pub struct ExScramSha256(ScramSha256);

/// How far an exchange has come, and what has gone into it. The password is kept as it was
/// prepared.
pub enum Exchange {
    /// The client made up a nonce.
    Opened { password: Seq<u8>, nonce: Seq<char> },
    /// The server's challenge is answered.
    Answered { password: Seq<u8>, nonce: Seq<char>, challenge: Seq<u8> },
    /// Nothing can follow.
    Over,
}

/// What a `ScramSha256` holds.
pub uninterp spec fn exchange(scram: ScramSha256) -> Exchange;

/// A password in the form in which it goes into an exchange.
pub uninterp spec fn prepared(password: Seq<u8>) -> Seq<u8>;

/// The answer of a client with this password, in its prepared form, and this nonce to a challenge.
/// There is none to a challenge that is malformed, meant for another nonce, or asks for too much
/// work; then it is said what is wrong.
pub uninterp spec fn scram_answer(
    password: Seq<u8>,
    nonce: Seq<char>,
    challenge: Seq<u8>,
) -> Result<Seq<u8>, Seq<char>>;

/// Whether the server's last word shows, to a client with this password, in its prepared form, and
/// this nonce that answered this challenge, that the server knows the password too. If not, it is
/// said why not.
pub uninterp spec fn scram_verdict(
    password: Seq<u8>,
    nonce: Seq<char>,
    challenge: Seq<u8>,
    last_word: Seq<u8>,
) -> Result<(), Seq<char>>;

/// A nonce that a client makes up: 24 visible ASCII characters, no comma among them.
pub open spec fn is_client_nonce(nonce: Seq<char>) -> bool {
    &&& nonce.len() == 24
    &&& forall|i: int| 0 <= i < 24 ==> '!' <= #[trigger] nonce[i] <= '~' && nonce[i] != ','
}

/// The first message of a client that does no channel binding.
pub open spec fn client_first_message(nonce: Seq<char>) -> Seq<u8> {
    encode_utf8("n,,n=,r="@ + nonce)
}

/// `ScramSha256::new`, without channel binding: prepares the password and opens an exchange with a
/// random nonce.
#[verifier::external_body]
pub(crate) fn scram_open(password: &[u8]) -> (scram: ScramSha256)
    ensures
        match exchange(scram) {
            Exchange::Opened { password: kept, nonce } => kept == prepared(password@)
                && is_client_nonce(nonce),
            _ => false,
        },
{
    ScramSha256::new(password, ChannelBinding::unsupported())
}

/// `ScramSha256::message`: what the client has to say next. It panics when the exchange is over.
#[verifier::external_body]
pub(crate) fn scram_message(scram: &ScramSha256) -> (message: &[u8])
    requires
        !(exchange(*scram) is Over),
    ensures
        match exchange(*scram) {
            Exchange::Opened { nonce, .. } => message@ == client_first_message(nonce),
            Exchange::Answered { password, nonce, challenge } => match scram_answer(
                password,
                nonce,
                challenge,
            ) {
                Ok(answer) => message@ == answer,
                Err(_) => true,
            },
            Exchange::Over => true,
        },
{
    scram.message()
}

/// `ScramSha256::update`: takes the server's challenge. If there is no answer to it, the exchange
/// is over, and the error says why. An answer repeats the server's nonce, which is a part of the
/// challenge, and adds no more than 56 bytes to it.
#[verifier::external_body]
pub(crate) fn scram_update(scram: &mut ScramSha256, challenge: &[u8]) -> (done: Result<(), IoError>)
    requires
        exchange(*old(scram)) is Opened,
    ensures
        exchange(*old(scram)) matches Exchange::Opened { password, nonce } ==> {
            match scram_answer(password, nonce, challenge@) {
                Ok(answer) => {
                    &&& done is Ok
                    &&& exchange(*final(scram)) == (Exchange::Answered {
                        password,
                        nonce,
                        challenge: challenge@,
                    })
                    &&& answer.len() <= challenge@.len() + 56
                },
                Err(fault) => done matches Err(e) && io_text(e) == fault,
            }
        },
        done is Err ==> exchange(*final(scram)) is Over,
{
    scram.update(challenge)
}

/// `ScramSha256::finish`: takes the server's last word. The exchange is over either way; if the
/// server did not show that it knows the password, the error says why.
#[verifier::external_body]
pub(crate) fn scram_finish(scram: &mut ScramSha256, last_word: &[u8]) -> (done: Result<(), IoError>)
    requires
        exchange(*old(scram)) is Answered,
    ensures
        exchange(*old(scram)) matches Exchange::Answered { password, nonce, challenge } ==> (
        match scram_verdict(password, nonce, challenge, last_word@) {
            Ok(()) => done is Ok,
            Err(fault) => done matches Err(e) && io_text(e) == fault,
        }),
        exchange(*final(scram)) is Over,
{
    scram.finish(last_word)
}

} // verus!
