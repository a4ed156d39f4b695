//! MySQL packets: framing, length-encoded integers, and the packets that end an exchange.

use bytes::BytesMut;
use vstd::prelude::*;
use vstd::string::StringExecFns;
use vstd::utf8::encode_utf8;

use crate::buffer::{
    buf_bytes, buf_get_u16_le, buf_get_u64_le, buf_get_u8, buf_remaining, vec_put_u16_le,
};
use crate::text::{decimal, decimal_text, lemma_lossy_of_encoded, text_lossy, utf8_lossy};
use crate::wire::{
    le_bytes, le_value, lemma_le_bytes_digits, lemma_le_bytes_len, lemma_le_round_trip,
    lemma_le_value_digits, span,
};

verus! {

// ---------------------------------------------------------------------------
// Capability flags and other numbers of the protocol
// ---------------------------------------------------------------------------

pub const CLIENT_LONG_PASSWORD: u32 = 0x0000_0001;

pub const CLIENT_FOUND_ROWS: u32 = 0x0000_0002;

pub const CLIENT_LONG_FLAG: u32 = 0x0000_0004;

pub const CLIENT_CONNECT_WITH_DB: u32 = 0x0000_0008;

pub const CLIENT_PROTOCOL_41: u32 = 0x0000_0200;

pub const CLIENT_SSL: u32 = 0x0000_0800;

pub const CLIENT_TRANSACTIONS: u32 = 0x0000_2000;

pub const CLIENT_SECURE_CONNECTION: u32 = 0x0000_8000;

pub const CLIENT_PLUGIN_AUTH: u32 = 0x0008_0000;

pub const CLIENT_PLUGIN_AUTH_LENENC_CLIENT_DATA: u32 = 0x0020_0000;

pub const CLIENT_DEPRECATE_EOF: u32 = 0x0100_0000;

/// The first byte of the packets that end a login, one way or another.
pub const OK_PACKET: u8 = 0x00;

pub const ERR_PACKET: u8 = 0xFF;

pub const EOF_PACKET: u8 = 0xFE;

/// `#`, in front of the SQL state of an ERR packet.
pub const SQL_STATE_MARKER: u8 = 0x23;

/// Character set: utf8mb4 general ci.
pub const CHARSET_UTF8MB4: u8 = 45;

/// The longest packet that either side announces (16 MB).
pub const MAX_PACKET_SIZE: u32 = 16 * 1024 * 1024;

/// The longest payload that a packet's three length bytes can announce.
pub const MAX_PAYLOAD: usize = 0xFF_FFFF;

// ---------------------------------------------------------------------------
// Framing
// ---------------------------------------------------------------------------

#[derive(Clone, Copy, Debug, PartialEq, Eq, Structural)]
pub enum PacketError {
    /// A header announces more bytes than a packet may have.
    LengthExceedsMaximum(usize),
    /// A payload of so many bytes does not fit one packet.
    TooLarge(usize),
}

/// A packet on the wire: three bytes of length, the sequence number, the payload.
pub open spec fn packet_frame(seq_id: u8, payload: Seq<u8>) -> Seq<u8> {
    le_bytes(payload.len(), 3) + seq![seq_id] + payload
}

/// Reads a packet's header: how long the payload is, and the sequence number. Three bytes cannot
/// announce more than the maximum, so every header is accepted.
pub fn read_packet_header(header: &[u8; 4]) -> (read: Result<(usize, u8), PacketError>)
    ensures
        read matches Ok((length, seq_id)) && length == le_value(header@.take(3)) && seq_id
            == header@[3],
{
    let length: usize = header[0] as usize + header[1] as usize * 256 + header[2] as usize * 65536;
    proof {
        lemma_le_value_digits(header@.take(3));
    }
    if length > MAX_PACKET_SIZE as usize {
        return Err(PacketError::LengthExceedsMaximum(length));
    }
    Ok((length, header[3]))
}

/// Frames a payload as one packet. A payload that three bytes of length cannot announce is
/// refused.
pub fn frame_packet(seq_id: u8, payload: &[u8]) -> (framed: Result<Vec<u8>, PacketError>)
    ensures
        match framed {
            Ok(frame) => payload@.len() <= MAX_PAYLOAD && frame@ == packet_frame(seq_id, payload@),
            Err(e) => payload@.len() > MAX_PAYLOAD && e == PacketError::TooLarge(
                payload@.len() as usize,
            ),
        },
{
    let len: usize = payload.len();
    if len > MAX_PAYLOAD {
        return Err(PacketError::TooLarge(len));
    }
    let mut frame: Vec<u8> = Vec::new();
    frame.push((len % 256) as u8);
    frame.push((len / 256 % 256) as u8);
    frame.push((len / 65536 % 256) as u8);
    frame.push(seq_id);
    frame.extend_from_slice(payload);
    proof {
        lemma_le_bytes_digits(len as nat);
        assert(frame@ =~= packet_frame(seq_id, payload@));
    }
    Ok(frame)
}

/// What is framed is read back: the header of a framed payload announces the payload's length and
/// the sequence number, and the payload follows it.
pub proof fn law_frame_round_trip(seq_id: u8, payload: Seq<u8>)
    requires
        payload.len() <= MAX_PAYLOAD,
    ensures
        packet_frame(seq_id, payload).len() == 4 + payload.len(),
        le_value(packet_frame(seq_id, payload).take(4).take(3)) == payload.len(),
        packet_frame(seq_id, payload).take(4)[3] == seq_id,
        packet_frame(seq_id, payload).skip(4) == payload,
{
    let frame = packet_frame(seq_id, payload);
    lemma_le_bytes_len(payload.len(), 3);
    reveal_with_fuel(span, 4);
    lemma_le_round_trip(payload.len(), 3);
    assert(frame.take(4).take(3) =~= le_bytes(payload.len(), 3));
    assert(frame.skip(4) =~= payload);
}

/// A payload fits one packet if three bytes can tell its length, and then the three bytes are the
/// digits of the length, lowest first, in front of the sequence number and the payload.
pub proof fn law_frame_bytes(seq_id: u8, payload: Seq<u8>)
    ensures
        payload.len() <= MAX_PAYLOAD <==> payload.len() < 256 * 256 * 256,
        payload.len() < 256 * 256 * 256 ==> ({
            let frame = packet_frame(seq_id, payload);
            &&& frame[0] + 256 * frame[1] + 65536 * frame[2] == payload.len()
            &&& frame[3] == seq_id
            &&& frame == frame.take(4) + payload
        }),
{
    let frame = packet_frame(seq_id, payload);
    let len = payload.len();
    lemma_le_bytes_digits(len);
    assert(frame.take(4) + payload =~= frame);
}

// ---------------------------------------------------------------------------
// Length-encoded integers
// ---------------------------------------------------------------------------

#[derive(Clone, Copy, Debug, PartialEq, Eq, Structural)]
pub enum LenencError {
    UnexpectedEnd,
    TruncatedTwoByte,
    TruncatedThreeByte,
    TruncatedEightByte,
    /// The prefix of an error packet, not of a number.
    ErrMarker,
}

/// The length-encoded integer at the front of `bytes`, and how many bytes it takes up.
pub open spec fn lenenc_int(bytes: Seq<u8>) -> Result<(u64, int), LenencError> {
    if bytes.len() == 0 {
        Err(LenencError::UnexpectedEnd)
    } else if bytes[0] <= 0xFA {
        Ok((bytes[0] as u64, 1))
    } else if bytes[0] == 0xFB {
        Ok((0, 1))
    } else if bytes[0] == 0xFC {
        if bytes.len() < 3 {
            Err(LenencError::TruncatedTwoByte)
        } else {
            Ok((le_value(bytes.subrange(1, 3)) as u64, 3))
        }
    } else if bytes[0] == 0xFD {
        if bytes.len() < 4 {
            Err(LenencError::TruncatedThreeByte)
        } else {
            Ok((le_value(bytes.subrange(1, 4)) as u64, 4))
        }
    } else if bytes[0] == 0xFE {
        if bytes.len() < 9 {
            Err(LenencError::TruncatedEightByte)
        } else {
            Ok((le_value(bytes.subrange(1, 9)) as u64, 9))
        }
    } else {
        Err(LenencError::ErrMarker)
    }
}

/// Reads a length-encoded integer from the front of the buffer. Where the number is cut off or the
/// prefix is not a number's, only the prefix is consumed.
pub fn read_lenenc_int(buf: &mut BytesMut) -> (read: Result<u64, LenencError>)
    ensures
        match read {
            Ok(n) => lenenc_int(buf_bytes(*old(buf))) matches Ok((value, width)) && n == value
                && buf_bytes(*final(buf)) == buf_bytes(*old(buf)).skip(width),
            Err(e) => lenenc_int(buf_bytes(*old(buf))) == Err::<(u64, int), LenencError>(e)
                && buf_bytes(*final(buf)) == (if buf_bytes(*old(buf)).len() == 0 {
                buf_bytes(*old(buf))
            } else {
                buf_bytes(*old(buf)).skip(1)
            }),
        },
{
    let ghost all = buf_bytes(*buf);
    if buf_remaining(buf) == 0 {
        return Err(LenencError::UnexpectedEnd);
    }
    let first: u8 = buf_get_u8(buf);
    if first <= 0xFA {
        Ok(first as u64)
    } else if first == 0xFC {
        if buf_remaining(buf) < 2 {
            return Err(LenencError::TruncatedTwoByte);
        }
        let n: u16 = buf_get_u16_le(buf);
        proof {
            assert(all.skip(1).take(2) =~= all.subrange(1, 3));
            assert(all.skip(1).skip(2) =~= all.skip(3));
        }
        Ok(n as u64)
    } else if first == 0xFD {
        if buf_remaining(buf) < 3 {
            return Err(LenencError::TruncatedThreeByte);
        }
        let b0: u64 = buf_get_u8(buf) as u64;
        let b1: u64 = buf_get_u8(buf) as u64;
        let b2: u64 = buf_get_u8(buf) as u64;
        proof {
            assert(b0 < 256 && b1 < 256 && b2 < 256 ==> b0 | (b1 << 8) | (b2 << 16) == b0 + 256 * b1
                + 65536 * b2) by (bit_vector);
            lemma_le_value_digits(all.subrange(1, 4));
            assert(all.skip(1).skip(1).skip(1).skip(1) =~= all.skip(4));
        }
        Ok(b0 | (b1 << 8) | (b2 << 16))
    } else if first == 0xFE {
        if buf_remaining(buf) < 8 {
            return Err(LenencError::TruncatedEightByte);
        }
        let n: u64 = buf_get_u64_le(buf);
        proof {
            assert(all.skip(1).take(8) =~= all.subrange(1, 9));
            assert(all.skip(1).skip(8) =~= all.skip(9));
        }
        Ok(n)
    } else if first == 0xFB {
        // NULL in lenenc context
        Ok(0)
    } else {
        Err(LenencError::ErrMarker)
    }
}

/// A length-encoded integer is its own first byte up to 250, or the two, three or eight bytes
/// behind the prefix 0xFC, 0xFD or 0xFE, lowest first; the prefix 0xFB stands for nothing. What
/// follows does not matter.
pub proof fn law_lenenc_reads_back(number: Seq<u8>, rest: Seq<u8>)
    ensures
        ({
            let bytes = number + rest;
            &&& (number.len() == 1 && number[0] <= 250) ==> lenenc_int(bytes) == Ok::<
                (u64, int),
                LenencError,
            >((number[0] as u64, 1))
            &&& number == seq![0xFBu8] ==> lenenc_int(bytes) == Ok::<(u64, int), LenencError>(
                (0, 1),
            )
            &&& (number.len() == 3 && number[0] == 0xFC) ==> (lenenc_int(bytes) matches Ok((n, w))
                && n == number[1] + 256 * number[2] && w == 3)
            &&& (number.len() == 4 && number[0] == 0xFD) ==> (lenenc_int(bytes) matches Ok((n, w))
                && n == number[1] + 256 * number[2] + 65536 * number[3] && w == 4)
            &&& (number.len() == 9 && number[0] == 0xFE) ==> (lenenc_int(bytes) matches Ok((n, w))
                && n == le_value(number.skip(1)) && w == 9)
        }),
{
    let bytes = number + rest;
    if number.len() == 3 {
        assert(bytes.subrange(1, 3) =~= number.skip(1));
        lemma_le_value_digits(number.skip(1));
    } else if number.len() == 4 {
        assert(bytes.subrange(1, 4) =~= number.skip(1));
        lemma_le_value_digits(number.skip(1));
    } else if number.len() == 9 {
        assert(bytes.subrange(1, 9) =~= number.skip(1));
        lemma_le_value_bound(number.skip(1));
        reveal_with_fuel(span, 9);
    }
}

/// Bytes spell no number beyond what so many can tell apart.
proof fn lemma_le_value_bound(bytes: Seq<u8>)
    ensures
        le_value(bytes) < span(bytes.len()),
    decreases bytes.len(),
{
    if bytes.len() > 0 {
        lemma_le_value_bound(bytes.drop_first());
    }
}

/// Where there is no length-encoded integer: in nothing, behind the prefix 0xFF, and where fewer
/// bytes follow a prefix than it announces.
pub proof fn law_lenenc_errors(bytes: Seq<u8>)
    ensures
        bytes.len() == 0 ==> lenenc_int(bytes) == Err::<(u64, int), LenencError>(
            LenencError::UnexpectedEnd,
        ),
        (bytes.len() > 0 && bytes[0] == 0xFF) ==> lenenc_int(bytes) == Err::<
            (u64, int),
            LenencError,
        >(LenencError::ErrMarker),
        (0 < bytes.len() < 3 && bytes[0] == 0xFC) ==> lenenc_int(bytes) == Err::<
            (u64, int),
            LenencError,
        >(LenencError::TruncatedTwoByte),
        (0 < bytes.len() < 4 && bytes[0] == 0xFD) ==> lenenc_int(bytes) == Err::<
            (u64, int),
            LenencError,
        >(LenencError::TruncatedThreeByte),
        (0 < bytes.len() < 9 && bytes[0] == 0xFE) ==> lenenc_int(bytes) == Err::<
            (u64, int),
            LenencError,
        >(LenencError::TruncatedEightByte),
{
}

// ---------------------------------------------------------------------------
// OK and ERR packets
// ---------------------------------------------------------------------------

/// Where the message of an ERR packet starts: behind the error code, and behind the SQL state if
/// one is marked.
pub open spec fn err_message_start(payload: Seq<u8>) -> int {
    if payload.len() > 3 && payload[3] == SQL_STATE_MARKER {
        if payload.len() < 9 {
            payload.len() as int
        } else {
            9
        }
    } else {
        3
    }
}

/// What an ERR packet says, for a reader.
pub open spec fn err_text(payload: Seq<u8>) -> Seq<char> {
    if payload.len() < 3 {
        "Unknown error (packet too short)"@
    } else {
        "Error "@ + decimal(le_value(payload.subrange(1, 3))) + ": "@ + utf8_lossy(
            payload.skip(err_message_start(payload)),
        )
    }
}

/// Parses an ERR packet to extract the error message. A packet too short to have an error code
/// gets a fixed text.
pub fn parse_err_packet(payload: &[u8]) -> (text: Result<String, PacketError>)
    ensures
        text matches Ok(said) && said@ == err_text(payload@),
{
    if payload.len() < 3 {
        return Ok("Unknown error (packet too short)".to_owned());
    }
    // [0xFF][error_code: 2 bytes LE][#sql_state: 6 bytes][message]
    let error_code: u16 = payload[1] as u16 + payload[2] as u16 * 256;
    let msg_start: usize = if payload.len() > 3 && payload[3] == SQL_STATE_MARKER {
        // SQL state marker present: skip '#' + 5 bytes of state
        if payload.len() < 9 {
            payload.len()
        } else {
            9
        }
    } else {
        3
    };
    let message = text_lossy(vstd::slice::slice_subrange(payload, msg_start, payload.len()));
    let mut text = "Error ".to_owned();
    text.append(decimal_text(error_code as u64).as_str());
    text.append(": ");
    text.append(message.as_str());
    proof {
        lemma_le_value_digits(payload@.subrange(1, 3));
        assert(payload@.subrange(msg_start as int, payload@.len() as int) =~= payload@.skip(
            msg_start as int,
        ));
    }
    Ok(text)
}

/// An OK packet: nothing affected, nothing inserted, autocommit, no warnings.
pub open spec fn ok_packet() -> Seq<u8> {
    seq![OK_PACKET, 0, 0] + le_bytes(0x0002, 2) + le_bytes(0, 2)
}

/// Builds the OK packet that a client gets after successful backend auth.
pub fn build_ok_packet() -> (packet: Vec<u8>)
    ensures
        packet@ == ok_packet(),
{
    let mut buf: Vec<u8> = Vec::new();
    buf.push(OK_PACKET);  // header
    buf.push(0);  // affected_rows (lenenc 0)
    buf.push(0);  // last_insert_id (lenenc 0)
    proof {
        lemma_le_bytes_len(0x0002, 2);
    }
    vec_put_u16_le(&mut buf, 0x0002);  // status flags: SERVER_STATUS_AUTOCOMMIT
    vec_put_u16_le(&mut buf, 0);  // warnings
    proof {
        assert(buf@ =~= ok_packet());
    }
    buf
}

/// An ERR packet.
pub open spec fn err_packet(error_code: u16, sql_state: Seq<char>, message: Seq<char>) -> Seq<u8> {
    seq![ERR_PACKET] + le_bytes(error_code as nat, 2) + seq![SQL_STATE_MARKER] + encode_utf8(
        sql_state,
    ) + encode_utf8(message)
}

/// Builds an ERR packet to send to the client.
pub fn build_err_packet(error_code: u16, sql_state: &str, message: &str) -> (packet: Vec<u8>)
    ensures
        packet@ == err_packet(error_code, sql_state@, message@),
{
    let mut buf: Vec<u8> = Vec::new();
    buf.push(ERR_PACKET);
    vec_put_u16_le(&mut buf, error_code);
    buf.push(SQL_STATE_MARKER);
    buf.extend_from_slice(sql_state.as_bytes());  // 5 bytes
    buf.extend_from_slice(message.as_bytes());
    proof {
        assert(buf@ =~= err_packet(error_code, sql_state@, message@));
    }
    buf
}

/// An ERR packet with a five-byte SQL state reads back as its error code and its message.
pub proof fn law_err_packet_round_trip(error_code: u16, sql_state: Seq<char>, message: Seq<char>)
    requires
        encode_utf8(sql_state).len() == 5,
    ensures
        err_text(err_packet(error_code, sql_state, message)) == "Error "@ + decimal(
            error_code as nat,
        ) + ": "@ + message,
{
    let packet = err_packet(error_code, sql_state, message);
    lemma_le_bytes_len(error_code as nat, 2);
    reveal_with_fuel(span, 3);
    lemma_le_round_trip(error_code as nat, 2);
    lemma_lossy_of_encoded(message);
    assert(packet.subrange(1, 3) =~= le_bytes(error_code as nat, 2));
    assert(packet[3] == SQL_STATE_MARKER);
    assert(packet.skip(9) =~= encode_utf8(message));
}

/// What a server says in an ERR packet is shown in full, with its code: behind `#` and five more
/// bytes if the first byte behind the code is that, and right behind the code if not. A packet
/// without a code has a text of its own.
pub proof fn law_err_packet_is_shown(
    marker: u8,
    code: Seq<u8>,
    state: Seq<u8>,
    message: Seq<u8>,
)
    requires
        code.len() == 2,
        state.len() == 5,
    ensures
        err_text(seq![marker] + code + seq![0x23u8] + state + message) == "Error "@ + decimal(
            (code[0] + 256 * code[1]) as nat,
        ) + ": "@ + utf8_lossy(message),
        (message.len() == 0 || message[0] != 0x23) ==> err_text(seq![marker] + code + message)
            == "Error "@ + decimal((code[0] + 256 * code[1]) as nat) + ": "@ + utf8_lossy(message),
        forall|part: int|
            0 <= part < 5 ==> err_text(
                #[trigger] (seq![marker] + code + seq![0x23u8] + state.take(part)),
            ) == "Error "@ + decimal((code[0] + 256 * code[1]) as nat) + ": "@ + utf8_lossy(
                Seq::<u8>::empty(),
            ),
        err_text(seq![marker]) == "Unknown error (packet too short)"@,
        err_text(seq![marker] + code.take(1)) == "Unknown error (packet too short)"@,
        err_text(Seq::<u8>::empty()) == "Unknown error (packet too short)"@,
{
    let marked = seq![marker] + code + seq![0x23u8] + state + message;
    let plain = seq![marker] + code + message;
    lemma_le_value_digits(code);
    assert(marked.subrange(1, 3) =~= code);
    assert(marked.skip(9) =~= message);
    assert(plain.subrange(1, 3) =~= code);
    assert(plain.skip(3) =~= message);
    assert forall|part: int| 0 <= part < 5 implies err_text(
        #[trigger] (seq![marker] + code + seq![0x23u8] + state.take(part)),
    ) == "Error "@ + decimal((code[0] + 256 * code[1]) as nat) + ": "@ + utf8_lossy(
        Seq::<u8>::empty(),
    ) by {
        let cut = seq![marker] + code + seq![0x23u8] + state.take(part);
        assert(cut.subrange(1, 3) =~= code);
        assert(cut.skip(cut.len() as int) =~= Seq::<u8>::empty());
    }
}

/// The bytes of what a client is told: an ERR packet starts with 0xFF, its code follows lowest byte
/// first, then `#`, the SQL state and the message; an OK packet says that autocommit is on and
/// nothing else.
pub proof fn law_packet_bytes(error_code: u16, sql_state: Seq<char>, message: Seq<char>)
    ensures
        ({
            let packet = err_packet(error_code, sql_state, message);
            &&& packet.len() == 4 + encode_utf8(sql_state).len() + encode_utf8(message).len()
            &&& packet[0] == 0xFF
            &&& packet[1] + 256 * packet[2] == error_code
            &&& packet[3] == 0x23
            &&& packet.skip(4) == encode_utf8(sql_state) + encode_utf8(message)
        }),
        ok_packet() == seq![0u8, 0, 0, 2, 0, 0, 0],
{
    let packet = err_packet(error_code, sql_state, message);
    lemma_le_bytes_digits(error_code as nat);
    lemma_le_bytes_digits(2);
    lemma_le_bytes_digits(0);
    assert(packet.skip(4) =~= encode_utf8(sql_state) + encode_utf8(message));
    assert(ok_packet() =~= seq![0u8, 0, 0, 2, 0, 0, 0]);
}

} // verus!
