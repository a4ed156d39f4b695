//! The packets that open a MySQL session: what a server says first, and what a client answers.

use vstd::prelude::*;
use vstd::utf8::encode_utf8;

use crate::buffer::{
    buf_advance, buf_bytes, buf_copy_to_slice, buf_from, buf_get_u16_le, buf_get_u32_le,
    buf_get_u8, buf_remaining, buf_slice, vec_put_u16_le, vec_put_u32_le, vec_put_u8,
};
use crate::mysql_packet::{
    lenenc_int, read_lenenc_int, LenencError, CHARSET_UTF8MB4, CLIENT_CONNECT_WITH_DB,
    CLIENT_DEPRECATE_EOF, CLIENT_FOUND_ROWS, CLIENT_LONG_FLAG, CLIENT_LONG_PASSWORD,
    CLIENT_PLUGIN_AUTH, CLIENT_PLUGIN_AUTH_LENENC_CLIENT_DATA, CLIENT_PROTOCOL_41,
    CLIENT_SECURE_CONNECTION, CLIENT_SSL, CLIENT_TRANSACTIONS, MAX_PACKET_SIZE,
};
use crate::text::{lemma_lossy_of_encoded, text_lossy, utf8_lossy};
use crate::wire::{
    before_nul, cstr, find_nul, le_bytes, le_value, lemma_encode_nul_free, lemma_le_bytes_digits,
    lemma_le_bytes_len, lemma_le_round_trip, lemma_le_value_digits, lemma_nul_after, nul_free,
    span,
};

verus! {

// ---------------------------------------------------------------------------
// Reading a server's handshake
// ---------------------------------------------------------------------------

/// What a server says first.
#[derive(Debug)]
pub struct HandshakeV10 {
    pub protocol_version: u8,
    pub server_version: String,
    pub connection_id: u32,
    pub auth_plugin_data_part1: Vec<u8>,  // 8 bytes
    pub capability_flags: u32,
    pub character_set: u8,
    pub status_flags: u16,
    pub auth_plugin_data_part2: Vec<u8>,  // up to 13 bytes
    pub auth_plugin_name: String,
}

/// A `HandshakeV10` as numbers, text and byte strings.
#[verifier::ext_equal]
pub struct HandshakeView {
    pub protocol_version: u8,
    pub server_version: Seq<char>,
    pub connection_id: u32,
    pub auth_plugin_data_part1: Seq<u8>,
    pub capability_flags: u32,
    pub character_set: u8,
    pub status_flags: u16,
    pub auth_plugin_data_part2: Seq<u8>,
    pub auth_plugin_name: Seq<char>,
}

impl View for HandshakeV10 {
    type V = HandshakeView;

    open spec fn view(&self) -> HandshakeView {
        HandshakeView {
            protocol_version: self.protocol_version,
            server_version: self.server_version@,
            connection_id: self.connection_id,
            auth_plugin_data_part1: self.auth_plugin_data_part1@,
            capability_flags: self.capability_flags,
            character_set: self.character_set,
            status_flags: self.status_flags,
            auth_plugin_data_part2: self.auth_plugin_data_part2@,
            auth_plugin_name: self.auth_plugin_name@,
        }
    }
}

#[derive(Clone, Copy, Debug, PartialEq, Eq, Structural)]
pub enum HandshakeError {
    EmptyPayload,
    UnsupportedVersion(u8),
    MissingServerVersionNul,
    TruncatedAfterServerVersion,
    MissingReserved,
}

/// Where a packet's server version ends, counted from behind the version byte.
pub open spec fn version_end(data: Seq<u8>) -> Option<int> {
    data.skip(1).index_of_first(0)
}

/// What follows the server version.
pub open spec fn after_version(data: Seq<u8>) -> Seq<u8> {
    data.skip(1).skip(version_end(data)->0 + 1)
}

/// Whether a packet breaks off right before the length of the auth data, which is then read
/// without looking.
pub open spec fn ends_before_auth_length(data: Seq<u8>) -> bool {
    data.len() > 0 && data[0] == 10 && version_end(data) is Some && after_version(data).len() == 20
}

/// The capability flags: the lower half stands before the character set, the upper half behind
/// the status flags. Older servers leave out the upper half.
pub open spec fn capability_flags(rest: Seq<u8>) -> u32 {
    if rest.len() < 20 {
        le_value(rest.subrange(13, 15)) as u32
    } else {
        le_value(rest.subrange(13, 15) + rest.subrange(18, 20)) as u32
    }
}

/// How many bytes the second part of the auth data takes up. It is padded to thirteen bytes, as
/// far as there are so many, and only there for a server with secure connections.
pub open spec fn part2_len(rest: Seq<u8>) -> int {
    let flags = capability_flags(rest);
    let announced: int = if flags & CLIENT_PLUGIN_AUTH != 0 {
        rest[20] as int
    } else {
        0
    };
    let wanted: int = if announced - 8 > 13 {
        announced - 8
    } else {
        13
    };
    if flags & CLIENT_SECURE_CONNECTION == 0 {
        0
    } else if wanted < rest.len() - 31 {
        wanted
    } else {
        rest.len() - 31
    }
}

/// A byte string without the one zero byte that may end it.
pub open spec fn without_final_nul(bytes: Seq<u8>) -> Seq<u8> {
    if bytes.len() > 0 && bytes.last() == 0 {
        bytes.drop_last()
    } else {
        bytes
    }
}

/// What the fields behind the server version say.
pub open spec fn handshake_fields(server_version: Seq<char>, rest: Seq<u8>) -> Result<
    HandshakeView,
    HandshakeError,
> {
    let short = HandshakeView {
        protocol_version: 10,
        server_version,
        connection_id: le_value(rest.take(4)) as u32,
        auth_plugin_data_part1: rest.subrange(4, 12),
        capability_flags: capability_flags(rest),
        character_set: 0,
        status_flags: 0,
        auth_plugin_data_part2: Seq::empty(),
        auth_plugin_name: Seq::empty(),
    };
    if rest.len() < 15 {
        Err(HandshakeError::TruncatedAfterServerVersion)
    } else if rest.len() < 20 {
        Ok(short)
    } else if rest.len() < 31 {
        Err(HandshakeError::MissingReserved)
    } else {
        Ok(
            HandshakeView {
                character_set: rest[15],
                status_flags: le_value(rest.subrange(16, 18)) as u16,
                auth_plugin_data_part2: without_final_nul(rest.subrange(31, 31 + part2_len(rest))),
                auth_plugin_name: if capability_flags(rest) & CLIENT_PLUGIN_AUTH != 0 {
                    utf8_lossy(before_nul(rest.skip(31 + part2_len(rest))))
                } else {
                    Seq::empty()
                },
                ..short
            },
        )
    }
}

/// What a server's first packet says.
pub open spec fn handshake_of(data: Seq<u8>) -> Result<HandshakeView, HandshakeError> {
    if data.len() == 0 {
        Err(HandshakeError::EmptyPayload)
    } else if data[0] != 10 {
        Err(HandshakeError::UnsupportedVersion(data[0]))
    } else {
        match version_end(data) {
            None => Err(HandshakeError::MissingServerVersionNul),
            Some(end) => handshake_fields(
                utf8_lossy(data.skip(1).take(end)),
                after_version(data),
            ),
        }
    }
}

/// The two halves of the capability flags make one number.
proof fn lemma_flag_halves(lower: Seq<u8>, upper: Seq<u8>, low: u32, high: u32)
    requires
        lower.len() == 2,
        upper.len() == 2,
        low == le_value(lower),
        high == le_value(upper),
    ensures
        low | (high << 16) == le_value(lower + upper),
{
    lemma_le_value_digits(lower);
    lemma_le_value_digits(upper);
    lemma_le_value_digits(lower + upper);
    assert(low < 65536 && high < 65536 ==> low | (high << 16) == low + 65536 * high)
        by (bit_vector);
}

/// No bytes read as no text.
proof fn lemma_lossy_empty()
    ensures
        utf8_lossy(Seq::empty()) == Seq::<char>::empty(),
{
    broadcast use vstd::utf8::group_utf8_lib;

    assert(encode_utf8(Seq::<char>::empty()) =~= Seq::<u8>::empty());
    lemma_lossy_of_encoded(Seq::empty());
}

impl HandshakeV10 {
    /// Parses a server's first packet. The packet must not break off right before the length of
    /// the auth data.
    pub fn parse(data: &[u8]) -> (parsed: Result<Self, HandshakeError>)
        requires
            !ends_before_auth_length(data@),
        ensures
            match parsed {
                Ok(handshake) => handshake_of(data@) == Ok::<HandshakeView, HandshakeError>(
                    handshake@,
                ),
                Err(e) => handshake_of(data@) == Err::<HandshakeView, HandshakeError>(e),
            },
    {
        let mut buf = buf_from(data);
        if buf_remaining(&buf) < 1 {
            return Err(HandshakeError::EmptyPayload);
        }
        let protocol_version: u8 = buf_get_u8(&mut buf);
        if protocol_version != 10 {
            return Err(HandshakeError::UnsupportedVersion(protocol_version));
        }
        // Null-terminated server version string

        let nul_pos: usize = match find_nul(buf_slice(&buf)) {
            Some(position) => position,
            None => {
                return Err(HandshakeError::MissingServerVersionNul);
            },
        };
        proof {
            buf_bytes(buf).index_of_first_ensures(0);
        }
        let server_version = text_lossy(
            vstd::slice::slice_subrange(buf_slice(&buf), 0, nul_pos),
        );
        proof {
            assert(buf_bytes(buf).subrange(0, nul_pos as int) =~= data@.skip(1).take(
                nul_pos as int,
            ));
        }
        buf_advance(&mut buf, nul_pos + 1);
        let ghost rest = buf_bytes(buf);
        assert(rest == after_version(data@));
        if buf_remaining(&buf) < 4 + 8 + 1 + 2 {
            return Err(HandshakeError::TruncatedAfterServerVersion);
        }
        let connection_id: u32 = buf_get_u32_le(&mut buf);
        let mut auth_plugin_data_part1: Vec<u8> = vec![0u8; 8];
        buf_copy_to_slice(&mut buf, &mut auth_plugin_data_part1);
        let _filler: u8 = buf_get_u8(&mut buf);  // always 0x00
        let capability_flags_lower: u32 = buf_get_u16_le(&mut buf) as u32;
        proof {
            assert(rest.skip(4).take(8) =~= rest.subrange(4, 12));
            assert(rest.skip(4).skip(8).skip(1).take(2) =~= rest.subrange(13, 15));
            assert(buf_bytes(buf) =~= rest.skip(15));
        }
        // The rest is optional but RDS always sends it.
        if buf_remaining(&buf) < 1 + 2 + 2 {
            return Ok(
                HandshakeV10 {
                    protocol_version,
                    server_version,
                    connection_id,
                    auth_plugin_data_part1,
                    capability_flags: capability_flags_lower,
                    character_set: 0,
                    status_flags: 0,
                    auth_plugin_data_part2: vec![],
                    auth_plugin_name: String::new(),
                },
            );
        }
        let character_set: u8 = buf_get_u8(&mut buf);
        let status_flags: u16 = buf_get_u16_le(&mut buf);
        let capability_flags_upper: u32 = buf_get_u16_le(&mut buf) as u32;
        let capability_flags: u32 = capability_flags_lower | (capability_flags_upper << 16);
        proof {
            assert(rest.skip(15).skip(1).take(2) =~= rest.subrange(16, 18));
            assert(rest.skip(15).skip(1).skip(2).take(2) =~= rest.subrange(18, 20));
            assert(buf_bytes(buf) =~= rest.skip(20));
            lemma_flag_halves(
                rest.subrange(13, 15),
                rest.subrange(18, 20),
                capability_flags_lower,
                capability_flags_upper,
            );
        }
        // Length of auth-plugin-data (if CLIENT_PLUGIN_AUTH), else 0
        let auth_plugin_data_len: usize = if capability_flags & CLIENT_PLUGIN_AUTH != 0 {
            buf_get_u8(&mut buf) as usize
        } else {
            let _zero: u8 = buf_get_u8(&mut buf);  // 0x00
            0
        };
        // Reserved 10 bytes of zeros
        if buf_remaining(&buf) < 10 {
            return Err(HandshakeError::MissingReserved);
        }
        buf_advance(&mut buf, 10);
        proof {
            assert(buf_bytes(buf) =~= rest.skip(31));
        }
        // auth-plugin-data-part-2 (if CLIENT_SECURE_CONNECTION)
        let auth_plugin_data_part2: Vec<u8> = if capability_flags & CLIENT_SECURE_CONNECTION != 0 {
            let part2_len: usize = if auth_plugin_data_len > 8 + 13 {
                auth_plugin_data_len - 8
            } else {
                13
            };
            let actual_len: usize = if part2_len < buf_remaining(&buf) {
                part2_len
            } else {
                buf_remaining(&buf)
            };
            let mut part2: Vec<u8> = vec![0u8; actual_len];
            buf_copy_to_slice(&mut buf, &mut part2);
            proof {
                assert(part2@ =~= rest.subrange(31, 31 + actual_len));
            }
            // Strip trailing NUL if present
            if part2.len() > 0 && part2[part2.len() - 1] == 0 {
                part2.pop();
            }
            part2
        } else {
            vec![]
        };
        proof {
            assert(auth_plugin_data_part2@ =~= without_final_nul(
                rest.subrange(31, 31 + part2_len(rest)),
            ));
            assert(buf_bytes(buf) =~= rest.skip(31 + part2_len(rest)));
            if buf_bytes(buf).len() == 0 {
                lemma_lossy_empty();
                buf_bytes(buf).index_of_first_ensures(0);
                assert(before_nul(buf_bytes(buf)) =~= Seq::<u8>::empty());
            }
        }
        // auth-plugin name (null-terminated)
        let auth_plugin_name = if capability_flags & CLIENT_PLUGIN_AUTH != 0 && buf_remaining(&buf)
            > 0 {
            text_before_nul(buf_slice(&buf))
        } else {
            String::new()
        };
        Ok(
            HandshakeV10 {
                protocol_version,
                server_version,
                connection_id,
                auth_plugin_data_part1,
                capability_flags,
                character_set,
                status_flags,
                auth_plugin_data_part2,
                auth_plugin_name,
            },
        )
    }
}

/// Tells whether a packet breaks off right before the length of the auth data. Such a packet
/// cannot be parsed.
pub fn breaks_off_before_auth_length(data: &[u8]) -> (breaks_off: bool)
    ensures
        breaks_off == ends_before_auth_length(data@),
{
    if data.len() == 0 || data[0] != 10 {
        return false;
    }
    let behind = vstd::slice::slice_subrange(data, 1, data.len());
    proof {
        assert(behind@ =~= data@.skip(1));
        behind@.index_of_first_ensures(0);
    }
    match find_nul(behind) {
        Some(position) => behind.len() - position - 1 == 20,
        None => false,
    }
}

/// The text in front of the first zero byte; all of it, if there is none.
pub fn text_before_nul(bytes: &[u8]) -> (text: String)
    ensures
        text@ == utf8_lossy(before_nul(bytes@)),
{
    let end: usize = match find_nul(bytes) {
        Some(position) => position,
        None => bytes.len(),
    };
    proof {
        bytes@.index_of_first_ensures(0);
        assert(bytes@.subrange(0, end as int) =~= before_nul(bytes@));
    }
    text_lossy(vstd::slice::slice_subrange(bytes, 0, end))
}

/// The number that four bytes spell, lowest first.
proof fn lemma_four_bytes(bytes: Seq<u8>)
    requires
        bytes.len() == 4,
    ensures
        le_value(bytes) as u32 == bytes[0] + 256 * bytes[1] + 65536 * bytes[2] + 16777216
            * bytes[3],
{
    lemma_le_value_digits(bytes);
}

/// What is no greeting: nothing, another version of the protocol, a server version that does not
/// end, and fields that break off before the capabilities or in the reserved bytes. Only fields
/// that break off right before the length of the auth data are not told apart.
pub proof fn law_greeting_errors(data: Seq<u8>, version: Seq<u8>, fields: Seq<u8>)
    requires
        !version.contains(0),
    ensures
        data.len() == 0 ==> handshake_of(data) == Err::<HandshakeView, HandshakeError>(
            HandshakeError::EmptyPayload,
        ),
        (data.len() > 0 && data[0] != 10) ==> handshake_of(data) == Err::<
            HandshakeView,
            HandshakeError,
        >(HandshakeError::UnsupportedVersion(data[0])),
        handshake_of(seq![10u8] + version) == Err::<HandshakeView, HandshakeError>(
            HandshakeError::MissingServerVersionNul,
        ),
        fields.len() < 15 ==> handshake_of(seq![10u8] + version.push(0) + fields) == Err::<
            HandshakeView,
            HandshakeError,
        >(HandshakeError::TruncatedAfterServerVersion),
        20 < fields.len() < 31 ==> handshake_of(seq![10u8] + version.push(0) + fields) == Err::<
            HandshakeView,
            HandshakeError,
        >(HandshakeError::MissingReserved),
        ends_before_auth_length(seq![10u8] + version.push(0) + fields) <==> fields.len() == 20,
        !ends_before_auth_length(seq![10u8] + version),
        (data.len() == 0 || data[0] != 10) ==> !ends_before_auth_length(data),
{
    let endless = seq![10u8] + version;
    let whole = seq![10u8] + version.push(0) + fields;
    assert(endless.skip(1) =~= version);
    version.index_of_first_ensures(0);
    lemma_greeting_parts(version, fields);
}

/// A greeting is cut behind its server version.
proof fn lemma_greeting_parts(version: Seq<u8>, fields: Seq<u8>)
    requires
        !version.contains(0),
    ensures
        ({
            let whole = seq![10u8] + version.push(0) + fields;
            &&& version_end(whole) == Some(version.len() as int)
            &&& whole.skip(1).take(version.len() as int) == version
            &&& after_version(whole) == fields
            &&& handshake_of(whole) == handshake_fields(utf8_lossy(version), fields)
        }),
{
    let whole = seq![10u8] + version.push(0) + fields;
    assert(whole.skip(1) =~= version.push(0) + fields);
    lemma_nul_after(version, fields);
}

/// What an old server says, whose greeting ends behind the lower capabilities: its version, the
/// connection's id, the first part of the auth data and the lower sixteen capabilities.
pub proof fn law_short_greeting_fields(version: Seq<u8>, fields: Seq<u8>)
    requires
        !version.contains(0),
        15 <= fields.len() < 20,
    ensures
        handshake_of(seq![10u8] + version.push(0) + fields) matches Ok(said) && ({
            &&& said.protocol_version == 10
            &&& said.server_version == utf8_lossy(version)
            &&& said.connection_id == fields[0] + 256 * fields[1] + 65536 * fields[2] + 16777216
                * fields[3]
            &&& said.auth_plugin_data_part1 == fields.subrange(4, 12)
            &&& said.capability_flags == fields[13] + 256 * fields[14]
            &&& said.character_set == 0
            &&& said.status_flags == 0
            &&& said.auth_plugin_data_part2 == Seq::<u8>::empty()
            &&& said.auth_plugin_name == Seq::<char>::empty()
        }),
{
    lemma_greeting_parts(version, fields);
    lemma_four_bytes(fields.take(4));
    lemma_le_value_digits(fields.subrange(13, 15));
}

/// What a server says in its greeting: its version, the connection's id, its auth data in two
/// parts, its capabilities in two halves, character set, status, and the auth plugin. The second
/// part of the auth data is there for secure connections: as long as announced less the eight
/// bytes of the first, but not shorter than thirteen, as far as there is so much; one zero byte at
/// its end is dropped. The plugin is there if the server has plugins.
pub proof fn law_greeting_fields(version: Seq<u8>, fields: Seq<u8>, part2: Seq<u8>, plugin: Seq<u8>)
    requires
        !version.contains(0),
        fields.len() == 31,
        ({
            let flags = (fields[13] + 256 * fields[14] + 65536 * fields[18] + 16777216
                * fields[19]) as u32;
            let announced = if flags & 0x0008_0000 != 0 && fields[20] > 21 {
                fields[20] - 8
            } else {
                13
            };
            if flags & 0x8000 == 0 {
                part2.len() == 0
            } else {
                part2.len() == announced || (part2.len() < announced && plugin.len() == 0)
            }
        }),
    ensures
        handshake_of(
            seq![10u8] + version.push(0) + (fields + part2 + plugin),
        ) matches Ok(said) && ({
            &&& said.protocol_version == 10
            &&& said.server_version == utf8_lossy(version)
            &&& said.connection_id == fields[0] + 256 * fields[1] + 65536 * fields[2] + 16777216
                * fields[3]
            &&& said.auth_plugin_data_part1 == fields.subrange(4, 12)
            &&& said.capability_flags == fields[13] + 256 * fields[14] + 65536 * fields[18]
                + 16777216 * fields[19]
            &&& said.character_set == fields[15]
            &&& said.status_flags == fields[16] + 256 * fields[17]
            &&& said.auth_plugin_data_part2 == (if part2.len() > 0 && part2.last() == 0 {
                part2.drop_last()
            } else {
                part2
            })
            &&& said.auth_plugin_name == (if said.capability_flags & 0x0008_0000 != 0 {
                utf8_lossy(before_nul(plugin))
            } else {
                Seq::empty()
            })
        }),
{
    let rest = fields + part2 + plugin;
    lemma_greeting_parts(version, rest);
    assert(rest.take(4) =~= fields.take(4));
    lemma_four_bytes(fields.take(4));
    assert(rest.subrange(4, 12) =~= fields.subrange(4, 12));
    let halves = rest.subrange(13, 15) + rest.subrange(18, 20);
    lemma_four_bytes(halves);
    assert(halves[0] == fields[13] && halves[1] == fields[14] && halves[2] == fields[18]
        && halves[3] == fields[19]);
    assert(rest.subrange(16, 18) =~= fields.subrange(16, 18));
    lemma_le_value_digits(fields.subrange(16, 18));
    let flags = capability_flags(rest);
    assert(flags == fields[13] + 256 * fields[14] + 65536 * fields[18] + 16777216 * fields[19]);
    assert(rest[20] == fields[20]);
    assert(part2_len(rest) == part2.len());
    assert(rest.subrange(31, 31 + part2.len() as int) =~= part2);
    assert(rest.skip(31 + part2.len() as int) =~= plugin);
}

// ---------------------------------------------------------------------------
// Answering a server
// ---------------------------------------------------------------------------

/// What the proxy can do as a client, and asks for in its request for TLS.
///
/// CLIENT_DEPRECATE_EOF is not among it, so that the backend uses traditional EOF-based result set
/// framing, matching what the proxy advertises to the connecting client.
pub const SSL_REQUEST_CAPS: u32 = CLIENT_LONG_PASSWORD | CLIENT_FOUND_ROWS | CLIENT_LONG_FLAG
    | CLIENT_CONNECT_WITH_DB | CLIENT_PROTOCOL_41 | CLIENT_SSL | CLIENT_TRANSACTIONS
    | CLIENT_SECURE_CONNECTION | CLIENT_PLUGIN_AUTH | CLIENT_PLUGIN_AUTH_LENENC_CLIENT_DATA;

/// What the proxy can do as a client, and says in its handshake response.
///
/// CLIENT_CONNECT_WITH_DB is always among it: even with an empty database the field must be
/// present (as an empty NUL-terminated string) so the server can correctly parse the name of the
/// auth plugin that follows. CLIENT_DEPRECATE_EOF is left out here too.
pub const RESPONSE_CAPS: u32 = CLIENT_LONG_PASSWORD | CLIENT_FOUND_ROWS | CLIENT_LONG_FLAG
    | CLIENT_PROTOCOL_41 | CLIENT_TRANSACTIONS | CLIENT_SECURE_CONNECTION | CLIENT_PLUGIN_AUTH
    | CLIENT_PLUGIN_AUTH_LENENC_CLIENT_DATA | CLIENT_CONNECT_WITH_DB;

/// The capabilities in the request for TLS: what the server has of them, and TLS.
pub open spec fn ssl_request_caps(server_caps: u32) -> u32 {
    SSL_REQUEST_CAPS & (server_caps | CLIENT_SSL)
}

/// The capabilities in the handshake response: what the server has of them. TLS is on by then and
/// not mentioned any more.
pub open spec fn response_caps(server_caps: u32) -> u32 {
    RESPONSE_CAPS & (server_caps | CLIENT_SSL) & !CLIENT_SSL
}

/// So many zero bytes.
pub open spec fn zeros(count: nat) -> Seq<u8> {
    Seq::new(count, |i: int| 0u8)
}

/// The fields that a request for TLS and a handshake response start with.
pub open spec fn client_header(caps: u32) -> Seq<u8> {
    le_bytes(caps as nat, 4) + le_bytes(MAX_PACKET_SIZE as nat, 4) + seq![CHARSET_UTF8MB4] + zeros(
        23,
    )
}

/// The request for TLS.
pub open spec fn ssl_request(server_caps: u32) -> Seq<u8> {
    client_header(ssl_request_caps(server_caps))
}

/// The length of the auth data in front of it. Only the low three bytes of a length are written.
pub open spec fn auth_length(length: nat) -> Seq<u8> {
    if length < 251 {
        seq![length as u8]
    } else if length < 65536 {
        seq![0xFCu8] + le_bytes(length, 2)
    } else {
        seq![0xFDu8] + le_bytes(length, 3)
    }
}

/// The handshake response: who logs in, with which password, to which database.
pub open spec fn handshake_response(
    server_caps: u32,
    username: Seq<char>,
    password: Seq<char>,
    database: Seq<char>,
) -> Seq<u8> {
    client_header(response_caps(server_caps)) + cstr(username) + auth_length(
        encode_utf8(password).len() + 1,
    ) + cstr(password) + cstr(database) + cstr("mysql_clear_password"@)
}

/// Writes the fields that a request for TLS and a handshake response start with.
fn put_client_header(client_caps: u32) -> (buf: Vec<u8>)
    ensures
        buf@ == client_header(client_caps),
        buf@.len() == 32,
{
    let mut buf: Vec<u8> = Vec::new();
    proof {
        lemma_le_bytes_len(client_caps as nat, 4);
        lemma_le_bytes_len(MAX_PACKET_SIZE as nat, 4);
    }
    vec_put_u32_le(&mut buf, client_caps);
    vec_put_u32_le(&mut buf, MAX_PACKET_SIZE);
    vec_put_u8(&mut buf, CHARSET_UTF8MB4);
    let reserved: Vec<u8> = vec![0u8; 23];
    buf.extend_from_slice(reserved.as_slice());
    proof {
        assert(reserved@ =~= zeros(23));
        assert(buf@ =~= client_header(client_caps));
    }
    buf
}

/// Builds the request for TLS (32 bytes: capability flags, maximum packet size, character set and
/// 23 zero bytes).
pub fn build_ssl_request(server_caps: u32) -> (packet: Vec<u8>)
    ensures
        packet@ == ssl_request(server_caps),
        packet@.len() == 32,
{
    // keep only what server supports, plus SSL
    let client_caps: u32 = SSL_REQUEST_CAPS & (server_caps | CLIENT_SSL);
    put_client_header(client_caps)
}

/// Builds the handshake response.
pub fn build_handshake_response(
    server_caps: u32,
    username: &str,
    password: &str,
    database: &str,
) -> (packet: Vec<u8>)
    requires
        handshake_response(server_caps, username@, password@, database@).len() <= isize::MAX,
    ensures
        packet@ == handshake_response(server_caps, username@, password@, database@),
{
    // Intersect with what server offered (except CLIENT_SSL which we already negotiated), and
    // remove CLIENT_SSL from the response: we already upgraded
    let client_caps: u32 = RESPONSE_CAPS & (server_caps | CLIENT_SSL) & !CLIENT_SSL;
    let ghost length = encode_utf8(password@).len() + 1;
    let mut auth_bytes: Vec<u8> = Vec::new();
    auth_bytes.extend_from_slice(password.as_bytes());
    auth_bytes.push(0);  // IAM token + NUL terminator
    proof {
        assert(auth_bytes@ =~= cstr(password@));
        lemma_le_bytes_len(length, 2);
        lemma_le_bytes_digits(length);
    }
    let mut buf = put_client_header(client_caps);
    // Username (null-terminated)
    buf.extend_from_slice(username.as_bytes());
    buf.push(0);
    let ghost before = buf@;
    assert(before =~= client_header(response_caps(server_caps)) + cstr(username@));
    // Auth response length-encoded
    let auth_len: usize = auth_bytes.len();
    if auth_len < 251 {
        buf.push(auth_len as u8);
    } else if auth_len < 65536 {
        buf.push(0xFC);
        vec_put_u16_le(&mut buf, auth_len as u16);
    } else {
        buf.push(0xFD);
        vec_put_u8(&mut buf, (auth_len % 256) as u8);
        vec_put_u8(&mut buf, (auth_len / 256 % 256) as u8);
        vec_put_u8(&mut buf, (auth_len / 65536 % 256) as u8);
    }
    assert(buf@ =~= before + auth_length(length));
    buf.extend_from_slice(auth_bytes.as_slice());
    // Database (null-terminated), an empty string if no database specified
    buf.extend_from_slice(database.as_bytes());
    buf.push(0);
    // Auth plugin name (null-terminated)
    buf.extend_from_slice("mysql_clear_password".as_bytes());
    buf.push(0);
    proof {
        assert(buf@ =~= handshake_response(server_caps, username@, password@, database@));
    }
    buf
}

/// Tells whether a handshake response fits memory.
pub fn handshake_response_fits(
    server_caps: u32,
    username: &str,
    password: &str,
    database: &str,
) -> (fits: bool)
    ensures
        fits <==> handshake_response(server_caps, username@, password@, database@).len()
            <= isize::MAX,
{
    let plugin_len: usize = "mysql_clear_password".as_bytes().len();
    let auth_len: u128 = password.as_bytes().len() as u128 + 1;
    let prefix: u128 = if auth_len < 251 {
        1
    } else if auth_len < 65536 {
        3
    } else {
        4
    };
    proof {
        lemma_client_header(response_caps(server_caps));
        lemma_le_bytes_len(auth_len as nat, 2);
        lemma_le_bytes_len(auth_len as nat, 3);
    }
    let length: u128 = 32 + username.as_bytes().len() as u128 + 1 + prefix + auth_len
        + database.as_bytes().len() as u128 + 1 + plugin_len as u128 + 1;
    length <= isize::MAX as u128
}

/// The proxy asks a server only for what the server offered, for TLS in the first request and not
/// in the second, and never to leave out EOF packets. The two requests differ in TLS alone.
pub proof fn law_capabilities(server_caps: u32)
    ensures
        response_caps(server_caps) & !server_caps == 0,
        response_caps(server_caps) & CLIENT_SSL == 0,
        response_caps(server_caps) & CLIENT_DEPRECATE_EOF == 0,
        ssl_request_caps(server_caps) & CLIENT_DEPRECATE_EOF == 0,
        ssl_request_caps(server_caps) == response_caps(server_caps) | CLIENT_SSL,
{
    assert(response_caps(server_caps) & !server_caps == 0) by (bit_vector);
    assert(response_caps(server_caps) & CLIENT_SSL == 0) by (bit_vector);
    assert(response_caps(server_caps) & CLIENT_DEPRECATE_EOF == 0) by (bit_vector);
    assert(ssl_request_caps(server_caps) & CLIENT_DEPRECATE_EOF == 0) by (bit_vector);
    assert(ssl_request_caps(server_caps) == response_caps(server_caps) | CLIENT_SSL)
        by (bit_vector);
}

/// Of what a server offers, the proxy asks for exactly nine capabilities, in its handshake response
/// as they are, and in its request for TLS with TLS besides.
pub proof fn law_what_is_asked_for(server_caps: u32)
    ensures
        response_caps(server_caps) == server_caps & 0x0028_A20F,
        ssl_request_caps(server_caps) == (server_caps & 0x0028_A20F) | 0x0800,
{
    assert(response_caps(server_caps) == server_caps & 0x0028_A20F) by (bit_vector);
    assert(ssl_request_caps(server_caps) == (server_caps & 0x0028_A20F) | 0x0800) by (bit_vector);
}

/// The 32 bytes that a request for TLS consists of and a handshake response starts with: the
/// capabilities lowest byte first, 16 megabytes as the longest packet, the character set 45, and 23
/// zero bytes.
pub proof fn law_client_header_bytes(caps: u32)
    ensures
        ({
            let header = client_header(caps);
            &&& header.len() == 32
            &&& header[0] + 256 * header[1] + 65536 * header[2] + 16777216 * header[3] == caps
            &&& header.subrange(4, 8) == seq![0u8, 0, 0, 1]
            &&& header[8] == 45
            &&& forall|i: int| 9 <= i < 32 ==> #[trigger] header[i] == 0
        }),
        ssl_request(caps) == client_header(ssl_request_caps(caps)),
{
    let header = client_header(caps);
    lemma_client_header(caps);
    lemma_le_bytes_len(caps as nat, 4);
    lemma_le_bytes_digits(MAX_PACKET_SIZE as nat);
    lemma_four_bytes(header.take(4));
    assert(header.subrange(4, 8) =~= seq![0u8, 0, 0, 1]);
}

/// What a handshake response carries, whatever is in it and however long it is: a header, and the
/// username, the password behind its length, the database and the plugin, each with a zero byte.
pub proof fn law_response_fields(
    server_caps: u32,
    username: Seq<char>,
    password: Seq<char>,
    database: Seq<char>,
)
    ensures
        handshake_response(server_caps, username, password, database) == client_header(
            server_caps & 0x0028_A20F,
        ) + (encode_utf8(username).push(0) + (auth_length(encode_utf8(password).len() + 1) + (
        encode_utf8(password).push(0) + (encode_utf8(database).push(0) + encode_utf8(
            "mysql_clear_password"@,
        ).push(0))))),
{
    law_what_is_asked_for(server_caps);
    assert(handshake_response(server_caps, username, password, database) =~= client_header(
        server_caps & 0x0028_A20F,
    ) + (encode_utf8(username).push(0) + (auth_length(encode_utf8(password).len() + 1) + (
    encode_utf8(password).push(0) + (encode_utf8(database).push(0) + encode_utf8(
        "mysql_clear_password"@,
    ).push(0))))));
}

/// What a handshake response carries, field by field: behind the header the username and a zero
/// byte, the length of the password with its zero byte, the password itself and a zero byte, the
/// database and a zero byte, and the name of the plugin that takes a password as it is.
pub proof fn law_response_carries(
    server_caps: u32,
    username: Seq<char>,
    password: Seq<char>,
    database: Seq<char>,
)
    requires
        encode_utf8(password).len() + 1 < 0x100_0000,
    ensures
        ({
            let sent = handshake_response(server_caps, username, password, database);
            let user = encode_utf8(username);
            let pass = encode_utf8(password);
            let data = encode_utf8(database);
            let width: int = if pass.len() < 250 {
                1
            } else if pass.len() < 65535 {
                3
            } else {
                4
            };
            let at_pass = 33 + user.len() as int + width;
            let at_data = at_pass + pass.len() as int + 1;
            let at_plugin = at_data + data.len() as int + 1;
            &&& sent.take(32) == client_header(response_caps(server_caps))
            &&& sent.subrange(32, 32 + user.len() as int) == user
            &&& sent[32 + user.len() as int] == 0
            &&& lenenc_int(sent.skip(33 + user.len() as int)) == Ok::<(u64, int), LenencError>(
                ((pass.len() + 1) as u64, width),
            )
            &&& sent.subrange(at_pass, at_pass + pass.len() as int) == pass
            &&& sent[at_pass + pass.len() as int] == 0
            &&& sent.subrange(at_data, at_data + data.len() as int) == data
            &&& sent[at_data + data.len() as int] == 0
            &&& sent.skip(at_plugin) == encode_utf8("mysql_clear_password"@).push(0)
        }),
{
    let sent = handshake_response(server_caps, username, password, database);
    let user = encode_utf8(username);
    let pass = encode_utf8(password);
    let data = encode_utf8(database);
    let plugin = cstr("mysql_clear_password"@);
    let prefix = auth_length(pass.len() + 1);
    lemma_client_header(response_caps(server_caps));
    lemma_le_bytes_len(pass.len() + 1, 2);
    lemma_le_bytes_len(pass.len() + 1, 3);
    let at_pass = 33 + user.len() as int + prefix.len() as int;
    let at_data = at_pass + pass.len() as int + 1;
    let at_plugin = at_data + data.len() as int + 1;
    let behind = pass.push(0) + data.push(0) + plugin;
    assert(sent.take(32) =~= client_header(response_caps(server_caps)));
    assert(sent.subrange(32, 32 + user.len() as int) =~= user);
    assert(sent.skip(33 + user.len() as int) =~= prefix + behind);
    law_auth_length_round_trip(pass.len() + 1, behind);
    assert(sent.subrange(at_pass, at_pass + pass.len() as int) =~= pass);
    assert(sent.subrange(at_data, at_data + data.len() as int) =~= data);
    assert(sent.skip(at_plugin) =~= plugin);
}

// ---------------------------------------------------------------------------
// Reading a client's answer
// ---------------------------------------------------------------------------

#[derive(Clone, Copy, Debug, PartialEq, Eq, Structural)]
pub enum ClientHandshakeError {
    TooShort(usize),
    MissingUsernameNul,
    AuthLength(LenencError),
}

/// The capability flags that a client's answer starts with.
pub open spec fn client_flags(payload: Seq<u8>) -> u32 {
    le_value(payload.take(4)) as u32
}

/// What follows the auth data: the database. A length that reaches past the end takes everything;
/// without a length the auth data ends at a zero byte, and is not there if there is none.
pub open spec fn after_auth_data(flags: u32, bytes: Seq<u8>) -> Result<Seq<u8>, LenencError> {
    if flags & CLIENT_PLUGIN_AUTH_LENENC_CLIENT_DATA != 0 {
        match lenenc_int(bytes) {
            Ok((length, width)) => Ok(skip_up_to(bytes.skip(width), (length as usize) as int)),
            Err(e) => Err(e),
        }
    } else if flags & CLIENT_SECURE_CONNECTION != 0 {
        if bytes.len() == 0 {
            Ok(bytes)
        } else {
            Ok(skip_up_to(bytes.skip(1), bytes[0] as int))
        }
    } else {
        match bytes.index_of_first(0) {
            Some(end) => Ok(bytes.skip(end + 1)),
            None => Ok(bytes),
        }
    }
}

/// The bytes without the first `count`, as far as there are so many.
pub open spec fn skip_up_to(bytes: Seq<u8>, count: int) -> Seq<u8> {
    if count < bytes.len() {
        bytes.skip(count)
    } else {
        bytes.skip(bytes.len() as int)
    }
}

/// The username, the database and the capability flags that a client's answer holds.
pub open spec fn client_handshake_of(payload: Seq<u8>) -> Result<
    (Seq<char>, Seq<char>, u32),
    ClientHandshakeError,
> {
    let flags = client_flags(payload);
    let named = payload.skip(32);
    if payload.len() < 32 {
        Err(ClientHandshakeError::TooShort(payload.len() as usize))
    } else {
        match named.index_of_first(0) {
            None => Err(ClientHandshakeError::MissingUsernameNul),
            Some(end) => match after_auth_data(flags, named.skip(end + 1)) {
                Err(e) => Err(ClientHandshakeError::AuthLength(e)),
                Ok(rest) => Ok(
                    (
                        utf8_lossy(named.take(end)),
                        if flags & CLIENT_CONNECT_WITH_DB != 0 {
                            utf8_lossy(before_nul(rest))
                        } else {
                            Seq::empty()
                        },
                        flags,
                    ),
                ),
            },
        }
    }
}

/// Parses the client's handshake response to extract username and database. The auth data is
/// skipped: the proxy logs in with a token of its own.
pub fn parse_client_handshake(payload: &[u8]) -> (parsed: Result<
    (String, String, u32),
    ClientHandshakeError,
>)
    ensures
        match parsed {
            Ok((username, database, flags)) => client_handshake_of(payload@) == Ok::<
                (Seq<char>, Seq<char>, u32),
                ClientHandshakeError,
            >((username@, database@, flags)),
            Err(e) => client_handshake_of(payload@) == Err::<
                (Seq<char>, Seq<char>, u32),
                ClientHandshakeError,
            >(e),
        },
{
    let mut buf = buf_from(payload);
    if buf_remaining(&buf) < 32 {
        return Err(ClientHandshakeError::TooShort(buf_remaining(&buf)));
    }
    let client_flags: u32 = buf_get_u32_le(&mut buf);
    let _max_packet_size: u32 = buf_get_u32_le(&mut buf);
    let _charset: u8 = buf_get_u8(&mut buf);
    buf_advance(&mut buf, 23);  // reserved
    let ghost named = payload@.skip(32);
    assert(buf_bytes(buf) =~= named);
    // Username (null-terminated)
    let username_end: usize = match find_nul(buf_slice(&buf)) {
        Some(position) => position,
        None => {
            return Err(ClientHandshakeError::MissingUsernameNul);
        },
    };
    proof {
        named.index_of_first_ensures(0);
        assert(named.subrange(0, username_end as int) =~= named.take(username_end as int));
    }
    let username = text_lossy(vstd::slice::slice_subrange(buf_slice(&buf), 0, username_end));
    buf_advance(&mut buf, username_end + 1);
    let ghost behind = buf_bytes(buf);
    // Auth response
    if client_flags & CLIENT_PLUGIN_AUTH_LENENC_CLIENT_DATA != 0 {
        // Length-encoded auth data
        let auth_len: u64 = match read_lenenc_int(&mut buf) {
            Ok(n) => n,
            Err(e) => {
                return Err(ClientHandshakeError::AuthLength(e));
            },
        };
        let wanted: usize = auth_len as usize;
        let skip: usize = if wanted < buf_remaining(&buf) {
            wanted
        } else {
            buf_remaining(&buf)
        };
        buf_advance(&mut buf, skip);
    } else if client_flags & CLIENT_SECURE_CONNECTION != 0 {
        // 1-byte length-prefixed auth data
        if buf_remaining(&buf) > 0 {
            let auth_len: usize = buf_get_u8(&mut buf) as usize;
            let skip: usize = if auth_len < buf_remaining(&buf) {
                auth_len
            } else {
                buf_remaining(&buf)
            };
            buf_advance(&mut buf, skip);
        }
    } else {
        // Null-terminated auth data
        proof {
            behind.index_of_first_ensures(0);
        }
        if let Some(position) = find_nul(buf_slice(&buf)) {
            buf_advance(&mut buf, position + 1);
        }
    }
    let ghost rest = buf_bytes(buf);
    assert(after_auth_data(client_flags, behind) == Ok::<Seq<u8>, LenencError>(rest));
    proof {
        if rest.len() == 0 {
            lemma_lossy_empty();
            rest.index_of_first_ensures(0);
            assert(before_nul(rest) =~= Seq::<u8>::empty());
        }
    }
    // Database (null-terminated) if CLIENT_CONNECT_WITH_DB
    let database = if client_flags & CLIENT_CONNECT_WITH_DB != 0 && buf_remaining(&buf) > 0 {
        text_before_nul(buf_slice(&buf))
    } else {
        String::new()
    };
    Ok((username, database, client_flags))
}

/// An auth length below 2^24 reads back as a length-encoded integer, whatever follows it.
pub proof fn law_auth_length_round_trip(length: nat, rest: Seq<u8>)
    requires
        length < 0x100_0000,
    ensures
        lenenc_int(auth_length(length) + rest) == Ok::<(u64, int), LenencError>(
            (length as u64, auth_length(length).len() as int),
        ),
{
    let bytes = auth_length(length) + rest;
    reveal_with_fuel(span, 4);
    lemma_le_bytes_len(length, 2);
    lemma_le_bytes_len(length, 3);
    if 251 <= length < 65536 {
        lemma_le_round_trip(length, 2);
        assert(bytes.subrange(1, 3) =~= le_bytes(length, 2));
    } else if length >= 65536 {
        lemma_le_round_trip(length, 3);
        assert(bytes.subrange(1, 4) =~= le_bytes(length, 3));
    }
}

/// The bytes in front of auth data: its length in one byte up to 250, and otherwise, behind 0xFC or
/// 0xFD, the low two or three bytes of it, lowest first.
pub proof fn law_auth_length_bytes(length: nat)
    ensures
        length <= 250 ==> auth_length(length) == seq![length as u8],
        250 < length <= 65535 ==> auth_length(length) == seq![
            0xFCu8,
            (length % 256) as u8,
            (length / 256) as u8,
        ],
        65535 < length ==> auth_length(length) == seq![
            0xFDu8,
            (length % 256) as u8,
            (length / 256 % 256) as u8,
            (length / 65536 % 256) as u8,
        ],
{
    lemma_le_bytes_digits(length);
    if 250 < length <= 65535 {
        assert(auth_length(length) =~= seq![
            0xFCu8,
            (length % 256) as u8,
            (length / 256) as u8,
        ]);
    } else if length > 65535 {
        assert(auth_length(length) =~= seq![
            0xFDu8,
            (length % 256) as u8,
            (length / 256 % 256) as u8,
            (length / 65536 % 256) as u8,
        ]);
    }
}

/// Whether a reader of a handshake response with these flags finds the end of the auth data. Only
/// length-encoded auth data can be of any length that three bytes can say; a length in a single
/// byte ends at 250; auth data that ends at a zero byte must not have one before.
pub open spec fn auth_data_readable(flags: u32, password: Seq<char>) -> bool {
    let length = encode_utf8(password).len() + 1;
    if flags & CLIENT_PLUGIN_AUTH_LENENC_CLIENT_DATA != 0 {
        length < 0x100_0000
    } else if flags & CLIENT_SECURE_CONNECTION != 0 {
        length < 251
    } else {
        nul_free(auth_length(length)) && nul_free(encode_utf8(password))
    }
}

/// A handshake response reads back as what went into it: the username, the database (where the
/// server takes one) and the capability flags. Names with a NUL character cannot be written.
pub proof fn law_client_handshake_round_trip(
    server_caps: u32,
    username: Seq<char>,
    password: Seq<char>,
    database: Seq<char>,
)
    requires
        !username.contains('\0'),
        !database.contains('\0'),
        auth_data_readable(response_caps(server_caps), password),
    ensures
        client_handshake_of(handshake_response(server_caps, username, password, database)) == Ok::<
            (Seq<char>, Seq<char>, u32),
            ClientHandshakeError,
        >(
            (
                username,
                if response_caps(server_caps) & CLIENT_CONNECT_WITH_DB != 0 {
                    database
                } else {
                    Seq::empty()
                },
                response_caps(server_caps),
            ),
        ),
{
    let caps = response_caps(server_caps);
    let header = client_header(caps);
    let user = encode_utf8(username);
    let pass = encode_utf8(password);
    let data = encode_utf8(database);
    let length = pass.len() + 1;
    let plugin = cstr("mysql_clear_password"@);
    let payload = handshake_response(server_caps, username, password, database);
    let last = data.push(0) + plugin;
    let auth = auth_length(length) + (pass.push(0) + last);
    lemma_client_header(caps);
    lemma_encode_nul_free(username);
    lemma_encode_nul_free(database);
    lemma_lossy_of_encoded(username);
    lemma_lossy_of_encoded(database);
    assert(payload =~= header + (user.push(0) + auth));
    assert(payload.take(4) =~= header.take(4));
    assert(payload.skip(32) =~= user.push(0) + auth);
    lemma_nul_after(user, auth);
    assert(after_auth_data(caps, auth) == Ok::<Seq<u8>, LenencError>(last)) by {
        lemma_auth_data_skipped(caps, password, last);
    }
    lemma_nul_after(data, plugin);
}

/// The flags stand at the front of the 32 bytes of a client's header.
pub proof fn lemma_client_header(caps: u32)
    ensures
        client_header(caps).len() == 32,
        client_flags(client_header(caps)) == caps,
{
    reveal_with_fuel(span, 5);
    lemma_le_bytes_len(caps as nat, 4);
    lemma_le_bytes_len(MAX_PACKET_SIZE as nat, 4);
    lemma_le_round_trip(caps as nat, 4);
    assert(client_header(caps).take(4) =~= le_bytes(caps as nat, 4));
}

/// Readable auth data is skipped as a whole.
proof fn lemma_auth_data_skipped(flags: u32, password: Seq<char>, last: Seq<u8>)
    requires
        auth_data_readable(flags, password),
    ensures
        after_auth_data(
            flags,
            auth_length(encode_utf8(password).len() + 1) + (encode_utf8(password).push(0) + last),
        ) == Ok::<Seq<u8>, LenencError>(last),
{
    let pass = encode_utf8(password);
    let length = pass.len() + 1;
    let prefix = auth_length(length);
    let tail = pass.push(0) + last;
    let auth = prefix + tail;
    assert(auth.skip(prefix.len() as int) =~= tail);
    assert(tail.skip(length as int) =~= last);
    if flags & CLIENT_PLUGIN_AUTH_LENENC_CLIENT_DATA != 0 {
        law_auth_length_round_trip(length, tail);
        assert(((length as u64) as usize) as int == length);
        assert(skip_up_to(tail, length as int) =~= last);
    } else if flags & CLIENT_SECURE_CONNECTION != 0 {
        assert(skip_up_to(tail, length as int) =~= last);
    } else {
        let field = prefix + pass;
        if field.contains(0) {
            let at = field.index_of(0);
            if at < prefix.len() {
                assert(prefix[at] == 0);
            } else {
                assert(pass[at - prefix.len()] == 0);
            }
        }
        assert(auth =~= field.push(0) + last);
        lemma_nul_after(field, last);
    }
}

/// Auth data as a client with these flags sends it: behind a length, or in front of a zero byte.
pub open spec fn auth_field(flags: u32, auth: Seq<u8>) -> Seq<u8> {
    if flags & CLIENT_PLUGIN_AUTH_LENENC_CLIENT_DATA != 0 {
        auth_length(auth.len()) + auth
    } else if flags & CLIENT_SECURE_CONNECTION != 0 {
        seq![auth.len() as u8] + auth
    } else {
        auth.push(0)
    }
}

/// Whether auth data can be sent so that its end is found.
pub open spec fn auth_field_holds(flags: u32, auth: Seq<u8>) -> bool {
    if flags & CLIENT_PLUGIN_AUTH_LENENC_CLIENT_DATA != 0 {
        auth.len() < 0x100_0000
    } else if flags & CLIENT_SECURE_CONNECTION != 0 {
        auth.len() < 0x100
    } else {
        nul_free(auth)
    }
}

/// The auth data of a client is passed over: with any other, the answer reads as the same
/// username, the same database and the same flags.
pub proof fn law_auth_data_is_ignored(
    header: Seq<u8>,
    username: Seq<u8>,
    auth: Seq<u8>,
    other: Seq<u8>,
    rest: Seq<u8>,
)
    requires
        header.len() == 32,
        nul_free(username),
        auth_field_holds(client_flags(header), auth),
        auth_field_holds(client_flags(header), other),
    ensures
        client_handshake_of(
            header + username.push(0) + auth_field(client_flags(header), auth) + rest,
        ) == client_handshake_of(
            header + username.push(0) + auth_field(client_flags(header), other) + rest,
        ),
{
    lemma_auth_field_passed_over(header, username, auth, rest);
    lemma_auth_field_passed_over(header, username, other, rest);
}

/// Where the auth data stands in what follows the username: behind its length, as far as there is
/// so much, or in front of a zero byte.
pub open spec fn auth_data_in(flags: u32, bytes: Seq<u8>) -> (int, int) {
    if flags & CLIENT_PLUGIN_AUTH_LENENC_CLIENT_DATA != 0 {
        match lenenc_int(bytes) {
            Ok((length, width)) => (
                width,
                bytes.len() - skip_up_to(bytes.skip(width), (length as usize) as int).len(),
            ),
            Err(_) => (0, 0),
        }
    } else if flags & CLIENT_SECURE_CONNECTION != 0 {
        if bytes.len() == 0 {
            (0, 0)
        } else {
            (1, bytes.len() - skip_up_to(bytes.skip(1), bytes[0] as int).len())
        }
    } else {
        match bytes.index_of_first(0) {
            Some(end) => (0, end),
            None => (0, 0),
        }
    }
}

/// Where the auth data stands in a client's answer. An answer that is too short or does not end
/// the username has none.
pub open spec fn auth_data_of(payload: Seq<u8>) -> (int, int) {
    let named = payload.skip(32);
    if payload.len() < 32 || named.index_of_first(0) is None {
        (0, 0)
    } else {
        let behind = 32 + named.index_of_first(0)->0 + 1;
        let (start, end) = auth_data_in(client_flags(payload), payload.skip(behind));
        (behind + start, behind + end)
    }
}

/// Whether two answers are the same but for the bytes of the auth data. Where the auth data ends at
/// a zero byte, it has none itself.
pub open spec fn same_but_for_auth_data(payload: Seq<u8>, other: Seq<u8>) -> bool {
    let (start, end) = auth_data_of(payload);
    let flags = client_flags(payload);
    &&& other.len() == payload.len()
    &&& forall|i: int|
        0 <= i < payload.len() && !(start <= i < end) ==> #[trigger] other[i] == payload[i]
    &&& (flags & CLIENT_PLUGIN_AUTH_LENENC_CLIENT_DATA == 0 && flags & CLIENT_SECURE_CONNECTION
        == 0) ==> forall|i: int| start <= i < end ==> #[trigger] other[i] != 0
}

/// The bytes of a client's auth data are not looked at: whatever length is put in front of them,
/// and also if it reaches past the end, an answer with any others in their place reads the same, or
/// fails in the same way.
pub proof fn law_auth_bytes_are_not_read(payload: Seq<u8>, other: Seq<u8>)
    requires
        same_but_for_auth_data(payload, other),
    ensures
        client_handshake_of(payload) == client_handshake_of(other),
{
    let named = payload.skip(32);
    let others = other.skip(32);
    if payload.len() < 32 {
        assert(payload =~= other);
    } else {
        named.index_of_first_ensures(0);
        others.index_of_first_ensures(0);
        match named.index_of_first(0) {
            None => {
                assert(payload =~= other);
            },
            Some(last) => {
                let flags = client_flags(payload);
                let bytes = named.skip(last + 1);
                assert(bytes =~= payload.skip(32 + last + 1));
                lemma_auth_data_in(flags, bytes);
                assert(payload.take(4) =~= other.take(4));
                assert(others[last] == named[last]);
                let found = others.index_of_first(0)->0;
                if found < last {
                    assert(named[found] == others[found]);
                }
                assert(found == last);
                assert(named.take(last) =~= others.take(last));
                let changed = others.skip(last + 1);
                assert forall|i: int|
                    0 <= i < bytes.len() && !(auth_data_in(flags, bytes).0 <= i < auth_data_in(
                        flags,
                        bytes,
                    ).1) implies #[trigger] changed[i] == bytes[i] by {
                    assert(other[32 + last + 1 + i] == payload[32 + last + 1 + i]);
                }
                if flags & CLIENT_PLUGIN_AUTH_LENENC_CLIENT_DATA == 0 && flags
                    & CLIENT_SECURE_CONNECTION == 0 {
                    assert forall|i: int|
                        auth_data_in(flags, bytes).0 <= i < auth_data_in(
                            flags,
                            bytes,
                        ).1 implies #[trigger] changed[i] != 0 by {
                        assert(other[32 + last + 1 + i] != 0);
                    }
                }
                lemma_after_other_auth_data(flags, bytes, changed);
            },
        }
    }
}

/// What a client's answer says. It has 32 bytes in front, of which the first four are the flags,
/// lowest first; then the username up to a zero byte; then the auth data, by the flags behind a
/// length-encoded length, behind a length of one byte, or up to a zero byte; and then the database,
/// up to a zero byte, which counts only where the flags say that there is one. Auth data that is
/// announced longer than the answer takes all of it.
pub proof fn law_client_answer_says(header: Seq<u8>, username: Seq<u8>, behind: Seq<u8>)
    requires
        header.len() == 32,
        !username.contains(0),
    ensures
        ({
            let read = client_handshake_of(header + username.push(0) + behind);
            let flags = (header[0] + 256 * header[1] + 65536 * header[2] + 16777216
                * header[3]) as u32;
            if flags & 0x0020_0000 != 0 {
                match lenenc_int(behind) {
                    Err(e) => read == Err::<(Seq<char>, Seq<char>, u32), ClientHandshakeError>(
                        ClientHandshakeError::AuthLength(e),
                    ),
                    Ok((length, width)) => reads_as(
                        read,
                        username,
                        behind.skip(width),
                        length as usize as int,
                        flags,
                    ),
                }
            } else if flags & 0x8000 != 0 {
                if behind.len() == 0 {
                    reads_as(read, username, behind, 0, flags)
                } else {
                    reads_as(read, username, behind.skip(1), behind[0] as int, flags)
                }
            } else {
                if behind.contains(0) {
                    reads_as(
                        read,
                        username,
                        behind,
                        before_nul(behind).len() as int + 1,
                        flags,
                    )
                } else {
                    reads_as(read, username, behind, 0, flags)
                }
            }
        }),
        client_handshake_of(header + username) == Err::<
            (Seq<char>, Seq<char>, u32),
            ClientHandshakeError,
        >(ClientHandshakeError::MissingUsernameNul),
        forall|part: int|
            0 <= part < 32 ==> client_handshake_of(#[trigger] header.take(part)) == Err::<
                (Seq<char>, Seq<char>, u32),
                ClientHandshakeError,
            >(ClientHandshakeError::TooShort(part as usize)),
{
    let payload = header + username.push(0) + behind;
    let endless = header + username;
    assert(endless.skip(32) =~= username);
    username.index_of_first_ensures(0);
    assert(payload.take(4) =~= header.take(4));
    lemma_four_bytes(header.take(4));
    assert(payload.skip(32) =~= username.push(0) + behind);
    lemma_nul_after(username, behind);
    behind.index_of_first_ensures(0);
    assert(behind.skip(0) =~= behind);
    let flags = client_flags(payload);
    assert(flags == header[0] + 256 * header[1] + 65536 * header[2] + 16777216 * header[3]);
    lemma_lossy_empty();
    assert(before_nul(Seq::<u8>::empty()) =~= Seq::<u8>::empty()) by {
        Seq::<u8>::empty().index_of_first_ensures(0);
    }
    assert(forall|bytes: Seq<u8>|
        (#[trigger] bytes.skip(bytes.len() as int)) =~= Seq::<u8>::empty());
}

/// Whether a client's answer was read as this username, these flags, and the database that follows
/// so many bytes of auth data; none, if there are not so many, or if the flags name none.
pub open spec fn reads_as(
    read: Result<(Seq<char>, Seq<char>, u32), ClientHandshakeError>,
    username: Seq<u8>,
    auth_and_rest: Seq<u8>,
    auth_len: int,
    flags: u32,
) -> bool {
    read == Ok::<(Seq<char>, Seq<char>, u32), ClientHandshakeError>(
        (
            utf8_lossy(username),
            if flags & 0x0008 == 0 || auth_len > auth_and_rest.len() {
                Seq::empty()
            } else {
                utf8_lossy(before_nul(auth_and_rest.skip(auth_len)))
            },
            flags,
        ),
    )
}

/// The auth data is a part of what follows the username.
proof fn lemma_auth_data_in(flags: u32, bytes: Seq<u8>)
    ensures
        ({
            let (start, end) = auth_data_in(flags, bytes);
            0 <= start <= end <= bytes.len()
        }),
{
    bytes.index_of_first_ensures(0);
}

/// What follows the auth data is the same for auth data with other bytes.
proof fn lemma_after_other_auth_data(flags: u32, bytes: Seq<u8>, changed: Seq<u8>)
    requires
        changed.len() == bytes.len(),
        forall|i: int|
            0 <= i < bytes.len() && !(auth_data_in(flags, bytes).0 <= i < auth_data_in(
                flags,
                bytes,
            ).1) ==> #[trigger] changed[i] == bytes[i],
        (flags & CLIENT_PLUGIN_AUTH_LENENC_CLIENT_DATA == 0 && flags & CLIENT_SECURE_CONNECTION
            == 0) ==> forall|i: int|
            auth_data_in(flags, bytes).0 <= i < auth_data_in(flags, bytes).1
                ==> #[trigger] changed[i] != 0,
    ensures
        after_auth_data(flags, changed) == after_auth_data(flags, bytes),
{
    if flags & CLIENT_PLUGIN_AUTH_LENENC_CLIENT_DATA != 0 {
        match lenenc_int(bytes) {
            Err(_) => {
                assert(changed =~= bytes);
            },
            Ok((length, width)) => {
                assert(changed[0] == bytes[0]);
                assert(changed.subrange(1, width) =~= bytes.subrange(1, width));
                assert(lenenc_int(changed) == lenenc_int(bytes));
                let count = (length as usize) as int;
                assert(skip_up_to(changed.skip(width), count) =~= skip_up_to(
                    bytes.skip(width),
                    count,
                ));
            },
        }
    } else if flags & CLIENT_SECURE_CONNECTION != 0 {
        if bytes.len() == 0 {
            assert(changed =~= bytes);
        } else {
            assert(changed[0] == bytes[0]);
            let count = bytes[0] as int;
            assert(skip_up_to(changed.skip(1), count) =~= skip_up_to(bytes.skip(1), count));
        }
    } else {
        bytes.index_of_first_ensures(0);
        changed.index_of_first_ensures(0);
        match bytes.index_of_first(0) {
            None => {
                assert(changed =~= bytes);
            },
            Some(end) => {
                assert(changed[end] == 0);
                assert(changed.skip(end + 1) =~= bytes.skip(end + 1));
            },
        }
    }
}

/// A client's answer reads as its flags, its username and what stands behind the auth data.
pub proof fn lemma_auth_field_passed_over(
    header: Seq<u8>,
    username: Seq<u8>,
    auth: Seq<u8>,
    rest: Seq<u8>,
)
    requires
        header.len() == 32,
        nul_free(username),
        auth_field_holds(client_flags(header), auth),
    ensures
        client_handshake_of(
            header + username.push(0) + auth_field(client_flags(header), auth) + rest,
        ) == Ok::<(Seq<char>, Seq<char>, u32), ClientHandshakeError>(
            (
                utf8_lossy(username),
                if client_flags(header) & CLIENT_CONNECT_WITH_DB != 0 {
                    utf8_lossy(before_nul(rest))
                } else {
                    Seq::empty()
                },
                client_flags(header),
            ),
        ),
{
    let flags = client_flags(header);
    let field = auth_field(flags, auth);
    let payload = header + username.push(0) + field + rest;
    assert(payload.take(4) =~= header.take(4));
    assert(payload.skip(32) =~= username.push(0) + (field + rest));
    lemma_nul_after(username, field + rest);
    lemma_auth_field_skipped(flags, auth, rest);
}

/// Auth data whose end is found is skipped as a whole.
proof fn lemma_auth_field_skipped(flags: u32, auth: Seq<u8>, rest: Seq<u8>)
    requires
        auth_field_holds(flags, auth),
    ensures
        after_auth_data(flags, auth_field(flags, auth) + rest) == Ok::<Seq<u8>, LenencError>(rest),
{
    let field = auth_field(flags, auth);
    if flags & CLIENT_PLUGIN_AUTH_LENENC_CLIENT_DATA != 0 {
        let prefix = auth_length(auth.len());
        assert(field + rest =~= prefix + (auth + rest));
        law_auth_length_round_trip(auth.len(), auth + rest);
        assert((prefix + (auth + rest)).skip(prefix.len() as int) =~= auth + rest);
        assert(((auth.len() as u64) as usize) as int == auth.len());
        assert(skip_up_to(auth + rest, auth.len() as int) =~= rest);
    } else if flags & CLIENT_SECURE_CONNECTION != 0 {
        assert((field + rest).skip(1) =~= auth + rest);
        assert(skip_up_to(auth + rest, auth.len() as int) =~= rest);
    } else {
        lemma_nul_after(auth, rest);
    }
}

// ---------------------------------------------------------------------------
// Greeting a client
// ---------------------------------------------------------------------------

/// What the proxy offers as a server.
pub const PROXY_CAPS: u32 = CLIENT_LONG_PASSWORD | CLIENT_FOUND_ROWS | CLIENT_LONG_FLAG
    | CLIENT_CONNECT_WITH_DB | CLIENT_PROTOCOL_41 | CLIENT_TRANSACTIONS | CLIENT_SECURE_CONNECTION
    | CLIENT_PLUGIN_AUTH | CLIENT_PLUGIN_AUTH_LENENC_CLIENT_DATA;

/// Auth data that looks random. A client does not use it for `mysql_clear_password`, but the
/// protocol requires it.
pub open spec fn proxy_auth_data_part1() -> Seq<u8> {
    seq![0x01, 0x02, 0x03, 0x04, 0x05, 0x06, 0x07, 0x08]
}

/// The rest of it: twelve bytes.
pub open spec fn proxy_auth_data_part2() -> Seq<u8> {
    seq![0x09, 0x0A, 0x0B, 0x0C, 0x0D, 0x0E, 0x0F, 0x10, 0x11, 0x12, 0x13, 0x14]
}

/// The first packet of the proxy to a client.
pub open spec fn server_handshake(connection_id: u32) -> Seq<u8> {
    seq![10u8] + cstr("5.7.0-rds-iam-proxy"@) + le_bytes(connection_id as nat, 4)
        + proxy_auth_data_part1() + seq![0u8] + le_bytes((PROXY_CAPS as nat) % 65536, 2)
        + seq![CHARSET_UTF8MB4] + le_bytes(0x0002, 2) + le_bytes((PROXY_CAPS as nat) / 65536, 2)
        + seq![21u8] + zeros(10) + proxy_auth_data_part2().push(0) + cstr("mysql_clear_password"@)
}

/// Builds the packet that greets a MySQL client. It advertises `mysql_clear_password` as the auth
/// plugin so clients send the password in cleartext.
pub fn build_server_handshake(connection_id: u32) -> (packet: Vec<u8>)
    ensures
        packet@ == server_handshake(connection_id),
{
    let auth_data_part1: Vec<u8> = vec![0x01, 0x02, 0x03, 0x04, 0x05, 0x06, 0x07, 0x08];
    let auth_data_part2: Vec<u8> = vec![
        0x09,
        0x0A,
        0x0B,
        0x0C,
        0x0D,
        0x0E,
        0x0F,
        0x10,
        0x11,
        0x12,
        0x13,
        0x14,
        0x00,
    ];  // 12 bytes + NUL
    let cap_lower: u16 = (PROXY_CAPS & 0xFFFF) as u16;
    let cap_upper: u16 = ((PROXY_CAPS >> 16) & 0xFFFF) as u16;
    proof {
        lemma_proxy_caps();
        reveal_strlit("5.7.0-rds-iam-proxy");
        lemma_le_bytes_len(connection_id as nat, 4);
        lemma_le_bytes_len(cap_lower as nat, 2);
        lemma_le_bytes_len(cap_upper as nat, 2);
        lemma_le_bytes_len(0x0002, 2);
        lemma_greeting_text();
    }
    let mut buf: Vec<u8> = Vec::new();
    buf.push(10);  // protocol version
    buf.extend_from_slice("5.7.0-rds-iam-proxy".as_bytes());
    buf.push(0);
    vec_put_u32_le(&mut buf, connection_id);
    buf.extend_from_slice(auth_data_part1.as_slice());
    buf.push(0x00);  // filler
    vec_put_u16_le(&mut buf, cap_lower);
    vec_put_u8(&mut buf, CHARSET_UTF8MB4);  // character set
    vec_put_u16_le(&mut buf, 0x0002);  // status flags: SERVER_STATUS_AUTOCOMMIT
    vec_put_u16_le(&mut buf, cap_upper);
    vec_put_u8(&mut buf, 21);  // auth plugin data length (8 + 13 = 21)
    let reserved: Vec<u8> = vec![0u8; 10];
    buf.extend_from_slice(reserved.as_slice());
    buf.extend_from_slice(auth_data_part2.as_slice());
    buf.extend_from_slice("mysql_clear_password".as_bytes());
    buf.push(0);
    proof {
        assert(auth_data_part1@ =~= proxy_auth_data_part1());
        assert(auth_data_part2@ =~= proxy_auth_data_part2().push(0));
        assert(reserved@ =~= zeros(10));
        assert(buf@ =~= server_handshake(connection_id));
    }
    buf
}

/// The two halves of the proxy's capability flags.
proof fn lemma_proxy_caps()
    ensures
        (PROXY_CAPS & 0xFFFF) as u16 == (PROXY_CAPS as nat) % 65536,
        ((PROXY_CAPS >> 16) & 0xFFFF) as u16 == (PROXY_CAPS as nat) / 65536,
        PROXY_CAPS & CLIENT_PLUGIN_AUTH != 0,
        PROXY_CAPS & CLIENT_SECURE_CONNECTION != 0,
{
    assert((PROXY_CAPS & 0xFFFF) as u16 == PROXY_CAPS % 65536) by (bit_vector);
    assert(((PROXY_CAPS >> 16) & 0xFFFF) as u16 == PROXY_CAPS / 65536) by (bit_vector);
    assert(PROXY_CAPS & CLIENT_PLUGIN_AUTH != 0) by (bit_vector);
    assert(PROXY_CAPS & CLIENT_SECURE_CONNECTION != 0) by (bit_vector);
}

/// The texts of the greeting are plain ASCII without a NUL character.
proof fn lemma_greeting_text()
    ensures
        encode_utf8("5.7.0-rds-iam-proxy"@).len() == 19,
        nul_free(encode_utf8("5.7.0-rds-iam-proxy"@)),
        nul_free(encode_utf8("mysql_clear_password"@)),
{
    broadcast use vstd::utf8::group_utf8_lib;

    reveal_strlit("5.7.0-rds-iam-proxy");
    reveal_strlit("mysql_clear_password");
    lemma_encode_nul_free("5.7.0-rds-iam-proxy"@);
    lemma_encode_nul_free("mysql_clear_password"@);
    vstd::utf8::is_ascii_chars_encode_utf8("5.7.0-rds-iam-proxy"@);
}

/// What the proxy asks of a backend fits what it offers to clients: no more is asked for than is
/// offered, and neither TLS nor the leaving out of EOF packets is offered.
pub proof fn law_offer_covers_request(server_caps: u32)
    ensures
        response_caps(server_caps) & !PROXY_CAPS == 0,
        PROXY_CAPS & CLIENT_SSL == 0,
        PROXY_CAPS & CLIENT_DEPRECATE_EOF == 0,
{
    assert(response_caps(server_caps) & !PROXY_CAPS == 0) by (bit_vector);
    assert(PROXY_CAPS & CLIENT_SSL == 0) by (bit_vector);
    assert(PROXY_CAPS & CLIENT_DEPRECATE_EOF == 0) by (bit_vector);
}

/// What the proxy offers to clients, and the bytes around what its greeting says: a zero byte
/// between the first part of the auth data and the capabilities, the length 21 of the auth data,
/// and ten zero bytes.
pub proof fn law_offer_bytes(connection_id: u32)
    ensures
        PROXY_CAPS == 0x0028_A20F,
        ({
            let fields = server_handshake(connection_id).skip(
                2 + encode_utf8("5.7.0-rds-iam-proxy"@).len() as int,
            );
            &&& fields.len() == 44 + encode_utf8("mysql_clear_password"@).len() + 1
            &&& fields[12] == 0
            &&& fields[20] == 8 + 12 + 1
            &&& forall|i: int| 21 <= i < 31 ==> #[trigger] fields[i] == 0
            &&& forall|i: int| 0 <= i < 8 ==> #[trigger] fields[4 + i] == i + 1
            &&& forall|i: int| 0 <= i < 12 ==> #[trigger] fields[31 + i] == i + 9
            &&& fields[43] == 0
            &&& fields.last() == 0
        }),
{
    let data = server_handshake(connection_id);
    let version = encode_utf8("5.7.0-rds-iam-proxy"@);
    let fields = greeting_fields(connection_id);
    lemma_greeting_layout(connection_id);
    lemma_greeting_padding(connection_id);
    assert(PROXY_CAPS == 0x0028_A20F) by (bit_vector);
    assert(data =~= seq![10u8] + version.push(0) + fields);
    assert(data.skip(2 + version.len() as int) =~= fields);
    assert forall|i: int| 0 <= i < 8 implies #[trigger] fields[4 + i] == i + 1 by {
        assert(fields[4 + i] == fields.subrange(4, 12)[i]);
    }
    assert forall|i: int| 0 <= i < 12 implies #[trigger] fields[31 + i] == i + 9 by {
        assert(fields[31 + i] == fields.subrange(31, 44)[i]);
    }
    assert(fields[43] == fields.subrange(31, 44)[12]);
    assert(fields.last() == fields.skip(44).last());
}

/// Where zero bytes stand in the proxy's greeting.
proof fn lemma_greeting_padding(connection_id: u32)
    ensures
        greeting_fields(connection_id)[12] == 0,
        forall|i: int| 21 <= i < 31 ==> #[trigger] greeting_fields(connection_id)[i] == 0,
{
    lemma_le_bytes_len(connection_id as nat, 4);
    lemma_le_bytes_len((PROXY_CAPS as nat) % 65536, 2);
    lemma_le_bytes_len((PROXY_CAPS as nat) / 65536, 2);
    lemma_le_bytes_len(0x0002, 2);
}

/// What follows the server version in the proxy's greeting.
spec fn greeting_fields(connection_id: u32) -> Seq<u8> {
    le_bytes(connection_id as nat, 4) + proxy_auth_data_part1() + seq![0u8] + le_bytes(
        (PROXY_CAPS as nat) % 65536,
        2,
    ) + seq![CHARSET_UTF8MB4] + le_bytes(0x0002, 2) + le_bytes((PROXY_CAPS as nat) / 65536, 2)
        + seq![21u8] + zeros(10) + proxy_auth_data_part2().push(0) + cstr("mysql_clear_password"@)
}

/// Where the fields of the proxy's greeting stand.
proof fn lemma_greeting_layout(connection_id: u32)
    ensures
        ({
            let rest = greeting_fields(connection_id);
            &&& rest.len() == 44 + cstr("mysql_clear_password"@).len()
            &&& rest.take(4) == le_bytes(connection_id as nat, 4)
            &&& rest.subrange(4, 12) == proxy_auth_data_part1()
            &&& rest.subrange(13, 15) == le_bytes((PROXY_CAPS as nat) % 65536, 2)
            &&& rest[15] == CHARSET_UTF8MB4
            &&& rest.subrange(16, 18) == le_bytes(0x0002, 2)
            &&& rest.subrange(18, 20) == le_bytes((PROXY_CAPS as nat) / 65536, 2)
            &&& rest[20] == 21
            &&& rest.subrange(31, 44) == proxy_auth_data_part2().push(0)
            &&& rest.skip(44) == cstr("mysql_clear_password"@)
        }),
{
    let rest = greeting_fields(connection_id);
    lemma_le_bytes_len(connection_id as nat, 4);
    lemma_le_bytes_len((PROXY_CAPS as nat) % 65536, 2);
    lemma_le_bytes_len((PROXY_CAPS as nat) / 65536, 2);
    lemma_le_bytes_len(0x0002, 2);
    assert(rest.take(4) =~= le_bytes(connection_id as nat, 4));
    assert(rest.subrange(4, 12) =~= proxy_auth_data_part1());
    assert(rest.subrange(13, 15) =~= le_bytes((PROXY_CAPS as nat) % 65536, 2));
    assert(rest.subrange(16, 18) =~= le_bytes(0x0002, 2));
    assert(rest.subrange(18, 20) =~= le_bytes((PROXY_CAPS as nat) / 65536, 2));
    assert(rest.subrange(31, 44) =~= proxy_auth_data_part2().push(0));
    assert(rest.skip(44) =~= cstr("mysql_clear_password"@));
}

/// The two halves of the proxy's capabilities read back as one.
proof fn lemma_greeting_caps()
    ensures
        le_value(
            le_bytes((PROXY_CAPS as nat) % 65536, 2) + le_bytes((PROXY_CAPS as nat) / 65536, 2),
        ) == PROXY_CAPS,
{
    let low = le_bytes((PROXY_CAPS as nat) % 65536, 2);
    let high = le_bytes((PROXY_CAPS as nat) / 65536, 2);
    reveal_with_fuel(span, 5);
    lemma_le_bytes_len((PROXY_CAPS as nat) % 65536, 2);
    lemma_le_bytes_len((PROXY_CAPS as nat) / 65536, 2);
    lemma_le_round_trip((PROXY_CAPS as nat) % 65536, 2);
    lemma_le_round_trip((PROXY_CAPS as nat) / 65536, 2);
    lemma_le_value_digits(low);
    lemma_le_value_digits(high);
    lemma_le_value_digits(low + high);
}

/// What the fields of the proxy's greeting say.
proof fn lemma_greeting_fields(server_version: Seq<char>, connection_id: u32)
    ensures
        handshake_fields(server_version, greeting_fields(connection_id)) == Ok::<
            HandshakeView,
            HandshakeError,
        >(
            HandshakeView {
                protocol_version: 10,
                server_version,
                connection_id,
                auth_plugin_data_part1: proxy_auth_data_part1(),
                capability_flags: PROXY_CAPS,
                character_set: CHARSET_UTF8MB4,
                status_flags: 0x0002,
                auth_plugin_data_part2: proxy_auth_data_part2(),
                auth_plugin_name: "mysql_clear_password"@,
            },
        ),
{
    let rest = greeting_fields(connection_id);
    let plugin = encode_utf8("mysql_clear_password"@);
    lemma_greeting_layout(connection_id);
    lemma_greeting_caps();
    lemma_proxy_caps();
    lemma_greeting_text();
    assert(le_value(rest.take(4)) == connection_id && le_value(rest.subrange(16, 18)) == 2) by {
        reveal_with_fuel(span, 5);
        lemma_le_round_trip(connection_id as nat, 4);
        lemma_le_round_trip(0x0002, 2);
    }
    assert(capability_flags(rest) == PROXY_CAPS);
    assert(part2_len(rest) == 13);
    assert(without_final_nul(rest.subrange(31, 44)) =~= proxy_auth_data_part2());
    assert(rest.skip(44) =~= plugin.push(0) + Seq::<u8>::empty());
    lemma_nul_after(plugin, Seq::empty());
    lemma_lossy_of_encoded("mysql_clear_password"@);
}

/// What the proxy says first can be parsed, and says what the proxy is: its version, the
/// connection's id, its capabilities and the clear-password plugin.
pub proof fn law_server_handshake_parses(connection_id: u32)
    ensures
        !ends_before_auth_length(server_handshake(connection_id)),
        handshake_of(server_handshake(connection_id)) == Ok::<HandshakeView, HandshakeError>(
            HandshakeView {
                protocol_version: 10,
                server_version: "5.7.0-rds-iam-proxy"@,
                connection_id,
                auth_plugin_data_part1: proxy_auth_data_part1(),
                capability_flags: PROXY_CAPS,
                character_set: CHARSET_UTF8MB4,
                status_flags: 0x0002,
                auth_plugin_data_part2: proxy_auth_data_part2(),
                auth_plugin_name: "mysql_clear_password"@,
            },
        ),
{
    let version = encode_utf8("5.7.0-rds-iam-proxy"@);
    let rest = greeting_fields(connection_id);
    let data = server_handshake(connection_id);
    lemma_greeting_text();
    lemma_greeting_layout(connection_id);
    lemma_greeting_fields("5.7.0-rds-iam-proxy"@, connection_id);
    assert(data.skip(1) =~= version.push(0) + rest);
    lemma_nul_after(version, rest);
    lemma_lossy_of_encoded("5.7.0-rds-iam-proxy"@);
}

/// What is stated of a parsed greeting is stated of its fields.
pub proof fn law_greeting_is_its_fields(said: HandshakeV10)
    ensures
        said@.protocol_version == said.protocol_version,
        said@.server_version == said.server_version@,
        said@.connection_id == said.connection_id,
        said@.auth_plugin_data_part1 == said.auth_plugin_data_part1@,
        said@.capability_flags == said.capability_flags,
        said@.character_set == said.character_set,
        said@.status_flags == said.status_flags,
        said@.auth_plugin_data_part2 == said.auth_plugin_data_part2@,
        said@.auth_plugin_name == said.auth_plugin_name@,
{
}

} // verus!
