use rds_proxy::mysql_handshake::{
    breaks_off_before_auth_length, build_handshake_response, build_server_handshake,
    build_ssl_request, handshake_response_fits, parse_client_handshake, text_before_nul,
    ClientHandshakeError, HandshakeError, HandshakeV10, PROXY_CAPS,
};
use rds_proxy::mysql_packet::{
    LenencError, CLIENT_CONNECT_WITH_DB, CLIENT_DEPRECATE_EOF, CLIENT_PLUGIN_AUTH,
    CLIENT_PLUGIN_AUTH_LENENC_CLIENT_DATA, CLIENT_SECURE_CONNECTION, CLIENT_SSL,
};

fn flags_of(packet: &[u8]) -> u32 {
    u32::from_le_bytes([packet[0], packet[1], packet[2], packet[3]])
}

#[test]
fn server_handshake_parses() {
    let packet = build_server_handshake(0x01020304);
    assert!(!breaks_off_before_auth_length(&packet));
    let parsed = HandshakeV10::parse(&packet).unwrap();
    assert_eq!(parsed.protocol_version, 10);
    assert_eq!(parsed.server_version, "5.7.0-rds-iam-proxy");
    assert_eq!(parsed.connection_id, 0x01020304);
    assert_eq!(parsed.auth_plugin_data_part1, vec![1, 2, 3, 4, 5, 6, 7, 8]);
    assert_eq!(parsed.capability_flags, 0x0028_A20F);
    assert_eq!(parsed.capability_flags, PROXY_CAPS);
    assert_eq!(parsed.character_set, 45);
    assert_eq!(parsed.status_flags, 2);
    assert_eq!(parsed.auth_plugin_data_part2, vec![9, 10, 11, 12, 13, 14, 15, 16, 17, 18, 19, 20]);
    assert_eq!(parsed.auth_plugin_name, "mysql_clear_password");
}

#[test]
fn server_handshake_bytes() {
    let mut expected = vec![10u8];
    expected.extend_from_slice(b"5.7.0-rds-iam-proxy\0");
    expected.extend_from_slice(&[7, 0, 0, 0, 1, 2, 3, 4, 5, 6, 7, 8, 0]);
    expected.extend_from_slice(&[0x0F, 0xA2, 45, 2, 0, 0x28, 0x00, 21]);
    expected.extend_from_slice(&[0; 10]);
    expected.extend_from_slice(&[9, 10, 11, 12, 13, 14, 15, 16, 17, 18, 19, 20, 0]);
    expected.extend_from_slice(b"mysql_clear_password\0");
    assert_eq!(build_server_handshake(7), expected);
}

/// A greeting with a version of one letter, up to and with `rest` of its fixed fields.
fn greeting(caps: u32, auth_len: u8, tail: &[u8]) -> Vec<u8> {
    let low = (caps & 0xFFFF) as u16;
    let high = (caps >> 16) as u16;
    let mut packet = vec![10, b'8', 0, 0x2A, 0, 0, 0, 1, 2, 3, 4, 5, 6, 7, 8, 0];
    packet.extend_from_slice(&low.to_le_bytes());
    packet.push(33);
    packet.extend_from_slice(&[3, 1]);
    packet.extend_from_slice(&high.to_le_bytes());
    packet.push(auth_len);
    packet.extend_from_slice(&[0; 10]);
    packet.extend_from_slice(tail);
    packet
}

#[test]
fn handshake_fields_are_read() {
    let parsed = HandshakeV10::parse(&greeting(0xFFFF_FFFF, 21, b"abcdefghijkl\0plugin\0rest")).unwrap();
    assert_eq!(parsed.server_version, "8");
    assert_eq!(parsed.connection_id, 42);
    assert_eq!(parsed.capability_flags, 0xFFFF_FFFF);
    assert_eq!(parsed.character_set, 33);
    assert_eq!(parsed.status_flags, 0x0103);
    assert_eq!(parsed.auth_plugin_data_part2, b"abcdefghijkl".to_vec());
    assert_eq!(parsed.auth_plugin_name, "plugin");
}

#[test]
fn handshake_long_auth_data() {
    let parsed = HandshakeV10::parse(&greeting(0xFFFF_FFFF, 28, b"abcdefghijklmnopqrstplugin")).unwrap();
    assert_eq!(parsed.auth_plugin_data_part2, b"abcdefghijklmnopqrst".to_vec());
    assert_eq!(parsed.auth_plugin_name, "plugin");
}

#[test]
fn handshake_auth_data_cut_off() {
    let parsed = HandshakeV10::parse(&greeting(0xFFFF_FFFF, 21, b"abc")).unwrap();
    assert_eq!(parsed.auth_plugin_data_part2, b"abc".to_vec());
    assert_eq!(parsed.auth_plugin_name, "");
}

#[test]
fn handshake_strips_one_final_nul() {
    let parsed = HandshakeV10::parse(&greeting(0xFFFF_FFFF, 21, b"ab\0\0")).unwrap();
    assert_eq!(parsed.auth_plugin_data_part2, b"ab\0".to_vec());
}

#[test]
fn handshake_without_plugin_auth() {
    let parsed =
        HandshakeV10::parse(&greeting(CLIENT_SECURE_CONNECTION, 200, b"abcdefghijklmnop")).unwrap();
    assert_eq!(parsed.auth_plugin_data_part2, b"abcdefghijklm".to_vec());
    assert_eq!(parsed.auth_plugin_name, "");
}

#[test]
fn handshake_without_secure_connection() {
    let parsed = HandshakeV10::parse(&greeting(CLIENT_PLUGIN_AUTH, 21, b"plugin\0")).unwrap();
    assert_eq!(parsed.auth_plugin_data_part2, Vec::<u8>::new());
    assert_eq!(parsed.auth_plugin_name, "plugin");
}

#[test]
fn handshake_of_an_old_server() {
    let packet = greeting(0x0000_8801, 0, b"");
    let parsed = HandshakeV10::parse(&packet[..3 + 15]).unwrap();
    assert_eq!(parsed.capability_flags, 0x8801);
    assert_eq!(parsed.character_set, 0);
    assert_eq!(parsed.status_flags, 0);
    assert_eq!(parsed.auth_plugin_name, "");
    assert!(HandshakeV10::parse(&packet[..3 + 19]).is_ok());
}

#[test]
fn handshake_errors() {
    let packet = greeting(0xFFFF_FFFF, 21, b"");
    assert_eq!(HandshakeV10::parse(&[]).unwrap_err(), HandshakeError::EmptyPayload);
    assert_eq!(HandshakeV10::parse(&[9, 0]).unwrap_err(), HandshakeError::UnsupportedVersion(9));
    assert_eq!(
        HandshakeV10::parse(&[10, b'5', b'.']).unwrap_err(),
        HandshakeError::MissingServerVersionNul
    );
    assert_eq!(
        HandshakeV10::parse(&packet[..3 + 14]).unwrap_err(),
        HandshakeError::TruncatedAfterServerVersion
    );
    assert_eq!(
        HandshakeV10::parse(&packet[..3 + 21]).unwrap_err(),
        HandshakeError::MissingReserved
    );
    assert_eq!(
        HandshakeV10::parse(&packet[..3 + 30]).unwrap_err(),
        HandshakeError::MissingReserved
    );
    assert!(HandshakeV10::parse(&packet).is_ok());
}

#[test]
fn handshake_that_breaks_off_before_the_auth_length() {
    let packet = greeting(0xFFFF_FFFF, 21, b"");
    assert!(breaks_off_before_auth_length(&packet[..3 + 20]));
    assert!(!breaks_off_before_auth_length(&packet[..3 + 19]));
    assert!(!breaks_off_before_auth_length(&packet[..3 + 21]));
    assert!(!breaks_off_before_auth_length(&[]));
    assert!(!breaks_off_before_auth_length(&[10, 1, 2]));
}

#[test]
fn ssl_request_bytes() {
    let packet = build_ssl_request(0xFFFF_FFFF);
    assert_eq!(packet.len(), 32);
    assert_eq!(&packet[..9], &[0x0F, 0xAA, 0x28, 0x00, 0, 0, 0, 1, 45]);
    assert_eq!(&packet[9..], &[0u8; 23]);
}

#[test]
fn capabilities_are_those_of_the_server() {
    for server_caps in [0u32, 0xFFFF_FFFF, PROXY_CAPS, CLIENT_SSL | CLIENT_DEPRECATE_EOF | 1] {
        let asked = flags_of(&build_ssl_request(server_caps));
        let said = flags_of(&build_handshake_response(server_caps, "u", "p", "d"));
        assert_eq!(said & !server_caps, 0);
        assert_eq!(said & CLIENT_SSL, 0);
        assert_eq!(said & CLIENT_DEPRECATE_EOF, 0);
        assert_eq!(said & !PROXY_CAPS, 0);
        assert_eq!(asked, said | CLIENT_SSL);
    }
}

#[test]
fn handshake_response_bytes() {
    let packet = build_handshake_response(0xFFFF_FFFF, "me", "pw", "db");
    let mut expected = vec![0x0F, 0xA2, 0x28, 0x00, 0, 0, 0, 1, 45];
    expected.extend_from_slice(&[0; 23]);
    expected.extend_from_slice(b"me\0\x03pw\0db\0mysql_clear_password\0");
    assert_eq!(packet, expected);
}

#[test]
fn handshake_response_with_empty_database_keeps_the_field() {
    let packet = build_handshake_response(0xFFFF_FFFF, "me", "pw", "");
    assert_eq!(&packet[32..], b"me\0\x03pw\0\0mysql_clear_password\0");
}

#[test]
fn handshake_response_auth_lengths() {
    for length in [0usize, 249, 250, 251, 65534, 65535, 70000] {
        let password = "x".repeat(length);
        let packet = build_handshake_response(0xFFFF_FFFF, "me", &password, "db");
        let auth_len = length + 1;
        let prefix = if auth_len < 251 {
            vec![auth_len as u8]
        } else if auth_len < 65536 {
            vec![0xFC, auth_len as u8, (auth_len >> 8) as u8]
        } else {
            vec![0xFD, auth_len as u8, (auth_len >> 8) as u8, (auth_len >> 16) as u8]
        };
        assert_eq!(&packet[35..35 + prefix.len()], &prefix[..]);
        assert_eq!(
            parse_client_handshake(&packet).unwrap(),
            ("me".to_string(), "db".to_string(), flags_of(&packet))
        );
    }
}

#[test]
fn handshake_response_reads_back_without_length_encoding() {
    for caps in [CLIENT_SECURE_CONNECTION | CLIENT_CONNECT_WITH_DB, CLIENT_CONNECT_WITH_DB] {
        let packet = build_handshake_response(caps, "me", "token", "db");
        assert_eq!(
            parse_client_handshake(&packet).unwrap(),
            ("me".to_string(), "db".to_string(), caps)
        );
    }
}

#[test]
fn handshake_response_fits_memory() {
    assert!(handshake_response_fits(0, "me", "token", "db"));
}

fn answer(flags: u32, tail: &[u8]) -> Vec<u8> {
    let mut packet = flags.to_le_bytes().to_vec();
    packet.extend_from_slice(&[0; 28]);
    packet.extend_from_slice(tail);
    packet
}

#[test]
fn client_handshake_without_database_flag() {
    let packet = answer(CLIENT_SECURE_CONNECTION, b"me\0\x02xxdb\0");
    assert_eq!(
        parse_client_handshake(&packet).unwrap(),
        ("me".to_string(), "".to_string(), CLIENT_SECURE_CONNECTION)
    );
}

#[test]
fn client_handshake_database_without_terminator() {
    let packet = answer(CLIENT_CONNECT_WITH_DB, b"me\0auth\0db");
    assert_eq!(parse_client_handshake(&packet).unwrap().1, "db");
}

#[test]
fn client_handshake_auth_data_longer_than_the_packet() {
    let flags = CLIENT_CONNECT_WITH_DB | CLIENT_SECURE_CONNECTION;
    assert_eq!(parse_client_handshake(&answer(flags, b"me\0\xFFab")).unwrap().1, "");
    let flags = CLIENT_CONNECT_WITH_DB | CLIENT_PLUGIN_AUTH_LENENC_CLIENT_DATA;
    assert_eq!(parse_client_handshake(&answer(flags, b"me\0\xFC\xFF\xFFab")).unwrap().1, "");
}

#[test]
fn client_handshake_is_the_same_with_other_auth_data() {
    let cases: [(u32, &[u8], &[u8]); 3] = [
        (CLIENT_PLUGIN_AUTH_LENENC_CLIENT_DATA, b"me\0\x03a\0bdb\0", b"me\0\xFC\x01\0xdb\0"),
        (CLIENT_SECURE_CONNECTION, b"me\0\0db\0", b"me\0\x04\0\0\xFF\xFFdb\0"),
        (0, b"me\0token\0db\0", b"me\0\0db\0"),
    ];
    for (flags, one, other) in cases {
        let flags = flags | CLIENT_CONNECT_WITH_DB;
        let expected = ("me".to_string(), "db".to_string(), flags);
        assert_eq!(parse_client_handshake(&answer(flags, one)).unwrap(), expected);
        assert_eq!(parse_client_handshake(&answer(flags, other)).unwrap(), expected);
    }
}

#[test]
fn client_handshake_is_the_same_with_other_auth_bytes() {
    let lenenc = CLIENT_PLUGIN_AUTH_LENENC_CLIENT_DATA;
    let cases: [(u32, &[u8], &[u8]); 6] = [
        (lenenc, b"me\0\xFC\x02\0abdb\0", b"me\0\xFC\x02\0\0\xFFdb\0"),
        (lenenc, b"me\0\xFE\x02\0\0\0\0\0\0\0abdb\0", b"me\0\xFE\x02\0\0\0\0\0\0\0\0\0db\0"),
        (lenenc, b"me\0\x09abdb\0", b"me\0\x09\0\0\0\0\0"),
        (CLIENT_SECURE_CONNECTION, b"me\0\x02abdb\0", b"me\0\x02\0\0db\0"),
        (CLIENT_SECURE_CONNECTION, b"me\0\xFFabdb\0", b"me\0\xFF\0\0\0\0\0"),
        (0, b"me\0ab\0db\0", b"me\0\xFF\xFF\0db\0"),
    ];
    for (flags, one, other) in cases {
        let flags = flags | CLIENT_CONNECT_WITH_DB;
        let read = parse_client_handshake(&answer(flags, one));
        assert_eq!(read, parse_client_handshake(&answer(flags, other)));
        assert_eq!(read.unwrap().0, "me");
    }
}

#[test]
fn client_handshake_ends_behind_the_username() {
    let flags = CLIENT_CONNECT_WITH_DB | CLIENT_SECURE_CONNECTION;
    assert_eq!(
        parse_client_handshake(&answer(flags, b"me\0")).unwrap(),
        ("me".to_string(), "".to_string(), flags)
    );
    assert_eq!(parse_client_handshake(&answer(CLIENT_CONNECT_WITH_DB, b"me\0db")).unwrap().1, "db");
}

#[test]
fn client_handshake_errors() {
    assert_eq!(
        parse_client_handshake(&[0; 31]).unwrap_err(),
        ClientHandshakeError::TooShort(31)
    );
    assert_eq!(
        parse_client_handshake(&answer(0, b"me")).unwrap_err(),
        ClientHandshakeError::MissingUsernameNul
    );
    assert_eq!(
        parse_client_handshake(&answer(CLIENT_PLUGIN_AUTH_LENENC_CLIENT_DATA, b"me\0")).unwrap_err(),
        ClientHandshakeError::AuthLength(LenencError::UnexpectedEnd)
    );
    assert_eq!(
        parse_client_handshake(&answer(CLIENT_PLUGIN_AUTH_LENENC_CLIENT_DATA, b"me\0\xFF"))
            .unwrap_err(),
        ClientHandshakeError::AuthLength(LenencError::ErrMarker)
    );
}

#[test]
fn text_before_nul_of_bytes() {
    assert_eq!(text_before_nul(b"abc\0def"), "abc");
    assert_eq!(text_before_nul(b"abc"), "abc");
    assert_eq!(text_before_nul(b"\0"), "");
    assert_eq!(text_before_nul(b"a\xFF"), "a\u{FFFD}");
}
