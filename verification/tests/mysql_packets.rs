use bytes::BytesMut;
use rds_proxy::mysql_packet::{
    build_err_packet, build_ok_packet, frame_packet, parse_err_packet, read_lenenc_int,
    read_packet_header, LenencError, PacketError,
};

#[test]
fn header_gives_length_and_sequence_number() {
    assert_eq!(read_packet_header(&[0x03, 0x02, 0x01, 9]), Ok((0x010203, 9)));
    assert_eq!(read_packet_header(&[0xFF, 0xFF, 0xFF, 0xFF]), Ok((0xFF_FFFF, 255)));
}

#[test]
fn framed_packet_reads_back() {
    let payload = vec![7u8; 300];
    let frame = frame_packet(5, &payload).unwrap();
    assert_eq!(&frame[..4], &[0x2C, 0x01, 0x00, 5]);
    assert_eq!(&frame[4..], &payload[..]);
    let header = [frame[0], frame[1], frame[2], frame[3]];
    assert_eq!(read_packet_header(&header), Ok((300, 5)));
}

#[test]
fn longest_payload_is_framed_and_a_longer_one_is_not() {
    let frame = frame_packet(0, &vec![0u8; 0xFF_FFFF]).unwrap();
    assert_eq!(&frame[..4], &[0xFF, 0xFF, 0xFF, 0]);
    assert_eq!(frame_packet(0, &vec![0u8; 0x100_0000]), Err(PacketError::TooLarge(0x100_0000)));
}

#[test]
fn empty_payload_is_framed() {
    assert_eq!(frame_packet(1, &[]), Ok(vec![0, 0, 0, 1]));
}

fn lenenc(bytes: &[u8]) -> (Result<u64, LenencError>, Vec<u8>) {
    let mut buf = BytesMut::from(bytes);
    let read = read_lenenc_int(&mut buf);
    (read, buf.to_vec())
}

#[test]
fn lenenc_one_byte() {
    assert_eq!(lenenc(&[0, 1]), (Ok(0), vec![1]));
    assert_eq!(lenenc(&[0xFA, 1]), (Ok(250), vec![1]));
}

#[test]
fn lenenc_null_is_zero() {
    assert_eq!(lenenc(&[0xFB, 1]), (Ok(0), vec![1]));
}

#[test]
fn lenenc_two_three_and_eight_bytes() {
    assert_eq!(lenenc(&[0xFC, 0x34, 0x12, 1]), (Ok(0x1234), vec![1]));
    assert_eq!(lenenc(&[0xFD, 0x56, 0x34, 0x12, 1]), (Ok(0x123456), vec![1]));
    assert_eq!(
        lenenc(&[0xFE, 8, 7, 6, 5, 4, 3, 2, 1, 9]),
        (Ok(0x0102030405060708), vec![9])
    );
}

#[test]
fn lenenc_errors_consume_the_prefix_only() {
    assert_eq!(lenenc(&[]), (Err(LenencError::UnexpectedEnd), vec![]));
    assert_eq!(lenenc(&[0xFC, 1]), (Err(LenencError::TruncatedTwoByte), vec![1]));
    assert_eq!(lenenc(&[0xFD, 1, 2]), (Err(LenencError::TruncatedThreeByte), vec![1, 2]));
    assert_eq!(
        lenenc(&[0xFE, 1, 2, 3, 4, 5, 6, 7]),
        (Err(LenencError::TruncatedEightByte), vec![1, 2, 3, 4, 5, 6, 7])
    );
    assert_eq!(lenenc(&[0xFF, 1]), (Err(LenencError::ErrMarker), vec![1]));
}

#[test]
fn ok_packet_bytes() {
    assert_eq!(build_ok_packet(), vec![0, 0, 0, 2, 0, 0, 0]);
}

#[test]
fn err_packet_bytes() {
    let mut expected = vec![0xFF, 0x15, 0x04];
    expected.extend_from_slice(b"#28000no");
    assert_eq!(build_err_packet(1045, "28000", "no"), expected);
}

#[test]
fn err_packet_reads_back() {
    let packet = build_err_packet(1045, "28000", "Access denied for 'ünal'");
    assert_eq!(parse_err_packet(&packet).unwrap(), "Error 1045: Access denied for 'ünal'");
}

#[test]
fn err_packet_without_sql_state() {
    assert_eq!(parse_err_packet(&[0xFF, 0x10, 0x04, b'b', b'a', b'd']).unwrap(), "Error 1040: bad");
    assert_eq!(parse_err_packet(&[0xFF, 0, 0]).unwrap(), "Error 0: ");
    assert_eq!(parse_err_packet(&[0xFF, 0xFF, 0xFF]).unwrap(), "Error 65535: ");
}

#[test]
fn err_packet_cut_off_inside_sql_state() {
    assert_eq!(parse_err_packet(&[0xFF, 0x10, 0x04, b'#', b'2', b'8']).unwrap(), "Error 1040: ");
}

#[test]
fn err_packet_too_short() {
    assert_eq!(parse_err_packet(&[0xFF, 1]).unwrap(), "Unknown error (packet too short)");
    assert_eq!(parse_err_packet(&[]).unwrap(), "Unknown error (packet too short)");
}

#[test]
fn err_packet_message_that_is_not_utf8_is_repaired() {
    assert_eq!(parse_err_packet(&[0xFF, 1, 0, b'a', 0xFF, b'b']).unwrap(), "Error 1: a\u{FFFD}b");
}
