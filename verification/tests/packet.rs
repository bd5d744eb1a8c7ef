use git_sync::error::ProtoError;
use git_sync::packet::{decode_packet, encode, encode_lines, parse_header, PacketHeader, ProtocolLine};

#[test]
fn length_encoding_writes_hex_header_then_payload() {
    let bytes = encode(&ProtocolLine::Data(b"a".to_vec()));
    assert_eq!(bytes, vec![0x30, 0x30, 0x30, 0x35, 0x61]);
}

#[test]
fn length_encoding_decodes_back() {
    let bytes = vec![0x30, 0x30, 0x30, 0x35, 0x61];
    let (line, used) = decode_packet(&bytes, false).unwrap();
    assert_eq!(line, ProtocolLine::Data(b"a".to_vec()));
    assert_eq!(used, 5);
}

#[test]
fn sentinels_encode_to_their_literal_headers() {
    assert_eq!(encode(&ProtocolLine::Flush), b"0000".to_vec());
    assert_eq!(encode(&ProtocolLine::Delimiter), b"0001".to_vec());
    assert_eq!(encode(&ProtocolLine::ResponseEnd), b"0002".to_vec());
}

#[test]
fn sentinels_round_trip() {
    for line in [
        ProtocolLine::Flush,
        ProtocolLine::Delimiter,
        ProtocolLine::ResponseEnd,
    ] {
        let bytes = encode(&line);
        let (back, used) = decode_packet(&bytes, true).unwrap();
        assert_eq!(back, line);
        assert_eq!(used, 4);
    }
}

#[test]
fn data_round_trips_without_chomp() {
    for payload in [
        b"".to_vec(),
        b"hello world\n".to_vec(),
        vec![0u8, 1, 2, 3, 255],
        vec![0x41; 1000],
    ] {
        let bytes = encode(&ProtocolLine::Data(payload.clone()));
        let (back, used) = decode_packet(&bytes, false).unwrap();
        assert_eq!(back, ProtocolLine::Data(payload.clone()));
        assert_eq!(used, payload.len() + 4);
    }
}

#[test]
fn chomp_removes_one_trailing_newline() {
    let bytes = encode(&ProtocolLine::Data(b"line\n".to_vec()));
    let (chomped, _) = decode_packet(&bytes, true).unwrap();
    assert_eq!(chomped, ProtocolLine::Data(b"line".to_vec()));
    let (raw, _) = decode_packet(&bytes, false).unwrap();
    assert_eq!(raw, ProtocolLine::Data(b"line\n".to_vec()));
}

#[test]
fn chomp_agrees_when_no_trailing_newline() {
    let bytes = encode(&ProtocolLine::Data(b"line".to_vec()));
    let (chomped, _) = decode_packet(&bytes, true).unwrap();
    let (raw, _) = decode_packet(&bytes, false).unwrap();
    assert_eq!(chomped, raw);
}

#[test]
fn reserved_header_is_refused() {
    let bytes = b"0003".to_vec();
    assert!(matches!(
        decode_packet(&bytes, false),
        Err(ProtoError::BadLength)
    ));
}

#[test]
fn short_buffer_is_truncated() {
    let bytes = b"00".to_vec();
    assert!(matches!(
        decode_packet(&bytes, false),
        Err(ProtoError::Truncated)
    ));
}

#[test]
fn short_payload_is_truncated() {
    let mut bytes = b"0008".to_vec();
    bytes.extend_from_slice(b"ab");
    assert!(matches!(
        decode_packet(&bytes, false),
        Err(ProtoError::Truncated)
    ));
}

#[test]
fn non_hex_header_bytes_count_as_zero() {
    // "00!5" reads as 0x0005 under the lenient policy.
    let bytes = vec![0x30, 0x30, 0x21, 0x35, 0x61];
    let (line, used) = decode_packet(&bytes, false).unwrap();
    assert_eq!(line, ProtocolLine::Data(b"a".to_vec()));
    assert_eq!(used, 5);
}

#[test]
fn uppercase_hex_is_not_accepted() {
    // "000A" coerces to zero, which is below the header size.
    let bytes = b"000A".to_vec();
    assert!(matches!(
        decode_packet(&bytes, false),
        Err(ProtoError::BadLength)
    ));
}

#[test]
fn parse_header_reads_sentinels_and_lengths() {
    assert_eq!(parse_header(&b"0000".to_vec()).unwrap(), PacketHeader::Flush);
    assert_eq!(
        parse_header(&b"0001".to_vec()).unwrap(),
        PacketHeader::Delimiter
    );
    assert_eq!(
        parse_header(&b"0002".to_vec()).unwrap(),
        PacketHeader::ResponseEnd
    );
    assert_eq!(
        parse_header(&b"ffff".to_vec()).unwrap(),
        PacketHeader::Data(0xffff - 4)
    );
    assert!(matches!(
        parse_header(&b"0003".to_vec()),
        Err(ProtoError::BadLength)
    ));
}

#[test]
fn into_owned_keeps_the_packet() {
    let line = ProtocolLine::Data(b"abc".to_vec());
    assert_eq!(line.clone().into_owned(), line);
    assert_eq!(ProtocolLine::Flush.into_owned(), ProtocolLine::Flush);
}

#[test]
fn encode_lines_concatenates() {
    let lines = vec![
        ProtocolLine::Data(b"a".to_vec()),
        ProtocolLine::Flush,
    ];
    let bytes = encode_lines(&lines);
    assert_eq!(bytes, b"0005a0000".to_vec());
}
