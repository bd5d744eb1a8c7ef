use git_sync::error::ProtoError;
use git_sync::packet::{encode_lines, ProtocolLine};
use git_sync::relay::{classify_sideband, parse_report, relay_collect, RelayEnd, SideBand};

fn band(tag: u8, body: &[u8]) -> ProtocolLine {
    let mut payload = vec![tag];
    payload.extend_from_slice(body);
    ProtocolLine::Data(payload)
}

#[test]
fn side_band_demux() {
    let lines = vec![
        band(1, b"hello"),
        band(2, b"working"),
        band(1, b"!"),
        ProtocolLine::Flush,
    ];
    let out = relay_collect(&lines);
    assert_eq!(out.pack, b"hello!".to_vec());
    assert_eq!(out.progress, vec![b"working".to_vec()]);
    assert!(out.notes.is_empty());
    assert_eq!(out.end, RelayEnd::Flushed);
}

#[test]
fn remote_errors_are_collected_without_aborting() {
    let lines = vec![
        band(3, b"oops"),
        band(1, b"data"),
        ProtocolLine::Flush,
    ];
    let out = relay_collect(&lines);
    assert_eq!(out.pack, b"data".to_vec());
    assert_eq!(out.notes, vec![b"oops".to_vec()]);
    assert_eq!(out.end, RelayEnd::Flushed);
}

#[test]
fn unknown_channels_and_empty_payloads_contribute_nothing() {
    let lines = vec![
        band(9, b"ignored"),
        ProtocolLine::Data(vec![]),
        band(1, b"kept"),
        ProtocolLine::Flush,
    ];
    let out = relay_collect(&lines);
    assert_eq!(out.pack, b"kept".to_vec());
    assert!(out.progress.is_empty());
    assert!(out.notes.is_empty());
    assert_eq!(out.end, RelayEnd::Flushed);
}

#[test]
fn another_sentinel_stops_the_relay_defensively() {
    let lines = vec![band(1, b"x"), ProtocolLine::Delimiter, band(1, b"y")];
    let out = relay_collect(&lines);
    assert_eq!(out.pack, b"x".to_vec());
    assert_eq!(out.end, RelayEnd::Stopped);
}

#[test]
fn missing_flush_exhausts_the_relay() {
    let lines = vec![band(1, b"x")];
    let out = relay_collect(&lines);
    assert_eq!(out.pack, b"x".to_vec());
    assert_eq!(out.end, RelayEnd::Exhausted);
}

#[test]
fn classification_reads_the_channel_tag() {
    assert!(matches!(
        classify_sideband(&vec![1, b'a']),
        Some(SideBand::Pack(_))
    ));
    assert!(matches!(
        classify_sideband(&vec![2]),
        Some(SideBand::Progress(_))
    ));
    assert!(matches!(
        classify_sideband(&vec![3, b'e']),
        Some(SideBand::Remote(_))
    ));
    assert!(matches!(
        classify_sideband(&vec![7, b'?']),
        Some(SideBand::Other(7, _))
    ));
    assert!(classify_sideband(&vec![]).is_none());
}

#[test]
fn report_buffer_is_reframed_line_by_line() {
    let framed = vec![
        ProtocolLine::Data(b"unpack ok\n".to_vec()),
        ProtocolLine::Data(b"ok refs/heads/main\n".to_vec()),
        ProtocolLine::Flush,
    ];
    let buf = encode_lines(&framed);
    let (lines, clean) = parse_report(&buf).unwrap();
    assert!(clean);
    assert_eq!(
        lines,
        vec![b"unpack ok".to_vec(), b"ok refs/heads/main".to_vec()]
    );
}

#[test]
fn truncated_report_is_an_error() {
    let framed = vec![ProtocolLine::Data(b"unpack ok\n".to_vec())];
    let mut buf = encode_lines(&framed);
    // The report ends without its flush: the next read is truncated.
    assert!(matches!(parse_report(&buf), Err(ProtoError::Truncated)));
    // A corrupted declared length inside the buffer is also surfaced.
    buf.extend_from_slice(b"0003");
    assert!(matches!(parse_report(&buf), Err(ProtoError::BadLength)));
}
