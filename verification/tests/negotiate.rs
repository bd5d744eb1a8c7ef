use git_sync::caps::{CapEntry, Capability};
use git_sync::error::ProtoError;
use git_sync::fetch::{check_nak, request_pack};
use git_sync::packet::{encode_lines, ProtocolLine};

const A: &[u8] = b"aaaaaaaaaaaaaaaaaaaaaaaaaaaaaaaaaaaaaaaa";
const B: &[u8] = b"bbbbbbbbbbbbbbbbbbbbbbbbbbbbbbbbbbbbbbbb";

#[test]
fn zero_wants_writes_a_lone_flush_and_expects_no_pack() {
    let (lines, expect) = request_pack(&vec![], &vec![B.to_vec()], &vec![]).unwrap();
    assert!(!expect);
    assert_eq!(lines, vec![ProtocolLine::Flush]);
    assert_eq!(encode_lines(&lines), b"0000".to_vec());
}

#[test]
fn happy_path_emits_wants_flush_haves_done() {
    let caps = vec![
        CapEntry { cap: Capability::ThinPack, val: None },
        CapEntry { cap: Capability::Agent, val: Some(b"x/1".to_vec()) },
    ];
    let (lines, expect) =
        request_pack(&vec![A.to_vec()], &vec![B.to_vec()], &caps).unwrap();
    assert!(expect);
    let mut want = b"want ".to_vec();
    want.extend_from_slice(A);
    want.extend_from_slice(b" thin-pack agent=x/1");
    let mut have = b"have ".to_vec();
    have.extend_from_slice(B);
    assert_eq!(
        lines,
        vec![
            ProtocolLine::Data(want),
            ProtocolLine::Flush,
            ProtocolLine::Data(have),
            ProtocolLine::Data(b"done".to_vec()),
        ]
    );
    assert!(check_nak(&ProtocolLine::Data(b"NAK".to_vec())).is_ok());
}

#[test]
fn capabilities_ride_only_the_first_want() {
    let caps = vec![CapEntry { cap: Capability::ThinPack, val: None }];
    let (lines, _) =
        request_pack(&vec![A.to_vec(), B.to_vec()], &vec![], &caps).unwrap();
    let mut first = b"want ".to_vec();
    first.extend_from_slice(A);
    first.extend_from_slice(b" thin-pack");
    let mut second = b"want ".to_vec();
    second.extend_from_slice(B);
    assert_eq!(lines[0], ProtocolLine::Data(first));
    assert_eq!(lines[1], ProtocolLine::Data(second));
    assert_eq!(lines[2], ProtocolLine::Flush);
    assert_eq!(lines[3], ProtocolLine::Data(b"done".to_vec()));
}

#[test]
fn multi_ack_capabilities_are_refused() {
    for cap in [Capability::MultiAck, Capability::MultiAckDetailed] {
        let caps = vec![
            CapEntry { cap: Capability::ThinPack, val: None },
            CapEntry { cap, val: None },
        ];
        assert!(matches!(
            request_pack(&vec![A.to_vec()], &vec![], &caps),
            Err(ProtoError::ForbiddenCapability)
        ));
    }
}

#[test]
fn non_nak_reply_is_a_protocol_error() {
    assert!(matches!(
        check_nak(&ProtocolLine::Data(b"ACK".to_vec())),
        Err(ProtoError::MissingNak)
    ));
    assert!(matches!(
        check_nak(&ProtocolLine::Flush),
        Err(ProtoError::MissingNak)
    ));
    assert!(matches!(
        check_nak(&ProtocolLine::Data(b"NAKX".to_vec())),
        Err(ProtoError::MissingNak)
    ));
}

#[test]
fn err_reply_surfaces_the_server_message() {
    match check_nak(&ProtocolLine::Data(b"ERR access denied".to_vec())) {
        Err(ProtoError::RemoteFatal(msg)) => assert_eq!(msg, b"access denied".to_vec()),
        other => panic!("expected a remote fatal, got {:?}", other),
    }
}
