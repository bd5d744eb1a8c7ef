use git_sync::advert::RefAdvertisement;
use git_sync::caps::Capability;
use git_sync::error::ProtoError;
use git_sync::packet::ProtocolLine;

const NULL_ID: &[u8] = b"0000000000000000000000000000000000000000";

fn line(bytes: &[u8]) -> ProtocolLine {
    ProtocolLine::Data(bytes.to_vec())
}

#[test]
fn empty_repository_advertisement() {
    let mut payload = NULL_ID.to_vec();
    payload.extend_from_slice(b" capabilities^{}\x00report-status agent=x/1");
    let packets = vec![ProtocolLine::Data(payload), ProtocolLine::Flush];
    let adv = RefAdvertisement::from_packets(&packets).unwrap();
    assert_eq!(adv.refs().len(), 0);
    assert_eq!(adv.caps().get(Capability::ReportStatus), Some(&None));
    assert_eq!(
        adv.caps().get(Capability::Agent),
        Some(&Some(b"x/1".to_vec()))
    );
}

#[test]
fn refs_and_capabilities_are_collected() {
    let packets = vec![
        line(b"1111111111111111111111111111111111111111 HEAD\x00side-band-64k thin-pack symref=HEAD:refs/heads/main"),
        line(b"1111111111111111111111111111111111111111 refs/heads/main"),
        line(b"2222222222222222222222222222222222222222 refs/tags/v1"),
        ProtocolLine::Flush,
    ];
    let adv = RefAdvertisement::from_packets(&packets).unwrap();
    assert_eq!(adv.refs().len(), 3);
    assert_eq!(
        adv.refs().get(&b"HEAD".to_vec()),
        Some(&b"1111111111111111111111111111111111111111".to_vec())
    );
    assert_eq!(
        adv.refs().get(&b"refs/tags/v1".to_vec()),
        Some(&b"2222222222222222222222222222222222222222".to_vec())
    );
    assert_eq!(adv.caps().get(Capability::SideBand64K), Some(&None));
    assert_eq!(
        adv.caps().get(Capability::SymRef),
        Some(&Some(b"HEAD:refs/heads/main".to_vec()))
    );
}

#[test]
fn peeled_names_never_enter_the_ref_map() {
    let packets = vec![
        line(b"2222222222222222222222222222222222222222 refs/tags/v1"),
        line(b"3333333333333333333333333333333333333333 refs/tags/v1^{}"),
        ProtocolLine::Flush,
    ];
    let adv = RefAdvertisement::from_packets(&packets).unwrap();
    assert_eq!(adv.refs().len(), 1);
    assert!(adv.refs().get(&b"refs/tags/v1^{}".to_vec()).is_none());
    assert!(adv.refs().get(&b"refs/tags/v1".to_vec()).is_some());
}

#[test]
fn capability_order_is_irrelevant() {
    let one = vec![
        line(b"1111111111111111111111111111111111111111 refs/heads/main\x00thin-pack agent=x/1 atomic"),
        ProtocolLine::Flush,
    ];
    let two = vec![
        line(b"1111111111111111111111111111111111111111 refs/heads/main\x00atomic thin-pack agent=x/1"),
        ProtocolLine::Flush,
    ];
    let a = RefAdvertisement::from_packets(&one).unwrap();
    let b = RefAdvertisement::from_packets(&two).unwrap();
    for cap in [Capability::ThinPack, Capability::Agent, Capability::Atomic] {
        assert_eq!(a.caps().get(cap), b.caps().get(cap));
    }
    assert_eq!(a.caps().get(Capability::Agent), Some(&Some(b"x/1".to_vec())));
}

#[test]
fn capabilities_on_a_later_line_are_tolerated() {
    let packets = vec![
        line(b"1111111111111111111111111111111111111111 refs/heads/main"),
        line(b"2222222222222222222222222222222222222222 refs/heads/dev\x00quiet"),
        ProtocolLine::Flush,
    ];
    let adv = RefAdvertisement::from_packets(&packets).unwrap();
    assert_eq!(adv.caps().get(Capability::Quiet), Some(&None));
}

#[test]
fn unknown_capability_tokens_are_discarded() {
    let packets = vec![
        line(b"1111111111111111111111111111111111111111 refs/heads/main\x00frobnicate thin-pack"),
        ProtocolLine::Flush,
    ];
    let adv = RefAdvertisement::from_packets(&packets).unwrap();
    assert_eq!(adv.caps().get(Capability::ThinPack), Some(&None));
    // Only the recognized token was ingested.
    let mut count = 0;
    for cap in [Capability::ThinPack, Capability::Agent, Capability::Quiet] {
        if adv.caps().get(cap).is_some() {
            count += 1;
        }
    }
    assert_eq!(count, 1);
}

#[test]
fn duplicate_capability_last_occurrence_wins() {
    let packets = vec![
        line(b"1111111111111111111111111111111111111111 refs/heads/main\x00agent=a/1 agent=b/2"),
        ProtocolLine::Flush,
    ];
    let adv = RefAdvertisement::from_packets(&packets).unwrap();
    assert_eq!(adv.caps().get(Capability::Agent), Some(&Some(b"b/2".to_vec())));
}

#[test]
fn line_without_space_is_malformed() {
    let packets = vec![line(b"no-space-here"), ProtocolLine::Flush];
    assert!(matches!(
        RefAdvertisement::from_packets(&packets),
        Err(ProtoError::MalformedLine)
    ));
}

#[test]
fn delimiter_inside_advertisement_is_refused() {
    let packets = vec![ProtocolLine::Delimiter, ProtocolLine::Flush];
    assert!(matches!(
        RefAdvertisement::from_packets(&packets),
        Err(ProtoError::UnexpectedPacket)
    ));
    let packets = vec![ProtocolLine::ResponseEnd, ProtocolLine::Flush];
    assert!(matches!(
        RefAdvertisement::from_packets(&packets),
        Err(ProtoError::UnexpectedPacket)
    ));
}

#[test]
fn advertisement_without_flush_is_truncated() {
    let packets = vec![line(b"1111111111111111111111111111111111111111 refs/heads/main")];
    assert!(matches!(
        RefAdvertisement::from_packets(&packets),
        Err(ProtoError::Truncated)
    ));
}

#[test]
fn later_line_replaces_earlier_ref() {
    let packets = vec![
        line(b"1111111111111111111111111111111111111111 refs/heads/main"),
        line(b"2222222222222222222222222222222222222222 refs/heads/main"),
        ProtocolLine::Flush,
    ];
    let adv = RefAdvertisement::from_packets(&packets).unwrap();
    assert_eq!(adv.refs().len(), 1);
    assert_eq!(
        adv.refs().get(&b"refs/heads/main".to_vec()),
        Some(&b"2222222222222222222222222222222222222222".to_vec())
    );
}
