use git_sync::caps::{CapMap, Capability};

const ALL: [Capability; 26] = [
    Capability::MultiAck,
    Capability::MultiAckDetailed,
    Capability::NoDone,
    Capability::ThinPack,
    Capability::SideBand,
    Capability::SideBand64K,
    Capability::OfsDelta,
    Capability::Agent,
    Capability::ObjectFormat,
    Capability::SymRef,
    Capability::Shallow,
    Capability::DeepenSince,
    Capability::DeepenNot,
    Capability::DeepenRelative,
    Capability::NoProgress,
    Capability::IncludeTag,
    Capability::ReportStatus,
    Capability::ReportStatusV2,
    Capability::DeleteRefs,
    Capability::Quiet,
    Capability::Atomic,
    Capability::PushOptions,
    Capability::AllowTipSha1InWant,
    Capability::AllowReachableSha1InWant,
    Capability::PushCert,
    Capability::Filter,
];

#[test]
fn tokens_are_canonical() {
    assert_eq!(Capability::MultiAck.as_str(), "multi_ack");
    assert_eq!(Capability::MultiAckDetailed.as_str(), "multi_ack_detailed");
    assert_eq!(Capability::SideBand64K.as_str(), "side-band-64k");
    assert_eq!(Capability::ThinPack.as_str(), "thin-pack");
    assert_eq!(Capability::Agent.as_str(), "agent");
    assert_eq!(Capability::ReportStatus.as_str(), "report-status");
    assert_eq!(
        Capability::AllowReachableSha1InWant.as_str(),
        "allow-reachable-sha1-in-want"
    );
}

#[test]
fn token_bytes_match_as_str() {
    for cap in ALL {
        assert_eq!(cap.token_bytes(), cap.as_str().as_bytes().to_vec());
    }
}

#[test]
fn every_token_round_trips() {
    for cap in ALL {
        let token = cap.token_bytes();
        assert_eq!(Capability::from_token(&token), Some(cap));
    }
}

#[test]
fn unknown_tokens_are_refused() {
    assert_eq!(Capability::from_token(&b"no-such-cap".to_vec()), None);
    assert_eq!(Capability::from_token(&b"".to_vec()), None);
    assert_eq!(Capability::from_token(&b"thin-packs".to_vec()), None);
    assert_eq!(Capability::from_token(&b"THIN-PACK".to_vec()), None);
}

#[test]
fn cap_map_inserts_and_looks_up() {
    let mut m = CapMap::new();
    assert_eq!(m.len(), 0);
    assert!(m.get(Capability::Agent).is_none());
    m.insert(Capability::Agent, Some(b"x/1".to_vec()));
    m.insert(Capability::ThinPack, None);
    assert_eq!(m.len(), 2);
    assert_eq!(m.get(Capability::Agent), Some(&Some(b"x/1".to_vec())));
    assert_eq!(m.get(Capability::ThinPack), Some(&None));
    assert!(m.get(Capability::Quiet).is_none());
}

#[test]
fn cap_map_last_occurrence_wins() {
    let mut m = CapMap::new();
    m.insert(Capability::Agent, Some(b"old".to_vec()));
    m.insert(Capability::Agent, Some(b"new".to_vec()));
    assert_eq!(m.len(), 1);
    assert_eq!(m.get(Capability::Agent), Some(&Some(b"new".to_vec())));
}
