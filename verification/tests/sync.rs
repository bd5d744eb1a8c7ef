use git_sync::caps::Capability;
use git_sync::refmap::RefMap;
use git_sync::send::SendActivity;
use git_sync::sync::{compute_haves, compute_wants, fetch_caps, needs_empty_pack, push_caps};

const A: &[u8] = b"aaaaaaaaaaaaaaaaaaaaaaaaaaaaaaaaaaaaaaaa";
const B: &[u8] = b"bbbbbbbbbbbbbbbbbbbbbbbbbbbbbbbbbbbbbbbb";
const C: &[u8] = b"cccccccccccccccccccccccccccccccccccccccc";

fn map_of(entries: &[(&[u8], &[u8])]) -> RefMap {
    let mut m = RefMap::new();
    for (name, id) in entries {
        m.insert(name.to_vec(), id.to_vec());
    }
    m
}

fn sorted(mut v: Vec<Vec<u8>>) -> Vec<Vec<u8>> {
    v.sort();
    v
}

#[test]
fn wants_are_source_values_the_destination_lacks() {
    let source = map_of(&[(b"refs/heads/main", A), (b"refs/heads/dev", B)]);
    let dest = map_of(&[(b"refs/heads/main", B)]);
    let wants = compute_wants(&source, &dest);
    assert_eq!(sorted(wants), vec![A.to_vec()]);
}

#[test]
fn shared_identifiers_are_not_fetched() {
    // Two source refs share an identifier the destination holds:
    // neither is fetched.
    let source = map_of(&[(b"refs/heads/one", A), (b"refs/heads/two", A)]);
    let dest = map_of(&[(b"refs/heads/other", A)]);
    assert!(compute_wants(&source, &dest).is_empty());
}

#[test]
fn wants_are_deduplicated() {
    let source = map_of(&[(b"refs/heads/one", A), (b"refs/heads/two", A)]);
    let dest = map_of(&[]);
    assert_eq!(compute_wants(&source, &dest), vec![A.to_vec()]);
}

#[test]
fn peeled_source_names_contribute_no_want() {
    let source = map_of(&[(b"refs/tags/v1^{}", C)]);
    let dest = map_of(&[]);
    assert!(compute_wants(&source, &dest).is_empty());
}

#[test]
fn haves_are_every_destination_value_once() {
    let dest = map_of(&[
        (b"refs/heads/main", A),
        (b"refs/heads/dev", B),
        (b"refs/heads/copy", A),
    ]);
    let haves = compute_haves(&dest);
    assert_eq!(sorted(haves), vec![A.to_vec(), B.to_vec()]);
}

#[test]
fn fixed_fetch_capability_list() {
    let caps = fetch_caps();
    assert_eq!(caps.len(), 4);
    assert_eq!(caps[0].cap, Capability::SideBand64K);
    assert_eq!(caps[1].cap, Capability::OfsDelta);
    assert_eq!(caps[2].cap, Capability::ThinPack);
    assert_eq!(caps[3].cap, Capability::Agent);
    assert_eq!(caps[3].val, Some(b"git_sync/0.1".to_vec()));
}

#[test]
fn fixed_push_capability_list() {
    let caps = push_caps();
    assert_eq!(caps.len(), 4);
    assert_eq!(caps[0].cap, Capability::ReportStatus);
    assert_eq!(caps[1].cap, Capability::Atomic);
    assert_eq!(caps[2].cap, Capability::SideBand64K);
    assert_eq!(caps[3].cap, Capability::Agent);
    assert_eq!(caps[3].val, Some(b"git_sync/0.1".to_vec()));
}

#[test]
fn empty_pack_is_owed_only_when_sending_without_a_fetch() {
    assert!(needs_empty_pack(false, SendActivity::Sending));
    assert!(!needs_empty_pack(true, SendActivity::Sending));
    assert!(!needs_empty_pack(false, SendActivity::Deleting));
    assert!(!needs_empty_pack(false, SendActivity::Nothing));
}
