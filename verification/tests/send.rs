use git_sync::caps::{CapEntry, Capability};
use git_sync::packet::ProtocolLine;
use git_sync::refmap::RefMap;
use git_sync::send::{empty_pack, send_refchange, SendActivity};

const A: &[u8] = b"aaaaaaaaaaaaaaaaaaaaaaaaaaaaaaaaaaaaaaaa";
const B: &[u8] = b"bbbbbbbbbbbbbbbbbbbbbbbbbbbbbbbbbbbbbbbb";
const NULL_ID: &[u8] = b"0000000000000000000000000000000000000000";

fn map_of(entries: &[(&[u8], &[u8])]) -> RefMap {
    let mut m = RefMap::new();
    for (name, id) in entries {
        m.insert(name.to_vec(), id.to_vec());
    }
    m
}

#[test]
fn delete_only_push() {
    let existing = map_of(&[(b"refs/heads/main", A)]);
    let target = map_of(&[]);
    let caps = vec![CapEntry { cap: Capability::ReportStatus, val: None }];
    let (lines, activity) = send_refchange(&existing, &target, &caps);
    let mut payload = A.to_vec();
    payload.push(b' ');
    payload.extend_from_slice(NULL_ID);
    payload.extend_from_slice(b" refs/heads/main\x00report-status\n");
    assert_eq!(
        lines,
        vec![ProtocolLine::Data(payload), ProtocolLine::Flush]
    );
    assert!(matches!(activity, SendActivity::Deleting));
}

#[test]
fn creation_needs_a_pack() {
    let existing = map_of(&[]);
    let target = map_of(&[(b"refs/heads/x", B)]);
    let caps = vec![CapEntry { cap: Capability::Atomic, val: None }];
    let (lines, activity) = send_refchange(&existing, &target, &caps);
    let mut payload = NULL_ID.to_vec();
    payload.push(b' ');
    payload.extend_from_slice(B);
    payload.extend_from_slice(b" refs/heads/x\x00atomic\n");
    assert_eq!(
        lines,
        vec![ProtocolLine::Data(payload), ProtocolLine::Flush]
    );
    assert!(matches!(activity, SendActivity::Sending));
}

#[test]
fn identical_maps_emit_only_the_flush() {
    let existing = map_of(&[(b"refs/heads/main", A)]);
    let target = map_of(&[(b"refs/heads/main", A)]);
    let caps = vec![CapEntry { cap: Capability::ReportStatus, val: None }];
    let (lines, activity) = send_refchange(&existing, &target, &caps);
    assert_eq!(lines, vec![ProtocolLine::Flush]);
    assert!(matches!(activity, SendActivity::Nothing));
}

#[test]
fn capability_suffix_rides_only_the_first_command() {
    let existing = map_of(&[(b"refs/heads/one", A), (b"refs/heads/two", A)]);
    let target = map_of(&[]);
    let caps = vec![CapEntry { cap: Capability::ReportStatus, val: None }];
    let (lines, _) = send_refchange(&existing, &target, &caps);
    assert_eq!(lines.len(), 3);
    let mut with_nul = 0;
    for line in &lines[..2] {
        match line {
            ProtocolLine::Data(payload) => {
                if payload.contains(&0u8) {
                    with_nul += 1;
                }
            }
            other => panic!("expected a command, got {:?}", other),
        }
    }
    assert_eq!(with_nul, 1);
    match &lines[0] {
        ProtocolLine::Data(payload) => assert!(payload.contains(&0u8)),
        other => panic!("expected a command, got {:?}", other),
    }
    assert_eq!(lines[2], ProtocolLine::Flush);
}

#[test]
fn empty_capability_list_attaches_nothing() {
    let existing = map_of(&[(b"refs/heads/main", A)]);
    let target = map_of(&[]);
    let (lines, _) = send_refchange(&existing, &target, &vec![]);
    let mut payload = A.to_vec();
    payload.push(b' ');
    payload.extend_from_slice(NULL_ID);
    payload.extend_from_slice(b" refs/heads/main\n");
    assert_eq!(
        lines,
        vec![ProtocolLine::Data(payload), ProtocolLine::Flush]
    );
}

#[test]
fn names_outside_refs_and_peeled_names_are_skipped() {
    let existing = map_of(&[(b"HEAD", A), (b"refs/tags/v1^{}", A)]);
    let target = map_of(&[(b"HEAD", B), (b"refs/tags/v1^{}", B)]);
    let caps = vec![CapEntry { cap: Capability::ReportStatus, val: None }];
    let (lines, activity) = send_refchange(&existing, &target, &caps);
    assert_eq!(lines, vec![ProtocolLine::Flush]);
    assert!(matches!(activity, SendActivity::Nothing));
}

#[test]
fn update_changes_an_existing_ref() {
    let existing = map_of(&[(b"refs/heads/main", A)]);
    let target = map_of(&[(b"refs/heads/main", B)]);
    let (lines, activity) = send_refchange(&existing, &target, &vec![]);
    let mut payload = A.to_vec();
    payload.push(b' ');
    payload.extend_from_slice(B);
    payload.extend_from_slice(b" refs/heads/main\n");
    assert_eq!(
        lines,
        vec![ProtocolLine::Data(payload), ProtocolLine::Flush]
    );
    assert!(matches!(activity, SendActivity::Sending));
}

#[test]
fn the_empty_pack_literal() {
    let expected: Vec<u8> = vec![
        b'P', b'A', b'C', b'K', 0, 0, 0, 2, 0, 0, 0, 0, 0x02, 0x9d, 0x08, 0x82, 0x3b, 0xd8,
        0xa8, 0xea, 0xb5, 0x10, 0xad, 0x6a, 0xc7, 0x5c, 0x82, 0x3c, 0xfd, 0x3e, 0xd3, 0x1e,
    ];
    assert_eq!(empty_pack(), expected);
}
