//! The capability registry: the closed set of wire capability tokens,
//! with the total symbol-to-token mapping and the partial
//! token-to-symbol mapping.  Unknown tokens never become symbols.

use vstd::prelude::*;

use crate::bytes::bytes_eq;

verus! {

/// A wire capability symbol.  The set is frozen; a token outside it
/// stays a plain string on the wire and is never ingested.
#[derive(Debug, Clone, Copy, PartialEq, Eq, Hash, Structural)]
pub enum Capability {
    MultiAck,
    MultiAckDetailed,
    NoDone,
    ThinPack,
    SideBand,
    SideBand64K,
    OfsDelta,
    Agent,
    ObjectFormat,
    SymRef,
    Shallow,
    DeepenSince,
    DeepenNot,
    DeepenRelative,
    NoProgress,
    IncludeTag,
    ReportStatus,
    ReportStatusV2,
    DeleteRefs,
    Quiet,
    Atomic,
    PushOptions,
    AllowTipSha1InWant,
    AllowReachableSha1InWant,
    PushCert,
    Filter,
}

/// The canonical ASCII token of a capability, as characters.
pub open spec fn token_chars(c: Capability) -> Seq<char> {
    match c {
        Capability::MultiAck => "multi_ack"@,
        Capability::MultiAckDetailed => "multi_ack_detailed"@,
        Capability::NoDone => "no-done"@,
        Capability::ThinPack => "thin-pack"@,
        Capability::SideBand => "side-band"@,
        Capability::SideBand64K => "side-band-64k"@,
        Capability::OfsDelta => "ofs-delta"@,
        Capability::Agent => "agent"@,
        Capability::ObjectFormat => "object-format"@,
        Capability::SymRef => "symref"@,
        Capability::Shallow => "shallow"@,
        Capability::DeepenSince => "deepen-since"@,
        Capability::DeepenNot => "deepen-not"@,
        Capability::DeepenRelative => "deepen-relative"@,
        Capability::NoProgress => "no-progress"@,
        Capability::IncludeTag => "include-tag"@,
        Capability::ReportStatus => "report-status"@,
        Capability::ReportStatusV2 => "report-status-v2"@,
        Capability::DeleteRefs => "delete-refs"@,
        Capability::Quiet => "quiet"@,
        Capability::Atomic => "atomic"@,
        Capability::PushOptions => "push-options"@,
        Capability::AllowTipSha1InWant => "allow-tip-sha1-in-want"@,
        Capability::AllowReachableSha1InWant => "allow-reachable-sha1-in-want"@,
        Capability::PushCert => "push-cert"@,
        Capability::Filter => "filter"@,
    }
}

/// The canonical ASCII token of a capability, as wire bytes.
pub open spec fn token_spec(c: Capability) -> Seq<u8> {
    match c {
        Capability::MultiAck => seq![109u8, 117, 108, 116, 105, 95, 97, 99, 107],
        Capability::MultiAckDetailed => seq![109u8, 117, 108, 116, 105, 95, 97, 99, 107, 95, 100, 101, 116, 97, 105, 108, 101, 100],
        Capability::NoDone => seq![110u8, 111, 45, 100, 111, 110, 101],
        Capability::ThinPack => seq![116u8, 104, 105, 110, 45, 112, 97, 99, 107],
        Capability::SideBand => seq![115u8, 105, 100, 101, 45, 98, 97, 110, 100],
        Capability::SideBand64K => seq![115u8, 105, 100, 101, 45, 98, 97, 110, 100, 45, 54, 52, 107],
        Capability::OfsDelta => seq![111u8, 102, 115, 45, 100, 101, 108, 116, 97],
        Capability::Agent => seq![97u8, 103, 101, 110, 116],
        Capability::ObjectFormat => seq![111u8, 98, 106, 101, 99, 116, 45, 102, 111, 114, 109, 97, 116],
        Capability::SymRef => seq![115u8, 121, 109, 114, 101, 102],
        Capability::Shallow => seq![115u8, 104, 97, 108, 108, 111, 119],
        Capability::DeepenSince => seq![100u8, 101, 101, 112, 101, 110, 45, 115, 105, 110, 99, 101],
        Capability::DeepenNot => seq![100u8, 101, 101, 112, 101, 110, 45, 110, 111, 116],
        Capability::DeepenRelative => seq![100u8, 101, 101, 112, 101, 110, 45, 114, 101, 108, 97, 116, 105, 118, 101],
        Capability::NoProgress => seq![110u8, 111, 45, 112, 114, 111, 103, 114, 101, 115, 115],
        Capability::IncludeTag => seq![105u8, 110, 99, 108, 117, 100, 101, 45, 116, 97, 103],
        Capability::ReportStatus => seq![114u8, 101, 112, 111, 114, 116, 45, 115, 116, 97, 116, 117, 115],
        Capability::ReportStatusV2 => seq![114u8, 101, 112, 111, 114, 116, 45, 115, 116, 97, 116, 117, 115, 45, 118, 50],
        Capability::DeleteRefs => seq![100u8, 101, 108, 101, 116, 101, 45, 114, 101, 102, 115],
        Capability::Quiet => seq![113u8, 117, 105, 101, 116],
        Capability::Atomic => seq![97u8, 116, 111, 109, 105, 99],
        Capability::PushOptions => seq![112u8, 117, 115, 104, 45, 111, 112, 116, 105, 111, 110, 115],
        Capability::AllowTipSha1InWant => seq![97u8, 108, 108, 111, 119, 45, 116, 105, 112, 45, 115, 104, 97, 49, 45, 105, 110, 45, 119, 97, 110, 116],
        Capability::AllowReachableSha1InWant => seq![97u8, 108, 108, 111, 119, 45, 114, 101, 97, 99, 104, 97, 98, 108, 101, 45, 115, 104, 97, 49, 45, 105, 110, 45, 119, 97, 110, 116],
        Capability::PushCert => seq![112u8, 117, 115, 104, 45, 99, 101, 114, 116],
        Capability::Filter => seq![102u8, 105, 108, 116, 101, 114],
    }
}

/// The symbol a token denotes, if the registry knows it.
pub open spec fn from_token_spec(t: Seq<u8>) -> Option<Capability> {
    if t == token_spec(Capability::MultiAck) {
        Some(Capability::MultiAck)
    } else if t == token_spec(Capability::MultiAckDetailed) {
        Some(Capability::MultiAckDetailed)
    } else if t == token_spec(Capability::NoDone) {
        Some(Capability::NoDone)
    } else if t == token_spec(Capability::ThinPack) {
        Some(Capability::ThinPack)
    } else if t == token_spec(Capability::SideBand) {
        Some(Capability::SideBand)
    } else if t == token_spec(Capability::SideBand64K) {
        Some(Capability::SideBand64K)
    } else if t == token_spec(Capability::OfsDelta) {
        Some(Capability::OfsDelta)
    } else if t == token_spec(Capability::Agent) {
        Some(Capability::Agent)
    } else if t == token_spec(Capability::ObjectFormat) {
        Some(Capability::ObjectFormat)
    } else if t == token_spec(Capability::SymRef) {
        Some(Capability::SymRef)
    } else if t == token_spec(Capability::Shallow) {
        Some(Capability::Shallow)
    } else if t == token_spec(Capability::DeepenSince) {
        Some(Capability::DeepenSince)
    } else if t == token_spec(Capability::DeepenNot) {
        Some(Capability::DeepenNot)
    } else if t == token_spec(Capability::DeepenRelative) {
        Some(Capability::DeepenRelative)
    } else if t == token_spec(Capability::NoProgress) {
        Some(Capability::NoProgress)
    } else if t == token_spec(Capability::IncludeTag) {
        Some(Capability::IncludeTag)
    } else if t == token_spec(Capability::ReportStatus) {
        Some(Capability::ReportStatus)
    } else if t == token_spec(Capability::ReportStatusV2) {
        Some(Capability::ReportStatusV2)
    } else if t == token_spec(Capability::DeleteRefs) {
        Some(Capability::DeleteRefs)
    } else if t == token_spec(Capability::Quiet) {
        Some(Capability::Quiet)
    } else if t == token_spec(Capability::Atomic) {
        Some(Capability::Atomic)
    } else if t == token_spec(Capability::PushOptions) {
        Some(Capability::PushOptions)
    } else if t == token_spec(Capability::AllowTipSha1InWant) {
        Some(Capability::AllowTipSha1InWant)
    } else if t == token_spec(Capability::AllowReachableSha1InWant) {
        Some(Capability::AllowReachableSha1InWant)
    } else if t == token_spec(Capability::PushCert) {
        Some(Capability::PushCert)
    } else if t == token_spec(Capability::Filter) {
        Some(Capability::Filter)
    } else {
        None
    }
}

impl Capability {
    /// The canonical ASCII token of this capability.
    pub fn as_str(self) -> (r: &'static str)
        ensures
            r@ == token_chars(self),
    {
        match self {
            Capability::MultiAck => "multi_ack",
            Capability::MultiAckDetailed => "multi_ack_detailed",
            Capability::NoDone => "no-done",
            Capability::ThinPack => "thin-pack",
            Capability::SideBand => "side-band",
            Capability::SideBand64K => "side-band-64k",
            Capability::OfsDelta => "ofs-delta",
            Capability::Agent => "agent",
            Capability::ObjectFormat => "object-format",
            Capability::SymRef => "symref",
            Capability::Shallow => "shallow",
            Capability::DeepenSince => "deepen-since",
            Capability::DeepenNot => "deepen-not",
            Capability::DeepenRelative => "deepen-relative",
            Capability::NoProgress => "no-progress",
            Capability::IncludeTag => "include-tag",
            Capability::ReportStatus => "report-status",
            Capability::ReportStatusV2 => "report-status-v2",
            Capability::DeleteRefs => "delete-refs",
            Capability::Quiet => "quiet",
            Capability::Atomic => "atomic",
            Capability::PushOptions => "push-options",
            Capability::AllowTipSha1InWant => "allow-tip-sha1-in-want",
            Capability::AllowReachableSha1InWant => "allow-reachable-sha1-in-want",
            Capability::PushCert => "push-cert",
            Capability::Filter => "filter",
        }
    }

    /// The canonical ASCII token of this capability, as owned bytes.
    pub fn token_bytes(self) -> (r: Vec<u8>)
        ensures
            r@ == token_spec(self),
    {
        match self {
            Capability::MultiAck => vec![109u8, 117, 108, 116, 105, 95, 97, 99, 107],
            Capability::MultiAckDetailed => vec![109u8, 117, 108, 116, 105, 95, 97, 99, 107, 95, 100, 101, 116, 97, 105, 108, 101, 100],
            Capability::NoDone => vec![110u8, 111, 45, 100, 111, 110, 101],
            Capability::ThinPack => vec![116u8, 104, 105, 110, 45, 112, 97, 99, 107],
            Capability::SideBand => vec![115u8, 105, 100, 101, 45, 98, 97, 110, 100],
            Capability::SideBand64K => vec![115u8, 105, 100, 101, 45, 98, 97, 110, 100, 45, 54, 52, 107],
            Capability::OfsDelta => vec![111u8, 102, 115, 45, 100, 101, 108, 116, 97],
            Capability::Agent => vec![97u8, 103, 101, 110, 116],
            Capability::ObjectFormat => vec![111u8, 98, 106, 101, 99, 116, 45, 102, 111, 114, 109, 97, 116],
            Capability::SymRef => vec![115u8, 121, 109, 114, 101, 102],
            Capability::Shallow => vec![115u8, 104, 97, 108, 108, 111, 119],
            Capability::DeepenSince => vec![100u8, 101, 101, 112, 101, 110, 45, 115, 105, 110, 99, 101],
            Capability::DeepenNot => vec![100u8, 101, 101, 112, 101, 110, 45, 110, 111, 116],
            Capability::DeepenRelative => vec![100u8, 101, 101, 112, 101, 110, 45, 114, 101, 108, 97, 116, 105, 118, 101],
            Capability::NoProgress => vec![110u8, 111, 45, 112, 114, 111, 103, 114, 101, 115, 115],
            Capability::IncludeTag => vec![105u8, 110, 99, 108, 117, 100, 101, 45, 116, 97, 103],
            Capability::ReportStatus => vec![114u8, 101, 112, 111, 114, 116, 45, 115, 116, 97, 116, 117, 115],
            Capability::ReportStatusV2 => vec![114u8, 101, 112, 111, 114, 116, 45, 115, 116, 97, 116, 117, 115, 45, 118, 50],
            Capability::DeleteRefs => vec![100u8, 101, 108, 101, 116, 101, 45, 114, 101, 102, 115],
            Capability::Quiet => vec![113u8, 117, 105, 101, 116],
            Capability::Atomic => vec![97u8, 116, 111, 109, 105, 99],
            Capability::PushOptions => vec![112u8, 117, 115, 104, 45, 111, 112, 116, 105, 111, 110, 115],
            Capability::AllowTipSha1InWant => vec![97u8, 108, 108, 111, 119, 45, 116, 105, 112, 45, 115, 104, 97, 49, 45, 105, 110, 45, 119, 97, 110, 116],
            Capability::AllowReachableSha1InWant => vec![97u8, 108, 108, 111, 119, 45, 114, 101, 97, 99, 104, 97, 98, 108, 101, 45, 115, 104, 97, 49, 45, 105, 110, 45, 119, 97, 110, 116],
            Capability::PushCert => vec![112u8, 117, 115, 104, 45, 99, 101, 114, 116],
            Capability::Filter => vec![102u8, 105, 108, 116, 101, 114],
        }
    }

    /// The symbol for a token, or `None` when the registry does not
    /// recognize it.
    pub fn from_token(t: &Vec<u8>) -> (r: Option<Capability>)
        ensures
            r == from_token_spec(t@),
    {
        if bytes_eq(t, &Capability::MultiAck.token_bytes()) {
            Some(Capability::MultiAck)
        } else if bytes_eq(t, &Capability::MultiAckDetailed.token_bytes()) {
            Some(Capability::MultiAckDetailed)
        } else if bytes_eq(t, &Capability::NoDone.token_bytes()) {
            Some(Capability::NoDone)
        } else if bytes_eq(t, &Capability::ThinPack.token_bytes()) {
            Some(Capability::ThinPack)
        } else if bytes_eq(t, &Capability::SideBand.token_bytes()) {
            Some(Capability::SideBand)
        } else if bytes_eq(t, &Capability::SideBand64K.token_bytes()) {
            Some(Capability::SideBand64K)
        } else if bytes_eq(t, &Capability::OfsDelta.token_bytes()) {
            Some(Capability::OfsDelta)
        } else if bytes_eq(t, &Capability::Agent.token_bytes()) {
            Some(Capability::Agent)
        } else if bytes_eq(t, &Capability::ObjectFormat.token_bytes()) {
            Some(Capability::ObjectFormat)
        } else if bytes_eq(t, &Capability::SymRef.token_bytes()) {
            Some(Capability::SymRef)
        } else if bytes_eq(t, &Capability::Shallow.token_bytes()) {
            Some(Capability::Shallow)
        } else if bytes_eq(t, &Capability::DeepenSince.token_bytes()) {
            Some(Capability::DeepenSince)
        } else if bytes_eq(t, &Capability::DeepenNot.token_bytes()) {
            Some(Capability::DeepenNot)
        } else if bytes_eq(t, &Capability::DeepenRelative.token_bytes()) {
            Some(Capability::DeepenRelative)
        } else if bytes_eq(t, &Capability::NoProgress.token_bytes()) {
            Some(Capability::NoProgress)
        } else if bytes_eq(t, &Capability::IncludeTag.token_bytes()) {
            Some(Capability::IncludeTag)
        } else if bytes_eq(t, &Capability::ReportStatus.token_bytes()) {
            Some(Capability::ReportStatus)
        } else if bytes_eq(t, &Capability::ReportStatusV2.token_bytes()) {
            Some(Capability::ReportStatusV2)
        } else if bytes_eq(t, &Capability::DeleteRefs.token_bytes()) {
            Some(Capability::DeleteRefs)
        } else if bytes_eq(t, &Capability::Quiet.token_bytes()) {
            Some(Capability::Quiet)
        } else if bytes_eq(t, &Capability::Atomic.token_bytes()) {
            Some(Capability::Atomic)
        } else if bytes_eq(t, &Capability::PushOptions.token_bytes()) {
            Some(Capability::PushOptions)
        } else if bytes_eq(t, &Capability::AllowTipSha1InWant.token_bytes()) {
            Some(Capability::AllowTipSha1InWant)
        } else if bytes_eq(t, &Capability::AllowReachableSha1InWant.token_bytes()) {
            Some(Capability::AllowReachableSha1InWant)
        } else if bytes_eq(t, &Capability::PushCert.token_bytes()) {
            Some(Capability::PushCert)
        } else if bytes_eq(t, &Capability::Filter.token_bytes()) {
            Some(Capability::Filter)
        } else {
            None
        }
    }
}


/// One capability with its optional attached value, as parsed from or
/// written to the wire.
#[derive(Debug, Clone)]
pub struct CapEntry {
    pub cap: Capability,
    pub val: Option<Vec<u8>>,
}

/// The byte sequence carried by an optional value.
pub open spec fn opt_bytes_view(v: Option<Vec<u8>>) -> Option<Seq<u8>> {
    match v {
        None => None,
        Some(b) => Some(b@),
    }
}

/// No two entries name the same capability.
pub open spec fn cap_entries_wf(s: Seq<CapEntry>) -> bool {
    forall|i: int, j: int| 0 <= i < j < s.len() ==> s[i].cap != s[j].cap
}

/// Some entry names capability `c`.
pub open spec fn cap_entries_has(s: Seq<CapEntry>, c: Capability) -> bool {
    exists|i: int| 0 <= i < s.len() && s[i].cap == c
}

/// The mathematical map an entry list denotes: each named capability
/// maps to the value of the entry that names it.
pub open spec fn cap_entries_map(s: Seq<CapEntry>) -> Map<Capability, Option<Seq<u8>>> {
    Map::new(
        |c: Capability| cap_entries_has(s, c),
        |c: Capability|
            opt_bytes_view(s[choose|i: int| 0 <= i < s.len() && s[i].cap == c].val),
    )
}

/// With distinct entries, the entry index a capability denotes is the
/// one any witness gives.
proof fn lemma_cap_witness_unique(s: Seq<CapEntry>, c: Capability, i: int)
    requires
        cap_entries_wf(s),
        0 <= i < s.len(),
        s[i].cap == c,
    ensures
        cap_entries_has(s, c),
        (choose|j: int| 0 <= j < s.len() && s[j].cap == c) == i,
{
    assert(cap_entries_has(s, c)) by {
        assert(0 <= i < s.len() && s[i].cap == c);
    }
    let j = choose|j: int| 0 <= j < s.len() && s[j].cap == c;
    if i < j {
        assert(s[i].cap != s[j].cap);
    } else if j < i {
        assert(s[j].cap != s[i].cap);
    }
}

/// Replacing the entry that already names `e.cap` makes the map
/// insert of `e`.
proof fn lemma_cap_entries_update(s: Seq<CapEntry>, i: int, e: CapEntry)
    requires
        cap_entries_wf(s),
        0 <= i < s.len(),
        s[i].cap == e.cap,
    ensures
        cap_entries_wf(s.update(i, e)),
        cap_entries_map(s.update(i, e)) == cap_entries_map(s).insert(e.cap, opt_bytes_view(e.val)),
{
    let t = s.update(i, e);
    assert forall|a: int, b: int| 0 <= a < b < t.len() implies t[a].cap != t[b].cap by {
        assert(s[a].cap != s[b].cap);
    }
    assert forall|c: Capability| cap_entries_has(t, c) implies cap_entries_has(s, c) by {
        let k = choose|k: int| 0 <= k < t.len() && t[k].cap == c;
        if k == i {
            assert(s[i].cap == c);
        } else {
            assert(s[k].cap == c);
        }
    }
    assert forall|c: Capability| cap_entries_has(s, c) implies cap_entries_has(t, c) by {
        let k = choose|k: int| 0 <= k < s.len() && s[k].cap == c;
        if k == i {
            assert(t[i].cap == c);
        } else {
            assert(t[k].cap == c);
        }
    }
    assert forall|c: Capability| cap_entries_has(t, c) implies cap_entries_map(t)[c]
        == cap_entries_map(s).insert(e.cap, opt_bytes_view(e.val))[c] by {
        if c == e.cap {
            lemma_cap_witness_unique(t, c, i);
        } else {
            let k = choose|k: int| 0 <= k < s.len() && s[k].cap == c;
            assert(k != i);
            lemma_cap_witness_unique(t, c, k);
        }
    }
    assert(cap_entries_map(t) =~= cap_entries_map(s).insert(e.cap, opt_bytes_view(e.val)));
}

/// Appending an entry for a capability not yet named makes the map
/// insert of that entry.
proof fn lemma_cap_entries_push(s: Seq<CapEntry>, e: CapEntry)
    requires
        cap_entries_wf(s),
        !cap_entries_has(s, e.cap),
    ensures
        cap_entries_wf(s.push(e)),
        cap_entries_map(s.push(e)) == cap_entries_map(s).insert(e.cap, opt_bytes_view(e.val)),
{
    let t = s.push(e);
    assert forall|a: int, b: int| 0 <= a < b < t.len() implies t[a].cap != t[b].cap by {
        if b == s.len() as int {
            if t[a].cap == e.cap {
                assert(s[a].cap == e.cap);
                assert(cap_entries_has(s, e.cap)) by {
                    assert(0 <= a < s.len() && s[a].cap == e.cap);
                }
            }
        } else {
            assert(s[a].cap != s[b].cap);
        }
    }
    assert forall|c: Capability| cap_entries_has(t, c) implies cap_entries_map(t)[c]
        == cap_entries_map(s).insert(e.cap, opt_bytes_view(e.val))[c] by {
        if c == e.cap {
            lemma_cap_witness_unique(t, c, s.len() as int);
        } else {
            let k = choose|k: int| 0 <= k < t.len() && t[k].cap == c;
            assert(k < s.len());
            assert(s[k].cap == c);
            lemma_cap_witness_unique(t, c, k);
        }
    }
    assert forall|c: Capability| cap_entries_has(s, c) implies cap_entries_has(t, c) by {
        let k = choose|k: int| 0 <= k < s.len() && s[k].cap == c;
        assert(t[k].cap == c);
    }
    assert forall|c: Capability| cap_entries_has(t, c) && c != e.cap implies cap_entries_has(
        s,
        c,
    ) by {
        let k = choose|k: int| 0 <= k < t.len() && t[k].cap == c;
        assert(k < s.len());
        assert(s[k].cap == c);
    }
    assert(cap_entries_has(t, e.cap)) by {
        assert(t[s.len() as int].cap == e.cap);
    }
    assert(cap_entries_map(t) =~= cap_entries_map(s).insert(e.cap, opt_bytes_view(e.val)));
}

/// The capability map of one peer: read-only after parsing, with the
/// last occurrence of a token winning on duplicates.
#[derive(Debug, Clone)]
pub struct CapMap {
    pub entries: Vec<CapEntry>,
}

impl View for CapMap {
    type V = Map<Capability, Option<Seq<u8>>>;

    open spec fn view(&self) -> Map<Capability, Option<Seq<u8>>> {
        cap_entries_map(self.entries@)
    }
}

impl CapMap {
    /// No two entries name the same capability.
    pub open spec fn wf(self) -> bool {
        cap_entries_wf(self.entries@)
    }

    /// An empty capability map.
    pub fn new() -> (r: CapMap)
        ensures
            r.wf(),
            r@ == Map::<Capability, Option<Seq<u8>>>::empty(),
    {
        let r = CapMap { entries: Vec::new() };
        proof {
            assert(r@ =~= Map::<Capability, Option<Seq<u8>>>::empty());
        }
        r
    }

    /// The number of capabilities held.
    pub fn len(&self) -> (r: usize)
        ensures
            r == self.entries@.len(),
            (r == 0) == (self@ =~= Map::<Capability, Option<Seq<u8>>>::empty()),
    {
        proof {
            if self.entries@.len() == 0 {
                assert(self@ =~= Map::<Capability, Option<Seq<u8>>>::empty());
            } else {
                assert(cap_entries_has(self.entries@, self.entries@[0].cap)) by {
                    assert(self.entries@[0].cap == self.entries@[0].cap);
                }
                assert(self@.dom().contains(self.entries@[0].cap));
            }
        }
        self.entries.len()
    }

    fn find(&self, c: Capability) -> (r: Option<usize>)
        ensures
            match r {
                Some(i) => i < self.entries@.len() && self.entries@[i as int].cap == c,
                None => !cap_entries_has(self.entries@, c),
            },
    {
        let mut i: usize = 0;
        while i < self.entries.len()
            invariant
                i <= self.entries@.len(),
                forall|j: int| 0 <= j < i ==> self.entries@[j].cap != c,
            decreases self.entries@.len() - i,
        {
            if self.entries[i].cap == c {
                return Some(i);
            }
            i += 1;
        }
        None
    }

    /// The value attached to `c`, if the map holds `c`: `None` when
    /// the capability is absent, `Some(None)` when it was announced
    /// bare, `Some(Some(v))` when it was announced as `token=v`.
    pub fn get(&self, c: Capability) -> (r: Option<&Option<Vec<u8>>>)
        requires
            self.wf(),
        ensures
            match r {
                Some(v) => self@.dom().contains(c) && self@[c] == opt_bytes_view(*v),
                None => !self@.dom().contains(c),
            },
    {
        match self.find(c) {
            Some(i) => {
                proof {
                    lemma_cap_witness_unique(self.entries@, c, i as int);
                }
                Some(&self.entries[i].val)
            },
            None => None,
        }
    }

    /// Sets the value of `c`, replacing an earlier entry for the same
    /// capability: the last occurrence wins.
    pub fn insert(&mut self, c: Capability, v: Option<Vec<u8>>)
        requires
            old(self).wf(),
        ensures
            final(self).wf(),
            final(self)@ == old(self)@.insert(c, opt_bytes_view(v)),
    {
        let found = self.find(c);
        match found {
            Some(i) => {
                proof {
                    lemma_cap_entries_update(self.entries@, i as int, CapEntry { cap: c, val: v });
                }
                self.entries.set(i, CapEntry { cap: c, val: v });
            },
            None => {
                proof {
                    lemma_cap_entries_push(self.entries@, CapEntry { cap: c, val: v });
                }
                self.entries.push(CapEntry { cap: c, val: v });
            },
        }
    }
}

} // verus!
