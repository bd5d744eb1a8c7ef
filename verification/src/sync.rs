//! The pure decisions of the orchestrator: which identifiers to
//! fetch, which are already held, the fixed capability lists of the
//! two dialogues, and whether the canonical empty pack must stand in
//! for a real one.

use vstd::prelude::*;

use crate::advert::is_peeled;
use crate::bytes::{bytes_eq, copy_range, ends_with};
use crate::caps::{opt_bytes_view, CapEntry, Capability};
use crate::refmap::{ref_entries_has_value, RefEntry, RefMap};
use crate::send::{distinct_names, vecs_view, SendActivity};

verus! {

/// Some entry among the first `k`, not peeled, points at `v`.
pub open spec fn wanted_from(entries: Seq<RefEntry>, k: int, v: Seq<u8>) -> bool {
    exists|i: int|
        0 <= i < k && !is_peeled(#[trigger] entries[i].name@) && entries[i].id@ == v
}

/// Some non-peeled reference of the source points at `v`.
pub open spec fn wanted_id(entries: Seq<RefEntry>, v: Seq<u8>) -> bool {
    wanted_from(entries, entries.len() as int, v)
}

/// Extending the scanned prefix by one entry extends the wanted set
/// by that entry's identifier, when its name is not peeled.
proof fn lemma_wanted_step(entries: Seq<RefEntry>, k: int, v: Seq<u8>)
    requires
        0 <= k < entries.len(),
    ensures
        wanted_from(entries, k + 1, v) == (wanted_from(entries, k, v) || (!is_peeled(
            entries[k].name@,
        ) && entries[k].id@ == v)),
{
    if wanted_from(entries, k + 1, v) {
        let w = choose|i: int|
            0 <= i < k + 1 && !is_peeled(#[trigger] entries[i].name@) && entries[i].id@ == v;
        if w < k {
            assert(wanted_from(entries, k, v)) by {
                assert(0 <= w < k && !is_peeled(entries[w].name@) && entries[w].id@ == v);
            }
        }
    }
    if wanted_from(entries, k, v) {
        let w = choose|i: int|
            0 <= i < k && !is_peeled(#[trigger] entries[i].name@) && entries[i].id@ == v;
        assert(wanted_from(entries, k + 1, v)) by {
            assert(0 <= w < k + 1 && !is_peeled(entries[w].name@) && entries[w].id@ == v);
        }
    }
    if !is_peeled(entries[k].name@) && entries[k].id@ == v {
        assert(wanted_from(entries, k + 1, v)) by {
            assert(0 <= k < k + 1 && !is_peeled(entries[k].name@) && entries[k].id@ == v);
        }
    }
}

/// Whether a list of identifiers holds `x`.
fn contains_id(ids: &Vec<Vec<u8>>, x: &Vec<u8>) -> (r: bool)
    ensures
        r == vecs_view(ids@).contains(x@),
{
    let mut i: usize = 0;
    while i < ids.len()
        invariant
            i <= ids@.len(),
            forall|j: int| 0 <= j < i ==> vecs_view(ids@)[j] != x@,
        decreases ids@.len() - i,
    {
        if bytes_eq(&ids[i], x) {
            proof {
                assert(vecs_view(ids@)[i as int] == x@);
            }
            return true;
        }
        i += 1;
    }
    proof {
        if vecs_view(ids@).contains(x@) {
            let w = choose|w: int| 0 <= w < vecs_view(ids@).len() && vecs_view(ids@)[w] == x@;
        }
    }
    false
}

/// The identifiers to fetch: each identifier a non-peeled source
/// reference points at, unless some destination reference already
/// points at it; each appears once, in no promised order.
pub fn compute_wants(source: &RefMap, dest: &RefMap) -> (r: Vec<Vec<u8>>)
    ensures
        forall|v: Seq<u8>|
            #[trigger] vecs_view(r@).contains(v) == (wanted_id(source.entries@, v)
                && !ref_entries_has_value(dest.entries@, v)),
        distinct_names(vecs_view(r@)),
{
    let suf = crate::advert::peeled_suffix_bytes();
    let mut r: Vec<Vec<u8>> = Vec::new();
    let mut i: usize = 0;
    while i < source.entries.len()
        invariant
            i <= source.entries@.len(),
            suf@ == crate::advert::peeled_suffix(),
            forall|v: Seq<u8>|
                #[trigger] vecs_view(r@).contains(v) == (wanted_from(source.entries@, i as int, v)
                    && !ref_entries_has_value(dest.entries@, v)),
            distinct_names(vecs_view(r@)),
        decreases source.entries@.len() - i,
    {
        let name = &source.entries[i].name;
        let id = &source.entries[i].id;
        proof {
            assert forall|v: Seq<u8>| true implies #[trigger] wanted_from(
                source.entries@,
                i as int + 1,
                v,
            ) == (wanted_from(source.entries@, i as int, v) || (!is_peeled(
                source.entries@[i as int].name@,
            ) && source.entries@[i as int].id@ == v)) by {
                lemma_wanted_step(source.entries@, i as int, v);
            }
        }
        if !ends_with(name, &suf) && !dest.has_value(id) && !contains_id(&r, id) {
            let c = copy_range(id, 0, id.len());
            proof {
                assert(c@ =~= id@);
            }
            let ghost r0 = r@;
            r.push(c);
            proof {
                assert(vecs_view(r@) =~= vecs_view(r0).push(id@));
                assert forall|v: Seq<u8>| true implies #[trigger] vecs_view(r@).contains(v) == (
                vecs_view(r0).contains(v) || v == id@) by {
                    if vecs_view(r@).contains(v) {
                        let w = choose|w: int|
                            0 <= w < vecs_view(r@).len() && vecs_view(r@)[w] == v;
                        if w < vecs_view(r0).len() {
                            assert(vecs_view(r0)[w] == v);
                        }
                    }
                    if vecs_view(r0).contains(v) {
                        let w = choose|w: int|
                            0 <= w < vecs_view(r0).len() && vecs_view(r0)[w] == v;
                        assert(vecs_view(r@)[w] == v);
                    }
                    if v == id@ {
                        assert(vecs_view(r@)[vecs_view(r@).len() - 1] == v);
                    }
                }
                assert forall|a: int, b: int|
                    0 <= a < b < vecs_view(r@).len() implies vecs_view(r@)[a] != vecs_view(
                    r@,
                )[b] by {
                    if b < vecs_view(r0).len() {
                        assert(vecs_view(r0)[a] != vecs_view(r0)[b]);
                    } else {
                        assert(vecs_view(r@)[b] == id@);
                        assert(vecs_view(r0)[a] == vecs_view(r@)[a]);
                        assert(vecs_view(r0).contains(vecs_view(r0)[a]));
                    }
                }
            }
        }
        i += 1;
    }
    r
}

/// Extending the scanned prefix by one entry extends the held set by
/// that entry's identifier.
proof fn lemma_held_step(entries: Seq<RefEntry>, k: int, v: Seq<u8>)
    requires
        0 <= k < entries.len(),
    ensures
        held_from(entries, k + 1, v) == (held_from(entries, k, v) || entries[k].id@ == v),
{
    if held_from(entries, k + 1, v) {
        let w = choose|i: int| 0 <= i < k + 1 && (#[trigger] entries[i].id@) == v;
        if w < k {
            assert(held_from(entries, k, v)) by {
                assert(0 <= w < k && entries[w].id@ == v);
            }
        }
    }
    if held_from(entries, k, v) {
        let w = choose|i: int| 0 <= i < k && (#[trigger] entries[i].id@) == v;
        assert(held_from(entries, k + 1, v)) by {
            assert(0 <= w < k + 1 && entries[w].id@ == v);
        }
    }
    if entries[k].id@ == v {
        assert(held_from(entries, k + 1, v)) by {
            assert(0 <= k < k + 1 && entries[k].id@ == v);
        }
    }
}

/// Some entry among the first `k` points at `v`.
pub open spec fn held_from(entries: Seq<RefEntry>, k: int, v: Seq<u8>) -> bool {
    exists|i: int| 0 <= i < k && (#[trigger] entries[i].id@) == v
}

/// The identifiers the destination already holds: every value of its
/// reference map, each once, in no promised order.
pub fn compute_haves(dest: &RefMap) -> (r: Vec<Vec<u8>>)
    ensures
        forall|v: Seq<u8>|
            #[trigger] vecs_view(r@).contains(v) == ref_entries_has_value(dest.entries@, v),
        distinct_names(vecs_view(r@)),
{
    let mut r: Vec<Vec<u8>> = Vec::new();
    let mut i: usize = 0;
    while i < dest.entries.len()
        invariant
            i <= dest.entries@.len(),
            forall|v: Seq<u8>|
                #[trigger] vecs_view(r@).contains(v) == held_from(dest.entries@, i as int, v),
            distinct_names(vecs_view(r@)),
        decreases dest.entries@.len() - i,
    {
        let id = &dest.entries[i].id;
        proof {
            assert forall|v: Seq<u8>| true implies #[trigger] held_from(
                dest.entries@,
                i as int + 1,
                v,
            ) == (held_from(dest.entries@, i as int, v) || dest.entries@[i as int].id@ == v) by {
                lemma_held_step(dest.entries@, i as int, v);
            }
        }
        if !contains_id(&r, id) {
            let c = copy_range(id, 0, id.len());
            proof {
                assert(c@ =~= id@);
            }
            let ghost r0 = r@;
            r.push(c);
            proof {
                assert(vecs_view(r@) =~= vecs_view(r0).push(id@));
                assert forall|v: Seq<u8>| true implies #[trigger] vecs_view(r@).contains(v) == (
                vecs_view(r0).contains(v) || v == id@) by {
                    if vecs_view(r@).contains(v) {
                        let w = choose|w: int|
                            0 <= w < vecs_view(r@).len() && vecs_view(r@)[w] == v;
                        if w < vecs_view(r0).len() {
                            assert(vecs_view(r0)[w] == v);
                        }
                    }
                    if vecs_view(r0).contains(v) {
                        let w = choose|w: int|
                            0 <= w < vecs_view(r0).len() && vecs_view(r0)[w] == v;
                        assert(vecs_view(r@)[w] == v);
                    }
                    if v == id@ {
                        assert(vecs_view(r@)[vecs_view(r@).len() - 1] == v);
                    }
                }
                assert forall|a: int, b: int|
                    0 <= a < b < vecs_view(r@).len() implies vecs_view(r@)[a] != vecs_view(
                    r@,
                )[b] by {
                    if b < vecs_view(r0).len() {
                        assert(vecs_view(r0)[a] != vecs_view(r0)[b]);
                    } else {
                        assert(vecs_view(r@)[b] == id@);
                        assert(vecs_view(r0)[a] == vecs_view(r@)[a]);
                        assert(vecs_view(r0).contains(vecs_view(r0)[a]));
                    }
                }
            }
        }
        i += 1;
    }
    r
}

/// The agent token this synchronizer announces.
pub open spec fn agent_token() -> Seq<u8> {
    seq![0x67u8, 0x69u8, 0x74u8, 0x5fu8, 0x73u8, 0x79u8, 0x6eu8, 0x63u8, 0x2fu8, 0x30u8, 0x2eu8,
        0x31u8]
}

/// Owned bytes of the agent token.
fn agent_token_bytes() -> (r: Vec<u8>)
    ensures
        r@ == agent_token(),
{
    let r: Vec<u8> = vec![0x67u8, 0x69u8, 0x74u8, 0x5fu8, 0x73u8, 0x79u8, 0x6eu8, 0x63u8, 0x2fu8,
        0x30u8, 0x2eu8, 0x31u8];
    proof {
        assert(r@ =~= agent_token());
    }
    r
}

/// The fixed capability list of the fetch dialogue: the 64k
/// side-band, offset deltas, thin packs, and the agent name.
pub fn fetch_caps() -> (r: Vec<CapEntry>)
    ensures
        r@.len() == 4,
        r@[0].cap == Capability::SideBand64K && r@[0].val matches None,
        r@[1].cap == Capability::OfsDelta && r@[1].val matches None,
        r@[2].cap == Capability::ThinPack && r@[2].val matches None,
        r@[3].cap == Capability::Agent && opt_bytes_view(r@[3].val) == Some(agent_token()),
{
    let mut r: Vec<CapEntry> = Vec::new();
    r.push(CapEntry { cap: Capability::SideBand64K, val: None });
    r.push(CapEntry { cap: Capability::OfsDelta, val: None });
    r.push(CapEntry { cap: Capability::ThinPack, val: None });
    r.push(CapEntry { cap: Capability::Agent, val: Some(agent_token_bytes()) });
    r
}

/// The fixed capability list of the push dialogue: report-status,
/// atomic updates, the 64k side-band, and the agent name.
pub fn push_caps() -> (r: Vec<CapEntry>)
    ensures
        r@.len() == 4,
        r@[0].cap == Capability::ReportStatus && r@[0].val matches None,
        r@[1].cap == Capability::Atomic && r@[1].val matches None,
        r@[2].cap == Capability::SideBand64K && r@[2].val matches None,
        r@[3].cap == Capability::Agent && opt_bytes_view(r@[3].val) == Some(agent_token()),
{
    let mut r: Vec<CapEntry> = Vec::new();
    r.push(CapEntry { cap: Capability::ReportStatus, val: None });
    r.push(CapEntry { cap: Capability::Atomic, val: None });
    r.push(CapEntry { cap: Capability::SideBand64K, val: None });
    r.push(CapEntry { cap: Capability::Agent, val: Some(agent_token_bytes()) });
    r
}

/// Whether the canonical empty pack must be written: a pack body is
/// owed to the destination, yet the fetch produced none to relay.
pub fn needs_empty_pack(expect_pack: bool, activity: SendActivity) -> (r: bool)
    ensures
        r == (!expect_pack && activity == SendActivity::Sending),
{
    !expect_pack && activity == SendActivity::Sending
}

} // verus!
