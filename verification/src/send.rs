//! The push-command emitter: the difference between two reference
//! maps, written as update commands with a capability list attached
//! to the first and a terminating flush.

use vstd::prelude::*;

use crate::advert::is_peeled;
use crate::bytes::{bytes_eq, ends_with, is_prefix, push_all, starts_with};
use crate::caps::{token_spec, CapEntry};
use crate::packet::{PktView, ProtocolLine};
use crate::refmap::RefMap;

verus! {

/// What a ref-change transmission amounts to.
#[derive(Debug, Clone, Copy, PartialEq, Eq, Structural)]
pub enum SendActivity {
    /// No command was emitted; the capability list was never attached.
    Nothing,
    /// Commands were emitted but every new identifier is null: pure
    /// deletion, no pack body follows.
    Deleting,
    /// At least one command introduces a non-null identifier: a pack
    /// body must follow.
    Sending,
}

/// The null identifier: forty ASCII zeros, meaning "no object".
pub open spec fn null_id() -> Seq<u8> {
    Seq::new(40, |i: int| 0x30u8)
}

/// Owned bytes of the null identifier.
pub fn null_id_bytes() -> (r: Vec<u8>)
    ensures
        r@ == null_id(),
{
    let mut r: Vec<u8> = Vec::new();
    let mut i: usize = 0;
    while i < 40
        invariant
            i <= 40,
            r@.len() == i,
            forall|j: int| 0 <= j < i ==> r@[j] == 0x30u8,
        decreases 40 - i,
    {
        r.push(0x30);
        i += 1;
    }
    proof {
        assert(r@ =~= null_id());
    }
    r
}

/// The name-space prefix `refs/` that update commands are limited to.
pub open spec fn refs_prefix() -> Seq<u8> {
    seq![0x72u8, 0x65u8, 0x66u8, 0x73u8, 0x2fu8]
}

/// Owned bytes of the `refs/` prefix.
pub fn refs_prefix_bytes() -> (r: Vec<u8>)
    ensures
        r@ == refs_prefix(),
{
    let mut r: Vec<u8> = Vec::new();
    r.push(0x72);
    r.push(0x65);
    r.push(0x66);
    r.push(0x73);
    r.push(0x2f);
    proof {
        assert(r@ =~= refs_prefix());
    }
    r
}

/// A name the emitter considers: under `refs/` and not peeled.
pub open spec fn pushable(n: Seq<u8>) -> bool {
    is_prefix(n, refs_prefix()) && !is_peeled(n)
}

/// One capability as written on the wire: the token, then `=value`
/// when a value is attached.
pub open spec fn cap_item(e: CapEntry) -> Seq<u8> {
    token_spec(e.cap) + match e.val {
        Some(v) => seq![0x3du8] + v@,
        None => Seq::<u8>::empty(),
    }
}

/// The capability suffix from entry `i` on: the first entry of the
/// whole list rides behind a NUL, later ones behind single spaces.
pub open spec fn capstring_from(caps: Seq<CapEntry>, i: int) -> Seq<u8>
    decreases caps.len() - i,
{
    if i < 0 || i >= caps.len() {
        Seq::<u8>::empty()
    } else {
        seq![
            if i == 0 {
                0u8
            } else {
                0x20u8
            },
        ] + cap_item(caps[i]) + capstring_from(caps, i + 1)
    }
}

/// The whole capability suffix; empty when no capability is given.
pub open spec fn capstring_spec(caps: Seq<CapEntry>) -> Seq<u8> {
    capstring_from(caps, 0)
}

/// Builds the capability suffix.
pub fn capstring(caps: &Vec<CapEntry>) -> (r: Vec<u8>)
    ensures
        r@ == capstring_spec(caps@),
{
    let mut r: Vec<u8> = Vec::new();
    let mut i: usize = 0;
    while i < caps.len()
        invariant
            i <= caps@.len(),
            r@ + capstring_from(caps@, i as int) == capstring_spec(caps@),
        decreases caps@.len() - i,
    {
        let ghost r0 = r@;
        if i == 0 {
            r.push(0);
        } else {
            r.push(0x20);
        }
        let tok = caps[i].cap.token_bytes();
        push_all(&mut r, &tok);
        match &caps[i].val {
            Some(v) => {
                r.push(0x3d);
                let ghost r1 = r@;
                push_all(&mut r, v);
                proof {
                    assert(r@ =~= r0 + (seq![
                        if i == 0 {
                            0u8
                        } else {
                            0x20u8
                        },
                    ] + cap_item(caps@[i as int])));
                }
            },
            None => {
                proof {
                    assert(cap_item(caps@[i as int]) =~= token_spec(caps@[i as int].cap));
                    assert(r@ =~= r0 + (seq![
                        if i == 0 {
                            0u8
                        } else {
                            0x20u8
                        },
                    ] + cap_item(caps@[i as int])));
                }
            },
        }
        proof {
            assert((r0 + (seq![
                if i == 0 {
                    0u8
                } else {
                    0x20u8
                },
            ] + cap_item(caps@[i as int]))) + capstring_from(caps@, i as int + 1) =~= r0 + ((seq![
                if i == 0 {
                    0u8
                } else {
                    0x20u8
                },
            ] + cap_item(caps@[i as int])) + capstring_from(caps@, i as int + 1)));
            assert((seq![
                if i == 0 {
                    0u8
                } else {
                    0x20u8
                },
            ] + cap_item(caps@[i as int])) + capstring_from(caps@, i as int + 1) =~= capstring_from(
                caps@,
                i as int,
            ));
        }
        i += 1;
    }
    r
}

/// The identifier a map holds for a name, or the null identifier.
pub open spec fn id_of(m: Map<Seq<u8>, Seq<u8>>, n: Seq<u8>) -> Seq<u8> {
    if m.dom().contains(n) {
        m[n]
    } else {
        null_id()
    }
}

/// Whether a ref needs a command: its identifiers on the two sides
/// differ.
pub open spec fn changed(ex: Map<Seq<u8>, Seq<u8>>, tg: Map<Seq<u8>, Seq<u8>>, n: Seq<u8>) -> bool {
    id_of(ex, n) != id_of(tg, n)
}

/// The fixed part of one command: `<old> SP <new> SP <name>`.
pub open spec fn cmd_core(ex: Map<Seq<u8>, Seq<u8>>, tg: Map<Seq<u8>, Seq<u8>>, n: Seq<u8>) -> Seq<
    u8,
> {
    id_of(ex, n) + seq![0x20u8] + id_of(tg, n) + seq![0x20u8] + n
}

/// The command payloads for a candidate name list, in order: one
/// command per changed name, the capability suffix attached to the
/// first command alone, a newline closing every payload.
pub open spec fn emit_payloads(
    names: Seq<Seq<u8>>,
    ex: Map<Seq<u8>, Seq<u8>>,
    tg: Map<Seq<u8>, Seq<u8>>,
    capstr: Seq<u8>,
) -> Seq<Seq<u8>>
    decreases names.len(),
{
    if names.len() == 0 {
        Seq::<Seq<u8>>::empty()
    } else {
        let pre = emit_payloads(names.drop_last(), ex, tg, capstr);
        let n = names.last();
        if changed(ex, tg, n) {
            pre.push(
                cmd_core(ex, tg, n) + (if pre.len() == 0 {
                    capstr
                } else {
                    Seq::<u8>::empty()
                }) + seq![0x0au8],
            )
        } else {
            pre
        }
    }
}

/// Some candidate name needs a command.
pub open spec fn any_changed(
    names: Seq<Seq<u8>>,
    ex: Map<Seq<u8>, Seq<u8>>,
    tg: Map<Seq<u8>, Seq<u8>>,
) -> bool {
    exists|i: int| 0 <= i < names.len() && changed(ex, tg, names[i])
}

/// Some candidate name introduces a non-null identifier.
pub open spec fn any_new_nonnull(
    names: Seq<Seq<u8>>,
    ex: Map<Seq<u8>, Seq<u8>>,
    tg: Map<Seq<u8>, Seq<u8>>,
) -> bool {
    exists|i: int|
        0 <= i < names.len() && changed(ex, tg, names[i]) && id_of(tg, names[i]) != null_id()
}

/// The tri-state the emitter reports for a candidate name list.
pub open spec fn activity_spec(
    names: Seq<Seq<u8>>,
    ex: Map<Seq<u8>, Seq<u8>>,
    tg: Map<Seq<u8>, Seq<u8>>,
) -> SendActivity {
    if !any_changed(names, ex, tg) {
        SendActivity::Nothing
    } else if any_new_nonnull(names, ex, tg) {
        SendActivity::Sending
    } else {
        SendActivity::Deleting
    }
}

/// The names of an entry list, in entry order.
pub open spec fn names_of(entries: Seq<crate::refmap::RefEntry>) -> Seq<Seq<u8>> {
    entries.map_values(|e: crate::refmap::RefEntry| e.name@)
}

/// The elements of a name list that satisfy `pred`, in order.
pub open spec fn keep(s: Seq<Seq<u8>>, pred: spec_fn(Seq<u8>) -> bool) -> Seq<Seq<u8>>
    decreases s.len(),
{
    if s.len() == 0 {
        Seq::<Seq<u8>>::empty()
    } else {
        let pre = keep(s.drop_last(), pred);
        if pred(s.last()) {
            pre.push(s.last())
        } else {
            pre
        }
    }
}

/// The names kept for the emitter from the existing side: those
/// under `refs/` and not peeled.
pub open spec fn keep_pushable(names: Seq<Seq<u8>>) -> Seq<Seq<u8>> {
    keep(names, |n: Seq<u8>| pushable(n))
}

/// The names kept from the target side: pushable and not already
/// present in the existing map.
pub open spec fn keep_new(names: Seq<Seq<u8>>, ex: Map<Seq<u8>, Seq<u8>>) -> Seq<Seq<u8>> {
    keep(names, |n: Seq<u8>| pushable(n) && !ex.dom().contains(n))
}

/// The packet views of a list of payloads, as data packets.
pub open spec fn datas_of(ps: Seq<Seq<u8>>) -> Seq<PktView> {
    ps.map_values(|p: Seq<u8>| PktView::Data(p))
}

/// The candidate name list of the emitter: the pushable names of
/// `existing` in entry order, then the pushable names of `target`
/// that `existing` does not hold.
pub open spec fn cand_names(
    ex_entries: Seq<crate::refmap::RefEntry>,
    tg_entries: Seq<crate::refmap::RefEntry>,
    ex: Map<Seq<u8>, Seq<u8>>,
) -> Seq<Seq<u8>> {
    keep_pushable(names_of(ex_entries)) + keep_new(names_of(tg_entries), ex)
}

/// The views of a list of owned byte vectors.
pub open spec fn vecs_view(v: Seq<Vec<u8>>) -> Seq<Seq<u8>> {
    v.map_values(|x: Vec<u8>| x@)
}

/// Whether a name may carry an update command: it lies under `refs/`
/// and is not peeled.
pub fn is_pushable(n: &Vec<u8>) -> (r: bool)
    ensures
        r == pushable(n@),
{
    let pre = refs_prefix_bytes();
    let suf = crate::advert::peeled_suffix_bytes();
    starts_with(n, &pre) && !ends_with(n, &suf)
}

/// Computes the update commands that turn the `existing` reference
/// map into `target`, with the capability suffix on the first
/// command, and classifies the push.  The packets end with the
/// terminating flush.
pub fn send_refchange(existing: &RefMap, target: &RefMap, caps: &Vec<CapEntry>) -> (r: (
    Vec<ProtocolLine>,
    SendActivity,
))
    requires
        existing.wf(),
        target.wf(),
    ensures
        ({
            let cands = cand_names(existing.entries@, target.entries@, existing@);
            let payloads = emit_payloads(cands, existing@, target@, capstring_spec(caps@));
            &&& crate::packet::views_of(r.0@) == datas_of(payloads).push(PktView::Flush)
            &&& r.1 == activity_spec(cands, existing@, target@)
        }),
{
    let ghost ex = existing@;
    let ghost tg = target@;
    let mut cands: Vec<Vec<u8>> = Vec::new();
    let mut i: usize = 0;
    while i < existing.entries.len()
        invariant
            i <= existing.entries@.len(),
            vecs_view(cands@) == keep_pushable(names_of(existing.entries@.take(i as int))),
        decreases existing.entries@.len() - i,
    {
        let ghost pre = names_of(existing.entries@.take(i as int));
        proof {
            assert(names_of(existing.entries@.take(i as int + 1)) =~= pre.push(
                existing.entries@[i as int].name@,
            ));
            assert(pre.push(existing.entries@[i as int].name@).drop_last() =~= pre);
        }
        let name = &existing.entries[i].name;
        if is_pushable(name) {
            let c = crate::bytes::copy_range(name, 0, name.len());
            proof {
                assert(c@ =~= name@);
            }
            let ghost cv0 = cands@;
            cands.push(c);
            proof {
                assert(keep_pushable(names_of(existing.entries@.take(i as int + 1)))
                    == keep_pushable(names_of(existing.entries@.take(i as int))).push(name@));
                assert(vecs_view(cands@) =~= vecs_view(cv0).push(name@));
            }
        } else {
            proof {
                assert(keep_pushable(names_of(existing.entries@.take(i as int + 1)))
                    == keep_pushable(names_of(existing.entries@.take(i as int))));
            }
        }
        i += 1;
    }
    proof {
        assert(existing.entries@.take(existing.entries@.len() as int) =~= existing.entries@);
    }
    let ghost ex_part = keep_pushable(names_of(existing.entries@));
    let mut j: usize = 0;
    while j < target.entries.len()
        invariant
            j <= target.entries@.len(),
            existing.wf(),
            ex == existing@,
            vecs_view(cands@) == ex_part + keep_new(
                names_of(target.entries@.take(j as int)),
                ex,
            ),
        decreases target.entries@.len() - j,
    {
        let ghost pre = names_of(target.entries@.take(j as int));
        proof {
            assert(names_of(target.entries@.take(j as int + 1)) =~= pre.push(
                target.entries@[j as int].name@,
            ));
            assert(pre.push(target.entries@[j as int].name@).drop_last() =~= pre);
        }
        let name = &target.entries[j].name;
        if is_pushable(name) && existing.get(name).is_none() {
            let c = crate::bytes::copy_range(name, 0, name.len());
            proof {
                assert(c@ =~= name@);
            }
            let ghost cv0 = cands@;
            cands.push(c);
            proof {
                assert(pushable(name@) && !ex.dom().contains(name@));
                assert(keep_new(names_of(target.entries@.take(j as int + 1)), ex) == keep_new(
                    names_of(target.entries@.take(j as int)),
                    ex,
                ).push(name@));
                assert(vecs_view(cands@) =~= vecs_view(cv0).push(name@));
                assert(vecs_view(cv0).push(name@) =~= ex_part + keep_new(
                    names_of(target.entries@.take(j as int)),
                    ex,
                ).push(name@));
            }
        } else {
            proof {
                assert(keep_new(names_of(target.entries@.take(j as int + 1)), ex) == keep_new(
                    names_of(target.entries@.take(j as int)),
                    ex,
                ));
            }
        }
        j += 1;
    }
    proof {
        assert(target.entries@.take(target.entries@.len() as int) =~= target.entries@);
        assert(vecs_view(cands@) == cand_names(existing.entries@, target.entries@, ex));
    }
    let ghost all_cands = vecs_view(cands@);
    let capstr = capstring(caps);
    let nullv = null_id_bytes();
    let mut cmds: Vec<ProtocolLine> = Vec::new();
    let mut need_pack = false;
    let mut k: usize = 0;
    while k < cands.len()
        invariant
            k <= cands@.len(),
            existing.wf(),
            target.wf(),
            ex == existing@,
            tg == target@,
            all_cands == vecs_view(cands@),
            capstr@ == capstring_spec(caps@),
            nullv@ == null_id(),
            crate::packet::views_of(cmds@) == datas_of(
                emit_payloads(all_cands.take(k as int), ex, tg, capstr@),
            ),
            cmds@.len() == emit_payloads(all_cands.take(k as int), ex, tg, capstr@).len(),
            need_pack == any_new_nonnull(all_cands.take(k as int), ex, tg),
        decreases cands@.len() - k,
    {
        let ghost prefix = all_cands.take(k as int);
        proof {
            assert(all_cands.take(k as int + 1).drop_last() =~= prefix);
            assert(all_cands.take(k as int + 1).last() == cands@[k as int]@);
        }
        let name = &cands[k];
        let oldid: &Vec<u8> = match existing.get(name) {
            Some(v) => v,
            None => &nullv,
        };
        let newid: &Vec<u8> = match target.get(name) {
            Some(v) => v,
            None => &nullv,
        };
        proof {
            assert(oldid@ == id_of(ex, name@));
            assert(newid@ == id_of(tg, name@));
        }
        if !bytes_eq(oldid, newid) {
            if !bytes_eq(newid, &nullv) {
                need_pack = true;
                proof {
                    assert(any_new_nonnull(all_cands.take(k as int + 1), ex, tg)) by {
                        assert(0 <= k < all_cands.take(k as int + 1).len() && changed(
                            ex,
                            tg,
                            all_cands.take(k as int + 1)[k as int],
                        ) && id_of(tg, all_cands.take(k as int + 1)[k as int]) != null_id());
                    }
                }
            } else {
                proof {
                    if any_new_nonnull(all_cands.take(k as int + 1), ex, tg) && !any_new_nonnull(
                        prefix,
                        ex,
                        tg,
                    ) {
                        let w = choose|w: int|
                            0 <= w < all_cands.take(k as int + 1).len() && changed(
                                ex,
                                tg,
                                #[trigger] all_cands.take(k as int + 1)[w],
                            ) && id_of(tg, all_cands.take(k as int + 1)[w]) != null_id();
                        if w < k {
                            assert(0 <= w < prefix.len() && changed(ex, tg, prefix[w]) && id_of(
                                tg,
                                prefix[w],
                            ) != null_id());
                        }
                    }
                }
            }
            let mut payload: Vec<u8> = Vec::new();
            push_all(&mut payload, oldid);
            payload.push(0x20);
            push_all(&mut payload, newid);
            payload.push(0x20);
            push_all(&mut payload, name);
            proof {
                assert(payload@ =~= cmd_core(ex, tg, name@));
            }
            if cmds.len() == 0 {
                push_all(&mut payload, &capstr);
            }
            payload.push(0x0a);
            proof {
                let pre_pay = emit_payloads(prefix, ex, tg, capstr@);
                assert(payload@ =~= cmd_core(ex, tg, name@) + (if pre_pay.len() == 0 {
                    capstr@
                } else {
                    Seq::<u8>::empty()
                }) + seq![0x0au8]);
            }
            let ghost cm0 = cmds@;
            cmds.push(ProtocolLine::Data(payload));
            proof {
                let pre_pay = emit_payloads(prefix, ex, tg, capstr@);
                let full = cmd_core(ex, tg, name@) + (if pre_pay.len() == 0 {
                    capstr@
                } else {
                    Seq::<u8>::empty()
                }) + seq![0x0au8];
                assert(changed(ex, tg, name@));
                assert(emit_payloads(all_cands.take(k as int + 1), ex, tg, capstr@) == pre_pay.push(
                    full,
                ));
                assert(crate::packet::views_of(cmds@) =~= crate::packet::views_of(cm0).push(
                    PktView::Data(full),
                ));
                assert(datas_of(pre_pay.push(full)) =~= datas_of(pre_pay).push(PktView::Data(full)));
            }
        } else {
            proof {
                assert(emit_payloads(all_cands.take(k as int + 1), ex, tg, capstr@)
                    == emit_payloads(prefix, ex, tg, capstr@));
                if any_new_nonnull(all_cands.take(k as int + 1), ex, tg) && !any_new_nonnull(
                    prefix,
                    ex,
                    tg,
                ) {
                    let w = choose|w: int|
                        0 <= w < all_cands.take(k as int + 1).len() && changed(
                            ex,
                            tg,
                            #[trigger] all_cands.take(k as int + 1)[w],
                        ) && id_of(tg, all_cands.take(k as int + 1)[w]) != null_id();
                    if w < k {
                        assert(0 <= w < prefix.len() && changed(ex, tg, prefix[w]) && id_of(
                            tg,
                            prefix[w],
                        ) != null_id());
                    }
                }
            }
        }
        k += 1;
    }
    proof {
        assert(all_cands.take(all_cands.len() as int) =~= all_cands);
    }
    let nothing = cmds.len() == 0;
    let mut out = cmds;
    let ghost cmf = out@;
    out.push(ProtocolLine::Flush);
    let activity = if nothing {
        SendActivity::Nothing
    } else if need_pack {
        SendActivity::Sending
    } else {
        SendActivity::Deleting
    };
    proof {
        lemma_emit_len_zero(all_cands, ex, tg, capstring_spec(caps@));
        assert(crate::packet::views_of(out@) =~= crate::packet::views_of(cmf).push(PktView::Flush));
        assert(crate::packet::views_of(cmf) == datas_of(
            emit_payloads(all_cands, ex, tg, capstring_spec(caps@)),
        ));
    }
    (out, activity)
}

/// A command list is empty exactly when no candidate changed.
proof fn lemma_emit_len_zero(
    names: Seq<Seq<u8>>,
    ex: Map<Seq<u8>, Seq<u8>>,
    tg: Map<Seq<u8>, Seq<u8>>,
    capstr: Seq<u8>,
)
    ensures
        (emit_payloads(names, ex, tg, capstr).len() == 0) == !any_changed(names, ex, tg),
    decreases names.len(),
{
    if names.len() == 0 {
    } else {
        lemma_emit_len_zero(names.drop_last(), ex, tg, capstr);
        let n = names.last();
        if changed(ex, tg, n) {
            assert(any_changed(names, ex, tg)) by {
                assert(0 <= names.len() - 1 < names.len() && changed(
                    ex,
                    tg,
                    names[names.len() - 1],
                ));
            }
        } else {
            assert(any_changed(names.drop_last(), ex, tg) == any_changed(names, ex, tg)) by {
                if any_changed(names, ex, tg) {
                    let w = choose|w: int| 0 <= w < names.len() && changed(ex, tg, names[w]);
                    assert(names.drop_last()[w] == names[w]);
                    assert(0 <= w < names.drop_last().len() && changed(
                        ex,
                        tg,
                        names.drop_last()[w],
                    ));
                }
            }
        }
    }
}

/// The candidate names that actually need a command, in candidate
/// order.
pub open spec fn changed_names(
    names: Seq<Seq<u8>>,
    ex: Map<Seq<u8>, Seq<u8>>,
    tg: Map<Seq<u8>, Seq<u8>>,
) -> Seq<Seq<u8>> {
    keep(names, |n: Seq<u8>| changed(ex, tg, n))
}

/// No element of the list repeats.
pub open spec fn distinct_names(names: Seq<Seq<u8>>) -> bool {
    forall|i: int, j: int| 0 <= i < j < names.len() ==> names[i] != names[j]
}

/// A byte sequence without a NUL byte.
pub open spec fn nul_free(s: Seq<u8>) -> bool {
    forall|i: int| 0 <= i < s.len() ==> s[i] != 0
}

/// What `keep` holds: exactly the elements of the list satisfying the
/// predicate, distinct when the list was.
proof fn lemma_keep_membership(names: Seq<Seq<u8>>, pred: spec_fn(Seq<u8>) -> bool)
    ensures
        forall|i: int| 0 <= i < keep(names, pred).len() ==> names.contains(
            #[trigger] keep(names, pred)[i],
        ) && pred(keep(names, pred)[i]),
        forall|n: Seq<u8>| names.contains(n) && pred(n) ==> keep(names, pred).contains(n),
        distinct_names(names) ==> distinct_names(keep(names, pred)),
    decreases names.len(),
{
    if names.len() == 0 {
    } else {
        let sub = names.drop_last();
        lemma_keep_membership(sub, pred);
        assert forall|i: int| 0 <= i < sub.len() implies names.contains(sub[i]) by {
            assert(names[i] == sub[i]);
        }
        assert forall|n: Seq<u8>| names.contains(n) && pred(n) implies keep(
            names,
            pred,
        ).contains(n) by {
            let w = choose|w: int| 0 <= w < names.len() && names[w] == n;
            if w < names.len() - 1 {
                assert(sub[w] == n);
                assert(sub.contains(n));
                let v = choose|v: int| 0 <= v < keep(sub, pred).len() && keep(sub, pred)[v] == n;
                if pred(names.last()) {
                    assert(keep(names, pred)[v] == n);
                } else {
                    assert(keep(names, pred)[v] == n);
                }
            } else {
                assert(names.last() == n);
                assert(keep(names, pred)[keep(names, pred).len() - 1] == n);
            }
        }
        if distinct_names(names) {
            assert forall|i: int, j: int| 0 <= i < j < sub.len() implies sub[i] != sub[j] by {
                assert(names[i] == sub[i] && names[j] == sub[j]);
            }
            if pred(names.last()) {
                assert forall|i: int, j: int|
                    0 <= i < j < keep(names, pred).len() implies keep(names, pred)[i] != keep(
                    names,
                    pred,
                )[j] by {
                    if j < keep(names, pred).len() - 1 {
                        assert(keep(sub, pred)[i] != keep(sub, pred)[j]);
                    } else {
                        assert(keep(names, pred)[j] == names.last());
                        assert(sub.contains(keep(sub, pred)[i]));
                        let w = choose|w: int| 0 <= w < sub.len() && sub[w] == keep(sub, pred)[i];
                        assert(names[w] == sub[w]);
                        assert(names[w] != names[names.len() - 1]);
                    }
                }
            }
        }
    }
}

/// Emitter determinism of payload (law): the commands are exactly the
/// changed candidates, in candidate order; command `i` is
/// `<old> SP <new> SP <name>` for the `i`-th changed name, the
/// capability suffix riding on the first command alone, a newline
/// closing each.
pub proof fn lemma_emitter_commands(
    names: Seq<Seq<u8>>,
    ex: Map<Seq<u8>, Seq<u8>>,
    tg: Map<Seq<u8>, Seq<u8>>,
    capstr: Seq<u8>,
)
    ensures
        emit_payloads(names, ex, tg, capstr).len() == changed_names(names, ex, tg).len(),
        forall|i: int|
            0 <= i < emit_payloads(names, ex, tg, capstr).len() ==> #[trigger] emit_payloads(
                names,
                ex,
                tg,
                capstr,
            )[i] == cmd_core(ex, tg, changed_names(names, ex, tg)[i]) + (if i == 0 {
                capstr
            } else {
                Seq::<u8>::empty()
            }) + seq![0x0au8],
    decreases names.len(),
{
    if names.len() == 0 {
    } else {
        lemma_emitter_commands(names.drop_last(), ex, tg, capstr);
    }
}

/// Emitter determinism, counted (law): with distinct candidates, each
/// changed name owns exactly one position in the command list.
pub proof fn lemma_emitter_exactly_one(
    names: Seq<Seq<u8>>,
    ex: Map<Seq<u8>, Seq<u8>>,
    tg: Map<Seq<u8>, Seq<u8>>,
    n: Seq<u8>,
)
    requires
        distinct_names(names),
        names.contains(n),
        changed(ex, tg, n),
    ensures
        exists|i: int|
            0 <= i < changed_names(names, ex, tg).len() && #[trigger] changed_names(
                names,
                ex,
                tg,
            )[i] == n,
        forall|i: int, j: int|
            0 <= i < changed_names(names, ex, tg).len() && 0 <= j < changed_names(
                names,
                ex,
                tg,
            ).len() && changed_names(names, ex, tg)[i] == n && changed_names(names, ex, tg)[j] == n
                ==> i == j,
{
    lemma_keep_membership(names, |m: Seq<u8>| changed(ex, tg, m));
    assert(changed_names(names, ex, tg).contains(n));
}

/// Emitter attachment (law): when capabilities are given and the
/// names and identifiers are NUL-free, the NUL-led capability suffix
/// stands on the first command and on no other.
pub proof fn lemma_emitter_attachment(
    names: Seq<Seq<u8>>,
    ex: Map<Seq<u8>, Seq<u8>>,
    tg: Map<Seq<u8>, Seq<u8>>,
    caps: Seq<CapEntry>,
)
    requires
        caps.len() > 0,
        forall|i: int|
            0 <= i < names.len() ==> nul_free(#[trigger] names[i]) && nul_free(
                id_of(ex, names[i]),
            ) && nul_free(id_of(tg, names[i])),
    ensures
        ({
            let ps = emit_payloads(names, ex, tg, capstring_spec(caps));
            &&& ps.len() > 0 ==> !nul_free(ps[0])
            &&& forall|i: int| 1 <= i < ps.len() ==> nul_free(#[trigger] ps[i])
        }),
{
    let capstr = capstring_spec(caps);
    let ps = emit_payloads(names, ex, tg, capstr);
    let ch = changed_names(names, ex, tg);
    lemma_emitter_commands(names, ex, tg, capstr);
    lemma_keep_membership(names, |m: Seq<u8>| changed(ex, tg, m));
    if ps.len() > 0 {
        assert(ps[0] == cmd_core(ex, tg, ch[0]) + capstr + seq![0x0au8]);
        assert(capstr[0] == 0);
        assert(ps[0][cmd_core(ex, tg, ch[0]).len() as int] == 0);
        assert(!nul_free(ps[0]));
    }
    assert forall|i: int| 1 <= i < ps.len() implies nul_free(#[trigger] ps[i]) by {
        assert(names.contains(ch[i]));
        let w = choose|w: int| 0 <= w < names.len() && names[w] == ch[i];
        assert(nul_free(names[w]) && nul_free(id_of(ex, names[w])) && nul_free(
            id_of(tg, names[w]),
        ));
        let core = cmd_core(ex, tg, ch[i]);
        assert(ps[i] == core + Seq::<u8>::empty() + seq![0x0au8]);
        assert forall|b: int| 0 <= b < ps[i].len() implies ps[i][b] != 0 by {
            if b < core.len() {
                assert(ps[i][b] == core[b]);
                let oldid = id_of(ex, ch[i]);
                let newid = id_of(tg, ch[i]);
                if b < oldid.len() {
                    assert(core[b] == oldid[b]);
                } else if b == oldid.len() {
                    assert(core[b] == 0x20);
                } else if b < oldid.len() + 1 + newid.len() {
                    assert(core[b] == newid[b - oldid.len() - 1]);
                } else if b == oldid.len() + 1 + newid.len() {
                    assert(core[b] == 0x20);
                } else {
                    assert(core[b] == ch[i][b - oldid.len() - newid.len() - 2]);
                }
            } else {
                assert(ps[i][b] == 0x0a);
            }
        }
    }
}

/// Emitter classification (law): the tri-state is `Nothing` exactly
/// when no command was emitted; `Sending` exactly when some command
/// introduces a non-null identifier; `Deleting` in the remaining
/// case.
pub proof fn lemma_emitter_classification(
    names: Seq<Seq<u8>>,
    ex: Map<Seq<u8>, Seq<u8>>,
    tg: Map<Seq<u8>, Seq<u8>>,
    capstr: Seq<u8>,
)
    ensures
        (activity_spec(names, ex, tg) == SendActivity::Nothing) == (emit_payloads(
            names,
            ex,
            tg,
            capstr,
        ).len() == 0),
        (activity_spec(names, ex, tg) == SendActivity::Sending) == (any_new_nonnull(names, ex, tg)),
        (activity_spec(names, ex, tg) == SendActivity::Deleting) == (emit_payloads(
            names,
            ex,
            tg,
            capstr,
        ).len() > 0 && !any_new_nonnull(names, ex, tg)),
{
    lemma_emit_len_zero(names, ex, tg, capstr);
    if any_new_nonnull(names, ex, tg) {
        let w = choose|w: int|
            0 <= w < names.len() && changed(ex, tg, #[trigger] names[w]) && id_of(tg, names[w])
                != null_id();
        assert(any_changed(names, ex, tg)) by {
            assert(0 <= w < names.len() && changed(ex, tg, names[w]));
        }
    }
}

/// Peeled filtering at the emitter (law): every candidate name — and
/// so every name a command is emitted for — lies under `refs/` and is
/// not peeled.
pub proof fn lemma_commands_exclude_peeled(
    ex_entries: Seq<crate::refmap::RefEntry>,
    tg_entries: Seq<crate::refmap::RefEntry>,
    ex: Map<Seq<u8>, Seq<u8>>,
    tg: Map<Seq<u8>, Seq<u8>>,
)
    ensures
        forall|i: int|
            0 <= i < cand_names(ex_entries, tg_entries, ex).len() ==> pushable(
                #[trigger] cand_names(ex_entries, tg_entries, ex)[i],
            ),
        forall|i: int|
            0 <= i < changed_names(cand_names(ex_entries, tg_entries, ex), ex, tg).len()
                ==> pushable(
                #[trigger] changed_names(cand_names(ex_entries, tg_entries, ex), ex, tg)[i],
            ),
{
    let a = keep_pushable(names_of(ex_entries));
    let b = keep_new(names_of(tg_entries), ex);
    let cands = cand_names(ex_entries, tg_entries, ex);
    lemma_keep_membership(names_of(ex_entries), |n: Seq<u8>| pushable(n));
    lemma_keep_membership(names_of(tg_entries), |n: Seq<u8>| pushable(n) && !ex.dom().contains(n));
    assert forall|i: int| 0 <= i < cands.len() implies pushable(#[trigger] cands[i]) by {
        if i < a.len() {
            assert(cands[i] == a[i]);
        } else {
            assert(cands[i] == b[i - a.len()]);
        }
    }
    lemma_keep_membership(cands, |n: Seq<u8>| changed(ex, tg, n));
    assert forall|i: int|
        0 <= i < changed_names(cands, ex, tg).len() implies pushable(
        #[trigger] changed_names(cands, ex, tg)[i],
    ) by {
        assert(cands.contains(changed_names(cands, ex, tg)[i]));
        let w = choose|w: int| 0 <= w < cands.len() && cands[w] == changed_names(cands, ex, tg)[i];
        assert(pushable(cands[w]));
    }
}

/// The canonical empty pack: `PACK`, version two, zero objects, and
/// the twenty-byte digest of that twelve-byte header.
pub open spec fn empty_pack_spec() -> Seq<u8> {
    seq![
        0x50u8, 0x41u8, 0x43u8, 0x4bu8, 0u8, 0u8, 0u8, 2u8, 0u8, 0u8, 0u8, 0u8, 0x02u8, 0x9du8,
        0x08u8, 0x82u8, 0x3bu8, 0xd8u8, 0xa8u8, 0xeau8, 0xb5u8, 0x10u8, 0xadu8, 0x6au8, 0xc7u8,
        0x5cu8, 0x82u8, 0x3cu8, 0xfdu8, 0x3eu8, 0xd3u8, 0x1eu8,
    ]
}

/// Owned bytes of the canonical empty pack.
pub fn empty_pack() -> (r: Vec<u8>)
    ensures
        r@ == empty_pack_spec(),
{
    let r: Vec<u8> = vec![
        0x50u8, 0x41u8, 0x43u8, 0x4bu8, 0u8, 0u8, 0u8, 2u8, 0u8, 0u8, 0u8, 0u8, 0x02u8, 0x9du8,
        0x08u8, 0x82u8, 0x3bu8, 0xd8u8, 0xa8u8, 0xeau8, 0xb5u8, 0x10u8, 0xadu8, 0x6au8, 0xc7u8,
        0x5cu8, 0x82u8, 0x3cu8, 0xfdu8, 0x3eu8, 0xd3u8, 0x1eu8,
    ];
    proof {
        assert(r@ =~= empty_pack_spec());
    }
    r
}

} // verus!
