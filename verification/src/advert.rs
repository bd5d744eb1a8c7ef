//! The advertisement reader: the opening banner of a peer, parsed
//! into a reference map and a capability map.
//!
//! Lines are read (with newline chomping) until a flush ends the
//! advertisement.  Each data line is `<id> SP <name>`, optionally
//! followed by a NUL byte and a space-separated capability blob; the
//! blob may sit on any line.  Peeled names — those ending `^{}`,
//! among them the synthetic `capabilities^{}` of an empty repository —
//! contribute no reference.

use vstd::prelude::*;

use crate::bytes::{copy_range, ends_with, find_byte, is_suffix};
use crate::caps::{from_token_spec, CapMap, Capability};
use crate::error::ProtoError;
use crate::packet::{views_of, PktView, ProtocolLine};
use crate::refmap::RefMap;

verus! {

/// The bytes of the peeled-name suffix `^{}`.
pub open spec fn peeled_suffix() -> Seq<u8> {
    seq![0x5eu8, 0x7bu8, 0x7du8]
}

/// A reference name that denotes the peeled target of a tag: one
/// ending in `^{}`.
pub open spec fn is_peeled(n: Seq<u8>) -> bool {
    is_suffix(n, peeled_suffix())
}

/// Owned bytes of the peeled-name suffix.
pub fn peeled_suffix_bytes() -> (r: Vec<u8>)
    ensures
        r@ == peeled_suffix(),
{
    let mut r: Vec<u8> = Vec::new();
    r.push(0x5e);
    r.push(0x7b);
    r.push(0x7d);
    proof {
        assert(r@ =~= peeled_suffix());
    }
    r
}

/// A capability blob split at every single space; consecutive spaces
/// yield empty tokens, which no registry token matches.
pub open spec fn split_spaces(s: Seq<u8>) -> Seq<Seq<u8>>
    decreases s.len(),
    via split_spaces_decreases
{
    match s.index_of_first(0x20u8) {
        None => seq![s],
        Some(i) => seq![s.take(i)] + split_spaces(s.skip(i + 1)),
    }
}

#[via_fn]
proof fn split_spaces_decreases(s: Seq<u8>) {
    s.index_of_first_ensures(0x20u8);
}

/// One capability token split at its first `=`: the bare token, or
/// token and attached value.
pub open spec fn token_parts(t: Seq<u8>) -> (Seq<u8>, Option<Seq<u8>>) {
    match t.index_of_first(0x3du8) {
        None => (t, None),
        Some(i) => (t.take(i), Some(t.skip(i + 1))),
    }
}

/// The capability map after ingesting one token: a recognized token
/// is inserted with its value, the last occurrence winning; an
/// unknown token is silently discarded.
pub open spec fn apply_token(
    m: Map<Capability, Option<Seq<u8>>>,
    t: Seq<u8>,
) -> Map<Capability, Option<Seq<u8>>> {
    match from_token_spec(token_parts(t).0) {
        Some(c) => m.insert(c, token_parts(t).1),
        None => m,
    }
}

/// The capability map after ingesting a list of tokens in order.
pub open spec fn apply_tokens(
    m: Map<Capability, Option<Seq<u8>>>,
    toks: Seq<Seq<u8>>,
) -> Map<Capability, Option<Seq<u8>>>
    decreases toks.len(),
{
    if toks.len() == 0 {
        m
    } else {
        apply_tokens(apply_token(m, toks[0]), toks.drop_first())
    }
}

/// An advertisement line split at its first NUL: the ref portion, and
/// the capability blob running to the second NUL or the end.
pub open spec fn line_parts(p: Seq<u8>) -> (Seq<u8>, Option<Seq<u8>>) {
    match p.index_of_first(0u8) {
        None => (p, None),
        Some(i) => {
            let rest = p.skip(i + 1);
            match rest.index_of_first(0u8) {
                None => (p.take(i), Some(rest)),
                Some(j) => (p.take(i), Some(rest.take(j))),
            }
        },
    }
}

/// The capability map after ingesting the blob of one line, if the
/// line carries one.
pub open spec fn line_caps_after(
    caps: Map<Capability, Option<Seq<u8>>>,
    p: Seq<u8>,
) -> Map<Capability, Option<Seq<u8>>> {
    match line_parts(p).1 {
        Some(c) => apply_tokens(caps, split_spaces(c)),
        None => caps,
    }
}

/// The ref portion split at its first space into identifier and name;
/// a portion without a space is malformed.
pub open spec fn ref_parts(rp: Seq<u8>) -> Option<(Seq<u8>, Seq<u8>)> {
    match rp.index_of_first(0x20u8) {
        None => None,
        Some(i) => Some((rp.take(i), rp.skip(i + 1))),
    }
}

/// One advertisement line folded into the two maps: the capability
/// blob is ingested; the ref portion must split at a space, and the
/// reference is recorded unless its name is peeled.
pub open spec fn adv_line_spec(
    refs: Map<Seq<u8>, Seq<u8>>,
    caps: Map<Capability, Option<Seq<u8>>>,
    p: Seq<u8>,
) -> Option<(Map<Seq<u8>, Seq<u8>>, Map<Capability, Option<Seq<u8>>>)> {
    match ref_parts(line_parts(p).0) {
        None => None,
        Some(parts) => Some(
            (
                if is_peeled(parts.1) {
                    refs
                } else {
                    refs.insert(parts.1, parts.0)
                },
                line_caps_after(caps, p),
            ),
        ),
    }
}

/// The advertisement read from `lines` starting at `i`: data lines
/// are folded until a flush ends the advertisement.  A delimiter or
/// response-end in this phase is refused; a line without its space is
/// malformed; lines running out before the flush is truncation.
pub open spec fn adv_parse_spec(
    refs: Map<Seq<u8>, Seq<u8>>,
    caps: Map<Capability, Option<Seq<u8>>>,
    lines: Seq<PktView>,
    i: int,
) -> Result<(Map<Seq<u8>, Seq<u8>>, Map<Capability, Option<Seq<u8>>>), ProtoError>
    decreases lines.len() - i,
{
    if i < 0 || i >= lines.len() {
        Err(ProtoError::Truncated)
    } else {
        match lines[i] {
            PktView::Flush => Ok((refs, caps)),
            PktView::Delimiter => Err(ProtoError::UnexpectedPacket),
            PktView::ResponseEnd => Err(ProtoError::UnexpectedPacket),
            PktView::Data(p) => match adv_line_spec(refs, caps, p) {
                None => Err(ProtoError::MalformedLine),
                Some(rc) => adv_parse_spec(rc.0, rc.1, lines, i + 1),
            },
        }
    }
}

/// The capability symbol one token denotes, if any.
pub open spec fn token_sym(t: Seq<u8>) -> Option<Capability> {
    from_token_spec(token_parts(t).0)
}

/// No two tokens of the list denote the same capability symbol.
pub open spec fn distinct_syms(toks: Seq<Seq<u8>>) -> bool {
    forall|i: int, j: int|
        (0 <= i < j < toks.len() && (token_sym(toks[i]) matches Some(_))) ==> token_sym(toks[i])
            != token_sym(toks[j])
}

/// Some token of the list denotes the symbol `c`.
pub open spec fn has_sym(toks: Seq<Seq<u8>>, c: Capability) -> bool {
    exists|i: int| 0 <= i < toks.len() && token_sym(toks[i]) == Some(c)
}

/// What ingesting a token list leaves at each symbol: the value of
/// the (unique) token denoting it, or what the map held before.
proof fn lemma_apply_tokens_lookup(
    m: Map<Capability, Option<Seq<u8>>>,
    toks: Seq<Seq<u8>>,
    c: Capability,
)
    requires
        distinct_syms(toks),
    ensures
        has_sym(toks, c) ==> apply_tokens(m, toks).dom().contains(c) && apply_tokens(m, toks)[c]
            == token_parts(toks[choose|k: int| 0 <= k < toks.len() && token_sym(toks[k]) == Some(c)]).1,
        !has_sym(toks, c) ==> apply_tokens(m, toks).dom().contains(c) == m.dom().contains(c) && (
        m.dom().contains(c) ==> apply_tokens(m, toks)[c] == m[c]),
    decreases toks.len(),
{
    if toks.len() == 0 {
    } else {
        let h = toks[0];
        let tail = toks.drop_first();
        let m2 = apply_token(m, h);
        assert forall|i: int, j: int|
            0 <= i < j < tail.len() && token_sym(tail[i]) matches Some(_) implies token_sym(
            tail[i],
        ) != token_sym(tail[j]) by {
            assert(tail[i] == toks[i + 1]);
            assert(tail[j] == toks[j + 1]);
        }
        lemma_apply_tokens_lookup(m2, tail, c);
        assert(apply_tokens(m, toks) == apply_tokens(m2, tail));
        if token_sym(h) == Some(c) {
            assert(has_sym(toks, c)) by {
                assert(0 <= 0 < toks.len() && token_sym(toks[0]) == Some(c));
            }
            assert(!has_sym(tail, c)) by {
                if has_sym(tail, c) {
                    let i = choose|i: int| 0 <= i < tail.len() && token_sym(tail[i]) == Some(c);
                    assert(tail[i] == toks[i + 1]);
                    assert(token_sym(toks[0]) != token_sym(toks[i + 1]));
                }
            }
            assert(m2.dom().contains(c) && m2[c] == token_parts(h).1);
            let k = choose|k: int| 0 <= k < toks.len() && token_sym(toks[k]) == Some(c);
            assert(k == 0) by {
                if k > 0 {
                    assert(tail[k - 1] == toks[k]);
                    assert(token_sym(tail[k - 1]) == Some(c));
                    assert(has_sym(tail, c));
                }
            }
        } else {
            assert(m2.dom().contains(c) == m.dom().contains(c) && (m.dom().contains(c) ==> m2[c]
                == m[c])) by {
                match from_token_spec(token_parts(h).0) {
                    Some(d) => {
                        assert(d != c);
                    },
                    None => {},
                }
            }
            assert(has_sym(toks, c) == has_sym(tail, c)) by {
                if has_sym(toks, c) {
                    let k = choose|k: int| 0 <= k < toks.len() && token_sym(toks[k]) == Some(c);
                    assert(k != 0);
                    assert(tail[k - 1] == toks[k]);
                    assert(has_sym(tail, c)) by {
                        assert(0 <= k - 1 < tail.len() && token_sym(tail[k - 1]) == Some(c));
                    }
                }
                if has_sym(tail, c) {
                    let j = choose|j: int| 0 <= j < tail.len() && token_sym(tail[j]) == Some(c);
                    assert(tail[j] == toks[j + 1]);
                    assert(has_sym(toks, c)) by {
                        assert(0 <= j + 1 < toks.len() && token_sym(toks[j + 1]) == Some(c));
                    }
                }
            }
            if has_sym(toks, c) {
                let k = choose|k: int| 0 <= k < toks.len() && token_sym(toks[k]) == Some(c);
                let j = choose|j: int| 0 <= j < tail.len() && token_sym(tail[j]) == Some(c);
                assert(tail[j] == toks[j + 1]);
                assert(k != 0);
                assert(k == j + 1) by {
                    if k < j + 1 {
                        assert(token_sym(toks[k]) != token_sym(toks[j + 1]));
                    } else if j + 1 < k {
                        assert(token_sym(toks[j + 1]) != token_sym(toks[k]));
                    }
                }
            }
        }
    }
}

/// Capability insensitivity to order (law): ingesting two token
/// lists that hold the same tokens — in any order — leaves the same
/// capability map, provided no symbol is denoted twice.
pub proof fn lemma_cap_order_insensitive(
    m: Map<Capability, Option<Seq<u8>>>,
    t1: Seq<Seq<u8>>,
    t2: Seq<Seq<u8>>,
)
    requires
        distinct_syms(t1),
        distinct_syms(t2),
        t1.to_multiset() == t2.to_multiset(),
    ensures
        apply_tokens(m, t1) == apply_tokens(m, t2),
{
    t1.to_multiset_ensures();
    t2.to_multiset_ensures();
    assert forall|c: Capability| has_sym(t1, c) implies has_sym(t2, c) by {
        let i = choose|i: int| 0 <= i < t1.len() && token_sym(t1[i]) == Some(c);
        assert(t1.contains(t1[i]));
        assert(t1.to_multiset().count(t1[i]) > 0);
        assert(t2.to_multiset().count(t1[i]) > 0);
        assert(t2.contains(t1[i]));
        let j = choose|j: int| 0 <= j < t2.len() && t2[j] == t1[i];
        assert(0 <= j < t2.len() && token_sym(t2[j]) == Some(c));
    }
    assert forall|c: Capability| has_sym(t2, c) implies has_sym(t1, c) by {
        let i = choose|i: int| 0 <= i < t2.len() && token_sym(t2[i]) == Some(c);
        assert(t2.contains(t2[i]));
        assert(t2.to_multiset().count(t2[i]) > 0);
        assert(t1.to_multiset().count(t2[i]) > 0);
        assert(t1.contains(t2[i]));
        let j = choose|j: int| 0 <= j < t1.len() && t1[j] == t2[i];
        assert(0 <= j < t1.len() && token_sym(t1[j]) == Some(c));
    }
    assert forall|c: Capability| has_sym(t1, c) implies token_parts(
        t1[choose|k: int| 0 <= k < t1.len() && token_sym(t1[k]) == Some(c)],
    ).1 == token_parts(t2[choose|k: int| 0 <= k < t2.len() && token_sym(t2[k]) == Some(c)]).1 by {
        let k1 = choose|k: int| 0 <= k < t1.len() && token_sym(t1[k]) == Some(c);
        let k2 = choose|k: int| 0 <= k < t2.len() && token_sym(t2[k]) == Some(c);
        assert(t1.contains(t1[k1]));
        assert(t1.to_multiset().count(t1[k1]) > 0);
        assert(t2.to_multiset().count(t1[k1]) > 0);
        assert(t2.contains(t1[k1]));
        let j = choose|j: int| 0 <= j < t2.len() && t2[j] == t1[k1];
        assert(token_sym(t2[j]) == Some(c));
        assert(j == k2) by {
            if j < k2 {
                assert(token_sym(t2[j]) != token_sym(t2[k2]));
            } else if k2 < j {
                assert(token_sym(t2[k2]) != token_sym(t2[j]));
            }
        }
    }
    assert forall|c: Capability| true implies #[trigger] apply_tokens(m, t1).dom().contains(c)
        == apply_tokens(m, t2).dom().contains(c) && (apply_tokens(m, t1).dom().contains(c)
        ==> apply_tokens(m, t1)[c] == apply_tokens(m, t2)[c]) by {
        lemma_apply_tokens_lookup(m, t1, c);
        lemma_apply_tokens_lookup(m, t2, c);
    }
    assert(apply_tokens(m, t1) =~= apply_tokens(m, t2));
}

/// Peeled filtering over one line: a reference map without peeled
/// names keeps none after the line is folded in.
proof fn lemma_adv_line_no_peeled(
    refs: Map<Seq<u8>, Seq<u8>>,
    caps: Map<Capability, Option<Seq<u8>>>,
    p: Seq<u8>,
)
    requires
        forall|n: Seq<u8>| refs.dom().contains(n) ==> !is_peeled(n),
    ensures
        adv_line_spec(refs, caps, p) matches Some(rc) ==> forall|n: Seq<u8>|
            rc.0.dom().contains(n) ==> !is_peeled(n),
{
}

/// Peeled filtering (law): starting from a reference map without
/// peeled names, the map an advertisement parse returns holds none
/// either.
pub proof fn lemma_adv_excludes_peeled(
    refs: Map<Seq<u8>, Seq<u8>>,
    caps: Map<Capability, Option<Seq<u8>>>,
    lines: Seq<PktView>,
    i: int,
)
    requires
        forall|n: Seq<u8>| refs.dom().contains(n) ==> !is_peeled(n),
    ensures
        adv_parse_spec(refs, caps, lines, i) matches Ok(rc) ==> forall|n: Seq<u8>|
            rc.0.dom().contains(n) ==> !is_peeled(n),
    decreases lines.len() - i,
{
    if i < 0 || i >= lines.len() {
    } else {
        match lines[i] {
            PktView::Data(p) => {
                match adv_line_spec(refs, caps, p) {
                    None => {},
                    Some(rc) => {
                        lemma_adv_line_no_peeled(refs, caps, p);
                        lemma_adv_excludes_peeled(rc.0, rc.1, lines, i + 1);
                    },
                }
            },
            _ => {},
        }
    }
}

/// Peeled filtering from an empty start: no reference name in a
/// parsed advertisement ends `^{}`.
pub proof fn lemma_peeled_filtering(lines: Seq<PktView>)
    ensures
        adv_parse_spec(
            Map::<Seq<u8>, Seq<u8>>::empty(),
            Map::<Capability, Option<Seq<u8>>>::empty(),
            lines,
            0,
        ) matches Ok(rc) ==> forall|n: Seq<u8>| rc.0.dom().contains(n) ==> !is_peeled(n),
{
    lemma_adv_excludes_peeled(
        Map::<Seq<u8>, Seq<u8>>::empty(),
        Map::<Capability, Option<Seq<u8>>>::empty(),
        lines,
        0,
    );
}

/// Ingesting a token list one head at a time.
proof fn lemma_apply_tokens_step(
    m: Map<Capability, Option<Seq<u8>>>,
    t: Seq<u8>,
    toks: Seq<Seq<u8>>,
)
    ensures
        apply_tokens(m, seq![t] + toks) == apply_tokens(apply_token(m, t), toks),
{
    let whole = seq![t] + toks;
    assert(whole.len() == 1 + toks.len());
    assert(whole[0] == t);
    assert(whole.drop_first() =~= toks);
}

/// Ingests one capability token into the map.
fn apply_one_token(m: &mut CapMap, t: &Vec<u8>)
    requires
        old(m).wf(),
    ensures
        final(m).wf(),
        final(m)@ == apply_token(old(m)@, t@),
{
    proof {
        t@.index_of_first_ensures(0x3du8);
    }
    match find_byte(t, 0x3d) {
        None => {
            match Capability::from_token(t) {
                Some(c) => m.insert(c, None),
                None => (),
            }
        },
        Some(i) => {
            proof {
                assert(t@.index_of_first(0x3du8) == Some(i as int));
            }
            let name = copy_range(t, 0, i);
            let val = copy_range(t, i + 1, t.len());
            match Capability::from_token(&name) {
                Some(c) => m.insert(c, Some(val)),
                None => (),
            }
        },
    }
}

/// Ingests a whole capability blob, splitting it at spaces.
fn ingest_blob(m: &mut CapMap, blob: Vec<u8>)
    requires
        old(m).wf(),
    ensures
        final(m).wf(),
        final(m)@ == apply_tokens(old(m)@, split_spaces(blob@)),
{
    let ghost m0 = old(m)@;
    let ghost whole = blob@;
    let mut rest = blob;
    loop
        invariant_except_break
            apply_tokens(m0, split_spaces(whole)) == apply_tokens(m@, split_spaces(rest@)),
        invariant
            m.wf(),
        ensures
            m.wf(),
            m@ == apply_tokens(m0, split_spaces(whole)),
        decreases rest@.len(),
    {
        proof {
            rest@.index_of_first_ensures(0x20u8);
        }
        match find_byte(&rest, 0x20) {
            None => {
                proof {
                    assert(split_spaces(rest@) == seq![rest@]);
                    assert(seq![rest@] + Seq::<Seq<u8>>::empty() =~= seq![rest@]);
                    lemma_apply_tokens_step(m@, rest@, Seq::<Seq<u8>>::empty());
                }
                apply_one_token(m, &rest);
                break ;
            },
            Some(i) => {
                proof {
                    assert(rest@.index_of_first(0x20u8) == Some(i as int));
                }
                let tok = copy_range(&rest, 0, i);
                let next = copy_range(&rest, i + 1, rest.len());
                proof {
                    assert(split_spaces(rest@) == seq![rest@.take(i as int)] + split_spaces(
                        rest@.skip(i as int + 1),
                    ));
                    lemma_apply_tokens_step(m@, tok@, split_spaces(next@));
                }
                apply_one_token(m, &tok);
                rest = next;
            },
        }
    }
}

/// An advertisement: a reference map and a capability map, produced
/// once per peer at the start of a session.
#[derive(Debug, Clone)]
pub struct RefAdvertisement {
    pub caps: CapMap,
    pub refs: RefMap,
}

impl RefAdvertisement {
    /// Both underlying maps hold pairwise-distinct keys.
    pub open spec fn wf(self) -> bool {
        self.caps.wf() && self.refs.wf()
    }

    /// An advertisement with nothing in it.
    pub fn new() -> (r: RefAdvertisement)
        ensures
            r.wf(),
            r.refs@ == Map::<Seq<u8>, Seq<u8>>::empty(),
            r.caps@ == Map::<Capability, Option<Seq<u8>>>::empty(),
    {
        RefAdvertisement { caps: CapMap::new(), refs: RefMap::new() }
    }

    /// The capability map of this advertisement.
    pub fn caps(&self) -> (r: &CapMap)
        ensures
            *r == self.caps,
    {
        &self.caps
    }

    /// The reference map of this advertisement.
    pub fn refs(&self) -> (r: &RefMap)
        ensures
            *r == self.refs,
    {
        &self.refs
    }

    /// Folds one chomped data line into the advertisement.  The
    /// capability blob is ingested even when the ref portion then
    /// turns out malformed, as the line's processing order has it.
    pub fn process_line(&mut self, payload: &Vec<u8>) -> (r: Result<(), ProtoError>)
        requires
            old(self).wf(),
        ensures
            final(self).wf(),
            match adv_line_spec(old(self).refs@, old(self).caps@, payload@) {
                Some(rc) => r matches Ok(u) && final(self).refs@ == rc.0 && final(self).caps@
                    == rc.1,
                None => r matches Err(e) && e matches ProtoError::MalformedLine
                    && final(self).refs@ == old(self).refs@ && final(self).caps@ == line_caps_after(
                    old(self).caps@,
                    payload@,
                ),
            },
    {
        proof {
            payload@.index_of_first_ensures(0u8);
        }
        let refpart: Vec<u8>;
        match find_byte(payload, 0) {
            None => {
                refpart = copy_range(payload, 0, payload.len());
                proof {
                    assert(refpart@ =~= line_parts(payload@).0);
                }
            },
            Some(i) => {
                proof {
                    assert(payload@.index_of_first(0u8) == Some(i as int));
                }
                let rest = copy_range(payload, i + 1, payload.len());
                proof {
                    rest@.index_of_first_ensures(0u8);
                }
                let blob: Vec<u8> = match find_byte(&rest, 0) {
                    None => rest,
                    Some(j) => {
                        proof {
                            assert(rest@.index_of_first(0u8) == Some(j as int));
                        }
                        copy_range(&rest, 0, j)
                    },
                };
                refpart = copy_range(payload, 0, i);
                proof {
                    assert(refpart@ =~= line_parts(payload@).0);
                    assert(line_parts(payload@).1 == Some(blob@));
                }
                ingest_blob(&mut self.caps, blob);
            },
        }
        proof {
            refpart@.index_of_first_ensures(0x20u8);
        }
        match find_byte(&refpart, 0x20) {
            None => Err(ProtoError::MalformedLine),
            Some(k) => {
                proof {
                    assert(refpart@.index_of_first(0x20u8) == Some(k as int));
                }
                let id = copy_range(&refpart, 0, k);
                let name = copy_range(&refpart, k + 1, refpart.len());
                if !ends_with(&name, &peeled_suffix_bytes()) {
                    self.refs.insert(name, id);
                }
                Ok(())
            },
        }
    }

    /// Reads an advertisement from a list of chomped packets, folding
    /// data lines until the terminating flush.
    pub fn from_packets(lines: &Vec<ProtocolLine>) -> (r: Result<RefAdvertisement, ProtoError>)
        ensures
            match adv_parse_spec(
                Map::<Seq<u8>, Seq<u8>>::empty(),
                Map::<Capability, Option<Seq<u8>>>::empty(),
                views_of(lines@),
                0,
            ) {
                Ok(rc) => r matches Ok(adv) && adv.wf() && adv.refs@ == rc.0 && adv.caps@ == rc.1,
                Err(e) => r matches Err(e2) && e2 == e,
            },
    {
        let ghost vs = views_of(lines@);
        let mut adv = RefAdvertisement::new();
        let mut i: usize = 0;
        while i < lines.len()
            invariant
                i <= lines@.len(),
                adv.wf(),
                vs == views_of(lines@),
                adv_parse_spec(
                    Map::<Seq<u8>, Seq<u8>>::empty(),
                    Map::<Capability, Option<Seq<u8>>>::empty(),
                    vs,
                    0,
                ) == adv_parse_spec(adv.refs@, adv.caps@, vs, i as int),
            decreases lines@.len() - i,
        {
            proof {
                assert(vs[i as int] == lines@[i as int]@);
            }
            match &lines[i] {
                ProtocolLine::Flush => {
                    return Ok(adv);
                },
                ProtocolLine::Delimiter => {
                    return Err(ProtoError::UnexpectedPacket);
                },
                ProtocolLine::ResponseEnd => {
                    return Err(ProtoError::UnexpectedPacket);
                },
                ProtocolLine::Data(p) => {
                    match adv.process_line(p) {
                        Ok(_) => (),
                        Err(e) => {
                            return Err(e);
                        },
                    }
                },
            }
            i += 1;
        }
        Err(ProtoError::Truncated)
    }
}

} // verus!
