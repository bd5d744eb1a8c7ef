//! The pack relay: demultiplexing side-band frames from the source
//! stream.  Each data payload's first byte names a channel: `1` is
//! pack bytes for the destination, `2` is progress for the operator,
//! `3` is a remote error surfaced without aborting; any other channel
//! is ignored with a diagnostic.  A flush ends the transfer; any
//! other sentinel stops the loop defensively.

use vstd::prelude::*;

use crate::packet::views_of;
use crate::bytes::{copy_range, push_all};
use crate::error::ProtoError;
use crate::packet::{decode_packet, decode_spec, PktView, ProtocolLine};
use crate::send::vecs_view;

verus! {

/// One classified side-band frame, abstracted to its channel and
/// bytes.
pub enum BandView {
    Pack(Seq<u8>),
    Progress(Seq<u8>),
    Remote(Seq<u8>),
    Other(u8, Seq<u8>),
}

/// One classified side-band frame: the payload bytes behind the
/// channel tag.
#[derive(Debug, Clone)]
pub enum SideBand {
    /// Channel 1: pack bytes, forwarded verbatim to the destination.
    Pack(Vec<u8>),
    /// Channel 2: a progress string for operator display.
    Progress(Vec<u8>),
    /// Channel 3: a remote error string for operator display; the
    /// transfer is not aborted.
    Remote(Vec<u8>),
    /// Any other channel: ignored, with the tag kept for a
    /// diagnostic.
    Other(u8, Vec<u8>),
}

impl View for SideBand {
    type V = BandView;

    open spec fn view(&self) -> BandView {
        match self {
            SideBand::Pack(b) => BandView::Pack(b@),
            SideBand::Progress(b) => BandView::Progress(b@),
            SideBand::Remote(b) => BandView::Remote(b@),
            SideBand::Other(t, b) => BandView::Other(*t, b@),
        }
    }
}

/// The channel reading of one data payload; an empty payload names no
/// channel at all.
pub open spec fn classify_spec(b: Seq<u8>) -> Option<BandView> {
    if b.len() == 0 {
        None
    } else if b[0] == 1 {
        Some(BandView::Pack(b.skip(1)))
    } else if b[0] == 2 {
        Some(BandView::Progress(b.skip(1)))
    } else if b[0] == 3 {
        Some(BandView::Remote(b.skip(1)))
    } else {
        Some(BandView::Other(b[0], b.skip(1)))
    }
}

/// Reads the side-band channel of one data payload.
pub fn classify_sideband(payload: &Vec<u8>) -> (r: Option<SideBand>)
    ensures
        match classify_spec(payload@) {
            Some(v) => r matches Some(s) && s@ == v,
            None => r matches None,
        },
{
    if payload.len() == 0 {
        return None;
    }
    let tag = payload[0];
    let body = copy_range(payload, 1, payload.len());
    proof {
        assert(body@ =~= payload@.skip(1));
    }
    if tag == 1 {
        Some(SideBand::Pack(body))
    } else if tag == 2 {
        Some(SideBand::Progress(body))
    } else if tag == 3 {
        Some(SideBand::Remote(body))
    } else {
        Some(SideBand::Other(tag, body))
    }
}

/// How a relay pass over a packet list ended.
#[derive(Debug, Clone, Copy, PartialEq, Eq, Structural)]
pub enum RelayEnd {
    /// The transfer ended at its flush.
    Flushed,
    /// A delimiter or response-end stopped the loop defensively.
    Stopped,
    /// The packets ran out before any flush.
    Exhausted,
}

/// What a relay pass owes its caller, in the abstract: the pack bytes
/// in order, the progress and remote-error strings in order, and how
/// the pass ended.
pub struct RelayModel {
    pub pack: Seq<u8>,
    pub progress: Seq<Seq<u8>>,
    pub notes: Seq<Seq<u8>>,
    pub end: RelayEnd,
}

/// What a relay pass collected.
#[derive(Debug, Clone)]
pub struct RelayOutcome {
    /// Channel-1 bytes, concatenated in arrival order.
    pub pack: Vec<u8>,
    /// Channel-2 strings, in arrival order.
    pub progress: Vec<Vec<u8>>,
    /// Channel-3 strings, in arrival order.
    pub notes: Vec<Vec<u8>>,
    /// How the pass ended.
    pub end: RelayEnd,
}

/// The relay pass over `lines` from position `i`: data payloads are
/// demultiplexed by channel until a flush — or, defensively, any
/// other sentinel — ends the pass.  Empty payloads and unknown
/// channels contribute nothing.
pub open spec fn relay_spec(lines: Seq<PktView>, i: int) -> RelayModel
    decreases lines.len() - i,
{
    if i < 0 || i >= lines.len() {
        RelayModel {
            pack: Seq::<u8>::empty(),
            progress: Seq::<Seq<u8>>::empty(),
            notes: Seq::<Seq<u8>>::empty(),
            end: RelayEnd::Exhausted,
        }
    } else {
        match lines[i] {
            PktView::Flush => RelayModel {
                pack: Seq::<u8>::empty(),
                progress: Seq::<Seq<u8>>::empty(),
                notes: Seq::<Seq<u8>>::empty(),
                end: RelayEnd::Flushed,
            },
            PktView::Data(b) => {
                let m = relay_spec(lines, i + 1);
                match classify_spec(b) {
                    Some(BandView::Pack(body)) => RelayModel {
                        pack: body + m.pack,
                        progress: m.progress,
                        notes: m.notes,
                        end: m.end,
                    },
                    Some(BandView::Progress(body)) => RelayModel {
                        pack: m.pack,
                        progress: seq![body] + m.progress,
                        notes: m.notes,
                        end: m.end,
                    },
                    Some(BandView::Remote(body)) => RelayModel {
                        pack: m.pack,
                        progress: m.progress,
                        notes: seq![body] + m.notes,
                        end: m.end,
                    },
                    _ => m,
                }
            },
            _ => RelayModel {
                pack: Seq::<u8>::empty(),
                progress: Seq::<Seq<u8>>::empty(),
                notes: Seq::<Seq<u8>>::empty(),
                end: RelayEnd::Stopped,
            },
        }
    }
}

/// Demultiplexes a whole packet list: the destination's pack bytes,
/// the operator's progress and remote-error strings, and how the
/// pass ended.
pub fn relay_collect(lines: &Vec<ProtocolLine>) -> (r: RelayOutcome)
    ensures
        r.pack@ == relay_spec(views_of(lines@), 0).pack,
        vecs_view(r.progress@) == relay_spec(views_of(lines@), 0).progress,
        vecs_view(r.notes@) == relay_spec(views_of(lines@), 0).notes,
        r.end == relay_spec(views_of(lines@), 0).end,
{
    let ghost vs = views_of(lines@);
    let mut pack: Vec<u8> = Vec::new();
    let mut progress: Vec<Vec<u8>> = Vec::new();
    let mut notes: Vec<Vec<u8>> = Vec::new();
    let mut i: usize = 0;
    while i < lines.len()
        invariant
            i <= lines@.len(),
            vs == views_of(lines@),
            relay_spec(vs, 0).pack == pack@ + relay_spec(vs, i as int).pack,
            relay_spec(vs, 0).progress == vecs_view(progress@) + relay_spec(vs, i as int).progress,
            relay_spec(vs, 0).notes == vecs_view(notes@) + relay_spec(vs, i as int).notes,
            relay_spec(vs, 0).end == relay_spec(vs, i as int).end,
        decreases lines@.len() - i,
    {
        proof {
            assert(vs[i as int] == lines@[i as int]@);
        }
        match &lines[i] {
            ProtocolLine::Flush => {
                proof {
                    assert(pack@ + relay_spec(vs, i as int).pack =~= pack@);
                    assert(vecs_view(progress@) + relay_spec(vs, i as int).progress =~= vecs_view(
                        progress@,
                    ));
                    assert(vecs_view(notes@) + relay_spec(vs, i as int).notes =~= vecs_view(
                        notes@,
                    ));
                }
                return RelayOutcome { pack, progress, notes, end: RelayEnd::Flushed };
            },
            ProtocolLine::Data(b) => {
                match classify_sideband(b) {
                    Some(SideBand::Pack(body)) => {
                        let ghost bodyv = body@;
                        proof {
                            assert((pack@ + bodyv) + relay_spec(vs, i as int + 1).pack =~= pack@ + (
                            bodyv + relay_spec(vs, i as int + 1).pack));
                        }
                        push_all(&mut pack, &body);
                    },
                    Some(SideBand::Progress(body)) => {
                        let ghost bodyv = body@;
                        let ghost p0 = progress@;
                        progress.push(body);
                        proof {
                            assert(vecs_view(progress@) =~= vecs_view(p0).push(bodyv));
                            assert(vecs_view(p0).push(bodyv) + relay_spec(
                                vs,
                                i as int + 1,
                            ).progress =~= vecs_view(p0) + (seq![bodyv] + relay_spec(
                                vs,
                                i as int + 1,
                            ).progress));
                        }
                    },
                    Some(SideBand::Remote(body)) => {
                        let ghost bodyv = body@;
                        let ghost n0 = notes@;
                        notes.push(body);
                        proof {
                            assert(vecs_view(notes@) =~= vecs_view(n0).push(bodyv));
                            assert(vecs_view(n0).push(bodyv) + relay_spec(vs, i as int + 1).notes
                                =~= vecs_view(n0) + (seq![bodyv] + relay_spec(
                                vs,
                                i as int + 1,
                            ).notes));
                        }
                    },
                    _ => (),
                }
            },
            _ => {
                proof {
                    assert(pack@ + relay_spec(vs, i as int).pack =~= pack@);
                    assert(vecs_view(progress@) + relay_spec(vs, i as int).progress =~= vecs_view(
                        progress@,
                    ));
                    assert(vecs_view(notes@) + relay_spec(vs, i as int).notes =~= vecs_view(
                        notes@,
                    ));
                }
                return RelayOutcome { pack, progress, notes, end: RelayEnd::Stopped };
            },
        }
        i += 1;
    }
    proof {
        assert(pack@ + relay_spec(vs, lines@.len() as int).pack =~= pack@);
        assert(vecs_view(progress@) + relay_spec(vs, lines@.len() as int).progress =~= vecs_view(
            progress@,
        ));
        assert(vecs_view(notes@) + relay_spec(vs, lines@.len() as int).notes =~= vecs_view(notes@));
    }
    RelayOutcome { pack, progress, notes, end: RelayEnd::Exhausted }
}

/// A successful decode consumes the four header bytes and the
/// declared payload, never more than the buffer.
pub proof fn lemma_decode_consumes(buf: Seq<u8>, chomp: bool)
    ensures
        decode_spec(buf, chomp) matches Ok(pc) ==> 4 <= pc.1 <= buf.len(),
{
}

/// The per-ref status lines of a `report-status` reply: the buffer is
/// re-framed packet by packet (with newline chomping); data payloads
/// are collected until a flush — `true` — or another sentinel —
/// `false` — ends the report.  A framing fault is the decode error.
pub open spec fn report_spec(buf: Seq<u8>) -> Result<(Seq<Seq<u8>>, bool), ProtoError>
    decreases buf.len(),
    via report_spec_decreases
{
    match decode_spec(buf, true) {
        Err(e) => Err(e),
        Ok(pc) => match pc.0 {
            PktView::Flush => Ok((Seq::<Seq<u8>>::empty(), true)),
            PktView::Delimiter => Ok((Seq::<Seq<u8>>::empty(), false)),
            PktView::ResponseEnd => Ok((Seq::<Seq<u8>>::empty(), false)),
            PktView::Data(b) => match report_spec(buf.skip(pc.1)) {
                Err(e) => Err(e),
                Ok(rest) => Ok((seq![b] + rest.0, rest.1)),
            },
        },
    }
}

#[via_fn]
proof fn report_spec_decreases(buf: Seq<u8>) {
    lemma_decode_consumes(buf, true);
}

/// Re-frames a collected report buffer into its status lines.
pub fn parse_report(buf: &Vec<u8>) -> (r: Result<(Vec<Vec<u8>>, bool), ProtoError>)
    ensures
        match report_spec(buf@) {
            Ok(rest) => r matches Ok(lp) && vecs_view(lp.0@) == rest.0 && lp.1 == rest.1,
            Err(e) => r matches Err(e2) && e2 == e,
        },
{
    let mut lines: Vec<Vec<u8>> = Vec::new();
    let mut rest = copy_range(buf, 0, buf.len());
    proof {
        assert(rest@ =~= buf@);
    }
    loop
        invariant
            report_spec(buf@) == (match report_spec(rest@) {
                Err(e) => Err::<(Seq<Seq<u8>>, bool), ProtoError>(e),
                Ok(sub) => Ok::<(Seq<Seq<u8>>, bool), ProtoError>(
                    (vecs_view(lines@) + sub.0, sub.1),
                ),
            }),
        decreases rest@.len(),
    {
        proof {
            lemma_decode_consumes(rest@, true);
        }
        match decode_packet(&rest, true) {
            Err(e) => {
                return Err(e);
            },
            Ok(pc) => {
                match pc.0 {
                    ProtocolLine::Flush => {
                        proof {
                            assert(vecs_view(lines@) + Seq::<Seq<u8>>::empty() =~= vecs_view(
                                lines@,
                            ));
                        }
                        return Ok((lines, true));
                    },
                    ProtocolLine::Delimiter => {
                        proof {
                            assert(vecs_view(lines@) + Seq::<Seq<u8>>::empty() =~= vecs_view(
                                lines@,
                            ));
                        }
                        return Ok((lines, false));
                    },
                    ProtocolLine::ResponseEnd => {
                        proof {
                            assert(vecs_view(lines@) + Seq::<Seq<u8>>::empty() =~= vecs_view(
                                lines@,
                            ));
                        }
                        return Ok((lines, false));
                    },
                    ProtocolLine::Data(b) => {
                        let ghost bv = b@;
                        let ghost lv0 = lines@;
                        let ghost old_rest = rest@;
                        lines.push(b);
                        let next = copy_range(&rest, pc.1, rest.len());
                        proof {
                            assert(next@ =~= old_rest.skip(pc.1 as int));
                            assert(vecs_view(lines@) =~= vecs_view(lv0).push(bv));
                        }
                        rest = next;
                        proof {
                            match report_spec(rest@) {
                                Err(_) => {},
                                Ok(sub) => {
                                    assert(vecs_view(lv0).push(bv) + sub.0 =~= vecs_view(lv0) + (
                                    seq![bv] + sub.0));
                                },
                            }
                        }
                    },
                }
            },
        }
    }
}

} // verus!
