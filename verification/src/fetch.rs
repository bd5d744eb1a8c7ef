//! The fetch negotiator: the one-shot `want`/`have`/`done` dialogue.
//!
//! Because the multi-acknowledgement capabilities are never attached,
//! the server must answer the `done` with a single `NAK`, collapsing
//! negotiation to one exchange.  The caller writes the packets this
//! module computes, and checks the one reply with [`check_nak`].

use vstd::prelude::*;

use crate::packet::views_of;
use crate::bytes::{bytes_eq, copy_range, is_prefix, push_all, starts_with};
use crate::caps::{CapEntry, Capability};
use crate::error::ProtoError;
use crate::packet::{PktView, ProtocolLine};
use crate::send::{cap_item, vecs_view};

verus! {

/// The bytes of `want ` (with its trailing space).
pub open spec fn want_prefix() -> Seq<u8> {
    seq![0x77u8, 0x61u8, 0x6eu8, 0x74u8, 0x20u8]
}

/// The bytes of `have ` (with its trailing space).
pub open spec fn have_prefix() -> Seq<u8> {
    seq![0x68u8, 0x61u8, 0x76u8, 0x65u8, 0x20u8]
}

/// The bytes of `done`.
pub open spec fn done_bytes() -> Seq<u8> {
    seq![0x64u8, 0x6fu8, 0x6eu8, 0x65u8]
}

/// The bytes of `NAK`.
pub open spec fn nak_bytes() -> Seq<u8> {
    seq![0x4eu8, 0x41u8, 0x4bu8]
}

/// The bytes of `ERR ` (with its trailing space).
pub open spec fn err_prefix() -> Seq<u8> {
    seq![0x45u8, 0x52u8, 0x52u8, 0x20u8]
}

/// The capability suffix of the first `want` line: each capability
/// behind a single space, values attached with `=`.
pub open spec fn want_caps_from(caps: Seq<CapEntry>, i: int) -> Seq<u8>
    decreases caps.len() - i,
{
    if i < 0 || i >= caps.len() {
        Seq::<u8>::empty()
    } else {
        seq![0x20u8] + cap_item(caps[i]) + want_caps_from(caps, i + 1)
    }
}

/// The whole capability suffix of the first `want` line.
pub open spec fn want_caps_spec(caps: Seq<CapEntry>) -> Seq<u8> {
    want_caps_from(caps, 0)
}

/// One `want` line: the identifier, the capability suffix on the
/// first line alone.
pub open spec fn want_line(id: Seq<u8>, caps: Seq<CapEntry>, first: bool) -> Seq<u8> {
    want_prefix() + id + (if first {
        want_caps_spec(caps)
    } else {
        Seq::<u8>::empty()
    })
}

/// The `want` packets, one per wanted identifier.
pub open spec fn want_pkts(want: Seq<Seq<u8>>, caps: Seq<CapEntry>) -> Seq<PktView> {
    Seq::new(want.len(), |i: int| PktView::Data(want_line(want[i], caps, i == 0)))
}

/// The `have` packets, one per held identifier.
pub open spec fn have_pkts(have: Seq<Seq<u8>>) -> Seq<PktView> {
    Seq::new(have.len(), |i: int| PktView::Data(have_prefix() + have[i]))
}

/// Everything the negotiator writes: with no wants, a lone flush and
/// the dialogue is over; otherwise the `want` lines, a flush, the
/// `have` lines, and `done`.
pub open spec fn negotiation_lines(
    want: Seq<Seq<u8>>,
    have: Seq<Seq<u8>>,
    caps: Seq<CapEntry>,
) -> Seq<PktView> {
    if want.len() == 0 {
        seq![PktView::Flush]
    } else {
        want_pkts(want, caps) + seq![PktView::Flush] + have_pkts(have) + seq![
            PktView::Data(done_bytes()),
        ]
    }
}

/// A capability list the negotiator refuses: one naming either
/// multi-acknowledgement variant, whose interactive rounds this
/// dialogue deliberately omits.
pub open spec fn caps_forbidden(caps: Seq<CapEntry>) -> bool {
    exists|i: int|
        0 <= i < caps.len() && ((#[trigger] caps[i].cap) == Capability::MultiAck || caps[i].cap
            == Capability::MultiAckDetailed)
}

/// Builds the capability suffix of the first `want` line.
fn want_caps(caps: &Vec<CapEntry>) -> (r: Vec<u8>)
    ensures
        r@ == want_caps_spec(caps@),
{
    let mut r: Vec<u8> = Vec::new();
    let mut i: usize = 0;
    while i < caps.len()
        invariant
            i <= caps@.len(),
            r@ + want_caps_from(caps@, i as int) == want_caps_spec(caps@),
        decreases caps@.len() - i,
    {
        let ghost r0 = r@;
        r.push(0x20);
        let tok = caps[i].cap.token_bytes();
        push_all(&mut r, &tok);
        match &caps[i].val {
            Some(v) => {
                r.push(0x3d);
                push_all(&mut r, v);
                proof {
                    assert(r@ =~= r0 + (seq![0x20u8] + cap_item(caps@[i as int])));
                }
            },
            None => {
                proof {
                    assert(cap_item(caps@[i as int]) =~= crate::caps::token_spec(
                        caps@[i as int].cap,
                    ));
                    assert(r@ =~= r0 + (seq![0x20u8] + cap_item(caps@[i as int])));
                }
            },
        }
        proof {
            assert((r0 + (seq![0x20u8] + cap_item(caps@[i as int]))) + want_caps_from(
                caps@,
                i as int + 1,
            ) =~= r0 + ((seq![0x20u8] + cap_item(caps@[i as int])) + want_caps_from(
                caps@,
                i as int + 1,
            )));
            assert((seq![0x20u8] + cap_item(caps@[i as int])) + want_caps_from(caps@, i as int + 1)
                =~= want_caps_from(caps@, i as int));
        }
        i += 1;
    }
    r
}

/// Owned bytes of the `want ` prefix.
fn want_prefix_bytes() -> (r: Vec<u8>)
    ensures
        r@ == want_prefix(),
{
    let mut r: Vec<u8> = Vec::new();
    r.push(0x77);
    r.push(0x61);
    r.push(0x6e);
    r.push(0x74);
    r.push(0x20);
    proof {
        assert(r@ =~= want_prefix());
    }
    r
}

/// Owned bytes of the `have ` prefix.
fn have_prefix_bytes() -> (r: Vec<u8>)
    ensures
        r@ == have_prefix(),
{
    let mut r: Vec<u8> = Vec::new();
    r.push(0x68);
    r.push(0x61);
    r.push(0x76);
    r.push(0x65);
    r.push(0x20);
    proof {
        assert(r@ =~= have_prefix());
    }
    r
}

/// Owned bytes of `done`.
fn done_bytes_vec() -> (r: Vec<u8>)
    ensures
        r@ == done_bytes(),
{
    let mut r: Vec<u8> = Vec::new();
    r.push(0x64);
    r.push(0x6f);
    r.push(0x6e);
    r.push(0x65);
    proof {
        assert(r@ =~= done_bytes());
    }
    r
}

/// Owned bytes of `NAK`.
pub fn nak_bytes_vec() -> (r: Vec<u8>)
    ensures
        r@ == nak_bytes(),
{
    let mut r: Vec<u8> = Vec::new();
    r.push(0x4e);
    r.push(0x41);
    r.push(0x4b);
    proof {
        assert(r@ =~= nak_bytes());
    }
    r
}

/// Owned bytes of the `ERR ` prefix.
fn err_prefix_bytes() -> (r: Vec<u8>)
    ensures
        r@ == err_prefix(),
{
    let mut r: Vec<u8> = Vec::new();
    r.push(0x45);
    r.push(0x52);
    r.push(0x52);
    r.push(0x20);
    proof {
        assert(r@ =~= err_prefix());
    }
    r
}

/// Computes the packets that request a pack holding the wanted
/// objects minus the held ones, and whether a pack is to be expected:
/// with no wants, the dialogue is a lone flush and no pack follows.
/// A capability list naming a multi-acknowledgement variant is
/// refused outright.
pub fn request_pack(want: &Vec<Vec<u8>>, have: &Vec<Vec<u8>>, caps: &Vec<CapEntry>) -> (r: Result<
    (Vec<ProtocolLine>, bool),
    ProtoError,
>)
    ensures
        caps_forbidden(caps@) ==> (r matches Err(e) && e matches ProtoError::ForbiddenCapability),
        !caps_forbidden(caps@) ==> (r matches Ok(lp) && views_of(lp.0@) == negotiation_lines(
            vecs_view(want@),
            vecs_view(have@),
            caps@,
        ) && lp.1 == (want@.len() > 0)),
{
    let mut ci: usize = 0;
    while ci < caps.len()
        invariant
            ci <= caps@.len(),
            forall|j: int|
                0 <= j < ci ==> (#[trigger] caps@[j].cap) != Capability::MultiAck && caps@[j].cap
                    != Capability::MultiAckDetailed,
        decreases caps@.len() - ci,
    {
        let c = caps[ci].cap;
        if c == Capability::MultiAck || c == Capability::MultiAckDetailed {
            proof {
                assert(caps_forbidden(caps@)) by {
                    assert(0 <= ci < caps@.len() && (caps@[ci as int].cap == Capability::MultiAck
                        || caps@[ci as int].cap == Capability::MultiAckDetailed));
                }
            }
            return Err(ProtoError::ForbiddenCapability);
        }
        ci += 1;
    }
    proof {
        if caps_forbidden(caps@) {
            let w = choose|w: int|
                0 <= w < caps@.len() && ((#[trigger] caps@[w].cap) == Capability::MultiAck
                    || caps@[w].cap == Capability::MultiAckDetailed);
        }
    }
    let mut lines: Vec<ProtocolLine> = Vec::new();
    if want.len() == 0 {
        lines.push(ProtocolLine::Flush);
        proof {
            assert(views_of(lines@) =~= negotiation_lines(
                vecs_view(want@),
                vecs_view(have@),
                caps@,
            ));
        }
        return Ok((lines, false));
    }
    let wp = want_prefix_bytes();
    let suffix = want_caps(caps);
    let mut i: usize = 0;
    while i < want.len()
        invariant
            i <= want@.len(),
            want@.len() > 0,
            wp@ == want_prefix(),
            suffix@ == want_caps_spec(caps@),
            views_of(lines@) == want_pkts(vecs_view(want@), caps@).take(i as int),
        decreases want@.len() - i,
    {
        let ghost l0 = lines@;
        let mut payload: Vec<u8> = Vec::new();
        push_all(&mut payload, &wp);
        push_all(&mut payload, &want[i]);
        if i == 0 {
            push_all(&mut payload, &suffix);
        }
        proof {
            assert(payload@ =~= want_line(vecs_view(want@)[i as int], caps@, i == 0));
        }
        lines.push(ProtocolLine::Data(payload));
        proof {
            assert(views_of(lines@) =~= views_of(l0).push(
                PktView::Data(want_line(vecs_view(want@)[i as int], caps@, i == 0)),
            ));
            assert(views_of(l0).push(
                PktView::Data(want_line(vecs_view(want@)[i as int], caps@, i == 0)),
            ) =~= want_pkts(vecs_view(want@), caps@).take(i as int + 1));
        }
        i += 1;
    }
    let ghost after_want = lines@;
    proof {
        assert(want_pkts(vecs_view(want@), caps@).take(want@.len() as int) =~= want_pkts(
            vecs_view(want@),
            caps@,
        ));
    }
    lines.push(ProtocolLine::Flush);
    let ghost after_flush = lines@;
    proof {
        assert(views_of(after_flush) =~= views_of(after_want).push(PktView::Flush));
    }
    let hp = have_prefix_bytes();
    let mut j: usize = 0;
    while j < have.len()
        invariant
            j <= have@.len(),
            hp@ == have_prefix(),
            after_flush == lines@.take(after_flush.len() as int),
            lines@.len() == after_flush.len() + j,
            views_of(lines@) == views_of(after_flush) + have_pkts(vecs_view(have@)).take(j as int),
        decreases have@.len() - j,
    {
        let ghost l0 = lines@;
        let mut payload: Vec<u8> = Vec::new();
        push_all(&mut payload, &hp);
        push_all(&mut payload, &have[j]);
        proof {
            assert(payload@ =~= have_prefix() + vecs_view(have@)[j as int]);
        }
        lines.push(ProtocolLine::Data(payload));
        proof {
            assert(views_of(lines@) =~= views_of(l0).push(
                PktView::Data(have_prefix() + vecs_view(have@)[j as int]),
            ));
            assert(views_of(l0).push(PktView::Data(have_prefix() + vecs_view(have@)[j as int]))
                =~= views_of(after_flush) + have_pkts(vecs_view(have@)).take(j as int + 1));
            assert(l0.take(after_flush.len() as int) =~= lines@.take(after_flush.len() as int));
        }
        j += 1;
    }
    let ghost l1 = lines@;
    let done = done_bytes_vec();
    lines.push(ProtocolLine::Data(done));
    proof {
        assert(have_pkts(vecs_view(have@)).take(have@.len() as int) =~= have_pkts(
            vecs_view(have@),
        ));
        assert(views_of(lines@) =~= views_of(l1).push(PktView::Data(done_bytes())));
        assert(views_of(l1).push(PktView::Data(done_bytes())) =~= negotiation_lines(
            vecs_view(want@),
            vecs_view(have@),
            caps@,
        ));
    }
    Ok((lines, true))
}

/// What the reply to `done` means: the single `NAK` payload is the
/// expected acknowledgement; an `ERR ` payload is a server-side
/// fatal, surfaced with its message; anything else is a protocol
/// error.
pub open spec fn nak_reply_matches(p: PktView, r: Result<(), ProtoError>) -> bool {
    match p {
        PktView::Data(b) => {
            if b == nak_bytes() {
                r == Ok::<(), ProtoError>(())
            } else if is_prefix(b, err_prefix()) {
                r matches Err(e) && e matches ProtoError::RemoteFatal(m) && m@ == b.skip(4)
            } else {
                r matches Err(e) && e matches ProtoError::MissingNak
            }
        },
        _ => r matches Err(e) && e matches ProtoError::MissingNak,
    }
}

/// Checks the single packet read after `done`.
pub fn check_nak(line: &ProtocolLine) -> (r: Result<(), ProtoError>)
    ensures
        nak_reply_matches(line@, r),
{
    match line {
        ProtocolLine::Data(b) => {
            let nak = nak_bytes_vec();
            if bytes_eq(b, &nak) {
                Ok(())
            } else {
                let ep = err_prefix_bytes();
                if starts_with(b, &ep) {
                    let msg = copy_range(b, 4, b.len());
                    proof {
                        assert(msg@ =~= b@.skip(4));
                    }
                    Err(ProtoError::RemoteFatal(msg))
                } else {
                    Err(ProtoError::MissingNak)
                }
            }
        },
        _ => Err(ProtoError::MissingNak),
    }
}

} // verus!
