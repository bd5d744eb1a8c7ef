//! The packet framer: length-prefixed packets ("pkt-line") and their
//! sentinels, encoded to and decoded from plain byte buffers.
//!
//! On the wire a packet is a four-byte lowercase-hex length header,
//! counting the header itself, followed by the payload.  The header
//! values `0000`, `0001` and `0002` are the flush, delimiter and
//! response-end sentinels; `0003` is reserved and refused.

use vstd::prelude::*;

use crate::bytes::push_all;
use crate::error::ProtoError;

verus! {

/// The largest payload a `Data` packet may carry.
pub const MAX_DATA_LEN: usize = 65515;

/// One packet as seen by specifications: three zero-payload sentinels,
/// or a data packet abstracted to the byte sequence it carries.
pub enum PktView {
    Flush,
    Delimiter,
    ResponseEnd,
    Data(Seq<u8>),
}

/// One packet of the wire protocol.  `Data` owns its payload bytes.
#[derive(Debug, Clone)]
pub enum ProtocolLine {
    /// A flush packet is `0000`
    Flush,
    /// A delimiter packet is `0001`
    Delimiter,
    /// A response-end packet is `0002`
    ResponseEnd,
    /// Any other packet carries arbitrary bytes; their meaning is
    /// imposed by the layers above the framer.
    Data(Vec<u8>),
}

impl View for ProtocolLine {
    type V = PktView;

    open spec fn view(&self) -> PktView {
        match self {
            ProtocolLine::Flush => PktView::Flush,
            ProtocolLine::Delimiter => PktView::Delimiter,
            ProtocolLine::ResponseEnd => PktView::ResponseEnd,
            ProtocolLine::Data(payload) => PktView::Data(payload@),
        }
    }
}

impl PartialEq for ProtocolLine {
    fn eq(&self, other: &ProtocolLine) -> (r: bool) {
        match (self, other) {
            (ProtocolLine::Flush, ProtocolLine::Flush) => true,
            (ProtocolLine::Delimiter, ProtocolLine::Delimiter) => true,
            (ProtocolLine::ResponseEnd, ProtocolLine::ResponseEnd) => true,
            (ProtocolLine::Data(a), ProtocolLine::Data(b)) => crate::bytes::bytes_eq(a, b),
            _ => false,
        }
    }
}

impl vstd::std_specs::cmp::PartialEqSpecImpl for ProtocolLine {
    open spec fn obeys_eq_spec() -> bool {
        true
    }

    open spec fn eq_spec(&self, other: &ProtocolLine) -> bool {
        self@ == other@
    }
}

impl ProtocolLine {
    /// Every packet here already owns its bytes, so this is the
    /// identity; it is kept so that callers written against a
    /// borrowing framer keep working.
    pub fn into_owned(self) -> (r: ProtocolLine)
        ensures
            r@ == self@,
    {
        self
    }
}

/// The lowercase-hex digit for a value below sixteen.
pub open spec fn hex_digit(d: u8) -> u8
    recommends
        d < 16,
{
    if d < 10 {
        (0x30 + d) as u8
    } else {
        (0x57 + d) as u8
    }
}

/// The value of one header byte under the lenient hex policy:
/// `0`-`9` and `a`-`f` count; any other byte counts as zero.
pub open spec fn hex_value(b: u8) -> u8 {
    if 0x30 <= b && b <= 0x39 {
        (b - 0x30) as u8
    } else if 0x61 <= b && b <= 0x66 {
        (b - 0x61 + 10) as u8
    } else {
        0
    }
}

/// The four lowercase-hex bytes of a sixteen-bit value.
pub open spec fn hex4(n: u16) -> Seq<u8> {
    seq![
        hex_digit(((n >> 12) & 0xf) as u8),
        hex_digit(((n >> 8) & 0xf) as u8),
        hex_digit(((n >> 4) & 0xf) as u8),
        hex_digit((n & 0xf) as u8),
    ]
}

/// The sixteen-bit value four header bytes declare, under the lenient
/// hex policy.
pub open spec fn header_value(b0: u8, b1: u8, b2: u8, b3: u8) -> u16 {
    (((hex_value(b0) as u16) << 12) | ((hex_value(b1) as u16) << 8) | ((hex_value(b2) as u16)
        << 4) | (hex_value(b3) as u16)) as u16
}

/// The header bytes of the flush sentinel, `0000`.
pub open spec fn flush_header() -> Seq<u8> {
    seq![0x30u8, 0x30u8, 0x30u8, 0x30u8]
}

/// The header bytes of the delimiter sentinel, `0001`.
pub open spec fn delimiter_header() -> Seq<u8> {
    seq![0x30u8, 0x30u8, 0x30u8, 0x31u8]
}

/// The header bytes of the response-end sentinel, `0002`.
pub open spec fn response_end_header() -> Seq<u8> {
    seq![0x30u8, 0x30u8, 0x30u8, 0x32u8]
}

/// The encoding of one packet: the sentinels are their literal
/// headers; a data packet is the hex length header followed by the
/// payload bytes.
pub open spec fn encode_spec(p: PktView) -> Seq<u8>
    recommends
        p matches PktView::Data(b) ==> b.len() <= MAX_DATA_LEN,
{
    match p {
        PktView::Flush => flush_header(),
        PktView::Delimiter => delimiter_header(),
        PktView::ResponseEnd => response_end_header(),
        PktView::Data(b) => hex4((b.len() + 4) as u16) + b,
    }
}

/// What a four-byte header announces: a sentinel, or a payload of the
/// given length.
#[derive(Debug, Clone, Copy, PartialEq, Eq, Structural)]
pub enum PacketHeader {
    Flush,
    Delimiter,
    ResponseEnd,
    Data(u16),
}

/// The meaning of the four bytes `b0 b1 b2 b3` at the head of a
/// packet: the three literal sentinel headers; otherwise the declared
/// length must cover the header itself, and four is subtracted from it
/// to give the payload length.  A declared length below four — the
/// reserved `0003` among them — is refused.
pub open spec fn parse_header_spec(b0: u8, b1: u8, b2: u8, b3: u8) -> Option<PacketHeader> {
    if b0 == 0x30 && b1 == 0x30 && b2 == 0x30 && b3 == 0x30 {
        Some(PacketHeader::Flush)
    } else if b0 == 0x30 && b1 == 0x30 && b2 == 0x30 && b3 == 0x31 {
        Some(PacketHeader::Delimiter)
    } else if b0 == 0x30 && b1 == 0x30 && b2 == 0x30 && b3 == 0x32 {
        Some(PacketHeader::ResponseEnd)
    } else if header_value(b0, b1, b2, b3) >= 4 {
        Some(PacketHeader::Data((header_value(b0, b1, b2, b3) - 4) as u16))
    } else {
        None
    }
}

/// The payload with one trailing newline removed, when present.
pub open spec fn chomp_spec(b: Seq<u8>) -> Seq<u8> {
    if b.len() > 0 && b[b.len() - 1] == 0x0a {
        b.drop_last()
    } else {
        b
    }
}

/// Decoding one packet from the front of `buf`: on success, the packet
/// and the number of bytes it occupied.  `chomp` removes a single
/// trailing newline from a data payload.  The buffer ending before the
/// header or the declared payload is complete is `Truncated`; a header
/// declaring a length below four is `BadLength`.
pub open spec fn decode_spec(buf: Seq<u8>, chomp: bool) -> Result<(PktView, int), ProtoError> {
    if buf.len() < 4 {
        Err(ProtoError::Truncated)
    } else {
        match parse_header_spec(buf[0], buf[1], buf[2], buf[3]) {
            None => Err(ProtoError::BadLength),
            Some(PacketHeader::Flush) => Ok((PktView::Flush, 4)),
            Some(PacketHeader::Delimiter) => Ok((PktView::Delimiter, 4)),
            Some(PacketHeader::ResponseEnd) => Ok((PktView::ResponseEnd, 4)),
            Some(PacketHeader::Data(n)) => {
                if buf.len() < 4 + n {
                    Err(ProtoError::Truncated)
                } else {
                    let payload = buf.subrange(4, 4 + n as int);
                    Ok(
                        (
                            PktView::Data(
                                if chomp {
                                    chomp_spec(payload)
                                } else {
                                    payload
                                },
                            ),
                            4 + n as int,
                        ),
                    )
                }
            },
        }
    }
}

/// The lowercase-hex digit byte for a value below sixteen.
fn hex_digit_exec(d: u8) -> (r: u8)
    requires
        d < 16,
    ensures
        r == hex_digit(d),
{
    if d < 10 {
        0x30 + d
    } else {
        0x57 + d
    }
}

/// The value of one header byte under the lenient hex policy.
fn hex_value_exec(b: u8) -> (r: u8)
    ensures
        r == hex_value(b),
{
    if 0x30 <= b && b <= 0x39 {
        b - 0x30
    } else if 0x61 <= b && b <= 0x66 {
        b - 0x61 + 10
    } else {
        0
    }
}

/// Encodes one packet to its wire bytes.
pub fn encode(p: &ProtocolLine) -> (r: Vec<u8>)
    requires
        p@ matches PktView::Data(b) ==> b.len() <= MAX_DATA_LEN,
    ensures
        r@ == encode_spec(p@),
{
    match p {
        ProtocolLine::Flush => {
            let mut r: Vec<u8> = Vec::new();
            r.push(0x30);
            r.push(0x30);
            r.push(0x30);
            r.push(0x30);
            proof {
                assert(r@ =~= flush_header());
            }
            r
        },
        ProtocolLine::Delimiter => {
            let mut r: Vec<u8> = Vec::new();
            r.push(0x30);
            r.push(0x30);
            r.push(0x30);
            r.push(0x31);
            proof {
                assert(r@ =~= delimiter_header());
            }
            r
        },
        ProtocolLine::ResponseEnd => {
            let mut r: Vec<u8> = Vec::new();
            r.push(0x30);
            r.push(0x30);
            r.push(0x30);
            r.push(0x32);
            proof {
                assert(r@ =~= response_end_header());
            }
            r
        },
        ProtocolLine::Data(b) => {
            let n: u16 = (b.len() + 4) as u16;
            let mut r: Vec<u8> = Vec::new();
            proof {
                assert(((n >> 12) & 0xf) < 16 && ((n >> 8) & 0xf) < 16 && ((n >> 4) & 0xf) < 16 && (
                n & 0xf) < 16) by (bit_vector);
            }
            r.push(hex_digit_exec(((n >> 12) & 0xf) as u8));
            r.push(hex_digit_exec(((n >> 8) & 0xf) as u8));
            r.push(hex_digit_exec(((n >> 4) & 0xf) as u8));
            r.push(hex_digit_exec((n & 0xf) as u8));
            proof {
                assert(r@ =~= hex4(n));
            }
            push_all(&mut r, b);
            r
        },
    }
}

/// Reads the meaning of the four bytes at the head of `h`.
pub fn parse_header(h: &Vec<u8>) -> (r: Result<PacketHeader, ProtoError>)
    requires
        h@.len() >= 4,
    ensures
        r == match parse_header_spec(h@[0], h@[1], h@[2], h@[3]) {
            Some(ph) => Ok::<PacketHeader, ProtoError>(ph),
            None => Err::<PacketHeader, ProtoError>(ProtoError::BadLength),
        },
{
    let b0 = h[0];
    let b1 = h[1];
    let b2 = h[2];
    let b3 = h[3];
    if b0 == 0x30 && b1 == 0x30 && b2 == 0x30 {
        if b3 == 0x30 {
            return Ok(PacketHeader::Flush);
        }
        if b3 == 0x31 {
            return Ok(PacketHeader::Delimiter);
        }
        if b3 == 0x32 {
            return Ok(PacketHeader::ResponseEnd);
        }
    }
    let v: u16 = ((hex_value_exec(b0) as u16) << 12) | ((hex_value_exec(b1) as u16) << 8) | ((
    hex_value_exec(b2) as u16) << 4) | (hex_value_exec(b3) as u16);
    if v >= 4 {
        Ok(PacketHeader::Data(v - 4))
    } else {
        Err(ProtoError::BadLength)
    }
}

/// Decodes one packet from the front of `buf`, returning the packet
/// and the number of bytes consumed.
pub fn decode_packet(buf: &Vec<u8>, chomp: bool) -> (r: Result<(ProtocolLine, usize), ProtoError>)
    ensures
        match decode_spec(buf@, chomp) {
            Ok(pc) => r matches Ok(rc) && rc.0@ == pc.0 && rc.1 as int == pc.1,
            Err(e) => r matches Err(e2) && e2 == e,
        },
{
    if buf.len() < 4 {
        return Err(ProtoError::Truncated);
    }
    let header = match parse_header(buf) {
        Ok(ph) => ph,
        Err(e) => { return Err(e) },
    };
    match header {
        PacketHeader::Flush => Ok((ProtocolLine::Flush, 4)),
        PacketHeader::Delimiter => Ok((ProtocolLine::Delimiter, 4)),
        PacketHeader::ResponseEnd => Ok((ProtocolLine::ResponseEnd, 4)),
        PacketHeader::Data(n) => {
            let need: usize = 4 + n as usize;
            if buf.len() < need {
                return Err(ProtoError::Truncated);
            }
            let mut payload = crate::bytes::copy_range(buf, 4, need);
            if chomp {
                if payload.len() > 0 && payload[payload.len() - 1] == 0x0a {
                    payload.pop();
                }
            }
            Ok((ProtocolLine::Data(payload), need))
        },
    }
}


/// The view of each packet in a list.
pub open spec fn views_of(s: Seq<ProtocolLine>) -> Seq<PktView> {
    s.map_values(|l: ProtocolLine| l@)
}

/// A packet the encoder accepts: a data payload within the four-hex
/// bound, or any sentinel.
pub open spec fn encodable(p: PktView) -> bool {
    p matches PktView::Data(b) ==> b.len() <= MAX_DATA_LEN
}

/// The concatenated encodings of a packet list, in order.
pub open spec fn encode_all_spec(lines: Seq<PktView>) -> Seq<u8>
    decreases lines.len(),
{
    if lines.len() == 0 {
        Seq::<u8>::empty()
    } else {
        encode_all_spec(lines.drop_last()) + encode_spec(lines.last())
    }
}

/// Encodes a whole packet list to its wire bytes.
pub fn encode_lines(lines: &Vec<ProtocolLine>) -> (r: Vec<u8>)
    requires
        forall|i: int| 0 <= i < lines@.len() ==> encodable(#[trigger] lines@[i]@),
    ensures
        r@ == encode_all_spec(views_of(lines@)),
{
    let ghost vs = views_of(lines@);
    let mut r: Vec<u8> = Vec::new();
    let mut i: usize = 0;
    while i < lines.len()
        invariant
            i <= lines@.len(),
            vs == views_of(lines@),
            forall|j: int| 0 <= j < lines@.len() ==> encodable(#[trigger] lines@[j]@),
            r@ == encode_all_spec(vs.take(i as int)),
        decreases lines@.len() - i,
    {
        let e = encode(&lines[i]);
        push_all(&mut r, &e);
        proof {
            assert(vs.take(i as int + 1).drop_last() =~= vs.take(i as int));
            assert(vs.take(i as int + 1).last() == lines@[i as int]@);
        }
        i += 1;
    }
    proof {
        assert(vs.take(lines@.len() as int) =~= vs);
    }
    r
}

proof fn lemma_hex_value_of_digit(d: u8)
    requires
        d < 16,
    ensures
        hex_value(hex_digit(d)) == d,
{
}

/// Decoding the encoding of a data packet consumes the whole
/// encoding and yields the payload, chomped or raw as asked.
proof fn lemma_decode_encode_data(b: Seq<u8>, chomp: bool)
    requires
        b.len() <= MAX_DATA_LEN,
    ensures
        decode_spec(encode_spec(PktView::Data(b)), chomp) == Ok::<(PktView, int), ProtoError>(
            (
                PktView::Data(
                    if chomp {
                        chomp_spec(b)
                    } else {
                        b
                    },
                ),
                b.len() + 4 as int,
            ),
        ),
{
    let n = (b.len() + 4) as u16;
    let e = encode_spec(PktView::Data(b));
    assert(e == hex4(n) + b);
    assert(e.len() == 4 + b.len());
    assert(e[0] == hex4(n)[0] && e[1] == hex4(n)[1] && e[2] == hex4(n)[2] && e[3] == hex4(n)[3]);
    lemma_hex4_round_trip(n);
    assert(header_value(e[0], e[1], e[2], e[3]) == n);
    assert((((0u8 as u16) << 12) | ((0u8 as u16) << 8) | ((0u8 as u16) << 4) | (0u8 as u16))
        == 0u16) by (bit_vector);
    assert((((0u8 as u16) << 12) | ((0u8 as u16) << 8) | ((0u8 as u16) << 4) | (1u8 as u16))
        == 1u16) by (bit_vector);
    assert((((0u8 as u16) << 12) | ((0u8 as u16) << 8) | ((0u8 as u16) << 4) | (2u8 as u16))
        == 2u16) by (bit_vector);
    assert(!(e[0] == 0x30 && e[1] == 0x30 && e[2] == 0x30 && e[3] == 0x30));
    assert(!(e[0] == 0x30 && e[1] == 0x30 && e[2] == 0x30 && e[3] == 0x31));
    assert(!(e[0] == 0x30 && e[1] == 0x30 && e[2] == 0x30 && e[3] == 0x32));
    assert(parse_header_spec(e[0], e[1], e[2], e[3]) == Some(
        PacketHeader::Data((n - 4) as u16),
    ));
    assert(e.subrange(4, 4 + b.len() as int) =~= b);
}

/// Encoding a data packet and decoding the bytes without chomping
/// yields the packet back, having consumed exactly its encoding.
pub proof fn lemma_frame_round_trip(b: Seq<u8>)
    requires
        b.len() <= MAX_DATA_LEN,
    ensures
        decode_spec(encode_spec(PktView::Data(b)), false) == Ok::<(PktView, int), ProtoError>(
            (PktView::Data(b), b.len() + 4 as int),
        ),
{
    lemma_decode_encode_data(b, false);
}

/// Encoding any sentinel and decoding the bytes yields the same
/// sentinel, whether or not newline chomping is asked for.
pub proof fn lemma_sentinel_round_trip(p: PktView, chomp: bool)
    requires
        !(p matches PktView::Data(_)),
    ensures
        decode_spec(encode_spec(p), chomp) == Ok::<(PktView, int), ProtoError>((p, 4)),
{
}

/// A payload that does not end in a newline decodes to the same bytes
/// with and without chomping.
pub proof fn lemma_chomp_idempotent(b: Seq<u8>)
    requires
        b.len() <= MAX_DATA_LEN,
        b.len() > 0 ==> b[b.len() - 1] != 0x0a,
    ensures
        decode_spec(encode_spec(PktView::Data(b)), true) == decode_spec(
            encode_spec(PktView::Data(b)),
            false,
        ),
{
    lemma_decode_encode_data(b, true);
    lemma_decode_encode_data(b, false);
    assert(chomp_spec(b) == b);
}

/// Reading back the four hex digits of a value yields that value.
pub proof fn lemma_hex4_round_trip(n: u16)
    ensures
        header_value(hex4(n)[0], hex4(n)[1], hex4(n)[2], hex4(n)[3]) == n,
{
    assert(((n >> 12) & 0xf) < 16 && ((n >> 8) & 0xf) < 16 && ((n >> 4) & 0xf) < 16 && (n & 0xf)
        < 16) by (bit_vector);
    lemma_hex_value_of_digit(((n >> 12) & 0xf) as u8);
    lemma_hex_value_of_digit(((n >> 8) & 0xf) as u8);
    lemma_hex_value_of_digit(((n >> 4) & 0xf) as u8);
    lemma_hex_value_of_digit((n & 0xf) as u8);
    assert((((((((n >> 12) & 0xf) as u8) as u16) << 12) | (((((n >> 8) & 0xf) as u8) as u16) << 8)
        | (((((n >> 4) & 0xf) as u8) as u16) << 4) | (((n & 0xf) as u8) as u16)) as u16) == n)
        by (bit_vector);
}

} // verus!
