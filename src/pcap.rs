//! The capture container: a 24-byte global header, then frame records of
//! a 16-byte record header followed by the captured bytes. Every integer
//! is little-endian.
use vstd::prelude::*;
use vstd::slice::slice_subrange;
use vstd::slice::slice_to_vec;

verus! {

pub const PCAP_HEADER_LEN: usize = 24;

pub const PCAP_RECORD_HEADER_LEN: usize = 16;

pub const PCAP_MAGIC: u32 = 0xa1b2c3d4;

/// Why a buffer or a frame could not be processed.
#[derive(Clone, Copy, Debug, PartialEq, Eq, Structural)]
pub enum PcapError {
    /// The buffer is shorter than a global header, or its magic number is wrong.
    NotAContainer,
    /// A frame is too short for the layer asked for, or its payload length
    /// disagrees with its declared captured length.
    MalformedFrame,
}

pub open spec fn u16_from_le(b0: u8, b1: u8) -> u16 {
    (b0 as u16) | ((b1 as u16) << 8u16)
}

pub open spec fn u32_from_le(b0: u8, b1: u8, b2: u8, b3: u8) -> u32 {
    (b0 as u32) | ((b1 as u32) << 8u32) | ((b2 as u32) << 16u32) | ((b3 as u32) << 24u32)
}

pub open spec fn le_u16_at(b: Seq<u8>, i: int) -> u16 {
    u16_from_le(b[i], b[i + 1])
}

pub open spec fn le_u32_at(b: Seq<u8>, i: int) -> u32 {
    u32_from_le(b[i], b[i + 1], b[i + 2], b[i + 3])
}

pub open spec fn u16_le_bytes(x: u16) -> Seq<u8> {
    seq![x as u8, (x >> 8u16) as u8]
}

pub open spec fn u32_le_bytes(x: u32) -> Seq<u8> {
    seq![x as u8, (x >> 8u32) as u8, (x >> 16u32) as u8, (x >> 24u32) as u8]
}

proof fn lemma_u16_le(x: u16, b0: u8, b1: u8)
    ensures
        u16_from_le(x as u8, (x >> 8u16) as u8) == x,
        u16_from_le(b0, b1) as u8 == b0,
        (u16_from_le(b0, b1) >> 8u16) as u8 == b1,
{
    assert(((x as u8) as u16) | ((((x >> 8u16) as u8) as u16) << 8u16) == x) by (bit_vector);
    assert((((b0 as u16) | ((b1 as u16) << 8u16)) as u8) == b0) by (bit_vector);
    assert(((((b0 as u16) | ((b1 as u16) << 8u16)) >> 8u16) as u8) == b1) by (bit_vector);
}

proof fn lemma_u32_le(x: u32, b0: u8, b1: u8, b2: u8, b3: u8)
    ensures
        u32_from_le(x as u8, (x >> 8u32) as u8, (x >> 16u32) as u8, (x >> 24u32) as u8) == x,
        u32_from_le(b0, b1, b2, b3) as u8 == b0,
        (u32_from_le(b0, b1, b2, b3) >> 8u32) as u8 == b1,
        (u32_from_le(b0, b1, b2, b3) >> 16u32) as u8 == b2,
        (u32_from_le(b0, b1, b2, b3) >> 24u32) as u8 == b3,
{
    assert(((x as u8) as u32) | ((((x >> 8u32) as u8) as u32) << 8u32) | ((((x >> 16u32) as u8) as u32) << 16u32)
        | ((((x >> 24u32) as u8) as u32) << 24u32) == x) by (bit_vector);
    let w = u32_from_le(b0, b1, b2, b3);
    assert(w == (b0 as u32) | ((b1 as u32) << 8u32) | ((b2 as u32) << 16u32) | ((b3 as u32) << 24u32));
    assert(w as u8 == b0 && (w >> 8u32) as u8 == b1 && (w >> 16u32) as u8 == b2 && (w >> 24u32) as u8 == b3)
        by (bit_vector)
        requires
            w == (b0 as u32) | ((b1 as u32) << 8u32) | ((b2 as u32) << 16u32) | ((b3 as u32) << 24u32),
    ;
}


/// The global header. The last 4-byte word packs, from its high bit down,
/// a 3-bit frame-check-sequence count, a 1-bit flag and a 28-bit link type.
#[derive(Clone, Copy, Debug, PartialEq, Eq, Structural)]
pub struct PcapHeader {
    pub magic: u32,
    pub major: u16,
    pub minor: u16,
    pub resv1: u32,
    pub resv2: u32,
    pub snaplen: u32,
    pub fcs: u8,
    pub f: u8,
    pub linktype: u32,
}

pub open spec fn packed_word(fcs: u8, f: u8, linktype: u32) -> u32 {
    ((fcs as u32) << 29u32) | ((f as u32) << 28u32) | linktype
}

/// The header that the first 24 bytes of `b` hold.
pub open spec fn header_of(b: Seq<u8>) -> PcapHeader {
    let w = le_u32_at(b, 20);
    PcapHeader {
        magic: le_u32_at(b, 0),
        major: le_u16_at(b, 4),
        minor: le_u16_at(b, 6),
        resv1: le_u32_at(b, 8),
        resv2: le_u32_at(b, 12),
        snaplen: le_u32_at(b, 16),
        fcs: (w >> 29u32) as u8,
        f: ((w >> 28u32) & 1u32) as u8,
        linktype: w & 0x0fff_ffffu32,
    }
}

/// The 24 bytes that encode `h`.
pub open spec fn header_bytes(h: PcapHeader) -> Seq<u8> {
    u32_le_bytes(h.magic) + u16_le_bytes(h.major) + u16_le_bytes(h.minor) + u32_le_bytes(h.resv1)
        + u32_le_bytes(h.resv2) + u32_le_bytes(h.snaplen) + u32_le_bytes(
        packed_word(h.fcs, h.f, h.linktype),
    )
}

proof fn lemma_packed_word(w: u32, fcs: u8, f: u8, linktype: u32)
    ensures
        packed_word((w >> 29u32) as u8, ((w >> 28u32) & 1u32) as u8, w & 0x0fff_ffffu32) == w,
        (w >> 29u32) < 8,
        ((w >> 28u32) & 1u32) < 2,
        (w & 0x0fff_ffffu32) < 0x1000_0000,
        fcs < 8 && f < 2 && linktype < 0x1000_0000 ==> {
            let p = packed_word(fcs, f, linktype);
            &&& (p >> 29u32) as u8 == fcs
            &&& ((p >> 28u32) & 1u32) as u8 == f
            &&& p & 0x0fff_ffffu32 == linktype
        },
{
    assert((((((w >> 29u32) as u8) as u32) << 29u32) | (((((w >> 28u32) & 1u32) as u8) as u32) << 28u32) | (w
        & 0x0fff_ffffu32)) == w) by (bit_vector);
    assert((w >> 29u32) < 8 && ((w >> 28u32) & 1u32) < 2 && (w & 0x0fff_ffffu32) < 0x1000_0000) by (bit_vector);
    assert(fcs < 8 && f < 2 && linktype < 0x1000_0000 ==> {
        let p = ((fcs as u32) << 29u32) | ((f as u32) << 28u32) | linktype;
        &&& (p >> 29u32) as u8 == fcs
        &&& ((p >> 28u32) & 1u32) as u8 == f
        &&& p & 0x0fff_ffffu32 == linktype
    }) by (bit_vector);
}

impl PcapHeader {
    /// Each packed field fits its width.
    pub open spec fn wf(&self) -> bool {
        self.fcs < 8 && self.f < 2 && self.linktype < 0x1000_0000
    }

    /// Decodes the global header at the start of `reader`.
    pub fn read(reader: &[u8]) -> (r: Result<PcapHeader, PcapError>)
        ensures
            reader@.len() < PCAP_HEADER_LEN || le_u32_at(reader@, 0) != PCAP_MAGIC ==> r == Err::<
                PcapHeader,
                PcapError,
            >(PcapError::NotAContainer),
            reader@.len() >= PCAP_HEADER_LEN && le_u32_at(reader@, 0) == PCAP_MAGIC ==> r == Ok::<
                PcapHeader,
                PcapError,
            >(header_of(reader@)),
    {
        if reader.len() < PCAP_HEADER_LEN {
            return Err(PcapError::NotAContainer);
        }
        let magic = read_u32(reader, 0);
        if magic != PCAP_MAGIC {
            return Err(PcapError::NotAContainer);
        }
        let w = read_u32(reader, 20);
        Ok(
            PcapHeader {
                magic,
                major: read_u16(reader, 4),
                minor: read_u16(reader, 6),
                resv1: read_u32(reader, 8),
                resv2: read_u32(reader, 12),
                snaplen: read_u32(reader, 16),
                fcs: (w >> 29u32) as u8,
                f: ((w >> 28u32) & 1u32) as u8,
                linktype: w & 0x0fff_ffffu32,
            },
        )
    }

    /// Encodes the header into its 24 bytes.
    pub fn out(&self) -> (r: Vec<u8>)
        requires
            self.wf(),
        ensures
            r@ == header_bytes(*self),
    {
        let mut out: Vec<u8> = Vec::new();
        push_u32(&mut out, self.magic);
        push_u16(&mut out, self.major);
        push_u16(&mut out, self.minor);
        push_u32(&mut out, self.resv1);
        push_u32(&mut out, self.resv2);
        push_u32(&mut out, self.snaplen);
        push_u32(&mut out, ((self.fcs as u32) << 29u32) | ((self.f as u32) << 28u32) | self.linktype);
        out
    }
}

/// Decoding a header and encoding it again gives back its bytes, and the
/// decoded header is well formed; so decoding the encoding of a decoded
/// header gives the same header.
pub proof fn lemma_header_round_trip(b: Seq<u8>)
    requires
        b.len() >= PCAP_HEADER_LEN,
    ensures
        header_of(b).wf(),
        header_bytes(header_of(b)) == b.subrange(0, PCAP_HEADER_LEN as int),
        header_of(header_bytes(header_of(b))) == header_of(b),
{
    let h = header_of(b);
    let w = le_u32_at(b, 20);
    lemma_packed_word(w, 0, 0, 0);
    lemma_u32_le(0, b[0], b[1], b[2], b[3]);
    lemma_u16_le(0, b[4], b[5]);
    lemma_u16_le(0, b[6], b[7]);
    lemma_u32_le(0, b[8], b[9], b[10], b[11]);
    lemma_u32_le(0, b[12], b[13], b[14], b[15]);
    lemma_u32_le(0, b[16], b[17], b[18], b[19]);
    lemma_u32_le(0, b[20], b[21], b[22], b[23]);
    assert(header_bytes(h) =~= b.subrange(0, PCAP_HEADER_LEN as int));
    let e = header_bytes(h);
    assert(e.len() == 24);
    assert(forall|i: int| 0 <= i < 24 ==> e[i] == b[i]);
    assert(header_of(e) == h);
}

/// One frame record: timestamp seconds and microseconds, captured and
/// original lengths, and the captured bytes.
pub struct PcapRecord {
    pub ts: u32,
    pub tn: u32,
    pub caplen: u32,
    pub origlen: u32,
    pub data: Vec<u8>,
}

/// A frame record as mathematical values.
pub struct RecordView {
    pub ts: u32,
    pub tn: u32,
    pub caplen: u32,
    pub origlen: u32,
    pub data: Seq<u8>,
}

impl RecordView {
    /// The payload holds exactly the declared captured length.
    pub open spec fn wf(&self) -> bool {
        self.data.len() == self.caplen
    }
}

impl View for PcapRecord {
    type V = RecordView;

    open spec fn view(&self) -> RecordView {
        RecordView {
            ts: self.ts,
            tn: self.tn,
            caplen: self.caplen,
            origlen: self.origlen,
            data: self.data@,
        }
    }
}

pub open spec fn views(rs: Seq<PcapRecord>) -> Seq<RecordView> {
    rs.map_values(|r: PcapRecord| r@)
}

/// A whole record (header and payload) stands at the start of `b`.
pub open spec fn record_fits(b: Seq<u8>) -> bool {
    b.len() >= PCAP_RECORD_HEADER_LEN && b.len() - PCAP_RECORD_HEADER_LEN >= le_u32_at(b, 8)
}

/// The record at the start of `b`, where one fits.
pub open spec fn record_of(b: Seq<u8>) -> RecordView {
    RecordView {
        ts: le_u32_at(b, 0),
        tn: le_u32_at(b, 4),
        caplen: le_u32_at(b, 8),
        origlen: le_u32_at(b, 12),
        data: b.subrange(16, 16 + le_u32_at(b, 8)),
    }
}

/// The bytes that encode one record.
pub open spec fn record_bytes(r: RecordView) -> Seq<u8> {
    u32_le_bytes(r.ts) + u32_le_bytes(r.tn) + u32_le_bytes(r.caplen) + u32_le_bytes(r.origlen)
        + r.data
}

/// The records read one after another from the start of `b`, until the
/// bytes left cannot hold a whole record.
pub open spec fn frames_of(b: Seq<u8>) -> Seq<RecordView>
    decreases b.len(),
{
    if record_fits(b) {
        seq![record_of(b)] + frames_of(b.subrange(16 + le_u32_at(b, 8), b.len() as int))
    } else {
        Seq::empty()
    }
}

/// How many bytes of `b` the records of `frames_of(b)` take up.
pub open spec fn frames_len(b: Seq<u8>) -> nat
    decreases b.len(),
{
    if record_fits(b) {
        (16 + le_u32_at(b, 8) + frames_len(b.subrange(16 + le_u32_at(b, 8), b.len() as int))) as nat
    } else {
        0
    }
}

/// The bytes that encode a sequence of records, one after another.
pub open spec fn frames_bytes(rs: Seq<RecordView>) -> Seq<u8> {
    rs.map_values(|r: RecordView| record_bytes(r)).flatten()
}

impl PcapRecord {
    /// Decodes the record at the start of `reader`, if a whole one is there.
    pub fn read(reader: &[u8]) -> (r: Option<PcapRecord>)
        ensures
            r is Some <==> record_fits(reader@),
            r matches Some(rec) ==> rec@ == record_of(reader@),
    {
        if reader.len() < PCAP_RECORD_HEADER_LEN {
            return None;
        }
        let caplen = read_u32(reader, 8);
        if reader.len() - PCAP_RECORD_HEADER_LEN < caplen as usize {
            return None;
        }
        let end = PCAP_RECORD_HEADER_LEN + caplen as usize;
        let data = slice_to_vec(slice_subrange(reader, PCAP_RECORD_HEADER_LEN, end));
        Some(
            PcapRecord {
                ts: read_u32(reader, 0),
                tn: read_u32(reader, 4),
                caplen,
                origlen: read_u32(reader, 12),
                data,
            },
        )
    }

    /// The length of the encoded record.
    pub fn len(&self) -> (r: usize)
        requires
            self.data@.len() + PCAP_RECORD_HEADER_LEN <= usize::MAX,
        ensures
            r == self.data@.len() + PCAP_RECORD_HEADER_LEN,
    {
        self.data.len() + PCAP_RECORD_HEADER_LEN
    }

    /// Encodes the record: its 16-byte header, then its payload.
    pub fn out(&self) -> (r: Vec<u8>)
        ensures
            r@ == record_bytes(self@),
    {
        let mut out: Vec<u8> = Vec::new();
        push_u32(&mut out, self.ts);
        push_u32(&mut out, self.tn);
        push_u32(&mut out, self.caplen);
        push_u32(&mut out, self.origlen);
        let mut data = slice_to_vec(self.data.as_slice());
        out.append(&mut data);
        out
    }
}

impl PcapRecord {
    /// Decodes records one after another from the start of `cursor`, until
    /// the bytes left cannot hold a whole record. The flag tells whether the
    /// records took up every byte, that is, whether no truncated tail was
    /// left over.
    pub fn read_all(cursor: &[u8]) -> (r: (Vec<PcapRecord>, bool))
        ensures
            views(r.0@) == frames_of(cursor@),
            r.1 <==> frames_len(cursor@) == cursor@.len(),
    {
        let mut records: Vec<PcapRecord> = Vec::new();
        let mut pos: usize = 0;
        assert(cursor@.subrange(0, cursor@.len() as int) =~= cursor@);
        assert(views(records@) =~= Seq::<RecordView>::empty());
        loop
            invariant
                pos <= cursor@.len(),
                views(records@) + frames_of(cursor@.subrange(pos as int, cursor@.len() as int))
                    == frames_of(cursor@),
                pos + frames_len(cursor@.subrange(pos as int, cursor@.len() as int)) == frames_len(
                    cursor@,
                ),
            ensures
                views(records@) == frames_of(cursor@),
                pos == frames_len(cursor@),
            decreases cursor@.len() - pos,
        {
            let rest = slice_subrange(cursor, pos, cursor.len());
            match PcapRecord::read(rest) {
                None => {
                    assert(views(records@) + Seq::<RecordView>::empty() =~= views(records@));
                    break ;
                },
                Some(rec) => {
                    let n = rec.len();
                    proof {
                        let c = le_u32_at(rest@, 8);
                        assert(rest@.subrange(16 + c, rest@.len() as int) =~= cursor@.subrange(
                            pos + n,
                            cursor@.len() as int,
                        ));
                        assert(views(records@.push(rec)) =~= views(records@).push(rec@));
                        assert(views(records@).push(rec@) + frames_of(
                            cursor@.subrange(pos + n, cursor@.len() as int),
                        ) =~= views(records@) + frames_of(rest@));
                    }
                    pos = pos + n;
                    records.push(rec);
                },
            }
        }
        let clean = pos == cursor.len();
        (records, clean)
    }

    /// Encodes records one after another, in their order.
    pub fn write_all(records: &[PcapRecord]) -> (r: Vec<u8>)
        ensures
            r@ == frames_bytes(views(records@)),
    {
        let mut out: Vec<u8> = Vec::new();
        let mut i: usize = 0;
        while i < records.len()
            invariant
                i <= records@.len(),
                out@ == frames_bytes(views(records@.take(i as int))),
            decreases records@.len() - i,
        {
            let mut bytes = records[i].out();
            proof {
                assert(views(records@.take(i + 1)) =~= views(records@.take(i as int)).push(
                    records@[i as int]@,
                ));
                lemma_frames_bytes_push(views(records@.take(i as int)), records@[i as int]@);
            }
            out.append(&mut bytes);
            i = i + 1;
        }
        assert(records@.take(records@.len() as int) =~= records@);
        out
    }
}

proof fn lemma_frames_bytes_push(rs: Seq<RecordView>, r: RecordView)
    ensures
        frames_bytes(rs.push(r)) == frames_bytes(rs) + record_bytes(r),
{
    let f = |x: RecordView| record_bytes(x);
    assert(rs.push(r).map_values(f) =~= rs.map_values(f).push(record_bytes(r)));
    rs.map_values(f).lemma_flatten_push(record_bytes(r));
}

/// Every record that `frames_of` reads holds its declared captured length.
proof fn lemma_frames_wf(b: Seq<u8>)
    ensures
        forall|i: int| 0 <= i < frames_of(b).len() ==> (#[trigger] frames_of(b)[i]).wf(),
    decreases b.len(),
{
    if record_fits(b) {
        let rest = b.subrange(16 + le_u32_at(b, 8), b.len() as int);
        lemma_frames_wf(rest);
        assert forall|i: int| 0 <= i < frames_of(b).len() implies (#[trigger] frames_of(b)[i]).wf() by {
            if i > 0 {
                assert(frames_of(b)[i] == frames_of(rest)[i - 1]);
            }
        }
    }
}

/// The record at the start of the encoding of `r` is `r`, and the bytes
/// after it are `rest`.
proof fn lemma_decode_one(r: RecordView, rest: Seq<u8>)
    requires
        r.wf(),
    ensures
        record_fits(record_bytes(r) + rest),
        record_of(record_bytes(r) + rest) == r,
        ({
            let e = record_bytes(r) + rest;
            e.subrange(16 + r.caplen, e.len() as int) == rest
        }),
{
    let e = record_bytes(r) + rest;
    let c = r.caplen;
    lemma_u32_le(r.ts, 0, 0, 0, 0);
    lemma_u32_le(r.tn, 0, 0, 0, 0);
    lemma_u32_le(c, 0, 0, 0, 0);
    lemma_u32_le(r.origlen, 0, 0, 0, 0);
    assert(e.len() == 16 + c + rest.len());
    assert(e[0] == r.ts as u8 && e[1] == (r.ts >> 8u32) as u8 && e[2] == (r.ts >> 16u32) as u8 && e[3]
        == (r.ts >> 24u32) as u8);
    assert(e[4] == r.tn as u8 && e[5] == (r.tn >> 8u32) as u8 && e[6] == (r.tn >> 16u32) as u8 && e[7]
        == (r.tn >> 24u32) as u8);
    assert(e[8] == c as u8 && e[9] == (c >> 8u32) as u8 && e[10] == (c >> 16u32) as u8 && e[11] == (c
        >> 24u32) as u8);
    assert(e[12] == r.origlen as u8 && e[13] == (r.origlen >> 8u32) as u8 && e[14] == (r.origlen
        >> 16u32) as u8 && e[15] == (r.origlen >> 24u32) as u8);
    assert(le_u32_at(e, 8) == c);
    assert(e.subrange(16, 16 + c) =~= r.data);
    assert(record_of(e) == r);
    assert(e.subrange(16 + c, e.len() as int) =~= rest);
}

/// Decoding the encoding of well-formed records gives them back.
proof fn lemma_decode_encode(rs: Seq<RecordView>)
    requires
        forall|i: int| 0 <= i < rs.len() ==> (#[trigger] rs[i]).wf(),
    ensures
        frames_of(frames_bytes(rs)) == rs,
    decreases rs.len(),
{
    let f = |x: RecordView| record_bytes(x);
    let e = frames_bytes(rs);
    if rs.len() == 0 {
        assert(e =~= Seq::<u8>::empty());
        assert(!record_fits(e));
        assert(frames_of(e) =~= rs);
    } else {
        let r0 = rs[0];
        let tail = rs.drop_first();
        assert(rs.map_values(f).drop_first() =~= tail.map_values(f));
        assert(e == record_bytes(r0) + frames_bytes(tail));
        assert forall|i: int| 0 <= i < tail.len() implies (#[trigger] tail[i]).wf() by {
            assert(tail[i] == rs[i + 1]);
        }
        lemma_decode_encode(tail);
        lemma_decode_one(r0, frames_bytes(tail));
        assert(frames_of(e) =~= seq![r0] + tail);
        assert(frames_of(e) =~= rs);
    }
}

/// Decoding the encoding of the records decoded from any bytes gives the
/// same records.
pub proof fn lemma_frames_round_trip(b: Seq<u8>)
    ensures
        frames_of(frames_bytes(frames_of(b))) == frames_of(b),
{
    lemma_frames_wf(b);
    lemma_decode_encode(frames_of(b));
}

/// The little-endian u16 at `i`.
fn read_u16(b: &[u8], i: usize) -> (r: u16)
    requires
        i + 2 <= b@.len(),
    ensures
        r == le_u16_at(b@, i as int),
{
    (b[i] as u16) | ((b[i + 1] as u16) << 8u16)
}

/// The little-endian u32 at `i`.
fn read_u32(b: &[u8], i: usize) -> (r: u32)
    requires
        i + 4 <= b@.len(),
    ensures
        r == le_u32_at(b@, i as int),
{
    (b[i] as u32) | ((b[i + 1] as u32) << 8u32) | ((b[i + 2] as u32) << 16u32) | ((b[i + 3] as u32)
        << 24u32)
}

fn push_u16(out: &mut Vec<u8>, x: u16)
    ensures
        final(out)@ == old(out)@ + u16_le_bytes(x),
{
    out.push(x as u8);
    out.push((x >> 8u16) as u8);
    assert(out@ =~= old(out)@ + u16_le_bytes(x));
}

fn push_u32(out: &mut Vec<u8>, x: u32)
    ensures
        final(out)@ == old(out)@ + u32_le_bytes(x),
{
    out.push(x as u8);
    out.push((x >> 8u32) as u8);
    out.push((x >> 16u32) as u8);
    out.push((x >> 24u32) as u8);
    assert(out@ =~= old(out)@ + u32_le_bytes(x));
}

} // verus!
