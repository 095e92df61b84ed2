//! Sliding-window removal of frames whose fingerprint recently recurred.
//!
//! A frame's fingerprint is the 64-bit XXH3 hash of its payload, from the
//! start of a chosen encapsulation layer on. Timestamps are counted in
//! whole microseconds, so time thresholds are exact integers.
use vstd::prelude::*;
use vstd::slice::slice_subrange;
use crate::packets::{Packet, MAC_LEN, network_start_of, transport_start_of, session_start_of};
use crate::pcap::{
    PcapError, PcapHeader, PcapRecord, RecordView, views, frames_of, frames_len, frames_bytes,
    le_u32_at, lemma_header_round_trip, PCAP_HEADER_LEN, PCAP_MAGIC,
};

verus! {

/// The encapsulation layer from which a fingerprint is taken.
#[derive(Clone, Copy, Debug, PartialEq, Eq, Structural)]
pub enum Layer {
    /// The whole frame, from the link-layer header on.
    Mac,
    /// Logical link control (VLAN tag, ARP, ...), after the link-layer header.
    Llc,
    /// The network layer (IP).
    Network,
    /// The transport layer (TCP, UDP, ...).
    Transport,
    /// The session layer: the transport payload.
    Session,
}

/// The 64-bit XXH3 hash (default seed and secret) of a byte sequence.
pub uninterp spec fn xxh3_64_of(data: Seq<u8>) -> u64;

/// Relies on `xxhash_rust::xxh3::xxh3_64`: its result depends on the bytes alone.
#[verifier::external_body]
fn hash_bytes(data: &[u8]) -> (r: u64)
    ensures
        r == xxh3_64_of(data@),
{
    xxhash_rust::xxh3::xxh3_64(data)
}

/// Where `layer` starts inside the payload `p`, where it can be resolved.
pub open spec fn layer_offset(p: Seq<u8>, layer: Layer) -> Option<int> {
    match layer {
        Layer::Mac => Some(0),
        Layer::Llc => Some(MAC_LEN as int),
        Layer::Network => network_start_of(p),
        Layer::Transport => transport_start_of(p),
        Layer::Session => session_start_of(p),
    }
}

/// The fingerprint of the payload from `layer` on; `None` where the payload
/// disagrees with the captured length, or where the layer cannot be
/// resolved inside the payload.
pub open spec fn layer_fingerprint(r: RecordView, layer: Layer) -> Option<u64> {
    match layer_offset(r.data, layer) {
        Some(o) => if r.wf() && o <= r.data.len() {
            Some(xxh3_64_of(r.data.subrange(o, r.data.len() as int)))
        } else {
            None
        },
        None => None,
    }
}

/// The fingerprint of a frame: of its whole payload when no layer is chosen.
pub open spec fn fingerprint_of(r: RecordView, layer: Option<Layer>) -> Option<u64> {
    match layer {
        None => Some(xxh3_64_of(r.data)),
        Some(l) => layer_fingerprint(r, l),
    }
}

impl PcapRecord {
    /// The fingerprint of the whole payload.
    pub fn hash(&self) -> (r: u64)
        ensures
            r == xxh3_64_of(self.data@),
    {
        hash_bytes(self.data.as_slice())
    }

    /// The fingerprint of the payload from `layer` on.
    pub fn hash_at(&self, layer: Layer) -> (r: Result<u64, PcapError>)
        ensures
            r matches Ok(h) ==> layer_fingerprint(self@, layer) == Some(h),
            r matches Err(e) ==> e == PcapError::MalformedFrame && layer_fingerprint(self@, layer) is None,
    {
        let data = self.data.as_slice();
        let found = match layer {
            Layer::Mac => Some(0),
            Layer::Llc => Some(Packet::get_llc_start()),
            Layer::Network => Packet::get_network_start(data),
            Layer::Transport => Packet::get_transport_start(data),
            Layer::Session => Packet::get_session_start(data),
        };
        let offset = match found {
            Some(o) => o,
            None => return Err(PcapError::MalformedFrame),
        };
        if data.len() != self.caplen as usize || offset > data.len() {
            return Err(PcapError::MalformedFrame);
        }
        Ok(hash_bytes(slice_subrange(data, offset, data.len())))
    }
}

/// A frame that was dropped as a duplicate: its index in the input, and,
/// where a time threshold is set, the microseconds since the previous
/// timestamp (negative where the capture goes back in time).
#[derive(Clone, Copy, Debug, PartialEq, Eq)]
pub struct Duplicate {
    pub frame: usize,
    pub time: Option<i64>,
}

/// The largest timestamp in microseconds that a record can carry.
pub const MAX_TIMESTAMP: i64 = 0xffff_ffff * 1_000_000 + 0xffff_ffff;

/// The capture time of a record in microseconds.
pub open spec fn timestamp_of(r: RecordView) -> int {
    r.ts * 1_000_000 + r.tn
}

/// The engine's state after some frames: the window of tracked
/// fingerprints (oldest first), the timestamp of the last frame kept or
/// dropped under a time threshold, the indices of the frames kept, and the
/// duplicates reported.
pub struct DedupState {
    pub window: Seq<u64>,
    pub prev: int,
    pub kept: Seq<int>,
    pub dupes: Seq<Duplicate>,
}

pub open spec fn initial_state() -> DedupState {
    DedupState { window: Seq::empty(), prev: 0, kept: Seq::empty(), dupes: Seq::empty() }
}

/// Keeps frame `n`: evicts the oldest fingerprint where the window already
/// holds more than `window` of them (and `window` is not 0), then tracks `fp`.
pub open spec fn retain(s: DedupState, n: int, fp: u64, cur: int, window: usize) -> DedupState {
    let w = if s.window.len() > window && window != 0 {
        s.window.drop_first()
    } else {
        s.window
    };
    DedupState { window: w.push(fp), prev: cur, kept: s.kept.push(n), dupes: s.dupes }
}

/// What frame `n`, with fingerprint `fp` and timestamp `cur`, does to the state.
/// A fingerprint already in the window makes the frame a duplicate, unless a
/// time threshold is set and at least that much time has passed.
pub open spec fn dedup_step(
    s: DedupState,
    n: int,
    fp: u64,
    cur: int,
    window: usize,
    time: Option<u64>,
) -> DedupState {
    if s.window.contains(fp) {
        match time {
            None => DedupState {
                window: s.window,
                prev: s.prev,
                kept: s.kept,
                dupes: s.dupes.push(Duplicate { frame: n as usize, time: None }),
            },
            Some(t) => if cur - s.prev < t {
                DedupState {
                    window: s.window,
                    prev: cur,
                    kept: s.kept,
                    dupes: s.dupes.push(Duplicate { frame: n as usize, time: Some((cur - s.prev) as i64) }),
                }
            } else {
                retain(s, n, fp, cur, window)
            },
        }
    } else {
        retain(s, n, fp, cur, window)
    }
}

/// The state after the first `n` frames.
pub open spec fn dedup_run(
    fps: Seq<u64>,
    recs: Seq<RecordView>,
    window: usize,
    time: Option<u64>,
    n: nat,
) -> DedupState
    decreases n,
{
    if n == 0 {
        initial_state()
    } else {
        dedup_step(
            dedup_run(fps, recs, window, time, (n - 1) as nat),
            n - 1,
            fps[n - 1],
            timestamp_of(recs[n - 1]),
            window,
            time,
        )
    }
}

/// The records at the given indices, in that order.
pub open spec fn select(recs: Seq<RecordView>, idx: Seq<int>) -> Seq<RecordView> {
    idx.map_values(|i: int| recs[i])
}

fn contains(v: &Vec<u64>, x: u64) -> (r: bool)
    ensures
        r == v@.contains(x),
{
    let mut i: usize = 0;
    while i < v.len()
        invariant
            i <= v@.len(),
            forall|j: int| 0 <= j < i ==> v@[j] != x,
        decreases v@.len() - i,
    {
        if v[i] == x {
            return true;
        }
        i = i + 1;
    }
    false
}

fn record_timestamp(r: &PcapRecord) -> (t: i64)
    ensures
        t == timestamp_of(r@),
        0 <= t <= MAX_TIMESTAMP,
{
    (r.ts as i64) * 1_000_000 + r.tn as i64
}

fn copy_record(r: &PcapRecord) -> (c: PcapRecord)
    ensures
        c@ == r@,
{
    PcapRecord {
        ts: r.ts,
        tn: r.tn,
        caplen: r.caplen,
        origlen: r.origlen,
        data: vstd::slice::slice_to_vec(r.data.as_slice()),
    }
}

/// Runs the window and time-threshold policy over frames whose fingerprints
/// are given, one per frame. Returns the frames kept, in their order, and
/// the duplicates found.
pub fn filter_by_fingerprints(
    records: &[PcapRecord],
    fps: &[u64],
    window: usize,
    time: Option<u64>,
) -> (r: (Vec<PcapRecord>, Vec<Duplicate>))
    requires
        fps@.len() == records@.len(),
    ensures
        ({
            let s = dedup_run(fps@, views(records@), window, time, records@.len());
            &&& views(r.0@) == select(views(records@), s.kept)
            &&& r.1@ == s.dupes
        }),
{
    let ghost recs = views(records@);
    let mut hash_list: Vec<u64> = Vec::new();
    let mut out: Vec<PcapRecord> = Vec::new();
    let mut dupes: Vec<Duplicate> = Vec::new();
    let mut prev_ts: i64 = 0;
    let mut n: usize = 0;
    while n < records.len()
        invariant
            n <= records@.len(),
            fps@.len() == records@.len(),
            recs == views(records@),
            ({
                let s = dedup_run(fps@, recs, window, time, n as nat);
                &&& hash_list@ == s.window
                &&& prev_ts == s.prev
                &&& views(out@) == select(recs, s.kept)
                &&& dupes@ == s.dupes
            }),
            0 <= prev_ts <= MAX_TIMESTAMP,
        decreases records@.len() - n,
    {
        let rec = &records[n];
        let hash = fps[n];
        let cur_ts = record_timestamp(rec);
        let ghost s = dedup_run(fps@, recs, window, time, n as nat);
        assert(recs[n as int] == rec@);
        assert(dedup_run(fps@, recs, window, time, (n + 1) as nat) == dedup_step(
            s,
            n as int,
            hash,
            cur_ts as int,
            window,
            time,
        ));
        let mut keep = true;
        if contains(&hash_list, hash) {
            match time {
                None => {
                    dupes.push(Duplicate { frame: n, time: None });
                    keep = false;
                },
                Some(t) => {
                    let elapsed = cur_ts - prev_ts;
                    if elapsed < 0 || (elapsed as u64) < t {
                        dupes.push(Duplicate { frame: n, time: Some(elapsed) });
                        prev_ts = cur_ts;
                        keep = false;
                    }
                },
            }
        }
        if keep {
            if hash_list.len() > window && window != 0 {
                hash_list.remove(0);
                assert(hash_list@ =~= s.window.drop_first());
            }
            hash_list.push(hash);
            prev_ts = cur_ts;
            let ghost before = out@;
            out.push(copy_record(rec));
            proof {
                assert(views(out@) =~= views(before).push(rec@));
                assert(select(recs, s.kept.push(n as int)) =~= select(recs, s.kept).push(rec@));
            }
        }
        n = n + 1;
    }
    (out, dupes)
}

/// How duplicates are told apart.
#[derive(Clone, Copy, Debug, PartialEq, Eq)]
pub struct DedupOptions {
    /// How many recent fingerprints are compared against; 0 compares against
    /// every fingerprint of the run.
    pub window: usize,
    /// Where set, a repeated fingerprint counts as a duplicate only when less
    /// than this many microseconds have passed.
    pub time: Option<u64>,
    /// Where set, fingerprints cover the payload from this layer on.
    pub layer: Option<Layer>,
}

/// Every record's fingerprint can be taken.
pub open spec fn all_fingerprints(recs: Seq<RecordView>, layer: Option<Layer>) -> bool {
    forall|i: int| 0 <= i < recs.len() ==> (#[trigger] fingerprint_of(recs[i], layer)) is Some
}

/// The fingerprint of each record (0 where it cannot be taken).
pub open spec fn fingerprints(recs: Seq<RecordView>, layer: Option<Layer>) -> Seq<u64> {
    recs.map_values(
        |r: RecordView|
            match fingerprint_of(r, layer) {
                Some(h) => h,
                None => 0,
            },
    )
}

/// The state after the policy has run over every record.
pub open spec fn dedup_result(recs: Seq<RecordView>, opts: DedupOptions) -> DedupState {
    dedup_run(fingerprints(recs, opts.layer), recs, opts.window, opts.time, recs.len())
}

impl PcapRecord {
    /// Fingerprints every frame, then keeps the frames that are not
    /// duplicates. Fails with `MalformedFrame` exactly where some frame's
    /// fingerprint cannot be taken.
    pub fn filter_dup(records: &[PcapRecord], opts: &DedupOptions) -> (r: Result<
        (Vec<PcapRecord>, Vec<Duplicate>),
        PcapError,
    >)
        ensures
            r is Err <==> !all_fingerprints(views(records@), opts.layer),
            r matches Err(e) ==> e == PcapError::MalformedFrame,
            r matches Ok(res) ==> {
                let s = dedup_result(views(records@), *opts);
                &&& views(res.0@) == select(views(records@), s.kept)
                &&& res.1@ == s.dupes
            },
    {
        let ghost recs = views(records@);
        let mut fps: Vec<u64> = Vec::new();
        let mut i: usize = 0;
        while i < records.len()
            invariant
                i <= records@.len(),
                recs == views(records@),
                fps@ == fingerprints(recs, opts.layer).take(i as int),
                forall|j: int| 0 <= j < i ==> (#[trigger] fingerprint_of(recs[j], opts.layer)) is Some,
            decreases records@.len() - i,
        {
            let rec = &records[i];
            assert(recs[i as int] == rec@);
            let hash = match opts.layer {
                None => rec.hash(),
                Some(layer) => match rec.hash_at(layer) {
                    Ok(h) => h,
                    Err(e) => {
                        assert(fingerprint_of(recs[i as int], opts.layer) is None);
                        return Err(e);
                    },
                },
            };
            fps.push(hash);
            assert(fps@ =~= fingerprints(recs, opts.layer).take(i + 1));
            i = i + 1;
        }
        assert(fps@ =~= fingerprints(recs, opts.layer));
        Ok(filter_by_fingerprints(records, fps.as_slice(), opts.window, opts.time))
    }
}

/// Filtering only removes: after `n` frames the indices kept are strictly
/// increasing and below `n`, so the frames kept form an order-preserving
/// subsequence of the input, and each frame is either kept or reported as
/// a duplicate, never both.
pub proof fn lemma_output_subsequence(
    fps: Seq<u64>,
    recs: Seq<RecordView>,
    window: usize,
    time: Option<u64>,
    n: nat,
)
    ensures
        ({
            let s = dedup_run(fps, recs, window, time, n);
            &&& s.kept.len() + s.dupes.len() == n
            &&& s.kept.len() <= n
            &&& forall|i: int| 0 <= i < s.kept.len() ==> 0 <= #[trigger] s.kept[i] < n
            &&& forall|i: int, j: int| 0 <= i < j < s.kept.len() ==> s.kept[i] < s.kept[j]
        }),
    decreases n,
{
    if n > 0 {
        lemma_output_subsequence(fps, recs, window, time, (n - 1) as nat);
    }
}

/// With a positive window size at most `window + 1` fingerprints are
/// tracked; with window size 0 every kept frame's fingerprint stays tracked.
pub proof fn lemma_window_bound(
    fps: Seq<u64>,
    recs: Seq<RecordView>,
    window: usize,
    time: Option<u64>,
    n: nat,
)
    ensures
        ({
            let s = dedup_run(fps, recs, window, time, n);
            &&& window > 0 ==> s.window.len() <= window + 1
            &&& window == 0 ==> s.window.len() == s.kept.len()
        }),
    decreases n,
{
    if n > 0 {
        lemma_window_bound(fps, recs, window, time, (n - 1) as nat);
    }
}

/// With window size 0 every fingerprint seen so far stays in the window.
pub proof fn lemma_unbounded_window(
    fps: Seq<u64>,
    recs: Seq<RecordView>,
    time: Option<u64>,
    n: nat,
)
    ensures
        forall|m: int|
            0 <= m < n ==> #[trigger] dedup_run(fps, recs, 0, time, n).window.contains(fps[m]),
    decreases n,
{
    if n > 0 {
        let prev = dedup_run(fps, recs, 0, time, (n - 1) as nat);
        let s = dedup_run(fps, recs, 0, time, n);
        lemma_unbounded_window(fps, recs, time, (n - 1) as nat);
        assert forall|m: int| 0 <= m < n implies #[trigger] s.window.contains(fps[m]) by {
            if m < n - 1 {
                assert(prev.window.contains(fps[m]));
                let k = choose|k: int| 0 <= k < prev.window.len() && prev.window[k] == fps[m];
                if s.window != prev.window {
                    assert(s.window[k] == fps[m]);
                }
            } else if s.window != prev.window {
                assert(s.window[s.window.len() - 1] == fps[m]);
            }
        }
    }
}

/// With window size 0 and no time threshold, a frame whose fingerprint
/// occurred at any earlier frame, however long ago, is dropped and reported.
pub proof fn lemma_unbounded_repeat(
    fps: Seq<u64>,
    recs: Seq<RecordView>,
    m: nat,
    n: nat,
)
    requires
        m < n,
        n < fps.len(),
        fps[m as int] == fps[n as int],
    ensures
        ({
            let before = dedup_run(fps, recs, 0, None, n);
            let after = dedup_run(fps, recs, 0, None, n + 1);
            &&& after.kept == before.kept
            &&& after.dupes == before.dupes.push(Duplicate { frame: n as usize, time: None })
        }),
{
    lemma_unbounded_window(fps, recs, None, n);
    assert(dedup_run(fps, recs, 0, None, n).window.contains(fps[m as int]));
}

/// The outcome of one run over a whole capture.
pub struct DedupReport {
    /// The encoded capture: the input's global header, then the frames kept.
    pub data: Vec<u8>,
    /// How many frames were decoded.
    pub original: usize,
    /// How many frames were kept.
    pub retained: usize,
    /// The frames dropped, in input order.
    pub duplicates: Vec<Duplicate>,
    /// Whether the frames took up every byte after the header, with no
    /// truncated tail left over.
    pub clean: bool,
}

/// The buffer starts with a global header carrying the magic number.
pub open spec fn is_container(b: Seq<u8>) -> bool {
    b.len() >= PCAP_HEADER_LEN && le_u32_at(b, 0) == PCAP_MAGIC
}

/// The bytes after the global header.
pub open spec fn body_of(b: Seq<u8>) -> Seq<u8> {
    b.subrange(PCAP_HEADER_LEN as int, b.len() as int)
}

/// What a run over the capture `b` yields: the encoded output and the
/// duplicates, or the error that stops it.
pub open spec fn dedup_capture_spec(b: Seq<u8>, opts: DedupOptions) -> Result<
    (Seq<u8>, Seq<Duplicate>),
    PcapError,
> {
    if !is_container(b) {
        Err(PcapError::NotAContainer)
    } else {
        let recs = frames_of(body_of(b));
        if !all_fingerprints(recs, opts.layer) {
            Err(PcapError::MalformedFrame)
        } else {
            let s = dedup_result(recs, opts);
            Ok(
                (
                    b.subrange(0, PCAP_HEADER_LEN as int) + frames_bytes(select(recs, s.kept)),
                    s.dupes,
                ),
            )
        }
    }
}

/// Decodes a capture, drops the duplicate frames, and encodes the header
/// and the frames kept.
pub fn dedup_capture(input: &[u8], opts: &DedupOptions) -> (r: Result<DedupReport, PcapError>)
    ensures
        r matches Err(e) ==> dedup_capture_spec(input@, *opts) == Err::<
            (Seq<u8>, Seq<Duplicate>),
            PcapError,
        >(e),
        r matches Ok(rep) ==> {
            let recs = frames_of(body_of(input@));
            let s = dedup_result(recs, *opts);
            &&& dedup_capture_spec(input@, *opts) == Ok::<(Seq<u8>, Seq<Duplicate>), PcapError>(
                (rep.data@, rep.duplicates@),
            )
            &&& rep.original == recs.len()
            &&& rep.retained == s.kept.len()
            &&& rep.clean == (frames_len(body_of(input@)) == body_of(input@).len())
        },
{
    let header = match PcapHeader::read(input) {
        Ok(h) => h,
        Err(e) => return Err(e),
    };
    proof {
        lemma_header_round_trip(input@);
    }
    let body = slice_subrange(input, PCAP_HEADER_LEN, input.len());
    let (records, clean) = PcapRecord::read_all(body);
    let (kept, duplicates) = match PcapRecord::filter_dup(records.as_slice(), opts) {
        Ok(res) => res,
        Err(e) => return Err(e),
    };
    let mut data = header.out();
    let mut frames = PcapRecord::write_all(kept.as_slice());
    data.append(&mut frames);
    let original = records.len();
    let retained = kept.len();
    Ok(DedupReport { data, original, retained, duplicates, clean })
}

/// The same capture bytes and options always give the same output bytes and
/// duplicates.
pub proof fn lemma_deterministic(b1: Seq<u8>, b2: Seq<u8>, opts: DedupOptions)
    requires
        b1 == b2,
    ensures
        dedup_capture_spec(b1, opts) == dedup_capture_spec(b2, opts),
{
}

} // verus!
