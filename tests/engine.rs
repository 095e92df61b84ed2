use pcap_dedup::dedup::{dedup_capture, filter_by_fingerprints, DedupOptions, Duplicate, Layer};
use pcap_dedup::pcap::{PcapError, PcapHeader, PcapRecord, PCAP_MAGIC};

fn rec(ts: u32, tn: u32, data: &[u8]) -> PcapRecord {
    PcapRecord { ts, tn, caplen: data.len() as u32, origlen: data.len() as u32, data: data.to_vec() }
}

fn opts(window: usize, time: Option<u64>, layer: Option<Layer>) -> DedupOptions {
    DedupOptions { window, time, layer }
}

fn payloads(out: &[PcapRecord]) -> Vec<Vec<u8>> {
    out.iter().map(|r| r.data.clone()).collect()
}

#[test]
fn repeated_frame_in_window_is_dropped() {
    let a = [1u8, 2, 3];
    let b = [4u8, 5, 6];
    let recs = vec![rec(1, 0, &a), rec(2, 0, &b), rec(3, 0, &a)];
    let (out, dupes) = PcapRecord::filter_dup(&recs, &opts(3, None, None)).unwrap();
    assert_eq!(payloads(&out), vec![a.to_vec(), b.to_vec()]);
    assert_eq!(recs.len() - out.len(), 1);
    assert_eq!(dupes, vec![Duplicate { frame: 2, time: None }]);
}

#[test]
fn time_threshold_decides() {
    let a = [7u8; 30];
    let recs = vec![rec(100, 0, &a), rec(100, 500_000, &a)];
    let (out, dupes) = PcapRecord::filter_dup(&recs, &opts(3, Some(1_000_000), None)).unwrap();
    assert_eq!(out.len(), 1);
    assert_eq!(dupes, vec![Duplicate { frame: 1, time: Some(500_000) }]);
    let (out, dupes) = PcapRecord::filter_dup(&recs, &opts(3, Some(100_000), None)).unwrap();
    assert_eq!(out.len(), 2);
    assert!(dupes.is_empty());
}

#[test]
fn elapsed_equal_to_threshold_is_kept() {
    let a = [7u8; 3];
    let recs = vec![rec(5, 250_000, &a), rec(6, 250_000, &a)];
    let (out, dupes) = PcapRecord::filter_dup(&recs, &opts(3, Some(1_000_000), None)).unwrap();
    assert_eq!(out.len(), 2);
    assert!(dupes.is_empty());
    // going back in time counts as less than the threshold
    let back = vec![rec(6, 0, &a), rec(5, 0, &a)];
    let (out, dupes) = PcapRecord::filter_dup(&back, &opts(3, Some(1), None)).unwrap();
    assert_eq!(out.len(), 1);
    assert_eq!(dupes, vec![Duplicate { frame: 1, time: Some(-1_000_000) }]);
}

#[test]
fn time_dropped_duplicate_moves_the_reference_time() {
    let a = [7u8; 4];
    // 0.6 s apart each: the third is measured from the dropped second
    let recs = vec![rec(10, 0, &a), rec(10, 600_000, &a), rec(11, 200_000, &a)];
    let (out, dupes) = PcapRecord::filter_dup(&recs, &opts(3, Some(1_000_000), None)).unwrap();
    assert_eq!(out.len(), 1);
    assert_eq!(
        dupes,
        vec![Duplicate { frame: 1, time: Some(600_000) }, Duplicate { frame: 2, time: Some(600_000) }]
    );
}

#[test]
fn unbounded_window_remembers_everything() {
    let mut recs = vec![rec(0, 0, b"first frame")];
    for i in 0..1000u32 {
        recs.push(rec(i, 0, &i.to_le_bytes()));
    }
    recs.push(rec(2000, 0, b"first frame"));
    let (out, dupes) = PcapRecord::filter_dup(&recs, &opts(0, None, None)).unwrap();
    assert_eq!(out.len(), 1001);
    assert_eq!(dupes, vec![Duplicate { frame: 1001, time: None }]);
    // a bounded window has long forgotten it
    let (out, dupes) = PcapRecord::filter_dup(&recs, &opts(3, None, None)).unwrap();
    assert_eq!(out.len(), 1002);
    assert!(dupes.is_empty());
}

#[test]
fn window_evicts_oldest() {
    let (a, b, c) = ([1u8], [2u8], [3u8]);
    let recs = vec![rec(0, 0, &a), rec(0, 0, &b), rec(0, 0, &c), rec(0, 0, &a)];
    // window 1 tracks at most two fingerprints: `a` has been evicted
    let (out, _) = PcapRecord::filter_dup(&recs, &opts(1, None, None)).unwrap();
    assert_eq!(out.len(), 4);
    // window 2 tracks three: `a` is still there
    let (out, dupes) = PcapRecord::filter_dup(&recs, &opts(2, None, None)).unwrap();
    assert_eq!(out.len(), 3);
    assert_eq!(dupes, vec![Duplicate { frame: 3, time: None }]);
}

#[test]
fn empty_payloads_deduplicate() {
    let recs = vec![rec(0, 0, &[]), rec(1, 0, &[])];
    let (out, dupes) = PcapRecord::filter_dup(&recs, &opts(3, None, None)).unwrap();
    assert_eq!(out.len(), 1);
    assert_eq!(dupes.len(), 1);
    let (out, _) = PcapRecord::filter_dup(&[], &opts(3, None, None)).unwrap();
    assert!(out.is_empty());
}

#[test]
fn filter_by_given_fingerprints() {
    let recs = vec![rec(0, 0, &[1]), rec(0, 1, &[2]), rec(0, 2, &[3])];
    let (out, dupes) = filter_by_fingerprints(&recs, &[9, 8, 9], 3, None);
    assert_eq!(payloads(&out), vec![vec![1], vec![2]]);
    assert_eq!(dupes, vec![Duplicate { frame: 2, time: None }]);
}

fn tcp_frame(payload: &[u8], port: u8) -> Vec<u8> {
    let mut f = vec![0u8; 54];
    f[12] = 0x08;
    f[14] = 0x45;
    f[14 + 9] = 6;
    f[34] = port;
    f[34 + 12] = 0x50;
    f.extend_from_slice(payload);
    f
}

#[test]
fn layer_selects_compared_bytes() {
    let x = tcp_frame(b"same payload", 1);
    let y = tcp_frame(b"same payload", 2);
    let recs = vec![rec(0, 0, &x), rec(0, 0, &y)];
    let (out, _) = PcapRecord::filter_dup(&recs, &opts(3, None, None)).unwrap();
    assert_eq!(out.len(), 2);
    let (out, _) = PcapRecord::filter_dup(&recs, &opts(3, None, Some(Layer::Transport))).unwrap();
    assert_eq!(out.len(), 2);
    let (out, dupes) = PcapRecord::filter_dup(&recs, &opts(3, None, Some(Layer::Session))).unwrap();
    assert_eq!(out.len(), 1);
    assert_eq!(dupes, vec![Duplicate { frame: 1, time: None }]);
}

#[test]
fn fingerprint_is_xxh3() {
    let x = tcp_frame(b"abc", 1);
    let r = rec(0, 0, &x);
    assert_eq!(r.hash(), xxhash_rust::xxh3::xxh3_64(&x));
    assert_eq!(r.hash_at(Layer::Mac), Ok(xxhash_rust::xxh3::xxh3_64(&x)));
    assert_eq!(r.hash_at(Layer::Llc), Ok(xxhash_rust::xxh3::xxh3_64(&x[14..])));
    assert_eq!(r.hash_at(Layer::Network), Ok(xxhash_rust::xxh3::xxh3_64(&x[14..])));
    assert_eq!(r.hash_at(Layer::Transport), Ok(xxhash_rust::xxh3::xxh3_64(&x[34..])));
    assert_eq!(r.hash_at(Layer::Session), Ok(xxhash_rust::xxh3::xxh3_64(b"abc")));
    assert_ne!(r.hash(), r.hash_at(Layer::Session).unwrap());
}

#[test]
fn malformed_frames_are_reported() {
    let short = rec(0, 0, &[0u8; 10]);
    assert_eq!(short.hash_at(Layer::Network), Err(PcapError::MalformedFrame));
    assert_eq!(short.hash_at(Layer::Llc), Err(PcapError::MalformedFrame));
    let mut lying = rec(0, 0, &[0u8; 20]);
    lying.caplen = 40;
    assert_eq!(lying.hash_at(Layer::Mac), Err(PcapError::MalformedFrame));
    let recs = vec![rec(0, 0, &[0u8; 20]), short];
    assert!(PcapRecord::filter_dup(&recs, &opts(3, None, None)).is_ok());
    assert_eq!(
        PcapRecord::filter_dup(&recs, &opts(3, None, Some(Layer::Network))).err(),
        Some(PcapError::MalformedFrame)
    );
}

fn capture(frames: &[(u32, u32, &[u8])]) -> Vec<u8> {
    let mut b = Vec::new();
    b.extend_from_slice(&PCAP_MAGIC.to_le_bytes());
    b.extend_from_slice(&2u16.to_le_bytes());
    b.extend_from_slice(&4u16.to_le_bytes());
    b.extend_from_slice(&[0; 8]);
    b.extend_from_slice(&65535u32.to_le_bytes());
    b.extend_from_slice(&1u32.to_le_bytes());
    for (ts, tn, d) in frames {
        b.extend_from_slice(&ts.to_le_bytes());
        b.extend_from_slice(&tn.to_le_bytes());
        b.extend_from_slice(&(d.len() as u32).to_le_bytes());
        b.extend_from_slice(&(d.len() as u32).to_le_bytes());
        b.extend_from_slice(d);
    }
    b
}

#[test]
fn whole_capture_is_deduplicated() {
    let a: &[u8] = &[1, 2, 3];
    let b: &[u8] = &[4, 5];
    let input = capture(&[(1, 0, a), (2, 0, b), (3, 0, a)]);
    let rep = dedup_capture(&input, &opts(3, None, None)).unwrap();
    assert_eq!(rep.data, capture(&[(1, 0, a), (2, 0, b)]));
    assert_eq!((rep.original, rep.retained), (3, 2));
    assert_eq!(rep.duplicates, vec![Duplicate { frame: 2, time: None }]);
    assert!(rep.clean);
    let again = dedup_capture(&input, &opts(3, None, None)).unwrap();
    assert_eq!(again.data, rep.data);
    assert_eq!(again.duplicates, rep.duplicates);
    let header = PcapHeader::read(&rep.data).unwrap();
    assert_eq!(header.linktype, 1);
}

#[test]
fn whole_capture_errors() {
    let mut input = capture(&[(1, 0, &[1])]);
    input[3] = 0;
    assert_eq!(dedup_capture(&input, &opts(3, None, None)).err(), Some(PcapError::NotAContainer));
    let input = capture(&[(1, 0, &[1])]);
    assert_eq!(
        dedup_capture(&input, &opts(3, None, Some(Layer::Session))).err(),
        Some(PcapError::MalformedFrame)
    );
    let mut cut = capture(&[(1, 0, &[1]), (2, 0, &[2, 3])]);
    cut.pop();
    let rep = dedup_capture(&cut, &opts(3, None, None)).unwrap();
    assert!(!rep.clean);
    assert_eq!(rep.original, 1);
}
