//! Deduplication of frames in a packet-capture container.
//!
//! `pcap` decodes and encodes the container, `packets` finds where an
//! encapsulation layer starts inside one frame, and `dedup` drops frames
//! whose fingerprint recurred within a recency window.
pub mod packets;
pub mod pcap;
pub mod dedup;
