//! Offsets of the encapsulation layers inside one raw frame.
//!
//! Every frame starts with a 14-byte link-layer header whose last two bytes
//! hold the big-endian ethertype. Each offset function reads only bytes
//! that exist, and returns `None` where a byte it needs is missing.
use vstd::prelude::*;

verus! {

/// Length of the link-layer header.
pub const MAC_LEN: usize = 14;

pub const IPV4: u16 = 0x0800;
pub const IPV6: u16 = 0x86dd;
pub const VLAN: u16 = 0x8100;
pub const ARP: u16 = 0x0806;

pub const TCP: u8 = 0x06;
pub const UDP: u8 = 0x11;

/// Transport protocol reported for frames that are not IPv4.
/// The value is reserved in the IP protocol registry.
pub const UNKNOWN_TRANSPORT: u8 = 255;

/// The big-endian 16-bit type code at offset 12; the frame must hold 14 bytes.
pub open spec fn ethertype_of(p: Seq<u8>) -> u16 {
    (p[12] as int * 256 + p[13] as int) as u16
}

/// Where the network layer starts: after the link-layer header, and after
/// one VLAN tag where the ethertype announces it.
pub open spec fn network_start_of(p: Seq<u8>) -> Option<int> {
    if p.len() < MAC_LEN {
        None
    } else if ethertype_of(p) == VLAN {
        Some(MAC_LEN + 4)
    } else {
        Some(MAC_LEN as int)
    }
}

/// Where the transport layer starts: for IPv4, after the IP header, whose
/// length in 32-bit words is the low nibble of its first byte; otherwise
/// the network start.
pub open spec fn transport_start_of(p: Seq<u8>) -> Option<int> {
    match network_start_of(p) {
        None => None,
        Some(ns) => if ethertype_of(p) == IPV4 {
            if ns < p.len() {
                Some(ns + (p[ns] & 0x0f) * 4)
            } else {
                None
            }
        } else {
            Some(ns)
        },
    }
}

/// The IP protocol field (byte 9 of the IPv4 header), or
/// `UNKNOWN_TRANSPORT` for any other ethertype.
pub open spec fn transport_type_of(p: Seq<u8>) -> Option<u8> {
    match network_start_of(p) {
        None => None,
        Some(ns) => if ethertype_of(p) == IPV4 {
            if ns + 9 < p.len() {
                Some(p[ns + 9])
            } else {
                None
            }
        } else {
            Some(UNKNOWN_TRANSPORT)
        },
    }
}

/// Where the session layer starts: for TCP, after the TCP header, whose
/// length in 32-bit words is the high nibble of its byte 12; for UDP,
/// four bytes after the transport start; 0 (unresolved) otherwise.
///
/// The UDP header is eight bytes long; the four used here are kept as the
/// tool has always computed them, so that existing fingerprints stay stable.
pub open spec fn session_start_of(p: Seq<u8>) -> Option<int> {
    match (transport_start_of(p), transport_type_of(p)) {
        (Some(ts), Some(tt)) => if ts == 0 {
            Some(0)
        } else if tt == TCP {
            if ts + 12 < p.len() {
                Some(ts + (p[ts + 12] >> 4u8) * 4)
            } else {
                None
            }
        } else if tt == UDP {
            Some(ts + 4)
        } else {
            Some(0)
        },
        _ => None,
    }
}

pub struct Packet {}

/// The ethertypes that the resolver knows; IPv6 and ARP are known but not
/// decoded, and any other code deserves a diagnostic.
pub open spec fn is_known_ethertype(e: u16) -> bool {
    e == IPV4 || e == VLAN || e == IPV6 || e == ARP
}

impl Packet {
    pub fn get_ethertype(input: &[u8]) -> (r: Option<u16>)
        ensures
            r == (if input@.len() < MAC_LEN {
                None
            } else {
                Some(ethertype_of(input@))
            }),
    {
        if input.len() < MAC_LEN {
            None
        } else {
            Some((input[MAC_LEN - 2] as u16) * 256 + input[MAC_LEN - 1] as u16)
        }
    }

    /// Whether the ethertype is one the resolver knows.
    pub fn is_known_ethertype(e: u16) -> (r: bool)
        ensures
            r == is_known_ethertype(e),
    {
        e == IPV4 || e == VLAN || e == IPV6 || e == ARP
    }

    pub fn get_llc_start() -> (r: usize)
        ensures
            r == MAC_LEN,
    {
        MAC_LEN
    }

    pub fn get_network_start(input: &[u8]) -> (r: Option<usize>)
        ensures
            r matches Some(n) ==> network_start_of(input@) == Some(n as int),
            r is None <==> network_start_of(input@) is None,
    {
        match Self::get_ethertype(input) {
            None => None,
            Some(VLAN) => Some(MAC_LEN + 4),
            Some(_) => Some(MAC_LEN),
        }
    }

    pub fn get_transport_start(input: &[u8]) -> (r: Option<usize>)
        ensures
            r matches Some(n) ==> transport_start_of(input@) == Some(n as int),
            r is None <==> transport_start_of(input@) is None,
    {
        let offset = match Self::get_network_start(input) {
            None => return None,
            Some(n) => n,
        };
        if Self::get_ethertype(input) == Some(IPV4) {
            if offset < input.len() {
                let b = input[offset];
                assert(b & 0x0f <= 15) by (bit_vector);
                Some(offset + ((b & 0x0f) as usize) * 4)
            } else {
                None
            }
        } else {
            Some(offset)
        }
    }

    pub fn get_transport_type(input: &[u8]) -> (r: Option<u8>)
        ensures
            r == transport_type_of(input@),
    {
        let offset = match Self::get_network_start(input) {
            None => return None,
            Some(n) => n,
        };
        if Self::get_ethertype(input) == Some(IPV4) {
            if offset + 9 < input.len() {
                Some(input[offset + 9])
            } else {
                None
            }
        } else {
            Some(UNKNOWN_TRANSPORT)
        }
    }

    pub fn get_session_start(input: &[u8]) -> (r: Option<usize>)
        ensures
            r matches Some(n) ==> session_start_of(input@) == Some(n as int),
            r is None <==> session_start_of(input@) is None,
    {
        let offset = match Self::get_transport_start(input) {
            None => return None,
            Some(n) => n,
        };
        let proto = match Self::get_transport_type(input) {
            None => return None,
            Some(t) => t,
        };
        if offset == 0 {
            Some(0)
        } else if proto == TCP {
            if offset + 12 < input.len() {
                let b = input[offset + 12];
                assert(b >> 4u8 <= 15) by (bit_vector);
                Some(offset + ((b >> 4u8) as usize) * 4)
            } else {
                None
            }
        } else if proto == UDP {
            Some(offset + 4)
        } else {
            Some(0)
        }
    }
}

} // verus!
