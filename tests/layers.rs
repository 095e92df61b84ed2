use pcap_dedup::packets::Packet;

fn eth_ipv4_tcp() -> Vec<u8> {
    let mut f = vec![0u8; 54 + 8];
    f[12] = 0x08;
    f[13] = 0x00;
    f[14] = 0x45; // IPv4, header length 5 words
    f[14 + 9] = 6; // TCP
    f[34 + 12] = 0x50; // data offset 5 words
    f
}

#[test]
fn ipv4_tcp_layer_offsets() {
    let f = eth_ipv4_tcp();
    assert_eq!(Packet::get_ethertype(&f), Some(0x0800));
    assert_eq!(Packet::get_llc_start(), 14);
    assert_eq!(Packet::get_network_start(&f), Some(14));
    assert_eq!(Packet::get_transport_start(&f), Some(34));
    assert_eq!(Packet::get_transport_type(&f), Some(6));
    assert_eq!(Packet::get_session_start(&f), Some(54));
}

#[test]
fn vlan_network_start() {
    let mut f = vec![0u8; 40];
    f[12] = 0x81;
    f[13] = 0x00;
    assert_eq!(Packet::get_ethertype(&f), Some(0x8100));
    assert_eq!(Packet::get_network_start(&f), Some(18));
    assert_eq!(Packet::get_transport_start(&f), Some(18));
    assert_eq!(Packet::get_transport_type(&f), Some(255));
    // unknown transport: session layer is unresolved
    assert_eq!(Packet::get_session_start(&f), Some(0));
}

#[test]
fn udp_session_start_is_four_past_transport() {
    let mut f = eth_ipv4_tcp();
    f[14 + 9] = 0x11;
    f[14] = 0x46; // header length 6 words
    assert_eq!(Packet::get_transport_start(&f), Some(38));
    assert_eq!(Packet::get_session_start(&f), Some(42));
}

#[test]
fn unsupported_ethertypes_add_nothing() {
    for et in [0x86ddu16, 0x0806, 0x1234] {
        let mut f = vec![0u8; 20];
        f[12] = (et >> 8) as u8;
        f[13] = et as u8;
        assert_eq!(Packet::get_network_start(&f), Some(14));
        assert_eq!(Packet::get_transport_start(&f), Some(14));
        assert_eq!(Packet::get_transport_type(&f), Some(255));
    }
}

#[test]
fn short_frames_are_indeterminate() {
    let f = vec![0u8; 13];
    assert_eq!(Packet::get_ethertype(&f), None);
    assert_eq!(Packet::get_network_start(&f), None);
    assert_eq!(Packet::get_transport_start(&f), None);
    assert_eq!(Packet::get_session_start(&f), None);
    // IPv4 ethertype but no IP header byte
    let mut g = vec![0u8; 14];
    g[12] = 0x08;
    assert_eq!(Packet::get_network_start(&g), Some(14));
    assert_eq!(Packet::get_transport_start(&g), None);
    assert_eq!(Packet::get_transport_type(&g), None);
    // TCP header cut before its data offset byte
    let mut h = eth_ipv4_tcp();
    h.truncate(40);
    assert_eq!(Packet::get_transport_start(&h), Some(34));
    assert_eq!(Packet::get_session_start(&h), None);
}

#[test]
fn known_ethertypes() {
    for et in [0x0800u16, 0x8100, 0x86dd, 0x0806] {
        assert!(Packet::is_known_ethertype(et));
    }
    assert!(!Packet::is_known_ethertype(0x1234));
    assert!(!Packet::is_known_ethertype(0));
}
