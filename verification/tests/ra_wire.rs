use vpnhotspotd::ra_wire::{
    is_router_link_local, make_current_ra_packet, make_zero_lifetime_ra_packet, Ipv6Inet, RaAdvertisement,
};

#[test]
fn zero_lifetime_ra_withdraws_dns_server() {
    let dns_server = 0xfd47_6b7c_2186_b452_0000_0000_0000_0001;
    let packet = RaAdvertisement {
        dns_server,
        advertised_prefix: Ipv6Inet::new(Ipv6Inet::new(dns_server, 64).unwrap().first_address(), 64).unwrap(),
        mtu: 1500,
        router_lifetime: 0,
        valid_lifetime: 0,
        preferred_lifetime: 0,
        rdnss_lifetime: 0,
    }
    .encode();
    assert_eq!(&packet[20..24], &0u32.to_be_bytes());
    assert_eq!(&packet[24..28], &0u32.to_be_bytes());
    assert_eq!(&packet[packet.len() - 16..], &dns_server.to_be_bytes());
}

#[test]
fn current_ra_masks_gateway_to_advertised_prefix() {
    let gateway = Ipv6Inet::new(0xfd47_6b7c_2186_b452_0000_0000_0000_0001, 64).unwrap();
    let packet = make_current_ra_packet(gateway, 1500);
    assert_eq!(
        &packet[32..48],
        &0xfd47_6b7c_2186_b452_0000_0000_0000_0000u128.to_be_bytes()
    );
    assert_eq!(&packet[64..80], &gateway.address().to_be_bytes());
}

#[test]
fn router_link_local_filter_accepts_only_unicast_link_local() {
    assert!(is_router_link_local(0xfe80_0000_0000_0000_0000_0000_0000_0001));
    assert!(!is_router_link_local(0xfd00_0000_0000_0000_0000_0000_0000_0001));
    assert!(!is_router_link_local(0xff02_0000_0000_0000_0000_0000_0000_0001));
    assert!(!is_router_link_local(1));
}

#[test]
fn a_router_advertisement_is_its_options_in_order() {
    let gateway = Ipv6Inet::new(0xfd47_6b7c_2186_b452_0000_0000_0000_0001, 64).unwrap();
    let packet = make_current_ra_packet(gateway, 1280);
    assert_eq!(packet.len(), 80);
    assert_eq!(packet[0], 134);
    assert_eq!(packet[4], 64);
    assert_eq!(&packet[16..19], &[3, 4, 64]);
    assert_eq!(&packet[48..56], &[5, 1, 0, 0, 0, 0, 5, 0]);
    assert_eq!(&packet[56..58], &[25, 3]);
    let withdrawn = make_zero_lifetime_ra_packet(gateway, 1280, false);
    assert_eq!(&withdrawn[6..8], &[0, 0]);
    assert_eq!(&withdrawn[60..64], &[0; 4]);
    let kept = make_zero_lifetime_ra_packet(gateway, 1280, true);
    assert_ne!(&kept[6..8], &[0, 0]);
    assert_eq!(&kept[20..28], &[0; 8]);
}

#[test]
fn a_prefix_is_the_leading_bits_of_its_address() {
    assert!(Ipv6Inet::new(1, 129).is_none());
    let whole = Ipv6Inet::new(u128::MAX, 0).unwrap();
    assert_eq!(whole.first_address(), 0);
    let host = Ipv6Inet::new(u128::MAX, 128).unwrap();
    assert_eq!(host.first_address(), u128::MAX);
    let inside = Ipv6Inet::new(u128::MAX, 12).unwrap();
    assert_eq!(inside.first_address(), 0xfff0_0000_0000_0000_0000_0000_0000_0000);
}
