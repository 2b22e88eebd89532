use vpnhotspotd::addr::{IpAddr, SocketAddr};
use vpnhotspotd::packet_writer::{validate, WriterError, IPV4_HEADER_LEN, IPV6_HEADER_LEN};
use vpnhotspotd::udp_wire::{build_reply, parse, Reject, Relayed};

const CLIENT4: SocketAddr = SocketAddr { ip: IpAddr::V4(0xc000_0202), port: 4242 };
const REMOTE4: SocketAddr = SocketAddr { ip: IpAddr::V4(0xc633_6401), port: 53 };
const CLIENT6: SocketAddr = SocketAddr {
    ip: IpAddr::V6(0x2001_0db8_0001_0000_0000_0000_0000_0002),
    port: 4242,
};
const REMOTE6: SocketAddr = SocketAddr {
    ip: IpAddr::V6(0x2606_4700_4700_0000_0000_0000_0000_1111),
    port: 53,
};

fn client_datagram(client: SocketAddr, remote: SocketAddr, payload: &[u8]) -> Vec<u8> {
    build_reply(client, remote, 64, None, payload).unwrap()
}

#[test]
fn a_well_formed_datagram_round_trips() {
    for (client, remote) in [(CLIENT4, REMOTE4), (CLIENT6, REMOTE6)] {
        let packet = client_datagram(client, remote, b"query");
        assert_eq!(
            parse(&packet),
            Ok(Relayed {
                source: client,
                destination: remote,
                hop_limit: 64,
                dont_fragment: true,
                payload: b"query",
            })
        );
    }
}

#[test]
fn a_cleared_ipv4_df_bit_is_reported() {
    let packet = build_reply(CLIENT4, REMOTE4, 64, Some(7), b"query").unwrap();
    assert!(!parse(&packet).unwrap().dont_fragment);
    assert_eq!(u16::from_be_bytes([packet[4], packet[5]]), 7);
}

#[test]
fn corruption_is_caught_by_the_checksum() {
    for (client, remote) in [(CLIENT4, REMOTE4), (CLIENT6, REMOTE6)] {
        let mut packet = client_datagram(client, remote, b"query");
        *packet.last_mut().unwrap() ^= 0xff;
        assert!(matches!(parse(&packet), Err(Reject::Malformed(_))));
    }
}

#[test]
fn an_omitted_ipv4_checksum_is_accepted_but_a_missing_ipv6_one_is_not() {
    let mut packet = client_datagram(CLIENT4, REMOTE4, b"query");
    let checksum = IPV4_HEADER_LEN + 6;
    packet[checksum..checksum + 2].copy_from_slice(&[0, 0]);
    assert_eq!(parse(&packet).unwrap().payload, b"query");

    let mut packet = client_datagram(CLIENT6, REMOTE6, b"query");
    let checksum = IPV6_HEADER_LEN + 6;
    packet[checksum..checksum + 2].copy_from_slice(&[0, 0]);
    assert_eq!(
        parse(&packet),
        Err(Reject::Malformed("IPv6 UDP checksum absent"))
    );
}

#[test]
fn fragments_and_other_transports_are_separated_from_malformed_input() {
    let mut packet = client_datagram(CLIENT4, REMOTE4, b"query");
    packet[6] |= 0x20;
    assert_eq!(parse(&packet), Err(Reject::Fragmented));

    let mut packet = client_datagram(CLIENT4, REMOTE4, b"query");
    packet[9] = 6;
    assert_eq!(parse(&packet), Err(Reject::NotUdp));

    let mut packet = client_datagram(CLIENT6, REMOTE6, b"query");
    packet[6] = 44;
    assert_eq!(parse(&packet), Err(Reject::Fragmented));

    let mut packet = client_datagram(CLIENT6, REMOTE6, b"query");
    packet[6] = 0;
    assert_eq!(parse(&packet), Err(Reject::Extended));

    let mut packet = client_datagram(CLIENT6, REMOTE6, b"query");
    packet[6] = 58;
    assert_eq!(parse(&packet), Err(Reject::NotUdp));
}

#[test]
fn self_inconsistent_lengths_are_rejected() {
    for (client, remote) in [(CLIENT4, REMOTE4), (CLIENT6, REMOTE6)] {
        let mut packet = client_datagram(client, remote, b"query");
        packet.pop();
        assert!(matches!(parse(&packet), Err(Reject::Malformed(_))));
    }
    let mut packet = client_datagram(CLIENT4, REMOTE4, b"query");
    let length = IPV4_HEADER_LEN + 4;
    packet[length..length + 2].copy_from_slice(&8u16.to_be_bytes());
    assert_eq!(
        parse(&packet),
        Err(Reject::Malformed("UDP length disagrees"))
    );
    assert!(matches!(parse(&[]), Err(Reject::Malformed(_))));
    assert!(matches!(parse(&[0x45; 8]), Err(Reject::Malformed(_))));
}

#[test]
fn port_zero_is_rejected() {
    let packet = client_datagram(
        SocketAddr { ip: CLIENT4.ip, port: 0 },
        SocketAddr { ip: REMOTE4.ip, port: 53 },
        b"query",
    );
    assert_eq!(parse(&packet), Err(Reject::Malformed("UDP port 0")));
}

#[test]
fn replies_are_writable_packets_addressed_back_to_the_client() {
    for (client, remote) in [(CLIENT4, REMOTE4), (CLIENT6, REMOTE6)] {
        let reply = build_reply(remote, client, 57, None, b"answer").unwrap();
        assert_eq!(validate(&reply, 1500), Ok(()));
        let parsed = parse(&reply).unwrap();
        assert_eq!(parsed.source, remote);
        assert_eq!(parsed.destination, client);
        assert_eq!(parsed.hop_limit, 57);
        assert_eq!(parsed.payload, b"answer");
    }
}

#[test]
fn a_reply_across_families_is_refused() {
    assert_eq!(
        build_reply(REMOTE4, CLIENT6, 64, None, b"answer"),
        Err(WriterError::Malformed("reply crosses address families"))
    );
}

#[test]
fn a_reply_is_the_octets_of_its_headers() {
    let reply = build_reply(REMOTE4, CLIENT4, 57, Some(0x0102), b"ok").unwrap();
    assert_eq!(
        reply,
        vec![
            0x45, 0, 0, 30, 1, 2, 0, 0, 57, 17, 0x94, 0x96, 198, 51, 100, 1, 192, 0, 2, 2, 0, 53, 0x10, 0x92, 0,
            10, 0x93, 0x70, b'o', b'k',
        ]
    );
    assert_eq!(
        build_reply(REMOTE4, CLIENT4, 57, None, &vec![0; 65_508]).unwrap_err(),
        WriterError::Malformed("reply exceeds an IPv4 datagram")
    );
    assert!(build_reply(REMOTE4, CLIENT4, 57, None, &vec![0; 65_507]).is_ok());
    assert!(build_reply(REMOTE6, CLIENT6, 57, None, &vec![0; 65_527]).is_ok());
    assert!(build_reply(REMOTE6, CLIENT6, 57, None, &vec![0; 65_528]).is_err());
}

#[test]
fn any_changed_payload_octet_is_a_checksum_mismatch() {
    for (client, remote, header, told) in [
        (CLIENT4, REMOTE4, IPV4_HEADER_LEN, "IPv4 UDP checksum mismatch"),
        (CLIENT6, REMOTE6, IPV6_HEADER_LEN, "IPv6 UDP checksum mismatch"),
    ] {
        let packet = client_datagram(client, remote, b"query");
        for at in header + 8..packet.len() {
            for change in 1..=255u8 {
                let mut changed = packet.clone();
                changed[at] ^= change;
                assert_eq!(parse(&changed), Err(Reject::Malformed(told)), "octet {at}, change {change}");
            }
        }
    }
}
