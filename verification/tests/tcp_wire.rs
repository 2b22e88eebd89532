use vpnhotspotd::addr::{IpAddr, SocketAddr};
use vpnhotspotd::tcp_wire::peek;
use vpnhotspotd::udp_wire::Reject;

const FLAG_SYN: u8 = 0x02;
const FLAG_RST: u8 = 0x04;
const CLIENT: SocketAddr = SocketAddr { ip: IpAddr::V4(0xc000_0201), port: 40000 };
const REMOTE: SocketAddr = SocketAddr { ip: IpAddr::V4(0xc633_6407), port: 443 };

/// An IPv4 TCP segment with the flags byte the caller asks for.
fn ipv4(flags: u8) -> Vec<u8> {
    let mut packet = vec![0x45, 0, 0, 40, 0, 0, 0, 0, 64, 6, 0, 0];
    packet.extend_from_slice(&[192, 0, 2, 1]);
    packet.extend_from_slice(&[198, 51, 100, 7]);
    packet.extend_from_slice(&40000u16.to_be_bytes());
    packet.extend_from_slice(&443u16.to_be_bytes());
    packet.extend_from_slice(&[0; 8]);
    packet.push(0x50);
    packet.push(flags);
    packet.extend_from_slice(&[0; 6]);
    packet
}

#[test]
fn a_syn_names_its_flow_and_announces_itself() {
    let segment = peek(&ipv4(FLAG_SYN)).unwrap();
    assert_eq!(segment.source, CLIENT);
    assert_eq!(segment.destination, REMOTE);
    assert_eq!(segment.hop_limit, 64);
    assert!(segment.syn);
    assert!(!segment.rst);
    // an ACK carrying data is the same flow and not a new one
    assert!(!peek(&ipv4(0x10)).unwrap().syn);
}

#[test]
fn a_reset_bit_is_read_as_a_candidate_and_nothing_more() {
    // What the flag is for: telling the owner which packets to watch a socket across. Whether any of
    // these is a reset at all is the stack's answer, not this one's.
    let segment = peek(&ipv4(FLAG_RST)).unwrap();
    assert!(segment.rst);
    assert!(!segment.syn, "a reset is not an opening");
    assert_eq!(segment.source, CLIENT);
    // A reset acknowledging the peer's own FIN is the case that matters - it names a flow whose clean
    // ending this daemon may already have extracted.
    let after_fin = peek(&ipv4(FLAG_RST | 0x10)).unwrap();
    assert!(after_fin.rst);
    // And an ordinary segment carries neither.
    let plain = peek(&ipv4(0x10)).unwrap();
    assert!(!plain.rst);
    assert!(!plain.syn);
    // FIN alone is an ending, never an abort.
    assert!(!peek(&ipv4(0x11)).unwrap().rst);
}

#[test]
fn other_protocols_fragments_and_truncation_are_separated() {
    let mut packet = ipv4(FLAG_SYN);
    packet[9] = 17;
    assert_eq!(peek(&packet), Err(Reject::NotUdp));

    let mut packet = ipv4(FLAG_SYN);
    packet[6] |= 0x20;
    assert_eq!(peek(&packet), Err(Reject::Fragmented));

    let packet = ipv4(FLAG_SYN);
    assert!(matches!(peek(&packet[..30]), Err(Reject::Malformed(_))));
    assert!(matches!(peek(&[]), Err(Reject::Malformed(_))));
}

#[test]
fn an_ipv6_segment_is_read_behind_its_fixed_header() {
    let mut packet = vec![0x60, 0, 0, 0, 0, 20, 6, 63];
    packet.extend_from_slice(&1u128.to_be_bytes());
    packet.extend_from_slice(&2u128.to_be_bytes());
    packet.extend_from_slice(&ipv4(FLAG_SYN)[20..]);
    let segment = peek(&packet).unwrap();
    assert_eq!(segment.source, SocketAddr { ip: IpAddr::V6(1), port: 40000 });
    assert_eq!(segment.destination, SocketAddr { ip: IpAddr::V6(2), port: 443 });
    assert_eq!(segment.hop_limit, 63);
    assert!(segment.syn);
    packet[6] = 44;
    assert_eq!(peek(&packet), Err(Reject::Fragmented));
    packet[6] = 0;
    assert_eq!(peek(&packet), Err(Reject::Extended));
}
