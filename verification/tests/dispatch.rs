use vpnhotspotd::addr::{IpAddr, SocketAddr};
use vpnhotspotd::dispatch::{
    Classified, Counters, Delivery, Dispatch, DropReason, Normalized, Principal, Rejected,
};
use vpnhotspotd::packet_writer::fragment_ipv4;
use vpnhotspotd::reassembly::IPV4_REASSEMBLY_TIMEOUT;
use vpnhotspotd::turn::Expiry;
use vpnhotspotd::udp_wire::{build_reply, Reject};

const CLIENT: SocketAddr = SocketAddr { ip: IpAddr::V4(0xc000_0202), port: 4242 };
const REMOTE: SocketAddr = SocketAddr { ip: IpAddr::V4(0xc633_6401), port: 53 };
const NOW: u64 = 1_000;
const UPSTREAM: Classified = Classified::Accepted {
    principal: Principal::Ipv4,
    provisional: false,
};

fn datagram(payload: usize) -> Vec<u8> {
    build_reply(CLIENT, REMOTE, 64, Some(7), &vec![1; payload]).unwrap()
}

fn of_protocol(protocol: u8) -> Vec<u8> {
    let mut packet = datagram(20);
    packet[9] = protocol;
    packet
}

fn dns(provisional: bool) -> Classified {
    Classified::Accepted {
        principal: Principal::Dns,
        provisional,
    }
}

#[test]
fn a_packet_goes_to_the_one_place_it_is_for() {
    let mut dispatch = Dispatch::new();
    let none = || Err(Reject::NotUdp);
    let packet = datagram(5);
    match dispatch.deliver(&packet, dns(false), none()) {
        Delivery::Dns(query) => assert_eq!((query.source, query.payload), (CLIENT, &[1u8; 5][..])),
        _ => unreachable!("a datagram to the resolver"),
    }
    assert!(matches!(dispatch.deliver(&packet, dns(true), none()), Delivery::Nowhere));
    assert!(matches!(dispatch.deliver(&packet, UPSTREAM, none()), Delivery::Relay(_)));
    let mut segment = of_protocol(6);
    segment[32] = 0x50;
    assert!(matches!(
        dispatch.deliver(&segment, dns(false), none()),
        Delivery::Tcp { resolver: true, .. }
    ));
    assert!(matches!(
        dispatch.deliver(&segment, UPSTREAM, none()),
        Delivery::Tcp { resolver: false, .. }
    ));
    assert!(matches!(dispatch.deliver(&of_protocol(1), UPSTREAM, Ok(())), Delivery::Echo));
    assert!(matches!(dispatch.deliver(&of_protocol(1), UPSTREAM, none()), Delivery::Nowhere));
    assert!(matches!(
        dispatch.deliver(&of_protocol(1), UPSTREAM, Err(Reject::Malformed("short"))),
        Delivery::Nowhere
    ));
    for reason in [DropReason::Reserved, DropReason::Unroutable, DropReason::Malformed] {
        assert!(matches!(
            dispatch.deliver(&packet, Classified::Dropped(reason), none()),
            Delivery::Nowhere
        ));
    }
    dispatch.unadmitted();
    assert_eq!(
        dispatch.counters(),
        Counters {
            dns: 3,
            undeliverable_dns: 1,
            relayed: 1,
            tcp: 2,
            echo: 1,
            unsupported: 1,
            unparseable: 1,
            reserved: 1,
            unroutable: 1,
            malformed: 1,
            unadmitted: 1,
            ..Counters::new()
        }
    );
}

#[test]
fn fragments_come_back_as_the_datagram_they_were() {
    let mut dispatch = Dispatch::new();
    let packet = datagram(2000);
    let mut pieces = Vec::new();
    fragment_ipv4(&packet, 1280, &mut pieces).unwrap();
    let untouched = || {
        Ok(Normalized {
            stripped: None,
            consumed: 0,
            fragmenting: false,
        })
    };
    for piece in &pieces {
        assert!(matches!(
            dispatch.deliver(piece, UPSTREAM, Err(Reject::NotUdp)),
            Delivery::Rewrite(Rejected::Fragmented)
        ));
    }
    assert!(dispatch.rewrite(&pieces[1], NOW, Rejected::Fragmented, untouched()).is_none());
    assert_eq!(
        dispatch.rewrite(&pieces[0], NOW, Rejected::Fragmented, untouched()),
        Some(packet)
    );
    assert!(dispatch.rewrite(&pieces[0], NOW, Rejected::Fragmented, untouched()).is_none());
    assert!(dispatch.expire(NOW, Expiry::Delivering).is_empty());
    let quotes = dispatch.expire(NOW + IPV4_REASSEMBLY_TIMEOUT, Expiry::Delivering);
    assert_eq!(quotes.len(), 1);
    assert_eq!(quotes[0][12..20], pieces[0][12..20]);
    assert!(dispatch.rewrite(&pieces[0], NOW, Rejected::Fragmented, untouched()).is_none());
    assert!(
        dispatch.expire(NOW + IPV4_REASSEMBLY_TIMEOUT, Expiry::Maintaining).is_empty(),
        "what cannot be told is not kept"
    );
}

#[test]
fn a_chain_of_headers_is_walked_or_refused() {
    let mut dispatch = Dispatch::new();
    let packet = datagram(5);
    assert!(dispatch.rewrite(&packet, NOW, Rejected::Extended, Err(())).is_none());
    let walked = Ok(Normalized {
        stripped: Some(vec![9; 30]),
        consumed: 3,
        fragmenting: false,
    });
    assert_eq!(dispatch.rewrite(&packet, NOW, Rejected::Extended, walked), Some(vec![9; 30]));
    let nothing = Ok(Normalized {
        stripped: None,
        consumed: 0,
        fragmenting: false,
    });
    assert!(dispatch.rewrite(&packet, NOW, Rejected::Extended, nothing).is_none());
    let counters = dispatch.counters();
    assert_eq!(
        (counters.chain_refused, counters.extended, counters.extension_headers, counters.unsupported),
        (1, 1, 3, 1)
    );
}
