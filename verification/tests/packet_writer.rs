use std::cell::Cell;

use etherparse::Ipv4Header;
use vpnhotspotd::addr::IpAddr;
use vpnhotspotd::ipv4_identification::{Denial, Ipv4Identifications, Terminal, Tuple, MDL};
use vpnhotspotd::packet_writer::{
    emit, fragment_ipv4, fragment_ipv6, outcome, size_policy, validate, Addressed, Emitted, Emitter, Outcome,
    Reporter, Sink, Sizing, SizingInput, WriterError, FRAGMENT_ALIGNMENT, IPV4_HEADER_LEN,
    IPV6_FRAGMENT_HEADER_LEN, IPV6_FRAGMENT_NEXT_HEADER, IPV6_HEADER_LEN,
};
use vpnhotspotd::tun_handoff::Batch;

const MTU: usize = 1_500;
const OPENED: u64 = 1_000;
const SOURCE: u128 = 0x2001_0db8_0001_0000_0000_0000_0000_0001;
const DESTINATION: u128 = 0x2001_0db8_0001_0000_0000_0000_0000_0002;
const TUPLE: Tuple = (0xc633_6401, 0xc000_0202, 17);
const UNFRAGMENTABLE_NEXT_HEADERS: [u8; 3] = [0, 43, 60];

fn issuing() -> (Ipv4Identifications, u64) {
    (Ipv4Identifications::new(OPENED), OPENED + MDL)
}

fn datagram(payload_length: usize) -> Vec<u8> {
    let mut packet = vec![0x60, 0, 0, 0];
    packet.extend_from_slice(&(payload_length as u16).to_be_bytes());
    packet.extend_from_slice(&[17, 64]);
    packet.extend_from_slice(&SOURCE.to_be_bytes());
    packet.extend_from_slice(&DESTINATION.to_be_bytes());
    packet.extend((0..payload_length).map(|index| index as u8));
    packet
}

fn ipv4_datagram(payload_length: usize, identification: u16) -> Vec<u8> {
    let mut header = Ipv4Header {
        identification,
        dont_fragment: false,
        time_to_live: 64,
        protocol: etherparse::IpNumber::UDP,
        source: TUPLE.0.to_be_bytes(),
        destination: TUPLE.1.to_be_bytes(),
        ..Default::default()
    };
    header.set_payload_len(payload_length).unwrap();
    header.header_checksum = header.calc_header_checksum();
    let mut packet = header.to_bytes().to_vec();
    packet.extend((0..payload_length).map(|index| index as u8));
    packet
}

fn collect_ipv6(packet: &[u8], mtu: usize, id: u32) -> Result<Vec<Vec<u8>>, WriterError> {
    let mut fragments = Vec::new();
    let emitted = fragment_ipv6(packet, mtu, id, &mut fragments)?;
    assert_eq!(emitted, fragments.len());
    Ok(fragments)
}

fn collect_ipv4(packet: &[u8], mtu: usize) -> Result<Vec<Vec<u8>>, WriterError> {
    let mut fragments = Vec::new();
    let emitted = fragment_ipv4(packet, mtu, &mut fragments)?;
    assert_eq!(emitted, fragments.len());
    Ok(fragments)
}

#[derive(Default)]
struct Observed {
    batches: Vec<Batch>,
    refuse: bool,
}

impl Sink for Observed {
    fn datagram(&mut self, batch: Batch) -> bool {
        self.batches.push(batch);
        !self.refuse
    }
}

#[derive(Default)]
struct Reports(Vec<String>);

impl Reporter for Reports {
    fn unbuildable(&mut self, _source: IpAddr, _destination: IpAddr, error: &WriterError) {
        self.0.push(format!("{error:?}"));
    }
}

fn oversized(
    identifications: &mut Ipv4Identifications,
    now: u64,
    sink: &mut Observed,
) -> (Emitted, Option<u16>) {
    let used = Cell::new(None);
    let mut fragment_identification = 0;
    let emitted = emit(
        identifications,
        SizingInput {
            tuple: Some(TUPLE),
            oversized: true,
            now,
        },
        1_280,
        &mut fragment_identification,
        |value| {
            used.set(value);
            Ok(ipv4_datagram(
                4_000,
                value.expect("oversized IPv4 is guarded"),
            ))
        },
        sink,
    );
    (emitted, used.get())
}

#[test]
fn validate_accepts_only_consistent_packets_within_the_mtu() {
    assert_eq!(validate(&datagram(64), MTU), Ok(()));
    let mut short = datagram(64);
    short.pop();
    assert_eq!(
        validate(&short, MTU),
        Err(WriterError::Malformed("IPv6 payload length disagrees"))
    );
    let oversized = datagram(MTU);
    assert_eq!(
        validate(&oversized, MTU),
        Err(WriterError::TooLarge {
            size: oversized.len(),
            mtu: MTU,
        })
    );
    assert!(matches!(
        validate(&[0x50; 40], MTU),
        Err(WriterError::Malformed(_))
    ));
}

#[test]
fn ipv6_fragments_reassemble_to_the_original_payload() {
    let packet = datagram(4_000);
    let fragments = collect_ipv6(&packet, MTU, 0xdead_beef).unwrap();
    assert!(fragments.len() > 1);
    let mut reassembled = Vec::new();
    for (index, fragment) in fragments.iter().enumerate() {
        assert_eq!(validate(fragment, MTU), Ok(()));
        assert_eq!(fragment[6], IPV6_FRAGMENT_NEXT_HEADER);
        assert_eq!(fragment[IPV6_HEADER_LEN], 17);
        let control =
            u16::from_be_bytes([fragment[IPV6_HEADER_LEN + 2], fragment[IPV6_HEADER_LEN + 3]]);
        assert_eq!(control & 1 == 1, index + 1 < fragments.len());
        assert_eq!((control & !7) as usize, reassembled.len());
        assert_eq!(
            u32::from_be_bytes(
                fragment[IPV6_HEADER_LEN + 4..IPV6_HEADER_LEN + 8]
                    .try_into()
                    .unwrap()
            ),
            0xdead_beef
        );
        reassembled.extend_from_slice(&fragment[IPV6_HEADER_LEN + IPV6_FRAGMENT_HEADER_LEN..]);
    }
    assert_eq!(reassembled, packet[IPV6_HEADER_LEN..]);
    for fragment in &fragments[..fragments.len() - 1] {
        assert_eq!(
            (fragment.len() - IPV6_HEADER_LEN - IPV6_FRAGMENT_HEADER_LEN) % FRAGMENT_ALIGNMENT,
            0
        );
    }
}

#[test]
fn ipv6_fragmenting_rejects_unfragmentable_packets() {
    for next_header in UNFRAGMENTABLE_NEXT_HEADERS
        .iter()
        .chain([IPV6_FRAGMENT_NEXT_HEADER].iter())
    {
        let mut packet = datagram(64);
        packet[6] = *next_header;
        assert!(matches!(
            collect_ipv6(&packet, MTU, 1),
            Err(WriterError::Unfragmentable(_))
        ));
    }
    assert!(matches!(
        collect_ipv6(
            &datagram(4_000),
            IPV6_HEADER_LEN + IPV6_FRAGMENT_HEADER_LEN,
            1
        ),
        Err(WriterError::TooLarge { .. })
    ));
}

#[test]
fn ipv4_fragments_reassemble_to_the_original_payload() {
    let packet = ipv4_datagram(4_000, 0x1234);
    let fragments = collect_ipv4(&packet, MTU).unwrap();
    assert!(fragments.len() > 1);
    let mut reassembled = Vec::new();
    for (index, fragment) in fragments.iter().enumerate() {
        assert_eq!(validate(fragment, MTU), Ok(()));
        let (header, payload) = Ipv4Header::from_slice(fragment).unwrap();
        assert_eq!(header.identification, 0x1234);
        assert!(!header.dont_fragment);
        assert_eq!(header.more_fragments, index + 1 < fragments.len());
        assert_eq!(
            header.fragment_offset.value() as usize * FRAGMENT_ALIGNMENT,
            reassembled.len()
        );
        assert_eq!(header.header_checksum, header.calc_header_checksum());
        reassembled.extend_from_slice(payload);
    }
    assert_eq!(reassembled, packet[IPV4_HEADER_LEN..]);
    for fragment in &fragments[..fragments.len() - 1] {
        assert_eq!((fragment.len() - IPV4_HEADER_LEN) % FRAGMENT_ALIGNMENT, 0);
    }
}

#[test]
fn ipv4_fragmenting_refuses_packets_it_must_not_split() {
    let mut packet = ipv4_datagram(4_000, 1);
    packet[6] |= 0x40;
    assert_eq!(
        collect_ipv4(&packet, MTU),
        Err(WriterError::Unfragmentable("DF is set"))
    );
    let mut packet = ipv4_datagram(4_000, 1);
    packet[6] |= 0x20;
    assert_eq!(
        collect_ipv4(&packet, MTU),
        Err(WriterError::Unfragmentable("already fragmented"))
    );
    let mut packet = ipv4_datagram(4_000, 1);
    packet[0] = 0x46;
    assert!(matches!(
        collect_ipv4(&packet, MTU),
        Err(WriterError::Unfragmentable(_))
    ));
    assert!(matches!(
        collect_ipv4(&ipv4_datagram(4_000, 1), IPV4_HEADER_LEN),
        Err(WriterError::TooLarge { .. })
    ));
}

#[test]
fn only_oversized_ipv4_spends_an_identification() {
    let (mut identifications, now) = issuing();
    assert_eq!(
        size_policy(
            &mut identifications,
            SizingInput {
                tuple: Some(TUPLE),
                oversized: false,
                now,
            }
        ),
        Sizing::Atomic
    );
    assert_eq!(
        size_policy(
            &mut identifications,
            SizingInput {
                tuple: None,
                oversized: true,
                now,
            }
        ),
        Sizing::Atomic,
        "IPv6 carries a fragment identification of its own and never one of these"
    );
    assert!(
        identifications.is_empty(),
        "and neither creates a tuple row at all"
    );
    let Sizing::Fragmentable(first) = size_policy(
        &mut identifications,
        SizingInput {
            tuple: Some(TUPLE),
            oversized: true,
            now,
        },
    ) else {
        panic!("oversized IPv4 must be fragmentable");
    };
    assert_eq!(first.identification(), 1);
    assert_eq!(identifications.len(), 1);
}

#[test]
fn an_atomic_ipv4_datagram_is_emitted_without_asking_for_a_value() {
    let (mut identifications, now) = issuing();
    let mut fragment_identification = 0;
    let mut sink = Observed::default();
    let emitted = emit(
        &mut identifications,
        SizingInput {
            tuple: Some(TUPLE),
            oversized: false,
            now,
        },
        1_280,
        &mut fragment_identification,
        |identification| {
            assert_eq!(identification, None, "an atomic datagram is not guarded");
            Ok(ipv4_datagram(64, 0))
        },
        &mut sink,
    );
    assert_eq!(
        emitted,
        Emitted::Handed {
            queued: 1,
            refused: 0,
        }
    );
    assert_eq!(sink.batches[0].guarded(), None);
    assert!(identifications.is_empty());
}

#[test]
fn packetization_hands_all_ipv4_fragments_over_once() {
    let (mut identifications, now) = issuing();
    let mut sink = Observed::default();
    let (emitted, identification) = oversized(&mut identifications, now, &mut sink);

    assert_eq!(sink.batches.len(), 1);
    let packets = sink.batches[0].packets();
    assert!(packets.len() > 1);
    assert_eq!(
        emitted,
        Emitted::Handed {
            queued: packets.len(),
            refused: 0,
        }
    );
    assert!(packets.iter().all(|packet| packet.len() <= 1_280));
    assert!(packets.iter().all(|packet| {
        Ipv4Header::from_slice(packet).unwrap().0.identification == identification.unwrap()
    }));
    assert_eq!(
        sink.batches[0].guarded().map(|guarded| guarded.tuple()),
        Some(TUPLE),
        "the batch carries the identity the writer settles against"
    );
    assert_eq!(identifications.outstanding(), 1);
}

#[test]
fn sink_refusal_refuses_the_whole_batch_and_gives_its_value_back() {
    let (mut identifications, now) = issuing();
    let mut sink = Observed {
        refuse: true,
        ..Observed::default()
    };
    let (emitted, first) = oversized(&mut identifications, now, &mut sink);
    assert_eq!(sink.batches.len(), 1);
    assert_eq!(
        emitted,
        Emitted::Handed {
            queued: 0,
            refused: sink.batches[0].packets().len(),
        }
    );
    assert_eq!(
        identifications.outstanding(),
        0,
        "a refused datagram is not one the writer owes an ending for"
    );

    sink.refuse = false;
    let (_, second) = oversized(&mut identifications, now, &mut sink);
    assert_eq!(
        second, first,
        "nothing carrying it reached the wire, so the value is issued again"
    );
}

#[test]
fn unbuildable_packet_hands_nothing_to_the_sink_and_gives_its_value_back() {
    let (mut identifications, now) = issuing();
    let mut fragment_identification = 0;
    let mut sink = Observed::default();
    let used = Cell::new(None);
    let emitted = emit(
        &mut identifications,
        SizingInput {
            tuple: Some(TUPLE),
            oversized: true,
            now,
        },
        1_280,
        &mut fragment_identification,
        |identification| {
            used.set(identification);
            let mut packet = ipv4_datagram(4_000, identification.unwrap());
            packet[6] |= 0x40;
            Ok(packet)
        },
        &mut sink,
    );
    assert_eq!(
        emitted,
        Emitted::Unbuildable(WriterError::Unfragmentable("DF is set"))
    );
    assert!(sink.batches.is_empty());
    let (_, next) = oversized(&mut identifications, now, &mut sink);
    assert_eq!(
        next,
        used.get(),
        "a datagram that was never built cannot be on the wire under that value"
    );
}

#[test]
fn a_quarantined_session_drops_oversized_ipv4_rather_than_guessing_a_value() {
    let opened = OPENED;
    let mut identifications = Ipv4Identifications::new(opened);
    let mut sink = Observed::default();
    let mut fragment_identification = 0;
    let emitted = emit(
        &mut identifications,
        SizingInput {
            tuple: Some(TUPLE),
            oversized: true,
            now: opened,
        },
        1_280,
        &mut fragment_identification,
        |_| panic!("a denied datagram is never built"),
        &mut sink,
    );
    assert_eq!(emitted, Emitted::Denied(Denial::Quarantined));
    assert_eq!(outcome(emitted), Outcome::Counted);
    assert!(sink.batches.is_empty());

    // Atomic output of the same tuple is unaffected, because it carries no value to collide.
    let emitted = emit(
        &mut identifications,
        SizingInput {
            tuple: Some(TUPLE),
            oversized: false,
            now: opened,
        },
        1_280,
        &mut fragment_identification,
        |_| Ok(ipv4_datagram(64, 0)),
        &mut sink,
    );
    assert_eq!(
        emitted,
        Emitted::Handed {
            queued: 1,
            refused: 0,
        }
    );
}

#[test]
fn an_exhausted_tuple_denies_only_oversized_output_until_its_window_passes() {
    let (mut identifications, now) = issuing();
    let mut sink = Observed::default();
    let mut last = None;
    for _ in 0..(1u32 << 16) {
        last = Some(
            identifications
                .next(TUPLE, now)
                .expect("a fresh cycle issues the whole space"),
        );
    }
    let last = last.expect("the cycle issued something");
    identifications.accepted(last);
    let wrote = now + 1_000_000_000;
    identifications.terminal(Terminal::wrote(last, wrote));

    let (emitted, _) = oversized(&mut identifications, wrote, &mut sink);
    assert_eq!(emitted, Emitted::Denied(Denial::Exhausted));
    assert!(sink.batches.is_empty());
    assert_eq!(identifications.exhausted(), 1);

    let (emitted, value) = oversized(&mut identifications, wrote + MDL, &mut sink);
    assert!(matches!(emitted, Emitted::Handed { refused: 0, .. }));
    assert_eq!(value, Some(1), "the new cycle starts at the beginning");
}

#[test]
fn oversized_ipv6_is_one_batch_with_one_fragment_id() {
    let (mut identifications, now) = issuing();
    let mut fragment_identification = 0;
    let mut sink = Observed::default();
    let emitted = emit(
        &mut identifications,
        SizingInput {
            tuple: None,
            oversized: true,
            now,
        },
        1_280,
        &mut fragment_identification,
        |identification| {
            assert_eq!(identification, None);
            Ok(datagram(4_000))
        },
        &mut sink,
    );
    assert_eq!(fragment_identification, 1);
    assert_eq!(sink.batches.len(), 1);
    assert_eq!(
        emitted,
        Emitted::Handed {
            queued: sink.batches[0].packets().len(),
            refused: 0,
        }
    );
    assert_eq!(sink.batches[0].guarded(), None);
    assert!(sink.batches[0].packets().iter().all(|packet| {
        u32::from_be_bytes(
            packet[IPV6_HEADER_LEN + 4..IPV6_HEADER_LEN + 8]
                .try_into()
                .unwrap(),
        ) == 1
    }));
}

#[test]
fn emitter_counts_packets_denials_and_reports_packetization_failures() {
    let opened = OPENED;
    let now = opened + MDL;
    let source = IpAddr::V4(TUPLE.0);
    let destination = IpAddr::V4(TUPLE.1);
    let mut emitter = Emitter::new(1_280, opened);
    let mut sink = Observed::default();
    let mut reports = Reports::default();
    assert!(
        emitter.emit(
            now,
            Addressed {
                source,
                destination,
                protocol: 17,
                size: 4_020,
            },
            |identification| Ok(ipv4_datagram(4_000, identification.unwrap())),
            &mut sink,
            &mut reports,
        ),
        "the whole datagram reached the interface queue"
    );
    assert_eq!(emitter.queued(), sink.batches[0].packets().len() as u64);
    assert_eq!(emitter.handoff_refused(), 0);
    let guarded = sink.batches[0].guarded().expect("guarded");
    assert_eq!(emitter.identifications().outstanding(), 1);
    emitter.terminal(Terminal::wrote(guarded, now));
    assert_eq!(emitter.identifications().outstanding(), 0);

    assert!(
        !emitter.emit(
            now,
            Addressed {
                source,
                destination,
                protocol: 17,
                size: 4_020,
            },
            |identification| {
                let mut packet = ipv4_datagram(4_000, identification.unwrap());
                packet[6] |= 0x40;
                Ok(packet)
            },
            &mut sink,
            &mut reports,
        ),
        "a datagram the daemon could not split reached nothing"
    );
    assert_eq!(emitter.unbuildable(), 1);
    assert_eq!(reports.0.len(), 1);
    assert!(reports.0[0].contains("DF is set"));

    // Inside the opening quarantine nothing oversized is issued a value, and that is counted apart.
    assert!(
        !emitter.emit(
            opened,
            Addressed {
                source,
                destination,
                protocol: 17,
                size: 4_020,
            },
            |_| panic!("a denied datagram is never built"),
            &mut sink,
            &mut reports,
        ),
        "a denied datagram reached nothing either"
    );
    assert_eq!(emitter.denied(), 1);
    assert_eq!(reports.0.len(), 1, "a denial is not a daemon defect");
    assert_eq!(
        emitter.queued(),
        sink.batches[0].packets().len() as u64,
        "and neither of them was counted as queued"
    );

    assert!(!emitter.handed(false));
    assert_eq!(emitter.handoff_refused(), 1);
    assert!(emitter.handed(true));
}

#[test]
fn a_refused_handoff_is_not_reported_as_queued() {
    let opened = OPENED;
    let now = opened + MDL;
    let mut emitter = Emitter::new(1_280, opened);
    let mut sink = Observed {
        refuse: true,
        ..Observed::default()
    };
    let mut reports = Reports::default();
    assert!(
        !emitter.emit(
            now,
            Addressed {
                source: IpAddr::V4(TUPLE.0),
                destination: IpAddr::V4(TUPLE.1),
                protocol: 17,
                size: 4_020,
            },
            |identification| Ok(ipv4_datagram(4_000, identification.unwrap())),
            &mut sink,
            &mut reports,
        ),
        "a datagram the interface queue would not take reached nothing"
    );
    assert_eq!(emitter.queued(), 0);
    assert_eq!(
        emitter.handoff_refused(),
        sink.batches[0].packets().len() as u64,
        "every fragment of the one datagram is counted refused, and none queued"
    );
    assert_eq!(emitter.identifications().outstanding(), 0);
}
