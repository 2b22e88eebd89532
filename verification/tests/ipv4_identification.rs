use vpnhotspotd::addr::{IpAddr, SocketAddr};
use vpnhotspotd::ipv4_identification::{Denial, Ipv4Identifications, Terminal, MDL};
use vpnhotspotd::output::{datagram, describe, header_len};
use vpnhotspotd::packet_writer::{Emitter, Reporter, Sink, WriterError};
use vpnhotspotd::tun_handoff::Batch;

const TUPLE: (u32, u32, u8) = (1, 2, 17);

#[test]
fn nothing_is_issued_before_the_quarantine_has_passed() {
    let mut identifications = Ipv4Identifications::new(1_000);
    assert_eq!(identifications.next(TUPLE, 1_000 + MDL - 1), Err(Denial::Quarantined));
    assert!(identifications.is_empty());
    assert_eq!(identifications.next(TUPLE, 1_000 + MDL).unwrap().identification(), 1);
}

#[test]
fn the_values_of_a_cycle_all_differ() {
    let mut identifications = Ipv4Identifications::new(0);
    let mut seen = vec![false; 1 << 16];
    for _ in 0..1u32 << 16 {
        let guarded = identifications.next(TUPLE, MDL).unwrap();
        let value = guarded.identification() as usize;
        assert!(!seen[value]);
        seen[value] = true;
        identifications.accepted(guarded);
    }
    assert_eq!(identifications.next(TUPLE, MDL), Err(Denial::Exhausted));
    assert_eq!(identifications.exhausted(), 1);
    assert!(identifications.next((1, 2, 6), MDL).is_ok(), "another tuple has its own values");
}

#[test]
fn a_value_that_reached_nothing_is_issued_again() {
    let mut identifications = Ipv4Identifications::new(0);
    let first = identifications.next(TUPLE, MDL).unwrap();
    identifications.unissued(first);
    let again = identifications.next(TUPLE, MDL).unwrap();
    assert_eq!(again.identification(), first.identification());
    identifications.accepted(again);
    assert_eq!(identifications.outstanding(), 1);
    identifications.terminal(Terminal::unwritten(again));
    assert_eq!(identifications.outstanding(), 0);
    assert_ne!(identifications.next(TUPLE, MDL).unwrap().identification(), again.identification());
}

#[derive(Default)]
struct Batches(Vec<Batch>);

impl Sink for Batches {
    fn datagram(&mut self, batch: Batch) -> bool {
        self.0.push(batch);
        true
    }
}

#[derive(Default)]
struct Failures(Vec<String>);

impl Reporter for Failures {
    fn unbuildable(&mut self, _source: IpAddr, _destination: IpAddr, error: &WriterError) {
        self.0.push(format!("{error:?}"));
    }
}

#[test]
fn a_datagram_is_written_whole_or_in_fragments() {
    let source = SocketAddr { ip: IpAddr::V4(1), port: 53 };
    let destination = SocketAddr { ip: IpAddr::V4(2), port: 4242 };
    let mut emitter = Emitter::new(1_280, 0);
    let (mut sink, mut failures) = (Batches::default(), Failures::default());
    assert!(datagram(&mut emitter, MDL, source, destination, 64, &[1; 1_252], &mut sink, &mut failures));
    assert_eq!(sink.0[0].packets().len(), 1);
    assert_eq!(sink.0[0].packets()[0].len(), 1_280);
    assert!(sink.0[0].guarded().is_none());
    assert!(datagram(&mut emitter, MDL, source, destination, 64, &[1; 1_253], &mut sink, &mut failures));
    assert_eq!(sink.0[1].packets().len(), 2);
    assert_eq!(sink.0[1].guarded().unwrap().identification(), 1);
    let elsewhere = SocketAddr { ip: IpAddr::V6(2), port: 4242 };
    assert!(!datagram(&mut emitter, MDL, source, elsewhere, 64, b"x", &mut sink, &mut failures));
    assert_eq!(failures.0.len(), 1);
    assert_eq!(
        describe(&emitter, "none"),
        "mtu 1280 queued-packets 3 handoff-refused-packets 0 unbuildable 1 identification-denied 0; none"
    );
    assert_eq!((header_len(false), header_len(true)), (20, 40));
}
