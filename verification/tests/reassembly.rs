use vpnhotspotd::addr::{IpAddr, SocketAddr};
use vpnhotspotd::packet_writer::{
    fragment_ipv4, fragment_ipv6, IPV4_HEADER_LEN, IPV6_FRAGMENT_HEADER_LEN, IPV6_HEADER_LEN,
};
use vpnhotspotd::reassembly::{
    merge_ranges, Accepted, Counters, Reject, Span, Table, IPV4_REASSEMBLY_TIMEOUT, IPV6_REASSEMBLY_TIMEOUT,
    MAX_ENCODED_LENGTH,
};
use vpnhotspotd::udp_wire::{self, build_reply};

const NOW: u64 = 1_000;
const CLIENT4: u32 = 0xc000_0201;
const REMOTE4: u32 = 0xc633_6407;
const CLIENT6: u128 = 0x2001_0db8_0001_0000_0000_0000_0000_0002;
const REMOTE6: u128 = 0x2606_4700_0000_0000_0000_0000_0000_1111;

fn datagram(ipv6: bool, payload: usize) -> Vec<u8> {
    let (client, remote) = if ipv6 {
        (IpAddr::V6(CLIENT6), IpAddr::V6(REMOTE6))
    } else {
        (IpAddr::V4(CLIENT4), IpAddr::V4(REMOTE4))
    };
    let client = SocketAddr { ip: client, port: 40000 };
    let remote = SocketAddr { ip: remote, port: 443 };
    build_reply(client, remote, 64, Some(0x1234), &vec![0x5au8; payload]).unwrap()
}

fn fragments(packet: &[u8], mtu: usize) -> Vec<Vec<u8>> {
    let mut pieces = Vec::new();
    if packet[0] >> 4 == 6 {
        fragment_ipv6(packet, mtu, 0x9abcdef0, &mut pieces).unwrap();
    } else {
        fragment_ipv4(packet, mtu, &mut pieces).unwrap();
    }
    pieces
}

fn span(start: usize, end: usize) -> Span {
    Span { start, end }
}

struct Fixture {
    table: Table,
}

impl Fixture {
    fn accept(&mut self, packet: &[u8], now: u64) -> Result<Accepted, Reject> {
        self.table.accept(packet, now)
    }

    fn sweep(&mut self, now: u64, quotes: &mut Vec<Vec<u8>>) -> u64 {
        self.table.sweep(now, quotes)
    }
}

fn table() -> Fixture {
    Fixture {
        table: Table::new(),
    }
}

#[test]
fn fragments_reassemble_to_the_original_datagram() {
    for ipv6 in [false, true] {
        let packet = datagram(ipv6, 3000);
        let pieces = fragments(&packet, 1280);
        assert!(pieces.len() > 2, "{} pieces", pieces.len());
        let mut table = table();
        let now = NOW;
        let mut completed = None;
        for piece in &pieces {
            match table.accept(piece, now).unwrap() {
                Accepted::Pending => {}
                Accepted::Complete(whole) => completed = Some(whole),
            }
        }
        assert_eq!(completed.as_deref(), Some(packet.as_slice()), "ipv6 {ipv6}");
        assert!(udp_wire::parse(&completed.unwrap()).is_ok(), "ipv6 {ipv6}");
        assert!(table.table.len() == 0);
    }
}

#[test]
fn order_does_not_matter() {
    for ipv6 in [false, true] {
        let packet = datagram(ipv6, 2500);
        let mut pieces = fragments(&packet, 1280);
        pieces.reverse();
        let mut table = table();
        let now = NOW;
        let mut completed = None;
        for piece in &pieces {
            if let Accepted::Complete(whole) = table.accept(piece, now).unwrap() {
                completed = Some(whole);
            }
        }
        assert_eq!(completed.as_deref(), Some(packet.as_slice()), "ipv6 {ipv6}");
    }
}

#[test]
fn an_overlapping_fragment_discards_the_whole_datagram() {
    for ipv6 in [false, true] {
        let packet = datagram(ipv6, 3000);
        let pieces = fragments(&packet, 1280);
        let mut table = table();
        let now = NOW;
        assert_eq!(table.accept(&pieces[0], now), Ok(Accepted::Pending));
        assert_eq!(table.accept(&pieces[0], now), Err(Reject::Overlap));
        assert!(table.table.len() == 0, "ipv6 {ipv6}");
        for piece in &pieces[1..] {
            assert_eq!(table.accept(piece, now), Ok(Accepted::Pending));
        }
    }
}

#[test]
fn a_fragment_reaching_past_a_declared_total_is_refused() {
    let packet = datagram(false, 3000);
    let pieces = fragments(&packet, 1280);
    let tail = pieces.last().unwrap();
    let mut held = table();
    let now = NOW;
    assert_eq!(held.accept(tail, now), Ok(Accepted::Pending));
    let flags = u16::from_be_bytes([tail[6], tail[7]]);
    let header = ((tail[0] & 0xf) as usize) * 4;
    let total = ((flags & 0x1fff) as usize) * 8 + (tail.len() - header);
    let mut beyond = pieces[0].clone();
    beyond[6..8].copy_from_slice(&(0x2000 | (total / 8) as u16).to_be_bytes());
    assert_eq!(held.accept(&beyond, now), Err(Reject::Overlap));
    assert!(held.table.len() == 0);
}

#[test]
fn an_atomic_ipv6_fragment_completes_at_once() {
    let packet = datagram(true, 100);
    let pieces = fragments(&packet, 1500);
    assert_eq!(pieces.len(), 1);
    let mut table = table();
    assert_eq!(
        table.accept(&pieces[0], NOW),
        Ok(Accepted::Complete(packet))
    );
    assert!(table.table.len() == 0);
}

#[test]
fn an_unfragmented_packet_is_not_mistaken_for_one() {
    let mut table = table();
    let now = NOW;
    assert!(matches!(
        table.accept(&datagram(false, 100), now),
        Err(Reject::Malformed(_))
    ));
    assert!(matches!(
        table.accept(&datagram(true, 100), now),
        Err(Reject::Malformed(_))
    ));
    assert!(matches!(table.accept(&[], now), Err(Reject::Malformed(_))));
}

#[test]
fn a_datagram_missing_fragment_zero_is_refused() {
    let packet = datagram(false, 2000);
    let pieces = fragments(&packet, 1280);
    let mut table = table();
    let now = NOW;
    for piece in &pieces[1..] {
        let _ = table.accept(piece, now);
    }
    assert!(table.table.len() != 0);
}

fn ipv4_fragment(offset: usize, more: bool, payload: usize) -> Vec<u8> {
    let mut packet = vec![0u8; IPV4_HEADER_LEN + payload];
    packet[0] = 0x45;
    let total = u16::try_from(packet.len()).unwrap();
    packet[2..4].copy_from_slice(&total.to_be_bytes());
    packet[4..6].copy_from_slice(&0x1234u16.to_be_bytes());
    let flags = u16::try_from(offset / 8).unwrap() | if more { 0x2000 } else { 0 };
    packet[6..8].copy_from_slice(&flags.to_be_bytes());
    packet[8] = 64;
    packet[9] = 17;
    packet[12..16].copy_from_slice(&[192, 0, 2, 1]);
    packet[16..20].copy_from_slice(&[198, 51, 100, 7]);
    packet
}

fn ipv6_fragment(offset: usize, more: bool, payload: usize) -> Vec<u8> {
    let mut packet = vec![0u8; IPV6_HEADER_LEN + IPV6_FRAGMENT_HEADER_LEN + payload];
    packet[0] = 0x60;
    let length = u16::try_from(packet.len() - IPV6_HEADER_LEN).unwrap();
    packet[4..6].copy_from_slice(&length.to_be_bytes());
    packet[6] = 44;
    packet[7] = 64;
    packet[8..24].copy_from_slice(&CLIENT6.to_be_bytes());
    packet[24..40]
        .copy_from_slice(&REMOTE6.to_be_bytes());
    packet[40] = 17;
    let control = u16::try_from(offset).unwrap() | if more { 1 } else { 0 };
    packet[42..44].copy_from_slice(&control.to_be_bytes());
    packet[44..48].copy_from_slice(&0x9abcdef0u32.to_be_bytes());
    packet
}

#[test]
fn an_empty_non_atomic_fragment_is_refused_in_both_families() {
    let mut table = table();
    let now = NOW;
    for packet in [
        ipv4_fragment(0, true, 0),
        ipv4_fragment(1480, false, 0),
        ipv6_fragment(0, true, 0),
        ipv6_fragment(1448, false, 0),
    ] {
        assert!(matches!(
            table.accept(&packet, now),
            Err(Reject::Malformed(_))
        ));
    }
    assert!(table.table.len() == 0);
}

#[test]
fn a_misaligned_non_final_fragment_is_refused_in_both_families() {
    let mut table = table();
    let now = NOW;
    for payload in [1usize, 7, 9, 15, 1449] {
        for packet in [
            ipv4_fragment(0, true, payload),
            ipv6_fragment(0, true, payload),
        ] {
            assert!(
                matches!(table.accept(&packet, now), Err(Reject::Malformed(_))),
                "{payload} bytes"
            );
        }
    }
    assert_eq!(
        table.accept(&ipv4_fragment(8, false, 9), now),
        Ok(Accepted::Pending)
    );
    assert_eq!(
        table.accept(&ipv6_fragment(8, false, 9), now),
        Ok(Accepted::Pending)
    );
}

#[test]
fn ipv4_reassembly_accepts_the_largest_encodable_total_length() {
    let mut table = table();
    let now = NOW;
    assert_eq!(
        table.accept(&ipv4_fragment(0, true, 65_512), now),
        Ok(Accepted::Pending)
    );
    let Accepted::Complete(packet) = table
        .accept(&ipv4_fragment(65_512, false, 3), now)
        .expect("the maximum-length datagram fits")
    else {
        panic!("the two contiguous fragments should complete")
    };
    assert_eq!(packet.len(), MAX_ENCODED_LENGTH);
    assert_eq!(u16::from_be_bytes([packet[2], packet[3]]), u16::MAX);
}

#[test]
fn ipv4_reassembly_rejects_a_body_that_only_exceeds_the_total_with_its_header() {
    let now = NOW;
    for reverse in [false, true] {
        let plain = ipv4_fragment(0, true, 8);
        let mut zero = Vec::with_capacity(plain.len() + 4);
        zero.extend_from_slice(&plain[..IPV4_HEADER_LEN]);
        zero.extend_from_slice(&[0; 4]);
        zero.extend_from_slice(&plain[IPV4_HEADER_LEN..]);
        zero[0] = 0x46;
        let total = zero.len() as u16;
        zero[2..4].copy_from_slice(&total.to_be_bytes());
        let tail = ipv4_fragment(65_504, false, 11);
        let mut table = table();
        let (first, second) = if reverse {
            (&tail, &zero)
        } else {
            (&zero, &tail)
        };
        assert_eq!(table.accept(first, now), Ok(Accepted::Pending));
        assert_eq!(
            table.accept(second, now),
            Err(Reject::Malformed("IPv4 reassembly exceeds total length"))
        );
        assert!(table.table.len() == 0);
    }
}

#[test]
fn headless_ipv4_reassembly_reserves_space_for_the_minimum_header() {
    let mut table = table();
    assert_eq!(
        table.accept(&ipv4_fragment(65_504, false, 12), NOW),
        Err(Reject::Malformed("fragment reaches past a datagram"))
    );
    assert!(table.table.len() == 0);
}

#[test]
fn a_non_final_fragment_cannot_end_at_an_already_declared_total() {
    let mut table = table();
    let now = NOW;
    assert_eq!(
        table.accept(&ipv4_fragment(16, false, 8), now),
        Ok(Accepted::Pending)
    );
    assert_eq!(
        table.accept(&ipv4_fragment(0, true, 24), now),
        Err(Reject::Overlap)
    );
    assert!(table.table.len() == 0);
}

#[test]
fn a_final_fragment_cannot_shrink_below_previously_held_data() {
    let mut table = table();
    let now = NOW;
    assert_eq!(
        table.accept(&ipv4_fragment(16, true, 8), now),
        Ok(Accepted::Pending)
    );
    assert_eq!(
        table.accept(&ipv4_fragment(8, false, 8), now),
        Err(Reject::Overlap)
    );
    assert!(table.table.len() == 0);
}

#[test]
fn a_merge_allocates_once_at_the_projected_capacity() {
    for old_len in [0usize, 1, 2, 3, 4, 7, 8, 9, 16, 33] {
        let old: Vec<Span> = (0..old_len).map(|i| span(i * 100, i * 100 + 8)).collect();
        let new = span(old_len * 100 + 500, old_len * 100 + 508);
        let merged = merge_ranges(&old, new);
        assert_eq!(merged.len(), old_len + 1);
        assert_eq!(
            merged.capacity(),
            old_len + 1,
            "old {old_len}: the replacement is exactly the projected size, not a doubling"
        );
        for pair in merged.windows(2) {
            assert!(pair[0].end < pair[1].start, "old {old_len}: not disjoint");
        }
        assert!(merged.contains(&new));
    }

    let old = vec![span(0, 8), span(16, 24)];
    let merged = merge_ranges(&old, span(8, 16));
    assert_eq!(merged, vec![span(0, 24)]);
    assert_eq!(merged.capacity(), 3);

    let before = merge_ranges(&[], span(16, 24));
    assert_eq!(merge_ranges(&before, span(0, 8)), vec![span(0, 8), span(16, 24)]);
    let after = merge_ranges(&[], span(0, 8));
    assert_eq!(merge_ranges(&after, span(16, 24)), vec![span(0, 8), span(16, 24)]);
    assert_eq!(
        merge_ranges(&[span(0, 8), span(32, 40)], span(16, 24)),
        vec![span(0, 8), span(16, 24), span(32, 40)]
    );
}

#[test]
fn simultaneous_expiries_never_hold_more_than_one_quote() {
    let mut table = table();
    let now = NOW;
    let mut opened = 0u64;
    for id in 0..64u16 {
        let mut packet = datagram(false, 3000);
        packet[4..6].copy_from_slice(&id.to_be_bytes());
        let pieces = fragments(&packet, 1280);
        if table.accept(&pieces[0], now) != Ok(Accepted::Pending) {
            break;
        }
        opened += 1;
    }
    assert!(opened > 1);

    let mut live = 0usize;
    let mut peak = 0usize;
    let mut quoted = 0u64;
    let mut retired = 0u64;
    while let Some(quote) = table.table.sweep_one(now + IPV4_REASSEMBLY_TIMEOUT) {
        retired += 1;
        if let Some(quote) = quote {
            live += 1;
            peak = peak.max(live);
            quoted += 1;
            assert!(!quote.is_empty());
            drop(quote);
            live -= 1;
        }
    }
    assert_eq!(retired, opened);
    assert_eq!(quoted, opened);
    assert_eq!(peak, 1);
    assert!(table.table.len() == 0);
}

#[test]
fn an_expired_context_yields_fragment_zero_and_is_removed() {
    let packet = datagram(false, 3000);
    let pieces = fragments(&packet, 1280);
    let mut table = table();
    let now = NOW;
    assert_eq!(table.accept(&pieces[0], now), Ok(Accepted::Pending));
    assert_eq!(
        table.table.next_deadline(),
        Some(now + IPV4_REASSEMBLY_TIMEOUT)
    );
    let mut expired = Vec::new();
    assert_eq!(table.sweep(now, &mut expired), 0);
    assert!(expired.is_empty(), "not due yet");
    assert_eq!(
        table.sweep(now + IPV4_REASSEMBLY_TIMEOUT, &mut expired),
        1
    );
    assert_eq!(expired.len(), 1);
    let quote = &expired[0];
    assert_eq!(&quote[12..16], &packet[12..16]);
    assert_eq!(u16::from_be_bytes([quote[6], quote[7]]) & 0x3fff, 0);
    assert!(table.table.len() == 0);
    assert_eq!(table.table.next_deadline(), None);
}

#[test]
fn context_deadlines_follow_the_android_kernel_default_for_each_family() {
    let now = NOW;
    for (ipv6, timeout) in [
        (false, IPV4_REASSEMBLY_TIMEOUT),
        (true, IPV6_REASSEMBLY_TIMEOUT),
    ] {
        let packet = datagram(ipv6, 3000);
        let pieces = fragments(&packet, 1280);
        let mut table = table();
        assert_eq!(table.accept(&pieces[0], now), Ok(Accepted::Pending));
        assert_eq!(table.table.next_deadline(), Some(now + timeout));
        assert_eq!(
            table.sweep(now + timeout - 1, &mut Vec::new()),
            0
        );
        assert_eq!(table.sweep(now + timeout, &mut Vec::new()), 1);
    }
}

#[test]
fn contexts_for_different_identifications_do_not_mix() {
    let packet = datagram(false, 2000);
    let first = fragments(&packet, 1280);
    let mut second = first.clone();
    for piece in &mut second {
        piece[4..6].copy_from_slice(&0x7777u16.to_be_bytes());
    }
    let mut table = table();
    let now = NOW;
    assert_eq!(table.accept(&first[0], now), Ok(Accepted::Pending));
    assert_eq!(table.accept(&second[0], now), Ok(Accepted::Pending));
    assert_eq!(table.table.len(), 2);
    assert!(matches!(
        table.accept(&first[1], now),
        Ok(Accepted::Complete(_))
    ));
    assert_eq!(table.table.len(), 1);
}

#[test]
fn a_table_counts_what_became_of_every_fragment() {
    let mut table = table();
    let pieces = fragments(&datagram(false, 3000), 1280);
    assert_eq!(table.accept(&[], NOW), Err(Reject::Malformed("not an IPv4 or IPv6 packet")));
    assert_eq!(table.accept(&pieces[0], NOW), Ok(Accepted::Pending));
    assert_eq!(table.accept(&pieces[0], NOW), Err(Reject::Overlap));
    for piece in &pieces {
        let _ = table.accept(piece, NOW);
    }
    assert_eq!(table.accept(&pieces[1], NOW), Ok(Accepted::Pending));
    assert!(!table.table.any_due(NOW));
    assert!(table.table.any_due(NOW + IPV4_REASSEMBLY_TIMEOUT));
    let mut quotes = Vec::new();
    assert_eq!(table.sweep(NOW + IPV4_REASSEMBLY_TIMEOUT, &mut quotes), 1);
    assert!(quotes.is_empty(), "without its first fragment there is nothing to quote");
    assert_eq!(
        table.table.counters(),
        Counters {
            held: 4,
            completed: 1,
            malformed: 1,
            overlapping: 1,
            expired: 1,
            headless: 1,
        }
    );
    assert_eq!(table.accept(&pieces[1], NOW), Ok(Accepted::Pending));
    table.table.retire();
    assert_eq!(table.table.len(), 0);
}

#[test]
fn a_packet_that_would_fit_is_cut_where_its_payload_does_not_fill_a_unit() {
    let packet = datagram(false, 2);
    assert_eq!(packet.len(), 30);
    let pieces = fragments(&packet, 35);
    let lengths: Vec<usize> = pieces.iter().map(|piece| piece.len()).collect();
    assert_eq!(lengths, vec![28, 22]);
    let mut table = table();
    assert_eq!(table.accept(&pieces[1], NOW), Ok(Accepted::Pending));
    assert_eq!(table.accept(&pieces[0], NOW), Ok(Accepted::Complete(packet)));
}

#[test]
fn a_repeated_fragment_drops_its_datagram_and_no_other() {
    for ipv6 in [false, true] {
        let pieces = fragments(&datagram(ipv6, 3000), 1280);
        let mut other = pieces[0].clone();
        let identification = if ipv6 { IPV6_HEADER_LEN + 7 } else { 5 };
        other[identification] ^= 1;
        if !ipv6 {
            // The header checksum makes up for the bit that changed.
            let sum = u16::from_be_bytes([other[10], other[11]]);
            let was = u16::from_be_bytes([pieces[0][4], pieces[0][5]]);
            let is = u16::from_be_bytes([other[4], other[5]]);
            let wide = u32::from(!sum) + u32::from(!was) + u32::from(is);
            let folded = (wide & 0xffff) + (wide >> 16);
            let folded = !(((folded & 0xffff) + (folded >> 16)) as u16);
            other[10..12].copy_from_slice(&folded.to_be_bytes());
        }
        let mut table = table();
        assert_eq!(table.accept(&other, NOW), Ok(Accepted::Pending));
        assert_eq!(table.accept(&pieces[2], NOW), Ok(Accepted::Pending));
        assert_eq!(table.accept(&pieces[0], NOW), Ok(Accepted::Pending));
        assert_eq!(table.accept(&pieces[2], NOW + 1), Err(Reject::Overlap), "ipv6 {ipv6}");
        assert_eq!(table.table.len(), 1, "ipv6 {ipv6}");
        assert_eq!(table.accept(&pieces[1], NOW + 1), Ok(Accepted::Pending), "ipv6 {ipv6}");
        assert_eq!(table.table.len(), 2, "ipv6 {ipv6}");
        assert_eq!(table.accept(&other, NOW + 1), Err(Reject::Overlap), "ipv6 {ipv6}");
    }
}

#[test]
fn a_new_table_has_counted_nothing() {
    assert_eq!(
        table().table.counters(),
        Counters {
            held: 0,
            completed: 0,
            malformed: 0,
            overlapping: 0,
            expired: 0,
            headless: 0,
        }
    );
}
