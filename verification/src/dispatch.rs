//! Where each packet from the tun goes.
use vstd::prelude::*;

use crate::reassembly::{
    due_order, lemma_quotes_fit, live, quotes_of, received, Accepted, Key, Reject as Unassembled, Step, Table,
    TableState, IPV6_REASSEMBLY_TIMEOUT,
};
use crate::tcp_wire::{peek, tcp_segment, Segment};
use crate::text::{decimal, listed, push_decimal, push_field};
use crate::tun_handoff::packet_views;
use crate::turn::Expiry;
use crate::udp_wire::{parse, udp_datagram, Datagram, Reject, Relayed};

verus! {

/// How often each thing happened.
#[derive(Clone, Copy, Debug, PartialEq, Eq, Structural)]
pub struct Counters {
    pub dns: u64,
    pub undeliverable_dns: u64,
    pub relayed: u64,
    pub tcp: u64,
    pub echo: u64,
    pub unsupported: u64,
    pub fragmented: u64,
    pub fragments_overlapping: u64,
    pub fragments_expired: u64,
    pub fragments_unreported: u64,
    pub fragments_stalled: u64,
    pub extended: u64,
    pub extension_headers: u64,
    pub chain_refused: u64,
    pub unparseable: u64,
    pub reserved: u64,
    pub unroutable: u64,
    pub malformed: u64,
    pub unadmitted: u64,
}

/// Whether every counter can still be counted up.
pub open spec fn countable(c: Counters) -> bool {
    &&& c.dns < u64::MAX && c.undeliverable_dns < u64::MAX && c.relayed < u64::MAX && c.tcp < u64::MAX
    &&& c.echo < u64::MAX && c.unsupported < u64::MAX && c.fragmented < u64::MAX
    &&& c.fragments_overlapping < u64::MAX && c.fragments_expired < u64::MAX
    &&& c.fragments_unreported < u64::MAX && c.fragments_stalled < u64::MAX && c.extended < u64::MAX
    &&& c.extension_headers < u64::MAX && c.chain_refused < u64::MAX && c.unparseable < u64::MAX
    &&& c.reserved < u64::MAX && c.unroutable < u64::MAX && c.malformed < u64::MAX
    &&& c.unadmitted < u64::MAX
}

/// What was counted.
pub open spec fn counters_text(c: Counters) -> Seq<char> {
    "dns "@ + decimal(c.dns as nat) + " undeliverable-dns "@ + decimal(c.undeliverable_dns as nat)
        + " relayed "@ + decimal(c.relayed as nat) + " tcp "@ + decimal(c.tcp as nat) + " echo "@ + decimal(
        c.echo as nat,
    ) + " unsupported "@ + decimal(c.unsupported as nat) + " fragmented "@ + decimal(c.fragmented as nat)
        + " fragments-overlapping "@ + decimal(c.fragments_overlapping as nat) + " fragments-expired "@
        + decimal(c.fragments_expired as nat) + " fragments-unreported "@ + decimal(
        c.fragments_unreported as nat,
    ) + " fragments-stalled "@ + decimal(c.fragments_stalled as nat) + " extended "@ + decimal(
        c.extended as nat,
    ) + " extension-headers "@ + decimal(c.extension_headers as nat) + " chain-refused "@ + decimal(
        c.chain_refused as nat,
    ) + " unparseable "@ + decimal(c.unparseable as nat) + " reserved "@ + decimal(c.reserved as nat)
        + " unroutable "@ + decimal(c.unroutable as nat) + " malformed "@ + decimal(c.malformed as nat)
        + " unadmitted "@ + decimal(c.unadmitted as nat)
}

impl Counters {
    /// Whether every counter can count one more.
    pub fn can_count(&self) -> (r: bool)
        ensures
            r == countable(*self),
    {
        self.dns < u64::MAX && self.undeliverable_dns < u64::MAX && self.relayed < u64::MAX
            && self.tcp < u64::MAX && self.echo < u64::MAX && self.unsupported < u64::MAX
            && self.fragmented < u64::MAX && self.fragments_overlapping < u64::MAX
            && self.fragments_expired < u64::MAX && self.fragments_unreported < u64::MAX
            && self.fragments_stalled < u64::MAX && self.extended < u64::MAX
            && self.extension_headers < u64::MAX && self.chain_refused < u64::MAX
            && self.unparseable < u64::MAX && self.reserved < u64::MAX && self.unroutable < u64::MAX
            && self.malformed < u64::MAX && self.unadmitted < u64::MAX
    }

    /// Nothing happened.
    pub open spec fn zero() -> Counters {
        Counters {
            dns: 0,
            undeliverable_dns: 0,
            relayed: 0,
            tcp: 0,
            echo: 0,
            unsupported: 0,
            fragmented: 0,
            fragments_overlapping: 0,
            fragments_expired: 0,
            fragments_unreported: 0,
            fragments_stalled: 0,
            extended: 0,
            extension_headers: 0,
            chain_refused: 0,
            unparseable: 0,
            reserved: 0,
            unroutable: 0,
            malformed: 0,
            unadmitted: 0,
        }
    }

    /// Nothing happened.
    pub fn new() -> (r: Self)
        ensures
            r == Self::zero(),
    {
        Counters {
            dns: 0,
            undeliverable_dns: 0,
            relayed: 0,
            tcp: 0,
            echo: 0,
            unsupported: 0,
            fragmented: 0,
            fragments_overlapping: 0,
            fragments_expired: 0,
            fragments_unreported: 0,
            fragments_stalled: 0,
            extended: 0,
            extension_headers: 0,
            chain_refused: 0,
            unparseable: 0,
            reserved: 0,
            unroutable: 0,
            malformed: 0,
            unadmitted: 0,
        }
    }

    /// Says what was counted.
    pub fn describe(&self) -> (r: String)
        ensures
            r@ == counters_text(*self),
    {
        let mut out = "dns ".to_owned();
        push_decimal(&mut out, self.dns);
        push_field(&mut out, " undeliverable-dns ", self.undeliverable_dns);
        push_field(&mut out, " relayed ", self.relayed);
        push_field(&mut out, " tcp ", self.tcp);
        push_field(&mut out, " echo ", self.echo);
        push_field(&mut out, " unsupported ", self.unsupported);
        push_field(&mut out, " fragmented ", self.fragmented);
        push_field(&mut out, " fragments-overlapping ", self.fragments_overlapping);
        push_field(&mut out, " fragments-expired ", self.fragments_expired);
        push_field(&mut out, " fragments-unreported ", self.fragments_unreported);
        push_field(&mut out, " fragments-stalled ", self.fragments_stalled);
        push_field(&mut out, " extended ", self.extended);
        push_field(&mut out, " extension-headers ", self.extension_headers);
        push_field(&mut out, " chain-refused ", self.chain_refused);
        push_field(&mut out, " unparseable ", self.unparseable);
        push_field(&mut out, " reserved ", self.reserved);
        push_field(&mut out, " unroutable ", self.unroutable);
        push_field(&mut out, " malformed ", self.malformed);
        push_field(&mut out, " unadmitted ", self.unadmitted);
        out
    }
}

/// Whom a packet is for.
#[derive(Clone, Copy, Debug, PartialEq, Eq, Structural)]
pub enum Principal {
    Dns,
    Ipv4,
    Ipv6,
}

/// Why a packet is for nobody.
#[derive(Clone, Copy, Debug, PartialEq, Eq, Structural)]
pub enum DropReason {
    Reserved,
    Unroutable,
    Malformed,
}

/// Whom a packet is for, by its addresses. Where more of it is still to come that is provisional.
#[derive(Clone, Copy, Debug, PartialEq, Eq, Structural)]
pub enum Classified {
    Accepted { principal: Principal, provisional: bool },
    Dropped(DropReason),
}

/// Why a packet has to be rewritten before it can go anywhere.
#[derive(Clone, Copy, Debug, PartialEq, Eq, Structural)]
pub enum Rejected {
    Fragmented,
    Extended,
}

/// Where a packet goes.
#[derive(Debug)]
pub enum Delivery<'a> {
    /// To the resolver.
    Dns(Relayed<'a>),
    /// To the client-side stack. `resolver` says whether the resolver answers there.
    Tcp { segment: Segment, resolver: bool },
    /// To the upstream as a datagram.
    Relay(Relayed<'a>),
    /// To the upstream as an echo request.
    Echo,
    /// Back here once it is rewritten.
    Rewrite(Rejected),
    /// Nowhere.
    Nowhere,
}

/// Where a packet goes.
pub enum DeliveryState {
    Dns(Datagram),
    Tcp { segment: Segment, resolver: bool },
    Relay(Datagram),
    Echo,
    Rewrite(Rejected),
    Nowhere,
}

impl<'a> View for Delivery<'a> {
    type V = DeliveryState;

    open spec fn view(&self) -> DeliveryState {
        match self {
            Delivery::Dns(datagram) => DeliveryState::Dns(datagram.datagram()),
            Delivery::Tcp { segment, resolver } => DeliveryState::Tcp {
                segment: *segment,
                resolver: *resolver,
            },
            Delivery::Relay(datagram) => DeliveryState::Relay(datagram.datagram()),
            Delivery::Echo => DeliveryState::Echo,
            Delivery::Rewrite(rejected) => DeliveryState::Rewrite(*rejected),
            Delivery::Nowhere => DeliveryState::Nowhere,
        }
    }
}

/// Where a packet for the resolver goes.
pub open spec fn dns_delivery(c: Counters, packet: Seq<u8>, provisional: bool) -> (Counters, DeliveryState) {
    let undeliverable = Counters { undeliverable_dns: (c.undeliverable_dns + 1) as u64, ..c };
    match udp_datagram(packet) {
        Ok(datagram) => if provisional {
            (undeliverable, DeliveryState::Nowhere)
        } else {
            (c, DeliveryState::Dns(datagram))
        },
        Err(Reject::Fragmented) => (c, DeliveryState::Rewrite(Rejected::Fragmented)),
        Err(Reject::Extended) => (c, DeliveryState::Rewrite(Rejected::Extended)),
        Err(Reject::NotUdp) => match tcp_segment(packet) {
            Ok(segment) => (
                Counters { tcp: (c.tcp + 1) as u64, ..c },
                DeliveryState::Tcp { segment, resolver: true },
            ),
            Err(_) => (undeliverable, DeliveryState::Nowhere),
        },
        Err(Reject::Malformed(_)) => (undeliverable, DeliveryState::Nowhere),
    }
}

/// Where a packet for the upstream goes, with what it is as an echo request.
pub open spec fn upstream_delivery(c: Counters, packet: Seq<u8>, echo: Result<(), Reject>) -> (
    Counters,
    DeliveryState,
) {
    let unparseable = Counters { unparseable: (c.unparseable + 1) as u64, ..c };
    match udp_datagram(packet) {
        Ok(datagram) => (
            Counters { relayed: (c.relayed + 1) as u64, ..c },
            DeliveryState::Relay(datagram),
        ),
        Err(Reject::NotUdp) => match tcp_segment(packet) {
            Ok(segment) => (
                Counters { tcp: (c.tcp + 1) as u64, ..c },
                DeliveryState::Tcp { segment, resolver: false },
            ),
            Err(_) => match echo {
                Ok(_) => (Counters { echo: (c.echo + 1) as u64, ..c }, DeliveryState::Echo),
                Err(Reject::NotUdp) => (
                    Counters { unsupported: (c.unsupported + 1) as u64, ..c },
                    DeliveryState::Nowhere,
                ),
                Err(Reject::Fragmented) => (c, DeliveryState::Rewrite(Rejected::Fragmented)),
                Err(Reject::Extended) => (c, DeliveryState::Rewrite(Rejected::Extended)),
                Err(Reject::Malformed(_)) => (unparseable, DeliveryState::Nowhere),
            },
        },
        Err(Reject::Fragmented) => (c, DeliveryState::Rewrite(Rejected::Fragmented)),
        Err(Reject::Extended) => (c, DeliveryState::Rewrite(Rejected::Extended)),
        Err(Reject::Malformed(_)) => (unparseable, DeliveryState::Nowhere),
    }
}

/// Where a packet goes, and what is counted.
pub open spec fn delivered(
    c: Counters,
    packet: Seq<u8>,
    classified: Classified,
    echo: Result<(), Reject>,
) -> (Counters, DeliveryState) {
    match classified {
        Classified::Accepted { principal: Principal::Dns, provisional } => dns_delivery(
            Counters { dns: (c.dns + 1) as u64, ..c },
            packet,
            provisional,
        ),
        Classified::Accepted { .. } => upstream_delivery(c, packet, echo),
        Classified::Dropped(DropReason::Reserved) => (
            Counters { reserved: (c.reserved + 1) as u64, ..c },
            DeliveryState::Nowhere,
        ),
        Classified::Dropped(DropReason::Unroutable) => (
            Counters { unroutable: (c.unroutable + 1) as u64, ..c },
            DeliveryState::Nowhere,
        ),
        Classified::Dropped(DropReason::Malformed) => (
            Counters { malformed: (c.malformed + 1) as u64, ..c },
            DeliveryState::Nowhere,
        ),
    }
}

/// What came of walking a packet's extension headers.
#[derive(Debug)]
pub struct Normalized {
    /// The packet without the headers that were walked, where there were any.
    pub stripped: Option<Vec<u8>>,
    /// How many headers were walked.
    pub consumed: usize,
    /// Whether what is left is a fragment.
    pub fragmenting: bool,
}

/// The packets that are put together, and what was counted.
pub struct Dispatch {
    counters: Counters,
    fragments: Table,
}

/// What a dispatch knows.
#[verifier::ext_equal]
pub struct DispatchState {
    pub counters: Counters,
    pub fragments: TableState,
}

impl View for Dispatch {
    type V = DispatchState;

    closed spec fn view(&self) -> DispatchState {
        DispatchState { counters: self.counters, fragments: self.fragments@ }
    }
}

/// What a fragment comes to: the whole packet, where it was the last piece.
pub open spec fn gathered(state: DispatchState, packet: Seq<u8>, now: u64) -> (DispatchState, Option<Seq<u8>>) {
    let c = Counters { fragmented: (state.counters.fragmented + 1) as u64, ..state.counters };
    let (fragments, step) = received(state.fragments, packet, now);
    match step {
        Step::Pending => (DispatchState { counters: c, fragments }, None),
        Step::Complete(whole) => (DispatchState { counters: c, fragments }, Some(whole)),
        Step::Refused(Unassembled::Overlap) => (
            DispatchState {
                counters: Counters {
                    fragments_overlapping: (c.fragments_overlapping + 1) as u64,
                    ..c
                },
                fragments,
            },
            None,
        ),
        Step::Refused(Unassembled::Malformed(_)) => (
            DispatchState {
                counters: Counters { unparseable: (c.unparseable + 1) as u64, ..c },
                fragments,
            },
            None,
        ),
    }
}

/// What a packet that has to be rewritten comes to, with what came of walking its extension headers.
pub open spec fn rewritten(
    state: DispatchState,
    packet: Seq<u8>,
    now: u64,
    rejected: Rejected,
    walked: Result<(Option<Seq<u8>>, nat, bool), ()>,
) -> (DispatchState, Option<Seq<u8>>) {
    let c = state.counters;
    match walked {
        Err(_) => (
            DispatchState {
                counters: Counters { chain_refused: (c.chain_refused + 1) as u64, ..c },
                ..state
            },
            None,
        ),
        Ok((Some(stripped), consumed, fragmenting)) => {
            let counted = DispatchState {
                counters: Counters {
                    extended: (c.extended + 1) as u64,
                    extension_headers: (c.extension_headers + consumed) as u64,
                    ..c
                },
                ..state
            };
            if fragmenting {
                gathered(counted, stripped, now)
            } else {
                (counted, Some(stripped))
            }
        },
        Ok((None, _, _)) => match rejected {
            Rejected::Fragmented => gathered(state, packet, now),
            Rejected::Extended => (
                DispatchState {
                    counters: Counters { unsupported: (c.unsupported + 1) as u64, ..c },
                    ..state
                },
                None,
            ),
        },
    }
}

/// What walking came to.
pub open spec fn walked_view(walked: Result<Normalized, ()>) -> Result<(Option<Seq<u8>>, nat, bool), ()> {
    match walked {
        Ok(normalized) => Ok(
            (
                match normalized.stripped {
                    Some(stripped) => Some(stripped@),
                    None => None,
                },
                normalized.consumed as nat,
                normalized.fragmenting,
            ),
        ),
        Err(_) => Err(()),
    }
}

/// The octets of a packet that may be there.
pub open spec fn packet_view(packet: Option<Vec<u8>>) -> Option<Seq<u8>> {
    match packet {
        Some(packet) => Some(packet@),
        None => None,
    }
}

impl Dispatch {
    pub closed spec fn wf(&self) -> bool {
        self.fragments.wf()
    }

    /// Nothing is held, and nothing was counted.
    pub fn new() -> (r: Self)
        ensures
            r.wf(),
            r@.counters == Counters::zero(),
            r@.fragments.contexts == Map::<Key, crate::reassembly::Held>::empty(),
            r@.fragments.counters == crate::reassembly::Counters::zero(),
    {
        Dispatch { counters: Counters::new(), fragments: Table::new() }
    }

    /// Says where a packet goes, with whom it is for and what it is as an echo request.
    pub fn deliver<'a>(
        &mut self,
        packet: &'a [u8],
        classified: Classified,
        echo: Result<(), Reject>,
    ) -> (r: Delivery<'a>)
        requires
            old(self).wf(),
            countable(old(self)@.counters),
        ensures
            final(self).wf(),
            final(self)@.fragments == old(self)@.fragments,
            (final(self)@.counters, r@) == delivered(old(self)@.counters, packet@, classified, echo),
    {
        match classified {
            Classified::Accepted { principal: Principal::Dns, provisional } => {
                self.counters.dns += 1;
                match parse(packet) {
                    Ok(datagram) => if provisional {
                        self.counters.undeliverable_dns += 1;
                        Delivery::Nowhere
                    } else {
                        Delivery::Dns(datagram)
                    },
                    Err(Reject::Fragmented) => Delivery::Rewrite(Rejected::Fragmented),
                    Err(Reject::Extended) => Delivery::Rewrite(Rejected::Extended),
                    Err(Reject::NotUdp) => match peek(packet) {
                        Ok(segment) => {
                            self.counters.tcp += 1;
                            Delivery::Tcp { segment, resolver: true }
                        },
                        Err(_) => {
                            self.counters.undeliverable_dns += 1;
                            Delivery::Nowhere
                        },
                    },
                    Err(Reject::Malformed(_)) => {
                        self.counters.undeliverable_dns += 1;
                        Delivery::Nowhere
                    },
                }
            },
            Classified::Accepted { principal: Principal::Ipv4 | Principal::Ipv6, .. } => match parse(packet) {
                Ok(datagram) => {
                    self.counters.relayed += 1;
                    Delivery::Relay(datagram)
                },
                Err(Reject::NotUdp) => match peek(packet) {
                    Ok(segment) => {
                        self.counters.tcp += 1;
                        Delivery::Tcp { segment, resolver: false }
                    },
                    Err(_) => match echo {
                        Ok(_) => {
                            self.counters.echo += 1;
                            Delivery::Echo
                        },
                        Err(Reject::NotUdp) => {
                            self.counters.unsupported += 1;
                            Delivery::Nowhere
                        },
                        Err(Reject::Fragmented) => Delivery::Rewrite(Rejected::Fragmented),
                        Err(Reject::Extended) => Delivery::Rewrite(Rejected::Extended),
                        Err(Reject::Malformed(_)) => {
                            self.counters.unparseable += 1;
                            Delivery::Nowhere
                        },
                    },
                },
                Err(Reject::Fragmented) => Delivery::Rewrite(Rejected::Fragmented),
                Err(Reject::Extended) => Delivery::Rewrite(Rejected::Extended),
                Err(Reject::Malformed(_)) => {
                    self.counters.unparseable += 1;
                    Delivery::Nowhere
                },
            },
            Classified::Dropped(DropReason::Reserved) => {
                self.counters.reserved += 1;
                Delivery::Nowhere
            },
            Classified::Dropped(DropReason::Unroutable) => {
                self.counters.unroutable += 1;
                Delivery::Nowhere
            },
            Classified::Dropped(DropReason::Malformed) => {
                self.counters.malformed += 1;
                Delivery::Nowhere
            },
        }
    }

    /// Rewrites a packet that could not go anywhere, with what came of walking its extension headers. The packet
    /// that is to go in its place, where there is one.
    pub fn rewrite(
        &mut self,
        packet: &[u8],
        now: u64,
        rejected: Rejected,
        walked: Result<Normalized, ()>,
    ) -> (r: Option<Vec<u8>>)
        requires
            old(self).wf(),
            countable(old(self)@.counters),
            old(self)@.fragments.counters.countable(),
            now <= u64::MAX - IPV6_REASSEMBLY_TIMEOUT,
            walked matches Ok(normalized) ==> old(self)@.counters.extension_headers + normalized.consumed
                <= u64::MAX,
        ensures
            final(self).wf(),
            (final(self)@, packet_view(r)) == rewritten(
                old(self)@,
                packet@,
                now,
                rejected,
                walked_view(walked),
            ),
    {
        let normalized = match walked {
            Ok(normalized) => normalized,
            Err(_) => {
                self.counters.chain_refused += 1;
                return None;
            },
        };
        match normalized.stripped {
            Some(stripped) => {
                self.counters.extended += 1;
                self.counters.extension_headers += normalized.consumed as u64;
                if normalized.fragmenting {
                    self.fragment(stripped.as_slice(), now)
                } else {
                    Some(stripped)
                }
            },
            None => match rejected {
                Rejected::Fragmented => self.fragment(packet, now),
                Rejected::Extended => {
                    self.counters.unsupported += 1;
                    None
                },
            },
        }
    }

    fn fragment(&mut self, packet: &[u8], now: u64) -> (r: Option<Vec<u8>>)
        requires
            old(self).wf(),
            old(self)@.counters.fragmented < u64::MAX,
            old(self)@.counters.fragments_overlapping < u64::MAX,
            old(self)@.counters.unparseable < u64::MAX,
            old(self)@.fragments.counters.countable(),
            now <= u64::MAX - IPV6_REASSEMBLY_TIMEOUT,
        ensures
            final(self).wf(),
            (final(self)@, packet_view(r)) == gathered(old(self)@, packet@, now),
    {
        self.counters.fragmented += 1;
        match self.fragments.accept(packet, now) {
            Ok(Accepted::Pending) => None,
            Ok(Accepted::Complete(whole)) => Some(whole),
            Err(Unassembled::Overlap) => {
                self.counters.fragments_overlapping += 1;
                None
            },
            Err(Unassembled::Malformed(_)) => {
                self.counters.unparseable += 1;
                None
            },
        }
    }

    /// Gives up every packet that was waited for too long. What each is quoted by is to be reported, unless
    /// nothing is being delivered.
    pub fn expire(&mut self, now: u64, expiry: Expiry) -> (r: Vec<Vec<u8>>)
        requires
            old(self).wf(),
            old(self)@.fragments.counters.expired + old(self)@.fragments.contexts.dom().len() <= u64::MAX,
            old(self)@.fragments.counters.headless + old(self)@.fragments.contexts.dom().len() <= u64::MAX,
            old(self)@.counters.fragments_expired + old(self)@.fragments.contexts.dom().len() <= u64::MAX,
            old(self)@.counters.fragments_stalled + old(self)@.fragments.contexts.dom().len() <= u64::MAX,
        ensures
            final(self).wf(),
            final(self)@.fragments.contexts == live(old(self)@.fragments.contexts, now),
            exists|order: Seq<Key>|
                {
                    let quotes = quotes_of(old(self)@.fragments.contexts, order);
                    let c = old(self)@.counters;
                    &&& #[trigger] due_order(old(self)@.fragments.contexts, now, order)
                    &&& packet_views(r@) == if expiry is Delivering {
                        quotes
                    } else {
                        Seq::empty()
                    }
                    &&& final(self)@.counters == if expiry is Delivering {
                        Counters { fragments_expired: (c.fragments_expired + quotes.len()) as u64, ..c }
                    } else {
                        Counters {
                            fragments_expired: (c.fragments_expired + quotes.len()) as u64,
                            fragments_stalled: (c.fragments_stalled + quotes.len()) as u64,
                            ..c
                        }
                    }
                },
    {
        let mut quotes: Vec<Vec<u8>> = Vec::new();
        proof {
            self.fragments.lemma_finite();
            assert(packet_views(quotes@) =~= Seq::empty());
        }
        self.fragments.sweep(now, &mut quotes);
        proof {
            let contexts = old(self)@.fragments.contexts;
            let order = choose|order: Seq<Key>|
                #[trigger] due_order(contexts, now, order) && packet_views(quotes@) == Seq::<
                    Seq<u8>,
                >::empty() + quotes_of(contexts, order);
            lemma_quotes_fit(contexts, now, order);
            assert(packet_views(quotes@) =~= quotes_of(contexts, order));
            assert(packet_views(Seq::<Vec<u8>>::empty()) =~= Seq::empty());
        }
        self.counters.fragments_expired += quotes.len() as u64;
        if !expiry.delivering() {
            self.counters.fragments_stalled += quotes.len() as u64;
            return Vec::new();
        }
        quotes
    }

    /// Notes that nothing could be built of what a packet is quoted by.
    pub fn unreported(&mut self)
        requires
            old(self).wf(),
            old(self)@.counters.fragments_unreported < u64::MAX,
        ensures
            final(self).wf(),
            ({
                let c = old(self)@.counters;
                final(self)@ == (DispatchState {
                    counters: Counters { fragments_unreported: (c.fragments_unreported + 1) as u64, ..c },
                    ..old(self)@
                })
            }),
    {
        self.counters.fragments_unreported += 1;
    }

    /// Notes that a packet came while nothing was taken.
    pub fn unadmitted(&mut self)
        requires
            old(self).wf(),
            old(self)@.counters.unadmitted < u64::MAX,
        ensures
            final(self).wf(),
            ({
                let c = old(self)@.counters;
                final(self)@ == (DispatchState {
                    counters: Counters { unadmitted: (c.unadmitted + 1) as u64, ..c },
                    ..old(self)@
                })
            }),
    {
        self.counters.unadmitted += 1;
    }

    /// Whether every counter can count one more, and the fragments that are swept too.
    pub fn can_count(&self) -> (r: bool)
        requires
            self.wf(),
        ensures
            r == ({
                let c = self@.counters;
                let held = self@.fragments.contexts.dom().len();
                &&& countable(c)
                &&& self@.fragments.counters.countable()
                &&& self@.fragments.counters.expired + held <= u64::MAX
                &&& self@.fragments.counters.headless + held <= u64::MAX
                &&& c.fragments_expired + held <= u64::MAX
                &&& c.fragments_stalled + held <= u64::MAX
            }),
    {
        let held: u64 = self.fragments.len() as u64;
        let fragments = self.fragments.counters();
        self.counters.can_count() && fragments.can_count() && fragments.expired <= u64::MAX - held
            && fragments.headless <= u64::MAX - held && self.counters.fragments_expired <= u64::MAX - held
            && self.counters.fragments_stalled <= u64::MAX - held
    }

    /// What was counted.
    pub fn counters(&self) -> (r: Counters)
        ensures
            r == self@.counters,
    {
        self.counters
    }
}

/// How many packets went somewhere or were given up.
pub open spec fn outcomes(c: Counters) -> int {
    c.undeliverable_dns + c.relayed + c.tcp + c.echo + c.unsupported + c.unparseable + c.reserved
        + c.unroutable + c.malformed
}

/// Every packet has one outcome: it goes to the resolver or is to be rewritten, and then none is counted, or
/// exactly one is.
pub proof fn law_one_outcome(
    c: Counters,
    packet: Seq<u8>,
    classified: Classified,
    echo: Result<(), Reject>,
)
    requires
        countable(c),
    ensures
        ({
            let (after, delivery) = delivered(c, packet, classified, echo);
            outcomes(after) == outcomes(c) + if delivery is Dns || delivery is Rewrite {
                0int
            } else {
                1
            }
        }),
{
}

/// What an echo request is taken for never matters to a packet for the resolver, to a datagram, or to a segment.
pub proof fn law_echo_is_asked_last(
    c: Counters,
    packet: Seq<u8>,
    classified: Classified,
    one: Result<(), Reject>,
    other: Result<(), Reject>,
)
    requires
        udp_datagram(packet) != Err::<Datagram, Reject>(Reject::NotUdp) || tcp_segment(packet) is Ok,
    ensures
        delivered(c, packet, classified, one) == delivered(c, packet, classified, other),
{
}

/// A packet for the upstream goes the same way whichever family it is of, and whether or not more of it is to come.
pub proof fn law_both_families_go_the_same_way(
    c: Counters,
    packet: Seq<u8>,
    provisional: bool,
    other: bool,
    echo: Result<(), Reject>,
)
    ensures
        delivered(c, packet, Classified::Accepted { principal: Principal::Ipv4, provisional }, echo) == delivered(
            c,
            packet,
            Classified::Accepted { principal: Principal::Ipv6, provisional: other },
            echo,
        ),
{
}

/// A packet for the upstream that reads as a datagram is relayed as that datagram. One that is none but reads as a
/// segment goes to the client-side stack, which the resolver does not answer on. One that is neither, and is an echo
/// request, goes on as one.
pub proof fn law_what_is_read_is_what_goes_upstream(
    c: Counters,
    packet: Seq<u8>,
    classified: Classified,
    echo: Result<(), Reject>,
)
    requires
        classified is Accepted && !(classified->principal is Dns),
        countable(c),
    ensures
        ({
            let (after, delivery) = delivered(c, packet, classified, echo);
            let udp = udp_datagram(packet);
            let tcp = tcp_segment(packet);
            &&& udp matches Ok(datagram) ==> delivery == DeliveryState::Relay(datagram) && after.relayed == c.relayed
                + 1
            &&& udp == Err::<Datagram, Reject>(Reject::NotUdp) ==> {
                &&& tcp matches Ok(segment) ==> delivery == (DeliveryState::Tcp { segment, resolver: false })
                    && after.tcp == c.tcp + 1
                &&& tcp is Err && echo is Ok ==> delivery is Echo && after.echo == c.echo + 1
            }
        }),
{
}

/// A packet for the upstream that is a fragment, or has extension headers, is to be rewritten. It goes nowhere only
/// where nothing that reads it can make anything of it: it is malformed, or it is no datagram, no segment and no echo
/// request.
pub proof fn law_what_goes_nowhere(c: Counters, packet: Seq<u8>, classified: Classified, echo: Result<(), Reject>)
    requires
        classified is Accepted && !(classified->principal is Dns),
        countable(c),
    ensures
        ({
            let (after, delivery) = delivered(c, packet, classified, echo);
            let udp = udp_datagram(packet);
            let last = if udp == Err::<Datagram, Reject>(Reject::NotUdp) && tcp_segment(packet) is Err {
                match echo {
                    Ok(_) => None,
                    Err(reject) => Some(reject),
                }
            } else {
                match udp {
                    Ok(_) => None,
                    Err(reject) => if reject is NotUdp {
                        None
                    } else {
                        Some(reject)
                    },
                }
            };
            &&& delivery == DeliveryState::Rewrite(Rejected::Fragmented) <==> last == Some(Reject::Fragmented)
            &&& delivery == DeliveryState::Rewrite(Rejected::Extended) <==> last == Some(Reject::Extended)
            &&& delivery is Nowhere <==> (last matches Some(reject) && (reject is Malformed || reject is NotUdp))
            &&& (last matches Some(reject) && reject is Malformed) ==> after.unparseable == c.unparseable + 1
            &&& (last matches Some(reject) && reject is NotUdp) ==> after.unsupported == c.unsupported + 1
        }),
{
}

/// A datagram for the resolver goes to it, unless more of it is still to come. A segment for it goes to the
/// client-side stack, which the resolver answers on. A fragment, or a packet with extension headers, is to be
/// rewritten, and anything else goes nowhere.
pub proof fn law_what_the_resolver_gets(c: Counters, packet: Seq<u8>, provisional: bool, echo: Result<(), Reject>)
    requires
        countable(c),
    ensures
        ({
            let (after, delivery) = delivered(
                c,
                packet,
                Classified::Accepted { principal: Principal::Dns, provisional },
                echo,
            );
            let udp = udp_datagram(packet);
            let tcp = tcp_segment(packet);
            &&& after.dns == c.dns + 1
            &&& !provisional ==> (udp matches Ok(datagram) ==> delivery == DeliveryState::Dns(datagram))
            &&& udp is Ok && provisional ==> delivery is Nowhere && after.undeliverable_dns == c.undeliverable_dns + 1
            &&& udp == Err::<Datagram, Reject>(Reject::Fragmented) ==> delivery == DeliveryState::Rewrite(
                Rejected::Fragmented,
            )
            &&& udp == Err::<Datagram, Reject>(Reject::Extended) ==> delivery == DeliveryState::Rewrite(
                Rejected::Extended,
            )
            &&& udp == Err::<Datagram, Reject>(Reject::NotUdp) ==> if tcp is Ok {
                delivery == (DeliveryState::Tcp { segment: tcp->Ok_0, resolver: true }) && after.tcp == c.tcp + 1
            } else {
                delivery is Nowhere && after.undeliverable_dns == c.undeliverable_dns + 1
            }
            &&& (udp matches Err(reject) && reject is Malformed) ==> delivery is Nowhere && after.undeliverable_dns
                == c.undeliverable_dns + 1
        }),
{
}

/// A packet that its addresses rule out goes nowhere, whatever it is, and is counted under why.
pub proof fn law_ruled_out_by_its_addresses(c: Counters, packet: Seq<u8>, why: DropReason, echo: Result<(), Reject>)
    requires
        countable(c),
    ensures
        ({
            let (after, delivery) = delivered(c, packet, Classified::Dropped(why), echo);
            &&& delivery is Nowhere
            &&& after.reserved - c.reserved == if why is Reserved { 1int } else { 0 }
            &&& after.unroutable - c.unroutable == if why is Unroutable { 1int } else { 0 }
            &&& after.malformed - c.malformed == if why is Malformed { 1int } else { 0 }
        }),
{
}

/// A packet whose extension headers could be walked goes on without them, unless it is a fragment: then, and where a
/// fragment had none, what goes on is the packet that it completes, and nothing while more of it is to come. Nothing
/// goes on of a packet whose headers cannot be walked.
pub proof fn law_what_a_rewritten_packet_becomes(
    state: DispatchState,
    packet: Seq<u8>,
    now: u64,
    rejected: Rejected,
    stripped: Seq<u8>,
    consumed: nat,
)
    requires
        countable(state.counters),
        state.counters.extension_headers + consumed <= u64::MAX,
    ensures
        ({
            let whole = rewritten(state, packet, now, rejected, Ok((Some(stripped), consumed, false)));
            &&& whole.1 == Some(stripped)
            &&& whole.0.fragments == state.fragments
            &&& whole.0.counters.extended == state.counters.extended + 1
            &&& whole.0.counters.extension_headers == state.counters.extension_headers + consumed
        }),
        ({
            let (after, next) = rewritten(state, packet, now, rejected, Ok((Some(stripped), consumed, true)));
            let (fragments, step) = received(state.fragments, stripped, now);
            &&& after.fragments == fragments
            &&& next == if step is Complete { Some(step->Complete_0) } else { None }
            &&& after.counters.fragmented == state.counters.fragmented + 1
        }),
        ({
            let (after, next) = rewritten(state, packet, now, Rejected::Fragmented, Ok((None, consumed, false)));
            let (fragments, step) = received(state.fragments, packet, now);
            &&& after.fragments == fragments
            &&& next == if step is Complete { Some(step->Complete_0) } else { None }
            &&& after.counters.fragmented == state.counters.fragmented + 1
        }),
        ({
            let (after, next) = rewritten(state, packet, now, rejected, Err(()));
            &&& next is None
            &&& after.fragments == state.fragments
            &&& after.counters.chain_refused == state.counters.chain_refused + 1
        }),
        ({
            let (after, next) = rewritten(state, packet, now, Rejected::Extended, Ok((None, consumed, false)));
            &&& next is None
            &&& after.fragments == state.fragments
            &&& after.counters.unsupported == state.counters.unsupported + 1
        }),
{
}

/// A fragment that overlaps another is counted as that, and one that cannot be read as unparseable.
pub proof fn law_why_a_fragment_was_refused(state: DispatchState, packet: Seq<u8>, now: u64)
    requires
        countable(state.counters),
    ensures
        ({
            let (after, _) = gathered(state, packet, now);
            let step = received(state.fragments, packet, now).1;
            &&& after.counters.fragments_overlapping - state.counters.fragments_overlapping == if step
                == Step::Refused(Unassembled::Overlap) {
                1int
            } else {
                0
            }
            &&& after.counters.unparseable - state.counters.unparseable == if (step matches Step::Refused(why)
                && why is Malformed) {
                1int
            } else {
                0
            }
        }),
{
}

/// What was counted is told counter by counter, each with its own name before it, in one order.
pub proof fn law_counters_are_told_by_name(c: Counters)
    ensures
        counters_text(c) == listed(
            seq![
                ("dns "@, c.dns as nat),
                (" undeliverable-dns "@, c.undeliverable_dns as nat),
                (" relayed "@, c.relayed as nat),
                (" tcp "@, c.tcp as nat),
                (" echo "@, c.echo as nat),
                (" unsupported "@, c.unsupported as nat),
                (" fragmented "@, c.fragmented as nat),
                (" fragments-overlapping "@, c.fragments_overlapping as nat),
                (" fragments-expired "@, c.fragments_expired as nat),
                (" fragments-unreported "@, c.fragments_unreported as nat),
                (" fragments-stalled "@, c.fragments_stalled as nat),
                (" extended "@, c.extended as nat),
                (" extension-headers "@, c.extension_headers as nat),
                (" chain-refused "@, c.chain_refused as nat),
                (" unparseable "@, c.unparseable as nat),
                (" reserved "@, c.reserved as nat),
                (" unroutable "@, c.unroutable as nat),
                (" malformed "@, c.malformed as nat),
                (" unadmitted "@, c.unadmitted as nat),
            ],
            19,
        ),
{
    reveal_with_fuel(listed, 20);
    assert(Seq::<char>::empty() + "dns "@ =~= "dns "@);
}

/// Nothing is counted for a packet but what became of it.
pub proof fn law_nothing_else_is_counted(c: Counters, packet: Seq<u8>, classified: Classified, echo: Result<(), Reject>)
    requires
        countable(c),
    ensures
        ({
            let after = delivered(c, packet, classified, echo).0;
            &&& after.fragmented == c.fragmented
            &&& after.fragments_overlapping == c.fragments_overlapping
            &&& after.fragments_expired == c.fragments_expired
            &&& after.fragments_unreported == c.fragments_unreported
            &&& after.fragments_stalled == c.fragments_stalled
            &&& after.extended == c.extended
            &&& after.extension_headers == c.extension_headers
            &&& after.chain_refused == c.chain_refused
            &&& after.unadmitted == c.unadmitted
            &&& classified is Accepted && !(classified->principal is Dns) ==> after.dns == c.dns
                && after.undeliverable_dns == c.undeliverable_dns
            &&& classified is Dropped ==> after.dns == c.dns
        }),
{
}

} // verus!
