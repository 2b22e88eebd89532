//! Replies on their way to the tun.
use vstd::prelude::*;

use crate::addr::SocketAddr;
use crate::ipv4_identification::Guarded;
use crate::packet_writer::{
    emission, took, value_of, Addressed, Emitted, Emitter, EmitterState, Reporter, Sink, SizingInput, WriterError,
    IPV4_HEADER_LEN, IPV6_HEADER_LEN,
};
use crate::text::{decimal, push_decimal, push_field};
use crate::udp_wire::{build_reply, law_which_replies_can_be_built, reply_packet};

verus! {

/// How long a UDP header is.
pub const UDP_HEADER_LEN: usize = 8;

/// The number of UDP among the protocols.
pub const UDP: u8 = 17;

/// How long an IP header is.
pub fn header_len(ipv6: bool) -> (r: usize)
    ensures
        r == if ipv6 { 40usize } else { 20 },
{
    if ipv6 {
        IPV6_HEADER_LEN
    } else {
        IPV4_HEADER_LEN
    }
}

/// How long a reply is on the wire.
pub open spec fn reply_size(source: SocketAddr, payload: Seq<u8>) -> int {
    (if source.ip is V6 { 40int } else { 20 }) + 8 + payload.len()
}

/// Whether `built` is a reply with an identification.
pub open spec fn is_reply(
    source: SocketAddr,
    destination: SocketAddr,
    hop_limit: u8,
    identification: Option<u16>,
    payload: Seq<u8>,
    built: Result<Vec<u8>, WriterError>,
) -> bool {
    match built {
        Ok(packet) => reply_packet(source, destination, hop_limit, identification, payload) == Ok::<
            Seq<u8>,
            WriterError,
        >(packet@),
        Err(error) => reply_packet(source, destination, hop_limit, identification, payload) == Err::<
            Seq<u8>,
            WriterError,
        >(error),
    }
}

/// How a reply is sized.
pub open spec fn reply_sizing(
    before: EmitterState,
    now: u64,
    source: SocketAddr,
    destination: SocketAddr,
    payload: Seq<u8>,
) -> SizingInput {
    let addressed = Addressed {
        source: source.ip,
        destination: destination.ip,
        protocol: 17,
        size: reply_size(source, payload) as usize,
    };
    SizingInput { tuple: addressed.tuple(), oversized: addressed.size > before.mtu, now }
}

/// Emits a datagram from an upstream's endpoint to a client's. Says whether any packet of it is on its way.
pub fn datagram<S: Sink, R: Reporter>(
    emitter: &mut Emitter,
    now: u64,
    source: SocketAddr,
    destination: SocketAddr,
    hop_limit: u8,
    payload: &[u8],
    sink: &mut S,
    reporter: &mut R,
) -> (r: bool)
    requires
        old(emitter).wf(),
        old(emitter).countable(),
        payload@.len() + 48 <= usize::MAX,
    ensures
        final(emitter).wf(),
        ({
            let before = old(emitter)@;
            let after = final(emitter)@;
            let sizing = reply_sizing(before, now, source, destination, payload@);
            match sizing.denial(before.identifications) {
                Some(denial) => {
                    &&& !r
                    &&& after == (EmitterState {
                        identifications: sizing.asked(before.identifications),
                        ..before.counted(Emitted::Denied(denial))
                    })
                    &&& final(sink).offered() == old(sink).offered()
                    &&& final(reporter).reports() == old(reporter).reports()
                },
                None => exists|
                    guarded: Option<Guarded>,
                    built: Result<Vec<u8>, WriterError>,
                    emitted: Emitted,
                |
                    {
                        &&& sizing.issues(before.identifications, guarded)
                        &&& #[trigger] is_reply(
                            source,
                            destination,
                            hop_limit,
                            value_of(guarded),
                            payload@,
                            built,
                        )
                        &&& #[trigger] emission(
                            emitted,
                            built,
                            guarded,
                            before.mtu,
                            sizing.asked(before.identifications),
                            after.identifications,
                            before.fragment_identification,
                            after.fragment_identification,
                            old(sink).offered(),
                            final(sink).offered(),
                        )
                        &&& after == (EmitterState {
                            identifications: after.identifications,
                            fragment_identification: after.fragment_identification,
                            ..before.counted(emitted)
                        })
                        &&& r == (emitted matches Emitted::Handed { queued, .. } && queued > 0)
                        &&& r == took(old(sink).offered(), final(sink).offered())
                        &&& final(reporter).reports() == (match emitted {
                            Emitted::Unbuildable(error) => old(reporter).reports().push(
                                (source.ip, destination.ip, error),
                            ),
                            _ => old(reporter).reports(),
                        })
                    },
            }
        }),
{
    let _length: usize = payload.len();
    let size: usize = header_len(source.ip.is_ipv6()) + UDP_HEADER_LEN + payload.len();
    let addressed = Addressed { source: source.ip, destination: destination.ip, protocol: UDP, size };
    let build = |identification: Option<u16>| -> (built: Result<Vec<u8>, WriterError>)
        ensures
            is_reply(source, destination, hop_limit, identification, payload@, built),
        { build_reply(source, destination, hop_limit, identification, payload) };
    let r = emitter.emit(now, addressed, build, sink, reporter);
    proof {
        let before = old(emitter)@;
        let after = emitter@;
        let sizing = reply_sizing(before, now, source, destination, payload@);
        if sizing.denial(before.identifications) is None {
            let (guarded, built, emitted) = choose|
                guarded: Option<Guarded>,
                built: Result<Vec<u8>, WriterError>,
                emitted: Emitted,
            |
                {
                    &&& sizing.issues(before.identifications, guarded)
                    &&& #[trigger] build.ensures((value_of(guarded),), built)
                    &&& #[trigger] emission(
                        emitted,
                        built,
                        guarded,
                        before.mtu,
                        sizing.asked(before.identifications),
                        after.identifications,
                        before.fragment_identification,
                        after.fragment_identification,
                        old(sink).offered(),
                        sink.offered(),
                    )
                    &&& after == (EmitterState {
                        identifications: after.identifications,
                        fragment_identification: after.fragment_identification,
                        ..before.counted(emitted)
                    })
                    &&& r == (emitted matches Emitted::Handed { queued, .. } && queued > 0)
                    &&& r == took(old(sink).offered(), sink.offered())
                    &&& reporter.reports() == (match emitted {
                        Emitted::Unbuildable(error) => old(reporter).reports().push(
                            (addressed.source, addressed.destination, error),
                        ),
                        _ => old(reporter).reports(),
                    })
                };
            assert(is_reply(source, destination, hop_limit, value_of(guarded), payload@, built));
        }
    }
    r
}

/// Says what was emitted, and what is known of identifications.
pub fn describe(emitter: &Emitter, identifications: &str) -> (r: String)
    ensures
        r@ == "mtu "@ + decimal(emitter@.mtu as nat) + " queued-packets "@ + decimal(emitter@.queued as nat)
            + " handoff-refused-packets "@ + decimal(emitter@.handoff_refused as nat) + " unbuildable "@
            + decimal(emitter@.unbuildable as nat) + " identification-denied "@ + decimal(
            emitter@.denied as nat,
        ) + "; "@ + identifications@,
{
    let mut out = "mtu ".to_owned();
    push_decimal(&mut out, emitter.mtu() as u64);
    push_field(&mut out, " queued-packets ", emitter.queued());
    push_field(&mut out, " handoff-refused-packets ", emitter.handoff_refused());
    push_field(&mut out, " unbuildable ", emitter.unbuildable());
    push_field(&mut out, " identification-denied ", emitter.denied());
    out.append("; ");
    out.append(identifications);
    out
}

/// The size that a reply is taken to have is the size that it has.
pub proof fn law_a_reply_is_as_long_as_it_was_taken_to_be(
    source: SocketAddr,
    destination: SocketAddr,
    hop_limit: u8,
    identification: Option<u16>,
    payload: Seq<u8>,
)
    ensures
        reply_packet(source, destination, hop_limit, identification, payload) is Ok ==> reply_size(source, payload)
            == reply_packet(source, destination, hop_limit, identification, payload)->Ok_0.len(),
{
    law_which_replies_can_be_built(source, destination, hop_limit, identification, payload);
}

/// A reply asks for an identification exactly where it goes over IPv4 and does not fit.
pub proof fn law_only_a_long_ipv4_reply_is_identified(
    before: EmitterState,
    now: u64,
    source: SocketAddr,
    destination: SocketAddr,
    payload: Seq<u8>,
)
    requires
        payload.len() <= 65_507,
    ensures
        ({
            let sizing = reply_sizing(before, now, source, destination, payload);
            &&& sizing.asks() is Some <==> source.ip is V4 && destination.ip is V4 && 28 + payload.len() > before.mtu
            &&& sizing.asks() is Some ==> sizing.asks() == Some((source.ip->V4_0, destination.ip->V4_0, 17u8))
            &&& sizing.now == now
        }),
{
}

/// What is built for a reply is the reply, or says why there can be none.
pub proof fn law_what_is_built_is_the_reply(
    source: SocketAddr,
    destination: SocketAddr,
    hop_limit: u8,
    identification: Option<u16>,
    payload: Seq<u8>,
    built: Result<Vec<u8>, WriterError>,
)
    requires
        is_reply(source, destination, hop_limit, identification, payload, built),
    ensures
        built is Ok <==> reply_packet(source, destination, hop_limit, identification, payload) is Ok,
        built is Ok ==> built->Ok_0@ == reply_packet(source, destination, hop_limit, identification, payload)->Ok_0,
        built is Err ==> built->Err_0 == reply_packet(
            source,
            destination,
            hop_limit,
            identification,
            payload,
        )->Err_0,
{
}

} // verus!
