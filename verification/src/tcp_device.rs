//! The device between the tun and the client-side stack: one packet in, one packet out.
use vstd::prelude::*;

use crate::octets::push_all;

verus! {

/// The one packet on its way in and the one on its way out.
#[derive(Debug)]
pub struct Shim {
    inbound: Option<Vec<u8>>,
    outbound: Option<Vec<u8>>,
    mtu: usize,
}

/// What a device holds.
#[verifier::ext_equal]
pub struct ShimState {
    pub inbound: Option<Seq<u8>>,
    pub outbound: Option<Seq<u8>>,
    pub mtu: usize,
}

/// The octets of a packet that may be there.
pub open spec fn packet_view(packet: Option<Vec<u8>>) -> Option<Seq<u8>> {
    match packet {
        Some(packet) => Some(packet@),
        None => None,
    }
}

impl View for Shim {
    type V = ShimState;

    closed spec fn view(&self) -> ShimState {
        ShimState {
            inbound: packet_view(self.inbound),
            outbound: packet_view(self.outbound),
            mtu: self.mtu,
        }
    }
}

/// The right to put one packet on its way out.
pub struct Transmit<'a> {
    pub outbound: &'a mut Option<Vec<u8>>,
}

impl<'a> Transmit<'a> {
    /// Puts a packet on its way out.
    pub fn consume(self, packet: Vec<u8>)
        ensures
            *final(self.outbound) == Some(packet),
    {
        *self.outbound = Some(packet);
    }
}

/// A packet that came in.
#[derive(Debug)]
pub struct Received {
    packet: Vec<u8>,
}

impl View for Received {
    type V = Seq<u8>;

    closed spec fn view(&self) -> Seq<u8> {
        self.packet@
    }
}

impl Received {
    /// The packet.
    pub fn packet(&self) -> (r: &[u8])
        ensures
            r@ == self@,
    {
        self.packet.as_slice()
    }
}

impl Shim {
    /// A device that holds nothing.
    pub fn new(mtu: usize) -> (r: Self)
        ensures
            r@ == (ShimState { inbound: None, outbound: None, mtu }),
    {
        Shim { inbound: None, outbound: None, mtu }
    }

    /// How long a packet may be.
    pub fn mtu(&self) -> (r: usize)
        ensures
            r == self@.mtu,
    {
        self.mtu
    }

    /// Takes a packet in, unless one is still to be read.
    pub fn push(&mut self, packet: &[u8]) -> (r: bool)
        ensures
            r == (old(self)@.inbound is None),
            final(self)@ == if r {
                ShimState { inbound: Some(packet@), ..old(self)@ }
            } else {
                old(self)@
            },
    {
        if self.inbound.is_some() {
            return false;
        }
        let mut copy: Vec<u8> = Vec::new();
        push_all(&mut copy, packet);
        assert(copy@ =~= packet@);
        self.inbound = Some(copy);
        true
    }

    /// Takes the packet on its way out.
    pub fn drain(&mut self) -> (r: Option<Vec<u8>>)
        ensures
            packet_view(r) == old(self)@.outbound,
            final(self)@ == (ShimState { outbound: None, ..old(self)@ }),
    {
        self.outbound.take()
    }

    /// Whether a packet is on its way out.
    pub fn holding(&self) -> (r: bool)
        ensures
            r == self@.outbound is Some,
    {
        self.outbound.is_some()
    }

    /// Hands the packet that came in to the stack, with the right to answer it. The stack gets nothing while a
    /// packet is still on its way out.
    pub fn receive(&mut self) -> (r: Option<(Received, Transmit<'_>)>)
        ensures
            match r {
                None => (old(self)@.outbound is Some || old(self)@.inbound is None) && final(self)@
                    == old(self)@,
                Some((received, token)) => {
                    &&& old(self)@.outbound is None
                    &&& old(self)@.inbound == Some(received@)
                    &&& *token.outbound == None::<Vec<u8>>
                    &&& final(self)@ == (ShimState {
                        inbound: None,
                        outbound: packet_view(*final(token.outbound)),
                        mtu: old(self)@.mtu,
                    })
                },
            },
    {
        if self.outbound.is_some() {
            return None;
        }
        match self.inbound.take() {
            Some(packet) => Some((Received { packet }, Transmit { outbound: &mut self.outbound })),
            None => None,
        }
    }

    /// Hands the stack the right to put a packet on its way out, unless one already is.
    pub fn transmit(&mut self) -> (r: Option<Transmit<'_>>)
        ensures
            match r {
                None => old(self)@.outbound is Some && final(self)@ == old(self)@,
                Some(token) => {
                    &&& old(self)@.outbound is None
                    &&& *token.outbound == None::<Vec<u8>>
                    &&& final(self)@ == (ShimState {
                        outbound: packet_view(*final(token.outbound)),
                        ..old(self)@
                    })
                },
            },
    {
        if self.outbound.is_some() {
            return None;
        }
        Some(Transmit { outbound: &mut self.outbound })
    }
}

/// Where packets on their way out go.
pub trait Handoff {
    /// Every packet that was handed over, and whether that was progress.
    ///
    /// What stands here is for one of which nothing is proved. One that is proved to keep what is asked of it says
    /// in its own words what it was told.
    open spec fn handed(&self) -> Seq<(Seq<u8>, bool)> {
        Seq::empty()
    }

    /// Whether more can be taken.
    open spec fn accepts(&self) -> bool {
        true
    }

    fn accepting(&self) -> (r: bool)
        ensures
            r == self.accepts(),
    ;

    /// Takes a packet, and says whether that was progress.
    fn packet(&mut self, packet: Vec<u8>) -> (r: bool)
        ensures
            final(self).handed() == old(self).handed().push((packet@, r)),
    ;
}

/// One round of settling the stack: what it put on its way out is handed over. Says whether that was progress,
/// and whether the stack may be advanced.
pub fn hand_over<H: Handoff>(device: &mut Shim, output: &mut H) -> (r: (bool, bool))
    ensures
        final(device)@ == (ShimState { outbound: None, ..old(device)@ }),
        final(output).handed() == match old(device)@.outbound {
            Some(packet) => old(output).handed().push((packet, r.0)),
            None => old(output).handed(),
        },
        old(device)@.outbound is None ==> !r.0,
        r.1 == final(output).accepts(),
{
    let emitted = match device.drain() {
        Some(packet) => output.packet(packet),
        None => false,
    };
    (emitted, output.accepting())
}

/// Whether the stack is to be advanced once more: as long as a packet went out or the stack moved.
pub fn unsettled(emitted: bool, moved: bool) -> (r: bool)
    ensures
        r == (moved || emitted),
{
    moved || emitted
}

} // verus!
