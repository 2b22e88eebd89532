use std::collections::VecDeque;

use smoltcp::iface::{Config, Interface, PollResult, SocketHandle, SocketSet};
use smoltcp::phy::{Device, DeviceCapabilities, Medium, RxToken, TxToken};
use smoltcp::socket::tcp::{Socket, SocketBuffer, State};
use smoltcp::time::{Duration, Instant};
use smoltcp::wire::{HardwareAddress, IpAddress, IpCidr};
use vpnhotspotd::tcp_device::{hand_over, unsettled, Handoff, Received, Shim, Transmit};

/// The device as the stack sees it.
struct Link(Shim);

struct Incoming(Received);

struct Outgoing<'a>(Transmit<'a>);

impl Device for Link {
    type RxToken<'a> = Incoming;
    type TxToken<'a> = Outgoing<'a>;

    fn receive(&mut self, _timestamp: Instant) -> Option<(Self::RxToken<'_>, Self::TxToken<'_>)> {
        self.0
            .receive()
            .map(|(received, transmit)| (Incoming(received), Outgoing(transmit)))
    }

    fn transmit(&mut self, _timestamp: Instant) -> Option<Self::TxToken<'_>> {
        self.0.transmit().map(Outgoing)
    }

    fn capabilities(&self) -> DeviceCapabilities {
        let mut capabilities = DeviceCapabilities::default();
        capabilities.medium = Medium::Ip;
        capabilities.max_transmission_unit = self.0.mtu();
        capabilities
    }
}

impl RxToken for Incoming {
    fn consume<R, F: FnOnce(&[u8]) -> R>(self, f: F) -> R {
        f(self.0.packet())
    }
}

impl TxToken for Outgoing<'_> {
    fn consume<R, F: FnOnce(&mut [u8]) -> R>(self, length: usize, f: F) -> R {
        let mut packet = vec![0; length];
        let result = f(&mut packet);
        self.0.consume(packet);
        result
    }
}

fn quiesce(
    interface: &mut Interface,
    device: &mut Link,
    sockets: &mut SocketSet<'_>,
    at: Instant,
    output: &mut impl Handoff,
) {
    loop {
        let (emitted, accepting) = hand_over(&mut device.0, output);
        if !accepting {
            break;
        }
        let moved = !matches!(interface.poll(at, device, sockets), PollResult::None);
        if !unsettled(emitted, moved) {
            break;
        }
    }
}

/// An aborted socket keeps its peer until the reset has left it.
fn owes_reset(socket: &Socket<'_>) -> bool {
    socket.state() == State::Closed && socket.remote_endpoint().is_some()
}

/// Small enough that the test payload needs several segments.
const MTU: usize = 1_500;
/// Keeps socket buffers from becoming the tested bottleneck.
const BUFFER: usize = 65_535;

/// Handoff with controllable capacity.
#[derive(Default)]
struct Slots {
    free: usize,
    taken: Vec<Vec<u8>>,
    refused: usize,
}

impl Handoff for Slots {
    fn accepting(&self) -> bool {
        self.free > 0
    }

    fn packet(&mut self, packet: Vec<u8>) -> bool {
        match self.free.checked_sub(1) {
            Some(left) => {
                self.free = left;
                self.taken.push(packet);
                true
            }
            None => {
                self.refused += 1;
                false
            }
        }
    }
}

/// Two smoltcp sockets connected only through the device and handoff.
struct Wire {
    interface: Interface,
    device: Link,
    sockets: SocketSet<'static>,
    /// The flow's client-facing socket, which is the one this daemon owns.
    engine: SocketHandle,
    /// Stands in for the client at the other end of the TUN.
    client: SocketHandle,
    handoff: Slots,
    millis: i64,
}

impl Wire {
    fn connected() -> Self {
        let mut device = Link(Shim::new(MTU));
        let mut interface = Interface::new(
            Config::new(HardwareAddress::Ip),
            &mut device,
            Instant::from_millis(0),
        );
        // Match the engine's any-IP interception.
        interface.set_any_ip(true);
        interface.update_ip_addrs(|addresses| {
            addresses
                .push(IpCidr::new(IpAddress::v4(192, 0, 2, 1), 24))
                .expect("one address fits");
        });
        let mut sockets = SocketSet::new(Vec::new());
        let engine = sockets.add(socket());
        let client = sockets.add(socket());
        sockets
            .get_mut::<Socket>(engine)
            .listen(80)
            .expect("a fresh socket may listen");
        sockets
            .get_mut::<Socket>(client)
            .connect(
                interface.context(),
                (IpAddress::v4(192, 0, 2, 1), 80),
                49_152,
            )
            .expect("a fresh socket may connect");
        let mut wire = Self {
            interface,
            device,
            sockets,
            engine,
            client,
            handoff: Slots::default(),
            millis: 0,
        };
        wire.exchange();
        assert_eq!(wire.state(wire.engine), State::Established);
        assert_eq!(wire.state(wire.client), State::Established);
        wire
    }

    fn now(&self) -> Instant {
        Instant::from_millis(self.millis)
    }

    fn socket(&mut self, handle: SocketHandle) -> &mut Socket<'static> {
        self.sockets.get_mut::<Socket>(handle)
    }

    fn state(&self, handle: SocketHandle) -> State {
        self.sockets.get::<Socket>(handle).state()
    }

    /// One [quiesce] with current handoff capacity.
    fn stack(&mut self) {
        let at = self.now();
        quiesce(
            &mut self.interface,
            &mut self.device,
            &mut self.sockets,
            at,
            &mut self.handoff,
        );
    }

    fn poll_delay(&mut self) -> Option<Duration> {
        self.interface.poll_delay(self.now(), &self.sockets)
    }

    /// Exchanges packets until both sockets are quiet.
    fn exchange(&mut self) {
        let mut inflight: VecDeque<Vec<u8>> = VecDeque::new();
        for _ in 0..1_024 {
            self.handoff.free = 1;
            self.stack();
            inflight.extend(self.handoff.taken.drain(..));
            let Some(packet) = inflight.pop_front() else {
                return;
            };
            assert!(
                self.device.0.push(&packet),
                "the device slot is free between polls"
            );
        }
        panic!("the two sockets never went quiet");
    }
}

fn socket() -> Socket<'static> {
    Socket::new(
        SocketBuffer::new(vec![0; BUFFER]),
        SocketBuffer::new(vec![0; BUFFER]),
    )
}

#[test]
fn a_stalled_handoff_never_leaves_the_stack_advanced_past_a_packet_it_did_not_deliver() {
    let mut wire = Wire::connected();
    let payload = vec![0x5a; 4_000];
    let engine = wire.engine;
    wire.socket(engine)
        .send_slice(&payload)
        .expect("the send buffer takes the whole payload");
    // Put a FIN behind a multi-segment payload.
    wire.socket(engine).close();

    // Release one packet at a time without advancing the retransmission clock.
    let mut released = 0;
    while wire.poll_delay() == Some(Duration::ZERO) {
        wire.handoff.free = 1;
        wire.stack();
        assert!(
            !wire.device.0.holding(),
            "release {released} left a packet the stack had already been advanced past"
        );
        released += 1;
        assert!(released < 64, "the stack never went quiet");
    }
    assert!(
        released >= 2,
        "the payload has to need more than one packet for this to be about the second"
    );
    assert_eq!(
        wire.handoff.refused, 0,
        "nothing was handed over to be lost"
    );
    assert_ne!(
        wire.poll_delay(),
        Some(Duration::ZERO),
        "what the stack is waiting for now is an acknowledgement, not a slot"
    );

    // Delivery completes without retransmission.
    wire.exchange();
    assert_eq!(wire.millis, 0, "no retransmission timer was ever involved");
    let client = wire.client;
    assert_eq!(
        wire.socket(client).recv_queue(),
        payload.len(),
        "every byte crossed"
    );
    assert_eq!(
        wire.state(client),
        State::CloseWait,
        "and the FIN behind them did too"
    );
}

#[test]
fn an_abort_keeps_its_reset_in_the_socket_until_the_handoff_can_take_it() {
    let mut wire = Wire::connected();
    let engine = wire.engine;
    // Abort while the interface is stalled.
    wire.handoff.free = 0;
    wire.socket(engine).abort();
    wire.stack();
    assert!(wire.handoff.taken.is_empty(), "there was nowhere to put it");
    assert!(
        !wire.device.0.holding(),
        "and it was not taken out of the socket to sit in the device either"
    );
    assert!(
        owes_reset(wire.socket(engine)),
        "so the socket still owns it, which is what stops its flow being reclaimed"
    );
    assert_eq!(
        wire.poll_delay(),
        Some(Duration::ZERO),
        "and asks to be polled for it as soon as there is capacity, on its own account"
    );

    // Capacity sends the retained reset and makes the flow reclaimable.
    wire.handoff.free = 1;
    wire.stack();
    assert_eq!(wire.handoff.taken.len(), 1);
    assert!(
        !owes_reset(wire.socket(engine)),
        "the reset has left the socket, so nothing of it depends on the socket any more"
    );

    wire.exchange();
    assert_eq!(
        wire.state(wire.client),
        State::Closed,
        "and the client was really told"
    );
}

#[test]
fn a_full_handoff_leaves_a_pushed_packet_unconsumed_and_asks_for_nothing() {
    let mut wire = Wire::connected();
    // Capture client data whose consumption requires an acknowledgement.
    let client = wire.client;
    let sent = b"payload";
    wire.socket(client)
        .send_slice(sent)
        .expect("the send buffer takes it");
    wire.handoff.free = 1;
    wire.stack();
    let segment = wire.handoff.taken.pop().expect("the client's data segment");
    assert!(wire.handoff.taken.is_empty());

    // Model the state prevented by the TUN readability gate.
    wire.handoff.free = 0;
    assert!(wire.device.0.push(&segment), "the device slot is free");
    wire.stack();
    let engine = wire.engine;
    assert_eq!(
        wire.socket(engine).recv_queue(),
        0,
        "the stack never saw it, so nothing of it was acted on"
    );
    assert!(wire.handoff.taken.is_empty(), "and nothing was answered");
    assert_ne!(
        wire.poll_delay(),
        Some(Duration::ZERO),
        "device readiness is no part of the schedule, so nothing wakes for a packet left here"
    );
    assert!(
        !wire.device.0.push(&segment),
        "and the packet behind it would be refused for as long as it stays"
    );

    // Capacity lets the same call consume it.
    wire.handoff.free = 2;
    wire.stack();
    assert_eq!(wire.socket(engine).recv_queue(), sent.len());
    assert!(!wire.device.0.holding());
    assert!(
        wire.device.0.push(&segment),
        "and the device is free for the next packet, rather than wedged behind a stale one"
    );

    // smoltcp schedules its delayed acknowledgement normally.
    let delay = wire.poll_delay().expect("an acknowledgement is pending");
    assert!(delay > Duration::ZERO);
    wire.millis += delay.millis() as i64 + 1;
    wire.stack();
    assert_eq!(wire.handoff.taken.len(), 1, "the acknowledgement");
}

#[test]
fn a_handoff_with_room_drains_the_stack_in_one_call() {
    let mut wire = Wire::connected();
    let engine = wire.engine;
    wire.socket(engine)
        .send_slice(&vec![0x5a; 4_000])
        .expect("the send buffer takes the whole payload");
    wire.handoff.free = 16;
    wire.stack();
    assert!(wire.handoff.taken.len() > 1, "one call, every packet");
    assert!(!wire.device.0.holding());
    assert_ne!(wire.poll_delay(), Some(Duration::ZERO));
}

#[test]
fn one_packet_is_on_its_way_out_at_a_time() {
    let mut shim = Shim::new(MTU);
    assert_eq!(shim.mtu(), MTU);
    assert!(shim.receive().is_none());
    assert!(shim.push(&[1, 2]));
    assert!(!shim.push(&[3]));
    shim.transmit().expect("the slot is free").consume(vec![9]);
    assert!(shim.holding());
    assert!(shim.transmit().is_none());
    assert!(shim.receive().is_none(), "an answer would have nowhere to go");
    assert_eq!(shim.drain(), Some(vec![9]));
    let (received, _answer) = shim.receive().expect("one packet came in");
    assert_eq!(received.packet(), &[1, 2]);
    assert!(!shim.holding());
}

#[test]
fn the_answer_of_the_handoff_says_whether_a_packet_left() {
    /// Says that it has room, and takes a packet only when it is told to.
    #[derive(Default)]
    struct Fickle {
        takes: bool,
        seen: Vec<Vec<u8>>,
    }

    impl Handoff for Fickle {
        fn accepting(&self) -> bool {
            true
        }

        fn packet(&mut self, packet: Vec<u8>) -> bool {
            self.seen.push(packet);
            self.takes
        }
    }

    for takes in [false, true] {
        let mut shim = Shim::new(MTU);
        let mut output = Fickle { takes, ..Fickle::default() };
        assert_eq!(hand_over(&mut shim, &mut output), (false, true));
        shim.transmit().expect("the slot is free").consume(vec![9, 8]);
        assert_eq!(hand_over(&mut shim, &mut output), (takes, true));
        assert_eq!(output.seen, vec![vec![9, 8]]);
        assert!(!shim.holding());
    }
}
