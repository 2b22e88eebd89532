use vpnhotspotd::addr::{IpAddr, SocketAddr};
use vpnhotspotd::fair::{FairQueue, FlowId};
use vpnhotspotd::flow_setup::{build, denied, prepare, release, Denied, Undo};
use vpnhotspotd::room::{Reserving as Room, Sending, Unsent};
use vpnhotspotd::tcp_engine::{Closing, Crossing, Draining, Engine, Handle, Transport};
use vpnhotspotd::tcp_queries::{
    self, acknowledged, answer_here, commit_query, handed_over, reserve_query, reserved, serving, submitted, Committing,
    Reserving, Settling,
};
use vpnhotspotd::tcp_transfer::{
    attention, pump_to_client, pump_to_upstream, stop_finished, Attention, Offer, Socket,
};
use vpnhotspotd::transfer::{Chunk, Polling, Transfer};
use vpnhotspotd::workers::TaskId;

const FLOW: Handle = Handle(7);

fn start(engine: &mut Engine, handle: Handle, id: u64, transport: Option<Transport>, deadline: Option<u64>) -> bool {
    let client = SocketAddr { ip: IpAddr::V4(1), port: 40000 };
    let destination = SocketAddr { ip: IpAddr::V4(2), port: 443 };
    engine.start(handle, id, transport, client, destination, deadline, TaskId(handle.0))
}

fn engine(deadline: Option<u64>) -> (Engine, u64) {
    let mut engine = Engine::new();
    let id = prepare(&mut engine, true, true).expect("a fresh engine issues identities");
    let transport = build(&mut engine, false, true, true).ok();
    assert!(start(&mut engine, FLOW, id, transport, deadline));
    (engine, id)
}

fn crossing() -> Crossing {
    Crossing {
        moved: true,
        to_client: 3,
        to_upstream: 4,
        stranded: false,
        delivered: true,
    }
}

#[test]
fn a_flow_is_prepared_only_where_it_may_open() {
    let mut engine = Engine::new();
    assert_eq!(prepare(&mut engine, false, true), Err((Denied::Grant, vec![])));
    assert_eq!(prepare(&mut engine, true, false), Err((Denied::Listen, vec![Undo::ReleaseGrant])));
    assert_eq!(release(), vec![Undo::RemoveSocket, Undo::DropChannels, Undo::ReleaseGrant]);
    let first = prepare(&mut engine, true, true).unwrap();
    assert_ne!(prepare(&mut engine, true, true).unwrap(), first);
}

#[test]
fn an_idle_flow_expires_when_its_time_has_come() {
    let (mut engine, id) = engine(None);
    assert_eq!(engine.next_deadline(true), None);
    engine.rearm(FLOW, id, Some(50));
    assert_eq!(engine.next_deadline(true), Some(50));
    engine.rearm(FLOW, id + 1, Some(40));
    assert_eq!(engine.next_deadline(true), Some(50), "another identity moves nothing");
    engine.stack_changed();
    assert!(engine.stack_stale());
    engine.stack_asked(Some(30));
    assert!(!engine.stack_stale());
    assert_eq!(engine.next_deadline(true), Some(30));
    assert_eq!(engine.next_deadline(false), Some(50), "the stack waits while nothing can go out");
    engine.stack_asked(None);
    assert!(engine.expire(49).is_empty());
    assert_eq!(engine.expire(50), vec![FLOW]);
    assert!(engine.get(FLOW).unwrap().cancelled);
    assert_eq!(engine.next_deadline(true), None);
    engine.rearm(FLOW, id, Some(60));
    assert_eq!(engine.next_deadline(true), None, "a cancelled flow is not armed again");
}

#[test]
fn a_flow_closes_once_and_only_by_its_own_identity() {
    let (mut engine, id) = engine(None);
    assert_eq!(engine.draining(), Draining::Join);
    assert_eq!(engine.close(FLOW, id + 1, false, true), (Closing::Stale, false));
    assert_eq!(engine.close(FLOW, id, false, true), (Closing::Settle, true), "its descriptor is given back");
    assert_eq!(engine.close(FLOW, id, false, false), (Closing::Reset, false), "and only once");
    assert_eq!(engine.next_client_closed(&vec![FLOW]), None);
    assert_eq!(engine.close(FLOW, id, true, false), (Closing::Retained, false));
    assert_eq!(engine.next_client_closed(&vec![Handle(8), FLOW]), Some((FLOW, id)));
    assert_eq!(engine.next_client_closed(&Vec::new()), None, "its socket is not over");
    assert_eq!(engine.draining(), Draining::Reclaim(FLOW, id));
    assert_eq!(engine.finished(TaskId(7)), Some((FLOW, id)));
    assert!(!engine.settle(FLOW, id, true));
    assert!(engine.contains(FLOW));
    assert!(engine.settle(FLOW, id, false));
    assert!(!engine.contains(FLOW));
    assert!(!engine.reclaim(FLOW, id), "what is gone is stale");
    assert_eq!(engine.len(), 0);
    assert_eq!(engine.draining(), Draining::Done);
}

#[test]
fn a_flow_is_built_with_the_descriptor_it_was_granted() {
    let mut engine = Engine::new();
    assert!(denied(&mut engine, Denied::Listen), "the destination that cannot be listened on is told");
    assert!(!denied(&mut engine, Denied::Grant));
    assert!(!denied(&mut engine, Denied::Identity));
    assert_eq!(build(&mut engine, true, false, false), Ok(Transport::Resolver));
    assert_eq!(build(&mut engine, false, false, false), Ok(Transport::Unopened));
    assert_eq!(build(&mut engine, false, true, true), Ok(Transport::Upstream));
    assert_eq!(
        build(&mut engine, false, true, false),
        Err(vec![Undo::CloseUpstream, Undo::RemoveSocket, Undo::DropChannels, Undo::ReleaseGrant])
    );
    let told = engine.describe("no queries");
    assert!(told.contains(" denied 4 "), "{told}");
}

#[test]
fn a_flow_without_a_transport_or_with_the_socket_of_another_is_not_taken_in() {
    let (mut engine, id) = engine(Some(50));
    assert!(engine.get(FLOW).unwrap().record.upstream_lease);
    assert!(!start(&mut engine, Handle(8), id + 1, None, None));
    let client = SocketAddr { ip: IpAddr::V4(1), port: 40000 };
    assert!(!engine.start(FLOW, id + 1, Some(Transport::Resolver), client, client, None, TaskId(9)));
    assert_eq!(engine.get(FLOW).unwrap().id, id);
    assert!(start(&mut engine, Handle(8), id + 1, Some(Transport::Resolver), Some(60)));
    assert!(!engine.get(Handle(8)).unwrap().record.upstream_lease);
    let told = engine.describe("no queries");
    assert!(told.starts_with("2 flows, no queries, opened 2 resolved 1 "), "{told}");
    assert!(told.contains(" unadmitted 2 "), "{told}");
}

#[test]
fn a_flow_whose_socket_ended_is_cancelled_and_woken_for_no_more() {
    let (mut engine, id) = engine(Some(50));
    assert!(start(&mut engine, Handle(8), id + 1, Some(Transport::Unopened), Some(60)));
    engine.reclaim_closed(&vec![FLOW, Handle(9)]);
    assert!(engine.get(FLOW).unwrap().cancelled);
    assert!(!engine.get(Handle(8)).unwrap().cancelled);
    assert_eq!(engine.next_deadline(false), Some(60));
    assert!(engine.expire(55).is_empty());
}

#[test]
fn what_crossed_is_counted_and_refreshes_its_flow() {
    let (mut engine, id) = engine(None);
    assert!(engine.cross(FLOW, Some(crossing())));
    assert!(engine.stack_stale());
    assert!(!engine.cross(FLOW, None));
    assert!(engine.get(FLOW).unwrap().record.refresh);
    assert_eq!(engine.traffic(true), vec![(FLOW, id)]);
    assert!(engine.traffic(true).is_empty(), "one refresh per crossing");
    engine.cross(FLOW, Some(crossing()));
    assert!(engine.traffic(false).is_empty());
    let told = engine.describe("no queries");
    assert!(told.starts_with("1 flows, no queries, "), "{told}");
    assert!(told.contains(" 1 opened") || told.contains("opened 1"), "{told}");
    assert_eq!(engine.shutdown(), vec![FLOW]);
    assert!(engine.get(FLOW).unwrap().cancelled);
}

#[test]
fn a_query_is_served_for_a_current_flow_alone() {
    let (mut engine, id) = engine(None);
    assert!(serving(&mut engine, FLOW, id));
    assert!(!serving(&mut engine, FLOW, id + 1));
    assert!(matches!(reserve_query(&mut engine, FLOW, id + 1, true, false), Reserving::Stale));
    assert!(matches!(reserve_query(&mut engine, FLOW, id, false, false), Reserving::Denied));
    assert!(matches!(reserve_query(&mut engine, FLOW, id, true, true), Reserving::Denied));
    assert!(matches!(reserve_query(&mut engine, FLOW, id, true, false), Reserving::Ask));
    assert!(matches!(reserved(&mut engine, FLOW, true), Reserving::Granted));
    assert!(matches!(reserved(&mut engine, FLOW, false), Reserving::Denied));
    assert!(matches!(reserved(&mut engine, Handle(8), true), Reserving::Stale));
    assert!(matches!(commit_query(&mut engine, None, true), Committing::Stale));
    assert!(matches!(commit_query(&mut engine, Some(true), false), Committing::AnswerHere));
    assert!(matches!(commit_query(&mut engine, Some(true), true), Committing::Submit));
    assert!(matches!(submitted(&mut engine, true), Committing::Submit));
    assert!(matches!(submitted(&mut engine, false), Committing::AnswerHere));
    assert!(answer_here(&mut engine, FLOW));
    assert!(!answer_here(&mut engine, Handle(8)));
    assert!(matches!(tcp_queries::settle(&mut engine, FLOW, id, true), Settling::HandOver));
    assert!(matches!(tcp_queries::settle(&mut engine, FLOW, id, false), Settling::Discard));
    assert!(matches!(tcp_queries::settle(&mut engine, FLOW, id + 1, true), Settling::Discard));
    handed_over(&mut engine, false);
    handed_over(&mut engine, true);
    acknowledged(&mut engine, true);
    acknowledged(&mut engine, false);
    let told = engine.describe("no queries");
    assert!(told.contains(" resolved 1 answered-here 2 denied 3 unadmitted 1 unsettled 1 "), "{told}");
    assert!(told.contains(" stale 7 "), "{told}");
}

#[test]
fn a_deadline_counts_once_it_was_looked_at() {
    let (mut engine, id) = engine(None);
    engine.set_deadline(FLOW, Some(70));
    assert_eq!(engine.next_deadline(true), None);
    engine.rearm_index(FLOW);
    assert_eq!(engine.next_deadline(true), Some(70));
    engine.set_deadline(FLOW, Some(90));
    assert!(engine.expire(80).is_empty(), "its time was put off");
    assert_eq!(engine.next_deadline(true), Some(90));
    engine.reset(2);
    assert!(engine.describe("").contains(" reset 2 "));
    assert!(engine.current(FLOW, id));
}

fn flow(handle: u64) -> Polling {
    let mut transfer = Transfer::new();
    assert!(transfer.reserve(Room::Granted));
    Polling {
        id: FlowId::new(Handle(handle), 100 + handle),
        transfer,
        receiving: true,
    }
}

fn socket(readable: &[u8]) -> Socket {
    Socket {
        opened: true,
        handshaking: false,
        may_send: true,
        room: 0,
        readable: readable.to_vec(),
        established: false,
        upstream_closed: false,
        resolver: false,
    }
}

#[test]
fn a_chunk_goes_upstream_where_a_place_is_reserved() {
    let mut fair = FairQueue::with_capacity(4);
    let mut flows: Vec<Polling> = (0..4).map(flow).collect();
    let gone = Socket {
        upstream_closed: true,
        ..socket(&[4, 5])
    };
    flows[2].transfer = Transfer::new();
    flows[3].receiving = false;
    assert!(fair.register(flows[3].id));
    flows[3].transfer.arrived(Chunk::Finished);
    let finished = flows[3].id;
    flows[3].transfer.refill(finished, &mut fair);
    let mut sockets = vec![socket(&[1, 2, 3]), gone, socket(&[6]), socket(&[])];
    let (turns, moved) = pump_to_upstream(&mut flows, &mut sockets, 2);
    assert!(matches!(&turns[0].sent, Some(Sending::Pass(bytes)) if bytes == &[1, 2]));
    assert!(matches!(&turns[1].sent, Some(Sending::Abort(Unsent(Some(bytes)))) if bytes == &[4, 5]));
    assert!(turns[2].sent.is_none());
    assert!(turns[3].sent.is_none() && turns[3].close, "the end of stream closes the client's side");
    assert!(!turns[0].close);
    assert!(moved.moved);
    assert_eq!((moved.to_upstream, moved.stale), (4, 1));
    assert!(sockets.iter().all(|socket| socket.established));
    assert!(!flows[0].transfer.reserved());
    let may_recv = vec![true, true, false, true];
    assert!(stop_finished(&mut flows, &sockets, &may_recv));
    assert!(flows[0].transfer.sending());
    assert!(!flows[2].transfer.sending(), "a client that sends no more closes the upstream's side");
    assert!(!stop_finished(&mut flows, &sockets, &may_recv));
}

#[test]
fn every_flow_is_offered_its_next_octets_once_a_round() {
    let mut fair = FairQueue::with_capacity(8);
    let mut flows: Vec<Polling> = (0..6).map(flow).collect();
    let ids: Vec<FlowId> = flows.iter().map(|flow| flow.id).collect();
    for id in &ids {
        assert!(fair.register(*id));
    }
    let gone = FlowId::new(Handle(9), 9);
    assert!(fair.register(gone));
    assert_eq!(fair.deliver(ids[0], vec![1, 2, 3, 4, 5]), Ok(()));
    assert_eq!(fair.deliver(ids[1], vec![6, 7]), Ok(()));
    flows[1].transfer.arrived(Chunk::Payload(vec![8]));
    assert_eq!(fair.deliver(ids[2], vec![9]), Ok(()));
    assert_eq!(fair.deliver(ids[3], vec![10]), Ok(()));
    fair.mark_ready(ids[4]);
    flows[4].transfer.arrived(Chunk::Finished);
    assert_eq!(fair.deliver(gone, vec![11]), Ok(()));
    fair.mark_ready(ids[5]);
    let roomy = |room: usize| Socket { room, ..socket(&[]) };
    let mut sockets = vec![roomy(2), roomy(64), roomy(64), roomy(64), roomy(64), roomy(64)];
    sockets[1].resolver = true;
    sockets[2].handshaking = true;
    sockets[3].may_send = false;

    let (turns, counted) = pump_to_client(&mut flows, &sockets, &mut fair, 4);
    let told: Vec<FlowId> = turns.iter().map(|turn| turn.id).collect();
    assert_eq!(told, vec![ids[0], ids[1], ids[2], ids[3], ids[4], gone, ids[5]]);
    assert_eq!(turns[0].offer, Offer::Octets { offered: vec![1, 2, 3, 4], sent: 2 });
    assert_eq!(turns[1].offer, Offer::Octets { offered: vec![6, 7], sent: 2 });
    assert_eq!(turns[2].offer, Offer::Waiting);
    assert_eq!(turns[3].offer, Offer::Refused);
    assert_eq!(turns[4].offer, Offer::Nothing { ended: true });
    assert_eq!(turns[5].offer, Offer::Gone);
    assert_eq!(turns[6].offer, Offer::Nothing { ended: false });
    let acknowledged: Vec<bool> = turns.iter().map(|turn| turn.acknowledge).collect();
    assert_eq!(acknowledged, vec![false, true, false, false, false, false, false]);
    assert!(counted.moved);
    assert_eq!((counted.to_client, counted.stale), (4, 1));
    assert_eq!(fair.peek(ids[0]), Some(vec![3, 4, 5]), "what was not taken stays, from just that octet on");
    assert_eq!(fair.peek(ids[1]), Some(vec![8]), "an emptied row takes what waits behind it");
    assert_eq!(fair.peek(ids[2]), Some(vec![9]));
    assert!(flows[4].transfer.finished());

    sockets[0].room = 64;
    sockets[2].handshaking = false;
    let (turns, counted) = pump_to_client(&mut flows, &sockets, &mut fair, 4);
    let told: Vec<FlowId> = turns.iter().map(|turn| turn.id).collect();
    assert_eq!(told, vec![ids[0], ids[1], ids[2], ids[4]]);
    assert_eq!(turns[0].offer, Offer::Octets { offered: vec![3, 4, 5], sent: 3 });
    assert_eq!(counted.to_client, 5);
    let (turns, counted) = pump_to_client(&mut flows, &sockets, &mut fair, 4);
    assert!(turns.is_empty() && !counted.moved);
}

#[test]
fn attention_goes_to_endings_before_traffic() {
    assert!(matches!(attention(true, true, true, true), Attention::Flow));
    assert!(matches!(attention(false, true, true, true), Attention::Transaction));
    assert!(matches!(attention(false, false, true, true), Attention::ClientClosed));
    assert!(matches!(attention(false, false, false, true), Attention::Traffic));
    assert!(matches!(attention(false, false, false, false), Attention::Nothing));
}
