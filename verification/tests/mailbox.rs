use vpnhotspotd::mailbox::{step, Handed, Handover, Producer, Stage};

#[test]
fn a_chunk_is_taken_told_of_and_consumed() {
    assert_eq!(step(Stage::Chunk, Some(true)), Handover::Waiting(Stage::Ready));
    assert_eq!(step(Stage::Ready, Some(true)), Handover::Waiting(Stage::Consumed));
    assert_eq!(step(Stage::Consumed, Some(true)), Handover::Consumed);
    for stage in [Stage::Chunk, Stage::Ready, Stage::Consumed] {
        assert_eq!(step(stage, Some(false)), Handover::Over, "the owner is gone");
        assert_eq!(step(stage, None), Handover::Over, "cancelling ends the wait");
    }
}

#[test]
fn the_next_chunk_is_built_only_after_the_last_was_consumed() {
    let mut producer = Producer::new(2);
    assert_eq!((producer.stage(), producer.left()), (Some(Stage::Chunk), 1));
    producer.advance(Some(true));
    producer.advance(Some(true));
    assert_eq!((producer.stage(), producer.left()), (Some(Stage::Consumed), 1));
    producer.advance(Some(true));
    assert_eq!((producer.stage(), producer.left()), (Some(Stage::Chunk), 0));
    for _ in 0..3 {
        assert_eq!(producer.ended(), None);
        producer.advance(Some(true));
    }
    assert_eq!(producer.ended(), Some(Handed::Complete));
    producer.advance(None);
    assert_eq!(producer.ended(), Some(Handed::Complete), "what ended stays ended");
    assert_eq!(Producer::new(0).ended(), Some(Handed::Complete));
}

#[test]
fn a_cancelled_producer_builds_nothing_more() {
    let mut producer = Producer::new(3);
    producer.advance(Some(true));
    producer.advance(None);
    assert_eq!(producer.ended(), Some(Handed::Cancelled));
    assert_eq!((producer.stage(), producer.left()), (None, 2));
}
