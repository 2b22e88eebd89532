use vpnhotspotd::addr::IpAddr;
use vpnhotspotd::workers::{Refused, TaskId, Workers};

const KEY: IpAddr = IpAddr::V4(7);

#[derive(Debug, PartialEq, Eq)]
struct Record(u32);

#[test]
fn a_terminal_means_the_task_is_gone_rather_than_that_it_said_so() {
    let mut workers: Workers<IpAddr, Record> = Workers::new();
    let id = workers.identity().expect("a fresh table issues identities");
    assert!(workers.admits(&KEY).is_ok());
    workers.enroll(KEY, id, Record(7), TaskId(1)).expect("a fresh key is admitted");
    assert!(workers.working());
    workers.cancel(KEY);
    assert!(workers.get(&KEY).unwrap().cancelled);
    assert!(workers.contains(&KEY), "a cancelled worker still holds its key");
    assert_eq!(workers.finished(TaskId(1)), Some((KEY, id)));
    assert!(!workers.working());
    assert!(workers.contains(&KEY));
    assert_eq!(workers.retire(&KEY, id), Some(Record(7)));
    assert!(!workers.contains(&KEY));
    assert!(workers.is_empty());
}

#[test]
fn a_stale_identity_cannot_retire_the_successor_that_reused_its_key() {
    let mut workers: Workers<IpAddr, Record> = Workers::new();
    let first = workers.identity().expect("a fresh table issues identities");
    workers.enroll(KEY, first, Record(1), TaskId(1)).expect("a fresh key is admitted");
    workers.cancel(KEY);
    let (key, id) = workers.finished(TaskId(1)).expect("the task ran");
    workers.retire(&key, id).expect("live");

    let second = workers.identity().expect("identities are not reused");
    assert_ne!(second, first);
    workers.enroll(KEY, second, Record(2), TaskId(2)).expect("the slot is free");
    assert!(!workers.current(&KEY, first));
    assert!(workers.current(&KEY, second));
    assert!(workers.retire(&KEY, first).is_none(), "a stale identity retires nothing");
    assert!(workers.contains(&KEY), "and leaves the successor holding its key");
    assert!(!workers.get(&KEY).unwrap().cancelled);
    assert_eq!(workers.finished(TaskId(2)), Some((KEY, second)));
    assert_eq!(workers.retire(&KEY, second), Some(Record(2)));
}

#[test]
fn a_key_a_live_worker_holds_is_refused_rather_than_replaced() {
    let mut workers: Workers<IpAddr, Record> = Workers::new();
    let first = workers.identity().expect("identity");
    workers.enroll(KEY, first, Record(1), TaskId(1)).expect("a fresh key is admitted");
    let second = workers.identity().expect("identity");
    assert_eq!(workers.admits(&KEY), Err(Refused::Duplicate { id: first }));
    let (refused, why) = workers
        .enroll(KEY, second, Record(2), TaskId(2))
        .expect_err("a live key is refused");
    assert_eq!(refused, Record(2));
    assert_eq!(why, Refused::Duplicate { id: first });
    assert!(workers.current(&KEY, first), "the predecessor is untouched");
    assert_eq!(workers.len(), 1);
    workers.cancel_all();
    assert!(workers.get(&KEY).unwrap().cancelled);
    assert_eq!(workers.finished(TaskId(2)), None, "the candidate never ran");
    assert_eq!(workers.finished(TaskId(1)), Some((KEY, first)));
}

#[test]
fn an_empty_table_waits_rather_than_answering() {
    let workers: Workers<IpAddr, Record> = Workers::new();
    assert!(!workers.working());
    assert!(workers.is_empty());
    assert!(!workers.contains(&KEY));
}

#[test]
fn a_record_is_replaced_only_where_one_is_held() {
    let mut workers: Workers<IpAddr, Record> = Workers::new();
    assert_eq!(workers.replace(KEY, Record(9)), None);
    assert!(!workers.contains(&KEY));
    let id = workers.identity().expect("identity");
    workers.enroll(KEY, id, Record(1), TaskId(1)).expect("admitted");
    assert_eq!(workers.replace(KEY, Record(2)), Some(Record(1)));
    assert_eq!(workers.get(&KEY).unwrap().record, Record(2));
    assert!(workers.current(&KEY, id));
}
