use baker::context_tree::{Commit, KeyFragment, NodeKind};
use baker::ipc::NoopMessage;
use baker::messages::{MempoolError, Prevalidator, ResetMempool, WorkerStatus, WorkerStatusPhase};
use baker::rpc::{RpcRecvError, RpcServiceDummy};
use baker::slots::{SlotsInfo, Validator};
use baker::store::ShellAutomatonStateStorage;
use baker::timer::TimerState;

#[test]
fn storage_put_get() {
    let mut store = ShellAutomatonStateStorage::new();
    assert_eq!(store.get(&5).unwrap(), None);
    store.put(&5, &[1, 2, 3]).unwrap();
    store.put(&9, &[9]).unwrap();
    assert_eq!(store.get(&5).unwrap(), Some(&vec![1, 2, 3]));
    assert_eq!(store.get(&9).unwrap(), Some(&vec![9]));
    assert_eq!(store.get(&7).unwrap(), None);
    // Overwriting a key shadows the old snapshot.
    store.put(&5, &[4]).unwrap();
    assert_eq!(store.get(&5).unwrap(), Some(&vec![4]));
}

#[test]
fn storage_closest_before() {
    let mut store = ShellAutomatonStateStorage::new();
    assert_eq!(store.get_closest_before(&100).unwrap(), None);
    store.put(&10, &[10]).unwrap();
    store.put(&20, &[20]).unwrap();
    store.put(&30, &[30]).unwrap();
    assert_eq!(store.get_closest_before(&5).unwrap(), None);
    assert_eq!(store.get_closest_before(&10).unwrap(), Some(&vec![10]));
    assert_eq!(store.get_closest_before(&25).unwrap(), Some(&vec![20]));
    assert_eq!(store.get_closest_before(&99).unwrap(), Some(&vec![30]));
}

#[test]
fn timer_replaces_and_fires_once() {
    let mut timer = TimerState::new();
    assert_eq!(timer.fire(), None);
    timer.schedule(100);
    timer.schedule(200);
    // The second schedule cancelled the first: one tick, at the later time.
    assert_eq!(timer.fire(), Some(200));
    // And none again until the next schedule.
    assert_eq!(timer.fire(), None);
}

#[test]
fn slots_registry_lookup_and_pruning() {
    let mut slots = SlotsInfo::new(7000, vec![7]);
    let table = vec![
        Validator { id: 100, power: 10 },
        Validator { id: 7, power: 20 },
        Validator { id: 100, power: 10 },
        Validator { id: 7, power: 20 },
    ];
    slots.insert(5, table);
    assert_eq!(slots.validator(5, 1), Some(Validator { id: 7, power: 20 }));
    assert_eq!(slots.validator(5, 4), None);
    assert_eq!(slots.validator(4, 0), None);
    assert_eq!(slots.preendorsement(5, 0), Some(Validator { id: 100, power: 10 }));
    assert_eq!(slots.endorsement(5, 3), Some(Validator { id: 7, power: 20 }));
    assert_eq!(slots.slots(7, 5), Some(vec![1, 3]));
    assert_eq!(slots.slots(55, 5), None);
    assert_eq!(slots.our_first_slot(5), Some(1));
    assert!(slots.has_slot(5));
    assert!(!slots.has_slot(6));
    assert!(slots.is_proposer(5, 1));
    assert!(!slots.is_proposer(5, 0));

    // Two levels later the old table is pruned.
    slots.insert(7, vec![Validator { id: 7, power: 20 }]);
    assert_eq!(slots.validator(5, 1), None);
    assert_eq!(slots.our_first_slot(7), Some(0));
}

#[test]
fn rpc_dummy_is_always_empty() {
    let mut rpc = RpcServiceDummy::new();
    assert_eq!(rpc.try_recv(), Err(RpcRecvError::Empty));
}

#[test]
fn plain_message_types_hold_their_fields() {
    let status = WorkerStatus { phase: WorkerStatusPhase::Running, since: String::from("t0") };
    let prevalidator = Prevalidator { chain_id: String::from("main"), status };
    assert_eq!(prevalidator.status.phase, WorkerStatusPhase::Running);

    let reset = ResetMempool { block_hash: vec![1, 2], level: 3 };
    assert_eq!(reset.level, 3);

    let err = MempoolError { reason: String::from("closed") };
    assert_eq!(err.reason, "closed");

    let _noop = NoopMessage;

    let commit = Commit {
        parent_commit_hash: None,
        root_hash: [0; 32],
        time: 1,
        author: String::from("a"),
        message: String::from("m"),
    };
    assert_eq!(commit.time, 1);
    assert_eq!(NodeKind::Leaf, NodeKind::Leaf);

    let fragment = KeyFragment::new("data");
    assert_eq!(fragment.as_text(), "data");
}
