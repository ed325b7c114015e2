use baker::block::{block_operations, commitment_due, finalize_payload_hash};
use baker::hashes::{derive_payload_hash, guess_proof_of_work, operation_list_hash, pow_check};
use baker::machine::{
    Action, BlockId, BlockInfo, BlockPayload, Config, Event, Machine, Prequorum,
    PrequorumOutcome, ProposalPlan, Vote,
};
use baker::slots::{SlotsInfo, Validator};

const T: u64 = 1_000_000;

fn h(byte: u8) -> [u8; 32] {
    [byte; 32]
}

fn config() -> Config {
    // committee = 7000 gives the threshold 2*7000/3 + 1 = 4667
    Config::derive(7000, 15, 5)
}

fn proposal(level: i32, round: i32, payload: [u8; 32], timestamp: u64) -> BlockInfo {
    BlockInfo {
        pred_hash: h(2),
        hash: h(3),
        block_id: BlockId { level, round, payload_hash: payload, payload_round: round },
        timestamp,
        transition: false,
        prequorum: None,
        quorum: None,
        payload: BlockPayload::empty(),
    }
}

fn preendorsement(id: u64, power: u32, level: i32, round: i32, payload: [u8; 32]) -> Event {
    Event::Preendorsement(
        Validator { id, power },
        BlockId { level, round, payload_hash: payload, payload_round: round },
        vec![id as u8],
        T + 1,
    )
}

/// The threshold is one more than two thirds of the committee's power,
/// rounded down after doubling, so every quorum is a strict supermajority.
#[test]
fn threshold_is_a_supermajority() {
    assert_eq!(Config::derive(7000, 15, 5).consensus_threshold, 4667);
    assert_eq!(Config::derive(8, 15, 5).consensus_threshold, 6);
    assert_eq!(Config::derive(3, 15, 5).consensus_threshold, 3);
}

/// Boot to the first proposal: schedule the round's end, then preendorse.
#[test]
fn boot_to_first_proposal() {
    let config = config();
    assert_eq!(config.consensus_threshold, 4667);
    let slots = SlotsInfo::new(7000, vec![]);
    let mut machine = Machine::empty();
    let actions = machine.handle(&config, &slots, Event::Proposal(proposal(1, 0, h(1), T), T));
    assert_eq!(actions.len(), 2);
    match actions[0] {
        Action::ScheduleTimeout(d) => assert_eq!(d, T + 15),
        _ => panic!("expected a timeout first"),
    }
    match actions[1] {
        Action::Preendorse { pred_hash, block_id } => {
            assert_eq!(pred_hash, h(2));
            assert_eq!(block_id.level, 1);
            assert_eq!(block_id.round, 0);
            assert_eq!(block_id.payload_hash, h(1));
        },
        _ => panic!("expected a preendorsement"),
    }
    assert_eq!(machine.locked.unwrap().round, 0);
    assert_eq!(machine.locked.unwrap().payload_hash, h(1));
}

/// Preendorsements summing to the threshold make the machine endorse once,
/// on the crossing event; duplicates change nothing.
#[test]
fn preendorsement_quorum_endorses_once() {
    let config = config();
    let slots = SlotsInfo::new(7000, vec![]);
    let mut machine = Machine::empty();
    machine.handle(&config, &slots, Event::Proposal(proposal(1, 0, h(1), T), T));

    for id in 0..4u64 {
        let actions = machine.handle(&config, &slots, preendorsement(id, 1000, 1, 0, h(1)));
        assert!(actions.is_empty(), "no endorse below the threshold");
    }
    // 4000 so far; 667 more crosses 4667.
    let actions = machine.handle(&config, &slots, preendorsement(9, 667, 1, 0, h(1)));
    assert_eq!(actions.len(), 1);
    match actions[0] {
        Action::Endorse { block_id, .. } => {
            assert_eq!(block_id.level, 1);
            assert_eq!(block_id.round, 0);
            assert_eq!(block_id.payload_hash, h(1));
        },
        _ => panic!("expected an endorsement"),
    }
    // The same validator again: idempotent, and no second endorsement.
    let actions = machine.handle(&config, &slots, preendorsement(9, 667, 1, 0, h(1)));
    assert!(actions.is_empty());
    // Another matching vote after the quorum: counted, but no new endorse.
    let actions = machine.handle(&config, &slots, preendorsement(10, 500, 1, 0, h(1)));
    assert!(actions.is_empty());
}

/// A round timeout without a quorum only advances the round and reschedules:
/// the next deadline adds the minimal delay plus one increment.
#[test]
fn round_timeout_without_quorum() {
    let config = config();
    let slots = SlotsInfo::new(7000, vec![]);
    let mut machine = Machine::empty();
    machine.handle(&config, &slots, Event::Proposal(proposal(1, 0, h(1), T), T));
    machine.handle(&config, &slots, preendorsement(0, 100, 1, 0, h(1)));

    let actions = machine.handle(&config, &slots, Event::Timeout(T + 15));
    assert_eq!(actions.len(), 1);
    match actions[0] {
        Action::ScheduleTimeout(d) => assert_eq!(d, T + 15 + 20),
        _ => panic!("expected only a new timeout"),
    }
    assert_eq!(machine.round, 1);
}

/// The payload lock holds across rounds: a higher-round proposal with a
/// different payload and no prequorum is not preendorsed.
#[test]
fn payload_lock_across_rounds() {
    let config = config();
    let slots = SlotsInfo::new(7000, vec![]);
    let mut machine = Machine::empty();
    machine.handle(&config, &slots, Event::Proposal(proposal(1, 0, h(1), T), T));

    let actions = machine.handle(&config, &slots, Event::Proposal(proposal(1, 1, h(4), T + 15), T + 15));
    assert_eq!(actions.len(), 1);
    assert!(matches!(actions[0], Action::ScheduleTimeout(_)));
    assert_eq!(machine.locked.unwrap().payload_hash, h(1));
    assert_eq!(machine.locked.unwrap().round, 0);
}

/// A valid prequorum at the locked round overrides the lock: the machine
/// preendorses the new payload and moves its lock up.
#[test]
fn prequorum_overrides_lock() {
    let config = config();
    let slots = SlotsInfo::new(7000, vec![]);
    let mut machine = Machine::empty();
    machine.handle(&config, &slots, Event::Proposal(proposal(1, 0, h(1), T), T));

    let mut with_prequorum = proposal(1, 1, h(4), T + 15);
    with_prequorum.prequorum = Some(Prequorum {
        block_id: BlockId { level: 1, round: 0, payload_hash: h(4), payload_round: 0 },
        votes: (0..5u64)
            .map(|id| Vote { validator: Validator { id, power: 1000 }, op: vec![id as u8] })
            .collect(),
    });
    let actions = machine.handle(&config, &slots, Event::Proposal(with_prequorum, T + 15));
    assert_eq!(actions.len(), 2);
    assert!(matches!(actions[0], Action::ScheduleTimeout(_)));
    match actions[1] {
        Action::Preendorse { block_id, .. } => {
            assert_eq!(block_id.level, 1);
            assert_eq!(block_id.round, 1);
            assert_eq!(block_id.payload_hash, h(4));
        },
        _ => panic!("expected a preendorsement"),
    }
    assert_eq!(machine.locked.unwrap().round, 1);
    assert_eq!(machine.locked.unwrap().payload_hash, h(4));
    assert_eq!(machine.endorsable.as_ref().unwrap().round, 0);
    assert_eq!(machine.endorsable.as_ref().unwrap().payload_hash, h(4));
}

/// A proposal at our own level with the zero payload hash is ours to build:
/// the machine plans a block, and the finalized payload hash is derived from
/// the predecessor, the payload round, and the operation-list hash; the
/// stamped header passes the proof-of-work check.
#[test]
fn self_proposal_derives_payload_hash_and_pow() {
    let config = config();
    let mut slots = SlotsInfo::new(7000, vec![7]);
    let table: Vec<Validator> = vec![
        Validator { id: 100, power: 1000 },
        Validator { id: 101, power: 1000 },
        Validator { id: 102, power: 1000 },
        Validator { id: 7, power: 1000 },
    ];
    slots.insert(2, table);

    let mut machine = Machine::empty();
    machine.handle(&config, &slots, Event::Proposal(proposal(1, 0, h(1), T), T));

    let actions = machine.handle(&config, &slots, Event::Proposal(proposal(2, 0, h(0), T + 15), T + 15));
    let plan: ProposalPlan = actions
        .iter()
        .find_map(|a| match a {
            Action::Propose(plan) => Some(*plan),
            _ => None,
        })
        .expect("a proposal plan");
    assert_eq!(plan.level, 2);
    assert_eq!(plan.round, 0);
    assert_eq!(plan.payload_hash, None);
    assert_eq!(plan.payload_round, 0);

    // Assemble the block: the operation sublists and the derived hash.
    let (consensus, votes, anonymous, managers) =
        block_operations(&machine.quorum_witness, &machine.prequorum_witness, &machine.mempool);
    assert!(votes.is_empty() && anonymous.is_empty() && managers.is_empty());
    let olh = machine.mempool.operation_list_hash(&consensus);
    let finalized = finalize_payload_hash(&plan, &olh);
    let expected = derive_payload_hash(&plan.pred_hash, 0, &olh);
    assert_eq!(finalized, expected);
    assert_ne!(finalized, [0u8; 32]);

    // Stamp a header carrying the finalized hash and check the proof of work.
    let mut header: Vec<u8> = Vec::new();
    header.extend_from_slice(&plan.pred_hash);
    header.extend_from_slice(&finalized);
    let nonce_offset = header.len();
    header.extend_from_slice(&[0u8; 8]);
    let threshold = u64::MAX / 2;
    let nonce = guess_proof_of_work(&header, nonce_offset, threshold, 0x7985_fafe_1fb7_0300, 4096)
        .expect("a nonce within the budget");
    let mut stamped = header.clone();
    stamped[nonce_offset..nonce_offset + 8].copy_from_slice(&nonce.to_be_bytes());
    assert!(pow_check(&stamped, threshold));
}

/// A seed-nonce commitment is due exactly at whole commitment periods.
#[test]
fn commitment_due_at_period_boundaries() {
    assert!(commitment_due(0, 32));
    assert!(!commitment_due(1, 32));
    assert!(!commitment_due(31, 32));
    assert!(commitment_due(32, 32));
    assert!(commitment_due(64, 32));
    assert!(commitment_due(5, 1));
}

/// A quorum that crosses before the round's end does not propose at once;
/// the next level's block is planned when the round's deadline fires.
#[test]
fn early_endorsement_quorum_proposes_on_timeout() {
    let config = config();
    let mut slots = SlotsInfo::new(7000, vec![7]);
    slots.insert(2, vec![Validator { id: 7, power: 1000 }]);

    let mut machine = Machine::empty();
    machine.handle(&config, &slots, Event::Proposal(proposal(1, 0, h(1), T), T));

    // The quorum crosses well before the deadline at T + 15.
    let early = Event::Endorsement(
        Validator { id: 0, power: 5000 },
        BlockId { level: 1, round: 0, payload_hash: h(1), payload_round: 0 },
        vec![0],
        T + 5,
    );
    let actions = machine.handle(&config, &slots, early);
    assert!(actions.is_empty(), "the target timestamp has not arrived yet");

    let actions = machine.handle(&config, &slots, Event::Timeout(T + 15));
    assert_eq!(actions.len(), 2);
    assert!(matches!(actions[0], Action::ScheduleTimeout(_)));
    match actions[1] {
        Action::Propose(plan) => {
            assert_eq!(plan.level, 2);
            assert_eq!(plan.round, 0);
            assert_eq!(plan.pred_hash, h(3));
            assert_eq!(plan.payload_hash, None);
            assert_eq!(plan.timestamp, T + 15);
        },
        _ => panic!("expected the next level's plan"),
    }
}

/// Building a prequorum from raw votes keeps one vote per validator, drops
/// votes for other positions, and tags the outcome by the threshold.
#[test]
fn prequorum_builder_filters_and_tags() {
    let target = BlockId { level: 1, round: 0, payload_hash: h(1), payload_round: 0 };
    let elsewhere = BlockId { level: 1, round: 1, payload_hash: h(1), payload_round: 1 };
    let votes = vec![
        (Validator { id: 1, power: 2000 }, target, vec![1]),
        (Validator { id: 2, power: 2000 }, target, vec![2]),
        (Validator { id: 1, power: 2000 }, target, vec![9]),  // duplicate validator
        (Validator { id: 3, power: 2000 }, elsewhere, vec![3]),  // other round
        (Validator { id: 4, power: 1000 }, target, vec![4]),
    ];
    match Prequorum::build(votes.clone(), 4667) {
        PrequorumOutcome::Complete(pq) => {
            assert_eq!(pq.block_id.round, 0);
            let ids: Vec<u64> = pq.votes.iter().map(|v| v.validator.id).collect();
            assert_eq!(ids, vec![1, 2, 4]);
            // The first operation a validator sent is the one kept.
            assert_eq!(pq.votes[0].op, vec![1]);
        },
        _ => panic!("5000 power reaches the threshold"),
    }
    match Prequorum::build(votes, 6000) {
        PrequorumOutcome::Incomplete(pq) => assert_eq!(pq.votes.len(), 3),
        _ => panic!("5000 power stays below 6000"),
    }
    assert!(matches!(Prequorum::build(vec![], 1), PrequorumOutcome::Empty));
}

/// Replaying one event sequence against two fresh machines yields the same
/// actions, and across the trace no two preendorsements or endorsements
/// share a `(level, round)`.
#[test]
fn replay_is_deterministic_and_votes_are_unique() {
    let config = config();
    let slots = SlotsInfo::new(7000, vec![]);
    let events = || -> Vec<Event> {
        let mut evs = vec![Event::Proposal(proposal(1, 0, h(1), T), T)];
        for id in 0..5u64 {
            evs.push(preendorsement(id, 1000, 1, 0, h(1)));
        }
        evs.push(Event::Timeout(T + 15));
        evs.push(Event::Proposal(proposal(1, 1, h(1), T + 15), T + 15));
        evs.push(Event::Proposal(proposal(2, 0, h(5), T + 35), T + 35));
        evs
    };

    let mut first = Machine::empty();
    let mut second = Machine::empty();
    let mut trace_a: Vec<Action> = Vec::new();
    let mut trace_b: Vec<Action> = Vec::new();
    for ev in events() {
        trace_a.extend(first.handle(&config, &slots, ev));
    }
    for ev in events() {
        trace_b.extend(second.handle(&config, &slots, ev));
    }
    assert_eq!(format!("{trace_a:?}"), format!("{trace_b:?}"));

    let mut preendorsed: Vec<(i32, i32)> = Vec::new();
    let mut endorsed: Vec<(i32, i32)> = Vec::new();
    for action in &trace_a {
        match action {
            Action::Preendorse { block_id, .. } => {
                let pos = (block_id.level, block_id.round);
                assert!(!preendorsed.contains(&pos), "double preendorse at {pos:?}");
                preendorsed.push(pos);
            },
            Action::Endorse { block_id, .. } => {
                let pos = (block_id.level, block_id.round);
                assert!(!endorsed.contains(&pos), "double endorse at {pos:?}");
                endorsed.push(pos);
            },
            _ => {},
        }
    }
    assert!(preendorsed.len() >= 2, "the trace preendorses more than once");
    assert_eq!(endorsed.len(), 1);
}

/// An endorsement quorum at our level makes us plan the next level's block
/// when we hold its first slot and the round has run its course.
#[test]
fn endorsement_quorum_plans_next_level() {
    let config = config();
    let mut slots = SlotsInfo::new(7000, vec![7]);
    // We hold slot 0 at level 2: the proposer of its round 0.
    slots.insert(2, vec![Validator { id: 7, power: 1000 }]);

    let mut machine = Machine::empty();
    machine.handle(&config, &slots, Event::Proposal(proposal(1, 0, h(1), T), T));

    let endorse = |id: u64, power: u32| {
        Event::Endorsement(
            Validator { id, power },
            BlockId { level: 1, round: 0, payload_hash: h(1), payload_round: 0 },
            vec![id as u8],
            T + 20,
        )
    };
    let actions = machine.handle(&config, &slots, endorse(0, 4000));
    assert!(actions.is_empty());
    let actions = machine.handle(&config, &slots, endorse(1, 700));
    assert_eq!(actions.len(), 1);
    match actions[0] {
        Action::Propose(plan) => {
            assert_eq!(plan.level, 2);
            assert_eq!(plan.round, 0);
            assert_eq!(plan.pred_hash, h(3));
            assert_eq!(plan.payload_hash, None);
            assert_eq!(plan.timestamp, T + 15);
        },
        _ => panic!("expected a proposal plan"),
    }
}
