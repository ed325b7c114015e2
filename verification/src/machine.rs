//! The Tenderbake consensus core: a deterministic state machine that consumes
//! chain events (proposals, preendorsements, endorsements, mempool items,
//! timer ticks) and yields the actions the baker must perform (schedule a
//! timeout, preendorse, endorse, propose).
//!
//! The machine is specified by the model functions `step_*`: `handle`'s
//! contract says that the new state and the returned actions are exactly what
//! the model computes from the old state and the event. Everything the driver
//! performs (signing, injecting, clocks) stays outside.
//!
//! One reading of the locking rule is worth stating up front: a proposal that
//! carries a valid prequorum at a round at or above our locked round unlocks
//! us, so a later-round proposal witnessed by a prequorum is preendorsed even
//! when its payload differs from the locked one.

use vstd::prelude::*;
use crate::slots::{SlotsInfo, Validator};

verus! {

/// The consensus constants the machine needs.
#[derive(Debug, Clone, Copy, PartialEq, Eq, Structural)]
pub struct Config {
    /// Voting power that makes a quorum: one more than two thirds of the
    /// committee.
    pub consensus_threshold: u64,
    /// Seconds a round lasts at round zero.
    pub minimal_block_delay: u64,
    /// Seconds each further round adds.
    pub delay_increment_per_round: u64,
}

impl Config {
    /// The configuration derived from the chain constants at boot: the
    /// threshold is fixed once here and never recomputed.
    pub fn derive(
        consensus_committee_size: u32,
        minimal_block_delay: u64,
        delay_increment_per_round: u64,
    ) -> (r: Config)
        ensures
            r.consensus_threshold == 2 * consensus_committee_size / 3 + 1,
            r.minimal_block_delay == minimal_block_delay,
            r.delay_increment_per_round == delay_increment_per_round,
    {
        Config {
            consensus_threshold: 2 * (consensus_committee_size as u64) / 3 + 1,
            minimal_block_delay,
            delay_increment_per_round,
        }
    }
}

/// The bits of the proof-of-work threshold: the constants file carries it as
/// a signed 64-bit number whose bits are to be read unsigned.
pub fn pow_threshold_bits(text_value: i64) -> (r: u64)
    ensures
        r as int == if text_value >= 0 {
            text_value as int
        } else {
            text_value + 0x1_0000_0000_0000_0000
        },
{
    if text_value >= 0 {
        text_value as u64
    } else {
        ((text_value as i128) + 0x1_0000_0000_0000_0000i128) as u64
    }
}

/// What a block commits to: its position and its payload.
#[derive(Debug, Clone, Copy)]
pub struct BlockId {
    pub level: i32,
    pub round: i32,
    pub payload_hash: [u8; 32],
    pub payload_round: i32,
}

/// One accepted vote: who cast it and the raw operation that carried it.
#[derive(Debug, Clone)]
pub struct Vote {
    pub validator: Validator,
    pub op: Vec<u8>,
}

/// Model of a vote.
#[verifier::ext_equal]
pub struct VoteV {
    pub validator: Validator,
    pub op: Seq<u8>,
}

impl View for Vote {
    type V = VoteV;

    open spec fn view(&self) -> VoteV {
        VoteV { validator: self.validator, op: self.op@ }
    }
}

/// The witness set of preendorsements that reached the threshold.
#[derive(Debug, Clone)]
pub struct Prequorum {
    pub block_id: BlockId,
    pub votes: Vec<Vote>,
}

/// Model of a prequorum.
#[verifier::ext_equal]
pub struct PrequorumV {
    pub block_id: BlockId,
    pub votes: Seq<VoteV>,
}

impl View for Prequorum {
    type V = PrequorumV;

    open spec fn view(&self) -> PrequorumV {
        PrequorumV { block_id: self.block_id, votes: self.votes@.map_values(|v: Vote| v@) }
    }
}

/// The witness set of endorsements that reached the threshold.
#[derive(Debug, Clone)]
pub struct Quorum {
    pub votes: Vec<Vote>,
}

/// Model of a quorum.
#[verifier::ext_equal]
pub struct QuorumV {
    pub votes: Seq<VoteV>,
}

impl View for Quorum {
    type V = QuorumV;

    open spec fn view(&self) -> QuorumV {
        QuorumV { votes: self.votes@.map_values(|v: Vote| v@) }
    }
}

/// The three buckets of non-consensus operations a proposal carries, in
/// insertion order.
#[derive(Debug, Clone)]
pub struct BlockPayload {
    pub votes_payload: Vec<Vec<u8>>,
    pub anonymous_payload: Vec<Vec<u8>>,
    pub managers_payload: Vec<Vec<u8>>,
}

/// Model of a payload.
#[verifier::ext_equal]
pub struct BlockPayloadV {
    pub votes_payload: Seq<Seq<u8>>,
    pub anonymous_payload: Seq<Seq<u8>>,
    pub managers_payload: Seq<Seq<u8>>,
}

impl View for BlockPayload {
    type V = BlockPayloadV;

    open spec fn view(&self) -> BlockPayloadV {
        BlockPayloadV {
            votes_payload: self.votes_payload@.map_values(|op: Vec<u8>| op@),
            anonymous_payload: self.anonymous_payload@.map_values(|op: Vec<u8>| op@),
            managers_payload: self.managers_payload@.map_values(|op: Vec<u8>| op@),
        }
    }
}

impl BlockPayload {
    /// An empty payload.
    pub fn empty() -> (r: BlockPayload)
        ensures
            r@.votes_payload.len() == 0,
            r@.anonymous_payload.len() == 0,
            r@.managers_payload.len() == 0,
    {
        BlockPayload {
            votes_payload: Vec::new(),
            anonymous_payload: Vec::new(),
            managers_payload: Vec::new(),
        }
    }
}

/// A block as observed on the chain.
#[derive(Debug, Clone)]
pub struct BlockInfo {
    pub pred_hash: [u8; 32],
    pub hash: [u8; 32],
    pub block_id: BlockId,
    pub timestamp: u64,
    pub transition: bool,
    pub prequorum: Option<Prequorum>,
    pub quorum: Option<Quorum>,
    pub payload: BlockPayload,
}

/// Model of a block.
#[verifier::ext_equal]
pub struct BlockInfoV {
    pub pred_hash: [u8; 32],
    pub hash: [u8; 32],
    pub block_id: BlockId,
    pub timestamp: u64,
    pub transition: bool,
    pub prequorum: Option<PrequorumV>,
    pub quorum: Option<QuorumV>,
    pub payload: BlockPayloadV,
}

impl View for BlockInfo {
    type V = BlockInfoV;

    open spec fn view(&self) -> BlockInfoV {
        BlockInfoV {
            pred_hash: self.pred_hash,
            hash: self.hash,
            block_id: self.block_id,
            timestamp: self.timestamp,
            transition: self.transition,
            prequorum: match self.prequorum {
                Some(pq) => Some(pq@),
                None => None,
            },
            quorum: match self.quorum {
                Some(q) => Some(q@),
                None => None,
            },
            payload: self.payload@,
        }
    }
}

/// Where the machine stands within a level.
#[derive(Debug, Clone, Copy, PartialEq, Eq, Structural)]
pub enum Phase {
    NoProposal,
    CollectingPreendorsements,
    Prevoted,
    CollectingEndorsements,
    Decided,
}

/// The payload we preendorsed and will not abandon for a lower round.
#[derive(Debug, Clone, Copy)]
pub struct LockedPayload {
    pub round: i32,
    pub payload_hash: [u8; 32],
}

/// The best payload seen with a prequorum; what a re-proposal would carry.
#[derive(Debug, Clone)]
pub struct EndorsablePayload {
    pub round: i32,
    pub payload_hash: [u8; 32],
    pub prequorum: Prequorum,
}

/// Model of an endorsable payload.
#[verifier::ext_equal]
pub struct EndorsablePayloadV {
    pub round: i32,
    pub payload_hash: [u8; 32],
    pub prequorum: PrequorumV,
}

impl View for EndorsablePayload {
    type V = EndorsablePayloadV;

    open spec fn view(&self) -> EndorsablePayloadV {
        EndorsablePayloadV {
            round: self.round,
            payload_hash: self.payload_hash,
            prequorum: self.prequorum@,
        }
    }
}

/// The skeleton of a block we intend to propose; `payload_hash` of `None`
/// means "derive it from the contents" when the block is assembled.
#[derive(Debug, Clone, Copy)]
pub struct ProposalPlan {
    pub level: i32,
    pub round: i32,
    pub pred_hash: [u8; 32],
    pub payload_hash: Option<[u8; 32]>,
    pub payload_round: i32,
    pub timestamp: u64,
}

/// What the driver must do, in order.
#[derive(Debug, Clone, Copy)]
pub enum Action {
    /// Replace the pending timeout with one at this time.
    ScheduleTimeout(u64),
    /// Sign and inject a preendorsement for this block.
    Preendorse { pred_hash: [u8; 32], block_id: BlockId },
    /// Sign and inject an endorsement for this block.
    Endorse { pred_hash: [u8; 32], block_id: BlockId },
    /// Assemble, stamp, sign and inject a block along this plan.
    Propose(ProposalPlan),
}

/// Which bucket a mempool operation belongs to.
#[derive(Debug, Clone, Copy, PartialEq, Eq, Structural)]
pub enum PayloadItemKind {
    Votes,
    Anonymous,
    Managers,
}

/// What the world tells the machine.
#[derive(Debug, Clone)]
pub enum Event {
    /// A new head was observed, at this wall-clock time.
    Proposal(BlockInfo, u64),
    /// A validated preendorsement: who, for which block, the raw operation,
    /// and the wall-clock time.
    Preendorsement(Validator, BlockId, Vec<u8>, u64),
    /// A validated endorsement, same shape.
    Endorsement(Validator, BlockId, Vec<u8>, u64),
    /// A non-consensus mempool operation to include if we propose.
    PayloadItem(PayloadItemKind, Vec<u8>),
    /// The scheduled deadline elapsed.
    Timeout(u64),
}

/// Model of an event.
pub enum EventV {
    Proposal(BlockInfoV, u64),
    Preendorsement(Validator, BlockId, Seq<u8>, u64),
    Endorsement(Validator, BlockId, Seq<u8>, u64),
    PayloadItem(PayloadItemKind, Seq<u8>),
    Timeout(u64),
}

impl View for Event {
    type V = EventV;

    open spec fn view(&self) -> EventV {
        match self {
            Event::Proposal(b, now) => EventV::Proposal(b@, *now),
            Event::Preendorsement(v, id, op, now) => EventV::Preendorsement(*v, *id, op@, *now),
            Event::Endorsement(v, id, op, now) => EventV::Endorsement(*v, *id, op@, *now),
            Event::PayloadItem(k, op) => EventV::PayloadItem(*k, op@),
            Event::Timeout(now) => EventV::Timeout(*now),
        }
    }
}

/// The consensus state machine.
#[derive(Debug, Clone)]
pub struct Machine {
    pub level: i32,
    pub round: i32,
    pub phase: Phase,
    pub proposal: Option<BlockInfo>,
    pub locked: Option<LockedPayload>,
    pub endorsable: Option<EndorsablePayload>,
    pub preendorsements: Vec<Vote>,
    pub endorsements: Vec<Vote>,
    pub prevoted_round: Option<i32>,
    pub endorsed_round: Option<i32>,
    pub prequorum_witness: Option<Prequorum>,
    pub quorum_witness: Option<Quorum>,
    pub mempool: BlockPayload,
    pub deadline: Option<u64>,
}

/// Model of the machine.
#[verifier::ext_equal]
pub struct MachineV {
    pub level: i32,
    pub round: i32,
    pub phase: Phase,
    pub proposal: Option<BlockInfoV>,
    pub locked: Option<LockedPayload>,
    pub endorsable: Option<EndorsablePayloadV>,
    pub preendorsements: Seq<VoteV>,
    pub endorsements: Seq<VoteV>,
    pub prevoted_round: Option<i32>,
    pub endorsed_round: Option<i32>,
    pub prequorum_witness: Option<PrequorumV>,
    pub quorum_witness: Option<QuorumV>,
    pub mempool: BlockPayloadV,
    pub deadline: Option<u64>,
}

impl View for Machine {
    type V = MachineV;

    open spec fn view(&self) -> MachineV {
        MachineV {
            level: self.level,
            round: self.round,
            phase: self.phase,
            proposal: match self.proposal {
                Some(b) => Some(b@),
                None => None,
            },
            locked: self.locked,
            endorsable: match self.endorsable {
                Some(e) => Some(e@),
                None => None,
            },
            preendorsements: self.preendorsements@.map_values(|v: Vote| v@),
            endorsements: self.endorsements@.map_values(|v: Vote| v@),
            prevoted_round: self.prevoted_round,
            endorsed_round: self.endorsed_round,
            prequorum_witness: match self.prequorum_witness {
                Some(pq) => Some(pq@),
                None => None,
            },
            quorum_witness: match self.quorum_witness {
                Some(q) => Some(q@),
                None => None,
            },
            mempool: self.mempool@,
            deadline: self.deadline,
        }
    }
}

/// Cap a value at the top of the 64-bit range.
pub open spec fn sat64(x: int) -> int {
    if x > u64::MAX {
        u64::MAX as int
    } else {
        x
    }
}

/// The cumulative voting power of a tally, saturating at the 64-bit top.
pub open spec fn power_sum(votes: Seq<VoteV>) -> int
    decreases votes.len(),
{
    if votes.len() == 0 {
        0
    } else {
        sat64(power_sum(votes.drop_last()) + votes.last().validator.power)
    }
}

/// Whether a validator already stands in the tally.
pub open spec fn has_voter(votes: Seq<VoteV>, id: u64) -> bool
    decreases votes.len(),
{
    if votes.len() == 0 {
        false
    } else {
        votes.last().validator.id == id || has_voter(votes.drop_last(), id)
    }
}

/// Whether every validator stands in the tally at most once.
pub open spec fn votes_unique(votes: Seq<VoteV>) -> bool
    decreases votes.len(),
{
    if votes.len() == 0 {
        true
    } else {
        votes_unique(votes.drop_last()) && !has_voter(
            votes.drop_last(),
            votes.last().validator.id,
        )
    }
}

/// The all-zero payload hash, which asks for derivation from the contents.
pub open spec fn zero_hash(h: [u8; 32]) -> bool {
    forall|i: int| 0 <= i < 32 ==> h@[i] == 0
}

/// When the round beginning at `base` ends: the minimal delay plus the
/// per-round increment, everything saturating.
pub open spec fn round_deadline(base: u64, c: Config, round: i32) -> int
    recommends
        round >= 0,
{
    sat64(sat64(base + c.minimal_block_delay) + sat64(round * c.delay_increment_per_round))
}

/// A proposal for a position the machine has moved past.
pub open spec fn lower_than_current(s: MachineV, level: i32, round: i32) -> bool {
    s.proposal is Some && (level < s.level || (level == s.level && round < s.round))
}

/// A carried prequorum is valid when it speaks of the proposal's own level
/// and payload, names no validator twice, and musters the threshold.
pub open spec fn prequorum_valid(c: Config, b: BlockInfoV) -> bool {
    match b.prequorum {
        Some(pq) => {
            &&& pq.block_id.level == b.block_id.level
            &&& pq.block_id.payload_hash@ == b.block_id.payload_hash@
            &&& votes_unique(pq.votes)
            &&& power_sum(pq.votes) >= c.consensus_threshold
        },
        None => false,
    }
}

/// The round of the carried prequorum; meaningful only when one is carried.
pub open spec fn carried_prequorum_round(b: BlockInfoV) -> i32
    recommends
        b.prequorum is Some,
{
    match b.prequorum {
        Some(pq) => pq.block_id.round,
        None => 0,
    }
}

/// What one event does to the machine: the next state and the actions, in
/// the order they are to be performed.
pub struct StepResult {
    pub state: MachineV,
    pub actions: Seq<Action>,
}

/// A freshly booted machine.
pub open spec fn empty_model() -> MachineV {
    MachineV {
        level: 0,
        round: 0,
        phase: Phase::NoProposal,
        proposal: None,
        locked: None,
        endorsable: None,
        preendorsements: Seq::empty(),
        endorsements: Seq::empty(),
        prevoted_round: None,
        endorsed_round: None,
        prequorum_witness: None,
        quorum_witness: None,
        mempool: BlockPayloadV {
            votes_payload: Seq::empty(),
            anonymous_payload: Seq::empty(),
            managers_payload: Seq::empty(),
        },
        deadline: None,
    }
}

/// A new proposal. A stale or malformed one is dropped; a new level resets
/// all per-level state; then the prequorum may raise the endorsable payload,
/// the machine decides whether to preendorse, and the round's timeout is
/// scheduled. A proposal whose payload hash is all zero and whose level we
/// hold a slot at is ours to assemble and inject.
pub open spec fn step_proposal(
    c: Config,
    slots: SlotsInfo,
    s: MachineV,
    b: BlockInfoV,
    now: u64,
) -> StepResult {
    let level = b.block_id.level;
    let round = b.block_id.round;
    if level < 0 || round < 0 || b.block_id.payload_round < 0 || lower_than_current(
        s,
        level,
        round,
    ) {
        StepResult { state: s, actions: Seq::empty() }
    } else {
        let fresh = s.proposal is None || level > s.level;
        let keep_tallies = !fresh && round == s.round && (match s.proposal {
            Some(p) => p.block_id.payload_hash@ == b.block_id.payload_hash@,
            None => false,
        });
        let s1 = MachineV {
            level,
            round,
            phase: Phase::CollectingPreendorsements,
            proposal: Some(b),
            locked: if fresh {
                None
            } else {
                s.locked
            },
            endorsable: if fresh {
                None
            } else {
                s.endorsable
            },
            preendorsements: if keep_tallies {
                s.preendorsements
            } else {
                Seq::empty()
            },
            endorsements: if keep_tallies {
                s.endorsements
            } else {
                Seq::empty()
            },
            prevoted_round: if fresh {
                None
            } else {
                s.prevoted_round
            },
            endorsed_round: if fresh {
                None
            } else {
                s.endorsed_round
            },
            prequorum_witness: if fresh {
                None
            } else {
                s.prequorum_witness
            },
            quorum_witness: s.quorum_witness,
            mempool: s.mempool,
            deadline: Some(round_deadline(b.timestamp, c, round) as u64),
        };
        let pq_ok = prequorum_valid(c, b);
        let adopt = pq_ok && (match s1.endorsable {
            Some(e) => carried_prequorum_round(b) > e.round,
            None => true,
        });
        let s2 = if adopt {
            MachineV {
                endorsable: Some(
                    EndorsablePayloadV {
                        round: carried_prequorum_round(b),
                        payload_hash: b.block_id.payload_hash,
                        prequorum: (match b.prequorum {
                            Some(pq) => pq,
                            None => PrequorumV { block_id: b.block_id, votes: Seq::empty() },
                        }),
                    },
                ),
                ..s1
            }
        } else {
            s1
        };
        let may_vote = match s2.prevoted_round {
            None => true,
            Some(pr) => pr < round,
        };
        let lock_ok = match s2.locked {
            None => true,
            Some(l) => l.payload_hash@ == b.block_id.payload_hash@ || (pq_ok
                && carried_prequorum_round(b) >= l.round),
        };
        let votes_now = may_vote && lock_ok;
        let s3 = if votes_now {
            MachineV {
                locked: Some(LockedPayload { round, payload_hash: b.block_id.payload_hash }),
                prevoted_round: Some(round),
                ..s2
            }
        } else {
            s2
        };
        let self_propose = zero_hash(b.block_id.payload_hash) && slots.spec_has_slot(level);
        let schedule = seq![Action::ScheduleTimeout(round_deadline(b.timestamp, c, round) as u64)];
        let preendorse = if votes_now {
            seq![Action::Preendorse { pred_hash: b.pred_hash, block_id: b.block_id }]
        } else {
            Seq::empty()
        };
        let propose = if self_propose {
            seq![
                Action::Propose(
                    ProposalPlan {
                        level,
                        round,
                        pred_hash: b.pred_hash,
                        payload_hash: None,
                        payload_round: b.block_id.payload_round,
                        timestamp: b.timestamp,
                    },
                ),
            ]
        } else {
            Seq::empty()
        };
        StepResult { state: s3, actions: schedule + preendorse + propose }
    }
}

/// Whether a vote speaks of the current proposal's position and payload.
pub open spec fn vote_matches(s: MachineV, id: BlockId) -> bool {
    match s.proposal {
        Some(p) => id.level == p.block_id.level && id.round == p.block_id.round
            && id.payload_hash@ == p.block_id.payload_hash@,
        None => false,
    }
}

/// A validated preendorsement. A matching vote joins the tally once per
/// validator; the vote that first lifts the tally to the threshold records
/// the prequorum, may raise the endorsable payload, and makes us endorse,
/// at most once per round.
pub open spec fn step_preendorsement(
    c: Config,
    s: MachineV,
    v: Validator,
    id: BlockId,
    op: Seq<u8>,
) -> StepResult {
    if !vote_matches(s, id) || has_voter(s.preendorsements, v.id) {
        StepResult { state: s, actions: Seq::empty() }
    } else {
        let p = (match s.proposal {
            Some(p) => p,
            None => arbitrary(),
        });
        let tally = s.preendorsements.push(VoteV { validator: v, op });
        let crossed = power_sum(tally) >= c.consensus_threshold && power_sum(s.preendorsements)
            < c.consensus_threshold;
        if crossed {
            let w = PrequorumV { block_id: p.block_id, votes: tally };
            let adopt = match s.endorsable {
                Some(e) => p.block_id.round > e.round,
                None => true,
            };
            let may_endorse = match s.endorsed_round {
                None => true,
                Some(er) => er < p.block_id.round,
            };
            let state = MachineV {
                preendorsements: tally,
                prequorum_witness: Some(w),
                endorsable: if adopt {
                    Some(
                        EndorsablePayloadV {
                            round: p.block_id.round,
                            payload_hash: p.block_id.payload_hash,
                            prequorum: w,
                        },
                    )
                } else {
                    s.endorsable
                },
                endorsed_round: if may_endorse {
                    Some(p.block_id.round)
                } else {
                    s.endorsed_round
                },
                phase: if may_endorse {
                    Phase::CollectingEndorsements
                } else {
                    Phase::Prevoted
                },
                ..s
            };
            let actions = if may_endorse {
                seq![Action::Endorse { pred_hash: p.pred_hash, block_id: p.block_id }]
            } else {
                Seq::empty()
            };
            StepResult { state, actions }
        } else {
            StepResult {
                state: MachineV { preendorsements: tally, ..s },
                actions: Seq::empty(),
            }
        }
    }
}

/// A validated endorsement. A matching vote joins the tally once per
/// validator; the vote that lifts the tally to the threshold decides the
/// level and records the quorum witness; if we propose the next level's
/// first round and its time has come, the proposal plan is emitted.
pub open spec fn step_endorsement(
    c: Config,
    slots: SlotsInfo,
    s: MachineV,
    v: Validator,
    id: BlockId,
    op: Seq<u8>,
    now: u64,
) -> StepResult {
    if !vote_matches(s, id) || has_voter(s.endorsements, v.id) {
        StepResult { state: s, actions: Seq::empty() }
    } else {
        let p = (match s.proposal {
            Some(p) => p,
            None => arbitrary(),
        });
        let tally = s.endorsements.push(VoteV { validator: v, op });
        let crossed = power_sum(tally) >= c.consensus_threshold && power_sum(s.endorsements)
            < c.consensus_threshold;
        if crossed {
            let state = MachineV {
                endorsements: tally,
                quorum_witness: Some(QuorumV { votes: tally }),
                phase: Phase::Decided,
                ..s
            };
            let timely = match s.deadline {
                Some(d) => now >= d,
                None => false,
            };
            let propose = s.level < 0x7fff_ffff && slots.spec_is_proposer(
                (s.level + 1) as i32,
                0,
            ) && timely;
            let actions = if propose {
                seq![
                    Action::Propose(
                        ProposalPlan {
                            level: (s.level + 1) as i32,
                            round: 0,
                            pred_hash: p.hash,
                            payload_hash: None,
                            payload_round: 0,
                            timestamp: (match s.deadline {
                                Some(d) => d,
                                None => now,
                            }),
                        },
                    ),
                ]
            } else {
                Seq::empty()
            };
            StepResult { state, actions }
        } else {
            StepResult { state: MachineV { endorsements: tally, ..s }, actions: Seq::empty() }
        }
    }
}

/// A mempool operation: kept in its bucket when we may propose at the next
/// level, ignored otherwise.
pub open spec fn step_payload_item(
    slots: SlotsInfo,
    s: MachineV,
    kind: PayloadItemKind,
    op: Seq<u8>,
) -> StepResult {
    if s.proposal is Some && s.level < 0x7fff_ffff && slots.spec_has_slot((s.level + 1) as i32) {
        let mempool = match kind {
            PayloadItemKind::Votes => BlockPayloadV {
                votes_payload: s.mempool.votes_payload.push(op),
                ..s.mempool
            },
            PayloadItemKind::Anonymous => BlockPayloadV {
                anonymous_payload: s.mempool.anonymous_payload.push(op),
                ..s.mempool
            },
            PayloadItemKind::Managers => BlockPayloadV {
                managers_payload: s.mempool.managers_payload.push(op),
                ..s.mempool
            },
        };
        StepResult { state: MachineV { mempool, ..s }, actions: Seq::empty() }
    } else {
        StepResult { state: s, actions: Seq::empty() }
    }
}

/// The scheduled deadline elapsed: the machine advances to the next round of
/// the same level and reschedules. If the level is already decided and we
/// propose the next level's first round, the next level's block is planned,
/// its target timestamp having arrived; otherwise, if we propose the new
/// round, a plan for this level is emitted, carrying the endorsable payload
/// if one exists, else a fresh one.
pub open spec fn step_timeout(c: Config, slots: SlotsInfo, s: MachineV, now: u64) -> StepResult {
    match (s.proposal, s.deadline) {
        (Some(p), Some(d)) => {
            if s.round >= 0x7fff_ffff || s.round < 0 {
                StepResult { state: s, actions: Seq::empty() }
            } else {
                let nr = (s.round + 1) as i32;
                let d1 = round_deadline(d, c, nr) as u64;
                let state = MachineV {
                    round: nr,
                    deadline: Some(d1),
                    phase: if s.phase is Decided {
                        Phase::Decided
                    } else {
                        Phase::NoProposal
                    },
                    preendorsements: Seq::empty(),
                    endorsements: Seq::empty(),
                    ..s
                };
                let next_level = s.phase is Decided && s.level < 0x7fff_ffff
                    && slots.spec_is_proposer((s.level + 1) as i32, 0);
                let plan = if next_level {
                    ProposalPlan {
                        level: (s.level + 1) as i32,
                        round: 0,
                        pred_hash: p.hash,
                        payload_hash: None,
                        payload_round: 0,
                        timestamp: d,
                    }
                } else {
                    match s.endorsable {
                        Some(e) => ProposalPlan {
                            level: s.level,
                            round: nr,
                            pred_hash: p.pred_hash,
                            payload_hash: Some(e.payload_hash),
                            payload_round: e.round,
                            timestamp: d,
                        },
                        None => ProposalPlan {
                            level: s.level,
                            round: nr,
                            pred_hash: p.pred_hash,
                            payload_hash: None,
                            payload_round: nr,
                            timestamp: d,
                        },
                    }
                };
                let actions = seq![Action::ScheduleTimeout(d1)] + (if next_level
                    || slots.spec_is_proposer(s.level, nr) {
                    seq![Action::Propose(plan)]
                } else {
                    Seq::empty()
                });
                StepResult { state, actions }
            }
        },
        _ => StepResult { state: s, actions: Seq::empty() },
    }
}

/// What one event does to the machine.
pub open spec fn step(c: Config, slots: SlotsInfo, s: MachineV, e: EventV) -> StepResult {
    match e {
        EventV::Proposal(b, now) => step_proposal(c, slots, s, b, now),
        EventV::Preendorsement(v, id, op, now) => step_preendorsement(c, s, v, id, op),
        EventV::Endorsement(v, id, op, now) => step_endorsement(c, slots, s, v, id, op, now),
        EventV::PayloadItem(k, op) => step_payload_item(slots, s, k, op),
        EventV::Timeout(now) => step_timeout(c, slots, s, now),
    }
}

/// Whether two hashes hold the same bytes.
pub fn hash_eq(a: &[u8; 32], b: &[u8; 32]) -> (r: bool)
    ensures
        r == (a@ == b@),
{
    let mut i: usize = 0;
    while i < 32
        invariant
            0 <= i <= 32,
            forall|j: int| 0 <= j < i ==> a@[j] == b@[j],
        decreases 32 - i,
    {
        if a[i] != b[i] {
            return false;
        }
        i = i + 1;
    }
    proof {
        assert(a@ =~= b@);
    }
    true
}

/// Whether a hash is all zero.
pub fn hash_is_zero(h: &[u8; 32]) -> (r: bool)
    ensures
        r == zero_hash(*h),
{
    let mut i: usize = 0;
    while i < 32
        invariant
            0 <= i <= 32,
            forall|j: int| 0 <= j < i ==> h@[j] == 0,
        decreases 32 - i,
    {
        if h[i] != 0 {
            return false;
        }
        i = i + 1;
    }
    true
}

/// An owned copy of a byte string.
fn copy_bytes(v: &Vec<u8>) -> (r: Vec<u8>)
    ensures
        r@ == v@,
{
    let mut out: Vec<u8> = Vec::new();
    let mut i: usize = 0;
    while i < v.len()
        invariant
            0 <= i <= v@.len(),
            out@ == v@.take(i as int),
        decreases v@.len() - i,
    {
        out.push(v[i]);
        proof {
            assert(out@ =~= v@.take(i + 1));
        }
        i = i + 1;
    }
    proof {
        assert(v@.take(v@.len() as int) =~= v@);
    }
    out
}

/// An owned copy of a tally.
fn copy_votes(v: &Vec<Vote>) -> (r: Vec<Vote>)
    ensures
        r@.map_values(|x: Vote| x@) == v@.map_values(|x: Vote| x@),
        r@.len() == v@.len(),
{
    let mut out: Vec<Vote> = Vec::new();
    let mut i: usize = 0;
    while i < v.len()
        invariant
            0 <= i <= v@.len(),
            out@.len() == i,
            forall|j: int| 0 <= j < i ==> (#[trigger] out@[j])@ == v@[j]@,
        decreases v@.len() - i,
    {
        let w = Vote { validator: v[i].validator, op: copy_bytes(&v[i].op) };
        out.push(w);
        i = i + 1;
    }
    proof {
        assert(out@.map_values(|x: Vote| x@) =~= v@.map_values(|x: Vote| x@));
    }
    out
}

/// The saturating voting power of a tally.
fn power_sum_exec(votes: &Vec<Vote>) -> (r: u64)
    ensures
        r as int == power_sum(votes@.map_values(|x: Vote| x@)),
{
    let ghost m = votes@.map_values(|x: Vote| x@);
    let mut acc: u64 = 0;
    let mut i: usize = 0;
    while i < votes.len()
        invariant
            0 <= i <= votes@.len(),
            m == votes@.map_values(|x: Vote| x@),
            m.len() == votes@.len(),
            forall|j: int| 0 <= j < votes@.len() ==> #[trigger] m[j] == votes@[j]@,
            acc as int == power_sum(m.take(i as int)),
        decreases votes@.len() - i,
    {
        proof {
            assert(m.take(i + 1).drop_last() =~= m.take(i as int));
            assert(m.take(i + 1).last() == m[i as int]);
        }
        acc = acc.saturating_add(votes[i].validator.power as u64);
        i = i + 1;
    }
    proof {
        assert(m.take(m.len() as int) =~= m);
    }
    acc
}

/// Whether `id` already voted in this tally.
fn has_voter_exec(votes: &Vec<Vote>, id: u64) -> (r: bool)
    ensures
        r == has_voter(votes@.map_values(|x: Vote| x@), id),
{
    let ghost m = votes@.map_values(|x: Vote| x@);
    let mut i: usize = 0;
    while i < votes.len()
        invariant
            0 <= i <= votes@.len(),
            m == votes@.map_values(|x: Vote| x@),
            m.len() == votes@.len(),
            forall|j: int| 0 <= j < votes@.len() ==> #[trigger] m[j] == votes@[j]@,
            !has_voter(m.take(i as int), id),
        decreases votes@.len() - i,
    {
        proof {
            assert(m.take(i + 1).drop_last() =~= m.take(i as int));
            assert(m.take(i + 1).last() == m[i as int]);
        }
        if votes[i].validator.id == id {
            proof {
                lemma_has_voter_extends(m, i as int + 1, m.len() as int, id);
                assert(m.take(m.len() as int) =~= m);
            }
            return true;
        }
        i = i + 1;
    }
    proof {
        assert(m.take(m.len() as int) =~= m);
    }
    false
}

/// Uniqueness of a longer prefix gives uniqueness of a shorter one.
proof fn lemma_votes_unique_prefix(m: Seq<VoteV>, k: int, n: int)
    requires
        0 <= k <= n <= m.len(),
        votes_unique(m.take(n)),
    ensures
        votes_unique(m.take(k)),
    decreases n - k,
{
    if k < n {
        assert(m.take(n).drop_last() =~= m.take(n - 1));
        lemma_votes_unique_prefix(m, k, n - 1);
    }
}

/// A voter present in a prefix is present in every longer prefix.
proof fn lemma_has_voter_extends(m: Seq<VoteV>, i: int, n: int, id: u64)
    requires
        0 < i <= n <= m.len(),
        has_voter(m.take(i), id),
    ensures
        has_voter(m.take(n), id),
    decreases n - i,
{
    if i < n {
        assert(m.take(i + 1).drop_last() =~= m.take(i));
        lemma_has_voter_extends(m, i + 1, n, id);
    }
}

/// Whether no validator stands in this tally twice.
fn votes_unique_exec(votes: &Vec<Vote>) -> (r: bool)
    ensures
        r == votes_unique(votes@.map_values(|x: Vote| x@)),
{
    let ghost m = votes@.map_values(|x: Vote| x@);
    let mut i: usize = 0;
    while i < votes.len()
        invariant
            0 <= i <= votes@.len(),
            m == votes@.map_values(|x: Vote| x@),
            m.len() == votes@.len(),
            forall|j: int| 0 <= j < votes@.len() ==> #[trigger] m[j] == votes@[j]@,
            votes_unique(m.take(i as int)),
        decreases votes@.len() - i,
    {
        proof {
            assert(m.take(i + 1).drop_last() =~= m.take(i as int));
            assert(m.take(i + 1).last() == m[i as int]);
        }
        let id = votes[i].validator.id;
        let mut j: usize = 0;
        while j < i
            invariant
                0 <= j <= i < votes@.len(),
                m == votes@.map_values(|x: Vote| x@),
                m.len() == votes@.len(),
                forall|k: int| 0 <= k < votes@.len() ==> #[trigger] m[k] == votes@[k]@,
                id == m[i as int].validator.id,
                votes_unique(m.take(i as int)),
                !has_voter(m.take(j as int), id),
            decreases i - j,
        {
            proof {
                assert(m.take(j + 1).drop_last() =~= m.take(j as int));
                assert(m.take(j + 1).last() == m[j as int]);
            }
            if votes[j].validator.id == id {
                proof {
                    lemma_has_voter_extends(m, j as int + 1, i as int, id);
                    assert(m.take(i as int + 1).drop_last() =~= m.take(i as int));
                    assert(m.take(i as int + 1).last() == m[i as int]);
                    assert(!votes_unique(m.take(i as int + 1)));
                    if votes_unique(m.take(m.len() as int)) {
                        lemma_votes_unique_prefix(m, i as int + 1, m.len() as int);
                    }
                    assert(m.take(m.len() as int) =~= m);
                }
                return false;
            }
            j = j + 1;
        }
        i = i + 1;
    }
    proof {
        assert(m.take(m.len() as int) =~= m);
    }
    true
}

/// The end of the round beginning at `base`.
fn deadline_of(base: u64, c: &Config, round: i32) -> (r: u64)
    requires
        round >= 0,
    ensures
        r as int == round_deadline(base, *c, round),
{
    let per_round: u64 = match (round as u64).checked_mul(c.delay_increment_per_round) {
        Some(p) => p,
        None => u64::MAX,
    };
    base.saturating_add(c.minimal_block_delay).saturating_add(per_round)
}

/// An owned copy of a prequorum.
fn dup_prequorum(pq: &Prequorum) -> (r: Prequorum)
    ensures
        r@ == pq@,
{
    let r = Prequorum { block_id: pq.block_id, votes: copy_votes(&pq.votes) };
    proof {
        assert(r@ =~~= pq@);
    }
    r
}

impl Machine {
    /// A machine that has seen nothing yet.
    pub fn empty() -> (r: Machine)
        ensures
            r@ == empty_model(),
    {
        let r = Machine {
            level: 0,
            round: 0,
            phase: Phase::NoProposal,
            proposal: None,
            locked: None,
            endorsable: None,
            preendorsements: Vec::new(),
            endorsements: Vec::new(),
            prevoted_round: None,
            endorsed_round: None,
            prequorum_witness: None,
            quorum_witness: None,
            mempool: BlockPayload::empty(),
            deadline: None,
        };
        proof {
            assert(r@ =~~= empty_model());
        }
        r
    }

    /// Feed one event to the machine; the returned actions are to be
    /// performed in order. State and actions are exactly those of the model
    /// `step`.
    pub fn handle(&mut self, config: &Config, slots: &SlotsInfo, event: Event) -> (r: Vec<Action>)
        requires
            slots.wf(),
        ensures
            final(self)@ == step(*config, *slots, old(self)@, event@).state,
            r@ == step(*config, *slots, old(self)@, event@).actions,
    {
        match event {
            Event::Proposal(b, now) => self.on_proposal(config, slots, b, now),
            Event::Preendorsement(v, id, op, now) => self.on_preendorsement(config, v, id, op),
            Event::Endorsement(v, id, op, now) => self.on_endorsement(config, slots, v, id, op, now),
            Event::PayloadItem(k, op) => self.on_payload_item(slots, k, op),
            Event::Timeout(now) => self.on_timeout(config, slots, now),
        }
    }

    fn on_proposal(&mut self, c: &Config, slots: &SlotsInfo, b: BlockInfo, now: u64) -> (r: Vec<
        Action,
    >)
        requires
            slots.wf(),
        ensures
            final(self)@ == step_proposal(*c, *slots, old(self)@, b@, now).state,
            r@ == step_proposal(*c, *slots, old(self)@, b@, now).actions,
    {
        let ghost s0 = old(self)@;
        let ghost bv = b@;
        let ghost target = step_proposal(*c, *slots, s0, bv, now);
        let level = b.block_id.level;
        let round = b.block_id.round;
        if level < 0 || round < 0 || b.block_id.payload_round < 0 {
            proof {
                assert(Seq::<Action>::empty() =~= target.actions);
            }
            return Vec::new();
        }
        let stale = match &self.proposal {
            Some(_) => level < self.level || (level == self.level && round < self.round),
            None => false,
        };
        if stale {
            proof {
                assert(Seq::<Action>::empty() =~= target.actions);
            }
            return Vec::new();
        }
        let fresh = self.proposal.is_none() || level > self.level;
        let keep_tallies = !fresh && round == self.round && (match &self.proposal {
            Some(p) => hash_eq(&p.block_id.payload_hash, &b.block_id.payload_hash),
            None => false,
        });
        let dl = deadline_of(b.timestamp, c, round);
        let pq_ok = match &b.prequorum {
            Some(pq) => pq.block_id.level == level && hash_eq(
                &pq.block_id.payload_hash,
                &b.block_id.payload_hash,
            ) && votes_unique_exec(&pq.votes) && power_sum_exec(&pq.votes)
                >= c.consensus_threshold,
            None => false,
        };
        proof {
            assert(pq_ok == prequorum_valid(*c, bv));
        }
        let pq_round: i32 = match &b.prequorum {
            Some(pq) => pq.block_id.round,
            None => 0,
        };
        let adopt = pq_ok && (fresh || (match &self.endorsable {
            Some(e) => pq_round > e.round,
            None => true,
        }));
        let may_vote = if fresh {
            true
        } else {
            match self.prevoted_round {
                None => true,
                Some(pr) => pr < round,
            }
        };
        let lock_ok = if fresh {
            true
        } else {
            match &self.locked {
                None => true,
                Some(l) => hash_eq(&l.payload_hash, &b.block_id.payload_hash) || (pq_ok && pq_round
                    >= l.round),
            }
        };
        let votes_now = may_vote && lock_ok;
        let self_propose = hash_is_zero(&b.block_id.payload_hash) && slots.has_slot(level);

        self.level = level;
        self.round = round;
        self.phase = Phase::CollectingPreendorsements;
        if fresh {
            self.locked = None;
            self.prevoted_round = None;
            self.endorsed_round = None;
            self.prequorum_witness = None;
            self.endorsable = None;
        }
        if !keep_tallies {
            self.preendorsements = Vec::new();
            self.endorsements = Vec::new();
        }
        self.deadline = Some(dl);
        if adopt {
            match &b.prequorum {
                Some(pq) => {
                    self.endorsable = Some(
                        EndorsablePayload {
                            round: pq.block_id.round,
                            payload_hash: b.block_id.payload_hash,
                            prequorum: dup_prequorum(pq),
                        },
                    );
                },
                None => {},
            }
        }
        if votes_now {
            self.locked = Some(LockedPayload { round, payload_hash: b.block_id.payload_hash });
            self.prevoted_round = Some(round);
        }
        let pred_hash = b.pred_hash;
        let bid = b.block_id;
        let payload_round = b.block_id.payload_round;
        let timestamp = b.timestamp;
        self.proposal = Some(b);
        let mut acts: Vec<Action> = Vec::new();
        acts.push(Action::ScheduleTimeout(dl));
        if votes_now {
            acts.push(Action::Preendorse { pred_hash, block_id: bid });
        }
        if self_propose {
            acts.push(
                Action::Propose(
                    ProposalPlan {
                        level,
                        round,
                        pred_hash,
                        payload_hash: None,
                        payload_round,
                        timestamp,
                    },
                ),
            );
        }
        proof {
            assert(Seq::<Vote>::empty().map_values(|x: Vote| x@) =~= Seq::<VoteV>::empty());
            assert(self@ =~~= target.state);
            assert(acts@ =~= target.actions);
        }
        acts
    }

    fn on_preendorsement(&mut self, c: &Config, v: Validator, id: BlockId, op: Vec<u8>) -> (r: Vec<
        Action,
    >)
        ensures
            final(self)@ == step_preendorsement(*c, old(self)@, v, id, op@).state,
            r@ == step_preendorsement(*c, old(self)@, v, id, op@).actions,
    {
        let ghost s0 = old(self)@;
        let ghost target = step_preendorsement(*c, s0, v, id, op@);
        let matches_now = match &self.proposal {
            Some(p) => id.level == p.block_id.level && id.round == p.block_id.round && hash_eq(
                &id.payload_hash,
                &p.block_id.payload_hash,
            ),
            None => false,
        };
        if !matches_now {
            proof {
                assert(Seq::<Action>::empty() =~= target.actions);
            }
            return Vec::new();
        }
        if has_voter_exec(&self.preendorsements, v.id) {
            proof {
                assert(Seq::<Action>::empty() =~= target.actions);
            }
            return Vec::new();
        }
        let before = power_sum_exec(&self.preendorsements);
        self.preendorsements.push(Vote { validator: v, op });
        proof {
            assert(self.preendorsements@.map_values(|x: Vote| x@) =~= s0.preendorsements.push(
                VoteV { validator: v, op: op@ },
            ));
        }
        let after = power_sum_exec(&self.preendorsements);
        let crossed = after >= c.consensus_threshold && before < c.consensus_threshold;
        if !crossed {
            proof {
                assert(self@ =~~= target.state);
                assert(Seq::<Action>::empty() =~= target.actions);
            }
            return Vec::new();
        }
        let (pred_hash, bid) = match &self.proposal {
            Some(p) => (p.pred_hash, p.block_id),
            None => (([0u8; 32]), id),
        };
        let witness = Prequorum { block_id: bid, votes: copy_votes(&self.preendorsements) };
        let adopt = match &self.endorsable {
            Some(e) => bid.round > e.round,
            None => true,
        };
        let may_endorse = match self.endorsed_round {
            None => true,
            Some(er) => er < bid.round,
        };
        if adopt {
            self.endorsable = Some(
                EndorsablePayload {
                    round: bid.round,
                    payload_hash: bid.payload_hash,
                    prequorum: dup_prequorum(&witness),
                },
            );
        }
        self.prequorum_witness = Some(witness);
        let mut acts: Vec<Action> = Vec::new();
        if may_endorse {
            self.endorsed_round = Some(bid.round);
            self.phase = Phase::CollectingEndorsements;
            acts.push(Action::Endorse { pred_hash, block_id: bid });
        } else {
            self.phase = Phase::Prevoted;
        }
        proof {
            assert(self@ =~~= target.state);
            assert(acts@ =~= target.actions);
        }
        acts
    }

    fn on_endorsement(
        &mut self,
        c: &Config,
        slots: &SlotsInfo,
        v: Validator,
        id: BlockId,
        op: Vec<u8>,
        now: u64,
    ) -> (r: Vec<Action>)
        requires
            slots.wf(),
        ensures
            final(self)@ == step_endorsement(*c, *slots, old(self)@, v, id, op@, now).state,
            r@ == step_endorsement(*c, *slots, old(self)@, v, id, op@, now).actions,
    {
        let ghost s0 = old(self)@;
        let ghost target = step_endorsement(*c, *slots, s0, v, id, op@, now);
        let matches_now = match &self.proposal {
            Some(p) => id.level == p.block_id.level && id.round == p.block_id.round && hash_eq(
                &id.payload_hash,
                &p.block_id.payload_hash,
            ),
            None => false,
        };
        if !matches_now {
            proof {
                assert(Seq::<Action>::empty() =~= target.actions);
            }
            return Vec::new();
        }
        if has_voter_exec(&self.endorsements, v.id) {
            proof {
                assert(Seq::<Action>::empty() =~= target.actions);
            }
            return Vec::new();
        }
        let before = power_sum_exec(&self.endorsements);
        self.endorsements.push(Vote { validator: v, op });
        proof {
            assert(self.endorsements@.map_values(|x: Vote| x@) =~= s0.endorsements.push(
                VoteV { validator: v, op: op@ },
            ));
        }
        let after = power_sum_exec(&self.endorsements);
        let crossed = after >= c.consensus_threshold && before < c.consensus_threshold;
        if !crossed {
            proof {
                assert(self@ =~~= target.state);
                assert(Seq::<Action>::empty() =~= target.actions);
            }
            return Vec::new();
        }
        let pred_block_hash = match &self.proposal {
            Some(p) => p.hash,
            None => [0u8; 32],
        };
        self.quorum_witness = Some(Quorum { votes: copy_votes(&self.endorsements) });
        self.phase = Phase::Decided;
        let timely = match self.deadline {
            Some(d) => now >= d,
            None => false,
        };
        let mut acts: Vec<Action> = Vec::new();
        if self.level < 0x7fff_ffff && timely && slots.is_proposer(self.level + 1, 0) {
            let timestamp = match self.deadline {
                Some(d) => d,
                None => now,
            };
            acts.push(
                Action::Propose(
                    ProposalPlan {
                        level: self.level + 1,
                        round: 0,
                        pred_hash: pred_block_hash,
                        payload_hash: None,
                        payload_round: 0,
                        timestamp,
                    },
                ),
            );
        }
        proof {
            assert(self@ =~~= target.state);
            assert(acts@ =~= target.actions);
        }
        acts
    }

    fn on_payload_item(&mut self, slots: &SlotsInfo, kind: PayloadItemKind, op: Vec<u8>) -> (r:
        Vec<Action>)
        requires
            slots.wf(),
        ensures
            final(self)@ == step_payload_item(*slots, old(self)@, kind, op@).state,
            r@ == step_payload_item(*slots, old(self)@, kind, op@).actions,
    {
        let ghost s0 = old(self)@;
        let ghost target = step_payload_item(*slots, s0, kind, op@);
        let keep = self.proposal.is_some() && self.level < 0x7fff_ffff && slots.has_slot(
            self.level + 1,
        );
        if keep {
            let ghost opv = op@;
            match kind {
                PayloadItemKind::Votes => {
                    self.mempool.votes_payload.push(op);
                    proof {
                        assert(self.mempool.votes_payload@.map_values(|x: Vec<u8>| x@)
                            =~= s0.mempool.votes_payload.push(opv));
                    }
                },
                PayloadItemKind::Anonymous => {
                    self.mempool.anonymous_payload.push(op);
                    proof {
                        assert(self.mempool.anonymous_payload@.map_values(|x: Vec<u8>| x@)
                            =~= s0.mempool.anonymous_payload.push(opv));
                    }
                },
                PayloadItemKind::Managers => {
                    self.mempool.managers_payload.push(op);
                    proof {
                        assert(self.mempool.managers_payload@.map_values(|x: Vec<u8>| x@)
                            =~= s0.mempool.managers_payload.push(opv));
                    }
                },
            }
        }
        proof {
            assert(self@ =~~= target.state);
            assert(Seq::<Action>::empty() =~= target.actions);
        }
        Vec::new()
    }

    fn on_timeout(&mut self, c: &Config, slots: &SlotsInfo, now: u64) -> (r: Vec<Action>)
        ensures
            final(self)@ == step_timeout(*c, *slots, old(self)@, now).state,
            r@ == step_timeout(*c, *slots, old(self)@, now).actions,
    {
        let ghost s0 = old(self)@;
        let ghost target = step_timeout(*c, *slots, s0, now);
        let running = self.proposal.is_some() && self.deadline.is_some() && self.round >= 0
            && self.round < 0x7fff_ffff;
        if !running {
            proof {
                assert(Seq::<Action>::empty() =~= target.actions);
            }
            return Vec::new();
        }
        let d = match self.deadline {
            Some(d) => d,
            None => now,
        };
        let nr = self.round + 1;
        let d1 = deadline_of(d, c, nr);
        let (pred_hash, block_hash) = match &self.proposal {
            Some(p) => (p.pred_hash, p.hash),
            None => ([0u8; 32], [0u8; 32]),
        };
        let decided = matches!(self.phase, Phase::Decided);
        self.round = nr;
        self.deadline = Some(d1);
        self.phase = if decided {
            Phase::Decided
        } else {
            Phase::NoProposal
        };
        self.preendorsements = Vec::new();
        self.endorsements = Vec::new();
        let next_level = decided && self.level < 0x7fff_ffff && slots.is_proposer(
            self.level + 1,
            0,
        );
        let mut acts: Vec<Action> = Vec::new();
        acts.push(Action::ScheduleTimeout(d1));
        if next_level {
            acts.push(
                Action::Propose(
                    ProposalPlan {
                        level: self.level + 1,
                        round: 0,
                        pred_hash: block_hash,
                        payload_hash: None,
                        payload_round: 0,
                        timestamp: d,
                    },
                ),
            );
        } else if slots.is_proposer(self.level, nr) {
            let plan = match &self.endorsable {
                Some(e) => ProposalPlan {
                    level: self.level,
                    round: nr,
                    pred_hash,
                    payload_hash: Some(e.payload_hash),
                    payload_round: e.round,
                    timestamp: d,
                },
                None => ProposalPlan {
                    level: self.level,
                    round: nr,
                    pred_hash,
                    payload_hash: None,
                    payload_round: nr,
                    timestamp: d,
                },
            };
            acts.push(Action::Propose(plan));
        }
        proof {
            assert(Seq::<Vote>::empty().map_values(|x: Vote| x@) =~= Seq::<VoteV>::empty());
            assert(self@ =~~= target.state);
            assert(acts@ =~= target.actions);
        }
        acts
    }
}

/// What building a prequorum from network operations yielded.
#[derive(Debug, Clone)]
pub enum PrequorumOutcome {
    /// No preendorsement at all.
    Empty,
    /// A witness set below the threshold.
    Incomplete(Prequorum),
    /// A witness set at or above the threshold.
    Complete(Prequorum),
}

/// Model of a build outcome.
#[verifier::ext_equal]
pub enum PrequorumOutcomeV {
    Empty,
    Incomplete(PrequorumV),
    Complete(PrequorumV),
}

impl View for PrequorumOutcome {
    type V = PrequorumOutcomeV;

    open spec fn view(&self) -> PrequorumOutcomeV {
        match self {
            PrequorumOutcome::Empty => PrequorumOutcomeV::Empty,
            PrequorumOutcome::Incomplete(pq) => PrequorumOutcomeV::Incomplete(pq@),
            PrequorumOutcome::Complete(pq) => PrequorumOutcomeV::Complete(pq@),
        }
    }
}

/// The votes accepted from the first `n` resolved preendorsements: those
/// that speak of the target position, each validator counted once, keeping
/// the first operation a validator sent.
pub open spec fn accepted_votes(
    votes: Seq<(Validator, BlockId, Seq<u8>)>,
    target: BlockId,
    n: int,
) -> Seq<VoteV>
    decreases n,
{
    if n <= 0 {
        Seq::empty()
    } else {
        let rest = accepted_votes(votes, target, n - 1);
        let entry = votes[n - 1];
        if entry.1.level == target.level && entry.1.round == target.round
            && entry.1.payload_hash@ == target.payload_hash@ && !has_voter(rest, entry.0.id) {
            rest.push(VoteV { validator: entry.0, op: entry.2 })
        } else {
            rest
        }
    }
}

/// Building a prequorum from resolved preendorsements: the first vote fixes
/// the position; the outcome says whether the accepted power reaches the
/// threshold.
pub open spec fn spec_prequorum_build(
    votes: Seq<(Validator, BlockId, Seq<u8>)>,
    threshold: u64,
) -> PrequorumOutcomeV {
    if votes.len() == 0 {
        PrequorumOutcomeV::Empty
    } else {
        let target = votes[0].1;
        let collected = accepted_votes(votes, target, votes.len() as int);
        let pq = PrequorumV { block_id: target, votes: collected };
        if power_sum(collected) >= threshold {
            PrequorumOutcomeV::Complete(pq)
        } else {
            PrequorumOutcomeV::Incomplete(pq)
        }
    }
}

impl Prequorum {
    /// Build the witness set out of resolved preendorsements, explicitly
    /// tagged by whether it musters the threshold.
    pub fn build(votes: Vec<(Validator, BlockId, Vec<u8>)>, threshold: u64) -> (r:
        PrequorumOutcome)
        ensures
            r@ == spec_prequorum_build(
                votes@.map_values(|t: (Validator, BlockId, Vec<u8>)| (t.0, t.1, t.2@)),
                threshold,
            ),
    {
        let ghost m = votes@.map_values(|t: (Validator, BlockId, Vec<u8>)| (t.0, t.1, t.2@));
        if votes.len() == 0 {
            return PrequorumOutcome::Empty;
        }
        let target = votes[0].1;
        let mut collected: Vec<Vote> = Vec::new();
        let mut i: usize = 0;
        while i < votes.len()
            invariant
                0 <= i <= votes@.len(),
                m == votes@.map_values(|t: (Validator, BlockId, Vec<u8>)| (t.0, t.1, t.2@)),
                m.len() == votes@.len(),
                forall|j: int|
                    0 <= j < votes@.len() ==> #[trigger] m[j] == (
                        votes@[j].0,
                        votes@[j].1,
                        votes@[j].2@,
                    ),
                collected@.map_values(|x: Vote| x@) == accepted_votes(m, target, i as int),
            decreases votes@.len() - i,
        {
            let ghost pre = collected@.map_values(|x: Vote| x@);
            let entry = &votes[i];
            let matches_target = entry.1.level == target.level && entry.1.round == target.round
                && hash_eq(&entry.1.payload_hash, &target.payload_hash);
            if matches_target && !has_voter_exec(&collected, entry.0.id) {
                let op = copy_bytes(&entry.2);
                collected.push(Vote { validator: entry.0, op });
                proof {
                    assert(collected@.map_values(|x: Vote| x@) =~= pre.push(
                        VoteV { validator: m[i as int].0, op: m[i as int].2 },
                    ));
                }
            }
            i = i + 1;
        }
        let complete = power_sum_exec(&collected) >= threshold;
        let pq = Prequorum { block_id: target, votes: collected };
        proof {
            assert(m[0] == (votes@[0].0, votes@[0].1, votes@[0].2@));
            assert(pq@ =~~= (match spec_prequorum_build(m, threshold) {
                PrequorumOutcomeV::Incomplete(x) => x,
                PrequorumOutcomeV::Complete(x) => x,
                PrequorumOutcomeV::Empty => pq@,
            }));
        }
        if complete {
            PrequorumOutcome::Complete(pq)
        } else {
            PrequorumOutcome::Incomplete(pq)
        }
    }
}

impl PrequorumOutcome {
    /// The witness set, only when it musters the threshold.
    pub fn complete(self) -> (r: Option<Prequorum>)
        ensures
            match self@ {
                PrequorumOutcomeV::Complete(pq) => r matches Some(x) && x@ == pq,
                _ => r is None,
            },
    {
        match self {
            PrequorumOutcome::Complete(pq) => Some(pq),
            _ => None,
        }
    }
}

/// The machine states the transitions keep to: a machine without a proposal
/// has seen nothing; the proposal it holds is at its own level; and a lock
/// never sits above the round last preendorsed.
pub open spec fn model_wf(s: MachineV) -> bool {
    &&& (s.proposal is None ==> s.level == 0 && s.locked is None && s.endorsable is None
        && s.prevoted_round is None && s.endorsed_round is None)
    &&& (s.proposal matches Some(p) ==> p.block_id.level == s.level)
    &&& (s.locked matches Some(l) ==> (s.prevoted_round matches Some(pr) && l.round <= pr))
}

/// The freshly booted machine is well formed.
pub proof fn lemma_empty_wf()
    ensures
        model_wf(empty_model()),
{
}

/// The level and round a Preendorse action votes at, if it is one.
pub open spec fn preendorse_pos(a: Action) -> Option<(i32, i32)> {
    match a {
        Action::Preendorse { block_id, .. } => Some((block_id.level, block_id.round)),
        _ => None,
    }
}

/// The level and round an Endorse action votes at, if it is one.
pub open spec fn endorse_pos(a: Action) -> Option<(i32, i32)> {
    match a {
        Action::Endorse { block_id, .. } => Some((block_id.level, block_id.round)),
        _ => None,
    }
}

/// `(level, round)` lies at or behind the machine's preendorsement history:
/// a position the machine will never preendorse again.
pub open spec fn pre_marked(s: MachineV, level: i32, round: i32) -> bool {
    level < s.level || (level == s.level && (match s.prevoted_round {
        Some(pr) => round <= pr,
        None => false,
    }))
}

/// `(level, round)` lies at or behind the machine's endorsement history.
pub open spec fn end_marked(s: MachineV, level: i32, round: i32) -> bool {
    level < s.level || (level == s.level && (match s.endorsed_round {
        Some(er) => round <= er,
        None => false,
    }))
}

/// One step keeps the machine well formed and never unmarks a position.
pub proof fn lemma_step_marks(c: Config, slots: SlotsInfo, s: MachineV, e: EventV)
    requires
        model_wf(s),
    ensures
        model_wf(step(c, slots, s, e).state),
        forall|l: i32, r: i32|
            pre_marked(s, l, r) ==> pre_marked(#[trigger] step(c, slots, s, e).state, l, r),
        forall|l: i32, r: i32|
            end_marked(s, l, r) ==> end_marked(#[trigger] step(c, slots, s, e).state, l, r),
{
}

/// What one step may emit: at most one vote of each kind, each at a position
/// not yet marked before the step and marked after it.
pub proof fn lemma_step_emits(c: Config, slots: SlotsInfo, s: MachineV, e: EventV)
    requires
        model_wf(s),
    ensures
        forall|i: int|
            0 <= i < step(c, slots, s, e).actions.len() ==> (match preendorse_pos(
                #[trigger] step(c, slots, s, e).actions[i],
            ) {
                Some(p) => !pre_marked(s, p.0, p.1) && pre_marked(step(c, slots, s, e).state, p.0, p.1),
                None => true,
            }),
        forall|i: int|
            0 <= i < step(c, slots, s, e).actions.len() ==> (match endorse_pos(
                #[trigger] step(c, slots, s, e).actions[i],
            ) {
                Some(p) => !end_marked(s, p.0, p.1) && end_marked(step(c, slots, s, e).state, p.0, p.1),
                None => true,
            }),
        forall|i: int, j: int|
            0 <= i < j < step(c, slots, s, e).actions.len() ==> !(preendorse_pos(
                #[trigger] step(c, slots, s, e).actions[i],
            ) is Some && preendorse_pos(#[trigger] step(c, slots, s, e).actions[j]) is Some),
        forall|i: int, j: int|
            0 <= i < j < step(c, slots, s, e).actions.len() ==> !(endorse_pos(
                #[trigger] step(c, slots, s, e).actions[i],
            ) is Some && endorse_pos(#[trigger] step(c, slots, s, e).actions[j]) is Some),
{
}

/// Voting power is gated by the quorum: an `Endorse` action only ever leaves
/// the machine on the preendorsement that lifts the accepted tally for the
/// current proposal to the consensus threshold.
pub proof fn lemma_quorum_gating(c: Config, slots: SlotsInfo, s: MachineV, e: EventV, i: int)
    requires
        0 <= i < step(c, slots, s, e).actions.len(),
        step(c, slots, s, e).actions[i] is Endorse,
    ensures
        e is Preendorsement,
        power_sum(step(c, slots, s, e).state.preendorsements) >= c.consensus_threshold,
{
}

/// The round of the locked payload never goes down while the machine stays
/// at a level; it only resets when the level advances.
pub proof fn lemma_locked_monotone(c: Config, slots: SlotsInfo, s: MachineV, e: EventV)
    requires
        model_wf(s),
    ensures
        ({
            let s1 = step(c, slots, s, e).state;
            s1.level == s.level ==> (match s.locked {
                Some(l0) => s1.locked matches Some(l1) && l1.round >= l0.round,
                None => true,
            })
        }),
{
}

/// Replaying the same events against equal machines yields the same actions:
/// the machine is deterministic, because `handle` is fully described by the
/// model `step`.
pub proof fn lemma_replay_deterministic(
    c: Config,
    slots: SlotsInfo,
    s1: MachineV,
    s2: MachineV,
    events: Seq<EventV>,
)
    requires
        s1 == s2,
    ensures
        run_actions(c, slots, s1, events) == run_actions(c, slots, s2, events),
{
}

/// Across a whole run: every emitted preendorsement and endorsement sits at
/// a position unmarked at the start, and no two votes of the same kind share
/// a `(level, round)` position.
pub proof fn lemma_at_most_one_vote_per_round(
    c: Config,
    slots: SlotsInfo,
    s: MachineV,
    events: Seq<EventV>,
)
    requires
        model_wf(s),
    ensures
        ({
            let tr = run_actions(c, slots, s, events);
            &&& (forall|i: int|
                0 <= i < tr.len() ==> (match preendorse_pos(#[trigger] tr[i]) {
                    Some(p) => !pre_marked(s, p.0, p.1),
                    None => true,
                }))
            &&& (forall|i: int|
                0 <= i < tr.len() ==> (match endorse_pos(#[trigger] tr[i]) {
                    Some(p) => !end_marked(s, p.0, p.1),
                    None => true,
                }))
            &&& (forall|i: int, j: int|
                0 <= i < j < tr.len() ==> !(preendorse_pos(#[trigger] tr[i]) is Some
                    && preendorse_pos(#[trigger] tr[j]) == preendorse_pos(tr[i])))
            &&& (forall|i: int, j: int|
                0 <= i < j < tr.len() ==> !(endorse_pos(#[trigger] tr[i]) is Some && endorse_pos(
                    #[trigger] tr[j],
                ) == endorse_pos(tr[i])))
        }),
    decreases events.len(),
{
    let tr = run_actions(c, slots, s, events);
    if events.len() > 0 {
        let e0 = events.first();
        let st = step(c, slots, s, e0);
        let rest = run_actions(c, slots, st.state, events.drop_first());
        lemma_step_marks(c, slots, s, e0);
        lemma_step_emits(c, slots, s, e0);
        lemma_at_most_one_vote_per_round(c, slots, st.state, events.drop_first());
        assert(tr == st.actions + rest);
        assert forall|i: int| 0 <= i < tr.len() implies (match preendorse_pos(#[trigger] tr[i]) {
            Some(p) => !pre_marked(s, p.0, p.1),
            None => true,
        }) by {
            if i < st.actions.len() {
                assert(tr[i] == st.actions[i]);
            } else {
                assert(tr[i] == rest[i - st.actions.len()]);
            }
        }
        assert forall|i: int| 0 <= i < tr.len() implies (match endorse_pos(#[trigger] tr[i]) {
            Some(p) => !end_marked(s, p.0, p.1),
            None => true,
        }) by {
            if i < st.actions.len() {
                assert(tr[i] == st.actions[i]);
            } else {
                assert(tr[i] == rest[i - st.actions.len()]);
            }
        }
        assert forall|i: int, j: int| 0 <= i < j < tr.len() implies !(preendorse_pos(
            #[trigger] tr[i],
        ) is Some && preendorse_pos(#[trigger] tr[j]) == preendorse_pos(tr[i])) by {
            if j < st.actions.len() {
                assert(tr[i] == st.actions[i]);
                assert(tr[j] == st.actions[j]);
            } else if i >= st.actions.len() {
                assert(tr[i] == rest[i - st.actions.len()]);
                assert(tr[j] == rest[j - st.actions.len()]);
            } else {
                assert(tr[i] == st.actions[i]);
                assert(tr[j] == rest[j - st.actions.len()]);
            }
        }
        assert forall|i: int, j: int| 0 <= i < j < tr.len() implies !(endorse_pos(#[trigger] tr[i])
            is Some && endorse_pos(#[trigger] tr[j]) == endorse_pos(tr[i])) by {
            if j < st.actions.len() {
                assert(tr[i] == st.actions[i]);
                assert(tr[j] == st.actions[j]);
            } else if i >= st.actions.len() {
                assert(tr[i] == rest[i - st.actions.len()]);
                assert(tr[j] == rest[j - st.actions.len()]);
            } else {
                assert(tr[i] == st.actions[i]);
                assert(tr[j] == rest[j - st.actions.len()]);
            }
        }
    }
}

/// The actions of a whole run: every event applied in order to the evolving
/// machine.
pub open spec fn run_actions(c: Config, slots: SlotsInfo, s: MachineV, events: Seq<EventV>) -> Seq<
    Action,
>
    decreases events.len(),
{
    if events.len() == 0 {
        Seq::empty()
    } else {
        let first = step(c, slots, s, events.first());
        first.actions + run_actions(c, slots, first.state, events.drop_first())
    }
}

/// The machine a whole run leaves behind: every event applied in order.
pub open spec fn run_state(c: Config, slots: SlotsInfo, s: MachineV, events: Seq<EventV>) -> MachineV
    decreases events.len(),
{
    if events.len() == 0 {
        s
    } else {
        run_state(c, slots, step(c, slots, s, events.first()).state, events.drop_first())
    }
}

/// The level never moves backwards.
pub proof fn lemma_level_monotone(c: Config, slots: SlotsInfo, s: MachineV, e: EventV)
    requires
        model_wf(s),
    ensures
        step(c, slots, s, e).state.level >= s.level,
{
}

/// Across a whole run of events, as long as the machine stays at its level,
/// the round of the locked payload never goes down.
pub proof fn lemma_locked_monotone_in_run(
    c: Config,
    slots: SlotsInfo,
    s: MachineV,
    events: Seq<EventV>,
)
    requires
        model_wf(s),
    ensures
        model_wf(run_state(c, slots, s, events)),
        run_state(c, slots, s, events).level >= s.level,
        ({
            let after = run_state(c, slots, s, events);
            after.level == s.level ==> (match s.locked {
                Some(l0) => after.locked matches Some(l1) && l1.round >= l0.round,
                None => true,
            })
        }),
    decreases events.len(),
{
    if events.len() > 0 {
        let e0 = events.first();
        let s1 = step(c, slots, s, e0).state;
        lemma_step_marks(c, slots, s, e0);
        lemma_level_monotone(c, slots, s, e0);
        lemma_locked_monotone(c, slots, s, e0);
        lemma_locked_monotone_in_run(c, slots, s1, events.drop_first());
    }
}

} // verus!

