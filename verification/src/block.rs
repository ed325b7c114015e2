//! Assembling the block we propose: the payload buckets, the four operation
//! sublists, and the finalized payload hash.

use vstd::prelude::*;
use crate::codec::u32_bits_of_i32;
use crate::machine::{BlockPayload, PayloadItemKind, ProposalPlan, Prequorum, Quorum, Vote, VoteV};
use crate::hashes::{blake2b_of, derive_payload_hash, list_hash_of, operation_list_hash,
    payload_hash_preimage};
use crate::stats::OperationKind;

verus! {

/// The raw operations a tally carries, in tally order.
pub open spec fn vote_ops(votes: Seq<VoteV>) -> Seq<Seq<u8>> {
    votes.map_values(|v: VoteV| v.op)
}

/// Push copies of the operations a tally carries.
fn push_vote_ops(out: &mut Vec<Vec<u8>>, votes: &Vec<Vote>)
    ensures
        final(out)@.map_values(|op: Vec<u8>| op@) == old(out)@.map_values(|op: Vec<u8>| op@)
            + vote_ops(votes@.map_values(|v: Vote| v@)),
{
    let ghost base = out@.map_values(|op: Vec<u8>| op@);
    let mut i: usize = 0;
    while i < votes.len()
        invariant
            0 <= i <= votes@.len(),
            base == old(out)@.map_values(|op: Vec<u8>| op@),
            out@.len() == old(out)@.len() + i,
            out@.map_values(|op: Vec<u8>| op@) == base + vote_ops(
                votes@.map_values(|v: Vote| v@),
            ).take(i as int),
        decreases votes@.len() - i,
    {
        let mut op: Vec<u8> = Vec::new();
        let src = &votes[i].op;
        let mut j: usize = 0;
        while j < src.len()
            invariant
                0 <= j <= src@.len(),
                op@ == src@.take(j as int),
            decreases src@.len() - j,
        {
            op.push(src[j]);
            proof {
                assert(op@ =~= src@.take(j + 1));
            }
            j = j + 1;
        }
        proof {
            assert(src@.take(src@.len() as int) =~= src@);
        }
        let ghost opv = op@;
        out.push(op);
        proof {
            let all = vote_ops(votes@.map_values(|v: Vote| v@));
            assert(votes@.map_values(|v: Vote| v@)[i as int] == votes@[i as int]@);
            assert(all[i as int] == votes@[i as int].op@);
            assert(opv == all[i as int]);
            assert(all.take(i + 1) =~= all.take(i as int).push(all[i as int]));
            assert(out@.map_values(|op2: Vec<u8>| op2@) =~= (base + all.take(i as int)).push(opv));
            assert((base + all.take(i as int)).push(opv) =~= base + all.take(i + 1));
        }
        i = i + 1;
    }
    proof {
        let all = vote_ops(votes@.map_values(|v: Vote| v@));
        assert(all.take(all.len() as int) =~= all);
    }
}

/// The four operation sublists of a block we assemble: the consensus votes
/// (the quorum's endorsements, then the prequorum's preendorsements), the
/// voting operations, the anonymous operations, and the manager operations.
pub fn block_operations(
    quorum: &Option<Quorum>,
    prequorum: &Option<Prequorum>,
    payload: &BlockPayload,
) -> (r: (Vec<Vec<u8>>, Vec<Vec<u8>>, Vec<Vec<u8>>, Vec<Vec<u8>>))
    ensures
        r.0@.map_values(|op: Vec<u8>| op@) == (match *quorum {
            Some(q) => vote_ops(q@.votes),
            None => Seq::<Seq<u8>>::empty(),
        }) + (match *prequorum {
            Some(pq) => vote_ops(pq@.votes),
            None => Seq::<Seq<u8>>::empty(),
        }),
        r.1@.map_values(|op: Vec<u8>| op@) == payload@.votes_payload,
        r.2@.map_values(|op: Vec<u8>| op@) == payload@.anonymous_payload,
        r.3@.map_values(|op: Vec<u8>| op@) == payload@.managers_payload,
{
    let mut consensus: Vec<Vec<u8>> = Vec::new();
    match quorum {
        Some(q) => push_vote_ops(&mut consensus, &q.votes),
        None => (),
    }
    match prequorum {
        Some(pq) => push_vote_ops(&mut consensus, &pq.votes),
        None => (),
    }
    let mut votes_ops: Vec<Vec<u8>> = Vec::new();
    push_ops(&mut votes_ops, &payload.votes_payload);
    let mut anonymous_ops: Vec<Vec<u8>> = Vec::new();
    push_ops(&mut anonymous_ops, &payload.anonymous_payload);
    let mut managers_ops: Vec<Vec<u8>> = Vec::new();
    push_ops(&mut managers_ops, &payload.managers_payload);
    proof {
        assert(consensus@.map_values(|op: Vec<u8>| op@) =~= (match *quorum {
            Some(q) => vote_ops(q@.votes),
            None => Seq::<Seq<u8>>::empty(),
        }) + (match *prequorum {
            Some(pq) => vote_ops(pq@.votes),
            None => Seq::<Seq<u8>>::empty(),
        }));
    }
    (consensus, votes_ops, anonymous_ops, managers_ops)
}

/// Push copies of a bucket's operations.
fn push_ops(out: &mut Vec<Vec<u8>>, ops: &Vec<Vec<u8>>)
    ensures
        final(out)@.map_values(|op: Vec<u8>| op@) == old(out)@.map_values(|op: Vec<u8>| op@)
            + ops@.map_values(|op: Vec<u8>| op@),
{
    let ghost base = out@.map_values(|op: Vec<u8>| op@);
    let mut i: usize = 0;
    while i < ops.len()
        invariant
            0 <= i <= ops@.len(),
            base == old(out)@.map_values(|op: Vec<u8>| op@),
            out@.len() == old(out)@.len() + i,
            out@.map_values(|op: Vec<u8>| op@) == base + ops@.map_values(
                |op: Vec<u8>| op@,
            ).take(i as int),
        decreases ops@.len() - i,
    {
        let mut op: Vec<u8> = Vec::new();
        let src = &ops[i];
        let mut j: usize = 0;
        while j < src.len()
            invariant
                0 <= j <= src@.len(),
                op@ == src@.take(j as int),
            decreases src@.len() - j,
        {
            op.push(src[j]);
            proof {
                assert(op@ =~= src@.take(j + 1));
            }
            j = j + 1;
        }
        proof {
            assert(src@.take(src@.len() as int) =~= src@);
        }
        let ghost opv = op@;
        out.push(op);
        proof {
            let all = ops@.map_values(|op2: Vec<u8>| op2@);
            assert(all[i as int] == ops@[i as int]@);
            assert(opv == all[i as int]);
            assert(all.take(i + 1) =~= all.take(i as int).push(all[i as int]));
            assert(out@.map_values(|op2: Vec<u8>| op2@) =~= (base + all.take(i as int)).push(opv));
            assert((base + all.take(i as int)).push(opv) =~= base + all.take(i + 1));
        }
        i = i + 1;
    }
    proof {
        let all = ops@.map_values(|op: Vec<u8>| op@);
        assert(all.take(all.len() as int) =~= all);
    }
}

impl BlockPayload {
    /// File an operation into its bucket, keeping insertion order.
    pub fn update(&mut self, kind: PayloadItemKind, op: Vec<u8>)
        ensures
            match kind {
                PayloadItemKind::Votes => final(self)@.votes_payload == old(
                    self,
                )@.votes_payload.push(op@) && final(self)@.anonymous_payload == old(
                    self,
                )@.anonymous_payload && final(self)@.managers_payload == old(
                    self,
                )@.managers_payload,
                PayloadItemKind::Anonymous => final(self)@.anonymous_payload == old(
                    self,
                )@.anonymous_payload.push(op@) && final(self)@.votes_payload == old(
                    self,
                )@.votes_payload && final(self)@.managers_payload == old(self)@.managers_payload,
                PayloadItemKind::Managers => final(self)@.managers_payload == old(
                    self,
                )@.managers_payload.push(op@) && final(self)@.votes_payload == old(
                    self,
                )@.votes_payload && final(self)@.anonymous_payload == old(
                    self,
                )@.anonymous_payload,
            },
    {
        let ghost opv = op@;
        match kind {
            PayloadItemKind::Votes => {
                self.votes_payload.push(op);
                proof {
                    assert(self.votes_payload@.map_values(|x: Vec<u8>| x@) =~= old(
                        self,
                    )@.votes_payload.push(opv));
                }
            },
            PayloadItemKind::Anonymous => {
                self.anonymous_payload.push(op);
                proof {
                    assert(self.anonymous_payload@.map_values(|x: Vec<u8>| x@) =~= old(
                        self,
                    )@.anonymous_payload.push(opv));
                }
            },
            PayloadItemKind::Managers => {
                self.managers_payload.push(op);
                proof {
                    assert(self.managers_payload@.map_values(|x: Vec<u8>| x@) =~= old(
                        self,
                    )@.managers_payload.push(opv));
                }
            },
        }
    }

    /// The commitment over the four buckets: consensus votes first, then the
    /// voting, anonymous and manager operations, in their stored order.
    pub fn operation_list_hash(&self, consensus_ops: &Vec<Vec<u8>>) -> (r: [u8; 32])
        ensures
            r@ == list_hash_of(
                consensus_ops@.map_values(|op: Vec<u8>| op@) + self@.votes_payload
                    + self@.anonymous_payload + self@.managers_payload,
            ),
    {
        let mut all: Vec<Vec<u8>> = Vec::new();
        push_ops(&mut all, consensus_ops);
        push_ops(&mut all, &self.votes_payload);
        push_ops(&mut all, &self.anonymous_payload);
        push_ops(&mut all, &self.managers_payload);
        proof {
            assert(all@.map_values(|op: Vec<u8>| op@) =~= consensus_ops@.map_values(
                |op: Vec<u8>| op@,
            ) + self@.votes_payload + self@.anonymous_payload + self@.managers_payload);
        }
        operation_list_hash(&all)
    }
}

/// The payload hash a plan's block finally carries: the planned hash when the
/// plan fixes one, and otherwise — the self-proposed case — the digest of the
/// predecessor hash, the payload round, and the operation-list hash of the
/// block's operations.
pub fn finalize_payload_hash(plan: &ProposalPlan, op_list_hash: &[u8; 32]) -> (r: [u8; 32])
    requires
        plan.payload_round >= 0,
    ensures
        r@ == (match plan.payload_hash {
            Some(h) => h@,
            None => blake2b_of(
                payload_hash_preimage(
                    plan.pred_hash@,
                    plan.payload_round as u32,
                    op_list_hash@,
                ),
            ),
        }),
{
    match &plan.payload_hash {
        Some(h) => *h,
        None => derive_payload_hash(&plan.pred_hash, plan.payload_round as u32, op_list_hash),
    }
}

/// Whether a block at this level owes a seed-nonce commitment: one is due
/// on every level that sits at a whole number of commitment periods, the
/// level read as the protocol's unsigned cycle position.
pub fn commitment_due(level: i32, blocks_per_commitment: u32) -> (r: bool)
    requires
        blocks_per_commitment > 0,
    ensures
        r == (u32_bits_of_i32(level) % (blocks_per_commitment as int) == 0),
{
    let bits: u32 = if level >= 0 {
        level as u32
    } else {
        ((level as i64) + 0x1_0000_0000i64) as u32
    };
    proof {
        assert(bits as int == u32_bits_of_i32(level));
    }
    bits % blocks_per_commitment == 0
}

/// The bucket a classified mempool operation belongs to; consensus votes and
/// unclassified operations carry no bucket.
pub open spec fn spec_payload_bucket(kind: OperationKind) -> Option<PayloadItemKind> {
    match kind {
        OperationKind::Proposals => Some(PayloadItemKind::Votes),
        OperationKind::Ballot => Some(PayloadItemKind::Votes),
        OperationKind::SeedNonceRevelation => Some(PayloadItemKind::Anonymous),
        OperationKind::DoubleEndorsement => Some(PayloadItemKind::Anonymous),
        OperationKind::DoubleBaking => Some(PayloadItemKind::Anonymous),
        OperationKind::Activation => Some(PayloadItemKind::Anonymous),
        OperationKind::FailingNoop => Some(PayloadItemKind::Anonymous),
        OperationKind::Reveal => Some(PayloadItemKind::Managers),
        OperationKind::Transaction => Some(PayloadItemKind::Managers),
        OperationKind::Origination => Some(PayloadItemKind::Managers),
        OperationKind::Delegation => Some(PayloadItemKind::Managers),
        OperationKind::RegisterConstant => Some(PayloadItemKind::Managers),
        _ => None,
    }
}

/// The bucket a classified mempool operation belongs to.
pub fn payload_bucket(kind: OperationKind) -> (r: Option<PayloadItemKind>)
    ensures
        r == spec_payload_bucket(kind),
{
    match kind {
        OperationKind::Proposals => Some(PayloadItemKind::Votes),
        OperationKind::Ballot => Some(PayloadItemKind::Votes),
        OperationKind::SeedNonceRevelation => Some(PayloadItemKind::Anonymous),
        OperationKind::DoubleEndorsement => Some(PayloadItemKind::Anonymous),
        OperationKind::DoubleBaking => Some(PayloadItemKind::Anonymous),
        OperationKind::Activation => Some(PayloadItemKind::Anonymous),
        OperationKind::FailingNoop => Some(PayloadItemKind::Anonymous),
        OperationKind::Reveal => Some(PayloadItemKind::Managers),
        OperationKind::Transaction => Some(PayloadItemKind::Managers),
        OperationKind::Origination => Some(PayloadItemKind::Managers),
        OperationKind::Delegation => Some(PayloadItemKind::Managers),
        OperationKind::RegisterConstant => Some(PayloadItemKind::Managers),
        _ => None,
    }
}

} // verus!
