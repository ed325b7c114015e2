//! Per-operation and per-block statistics of the monitoring side: how long a
//! consensus operation took to validate, when its hash and contents travelled
//! between nodes, and when the preendorsement quorum for a block was reached.
//!
//! All computations here are pure; the HTTP polling that feeds them lives
//! outside the library.

use vstd::prelude::*;

verus! {

/// Classification of a mempool operation.
#[derive(Debug, Clone, Copy, PartialEq, Eq, PartialOrd, Ord)]
pub enum OperationKind {
    Preendorsement,
    Endorsement,
    SeedNonceRevelation,
    DoubleEndorsement,
    DoubleBaking,
    Activation,
    Proposals,
    Ballot,
    EndorsementWithSlot,
    FailingNoop,
    Reveal,
    Transaction,
    Origination,
    Delegation,
    RegisterConstant,
    Unknown,
    Default,
}

impl Default for OperationKind {
    fn default() -> (r: Self)
        ensures
            r == OperationKind::Default,
    {
        OperationKind::Default
    }
}

/// Outcome of validating one operation.
#[derive(Debug, Clone, Copy, PartialEq, Eq)]
pub enum OperationValidationResult {
    Applied,
    Refused,
    BranchRefused,
    BranchDelayed,
    Prechecked,
    PrecheckRefused,
    Prevalidate,
    Default,
    Outdated,
}

/// Progress states of an endorsement as the node observed it.
#[derive(Debug, Clone, Copy, Hash, PartialEq, Eq, PartialOrd, Ord)]
pub enum EndorsementState {
    Missing,
    Broadcast,
    Applied,
    Prechecked,
    Decoded,
    Received,
    BranchDelayed,
}

/// When a peer first saw an operation relative to the current head.
#[derive(Debug, Clone, Copy, PartialEq, Eq)]
pub struct OperationNodeCurrentHeadStats {
    /// Latency from the first time we saw the operation.
    pub latency: i64,
    pub block_level: i32,
    pub block_timestamp: i64,
}

impl Default for OperationNodeCurrentHeadStats {
    fn default() -> (r: Self)
        ensures
            r.latency == 0 && r.block_level == 0 && r.block_timestamp == 0,
    {
        OperationNodeCurrentHeadStats { latency: 0, block_level: 0, block_timestamp: 0 }
    }
}

/// One validation attempt of an operation.
#[derive(Debug, Clone, Copy, PartialEq)]
pub struct OperationValidationStats {
    pub started: Option<i64>,
    pub finished: Option<i64>,
    pub preapply_started: Option<i64>,
    pub preapply_ended: Option<i64>,
    pub current_head_level: Option<i32>,
    pub result: Option<OperationValidationResult>,
}

/// What one peer reported about an operation: when the hash was received and
/// sent, and when the contents were requested and sent.
#[derive(Debug, Clone, PartialEq)]
pub struct OperationNodeStats {
    pub received: Vec<OperationNodeCurrentHeadStats>,
    pub sent: Vec<OperationNodeCurrentHeadStats>,
    pub content_requested: Vec<i64>,
    pub content_received: Vec<i64>,
    pub content_requested_remote: Vec<i64>,
    pub content_sent: Vec<i64>,
}

/// Everything the node recorded about a single operation, keyed by the peers
/// (by name) that mentioned it.
#[derive(Debug, Clone, PartialEq)]
pub struct OperationStats {
    pub kind: Option<OperationKind>,
    /// Minimum time when we saw this operation. Latencies are measured
    /// from this point.
    pub min_time: Option<u64>,
    pub first_block_timestamp: Option<u64>,
    pub validation_started: Option<i64>,
    /// (time_validation_finished, validation_result, prevalidation_duration)
    pub validation_result: Option<(i64, OperationValidationResult, Option<i64>, Option<i64>)>,
    pub validations: Vec<OperationValidationStats>,
    pub nodes: Vec<(String, OperationNodeStats)>,
    pub injected_timestamp: Option<u64>,
}

impl Default for OperationStats {
    fn default() -> (r: Self)
        ensures
            r.kind is None,
            r.min_time is None,
            r.first_block_timestamp is None,
            r.validation_started is None,
            r.validation_result is None,
            r.validations@.len() == 0,
            r.nodes@.len() == 0,
            r.injected_timestamp is None,
    {
        OperationStats {
            kind: None,
            min_time: None,
            first_block_timestamp: None,
            validation_started: None,
            validation_result: None,
            validations: Vec::new(),
            nodes: Vec::new(),
            injected_timestamp: None,
        }
    }
}

/// How many elements of `s` are strictly below `v`.
pub open spec fn count_below(s: Seq<i64>, v: int) -> int
    decreases s.len(),
{
    if s.len() == 0 {
        0
    } else {
        count_below(s.drop_last(), v) + if (s.last() as int) < v {
            1int
        } else {
            0int
        }
    }
}

/// How many elements of `s` are at or below `v`.
pub open spec fn count_at_or_below(s: Seq<i64>, v: int) -> int
    decreases s.len(),
{
    if s.len() == 0 {
        0
    } else {
        count_at_or_below(s.drop_last(), v) + if s.last() as int <= v {
            1int
        } else {
            0int
        }
    }
}

/// The latencies of a batch of per-head records, in order.
pub open spec fn latencies_of(s: Seq<OperationNodeCurrentHeadStats>) -> Seq<i64> {
    s.map_values(|e: OperationNodeCurrentHeadStats| e.latency)
}

/// Per-peer minimum of the `sent` latencies, skipping peers that sent nothing,
/// in peer order.
pub open spec fn sent_minima(s: Seq<(String, OperationNodeStats)>) -> Seq<i64>
    decreases s.len(),
{
    if s.len() == 0 {
        Seq::empty()
    } else {
        let rest = sent_minima(s.drop_last());
        let ns = s.last().1;
        if ns.sent@.len() == 0 {
            rest
        } else {
            rest.push(min_i64_of(latencies_of(ns.sent@)))
        }
    }
}

/// Per-peer minimum of the `received` latencies, skipping peers that received
/// nothing, in peer order.
pub open spec fn received_minima(s: Seq<(String, OperationNodeStats)>) -> Seq<i64>
    decreases s.len(),
{
    if s.len() == 0 {
        Seq::empty()
    } else {
        let rest = received_minima(s.drop_last());
        let ns = s.last().1;
        if ns.received@.len() == 0 {
            rest
        } else {
            rest.push(min_i64_of(latencies_of(ns.received@)))
        }
    }
}

/// Per-peer minimum of a plain latency list, one entry per peer with a
/// non-empty list, in peer order.
pub open spec fn plain_minima(
    s: Seq<(String, OperationNodeStats)>,
    pick: spec_fn(OperationNodeStats) -> Seq<i64>,
) -> Seq<i64>
    decreases s.len(),
{
    if s.len() == 0 {
        Seq::empty()
    } else {
        let rest = plain_minima(s.drop_last(), pick);
        let l = pick(s.last().1);
        if l.len() == 0 {
            rest
        } else {
            rest.push(min_i64_of(l))
        }
    }
}

/// Smallest element of a non-empty `i64` sequence, as an `i64`.
pub open spec fn min_i64_of(s: Seq<i64>) -> i64
    recommends
        s.len() > 0,
    decreases s.len(),
{
    if s.len() <= 1 {
        s[0]
    } else if s.last() < min_i64_of(s.drop_last()) {
        s.last()
    } else {
        min_i64_of(s.drop_last())
    }
}

/// Minimum of a non-empty `Vec<i64>`.
fn vec_min_i64(v: &Vec<i64>) -> (r: i64)
    requires
        v@.len() > 0,
    ensures
        r == min_i64_of(v@),
{
    let mut r: i64 = v[0];
    let mut i: usize = 1;
    while i < v.len()
        invariant
            1 <= i <= v@.len(),
            r == min_i64_of(v@.take(i as int)),
        decreases v@.len() - i,
    {
        proof {
            assert(v@.take(i + 1).drop_last() =~= v@.take(i as int));
            assert(v@.take(i + 1).last() == v@[i as int]);
        }
        if v[i] < r {
            r = v[i];
        }
        i = i + 1;
    }
    proof {
        assert(v@.take(v@.len() as int) =~= v@);
    }
    r
}

/// Counts are non-negative, ordered, and bounded by the length.
proof fn lemma_count_bounds(s: Seq<i64>, v: int)
    ensures
        0 <= count_below(s, v),
        count_below(s, v) <= count_at_or_below(s, v),
        count_at_or_below(s, v) <= s.len(),
    decreases s.len(),
{
    if s.len() > 0 {
        lemma_count_bounds(s.drop_last(), v);
    }
}

/// A larger bound can only see more elements below it.
proof fn lemma_count_below_mono(s: Seq<i64>, v: int, w: int)
    requires
        v <= w,
    ensures
        count_below(s, v) <= count_below(s, w),
    decreases s.len(),
{
    if s.len() > 0 {
        lemma_count_below_mono(s.drop_last(), v, w);
    }
}

/// Nothing is below a bound that every element reaches.
proof fn lemma_count_below_zero(s: Seq<i64>, v: int)
    requires
        forall|i: int| 0 <= i < s.len() ==> v <= #[trigger] s[i],
    ensures
        count_below(s, v) == 0,
    decreases s.len(),
{
    if s.len() > 0 {
        assert forall|i: int| 0 <= i < s.drop_last().len() implies v
            <= #[trigger] s.drop_last()[i] by {
            assert(s.drop_last()[i] == s[i]);
        }
        lemma_count_below_zero(s.drop_last(), v);
        assert(s.last() == s[s.len() - 1]);
    }
}

/// An element at or below the bound is counted.
proof fn lemma_count_at_or_below_contains(s: Seq<i64>, w: i64, v: int)
    requires
        s.contains(w),
        w <= v,
    ensures
        count_at_or_below(s, v) >= 1,
    decreases s.len(),
{
    lemma_count_bounds(s.drop_last(), v);
    if s.last() as int > v {
        let i = choose|i: int| 0 <= i < s.len() && s[i] == w;
        assert(s.drop_last()[i] == w);
        lemma_count_at_or_below_contains(s.drop_last(), w, v);
    }
}

/// `v` has the second-smallest rank in `s`: at most one element lies strictly
/// below it, and at least two lie at or below it.
pub open spec fn rank2(s: Seq<i64>, v: i64) -> bool {
    count_below(s, v as int) <= 1 && count_at_or_below(s, v as int) >= 2
}

/// Second-smallest element of `s`, counted with multiplicity; `None` when
/// there are fewer than two elements.
pub open spec fn second_i64_of(s: Seq<i64>) -> Option<i64> {
    if s.len() < 2 {
        None
    } else {
        Some(choose|v: i64| rank2(s, v))
    }
}

/// Elements at or below a lower bound are strictly below a higher one.
proof fn lemma_at_or_below_le_below(s: Seq<i64>, v: int, w: int)
    requires
        v < w,
    ensures
        count_at_or_below(s, v) <= count_below(s, w),
    decreases s.len(),
{
    if s.len() > 0 {
        lemma_at_or_below_le_below(s.drop_last(), v, w);
    }
}

/// At most one value has the second-smallest rank.
proof fn lemma_rank2_unique(s: Seq<i64>, v1: i64, v2: i64)
    requires
        rank2(s, v1),
        rank2(s, v2),
    ensures
        v1 == v2,
{
    if v1 < v2 {
        lemma_at_or_below_le_below(s, v1 as int, v2 as int);
    }
    if v2 < v1 {
        lemma_at_or_below_le_below(s, v2 as int, v1 as int);
    }
}

/// A value counted at-or-below but not below its own bound occurs in `s`.
proof fn lemma_count_diff_contains(s: Seq<i64>, v: i64)
    requires
        count_at_or_below(s, v as int) > count_below(s, v as int),
    ensures
        s.contains(v),
    decreases s.len(),
{
    if s.len() > 0 {
        if s.last() == v {
            assert(s[s.len() - 1] == v);
        } else {
            lemma_count_diff_contains(s.drop_last(), v);
            let i = choose|i: int| 0 <= i < s.drop_last().len() && s.drop_last()[i] == v;
            assert(s[i] == v);
        }
    }
}

/// Per-peer minimum of the sent-hash latencies of one peer.
fn min_latency(v: &Vec<OperationNodeCurrentHeadStats>) -> (r: i64)
    requires
        v@.len() > 0,
    ensures
        r == min_i64_of(latencies_of(v@)),
{
    let ghost lats = latencies_of(v@);
    let mut r: i64 = v[0].latency;
    let mut i: usize = 1;
    while i < v.len()
        invariant
            1 <= i <= v@.len(),
            lats == latencies_of(v@),
            lats.len() == v@.len(),
            forall|j: int| 0 <= j < v@.len() ==> #[trigger] lats[j] == v@[j].latency,
            r == min_i64_of(lats.take(i as int)),
        decreases v@.len() - i,
    {
        proof {
            assert(lats.take(i + 1).drop_last() =~= lats.take(i as int));
            assert(lats.take(i + 1).last() == lats[i as int]);
        }
        if v[i].latency < r {
            r = v[i].latency;
        }
        i = i + 1;
    }
    proof {
        assert(lats.take(lats.len() as int) =~= lats);
    }
    r
}

/// Second-smallest element (with multiplicity) of a sequence handed over as a
/// vector: `None` when there are fewer than two elements.
fn second_smallest(mins: &Vec<i64>) -> (r: Option<i64>)
    ensures
        r == second_i64_of(mins@),
{
    if mins.len() < 2 {
        return None;
    }
    let a = mins[0];
    let b = mins[1];
    let mut m1: i64 = if a <= b { a } else { b };
    let mut m2: i64 = if a <= b { b } else { a };
    let mut i: usize = 2;
    proof {
        let p = mins@.take(2);
        let d1 = p.drop_last();
        assert(d1.drop_last() =~= Seq::<i64>::empty());
        assert(count_below(d1.drop_last(), m2 as int) == 0);
        assert(count_at_or_below(d1.drop_last(), m2 as int) == 0);
        assert(d1.last() == mins@[0]);
        assert(p.last() == mins@[1]);
        assert(count_below(d1, m2 as int) <= 1);
        assert(count_below(p, m2 as int) <= 1);
        assert(count_at_or_below(d1, m2 as int) == 1);
        assert(count_at_or_below(p, m2 as int) == 2);
        assert(p[0] == mins@[0]);
        assert(p[1] == mins@[1]);
        assert(p.contains(m1));
    }
    while i < mins.len()
        invariant
            2 <= i <= mins@.len(),
            m1 <= m2,
            mins@.take(i as int).contains(m1),
            forall|j: int| 0 <= j < i ==> m1 <= #[trigger] mins@[j],
            count_below(mins@.take(i as int), m2 as int) <= 1,
            count_at_or_below(mins@.take(i as int), m2 as int) >= 2,
        decreases mins@.len() - i,
    {
        let ghost p = mins@.take(i as int);
        let ghost q = mins@.take(i + 1);
        proof {
            assert(q.drop_last() =~= p);
            assert(q.last() == mins@[i as int]);
            lemma_count_bounds(p, m2 as int);
        }
        let x = mins[i];
        if x < m1 {
            proof {
                assert forall|j: int| 0 <= j < p.len() implies m1 as int <= #[trigger] p[j] by {
                    assert(p[j] == mins@[j]);
                }
                lemma_count_below_zero(p, m1 as int);
                lemma_count_at_or_below_contains(p, m1, m1 as int);
                let k = choose|k: int| 0 <= k < p.len() && p[k] == m1;
                assert(q[k] == m1);
            }
            m2 = m1;
            m1 = x;
        } else if x < m2 {
            proof {
                lemma_count_below_mono(p, x as int, m2 as int);
                lemma_count_at_or_below_contains(p, m1, x as int);
                let k = choose|k: int| 0 <= k < p.len() && p[k] == m1;
                assert(q[k] == m1);
            }
            m2 = x;
        } else {
            proof {
                let k = choose|k: int| 0 <= k < p.len() && p[k] == m1;
                assert(q[k] == m1);
            }
        }
        i = i + 1;
    }
    proof {
        assert(mins@.take(mins@.len() as int) =~= mins@);
        assert(rank2(mins@, m2));
        assert(exists|v: i64| rank2(mins@, v));
        let c = choose|v: i64| rank2(mins@, v);
        assert(rank2(mins@, c));
        lemma_rank2_unique(mins@, c, m2);
    }
    Some(m2)
}

impl OperationStats {
    /// Specification of `validation_duration`.
    pub open spec fn spec_validation_duration(self) -> Option<i64> {
        match (self.validation_started, self.validation_result) {
            (Some(s), Some(t)) => Some((t.0 - s) as i64),
            _ => None,
        }
    }

    /// Specification of `validation_ended`.
    pub open spec fn spec_validation_ended(self) -> Option<i64> {
        match self.validation_result {
            Some(t) => Some(t.0),
            None => None,
        }
    }

    /// Specification of `first_sent`.
    pub open spec fn spec_first_sent(self) -> Option<i64> {
        if sent_minima(self.nodes@).len() == 0 {
            None
        } else {
            Some(min_i64_of(sent_minima(self.nodes@)))
        }
    }

    /// Specification of `second_received`.
    pub open spec fn spec_second_received(self) -> Option<i64> {
        second_i64_of(received_minima(self.nodes@))
    }

    /// Specification of `first_content_requested_remote`.
    pub open spec fn spec_first_content_requested_remote(self) -> Option<i64> {
        let minima = plain_minima(
            self.nodes@,
            |ns: OperationNodeStats| ns.content_requested_remote@,
        );
        if minima.len() == 0 {
            None
        } else {
            Some(min_i64_of(minima))
        }
    }

    /// Specification of `first_content_sent`.
    pub open spec fn spec_first_content_sent(self) -> Option<i64> {
        let minima = plain_minima(self.nodes@, |ns: OperationNodeStats| ns.content_sent@);
        if minima.len() == 0 {
            None
        } else {
            Some(min_i64_of(minima))
        }
    }

    /// How many peers reported this operation.
    pub fn _node_count(&self) -> (r: usize)
        ensures
            r == self.nodes@.len(),
    {
        self.nodes.len()
    }

    /// Whether the operation was injected through this node's RPC.
    pub fn _is_injected(&self) -> (r: bool)
        ensures
            r == self.injected_timestamp is Some,
    {
        self.injected_timestamp.is_some()
    }

    /// Time from validation start to validation end, when both are known.
    pub fn validation_duration(&self) -> (r: Option<i64>)
        requires
            self.validation_started matches Some(s) ==> -0x2000_0000_0000_0000 <= s
                <= 0x2000_0000_0000_0000,
            self.validation_result matches Some(t) ==> -0x2000_0000_0000_0000 <= t.0
                <= 0x2000_0000_0000_0000,
        ensures
            r == self.spec_validation_duration(),
    {
        match (self.validation_started, self.validation_result) {
            (Some(s), Some(t)) => Some(t.0 - s),
            _ => None,
        }
    }

    /// Time at which validation finished, if it did.
    pub fn validation_ended(&self) -> (r: Option<i64>)
        ensures
            r == self.spec_validation_ended(),
    {
        match self.validation_result {
            Some(t) => Some(t.0),
            None => None,
        }
    }

    /// Earliest moment any peer saw this operation's hash from us: the least of
    /// the per-peer minima of the `sent` latencies.
    pub fn first_sent(&self) -> (r: Option<i64>)
        ensures
            r == self.spec_first_sent(),
    {
        let mut mins: Vec<i64> = Vec::new();
        let mut i: usize = 0;
        while i < self.nodes.len()
            invariant
                0 <= i <= self.nodes@.len(),
                mins@ == sent_minima(self.nodes@.take(i as int)),
            decreases self.nodes@.len() - i,
        {
            proof {
                assert(self.nodes@.take(i + 1).drop_last() =~= self.nodes@.take(i as int));
                assert(self.nodes@.take(i + 1).last() == self.nodes@[i as int]);
            }
            if self.nodes[i].1.sent.len() > 0 {
                let m = min_latency(&self.nodes[i].1.sent);
                mins.push(m);
            }
            i = i + 1;
        }
        proof {
            assert(self.nodes@.take(self.nodes@.len() as int) =~= self.nodes@);
        }
        if mins.len() == 0 {
            None
        } else {
            Some(vec_min_i64(&mins))
        }
    }

    /// Second-earliest moment a peer handed the operation's hash back to us:
    /// the second smallest of the per-peer minima of the `received` latencies.
    pub fn second_received(&self) -> (r: Option<i64>)
        ensures
            r == self.spec_second_received(),
    {
        let mut mins: Vec<i64> = Vec::new();
        let mut i: usize = 0;
        while i < self.nodes.len()
            invariant
                0 <= i <= self.nodes@.len(),
                mins@ == received_minima(self.nodes@.take(i as int)),
            decreases self.nodes@.len() - i,
        {
            proof {
                assert(self.nodes@.take(i + 1).drop_last() =~= self.nodes@.take(i as int));
                assert(self.nodes@.take(i + 1).last() == self.nodes@[i as int]);
            }
            if self.nodes[i].1.received.len() > 0 {
                let m = min_latency(&self.nodes[i].1.received);
                mins.push(m);
            }
            i = i + 1;
        }
        proof {
            assert(self.nodes@.take(self.nodes@.len() as int) =~= self.nodes@);
        }
        second_smallest(&mins)
    }

    /// Earliest moment a remote peer asked us for the operation's contents.
    pub fn first_content_requested_remote(&self) -> (r: Option<i64>)
        ensures
            r == self.spec_first_content_requested_remote(),
    {
        let ghost pick = |ns: OperationNodeStats| ns.content_requested_remote@;
        let mut mins: Vec<i64> = Vec::new();
        let mut i: usize = 0;
        while i < self.nodes.len()
            invariant
                0 <= i <= self.nodes@.len(),
                pick == (|ns: OperationNodeStats| ns.content_requested_remote@),
                mins@ == plain_minima(self.nodes@.take(i as int), pick),
            decreases self.nodes@.len() - i,
        {
            proof {
                assert(self.nodes@.take(i + 1).drop_last() =~= self.nodes@.take(i as int));
                assert(self.nodes@.take(i + 1).last() == self.nodes@[i as int]);
            }
            if self.nodes[i].1.content_requested_remote.len() > 0 {
                let m = vec_min_i64(&self.nodes[i].1.content_requested_remote);
                mins.push(m);
            }
            i = i + 1;
        }
        proof {
            assert(self.nodes@.take(self.nodes@.len() as int) =~= self.nodes@);
        }
        if mins.len() == 0 {
            None
        } else {
            Some(vec_min_i64(&mins))
        }
    }

    /// Earliest moment we handed the operation's contents to a peer.
    pub fn first_content_sent(&self) -> (r: Option<i64>)
        ensures
            r == self.spec_first_content_sent(),
    {
        let ghost pick = |ns: OperationNodeStats| ns.content_sent@;
        let mut mins: Vec<i64> = Vec::new();
        let mut i: usize = 0;
        while i < self.nodes.len()
            invariant
                0 <= i <= self.nodes@.len(),
                pick == (|ns: OperationNodeStats| ns.content_sent@),
                mins@ == plain_minima(self.nodes@.take(i as int), pick),
            decreases self.nodes@.len() - i,
        {
            proof {
                assert(self.nodes@.take(i + 1).drop_last() =~= self.nodes@.take(i as int));
                assert(self.nodes@.take(i + 1).last() == self.nodes@[i as int]);
            }
            if self.nodes[i].1.content_sent.len() > 0 {
                let m = vec_min_i64(&self.nodes[i].1.content_sent);
                mins.push(m);
            }
            i = i + 1;
        }
        proof {
            assert(self.nodes@.take(self.nodes@.len() as int) =~= self.nodes@);
        }
        if mins.len() == 0 {
            None
        } else {
            Some(vec_min_i64(&mins))
        }
    }
}

/// Errors of the statistics side. The network and parse failures are carried
/// as plain text; they arise outside the library.
#[derive(Debug, Clone, PartialEq)]
pub enum StatisticMonitorError {
    StorageError { reason: String },
    NodeRpcError { reason: String },
    OtherError { reason: String },
    ParseTimestamp { reason: String },
}

/// Value at a key of an association list; the latest entry wins.
pub open spec fn assoc_get<V>(s: Seq<(i64, V)>, key: int) -> Option<V>
    decreases s.len(),
{
    if s.len() == 0 {
        None
    } else if s.last().0 as int == key {
        Some(s.last().1)
    } else {
        assoc_get(s.drop_last(), key)
    }
}

/// A shared map from keys to summaries. Entries are only ever inserted or
/// overwritten; a later insertion at the same key shadows the earlier one.
#[derive(Debug, Clone)]
pub struct LockedBTreeMap<V> {
    entries: Vec<(i64, V)>,
}

impl<V> LockedBTreeMap<V> {
    /// What the map holds at `key`.
    pub closed spec fn map_get(self, key: int) -> Option<V> {
        assoc_get(self.entries@, key)
    }

    /// An empty map.
    pub fn new() -> (r: Self)
        ensures
            forall|k: int| #[trigger] r.map_get(k) is None,
    {
        LockedBTreeMap { entries: Vec::new() }
    }

    /// Bind `key` to `value`, shadowing any earlier binding.
    pub fn insert(&mut self, key: i64, value: V) -> (r: Result<(), StatisticMonitorError>)
        ensures
            r is Ok,
            final(self).map_get(key as int) == Some(value),
            forall|k: int|
                k != key as int ==> #[trigger] final(self).map_get(k) == old(self).map_get(k),
    {
        self.entries.push((key, value));
        proof {
            assert(self.entries@.last() == (key, value));
            assert forall|k: int|
                k != key as int implies #[trigger] self.map_get(k) == old(self).map_get(k) by {
                assert(self.entries@.drop_last() =~= old(self).entries@);
            }
            assert(self.entries@.drop_last() =~= old(self).entries@);
        }
        Ok(())
    }

    /// Look `key` up.
    pub fn get(&self, key: i64) -> (r: Result<Option<&V>, StatisticMonitorError>)
        ensures
            r matches Ok(o) && (match o {
                Some(v) => self.map_get(key as int) == Some(*v),
                None => self.map_get(key as int) is None,
            }),
    {
        let mut i: usize = self.entries.len();
        proof {
            assert(self.entries@.take(self.entries@.len() as int) =~= self.entries@);
        }
        while i > 0
            invariant
                0 <= i <= self.entries@.len(),
                assoc_get(self.entries@, key as int) == assoc_get(
                    self.entries@.take(i as int),
                    key as int,
                ),
            decreases i,
        {
            i = i - 1;
            proof {
                assert(self.entries@.take(i + 1).drop_last() =~= self.entries@.take(i as int));
                assert(self.entries@.take(i + 1).last() == self.entries@[i as int]);
            }
            if self.entries[i].0 == key {
                return Ok(Some(&self.entries[i].1));
            }
        }
        Ok(None)
    }
}

/// What recording one watched outcome means for the reporting side.
#[derive(Debug, Clone, Copy, PartialEq, Eq)]
pub enum FailureOutcome {
    /// A success with no failures on record: nothing to say.
    NoChange,
    /// A success after this many recorded failures: report the recovery.
    Recovered(u64),
    /// A failure that is to be reported.
    ReportFailure,
    /// A repeated failure that stays quiet.
    SilentFailure,
}

/// Running failure counts of watched subjects, and the reporting decisions
/// they imply: the first failure is reported (every one, when asked), a
/// success after failures reports the recovery and clears the count.
#[derive(Debug, Clone)]
pub struct FailureTally {
    entries: Vec<(i64, u64)>,
}

impl FailureTally {
    /// The failures on record for a subject.
    pub closed spec fn count_of(self, id: i64) -> int {
        match assoc_get(self.entries@, id as int) {
            Some(n) => n as int,
            None => 0,
        }
    }

    /// A tally with nothing on record.
    pub fn new() -> (r: Self)
        ensures
            forall|id: i64| #[trigger] r.count_of(id) == 0,
    {
        FailureTally { entries: Vec::new() }
    }

    /// The failures on record for a subject.
    pub fn count(&self, id: i64) -> (r: u64)
        ensures
            r as int == self.count_of(id),
    {
        let mut i: usize = self.entries.len();
        proof {
            assert(self.entries@.take(self.entries@.len() as int) =~= self.entries@);
        }
        while i > 0
            invariant
                0 <= i <= self.entries@.len(),
                assoc_get(self.entries@, id as int) == assoc_get(
                    self.entries@.take(i as int),
                    id as int,
                ),
            decreases i,
        {
            i = i - 1;
            proof {
                assert(self.entries@.take(i + 1).drop_last() =~= self.entries@.take(i as int));
                assert(self.entries@.take(i + 1).last() == self.entries@[i as int]);
            }
            if self.entries[i].0 == id {
                return self.entries[i].1;
            }
        }
        0
    }

    /// Record one outcome for a subject and say what to report: a failure is
    /// reported when it is the first on record (or always, when
    /// `each_failure` asks for it); a success after failures reports the
    /// recovery with the count it ends and clears it.
    pub fn record(&mut self, id: i64, ok: bool, each_failure: bool) -> (r: FailureOutcome)
        ensures
            forall|other: i64|
                other != id ==> #[trigger] final(self).count_of(other) == old(self).count_of(
                    other,
                ),
            ok ==> final(self).count_of(id) == 0 && r == (if old(self).count_of(id) > 0 {
                FailureOutcome::Recovered(old(self).count_of(id) as u64)
            } else {
                FailureOutcome::NoChange
            }),
            !ok ==> final(self).count_of(id) == (if old(self).count_of(id) + 1 > u64::MAX {
                u64::MAX as int
            } else {
                old(self).count_of(id) + 1
            }) && r == (
            if each_failure || old(self).count_of(id) == 0 {
                FailureOutcome::ReportFailure
            } else {
                FailureOutcome::SilentFailure
            }),
    {
        let before = self.count(id);
        let after: u64 = if ok {
            0
        } else {
            before.saturating_add(1)
        };
        self.entries.push((id, after));
        proof {
            assert(self.entries@.last() == (id, after));
            assert(self.entries@.drop_last() =~= old(self).entries@);
            assert forall|other: i64|
                other != id implies #[trigger] self.count_of(other) == old(self).count_of(
                other,
            ) by {
                assert(assoc_get(self.entries@, other as int) == assoc_get(
                    old(self).entries@,
                    other as int,
                ));
            }
        }
        if ok {
            if before > 0 {
                FailureOutcome::Recovered(before)
            } else {
                FailureOutcome::NoChange
            }
        } else {
            if each_failure || before == 0 {
                FailureOutcome::ReportFailure
            } else {
                FailureOutcome::SilentFailure
            }
        }
    }
}

/// The consensus constants the statistics side needs.
#[derive(Debug, Clone, Copy, PartialEq, Eq)]
pub struct NetworkConstants {
    pub consensus_committee_size: u64,
    pub consensus_threshold: u64,
}

/// Progress of one (pre)endorsement as the node observed it.
#[derive(Debug, Clone, PartialEq)]
pub struct EndorsementStatus {
    pub decoded_time: Option<u64>,
    pub applied_time: Option<u64>,
    pub branch_delayed_time: Option<u64>,
    pub prechecked_time: Option<u64>,
    pub broadcast_time: Option<u64>,
    pub received_contents_time: Option<u64>,
    pub received_hash_time: Option<u64>,
    pub slot: u16,
    pub state: String,
    pub broadcast: bool,
}

/// One delegate's rights at a level.
#[derive(Debug, Clone, PartialEq)]
pub struct DelegateEndorsingRights {
    pub delegate: String,
    pub first_slot: u16,
    pub endorsing_power: u16,
}

impl DelegateEndorsingRights {
    /// The delegate's canonical slot.
    pub fn get_first_slot(&self) -> (r: u16)
        ensures
            r == self.first_slot,
    {
        self.first_slot
    }
}

/// Endorsing rights of a level: one entry per delegate.
#[derive(Debug, Clone, PartialEq)]
pub struct EndorsingRights {
    pub level: i32,
    pub delegates: Vec<DelegateEndorsingRights>,
}

/// The endorsing power attached to a slot, if any delegate holds it as its
/// first slot.
pub open spec fn spec_power_of_slot(s: Seq<DelegateEndorsingRights>, slot: u16) -> Option<u16>
    decreases s.len(),
{
    if s.len() == 0 {
        None
    } else if s.first().first_slot == slot {
        Some(s.first().endorsing_power)
    } else {
        spec_power_of_slot(s.drop_first(), slot)
    }
}

impl EndorsingRights {
    /// Power of the delegate whose first slot is `slot`: the first match wins.
    pub fn power_of_slot(&self, slot: u16) -> (r: Option<u16>)
        ensures
            r == spec_power_of_slot(self.delegates@, slot),
    {
        let mut i: usize = 0;
        proof {
            assert(self.delegates@.skip(0) =~= self.delegates@);
        }
        while i < self.delegates.len()
            invariant
                0 <= i <= self.delegates@.len(),
                spec_power_of_slot(self.delegates@, slot) == spec_power_of_slot(
                    self.delegates@.skip(i as int),
                    slot,
                ),
            decreases self.delegates@.len() - i,
        {
            proof {
                assert(self.delegates@.skip(i as int).first() == self.delegates@[i as int]);
                assert(self.delegates@.skip(i as int).drop_first() =~= self.delegates@.skip(i + 1));
            }
            if self.delegates[i].first_slot == slot {
                return Some(self.delegates[i].endorsing_power);
            }
            i = i + 1;
        }
        proof {
            assert(self.delegates@.skip(self.delegates@.len() as int) =~= Seq::<
                DelegateEndorsingRights,
            >::empty());
        }
        None
    }
}

/// The block a round of summaries speaks about.
#[derive(Debug, Clone, PartialEq)]
pub struct RoundSummary {
    pub block_hash: String,
    pub block_level: i32,
    pub block_round: i32,
    pub block_payload_hash: String,
}

impl RoundSummary {
    pub fn new(block_hash: &str, block_level: i32, block_round: i32, block_payload_hash: &str) -> (r:
        Self)
        ensures
            r.block_hash@ == block_hash@,
            r.block_level == block_level,
            r.block_round == block_round,
            r.block_payload_hash@ == block_payload_hash@,
    {
        RoundSummary {
            block_hash: block_hash.to_owned(),
            block_level,
            block_round,
            block_payload_hash: block_payload_hash.to_owned(),
        }
    }
}

/// Timings of one block's application on this node.
#[derive(Debug, Clone, PartialEq)]
pub struct BlockApplicationStatistics {
    pub block_hash: String,
    pub block_timestamp: u64,
    pub receive_timestamp: i64,
    pub baker: Option<String>,
    pub baker_priority: Option<u16>,
    pub download_block_header_start: Option<u64>,
    pub download_block_header_end: Option<u64>,
    pub download_block_operations_start: Option<u64>,
    pub download_block_operations_end: Option<u64>,
    pub load_data_start: Option<u64>,
    pub load_data_end: Option<u64>,
    pub precheck_start: Option<u64>,
    pub precheck_end: Option<u64>,
    pub apply_block_start: Option<u64>,
    pub apply_block_end: Option<u64>,
    pub store_result_start: Option<u64>,
    pub store_result_end: Option<u64>,
    pub send_start: Option<u64>,
    pub send_end: Option<u64>,
    pub protocol_times: Option<BlockApplicationProtocolStatistics>,
    pub injected: Option<u64>,
    pub round: i32,
    pub payload_hash: String,
}

/// Magnitude within which all timestamps and latencies are expected to stay;
/// differences of two such values always fit an `i64`.
pub open spec fn bounded_i64(x: int) -> bool {
    -0x2000_0000_0000_0000 <= x <= 0x2000_0000_0000_0000
}

impl OperationStats {
    /// All timing quantities of these statistics are within machine range, so
    /// that the summaries below can subtract them.
    pub open spec fn bounded(self) -> bool {
        &&& (self.validation_started matches Some(s) ==> bounded_i64(s as int))
        &&& (self.validation_result matches Some(t) ==> bounded_i64(t.0 as int))
        &&& (self.injected_timestamp matches Some(t) ==> t as int <= 0x2000_0000_0000_0000)
        &&& (self.spec_first_sent() matches Some(v) ==> bounded_i64(v as int))
        &&& (self.spec_second_received() matches Some(v) ==> bounded_i64(v as int))
        &&& (self.spec_first_content_requested_remote() matches Some(v) ==> bounded_i64(v as int))
        &&& (self.spec_first_content_sent() matches Some(v) ==> bounded_i64(v as int))
    }
}

impl BlockApplicationStatistics {
    /// All timing quantities of these statistics are within machine range.
    pub open spec fn bounded(self) -> bool {
        &&& bounded_i64(self.receive_timestamp as int)
        &&& self.block_timestamp as int <= 0x2000_0000_0000_0000
        &&& (self.apply_block_start matches Some(s) ==> s as int <= 0x2000_0000_0000_0000)
        &&& (self.apply_block_end matches Some(e) ==> e as int <= 0x2000_0000_0000_0000)
        &&& (match (self.apply_block_start, self.apply_block_end) {
            (Some(s), Some(e)) => s <= e,
            _ => true,
        })
    }
}

/// How long after the current head's own timestamp the block arrived here.
pub open spec fn spec_block_received(
    head_nanos: i128,
    block: Option<BlockApplicationStatistics>,
) -> Option<i64> {
    match block {
        Some(s) => Some((s.receive_timestamp - head_nanos) as i64),
        None => None,
    }
}

/// How long applying the block took.
pub open spec fn spec_block_application(block: Option<BlockApplicationStatistics>) -> Option<i64> {
    match block {
        Some(s) => match (s.apply_block_end, s.apply_block_start) {
            (Some(e), Some(st)) => Some((e - st) as i64),
            _ => None,
        },
        None => None,
    }
}

/// How long after the block's arrival the vote was injected.
pub open spec fn spec_injected_after_block(
    op: Option<OperationStats>,
    block: Option<BlockApplicationStatistics>,
) -> Option<i64> {
    match op {
        Some(o) => match (o.injected_timestamp, block) {
            (Some(t), Some(s)) => Some((t - s.receive_timestamp) as i64),
            _ => None,
        },
        None => None,
    }
}

/// How long after a reference time the vote was injected.
pub open spec fn spec_injected_after(op: Option<OperationStats>, reference: Option<i64>) -> Option<
    i64,
> {
    match reference {
        Some(q) => match op {
            Some(o) => match o.injected_timestamp {
                Some(t) => Some((t - q) as i64),
                None => None,
            },
            None => None,
        },
        None => None,
    }
}

/// Validation time of the vote, when known.
pub open spec fn spec_validated(op: Option<OperationStats>) -> Option<i64> {
    match op {
        Some(o) => o.spec_validation_duration(),
        None => None,
    }
}

/// Delay between validation end and the first time the hash went out.
pub open spec fn spec_hash_sent(op: Option<OperationStats>) -> Option<i64> {
    match op {
        Some(o) => match (o.spec_first_sent(), o.spec_validation_ended()) {
            (Some(sent), Some(vend)) => Some((sent - vend) as i64),
            _ => None,
        },
        None => None,
    }
}

/// Delay between sending the hash and the first remote request for contents.
pub open spec fn spec_requested(op: Option<OperationStats>) -> Option<i64> {
    match op {
        Some(o) => match (o.spec_first_content_requested_remote(), o.spec_first_sent()) {
            (Some(req), Some(sent)) => Some((req - sent) as i64),
            _ => None,
        },
        None => None,
    }
}

/// Delay between the remote request and sending the contents.
pub open spec fn spec_contents_sent(op: Option<OperationStats>) -> Option<i64> {
    match op {
        Some(o) => match (o.spec_first_content_sent(), o.spec_first_content_requested_remote()) {
            (Some(cs), Some(req)) => Some((cs - req) as i64),
            _ => None,
        },
        None => None,
    }
}

/// Delay between sending the contents and hearing the hash back a second time.
pub open spec fn spec_hash_received_back(op: Option<OperationStats>) -> Option<i64> {
    match op {
        Some(o) => match (o.spec_second_received(), o.spec_first_content_sent()) {
            (Some(rec), Some(cs)) => Some((rec - cs) as i64),
            _ => None,
        },
        None => None,
    }
}

/// Timings the protocol reported while applying a block.
#[derive(Debug, Clone, Copy, PartialEq)]
pub struct BlockApplicationProtocolStatistics {
    pub apply_start: u64,
    pub operations_decoding_start: u64,
    pub operations_decoding_end: u64,
    pub operations_metadata_encoding_start: u64,
    pub operations_metadata_encoding_end: u64,
    pub begin_application_start: u64,
    pub begin_application_end: u64,
    pub finalize_block_start: u64,
    pub finalize_block_end: u64,
    pub collect_new_rolls_owner_snapshots_start: u64,
    pub collect_new_rolls_owner_snapshots_end: u64,
    pub commit_start: u64,
    pub commit_end: u64,
    pub apply_end: u64,
}

/// Lexicographic order on (applied time, power) pairs; the order in which the
/// quorum computation walks the votes.
pub open spec fn pair_le(a: (u64, u16), b: (u64, u16)) -> bool {
    a.0 < b.0 || (a.0 == b.0 && a.1 <= b.1)
}

/// The pair order as a value, for `sort_by`.
pub open spec fn pair_order() -> spec_fn((u64, u16), (u64, u16)) -> bool {
    |a: (u64, u16), b: (u64, u16)| pair_le(a, b)
}

proof fn lemma_pair_order_total()
    ensures
        vstd::relations::total_ordering(pair_order()),
{
    let r = pair_order();
    assert forall|a: (u64, u16)| #[trigger] r(a, a) by {}
}

/// Relies on itertools' `Itertools::sorted`: the items of the vector in
/// ascending order, a permutation of the input.
#[verifier::external_body]
fn sorted_pairs(v: Vec<(u64, u16)>) -> (r: Vec<(u64, u16)>)
    ensures
        r@.to_multiset() == v@.to_multiset(),
        vstd::relations::sorted_by(r@, pair_order()),
{
    itertools::Itertools::sorted(v.into_iter()).collect()
}

/// The (applied time, power) pairs of the applied statuses whose slot carries
/// endorsing power, in status order.
pub open spec fn applied_pairs(s: Seq<(String, EndorsementStatus)>, rights: EndorsingRights) -> Seq<
    (u64, u16),
>
    decreases s.len(),
{
    if s.len() == 0 {
        Seq::empty()
    } else {
        let rest = applied_pairs(s.drop_last(), rights);
        let st = s.last().1;
        match (st.applied_time, spec_power_of_slot(rights.delegates@, st.slot)) {
            (Some(t), Some(p)) => if st.state@ == "applied"@ {
                rest.push((t, p))
            } else {
                rest
            },
            _ => rest,
        }
    }
}

/// Walk the sorted votes, accumulating power; the reported time stops moving
/// once the accumulated power reaches the threshold. Returns the accumulated
/// power (saturating) and the reported time.
pub open spec fn quorum_fold(pairs: Seq<(u64, u16)>, threshold: u64) -> (int, int)
    recommends
        pairs.len() > 0,
    decreases pairs.len(),
{
    if pairs.len() <= 1 {
        (pairs[0].1 as int, pairs[0].0 as int)
    } else {
        let prev = quorum_fold(pairs.drop_last(), threshold);
        let a = if prev.0 + pairs.last().1 > u64::MAX {
            u64::MAX as int
        } else {
            prev.0 + pairs.last().1
        };
        (a, if a < threshold {
            pairs.last().0 as int
        } else {
            prev.1
        })
    }
}

/// When the preendorsement quorum was reached: fold the applied votes in
/// ascending time order.
pub open spec fn spec_quorum_timestamp(
    statuses: Seq<(String, EndorsementStatus)>,
    rights: Option<EndorsingRights>,
    threshold: u64,
) -> Option<i64> {
    match rights {
        Some(r) => {
            let sorted = applied_pairs(statuses, r).sort_by(pair_order());
            if sorted.len() == 0 {
                None
            } else {
                Some(quorum_fold(sorted, threshold).1 as i64)
            }
        },
        None => None,
    }
}

/// The time the fold reports is the time of one of the votes.
proof fn lemma_quorum_fold_time_in(pairs: Seq<(u64, u16)>, threshold: u64)
    requires
        pairs.len() > 0,
    ensures
        exists|i: int| 0 <= i < pairs.len() && quorum_fold(pairs, threshold).1 == #[trigger] (
        pairs[i].0) as int,
    decreases pairs.len(),
{
    if pairs.len() <= 1 {
        assert(quorum_fold(pairs, threshold).1 == pairs[0].0 as int);
    } else {
        lemma_quorum_fold_time_in(pairs.drop_last(), threshold);
        let prev = quorum_fold(pairs.drop_last(), threshold);
        if quorum_fold(pairs, threshold).1 == pairs.last().0 as int {
            assert(quorum_fold(pairs, threshold).1 == pairs[pairs.len() - 1].0 as int);
        } else {
            let i = choose|i: int|
                0 <= i < pairs.drop_last().len() && prev.1 == #[trigger] (pairs.drop_last()[i].0)
                    as int;
            assert(pairs[i].0 == pairs.drop_last()[i].0);
        }
    }
}

/// Every pair an applied-pairs walk yields is bounded when the statuses are.
proof fn lemma_applied_pairs_bounded(s: Seq<(String, EndorsementStatus)>, rights: EndorsingRights)
    requires
        forall|i: int|
            0 <= i < s.len() ==> (#[trigger] s[i].1.applied_time matches Some(t) ==> t as int
                <= 0x2000_0000_0000_0000),
    ensures
        forall|j: int|
            0 <= j < applied_pairs(s, rights).len() ==> #[trigger] (
            applied_pairs(s, rights)[j].0) as int <= 0x2000_0000_0000_0000,
    decreases s.len(),
{
    if s.len() > 0 {
        assert forall|i: int|
            0 <= i < s.drop_last().len() implies (#[trigger] s.drop_last()[i].1.applied_time
            matches Some(t) ==> t as int <= 0x2000_0000_0000_0000) by {
            assert(s.drop_last()[i] == s[i]);
        }
        lemma_applied_pairs_bounded(s.drop_last(), rights);
        assert(s.last() == s[s.len() - 1]);
        let ap = applied_pairs(s, rights);
        let rest = applied_pairs(s.drop_last(), rights);
        assert forall|j: int| 0 <= j < ap.len() implies #[trigger] (ap[j].0) as int
            <= 0x2000_0000_0000_0000 by {
            if j < rest.len() {
                assert((rest[j].0) as int <= 0x2000_0000_0000_0000);
            }
        }
    }
}

/// When the quorum was reached for a round, as the statistics tell it.
#[derive(Debug, Clone, PartialEq)]
pub struct PreendorsementQuorumSummary {
    pub round_summary: RoundSummary,
    pub preendorsement_quorum_timestamp: Option<i64>,
    pub preendorsement_quorum_reached: Option<i64>,
}

impl PreendorsementQuorumSummary {
    pub fn new(
        round_summary: RoundSummary,
        statuses: Vec<(String, EndorsementStatus)>,
        endorsing_rights: Option<EndorsingRights>,
        block_application_stats: Option<BlockApplicationStatistics>,
        threshold: u64,
    ) -> (r: Self)
        requires
            forall|i: int|
                0 <= i < statuses@.len() ==> (#[trigger] statuses@[i].1.applied_time matches Some(t)
                    ==> t as int <= 0x2000_0000_0000_0000),
            block_application_stats matches Some(b) ==> b.bounded(),
        ensures
            r.round_summary == round_summary,
            r.preendorsement_quorum_timestamp == spec_quorum_timestamp(
                statuses@,
                endorsing_rights,
                threshold,
            ),
            r.preendorsement_quorum_reached == (match (
                spec_quorum_timestamp(statuses@, endorsing_rights, threshold),
                block_application_stats,
            ) {
                (Some(q), Some(b)) => Some((q - b.block_timestamp) as i64),
                _ => None,
            }),
    {
        let preendorsement_quorum_timestamp: Option<i64> = match &endorsing_rights {
            None => None,
            Some(rights) => {
                let applied: String = "applied".to_owned();
                let mut pairs: Vec<(u64, u16)> = Vec::new();
                let mut i: usize = 0;
                while i < statuses.len()
                    invariant
                        0 <= i <= statuses@.len(),
                        pairs@ == applied_pairs(statuses@.take(i as int), *rights),
                        applied@ == "applied"@,
                        forall|j: int|
                            0 <= j < pairs@.len() ==> #[trigger] (pairs@[j].0) as int
                                <= 0x2000_0000_0000_0000,
                        forall|k: int|
                            0 <= k < statuses@.len() ==> (#[trigger] statuses@[k].1.applied_time
                                matches Some(t) ==> t as int <= 0x2000_0000_0000_0000),
                    decreases statuses@.len() - i,
                {
                    proof {
                        assert(statuses@.take(i + 1).drop_last() =~= statuses@.take(i as int));
                        assert(statuses@.take(i + 1).last() == statuses@[i as int]);
                    }
                    let st = &statuses[i].1;
                    match (st.applied_time, rights.power_of_slot(st.slot)) {
                        (Some(t), Some(p)) => {
                            if st.state == applied {
                                pairs.push((t, p));
                            }
                        },
                        _ => {},
                    }
                    i = i + 1;
                }
                proof {
                    assert(statuses@.take(statuses@.len() as int) =~= statuses@);
                }
                let sorted = sorted_pairs(pairs);
                proof {
                    lemma_pair_order_total();
                    pairs@.lemma_sort_by_ensures(pair_order());
                    vstd::seq_lib::lemma_sorted_unique(
                        sorted@,
                        pairs@.sort_by(pair_order()),
                        pair_order(),
                    );
                    assert(sorted@ == pairs@.sort_by(pair_order()));
                }
                if sorted.len() == 0 {
                    None
                } else {
                    let mut acc: u64 = sorted[0].1 as u64;
                    let mut time: u64 = sorted[0].0;
                    let mut i: usize = 1;
                    proof {
                        assert(sorted@.take(1)[0] == sorted@[0]);
                    }
                    while i < sorted.len()
                        invariant
                            1 <= i <= sorted@.len(),
                            acc as int == quorum_fold(sorted@.take(i as int), threshold).0,
                            time as int == quorum_fold(sorted@.take(i as int), threshold).1,
                        decreases sorted@.len() - i,
                    {
                        proof {
                            assert(sorted@.take(i + 1).drop_last() =~= sorted@.take(i as int));
                            assert(sorted@.take(i + 1).last() == sorted@[i as int]);
                        }
                        acc = acc.saturating_add(sorted[i].1 as u64);
                        if acc < threshold {
                            time = sorted[i].0;
                        }
                        i = i + 1;
                    }
                    proof {
                        assert(sorted@.take(sorted@.len() as int) =~= sorted@);
                        lemma_quorum_fold_time_in(sorted@, threshold);
                        lemma_applied_pairs_bounded(statuses@, *rights);
                        let k = choose|k: int|
                            0 <= k < sorted@.len() && quorum_fold(sorted@, threshold).1
                                == #[trigger] (sorted@[k].0) as int;
                        assert(sorted@.contains(sorted@[k]));
                        assert(pairs@.contains(sorted@[k]));
                        let j = choose|j: int| 0 <= j < pairs@.len() && pairs@[j] == sorted@[k];
                        assert((pairs@[j].0) as int <= 0x2000_0000_0000_0000);
                    }
                    Some(time as i64)
                }
            },
        };
        let preendorsement_quorum_reached: Option<i64> = match (
            preendorsement_quorum_timestamp,
            &block_application_stats,
        ) {
            (Some(q), Some(b)) => Some(q - b.block_timestamp as i64),
            _ => None,
        };
        PreendorsementQuorumSummary {
            round_summary,
            preendorsement_quorum_timestamp,
            preendorsement_quorum_reached,
        }
    }
}

/// Everything the monitor learnt about one level's endorsement work.
#[derive(Debug, Clone, PartialEq)]
pub struct FinalEndorsementSummary {
    pub preendorsement_operation_summary: Option<PreendorsementOperationSummary>,
    pub preendorsement_quorum_summary: Option<PreendorsementQuorumSummary>,
    pub endorsement_operations_summary: Option<EndorsementOperationSummary>,
}

impl FinalEndorsementSummary {
    pub fn new(
        preendorsement_operation_summary: Option<PreendorsementOperationSummary>,
        preendorsement_quorum_summary: Option<PreendorsementQuorumSummary>,
        endorsement_operations_summary: Option<EndorsementOperationSummary>,
    ) -> (r: Self)
        ensures
            r.preendorsement_operation_summary == preendorsement_operation_summary,
            r.preendorsement_quorum_summary == preendorsement_quorum_summary,
            r.endorsement_operations_summary == endorsement_operations_summary,
    {
        FinalEndorsementSummary {
            preendorsement_operation_summary,
            preendorsement_quorum_summary,
            endorsement_operations_summary,
        }
    }
}

/// Travel times of our own preendorsement for one block.
#[derive(Debug, Clone, PartialEq)]
pub struct PreendorsementOperationSummary {
    pub round_summary: RoundSummary,
    pub block_application: Option<i64>,
    pub block_received: Option<i64>,
    pub preendorsement_injected: Option<i64>,
    pub preendorsement_validated: Option<i64>,
    pub preendorsement_operation_hash_sent: Option<i64>,
    pub preendorsement_operation_requested: Option<i64>,
    pub preendorsement_operation_sent: Option<i64>,
    pub preendorsement_operation_hash_received_back: Option<i64>,
}

impl PreendorsementOperationSummary {
    pub fn new(
        round_summary: RoundSummary,
        current_head_timestamp_nanos: i128,
        preendorsement_op_stats: Option<OperationStats>,
        block_stats: Option<BlockApplicationStatistics>,
    ) -> (r: Self)
        requires
            bounded_i64(current_head_timestamp_nanos as int),
            block_stats matches Some(b) ==> b.bounded(),
            preendorsement_op_stats matches Some(o) ==> o.bounded(),
        ensures
            r.round_summary == round_summary,
            r.block_received == spec_block_received(current_head_timestamp_nanos, block_stats),
            r.block_application == spec_block_application(block_stats),
            r.preendorsement_injected == spec_injected_after_block(
                preendorsement_op_stats,
                block_stats,
            ),
            r.preendorsement_validated == spec_validated(preendorsement_op_stats),
            r.preendorsement_operation_hash_sent == spec_hash_sent(preendorsement_op_stats),
            r.preendorsement_operation_requested == spec_requested(preendorsement_op_stats),
            r.preendorsement_operation_sent == spec_contents_sent(preendorsement_op_stats),
            r.preendorsement_operation_hash_received_back == spec_hash_received_back(
                preendorsement_op_stats,
            ),
    {
        let block_received: Option<i64> = match &block_stats {
            Some(s) => Some((s.receive_timestamp as i128 - current_head_timestamp_nanos) as i64),
            None => None,
        };
        let block_application: Option<i64> = match &block_stats {
            Some(s) => match (s.apply_block_end, s.apply_block_start) {
                (Some(e), Some(st)) => Some((e - st) as i64),
                _ => None,
            },
            None => None,
        };
        let preendorsement_injected: Option<i64> = match &preendorsement_op_stats {
            Some(o) => match (o.injected_timestamp, &block_stats) {
                (Some(t), Some(s)) => Some(t as i64 - s.receive_timestamp),
                _ => None,
            },
            None => None,
        };
        let preendorsement_validated: Option<i64> = match &preendorsement_op_stats {
            Some(o) => o.validation_duration(),
            None => None,
        };
        let preendorsement_operation_hash_sent: Option<i64> = match &preendorsement_op_stats {
            Some(o) => match (o.first_sent(), o.validation_ended()) {
                (Some(sent), Some(vend)) => Some(sent - vend),
                _ => None,
            },
            None => None,
        };
        let preendorsement_operation_requested: Option<i64> = match &preendorsement_op_stats {
            Some(o) => match (o.first_content_requested_remote(), o.first_sent()) {
                (Some(req), Some(sent)) => Some(req - sent),
                _ => None,
            },
            None => None,
        };
        let preendorsement_operation_sent: Option<i64> = match &preendorsement_op_stats {
            Some(o) => match (o.first_content_sent(), o.first_content_requested_remote()) {
                (Some(cs), Some(req)) => Some(cs - req),
                _ => None,
            },
            None => None,
        };
        let preendorsement_operation_hash_received_back: Option<i64> = match
            &preendorsement_op_stats {
            Some(o) => match (o.second_received(), o.first_content_sent()) {
                (Some(rec), Some(cs)) => Some(rec - cs),
                _ => None,
            },
            None => None,
        };
        PreendorsementOperationSummary {
            round_summary,
            block_received,
            block_application,
            preendorsement_injected,
            preendorsement_validated,
            preendorsement_operation_hash_sent,
            preendorsement_operation_requested,
            preendorsement_operation_sent,
            preendorsement_operation_hash_received_back,
        }
    }
}

/// Travel times of our own endorsement for one block.
#[derive(Debug, Clone, PartialEq)]
pub struct EndorsementOperationSummary {
    pub round_summary: RoundSummary,
    pub block_application: Option<i64>,
    pub block_received: Option<i64>,
    pub endorsement_injected: Option<i64>,
    pub endorsement_validated: Option<i64>,
    pub endorsement_operation_hash_sent: Option<i64>,
    pub endorsement_operation_requested: Option<i64>,
    pub endorsement_operation_sent: Option<i64>,
    pub endorsement_operation_hash_received_back: Option<i64>,
}

impl EndorsementOperationSummary {
    pub fn new(
        round_summary: RoundSummary,
        current_head_timestamp_nanos: i128,
        endorsement_op_stat: Option<OperationStats>,
        block_stats: Option<BlockApplicationStatistics>,
        preendorsement_quorum_time: Option<i64>,
    ) -> (r: Self)
        requires
            bounded_i64(current_head_timestamp_nanos as int),
            block_stats matches Some(b) ==> b.bounded(),
            endorsement_op_stat matches Some(o) ==> o.bounded(),
            preendorsement_quorum_time matches Some(q) ==> bounded_i64(q as int),
        ensures
            r.round_summary == round_summary,
            r.block_received == spec_block_received(current_head_timestamp_nanos, block_stats),
            r.block_application == spec_block_application(block_stats),
            r.endorsement_injected == spec_injected_after(
                endorsement_op_stat,
                preendorsement_quorum_time,
            ),
            r.endorsement_validated == spec_validated(endorsement_op_stat),
            r.endorsement_operation_hash_sent == spec_hash_sent(endorsement_op_stat),
            r.endorsement_operation_requested == spec_requested(endorsement_op_stat),
            r.endorsement_operation_sent == spec_contents_sent(endorsement_op_stat),
            r.endorsement_operation_hash_received_back == spec_hash_received_back(
                endorsement_op_stat,
            ),
    {
        let block_received: Option<i64> = match &block_stats {
            Some(s) => Some((s.receive_timestamp as i128 - current_head_timestamp_nanos) as i64),
            None => None,
        };
        let block_application: Option<i64> = match &block_stats {
            Some(s) => match (s.apply_block_end, s.apply_block_start) {
                (Some(e), Some(st)) => Some((e - st) as i64),
                _ => None,
            },
            None => None,
        };
        let endorsement_injected: Option<i64> = match preendorsement_quorum_time {
            Some(q) => match &endorsement_op_stat {
                Some(o) => match o.injected_timestamp {
                    Some(t) => Some(t as i64 - q),
                    None => None,
                },
                None => None,
            },
            None => None,
        };
        let endorsement_validated: Option<i64> = match &endorsement_op_stat {
            Some(o) => o.validation_duration(),
            None => None,
        };
        let endorsement_operation_hash_sent: Option<i64> = match &endorsement_op_stat {
            Some(o) => match (o.first_sent(), o.validation_ended()) {
                (Some(sent), Some(vend)) => Some(sent - vend),
                _ => None,
            },
            None => None,
        };
        let endorsement_operation_requested: Option<i64> = match &endorsement_op_stat {
            Some(o) => match (o.first_content_requested_remote(), o.first_sent()) {
                (Some(req), Some(sent)) => Some(req - sent),
                _ => None,
            },
            None => None,
        };
        let endorsement_operation_sent: Option<i64> = match &endorsement_op_stat {
            Some(o) => match (o.first_content_sent(), o.first_content_requested_remote()) {
                (Some(cs), Some(req)) => Some(cs - req),
                _ => None,
            },
            None => None,
        };
        let endorsement_operation_hash_received_back: Option<i64> = match &endorsement_op_stat {
            Some(o) => match (o.second_received(), o.first_content_sent()) {
                (Some(rec), Some(cs)) => Some(rec - cs),
                _ => None,
            },
            None => None,
        };
        EndorsementOperationSummary {
            round_summary,
            block_received,
            block_application,
            endorsement_injected,
            endorsement_validated,
            endorsement_operation_hash_sent,
            endorsement_operation_requested,
            endorsement_operation_sent,
            endorsement_operation_hash_received_back,
        }
    }
}

} // verus!
