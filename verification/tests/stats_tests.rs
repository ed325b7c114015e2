use baker::stats::{
    BlockApplicationStatistics, DelegateEndorsingRights, EndorsementOperationSummary,
    EndorsementStatus, EndorsingRights, FailureOutcome, FailureTally, FinalEndorsementSummary,
    LockedBTreeMap, OperationNodeCurrentHeadStats, OperationNodeStats, OperationStats,
    PreendorsementOperationSummary, PreendorsementQuorumSummary, RoundSummary,
};

fn node_stats_with_received(latencies: &[i64]) -> OperationNodeStats {
    OperationNodeStats {
        received: latencies
            .iter()
            .map(|l| OperationNodeCurrentHeadStats {
                latency: *l,
                block_level: 1,
                block_timestamp: 0,
            })
            .collect(),
        sent: vec![],
        content_requested: vec![],
        content_received: vec![],
        content_requested_remote: vec![],
        content_sent: vec![],
    }
}

#[test]
fn test_operation_stats_second_received() {
    let stats = OperationStats {
        nodes: vec![
            (String::from("1"), node_stats_with_received(&[100])),
            (String::from("2"), node_stats_with_received(&[150])),
            (String::from("3"), node_stats_with_received(&[300])),
        ],
        ..Default::default()
    };

    let second_received = stats.second_received();
    assert_eq!(second_received, Some(150));

    let stats = OperationStats {
        nodes: vec![(String::from("1"), node_stats_with_received(&[100]))],
        ..Default::default()
    };

    let second_received = stats.second_received();
    assert_eq!(second_received, None);
}

#[test]
fn test_quorum_reached() {}

#[test]
fn second_received_takes_per_node_minimum_first() {
    let stats = OperationStats {
        nodes: vec![
            (String::from("a"), node_stats_with_received(&[500, 10])),
            (String::from("b"), node_stats_with_received(&[20])),
            (String::from("c"), node_stats_with_received(&[])),
        ],
        ..Default::default()
    };
    // Per-node minima are 10 and 20; the empty node does not count.
    assert_eq!(stats.second_received(), Some(20));
}

#[test]
fn first_sent_is_global_minimum() {
    let mut a = node_stats_with_received(&[]);
    a.sent = vec![
        OperationNodeCurrentHeadStats { latency: 42, block_level: 1, block_timestamp: 0 },
        OperationNodeCurrentHeadStats { latency: 17, block_level: 1, block_timestamp: 0 },
    ];
    let mut b = node_stats_with_received(&[]);
    b.sent = vec![OperationNodeCurrentHeadStats { latency: 29, block_level: 1, block_timestamp: 0 }];
    let stats = OperationStats {
        nodes: vec![(String::from("a"), a), (String::from("b"), b)],
        ..Default::default()
    };
    assert_eq!(stats.first_sent(), Some(17));

    let empty = OperationStats::default();
    assert_eq!(empty.first_sent(), None);
}

#[test]
fn content_timings_pick_minima() {
    let mut a = node_stats_with_received(&[]);
    a.content_requested_remote = vec![9, 5];
    a.content_sent = vec![30];
    let mut b = node_stats_with_received(&[]);
    b.content_requested_remote = vec![7];
    b.content_sent = vec![12, 40];
    let stats = OperationStats {
        nodes: vec![(String::from("a"), a), (String::from("b"), b)],
        ..Default::default()
    };
    assert_eq!(stats.first_content_requested_remote(), Some(5));
    assert_eq!(stats.first_content_sent(), Some(12));
}

#[test]
fn validation_timings() {
    let stats = OperationStats {
        validation_started: Some(100),
        validation_result: Some((250, baker::stats::OperationValidationResult::Applied, None, None)),
        ..Default::default()
    };
    assert_eq!(stats.validation_duration(), Some(150));
    assert_eq!(stats.validation_ended(), Some(250));
    assert!(!stats._is_injected());
    assert_eq!(stats._node_count(), 0);

    let unfinished = OperationStats { validation_started: Some(5), ..Default::default() };
    assert_eq!(unfinished.validation_duration(), None);
    assert_eq!(unfinished.validation_ended(), None);
}

#[test]
fn locked_map_inserts_and_gets() {
    let mut map: LockedBTreeMap<String> = LockedBTreeMap::new();
    assert_eq!(map.get(1).unwrap(), None);
    map.insert(1, String::from("one")).unwrap();
    map.insert(2, String::from("two")).unwrap();
    map.insert(1, String::from("uno")).unwrap();
    assert_eq!(map.get(1).unwrap(), Some(&String::from("uno")));
    assert_eq!(map.get(2).unwrap(), Some(&String::from("two")));
    assert_eq!(map.get(3).unwrap(), None);
}

#[test]
fn failure_tally_reports_first_and_recovery() {
    let mut tally = FailureTally::new();
    assert_eq!(tally.record(1, true, false), FailureOutcome::NoChange);
    assert_eq!(tally.record(1, false, false), FailureOutcome::ReportFailure);
    assert_eq!(tally.record(1, false, false), FailureOutcome::SilentFailure);
    assert_eq!(tally.record(1, false, true), FailureOutcome::ReportFailure);
    assert_eq!(tally.count(1), 3);
    assert_eq!(tally.count(2), 0);
    assert_eq!(tally.record(2, false, false), FailureOutcome::ReportFailure);
    assert_eq!(tally.record(1, true, false), FailureOutcome::Recovered(3));
    assert_eq!(tally.count(1), 0);
    assert_eq!(tally.count(2), 1);
}

fn applied_status(slot: u16, applied_time: Option<u64>) -> EndorsementStatus {
    EndorsementStatus {
        decoded_time: None,
        applied_time,
        branch_delayed_time: None,
        prechecked_time: None,
        broadcast_time: None,
        received_contents_time: None,
        received_hash_time: None,
        slot,
        state: String::from("applied"),
        broadcast: false,
    }
}

#[test]
fn quorum_timestamp_stops_at_threshold() {
    let rights = EndorsingRights {
        level: 1,
        delegates: vec![
            DelegateEndorsingRights {
                delegate: String::from("d0"),
                first_slot: 0,
                endorsing_power: 3,
            },
            DelegateEndorsingRights {
                delegate: String::from("d1"),
                first_slot: 1,
                endorsing_power: 3,
            },
            DelegateEndorsingRights {
                delegate: String::from("d2"),
                first_slot: 2,
                endorsing_power: 3,
            },
        ],
    };
    let statuses = vec![
        (String::from("op0"), applied_status(0, Some(100))),
        (String::from("op1"), applied_status(1, Some(50))),
        (String::from("op2"), applied_status(2, Some(200))),
    ];
    let round = RoundSummary::new("blk", 1, 0, "ph");
    // Sorted by time: (50,3) then (100,3) then (200,3). With threshold 6 the
    // accumulator reaches it on the second vote, so the reported time is the
    // first vote's 50.
    let summary = PreendorsementQuorumSummary::new(
        round.clone(),
        statuses.clone(),
        Some(rights.clone()),
        None,
        6,
    );
    assert_eq!(summary.preendorsement_quorum_timestamp, Some(50));
    assert_eq!(summary.preendorsement_quorum_reached, None);

    // With an unreachable threshold the time keeps following the last vote.
    let summary = PreendorsementQuorumSummary::new(round.clone(), statuses, Some(rights), None, 100);
    assert_eq!(summary.preendorsement_quorum_timestamp, Some(200));

    // Without rights there is no quorum to speak of.
    let summary = PreendorsementQuorumSummary::new(round, vec![], None, None, 6);
    assert_eq!(summary.preendorsement_quorum_timestamp, None);
}

#[test]
fn quorum_reached_is_relative_to_block_timestamp() {
    let rights = EndorsingRights {
        level: 1,
        delegates: vec![DelegateEndorsingRights {
            delegate: String::from("d0"),
            first_slot: 0,
            endorsing_power: 5,
        }],
    };
    let statuses = vec![(String::from("op0"), applied_status(0, Some(130)))];
    let block = BlockApplicationStatistics {
        block_hash: String::from("blk"),
        block_timestamp: 100,
        receive_timestamp: 0,
        baker: None,
        baker_priority: None,
        download_block_header_start: None,
        download_block_header_end: None,
        download_block_operations_start: None,
        download_block_operations_end: None,
        load_data_start: None,
        load_data_end: None,
        precheck_start: None,
        precheck_end: None,
        apply_block_start: Some(10),
        apply_block_end: Some(25),
        store_result_start: None,
        store_result_end: None,
        send_start: None,
        send_end: None,
        protocol_times: None,
        injected: None,
        round: 0,
        payload_hash: String::from("ph"),
    };
    let round = RoundSummary::new("blk", 1, 0, "ph");
    let summary =
        PreendorsementQuorumSummary::new(round, statuses, Some(rights), Some(block), 5);
    assert_eq!(summary.preendorsement_quorum_timestamp, Some(130));
    assert_eq!(summary.preendorsement_quorum_reached, Some(30));
}

#[test]
fn operation_summaries_compute_deltas() {
    let block = BlockApplicationStatistics {
        block_hash: String::from("blk"),
        block_timestamp: 0,
        receive_timestamp: 1_000,
        baker: None,
        baker_priority: None,
        download_block_header_start: None,
        download_block_header_end: None,
        download_block_operations_start: None,
        download_block_operations_end: None,
        load_data_start: None,
        load_data_end: None,
        precheck_start: None,
        precheck_end: None,
        apply_block_start: Some(10),
        apply_block_end: Some(35),
        store_result_start: None,
        store_result_end: None,
        send_start: None,
        send_end: None,
        protocol_times: None,
        injected: None,
        round: 0,
        payload_hash: String::from("ph"),
    };
    let op = OperationStats { injected_timestamp: Some(1_500), ..Default::default() };
    let round = RoundSummary::new("blk", 1, 0, "ph");

    let pre = PreendorsementOperationSummary::new(
        round.clone(),
        400,
        Some(op.clone()),
        Some(block.clone()),
    );
    assert_eq!(pre.block_received, Some(600));
    assert_eq!(pre.block_application, Some(25));
    assert_eq!(pre.preendorsement_injected, Some(500));
    assert_eq!(pre.preendorsement_validated, None);

    let end = EndorsementOperationSummary::new(
        round.clone(),
        400,
        Some(op),
        Some(block),
        Some(1_200),
    );
    assert_eq!(end.block_received, Some(600));
    assert_eq!(end.block_application, Some(25));
    assert_eq!(end.endorsement_injected, Some(300));

    let all = FinalEndorsementSummary::new(Some(pre.clone()), None, Some(end.clone()));
    assert_eq!(all.preendorsement_operation_summary, Some(pre));
    assert_eq!(all.preendorsement_quorum_summary, None);
    assert_eq!(all.endorsement_operations_summary, Some(end));
}
