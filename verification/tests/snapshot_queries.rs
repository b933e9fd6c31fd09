use api_public::api::MassaPublic;
use api_public::api::API;
use api_public::error::ApiError;
use api_public::ident::Address;
use api_public::ident::BlockId;
use api_public::ident::Digest;
use api_public::model::Block;
use api_public::model::BlockHeader;
use api_public::model::Clique;
use api_public::model::FinalBlock;
use api_public::model::PeerSample;
use api_public::model::TimeConfig;
use api_public::slot::time_of;
use api_public::slot::Slot;
use api_public::snapshot::GraphSnapshot;

fn id(n: u128) -> BlockId {
    BlockId { digest: Digest { hi: 0, lo: n } }
}

fn clock() -> TimeConfig {
    TimeConfig { genesis_time: 1000, slot_duration: 10, thread_count: 2 }
}

fn block(n: u128, period: u64, thread: u8, is_final: bool) -> Block {
    Block {
        id: id(n),
        header: BlockHeader {
            slot: Slot { period, thread },
            parents: if period == 0 { vec![] } else { vec![id(1), id(2)] },
            creator: Address { digest: Digest { hi: 7, lo: n } },
            operation_root: Digest { hi: 8, lo: n },
        },
        is_final,
    }
}

fn blocks() -> Vec<Block> {
    vec![
        block(6, 2, 0, false),
        block(4, 1, 1, false),
        block(1, 0, 0, true),
        block(5, 1, 1, false),
        block(3, 1, 0, true),
        block(2, 0, 1, true),
    ]
}

fn cliques() -> Vec<Clique> {
    vec![
        Clique { block_ids: vec![id(4), id(6)], is_blockclique: true },
        Clique { block_ids: vec![id(5), id(6)], is_blockclique: false },
    ]
}

fn snapshot() -> GraphSnapshot {
    GraphSnapshot::new(clock(), 5000, blocks(), vec![(id(4), id(5))], cliques()).unwrap()
}


fn ids_between(start: Option<u64>, end: Option<u64>) -> Vec<u128> {
    let snapshot = snapshot();
    API.get_graph_interval(Some(&snapshot), start, end)
        .unwrap()
        .iter()
        .map(|summary| summary.id.digest.lo)
        .collect()
}

#[test]
fn snapshot_keeps_what_it_was_given() {
    let snapshot = snapshot();
    assert_eq!(snapshot.clock(), clock());
    assert_eq!(snapshot.taken_at(), 5000);
    assert_eq!(snapshot.blocks(), &blocks());
    assert_eq!(snapshot.cliques(), &cliques());
    assert_eq!(snapshot.conflicts(), &vec![(id(4), id(5))]);
}

#[test]
fn snapshot_rejects_a_clock_without_slots_or_threads() {
    let no_length = TimeConfig { genesis_time: 1000, slot_duration: 0, thread_count: 2 };
    let no_thread = TimeConfig { genesis_time: 1000, slot_duration: 10, thread_count: 0 };
    let lone = vec![Clique { block_ids: vec![], is_blockclique: true }];
    assert!(GraphSnapshot::new(no_length, 0, vec![], vec![], lone.clone()).is_none());
    assert!(GraphSnapshot::new(no_thread, 0, vec![], vec![], lone.clone()).is_none());
    assert!(GraphSnapshot::new(clock(), 0, vec![], vec![], lone).is_some());
}

fn conflicts() -> Vec<(BlockId, BlockId)> {
    vec![(id(4), id(5))]
}

fn clique(members: &[u128], is_blockclique: bool) -> Clique {
    Clique { block_ids: members.iter().map(|n| id(*n)).collect(), is_blockclique }
}

#[test]
fn snapshot_rejects_a_thread_out_of_range() {
    let mut all = blocks();
    all.push(block(9, 3, 2, false));
    let grown = vec![clique(&[4, 6, 9], true), clique(&[5, 6, 9], false)];
    assert!(GraphSnapshot::new(clock(), 0, all, conflicts(), grown.clone()).is_none());
    let mut fine = blocks();
    fine.push(block(9, 3, 1, false));
    assert!(GraphSnapshot::new(clock(), 0, fine, conflicts(), grown).is_some());
}

#[test]
fn snapshot_rejects_a_block_without_one_parent_per_thread() {
    let mut short = blocks();
    short[0].header.parents = vec![id(1)];
    assert!(GraphSnapshot::new(clock(), 0, short, conflicts(), cliques()).is_none());
    let mut long = blocks();
    long[0].header.parents = vec![id(1), id(2), id(3)];
    assert!(GraphSnapshot::new(clock(), 0, long, conflicts(), cliques()).is_none());
    let mut orphan = blocks();
    orphan[0].header.parents = vec![];
    assert!(GraphSnapshot::new(clock(), 0, orphan, conflicts(), cliques()).is_none());
    let mut first = blocks();
    first[2].header.parents = vec![id(1)];
    assert!(GraphSnapshot::new(clock(), 0, first, conflicts(), cliques()).is_none());
    let mut full = blocks();
    full[2].header.parents = vec![id(8), id(9)];
    assert!(GraphSnapshot::new(clock(), 0, full, conflicts(), cliques()).is_some());
}

#[test]
fn snapshot_rejects_a_repeated_identifier() {
    let mut all = blocks();
    all.push(block(4, 3, 0, false));
    assert!(GraphSnapshot::new(clock(), 0, all, conflicts(), cliques()).is_none());
}

#[test]
fn snapshot_rejects_two_final_blocks_in_one_slot() {
    let mut all = blocks();
    all.push(block(9, 1, 0, true));
    assert!(GraphSnapshot::new(clock(), 0, all, conflicts(), cliques()).is_none());
    let mut fine = blocks();
    fine.push(block(9, 2, 1, true));
    assert!(GraphSnapshot::new(clock(), 0, fine, conflicts(), cliques()).is_some());
}

#[test]
fn snapshot_accepts_two_pending_blocks_in_one_slot() {
    assert!(GraphSnapshot::new(clock(), 0, blocks(), conflicts(), cliques()).is_some());
}

#[test]
fn snapshot_rejects_a_clique_with_a_final_member() {
    let bad = vec![clique(&[4, 6, 3], true), clique(&[5, 6], false)];
    assert!(GraphSnapshot::new(clock(), 0, blocks(), conflicts(), bad).is_none());
}

#[test]
fn snapshot_rejects_a_clique_with_an_unknown_member() {
    let bad = vec![clique(&[4, 6, 77], true), clique(&[5, 6], false)];
    assert!(GraphSnapshot::new(clock(), 0, blocks(), conflicts(), bad).is_none());
}

#[test]
fn snapshot_rejects_a_clique_with_conflicting_members() {
    let all = vec![clique(&[4, 5, 6], true)];
    assert!(GraphSnapshot::new(clock(), 0, blocks(), vec![(id(5), id(4))], all.clone()).is_none());
    assert!(GraphSnapshot::new(clock(), 0, blocks(), vec![(id(4), id(5))], all.clone()).is_none());
    assert!(GraphSnapshot::new(clock(), 0, blocks(), vec![], all).is_some());
}

#[test]
fn snapshot_rejects_a_clique_that_lists_a_block_twice() {
    let bad = vec![clique(&[4, 6, 4], true), clique(&[5, 6], false)];
    assert!(GraphSnapshot::new(clock(), 0, blocks(), conflicts(), bad).is_none());
}

#[test]
fn snapshot_rejects_a_clique_that_can_grow() {
    assert!(GraphSnapshot::new(clock(), 0, blocks(), vec![], cliques()).is_none());
    let small = vec![clique(&[4], true), clique(&[5, 6], false)];
    assert!(GraphSnapshot::new(clock(), 0, blocks(), conflicts(), small).is_none());
    let empty = vec![clique(&[], true)];
    assert!(GraphSnapshot::new(clock(), 0, blocks(), conflicts(), empty).is_none());
    let apart = vec![clique(&[4], true), clique(&[5, 6], false)];
    let both = vec![(id(4), id(5)), (id(6), id(4))];
    assert!(GraphSnapshot::new(clock(), 0, blocks(), both, apart).is_some());
}

#[test]
fn snapshot_rejects_no_preferred_clique_and_two_of_them() {
    let none = vec![clique(&[4, 6], false), clique(&[5, 6], false)];
    let two = vec![clique(&[4, 6], true), clique(&[5, 6], true)];
    assert!(GraphSnapshot::new(clock(), 0, blocks(), conflicts(), vec![]).is_none());
    assert!(GraphSnapshot::new(clock(), 0, blocks(), conflicts(), none).is_none());
    assert!(GraphSnapshot::new(clock(), 0, blocks(), conflicts(), two).is_none());
}

#[test]
fn snapshot_is_fresh_within_the_staleness_window() {
    let snapshot = snapshot();
    assert!(snapshot.is_fresh(5000, 0));
    assert!(snapshot.is_fresh(5100, 100));
    assert!(!snapshot.is_fresh(5101, 100));
    assert!(!snapshot.is_fresh(4999, 100));
}

#[test]
fn interval_without_bounds_holds_every_block_in_order() {
    assert_eq!(ids_between(None, None), vec![1, 2, 3, 4, 5, 6]);
}

#[test]
fn interval_is_half_open() {
    assert_eq!(ids_between(Some(1010), Some(1030)), vec![2, 3]);
    assert_eq!(ids_between(Some(1030), Some(1040)), vec![4, 5]);
    assert_eq!(ids_between(Some(1030), Some(1041)), vec![4, 5, 6]);
    assert_eq!(ids_between(Some(1011), Some(1020)), Vec::<u128>::new());
    assert_eq!(ids_between(Some(1030), Some(1030)), Vec::<u128>::new());
}

#[test]
fn interval_with_one_bound() {
    assert_eq!(ids_between(Some(1021), None), vec![4, 5, 6]);
    assert_eq!(ids_between(None, Some(1020)), vec![1, 2]);
    assert_eq!(ids_between(None, Some(1000)), Vec::<u128>::new());
}

#[test]
fn interval_timestamps_lie_within_the_bounds_and_ascend() {
    let snapshot = snapshot();
    for start in (1000..1060u64).step_by(5) {
        for end in (start..1060u64).step_by(5) {
            let found = API.get_graph_interval(Some(&snapshot), Some(start), Some(end)).unwrap();
            for summary in found.iter() {
                assert!(start <= summary.timestamp && summary.timestamp < end);
                assert_eq!(summary.timestamp, time_of(summary.slot, 1000, 10, 2));
            }
            for pair in found.windows(2) {
                let a = (pair[0].slot.period, pair[0].slot.thread, pair[0].id.digest);
                let b = (pair[1].slot.period, pair[1].slot.thread, pair[1].id.digest);
                assert!(a.0 < b.0 || (a.0 == b.0 && a.1 < b.1) || (a.0 == b.0 && a.1 == b.1 && a.2.lt(&b.2)));
            }
            let expected = blocks()
                .iter()
                .filter(|b| {
                    let t = time_of(b.header.slot, 1000, 10, 2);
                    start <= t && t < end
                })
                .count();
            assert_eq!(found.len(), expected);
        }
    }
}

#[test]
fn interval_without_bounds_is_genesis_to_the_end_of_the_newest_slot() {
    let snapshot = snapshot();
    let newest = blocks().iter().map(|b| time_of(b.header.slot, 1000, 10, 2)).max().unwrap();
    assert_eq!(newest, 1040);
    let unbounded = API.get_graph_interval(Some(&snapshot), None, None).unwrap();
    let bounded = API.get_graph_interval(Some(&snapshot), Some(1000), Some(newest + 10)).unwrap();
    assert_eq!(unbounded, bounded);
    assert_eq!(unbounded.len(), 6);
}

#[test]
fn interval_summaries_describe_their_blocks() {
    let snapshot = snapshot();
    let found = API.get_graph_interval(Some(&snapshot), Some(1030), Some(1050)).unwrap();
    assert_eq!(found.len(), 3);
    assert_eq!(found[0].id, id(4));
    assert_eq!(found[0].slot, Slot { period: 1, thread: 1 });
    assert_eq!(found[0].timestamp, 1030);
    assert_eq!(found[0].creator, Address { digest: Digest { hi: 7, lo: 4 } });
    assert_eq!(found[0].parents, vec![id(1), id(2)]);
    assert!(!found[0].is_final);
    assert!(found[0].is_in_blockclique);
    assert_eq!(found[1].id, id(5));
    assert!(!found[1].is_in_blockclique);
    assert_eq!(found[2].id, id(6));
    assert!(found[2].is_in_blockclique);
}

#[test]
fn interval_breaks_ties_by_the_whole_identifier() {
    let high = BlockId { digest: Digest { hi: 1, lo: 0 } };
    let low = BlockId { digest: Digest { hi: 0, lo: u128::MAX } };
    let mut first = block(0, 1, 0, false);
    first.id = high;
    let mut second = block(0, 1, 0, false);
    second.id = low;
    let apart = vec![
        Clique { block_ids: vec![high], is_blockclique: true },
        Clique { block_ids: vec![low], is_blockclique: false },
    ];
    let snapshot =
        GraphSnapshot::new(clock(), 0, vec![first, second], vec![(high, low)], apart).unwrap();
    let found = API.get_graph_interval(Some(&snapshot), None, None).unwrap();
    assert_eq!(found[0].id, low);
    assert_eq!(found[1].id, high);
}

#[test]
fn interval_rejects_a_start_after_the_end() {
    let snapshot = snapshot();
    assert_eq!(
        API.get_graph_interval(Some(&snapshot), Some(1040), Some(1030)),
        Err(ApiError::InvalidRange)
    );
    assert_eq!(API.get_graph_interval(None, Some(1040), Some(1030)), Err(ApiError::InvalidRange));
    assert_eq!(
        API.get_graph_interval(Some(&snapshot), Some(999), Some(5)),
        Err(ApiError::InvalidRange)
    );
}

#[test]
fn interval_rejects_a_bound_before_genesis() {
    let snapshot = snapshot();
    assert_eq!(
        API.get_graph_interval(Some(&snapshot), Some(999), None),
        Err(ApiError::InvalidTime)
    );
    assert_eq!(
        API.get_graph_interval(Some(&snapshot), None, Some(999)),
        Err(ApiError::InvalidTime)
    );
    assert_eq!(
        API.get_graph_interval(Some(&snapshot), Some(10), Some(2000)),
        Err(ApiError::InvalidTime)
    );
}

#[test]
fn interval_of_a_block_beyond_the_last_timestamp() {
    let far = block(1, u64::MAX, 0, false);
    let lone = vec![Clique { block_ids: vec![id(1)], is_blockclique: true }];
    let snapshot = GraphSnapshot::new(clock(), 0, vec![far], vec![], lone).unwrap();
    let all = API.get_graph_interval(Some(&snapshot), None, None).unwrap();
    assert_eq!(all.len(), 1);
    assert_eq!(all[0].timestamp, u64::MAX);
    let bounded = API.get_graph_interval(Some(&snapshot), Some(1000), Some(u64::MAX)).unwrap();
    assert!(bounded.is_empty());
}

#[test]
fn queries_without_a_snapshot_are_unavailable() {
    assert_eq!(API.get_status(None, 1, None), Err(ApiError::Unavailable));
    assert_eq!(API.get_cliques(None), Err(ApiError::Unavailable));
    assert_eq!(API.get_block(None, id(1)), Err(ApiError::Unavailable));
    assert_eq!(API.get_graph_interval(None, None, None), Err(ApiError::Unavailable));
    assert_eq!(API.get_graph_interval(None, Some(1), Some(2)), Err(ApiError::Unavailable));
}

#[test]
fn cliques_come_out_as_the_snapshot_holds_them() {
    let snapshot = snapshot();
    assert_eq!(API.get_cliques(Some(&snapshot)), Ok(cliques()));
    assert_eq!(API.get_cliques(Some(&snapshot)), API.get_cliques(Some(&snapshot)));
}

#[test]
fn cliques_hold_compatible_blocks_and_one_is_preferred() {
    let snapshot = snapshot();
    let found = API.get_cliques(Some(&snapshot)).unwrap();
    assert_eq!(found.iter().filter(|c| c.is_blockclique).count(), 1);
    for clique in found.iter() {
        for a in clique.block_ids.iter() {
            for b in clique.block_ids.iter() {
                let pair = (*a, *b);
                let reversed = (*b, *a);
                assert!(!snapshot.conflicts().contains(&pair));
                assert!(!snapshot.conflicts().contains(&reversed));
            }
        }
    }
}

#[test]
fn status_reads_everything_from_one_snapshot() {
    let snapshot = snapshot();
    let status = API
        .get_status(Some(&snapshot), 6000, Some(PeerSample { count: 12, taken_at: 5000 }))
        .unwrap();
    assert_eq!(status.current_time, 6000);
    assert_eq!(status.clique_count, 2);
    assert_eq!(status.connected_peers, 12);
    assert_eq!(
        status.last_final_blocks,
        vec![
            FinalBlock { id: id(3), slot: Slot { period: 1, thread: 0 }, timestamp: 1020 },
            FinalBlock { id: id(2), slot: Slot { period: 0, thread: 1 }, timestamp: 1010 },
        ]
    );
}

#[test]
fn status_counts_the_cliques_that_get_cliques_gives() {
    let snapshot = snapshot();
    let status = API.get_status(Some(&snapshot), 6000, None).unwrap();
    let found = API.get_cliques(Some(&snapshot)).unwrap();
    assert_eq!(status.clique_count, found.len());
}

#[test]
fn status_counts_no_peers_without_a_sample_as_new_as_the_snapshot() {
    let snapshot = snapshot();
    let missing = API.get_status(Some(&snapshot), 6000, None).unwrap();
    assert_eq!(missing.connected_peers, 0);
    let stale = API
        .get_status(Some(&snapshot), 6000, Some(PeerSample { count: 12, taken_at: 4999 }))
        .unwrap();
    assert_eq!(stale.connected_peers, 0);
    let later = API
        .get_status(Some(&snapshot), 6000, Some(PeerSample { count: 3, taken_at: 5001 }))
        .unwrap();
    assert_eq!(later.connected_peers, 3);
}

#[test]
fn status_skips_a_thread_without_a_final_block() {
    let all = vec![block(1, 0, 1, true), block(2, 4, 1, true), block(3, 5, 0, false)];
    let lone = vec![Clique { block_ids: vec![id(3)], is_blockclique: true }];
    let snapshot = GraphSnapshot::new(clock(), 0, all, vec![], lone).unwrap();
    let status = API.get_status(Some(&snapshot), 0, None).unwrap();
    assert_eq!(
        status.last_final_blocks,
        vec![FinalBlock { id: id(2), slot: Slot { period: 4, thread: 1 }, timestamp: 1090 }]
    );
    assert_eq!(status.clique_count, 1);
}

#[test]
fn block_info_of_a_pending_block() {
    let snapshot = snapshot();
    let info = API.get_block(Some(&snapshot), id(4)).unwrap();
    assert_eq!(info.id, id(4));
    assert_eq!(info.header, block(4, 1, 1, false).header);
    assert_eq!(info.timestamp, 1030);
    assert!(!info.is_final);
    assert!(info.is_in_blockclique);
    assert_eq!(info.cliques, vec![0]);
    let other = API.get_block(Some(&snapshot), id(5)).unwrap();
    assert!(!other.is_in_blockclique);
    assert_eq!(other.cliques, vec![1]);
    let shared = API.get_block(Some(&snapshot), id(6)).unwrap();
    assert!(shared.is_in_blockclique);
    assert_eq!(shared.cliques, vec![0, 1]);
}

#[test]
fn block_info_of_a_final_block() {
    let snapshot = snapshot();
    let info = API.get_block(Some(&snapshot), id(1)).unwrap();
    assert!(info.is_final);
    assert!(!info.is_in_blockclique);
    assert!(info.cliques.is_empty());
    assert_eq!(info.timestamp, 1000);
    assert!(info.header.parents.is_empty());
}

#[test]
fn block_info_of_an_unknown_block_is_not_found() {
    let snapshot = snapshot();
    assert_eq!(API.get_block(Some(&snapshot), id(99)), Err(ApiError::NotFound));
    let near = BlockId { digest: Digest { hi: 1, lo: 4 } };
    assert_eq!(API.get_block(Some(&snapshot), near), Err(ApiError::NotFound));
}
