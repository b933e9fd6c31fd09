//! The node's status: the newest final block of each thread, the number of
//! cliques and the number of connected peers, all as of one snapshot.

use vstd::prelude::*;
use crate::interval::slot_time;
use crate::model::BlockView;
use crate::model::FinalBlock;
use crate::model::NodeStatus;
use crate::model::NodeStatusView;
use crate::model::PeerSample;
use crate::order::ascending;
use crate::order::lemma_ascending_same_members_equal;
use crate::slot::time_of;
use crate::snapshot::GraphSnapshot;
use crate::snapshot::GraphView;

verus! {

/// Whether the block at position `k` is final and no final block of its
/// thread has a later period.
pub open spec fn is_last_final(blocks: Seq<BlockView>, k: int) -> bool {
    &&& 0 <= k < blocks.len()
    &&& blocks[k].is_final
    &&& forall|j: int|
        0 <= j < blocks.len() && (#[trigger] blocks[j]).is_final && blocks[j].header.slot.thread
            == blocks[k].header.slot.thread ==> blocks[j].header.slot.period
            <= blocks[k].header.slot.period
}

/// What the status says of the block at position `k`.
pub open spec fn final_block_of(graph: GraphView, k: int) -> FinalBlock {
    let block = graph.blocks[k];
    FinalBlock {
        id: block.id,
        slot: block.header.slot,
        timestamp: slot_time(graph.clock, block.header.slot) as u64,
    }
}

/// Whether `item` describes the newest final block of some thread.
pub open spec fn is_thread_tip(graph: GraphView, item: FinalBlock) -> bool {
    exists|k: int| is_last_final(graph.blocks, k) && item == #[trigger] final_block_of(graph, k)
}

/// Whether `r` lists the newest final block of every thread that has a
/// final block, once each, by ascending thread.
pub open spec fn are_last_finals(graph: GraphView, r: Seq<FinalBlock>) -> bool {
    &&& forall|i: int| 0 <= i < r.len() ==> is_thread_tip(graph, #[trigger] r[i])
    &&& forall|i: int, j: int|
        0 <= i < j < r.len() ==> (#[trigger] r[i]).slot.thread < (#[trigger] r[j]).slot.thread
    &&& forall|k: int| #[trigger]
        is_last_final(graph.blocks, k) ==> r.contains(final_block_of(graph, k))
}

/// The number of peers that a status reports: the sample's count where the
/// sample is there and was not taken before the snapshot, else zero.
pub open spec fn peers_seen(snapshot_taken_at: u64, sample: Option<PeerSample>) -> u64 {
    match sample {
        Some(s) => if s.taken_at >= snapshot_taken_at {
            s.count
        } else {
            0
        },
        None => 0,
    }
}

/// Whether `status` is the status that the graph shows at `now`.
pub open spec fn is_status_of(
    graph: GraphView,
    now: u64,
    sample: Option<PeerSample>,
    status: NodeStatusView,
) -> bool {
    &&& status.current_time == now
    &&& are_last_finals(graph, status.last_final_blocks)
    &&& status.clique_count == graph.cliques.len()
    &&& status.connected_peers == peers_seen(graph.taken_at, sample)
}

/// The position of the newest final block of `thread`, if the thread has one.
fn last_final_of(snapshot: &GraphSnapshot, thread: u8) -> (r: Option<usize>)
    ensures
        r matches Some(b) ==> is_last_final(snapshot@.blocks, b as int)
            && snapshot@.blocks[b as int].header.slot.thread == thread,
        r is None ==> forall|j: int|
            0 <= j < snapshot@.blocks.len() && (#[trigger] snapshot@.blocks[j]).is_final
                ==> snapshot@.blocks[j].header.slot.thread != thread,
{
    let blocks = snapshot.blocks();
    let ghost views = snapshot@.blocks;
    let mut best: Option<usize> = None;
    let mut j: usize = 0;
    while j < blocks.len()
        invariant
            j <= blocks.len(),
            views == blocks.deep_view(),
            best is None ==> forall|i: int|
                0 <= i < j && (#[trigger] views[i]).is_final ==> views[i].header.slot.thread
                    != thread,
            best matches Some(b) ==> b < j && views[b as int].is_final
                && views[b as int].header.slot.thread == thread && forall|i: int|
                0 <= i < j && (#[trigger] views[i]).is_final && views[i].header.slot.thread
                    == thread ==> views[i].header.slot.period
                    <= views[b as int].header.slot.period,
        decreases blocks.len() - j,
    {
        let block = &blocks[j];
        assert(views[j as int] == block.deep_view());
        if block.is_final && block.header.slot.thread == thread {
            match best {
                None => {
                    best = Some(j);
                },
                Some(b) => {
                    assert(views[b as int] == blocks@[b as int].deep_view());
                    if blocks[b].header.slot.period < block.header.slot.period {
                        best = Some(j);
                    }
                },
            }
        }
        j += 1;
    }
    best
}

/// The newest final block of every thread that has one, by ascending thread.
pub fn last_final_blocks(snapshot: &GraphSnapshot) -> (r: Vec<FinalBlock>)
    ensures
        are_last_finals(snapshot@, r@),
{
    proof {
        use_type_invariant(snapshot);
    }
    let ghost graph = snapshot@;
    let clock = snapshot.clock();
    let blocks = snapshot.blocks();
    let mut out: Vec<FinalBlock> = Vec::new();
    let mut thread: u8 = 0;
    while thread < clock.thread_count
        invariant
            thread <= clock.thread_count,
            graph == snapshot@,
            graph.wf(),
            clock == graph.clock,
            blocks.deep_view() == graph.blocks,
            forall|i: int|
                0 <= i < out.len() ==> is_thread_tip(graph, #[trigger] out@[i]) && out@[i].slot.thread
                    < thread,
            forall|i: int, j: int|
                0 <= i < j < out.len() ==> (#[trigger] out@[i]).slot.thread < (
                #[trigger] out@[j]).slot.thread,
            forall|k: int| #[trigger]
                is_last_final(graph.blocks, k) && graph.blocks[k].header.slot.thread < thread
                    ==> out@.contains(final_block_of(graph, k)),
        decreases clock.thread_count - thread,
    {
        let ghost before = out@;
        match last_final_of(snapshot, thread) {
            None => {
                assert forall|k: int| #[trigger]
                    is_last_final(graph.blocks, k) && graph.blocks[k].header.slot.thread < thread
                        + 1 implies out@.contains(final_block_of(graph, k)) by {
                    assert(graph.blocks[k].is_final);
                }
            },
            Some(b) => {
                let block = &blocks[b];
                assert(graph.blocks[b as int] == block.deep_view());
                let slot = block.header.slot;
                let item = FinalBlock {
                    id: block.id,
                    slot,
                    timestamp: time_of(
                        slot,
                        clock.genesis_time,
                        clock.slot_duration,
                        clock.thread_count,
                    ),
                };
                assert(item == final_block_of(graph, b as int));
                out.push(item);
                proof {
                    assert forall|i: int| 0 <= i < out.len() implies is_thread_tip(
                        graph,
                        #[trigger] out@[i],
                    ) && out@[i].slot.thread < thread + 1 by {
                        if i < before.len() {
                            assert(out@[i] == before[i]);
                        }
                    }
                    assert forall|i: int, j: int| 0 <= i < j < out.len() implies (
                    #[trigger] out@[i]).slot.thread < (#[trigger] out@[j]).slot.thread by {
                        assert(out@[i] == before[i]);
                        if j < before.len() {
                            assert(out@[j] == before[j]);
                        }
                    }
                    assert forall|k: int| #[trigger]
                        is_last_final(graph.blocks, k) && graph.blocks[k].header.slot.thread
                            < thread + 1 implies out@.contains(final_block_of(graph, k)) by {
                        if graph.blocks[k].header.slot.thread < thread {
                            let q = choose|q: int|
                                0 <= q < before.len() && before[q] == final_block_of(graph, k);
                            assert(out@[q] == before[q]);
                        } else {
                            assert(graph.blocks[k].is_final && graph.blocks[b as int].is_final);
                            assert(graph.blocks[k].header.slot == graph.blocks[b as int].header.slot);
                            if k < b {
                                assert(graph.blocks[k].header.slot != graph.blocks[b as int].header.slot);
                            }
                            if b < k {
                                assert(graph.blocks[b as int].header.slot != graph.blocks[k].header.slot);
                            }
                            assert(out@[before.len() as int] == final_block_of(graph, k));
                        }
                    }
                }
            },
        }
        thread += 1;
    }
    out
}

/// The status that the snapshot shows at `current_time`.
///
/// The peer count comes from `sample`; a sample that is missing, or older
/// than the snapshot, counts as no peers.
pub fn node_status(snapshot: &GraphSnapshot, current_time: u64, sample: Option<PeerSample>) -> (r:
    NodeStatus)
    ensures
        is_status_of(snapshot@, current_time, sample, r.deep_view()),
{
    let connected_peers: u64 = match sample {
        Some(s) => if s.taken_at >= snapshot.taken_at() {
            s.count
        } else {
            0
        },
        None => 0,
    };
    NodeStatus {
        current_time,
        last_final_blocks: last_final_blocks(snapshot),
        clique_count: snapshot.cliques().len(),
        connected_peers,
    }
}

/// A snapshot has one list of newest final blocks and no other.
pub proof fn law_last_finals_unique(graph: GraphView, a: Seq<FinalBlock>, b: Seq<FinalBlock>)
    requires
        are_last_finals(graph, a),
        are_last_finals(graph, b),
    ensures
        a == b,
{
    let lt = |x: FinalBlock, y: FinalBlock| x.slot.thread < y.slot.thread;
    assert forall|x: FinalBlock| a.contains(x) <==> b.contains(x) by {
        if a.contains(x) {
            lemma_tip_is_listed(graph, a, b, x);
        }
        if b.contains(x) {
            lemma_tip_is_listed(graph, b, a, x);
        }
    }
    assert(ascending(a, lt)) by {
        assert forall|i: int, j: int| 0 <= i < j < a.len() implies lt(
            #[trigger] a[i],
            #[trigger] a[j],
        ) by {
            assert(a[i].slot.thread < a[j].slot.thread);
        }
    }
    assert(ascending(b, lt)) by {
        assert forall|i: int, j: int| 0 <= i < j < b.len() implies lt(
            #[trigger] b[i],
            #[trigger] b[j],
        ) by {
            assert(b[i].slot.thread < b[j].slot.thread);
        }
    }
    lemma_ascending_same_members_equal(a, b, lt);
}

proof fn lemma_tip_is_listed(graph: GraphView, a: Seq<FinalBlock>, b: Seq<FinalBlock>, x: FinalBlock)
    requires
        are_last_finals(graph, a),
        are_last_finals(graph, b),
        a.contains(x),
    ensures
        b.contains(x),
{
    let q = choose|q: int| 0 <= q < a.len() && a[q] == x;
    assert(is_thread_tip(graph, a[q]));
    let k = choose|k: int| is_last_final(graph.blocks, k) && x == #[trigger] final_block_of(graph, k);
    assert(b.contains(final_block_of(graph, k)));
}

/// A snapshot, an instant and a peer sample give one status and no other.
pub proof fn law_status_unique(
    graph: GraphView,
    now: u64,
    sample: Option<PeerSample>,
    a: NodeStatusView,
    b: NodeStatusView,
)
    requires
        is_status_of(graph, now, sample, a),
        is_status_of(graph, now, sample, b),
    ensures
        a == b,
{
    law_last_finals_unique(graph, a.last_final_blocks, b.last_final_blocks);
}

} // verus!
