//! Everything a snapshot knows about one block.

use vstd::prelude::*;
use crate::error::ApiError;
use crate::ident::BlockId;
use crate::interval::is_in_blockclique;
use crate::interval::preferred_holds;
use crate::interval::slot_time;
use crate::model::BlockInfo;
use crate::model::BlockInfoView;
use crate::model::Clique;
use crate::model::CliqueView;
use crate::model::holds_id;
use crate::slot::time_of;
use crate::snapshot::GraphSnapshot;
use crate::snapshot::GraphView;
use crate::snapshot::find_block;
use crate::snapshot::has_block;

verus! {

/// The positions, among the first `n` cliques, of those that hold the block
/// `id`, in ascending order.
pub open spec fn holding_cliques(cliques: Seq<CliqueView>, id: BlockId, n: int) -> Seq<usize>
    decreases n,
{
    if n <= 0 {
        Seq::empty()
    } else {
        let rest = holding_cliques(cliques, id, n - 1);
        if cliques[n - 1].block_ids.contains(id) {
            rest.push((n - 1) as usize)
        } else {
            rest
        }
    }
}

/// What the graph knows about the block at position `k`.
pub open spec fn info_of(graph: GraphView, k: int) -> BlockInfoView {
    let block = graph.blocks[k];
    BlockInfoView {
        id: block.id,
        header: block.header,
        timestamp: slot_time(graph.clock, block.header.slot) as u64,
        is_final: block.is_final,
        is_in_blockclique: preferred_holds(graph.cliques, block.id),
        cliques: holding_cliques(graph.cliques, block.id, graph.cliques.len() as int),
    }
}

/// Whether `info` is what the graph knows about the block `id`.
pub open spec fn is_info_of(graph: GraphView, id: BlockId, info: BlockInfoView) -> bool {
    exists|k: int|
        0 <= k < graph.blocks.len() && graph.blocks[k].id == id && info == #[trigger] info_of(
            graph,
            k,
        )
}

/// The positions of the cliques that hold the block `id`, in ascending order.
pub fn cliques_holding(cliques: &Vec<Clique>, id: BlockId) -> (r: Vec<usize>)
    ensures
        r@ == holding_cliques(cliques.deep_view(), id, cliques.len() as int),
{
    let ghost views = cliques.deep_view();
    let mut out: Vec<usize> = Vec::new();
    let mut c: usize = 0;
    while c < cliques.len()
        invariant
            c <= cliques.len(),
            views == cliques.deep_view(),
            out@ == holding_cliques(views, id, c as int),
        decreases cliques.len() - c,
    {
        assert(views[c as int].block_ids == cliques@[c as int].block_ids@);
        if holds_id(&cliques[c].block_ids, id) {
            out.push(c);
        }
        c += 1;
    }
    out
}

/// What the snapshot knows about the block `id`: its header, whether it is
/// final, and the cliques it belongs to.
///
/// Fails with `NotFound` exactly when the snapshot has no block `id`.
pub fn block_info(snapshot: &GraphSnapshot, id: BlockId) -> (r: Result<BlockInfo, ApiError>)
    ensures
        !has_block(snapshot@.blocks, id) ==> (r matches Err(e) && e == ApiError::NotFound),
        has_block(snapshot@.blocks, id) ==> (r matches Ok(info) && is_info_of(
            snapshot@,
            id,
            info.deep_view(),
        )),
{
    proof {
        use_type_invariant(snapshot);
    }
    let clock = snapshot.clock();
    let blocks = snapshot.blocks();
    match find_block(blocks, id) {
        None => Err(ApiError::NotFound),
        Some(k) => {
            let block = &blocks[k];
            assert(snapshot@.blocks[k as int] == block.deep_view());
            let info = BlockInfo {
                id: block.id,
                header: block.header.clone(),
                timestamp: time_of(
                    block.header.slot,
                    clock.genesis_time,
                    clock.slot_duration,
                    clock.thread_count,
                ),
                is_final: block.is_final,
                is_in_blockclique: is_in_blockclique(snapshot.cliques(), block.id),
                cliques: cliques_holding(snapshot.cliques(), block.id),
            };
            assert(info.deep_view() == info_of(snapshot@, k as int));
            Ok(info)
        },
    }
}

/// A snapshot describes a block in one way only.
pub proof fn law_block_info_unique(graph: GraphView, id: BlockId, a: BlockInfoView, b: BlockInfoView)
    requires
        graph.wf(),
        is_info_of(graph, id, a),
        is_info_of(graph, id, b),
    ensures
        a == b,
{
    let i = choose|k: int|
        0 <= k < graph.blocks.len() && graph.blocks[k].id == id && a == #[trigger] info_of(graph, k);
    let j = choose|k: int|
        0 <= k < graph.blocks.len() && graph.blocks[k].id == id && b == #[trigger] info_of(graph, k);
    if i < j {
        assert(graph.blocks[i].id != graph.blocks[j].id);
    }
    if j < i {
        assert(graph.blocks[j].id != graph.blocks[i].id);
    }
}

/// The cliques listed for a block are exactly those that hold it, each once
/// and in ascending order.
pub proof fn law_holding_cliques(cliques: Seq<CliqueView>, id: BlockId, n: int)
    requires
        0 <= n <= cliques.len(),
        n <= usize::MAX,
    ensures
        forall|i: int|
            0 <= i < holding_cliques(cliques, id, n).len() ==> {
                let c = #[trigger] holding_cliques(cliques, id, n)[i];
                c < n && cliques[c as int].block_ids.contains(id)
            },
        forall|i: int, j: int|
            0 <= i < j < holding_cliques(cliques, id, n).len() ==> #[trigger] holding_cliques(
                cliques,
                id,
                n,
            )[i] < #[trigger] holding_cliques(cliques, id, n)[j],
        forall|c: int|
            0 <= c < n && (#[trigger] cliques[c]).block_ids.contains(id) ==> holding_cliques(
                cliques,
                id,
                n,
            ).contains(c as usize),
    decreases n,
{
    if n > 0 {
        law_holding_cliques(cliques, id, n - 1);
        let rest = holding_cliques(cliques, id, n - 1);
        let all = holding_cliques(cliques, id, n);
        assert forall|c: int|
            0 <= c < n && (#[trigger] cliques[c]).block_ids.contains(id) implies all.contains(
            c as usize,
        ) by {
            if c < n - 1 {
                let q = choose|q: int| 0 <= q < rest.len() && rest[q] == c as usize;
                assert(all[q] == c as usize);
            } else {
                assert(all[all.len() - 1] == c as usize);
            }
        }
    }
}

} // verus!
