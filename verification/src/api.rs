//! The endpoints of the node: one method per query, and one for submissions.
//!
//! The endpoints hold no state. What an endpoint reads (the snapshot, an
//! index, the clock) is handed to it, so that every answer is computed from
//! one instant of the consensus state. An endpoint that needs a snapshot and
//! gets none fails with `Unavailable`.

use vstd::prelude::*;
use crate::block::block_info;
use crate::block::is_info_of;
use crate::error::ApiError;
use crate::ident::Address;
use crate::ident::BlockId;
use crate::ident::EndorsementId;
use crate::ident::OperationId;
use crate::interval::bound_before_genesis;
use crate::interval::graph_interval;
use crate::interval::is_interval_of;
use crate::interval::range_inverted;
use crate::lookup::EndorsementInfo;
use crate::lookup::OperationInfo;
use crate::lookup::endorsements_found;
use crate::lookup::find_endorsements;
use crate::lookup::find_operations;
use crate::lookup::operations_found;
use crate::model::BlockInfo;
use crate::model::BlockSummary;
use crate::model::Clique;
use crate::model::CliqueView;
use crate::model::NodeStatus;
use crate::model::NodeStatusView;
use crate::model::PeerSample;
use crate::operation::Operation;
use crate::operation::Submission;
use crate::operation::SubmitStep;
use crate::operation::opened;
use crate::snapshot::GraphSnapshot;
use crate::snapshot::GraphView;
use crate::snapshot::blocked_by;
use crate::snapshot::conflicting;
use crate::snapshot::has_block;
use crate::snapshot::is_only_preferred;
use crate::snapshot::is_pending;
use crate::stakers::RollCounts;
use crate::stakers::stakers_of;
use crate::status::is_status_of;
use crate::status::node_status;

verus! {

/// The public endpoints of a node.
pub trait MassaPublic {
    /// Summary of the node's state at `current_time`: the newest final block
    /// of each thread, the number of cliques and the number of connected peers.
    fn get_status(
        &self,
        snapshot: Option<&GraphSnapshot>,
        current_time: u64,
        peers: Option<PeerSample>,
    ) -> (r: Result<NodeStatus, ApiError>)
        ensures
            snapshot is None ==> (r matches Err(e) && e == ApiError::Unavailable),
            snapshot matches Some(s) ==> (r matches Ok(status) && is_status_of(
                s@,
                current_time,
                peers,
                status.deep_view(),
            )),
    ;

    /// Every clique of the snapshot, the preferred one among them, in the
    /// order in which the snapshot holds them.
    fn get_cliques(&self, snapshot: Option<&GraphSnapshot>) -> (r: Result<Vec<Clique>, ApiError>)
        ensures
            snapshot is None ==> (r matches Err(e) && e == ApiError::Unavailable),
            snapshot matches Some(s) ==> (r matches Ok(cliques) && cliques.deep_view()
                == s@.cliques),
    ;

    /// The stakers of the current cycle and their roll counts.
    fn get_stakers(&self, rolls: &RollCounts) -> (r: Result<Vec<(Address, u64)>, ApiError>)
        ensures
            r matches Ok(stakers) && stakers@ == stakers_of(rolls@),
    ;

    /// What the index holds of the operations `ids`.
    fn get_operations(&self, index: &Vec<OperationInfo>, ids: Vec<OperationId>) -> (r: Result<
        Vec<OperationInfo>,
        ApiError,
    >)
        ensures
            r matches Ok(found) && found.deep_view() == operations_found(index.deep_view(), ids@),
    ;

    /// What the index holds of the endorsements `ids`.
    fn get_endorsements(&self, index: &Vec<EndorsementInfo>, ids: Vec<EndorsementId>) -> (r:
        Result<Vec<EndorsementInfo>, ApiError>)
        ensures
            r matches Ok(found) && found.deep_view() == endorsements_found(
                index.deep_view(),
                ids@,
            ),
    ;

    /// What the snapshot knows about the block `id`.
    fn get_block(&self, snapshot: Option<&GraphSnapshot>, id: BlockId) -> (r: Result<
        BlockInfo,
        ApiError,
    >)
        ensures
            snapshot is None ==> (r matches Err(e) && e == ApiError::Unavailable),
            snapshot matches Some(s) ==> (if has_block(s@.blocks, id) {
                r matches Ok(info) && is_info_of(s@, id, info.deep_view())
            } else {
                r matches Err(e) && e == ApiError::NotFound
            }),
    ;

    /// The blocks whose slot begins at or after `time_start` and before
    /// `time_end`, by ascending slot and then by ascending identifier.
    fn get_graph_interval(
        &self,
        snapshot: Option<&GraphSnapshot>,
        time_start: Option<u64>,
        time_end: Option<u64>,
    ) -> (r: Result<Vec<BlockSummary>, ApiError>)
        ensures
            range_inverted(time_start, time_end) ==> (r matches Err(e) && e
                == ApiError::InvalidRange),
            !range_inverted(time_start, time_end) && snapshot is None ==> (r matches Err(e) && e
                == ApiError::Unavailable),
            !range_inverted(time_start, time_end) ==> (snapshot matches Some(s) ==> (
            if bound_before_genesis(s@.clock, time_start, time_end) {
                r matches Err(e) && e == ApiError::InvalidTime
            } else {
                r matches Ok(blocks) && is_interval_of(
                    s@,
                    time_start,
                    time_end,
                    blocks.deep_view(),
                )
            })),
    ;

    /// Takes a batch of operations in, and says what to forward first.
    fn send_operations(&self, batch: Vec<Operation>) -> (r: Result<SubmitStep, ApiError>)
        ensures
            r matches Ok(step) && step@ == opened(batch.deep_view()),
    ;
}

/// The endpoints as this library answers them.
#[derive(Clone, Copy, Debug)]
pub struct API;

impl MassaPublic for API {
    fn get_status(
        &self,
        snapshot: Option<&GraphSnapshot>,
        current_time: u64,
        peers: Option<PeerSample>,
    ) -> (r: Result<NodeStatus, ApiError>) {
        match snapshot {
            None => Err(ApiError::Unavailable),
            Some(s) => Ok(node_status(s, current_time, peers)),
        }
    }

    fn get_cliques(&self, snapshot: Option<&GraphSnapshot>) -> (r: Result<Vec<Clique>, ApiError>) {
        match snapshot {
            None => Err(ApiError::Unavailable),
            Some(s) => {
                let cliques = s.cliques();
                let mut out: Vec<Clique> = Vec::new();
                let mut c: usize = 0;
                while c < cliques.len()
                    invariant
                        c <= cliques.len(),
                        out.len() == c,
                        out.deep_view() == cliques.deep_view().take(c as int),
                    decreases cliques.len() - c,
                {
                    let ghost before = out.deep_view();
                    let ghost held = out@;
                    let copy = cliques[c].clone();
                    out.push(copy);
                    assert(out.deep_view() =~= cliques.deep_view().take(c + 1)) by {
                        assert forall|x: int| 0 <= x < c + 1 implies out.deep_view()[x]
                            == cliques.deep_view().take(c + 1)[x] by {
                            if x < c {
                                assert(out@[x] == held[x]);
                                assert(before[x] == held[x].deep_view());
                            }
                        }
                    }
                    c += 1;
                }
                assert(cliques.deep_view().take(cliques.len() as int) =~= cliques.deep_view());
                Ok(out)
            },
        }
    }

    fn get_stakers(&self, rolls: &RollCounts) -> (r: Result<Vec<(Address, u64)>, ApiError>) {
        Ok(rolls.stakers())
    }

    fn get_operations(&self, index: &Vec<OperationInfo>, ids: Vec<OperationId>) -> (r: Result<
        Vec<OperationInfo>,
        ApiError,
    >) {
        Ok(find_operations(index, &ids))
    }

    fn get_endorsements(&self, index: &Vec<EndorsementInfo>, ids: Vec<EndorsementId>) -> (r:
        Result<Vec<EndorsementInfo>, ApiError>) {
        Ok(find_endorsements(index, &ids))
    }

    fn get_block(&self, snapshot: Option<&GraphSnapshot>, id: BlockId) -> (r: Result<
        BlockInfo,
        ApiError,
    >) {
        match snapshot {
            None => Err(ApiError::Unavailable),
            Some(s) => block_info(s, id),
        }
    }

    fn get_graph_interval(
        &self,
        snapshot: Option<&GraphSnapshot>,
        time_start: Option<u64>,
        time_end: Option<u64>,
    ) -> (r: Result<Vec<BlockSummary>, ApiError>) {
        if let Some(start) = time_start {
            if let Some(end) = time_end {
                if start > end {
                    return Err(ApiError::InvalidRange);
                }
            }
        }
        match snapshot {
            None => Err(ApiError::Unavailable),
            Some(s) => graph_interval(s, time_start, time_end),
        }
    }

    fn send_operations(&self, batch: Vec<Operation>) -> (r: Result<SubmitStep, ApiError>) {
        Ok(Submission::open(batch))
    }
}

/// The members of every clique of a snapshot are blocks of that snapshot
/// that are not final, no two of them conflict, no clique can take another
/// pending block in, and exactly one clique is the preferred one.
pub proof fn law_cliques_compatible_one_preferred(graph: GraphView, cliques: Seq<CliqueView>)
    requires
        graph.wf(),
        cliques == graph.cliques,
    ensures
        forall|c: int, i: int|
            0 <= c < cliques.len() && 0 <= i < cliques[c].block_ids.len() ==> is_pending(
                graph.blocks,
                #[trigger] cliques[c].block_ids[i],
            ),
        forall|c: int, i: int, j: int|
            0 <= c < cliques.len() && 0 <= i < cliques[c].block_ids.len() && 0 <= j
                < cliques[c].block_ids.len() && i != j ==> !conflicting(
                graph.conflicts,
                #[trigger] cliques[c].block_ids[i],
                #[trigger] cliques[c].block_ids[j],
            ),
        forall|c: int, k: int|
            0 <= c < cliques.len() && 0 <= k < graph.blocks.len() && !(
            #[trigger] graph.blocks[k]).is_final && !(#[trigger] cliques[c]).block_ids.contains(
                graph.blocks[k].id,
            ) ==> blocked_by(graph.conflicts, cliques[c].block_ids, graph.blocks[k].id),
        exists|p: int| is_only_preferred(cliques, p),
{
    assert forall|c: int, i: int, j: int|
        0 <= c < cliques.len() && 0 <= i < cliques[c].block_ids.len() && 0 <= j
            < cliques[c].block_ids.len() && i != j implies !conflicting(
        graph.conflicts,
        #[trigger] cliques[c].block_ids[i],
        #[trigger] cliques[c].block_ids[j],
    ) by {
        let members = cliques[c].block_ids;
        if i < j {
            assert(!conflicting(graph.conflicts, members[i], members[j]));
        } else {
            assert(!conflicting(graph.conflicts, members[j], members[i]));
            if conflicting(graph.conflicts, members[i], members[j]) {
                let e = choose|e: int|
                    0 <= e < graph.conflicts.len() && (#[trigger] graph.conflicts[e] == (
                        members[i],
                        members[j],
                    ) || graph.conflicts[e] == (members[j], members[i]));
                assert(graph.conflicts[e] == (members[j], members[i]) || graph.conflicts[e] == (
                    members[i],
                    members[j],
                ));
            }
        }
    }
}

/// A status counts the cliques of its snapshot: the count is the length of
/// the list of cliques that the same snapshot gives.
pub proof fn law_status_counts_cliques(
    graph: GraphView,
    current_time: u64,
    peers: Option<PeerSample>,
    status: NodeStatusView,
    cliques: Seq<CliqueView>,
)
    requires
        is_status_of(graph, current_time, peers, status),
        cliques == graph.cliques,
    ensures
        status.clique_count == cliques.len(),
{
}

} // verus!
