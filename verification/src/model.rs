//! The values that queries read and return, each with its mathematical model.

use vstd::prelude::*;
use crate::ident::Address;
use crate::ident::BlockId;
use crate::ident::Digest;
use crate::slot::Slot;

verus! {

/// The fixed parameters that tie slots to wall-clock time.
#[derive(Clone, Copy, Debug, PartialEq, Eq, Structural)]
pub struct TimeConfig {
    /// The instant at which the first slot begins, in milliseconds.
    pub genesis_time: u64,
    /// The length of one slot, in milliseconds.
    pub slot_duration: u64,
    /// The number of threads of the graph.
    pub thread_count: u8,
}

impl TimeConfig {
    /// Slots have a length and there is at least one thread.
    pub open spec fn wf(self) -> bool {
        self.slot_duration > 0 && self.thread_count > 0
    }
}

/// A copy of a list of block identifiers.
pub fn copy_block_ids(ids: &Vec<BlockId>) -> (r: Vec<BlockId>)
    ensures
        r@ == ids@,
{
    let mut out: Vec<BlockId> = Vec::new();
    let mut i: usize = 0;
    while i < ids.len()
        invariant
            i <= ids.len(),
            out@ == ids@.take(i as int),
        decreases ids.len() - i,
    {
        out.push(ids[i]);
        assert(ids@.take(i + 1) == ids@.take(i as int).push(ids@[i as int]));
        i += 1;
    }
    assert(ids@.take(ids@.len() as int) == ids@);
    out
}

/// Whether `id` is one of `ids`.
pub fn holds_id(ids: &Vec<BlockId>, id: BlockId) -> (b: bool)
    ensures
        b == ids@.contains(id),
{
    let mut i: usize = 0;
    while i < ids.len()
        invariant
            i <= ids.len(),
            forall|x: int| 0 <= x < i ==> ids@[x] != id,
        decreases ids.len() - i,
    {
        if ids[i] == id {
            return true;
        }
        i += 1;
    }
    false
}

/// A copy of a byte string.
pub fn copy_bytes(bytes: &Vec<u8>) -> (r: Vec<u8>)
    ensures
        r@ == bytes@,
{
    let mut out: Vec<u8> = Vec::new();
    let mut i: usize = 0;
    while i < bytes.len()
        invariant
            i <= bytes.len(),
            out@ == bytes@.take(i as int),
        decreases bytes.len() - i,
    {
        out.push(bytes[i]);
        assert(bytes@.take(i + 1) == bytes@.take(i as int).push(bytes@[i as int]));
        i += 1;
    }
    assert(bytes@.take(bytes@.len() as int) == bytes@);
    out
}

/// What a block declares about itself.
#[derive(Debug, PartialEq, Eq)]
pub struct BlockHeader {
    /// The slot in which the block was produced.
    pub slot: Slot,
    /// The parents of the block, one per thread.
    pub parents: Vec<BlockId>,
    /// The account that produced the block.
    pub creator: Address,
    /// The Merkle root of the operations that the block includes.
    pub operation_root: Digest,
}

/// Model of a [`BlockHeader`].
pub struct BlockHeaderView {
    pub slot: Slot,
    pub parents: Seq<BlockId>,
    pub creator: Address,
    pub operation_root: Digest,
}

impl DeepView for BlockHeader {
    type V = BlockHeaderView;

    open spec fn deep_view(&self) -> BlockHeaderView {
        BlockHeaderView {
            slot: self.slot,
            parents: self.parents@,
            creator: self.creator,
            operation_root: self.operation_root,
        }
    }
}

impl Clone for BlockHeader {
    fn clone(&self) -> (r: Self)
        ensures
            r.deep_view() == self.deep_view(),
    {
        BlockHeader {
            slot: self.slot,
            parents: copy_block_ids(&self.parents),
            creator: self.creator,
            operation_root: self.operation_root,
        }
    }
}

/// A block as one snapshot shows it.
#[derive(Debug, PartialEq, Eq)]
pub struct Block {
    pub id: BlockId,
    pub header: BlockHeader,
    /// Whether consensus has certified that the block can no longer be displaced.
    pub is_final: bool,
}

/// Model of a [`Block`].
pub struct BlockView {
    pub id: BlockId,
    pub header: BlockHeaderView,
    pub is_final: bool,
}

impl DeepView for Block {
    type V = BlockView;

    open spec fn deep_view(&self) -> BlockView {
        BlockView { id: self.id, header: self.header.deep_view(), is_final: self.is_final }
    }
}

/// A set of blocks that can extend the graph together.
#[derive(Debug, PartialEq, Eq)]
pub struct Clique {
    /// The members of the clique.
    pub block_ids: Vec<BlockId>,
    /// Whether this is the clique that the node currently prefers.
    pub is_blockclique: bool,
}

/// Model of a [`Clique`].
pub struct CliqueView {
    pub block_ids: Seq<BlockId>,
    pub is_blockclique: bool,
}

impl DeepView for Clique {
    type V = CliqueView;

    open spec fn deep_view(&self) -> CliqueView {
        CliqueView { block_ids: self.block_ids@, is_blockclique: self.is_blockclique }
    }
}

impl Clone for Clique {
    fn clone(&self) -> (r: Self)
        ensures
            r.deep_view() == self.deep_view(),
    {
        Clique { block_ids: copy_block_ids(&self.block_ids), is_blockclique: self.is_blockclique }
    }
}

/// One line of the graph between two instants.
#[derive(Debug, PartialEq, Eq)]
pub struct BlockSummary {
    pub id: BlockId,
    pub slot: Slot,
    /// The instant at which the block's slot begins.
    pub timestamp: u64,
    pub creator: Address,
    pub parents: Vec<BlockId>,
    pub is_final: bool,
    pub is_in_blockclique: bool,
}

/// Model of a [`BlockSummary`].
pub struct BlockSummaryView {
    pub id: BlockId,
    pub slot: Slot,
    pub timestamp: u64,
    pub creator: Address,
    pub parents: Seq<BlockId>,
    pub is_final: bool,
    pub is_in_blockclique: bool,
}

impl DeepView for BlockSummary {
    type V = BlockSummaryView;

    open spec fn deep_view(&self) -> BlockSummaryView {
        BlockSummaryView {
            id: self.id,
            slot: self.slot,
            timestamp: self.timestamp,
            creator: self.creator,
            parents: self.parents@,
            is_final: self.is_final,
            is_in_blockclique: self.is_in_blockclique,
        }
    }
}

/// Everything a snapshot knows about one block.
#[derive(Debug, PartialEq, Eq)]
pub struct BlockInfo {
    pub id: BlockId,
    pub header: BlockHeader,
    /// The instant at which the block's slot begins.
    pub timestamp: u64,
    pub is_final: bool,
    pub is_in_blockclique: bool,
    /// The positions, in the snapshot's list of cliques, of those that hold the block.
    pub cliques: Vec<usize>,
}

/// Model of a [`BlockInfo`].
pub struct BlockInfoView {
    pub id: BlockId,
    pub header: BlockHeaderView,
    pub timestamp: u64,
    pub is_final: bool,
    pub is_in_blockclique: bool,
    pub cliques: Seq<usize>,
}

impl DeepView for BlockInfo {
    type V = BlockInfoView;

    open spec fn deep_view(&self) -> BlockInfoView {
        BlockInfoView {
            id: self.id,
            header: self.header.deep_view(),
            timestamp: self.timestamp,
            is_final: self.is_final,
            is_in_blockclique: self.is_in_blockclique,
            cliques: self.cliques@,
        }
    }
}

/// The newest final block of one thread.
#[derive(Clone, Copy, Debug, PartialEq, Eq, Structural)]
pub struct FinalBlock {
    pub id: BlockId,
    pub slot: Slot,
    /// The instant at which the block's slot begins.
    pub timestamp: u64,
}

/// How many peers were connected at some instant.
#[derive(Clone, Copy, Debug, PartialEq, Eq, Structural)]
pub struct PeerSample {
    pub count: u64,
    /// When the sample was taken, in milliseconds.
    pub taken_at: u64,
}

/// Summary of the node's state, read from one snapshot.
#[derive(Debug, PartialEq, Eq)]
pub struct NodeStatus {
    /// The wall-clock time at which the status was asked for.
    pub current_time: u64,
    /// The newest final block of each thread that has one, by ascending thread.
    pub last_final_blocks: Vec<FinalBlock>,
    pub clique_count: usize,
    pub connected_peers: u64,
}

/// Model of a [`NodeStatus`].
pub struct NodeStatusView {
    pub current_time: u64,
    pub last_final_blocks: Seq<FinalBlock>,
    pub clique_count: usize,
    pub connected_peers: u64,
}

impl DeepView for NodeStatus {
    type V = NodeStatusView;

    open spec fn deep_view(&self) -> NodeStatusView {
        NodeStatusView {
            current_time: self.current_time,
            last_final_blocks: self.last_final_blocks@,
            clique_count: self.clique_count,
            connected_peers: self.connected_peers,
        }
    }
}

} // verus!
