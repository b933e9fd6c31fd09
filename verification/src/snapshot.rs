//! The immutable, point-in-time view of the block graph that every query reads.
//!
//! A snapshot is built once, from what the consensus state showed at one
//! instant, and is checked while it is built. Queries take it by shared
//! reference, so a whole answer comes from that one instant.

use vstd::prelude::*;
use crate::ident::BlockId;
use crate::model::Block;
use crate::model::BlockView;
use crate::model::Clique;
use crate::model::CliqueView;
use crate::model::TimeConfig;
use crate::model::holds_id;

verus! {

/// Every block sits in one of the graph's threads.
pub open spec fn threads_in_range(blocks: Seq<BlockView>, thread_count: u8) -> bool {
    forall|k: int|
        0 <= k < blocks.len() ==> (#[trigger] blocks[k]).header.slot.thread < thread_count
}

/// Every block names one parent per thread; a block of the first period
/// may name none, since it begins its thread.
pub open spec fn parents_per_thread(blocks: Seq<BlockView>, thread_count: u8) -> bool {
    forall|k: int|
        0 <= k < blocks.len() ==> {
            let header = (#[trigger] blocks[k]).header;
            header.parents.len() == thread_count || (header.slot.period == 0
                && header.parents.len() == 0)
        }
}

/// No two blocks share an identifier.
pub open spec fn ids_unique(blocks: Seq<BlockView>) -> bool {
    forall|j: int, k: int|
        0 <= j < k < blocks.len() ==> (#[trigger] blocks[j]).id != (#[trigger] blocks[k]).id
}

/// No two final blocks were produced in the same slot.
pub open spec fn final_slots_unique(blocks: Seq<BlockView>) -> bool {
    forall|j: int, k: int|
        0 <= j < k < blocks.len() && (#[trigger] blocks[j]).is_final && (
        #[trigger] blocks[k]).is_final ==> blocks[j].header.slot != blocks[k].header.slot
}

/// Some block has the identifier `id`.
pub open spec fn has_block(blocks: Seq<BlockView>, id: BlockId) -> bool {
    exists|k: int| 0 <= k < blocks.len() && (#[trigger] blocks[k]).id == id
}

/// `id` identifies a block that is not final yet.
pub open spec fn is_pending(blocks: Seq<BlockView>, id: BlockId) -> bool {
    exists|k: int| 0 <= k < blocks.len() && (#[trigger] blocks[k]).id == id && !blocks[k].is_final
}

/// The two blocks are recorded as unable to stand in the graph together.
pub open spec fn conflicting(conflicts: Seq<(BlockId, BlockId)>, a: BlockId, b: BlockId) -> bool {
    exists|e: int|
        0 <= e < conflicts.len() && (#[trigger] conflicts[e] == (a, b) || conflicts[e] == (b, a))
}

/// The members of the clique are blocks that are not final yet.
pub open spec fn members_pending(blocks: Seq<BlockView>, members: Seq<BlockId>) -> bool {
    forall|i: int| 0 <= i < members.len() ==> is_pending(blocks, #[trigger] members[i])
}

/// No block is listed twice, and no two members conflict.
pub open spec fn members_compatible(
    conflicts: Seq<(BlockId, BlockId)>,
    members: Seq<BlockId>,
) -> bool {
    forall|i: int, j: int|
        0 <= i < j < members.len() ==> (#[trigger] members[i]) != (#[trigger] members[j])
            && !conflicting(conflicts, members[i], members[j])
}

/// Some member of the clique conflicts with the block `id`.
pub open spec fn blocked_by(
    conflicts: Seq<(BlockId, BlockId)>,
    members: Seq<BlockId>,
    id: BlockId,
) -> bool {
    exists|i: int| 0 <= i < members.len() && conflicting(conflicts, #[trigger] members[i], id)
}

/// The clique cannot grow: every pending block outside it conflicts with
/// one of its members.
pub open spec fn members_maximal(
    blocks: Seq<BlockView>,
    conflicts: Seq<(BlockId, BlockId)>,
    members: Seq<BlockId>,
) -> bool {
    forall|k: int|
        0 <= k < blocks.len() && !(#[trigger] blocks[k]).is_final && !members.contains(
            blocks[k].id,
        ) ==> blocked_by(conflicts, members, blocks[k].id)
}

/// Every clique is a set of pending blocks that are compatible with each
/// other, and none of them can grow.
pub open spec fn cliques_sound(
    blocks: Seq<BlockView>,
    conflicts: Seq<(BlockId, BlockId)>,
    cliques: Seq<CliqueView>,
) -> bool {
    forall|c: int|
        0 <= c < cliques.len() ==> members_pending(blocks, (#[trigger] cliques[c]).block_ids)
            && members_compatible(conflicts, cliques[c].block_ids) && members_maximal(
            blocks,
            conflicts,
            cliques[c].block_ids,
        )
}

/// The clique at position `p` is the only one marked as preferred.
pub open spec fn is_only_preferred(cliques: Seq<CliqueView>, p: int) -> bool {
    &&& 0 <= p < cliques.len()
    &&& cliques[p].is_blockclique
    &&& forall|q: int| 0 <= q < cliques.len() && (#[trigger] cliques[q]).is_blockclique ==> q == p
}

/// Exactly one clique is marked as preferred.
pub open spec fn one_preferred(cliques: Seq<CliqueView>) -> bool {
    exists|p: int| is_only_preferred(cliques, p)
}

/// Model of a [`GraphSnapshot`]: what the graph looked like at one instant.
pub struct GraphView {
    pub clock: TimeConfig,
    /// When the snapshot was taken, in milliseconds.
    pub taken_at: u64,
    pub blocks: Seq<BlockView>,
    /// The pairs of blocks that cannot stand in the graph together.
    pub conflicts: Seq<(BlockId, BlockId)>,
    pub cliques: Seq<CliqueView>,
}

impl GraphView {
    /// What makes a graph view self-consistent.
    pub open spec fn wf(self) -> bool {
        &&& self.clock.wf()
        &&& threads_in_range(self.blocks, self.clock.thread_count)
        &&& parents_per_thread(self.blocks, self.clock.thread_count)
        &&& ids_unique(self.blocks)
        &&& final_slots_unique(self.blocks)
        &&& cliques_sound(self.blocks, self.conflicts, self.cliques)
        &&& one_preferred(self.cliques)
    }
}

/// The graph view that the parts of a snapshot make up.
pub open spec fn graph_of(
    clock: TimeConfig,
    taken_at: u64,
    blocks: Vec<Block>,
    conflicts: Vec<(BlockId, BlockId)>,
    cliques: Vec<Clique>,
) -> GraphView {
    GraphView {
        clock,
        taken_at,
        blocks: blocks.deep_view(),
        conflicts: conflicts@,
        cliques: cliques.deep_view(),
    }
}

fn check_threads(blocks: &Vec<Block>, thread_count: u8) -> (ok: bool)
    ensures
        ok == threads_in_range(blocks.deep_view(), thread_count),
{
    let ghost views = blocks.deep_view();
    let mut k: usize = 0;
    while k < blocks.len()
        invariant
            k <= blocks.len(),
            views == blocks.deep_view(),
            forall|j: int| 0 <= j < k ==> (#[trigger] views[j]).header.slot.thread < thread_count,
        decreases blocks.len() - k,
    {
        if blocks[k].header.slot.thread >= thread_count {
            assert(views[k as int].header.slot.thread >= thread_count);
            return false;
        }
        k += 1;
    }
    true
}

fn check_parents(blocks: &Vec<Block>, thread_count: u8) -> (ok: bool)
    ensures
        ok == parents_per_thread(blocks.deep_view(), thread_count),
{
    let ghost views = blocks.deep_view();
    let expected: usize = thread_count as usize;
    let mut k: usize = 0;
    while k < blocks.len()
        invariant
            k <= blocks.len(),
            expected == thread_count,
            views == blocks.deep_view(),
            forall|j: int|
                0 <= j < k ==> {
                    let header = (#[trigger] views[j]).header;
                    header.parents.len() == thread_count || (header.slot.period == 0
                        && header.parents.len() == 0)
                },
        decreases blocks.len() - k,
    {
        let header = &blocks[k].header;
        let named: usize = header.parents.len();
        if !(named == expected || (header.slot.period == 0 && named == 0)) {
            assert(views[k as int].header == header.deep_view());
            return false;
        }
        k += 1;
    }
    true
}

fn check_ids_unique(blocks: &Vec<Block>) -> (ok: bool)
    ensures
        ok == ids_unique(blocks.deep_view()),
{
    let ghost views = blocks.deep_view();
    let mut k: usize = 0;
    while k < blocks.len()
        invariant
            k <= blocks.len(),
            views == blocks.deep_view(),
            forall|a: int, b: int|
                0 <= a < b < k ==> (#[trigger] views[a]).id != (#[trigger] views[b]).id,
        decreases blocks.len() - k,
    {
        let mut j: usize = 0;
        while j < k
            invariant
                j <= k < blocks.len(),
                views == blocks.deep_view(),
                forall|a: int| 0 <= a < j ==> (#[trigger] views[a]).id != views[k as int].id,
            decreases k - j,
        {
            if blocks[j].id == blocks[k].id {
                assert(views[j as int].id == views[k as int].id);
                return false;
            }
            j += 1;
        }
        k += 1;
    }
    true
}

fn check_final_slots(blocks: &Vec<Block>) -> (ok: bool)
    ensures
        ok == final_slots_unique(blocks.deep_view()),
{
    let ghost views = blocks.deep_view();
    let mut k: usize = 0;
    while k < blocks.len()
        invariant
            k <= blocks.len(),
            views == blocks.deep_view(),
            forall|a: int, b: int|
                0 <= a < b < k && (#[trigger] views[a]).is_final && (#[trigger] views[b]).is_final
                    ==> views[a].header.slot != views[b].header.slot,
        decreases blocks.len() - k,
    {
        if blocks[k].is_final {
            let mut j: usize = 0;
            while j < k
                invariant
                    j <= k < blocks.len(),
                    views == blocks.deep_view(),
                    views[k as int].is_final,
                    forall|a: int|
                        0 <= a < j && (#[trigger] views[a]).is_final ==> views[a].header.slot
                            != views[k as int].header.slot,
                decreases k - j,
            {
                if blocks[j].is_final && blocks[j].header.slot == blocks[k].header.slot {
                    assert(views[j as int].is_final && views[k as int].is_final);
                    return false;
                }
                j += 1;
            }
        }
        k += 1;
    }
    true
}

/// The position of the first block with the identifier `id`.
pub fn find_block(blocks: &Vec<Block>, id: BlockId) -> (r: Option<usize>)
    ensures
        r is Some <==> has_block(blocks.deep_view(), id),
        r matches Some(k) ==> k < blocks.len() && blocks.deep_view()[k as int].id == id
            && forall|j: int| 0 <= j < k ==> (#[trigger] blocks.deep_view()[j]).id != id,
{
    let ghost views = blocks.deep_view();
    let mut k: usize = 0;
    while k < blocks.len()
        invariant
            k <= blocks.len(),
            views == blocks.deep_view(),
            forall|j: int| 0 <= j < k ==> (#[trigger] views[j]).id != id,
        decreases blocks.len() - k,
    {
        if blocks[k].id == id {
            assert(views[k as int].id == id);
            return Some(k);
        }
        k += 1;
    }
    None
}

/// Whether the pair `a`, `b` is recorded as conflicting, in either order.
pub fn in_conflict(conflicts: &Vec<(BlockId, BlockId)>, a: BlockId, b: BlockId) -> (r: bool)
    ensures
        r == conflicting(conflicts@, a, b),
{
    let mut e: usize = 0;
    while e < conflicts.len()
        invariant
            e <= conflicts.len(),
            forall|x: int|
                0 <= x < e ==> !(#[trigger] conflicts@[x] == (a, b) || conflicts@[x] == (b, a)),
        decreases conflicts.len() - e,
    {
        let first: BlockId = conflicts[e].0;
        let second: BlockId = conflicts[e].1;
        if (first == a && second == b) || (first == b && second == a) {
            assert(conflicts@[e as int] == (a, b) || conflicts@[e as int] == (b, a));
            return true;
        }
        e += 1;
    }
    false
}

fn check_members_pending(blocks: &Vec<Block>, members: &Vec<BlockId>) -> (ok: bool)
    requires
        ids_unique(blocks.deep_view()),
    ensures
        ok == members_pending(blocks.deep_view(), members@),
{
    let ghost views = blocks.deep_view();
    let mut i: usize = 0;
    while i < members.len()
        invariant
            i <= members.len(),
            views == blocks.deep_view(),
            ids_unique(views),
            forall|x: int| 0 <= x < i ==> is_pending(views, #[trigger] members@[x]),
        decreases members.len() - i,
    {
        let member: BlockId = members[i];
        match find_block(blocks, member) {
            None => {
                assert(!is_pending(views, members@[i as int]));
                return false;
            },
            Some(k) => {
                if blocks[k].is_final {
                    assert(!is_pending(views, members@[i as int])) by {
                        assert(views[k as int].id == member && views[k as int].is_final);
                        assert forall|j: int| 0 <= j < views.len() && (#[trigger] views[j]).id
                            == member implies views[j].is_final by {
                            if j < k {
                                assert(views[j].id != views[k as int].id);
                            } else if k < j {
                                assert(views[k as int].id != views[j].id);
                            }
                        }
                    }
                    return false;
                }
                assert(views[k as int].id == member && !views[k as int].is_final);
            },
        }
        i += 1;
    }
    true
}

fn check_members_compatible(conflicts: &Vec<(BlockId, BlockId)>, members: &Vec<BlockId>) -> (ok:
    bool)
    ensures
        ok == members_compatible(conflicts@, members@),
{
    let mut j: usize = 0;
    while j < members.len()
        invariant
            j <= members.len(),
            forall|a: int, b: int|
                0 <= a < b < j ==> (#[trigger] members@[a]) != (#[trigger] members@[b])
                    && !conflicting(conflicts@, members@[a], members@[b]),
        decreases members.len() - j,
    {
        let mut i: usize = 0;
        while i < j
            invariant
                i <= j < members.len(),
                forall|a: int|
                    0 <= a < i ==> (#[trigger] members@[a]) != members@[j as int] && !conflicting(
                        conflicts@,
                        members@[a],
                        members@[j as int],
                    ),
            decreases j - i,
        {
            if members[i] == members[j] || in_conflict(conflicts, members[i], members[j]) {
                assert(members@[i as int] == members@[j as int] || conflicting(
                    conflicts@,
                    members@[i as int],
                    members@[j as int],
                ));
                return false;
            }
            i += 1;
        }
        j += 1;
    }
    true
}

fn is_blocked(conflicts: &Vec<(BlockId, BlockId)>, members: &Vec<BlockId>, id: BlockId) -> (r:
    bool)
    ensures
        r == blocked_by(conflicts@, members@, id),
{
    let mut i: usize = 0;
    while i < members.len()
        invariant
            i <= members.len(),
            forall|x: int| 0 <= x < i ==> !conflicting(conflicts@, #[trigger] members@[x], id),
        decreases members.len() - i,
    {
        if in_conflict(conflicts, members[i], id) {
            return true;
        }
        i += 1;
    }
    false
}

fn check_members_maximal(
    blocks: &Vec<Block>,
    conflicts: &Vec<(BlockId, BlockId)>,
    members: &Vec<BlockId>,
) -> (ok: bool)
    ensures
        ok == members_maximal(blocks.deep_view(), conflicts@, members@),
{
    let ghost views = blocks.deep_view();
    let mut k: usize = 0;
    while k < blocks.len()
        invariant
            k <= blocks.len(),
            views == blocks.deep_view(),
            forall|j: int|
                0 <= j < k && !(#[trigger] views[j]).is_final && !members@.contains(views[j].id)
                    ==> blocked_by(conflicts@, members@, views[j].id),
        decreases blocks.len() - k,
    {
        let block = &blocks[k];
        assert(views[k as int] == block.deep_view());
        if !block.is_final && !holds_id(members, block.id) && !is_blocked(
            conflicts,
            members,
            block.id,
        ) {
            return false;
        }
        k += 1;
    }
    true
}

fn check_cliques(
    blocks: &Vec<Block>,
    conflicts: &Vec<(BlockId, BlockId)>,
    cliques: &Vec<Clique>,
) -> (ok: bool)
    requires
        ids_unique(blocks.deep_view()),
    ensures
        ok == cliques_sound(blocks.deep_view(), conflicts@, cliques.deep_view()),
{
    let ghost views = cliques.deep_view();
    let mut c: usize = 0;
    while c < cliques.len()
        invariant
            c <= cliques.len(),
            views == cliques.deep_view(),
            ids_unique(blocks.deep_view()),
            forall|x: int|
                0 <= x < c ==> members_pending(
                    blocks.deep_view(),
                    (#[trigger] views[x]).block_ids,
                ) && members_compatible(conflicts@, views[x].block_ids) && members_maximal(
                    blocks.deep_view(),
                    conflicts@,
                    views[x].block_ids,
                ),
        decreases cliques.len() - c,
    {
        assert(views[c as int].block_ids == cliques@[c as int].block_ids@);
        if !check_members_pending(blocks, &cliques[c].block_ids) {
            return false;
        }
        if !check_members_compatible(conflicts, &cliques[c].block_ids) {
            return false;
        }
        if !check_members_maximal(blocks, conflicts, &cliques[c].block_ids) {
            return false;
        }
        c += 1;
    }
    true
}

/// The position of the preferred clique, where exactly one clique is preferred.
pub fn find_preferred(cliques: &Vec<Clique>) -> (r: Option<usize>)
    ensures
        r is Some <==> one_preferred(cliques.deep_view()),
        r matches Some(p) ==> is_only_preferred(cliques.deep_view(), p as int),
{
    let ghost views = cliques.deep_view();
    let mut found: Option<usize> = None;
    let mut c: usize = 0;
    while c < cliques.len()
        invariant
            c <= cliques.len(),
            views == cliques.deep_view(),
            found is None ==> forall|q: int| 0 <= q < c ==> !(#[trigger] views[q]).is_blockclique,
            found matches Some(p) ==> p < c && views[p as int].is_blockclique && forall|q: int|
                0 <= q < c && (#[trigger] views[q]).is_blockclique ==> q == p,
        decreases cliques.len() - c,
    {
        if cliques[c].is_blockclique {
            match found {
                Some(p) => {
                    assert(views[p as int].is_blockclique && views[c as int].is_blockclique);
                    assert forall|x: int| !is_only_preferred(views, x) by {
                        if is_only_preferred(views, x) {
                            assert(p as int == x);
                            assert(c as int == x);
                        }
                    }
                    return None;
                },
                None => {
                    found = Some(c);
                },
            }
        }
        c += 1;
    }
    proof {
        match found {
            None => {
                assert forall|x: int| !is_only_preferred(views, x) by {
                    if is_only_preferred(views, x) {
                        assert(views[x].is_blockclique);
                    }
                }
            },
            Some(p) => {
                assert(is_only_preferred(views, p as int));
            },
        }
    }
    found
}

/// An immutable view of the block graph at one instant.
///
/// Every snapshot is self-consistent: see [`GraphView::wf`].
pub struct GraphSnapshot {
    clock: TimeConfig,
    taken_at: u64,
    blocks: Vec<Block>,
    conflicts: Vec<(BlockId, BlockId)>,
    cliques: Vec<Clique>,
}

impl View for GraphSnapshot {
    type V = GraphView;

    closed spec fn view(&self) -> GraphView {
        graph_of(self.clock, self.taken_at, self.blocks, self.conflicts, self.cliques)
    }
}

impl GraphSnapshot {
    /// Holds of every snapshot.
    #[verifier::type_invariant]
    pub open spec fn inv(&self) -> bool {
        self@.wf()
    }

    /// Builds the snapshot of what consensus showed at `taken_at`.
    ///
    /// Gives `None` exactly when the parts contradict each other.
    pub fn new(
        clock: TimeConfig,
        taken_at: u64,
        blocks: Vec<Block>,
        conflicts: Vec<(BlockId, BlockId)>,
        cliques: Vec<Clique>,
    ) -> (r: Option<GraphSnapshot>)
        ensures
            r is Some <==> graph_of(clock, taken_at, blocks, conflicts, cliques).wf(),
            r matches Some(s) ==> s@ == graph_of(clock, taken_at, blocks, conflicts, cliques),
    {
        if clock.slot_duration == 0 || clock.thread_count == 0 {
            return None;
        }
        if !check_threads(&blocks, clock.thread_count) {
            return None;
        }
        if !check_parents(&blocks, clock.thread_count) {
            return None;
        }
        if !check_ids_unique(&blocks) {
            return None;
        }
        if !check_final_slots(&blocks) {
            return None;
        }
        if !check_cliques(&blocks, &conflicts, &cliques) {
            return None;
        }
        if find_preferred(&cliques).is_none() {
            return None;
        }
        Some(GraphSnapshot { clock, taken_at, blocks, conflicts, cliques })
    }

    /// The parameters that tie the snapshot's slots to wall-clock time.
    pub fn clock(&self) -> (c: TimeConfig)
        ensures
            c == self@.clock,
    {
        self.clock
    }

    /// The instant at which the snapshot was taken.
    pub fn taken_at(&self) -> (t: u64)
        ensures
            t == self@.taken_at,
    {
        self.taken_at
    }

    /// The blocks of the snapshot.
    pub fn blocks(&self) -> (r: &Vec<Block>)
        ensures
            r.deep_view() == self@.blocks,
    {
        &self.blocks
    }

    /// The recorded conflicts between blocks.
    pub fn conflicts(&self) -> (r: &Vec<(BlockId, BlockId)>)
        ensures
            r@ == self@.conflicts,
    {
        &self.conflicts
    }

    /// The cliques of the snapshot.
    pub fn cliques(&self) -> (r: &Vec<Clique>)
        ensures
            r.deep_view() == self@.cliques,
    {
        &self.cliques
    }

    /// Whether the snapshot may still answer a query that arrives at `now`:
    /// it was taken at most `max_staleness` milliseconds before.
    pub fn is_fresh(&self, now: u64, max_staleness: u64) -> (fresh: bool)
        ensures
            fresh == (self@.taken_at <= now && now - self@.taken_at <= max_staleness),
    {
        self.taken_at <= now && now - self.taken_at <= max_staleness
    }
}

} // verus!
