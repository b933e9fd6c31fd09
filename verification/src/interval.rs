//! The part of the graph that lies between two instants.
//!
//! A block belongs to the interval when the instant at which its slot begins
//! is not before the start and is before the end. The blocks come out by
//! ascending slot, and within one slot by ascending identifier.

use vstd::prelude::*;
use crate::error::ApiError;
use crate::ident::BlockId;
use crate::model::BlockSummary;
use crate::model::BlockSummaryView;
use crate::model::Clique;
use crate::model::CliqueView;
use crate::model::TimeConfig;
use crate::model::copy_block_ids;
use crate::model::holds_id;
use crate::order::ascending;
use crate::order::lemma_ascending_same_members_equal;
use crate::slot::Slot;
use crate::slot::slot_of;
use crate::slot::spec_time_of;
use crate::slot::time_of;
use crate::snapshot::GraphSnapshot;
use crate::snapshot::GraphView;
use crate::snapshot::find_preferred;
use crate::snapshot::is_only_preferred;
use crate::snapshot::one_preferred;

verus! {

/// The timestamp that a snapshot's clock gives to a slot.
pub open spec fn slot_time(clock: TimeConfig, slot: Slot) -> int {
    spec_time_of(slot, clock.genesis_time, clock.slot_duration, clock.thread_count)
}

/// Whether `t` lies in the half-open interval from `start` to `end`.
/// A missing start admits every instant from genesis on, a missing end every later one.
pub open spec fn in_interval(t: int, start: Option<u64>, end: Option<u64>) -> bool {
    &&& start matches Some(s) ==> s <= t
    &&& end matches Some(e) ==> t < e
}

/// Whether the preferred clique holds the block `id`.
pub open spec fn preferred_holds(cliques: Seq<CliqueView>, id: BlockId) -> bool {
    exists|c: int|
        0 <= c < cliques.len() && (#[trigger] cliques[c]).is_blockclique
            && cliques[c].block_ids.contains(id)
}

/// The summary of the block at position `k` of the graph.
pub open spec fn summary_of(graph: GraphView, k: int) -> BlockSummaryView {
    let block = graph.blocks[k];
    BlockSummaryView {
        id: block.id,
        slot: block.header.slot,
        timestamp: slot_time(graph.clock, block.header.slot) as u64,
        creator: block.header.creator,
        parents: block.header.parents,
        is_final: block.is_final,
        is_in_blockclique: preferred_holds(graph.cliques, block.id),
    }
}

/// Whether the block at position `k` belongs to the interval.
pub open spec fn selected(graph: GraphView, start: Option<u64>, end: Option<u64>, k: int) -> bool {
    in_interval(slot_time(graph.clock, graph.blocks[k].header.slot), start, end)
}

/// The order of the answer: by slot, then by identifier.
pub open spec fn summary_lt(a: BlockSummaryView, b: BlockSummaryView) -> bool {
    a.slot.spec_lt(b.slot) || (a.slot == b.slot && a.id.digest.spec_lt(b.id.digest))
}

/// Whether the summaries stand in strictly ascending order.
pub open spec fn sorted(r: Seq<BlockSummaryView>) -> bool {
    forall|i: int, j: int| 0 <= i < j < r.len() ==> summary_lt(#[trigger] r[i], #[trigger] r[j])
}

/// Whether `item` is the summary of one of the first `n` blocks, and that
/// block belongs to the interval.
pub open spec fn drawn_from(
    graph: GraphView,
    start: Option<u64>,
    end: Option<u64>,
    n: int,
    item: BlockSummaryView,
) -> bool {
    exists|k: int|
        0 <= k < n && selected(graph, start, end, k) && item == #[trigger] summary_of(graph, k)
}

/// Whether `r` holds, in order, the summaries of exactly those of the first
/// `n` blocks that belong to the interval.
pub open spec fn covers(
    graph: GraphView,
    start: Option<u64>,
    end: Option<u64>,
    n: int,
    r: Seq<BlockSummaryView>,
) -> bool {
    &&& sorted(r)
    &&& forall|q: int| 0 <= q < r.len() ==> drawn_from(graph, start, end, n, #[trigger] r[q])
    &&& forall|k: int|
        0 <= k < n && #[trigger] selected(graph, start, end, k) ==> r.contains(
            summary_of(graph, k),
        )
}

/// Whether `r` is the graph between `start` and `end`.
pub open spec fn is_interval_of(
    graph: GraphView,
    start: Option<u64>,
    end: Option<u64>,
    r: Seq<BlockSummaryView>,
) -> bool {
    covers(graph, start, end, graph.blocks.len() as int, r)
}

/// Whether the start lies after the end.
pub open spec fn range_inverted(start: Option<u64>, end: Option<u64>) -> bool {
    start matches Some(s) && end matches Some(e) && s > e
}

/// Whether one of the bounds lies before genesis.
pub open spec fn bound_before_genesis(
    clock: TimeConfig,
    start: Option<u64>,
    end: Option<u64>,
) -> bool {
    ||| start matches Some(s) && s < clock.genesis_time
    ||| end matches Some(e) && e < clock.genesis_time
}

proof fn lemma_lt_transitive(a: BlockSummaryView, b: BlockSummaryView, c: BlockSummaryView)
    requires
        summary_lt(a, b),
        summary_lt(b, c),
    ensures
        summary_lt(a, c),
{
}

proof fn lemma_lt_total(a: BlockSummaryView, b: BlockSummaryView)
    requires
        a.id != b.id,
    ensures
        summary_lt(a, b) || summary_lt(b, a),
{
}

/// Whether the preferred clique holds the block `id`.
pub fn is_in_blockclique(cliques: &Vec<Clique>, id: BlockId) -> (b: bool)
    requires
        one_preferred(cliques.deep_view()),
    ensures
        b == preferred_holds(cliques.deep_view(), id),
{
    let ghost views = cliques.deep_view();
    match find_preferred(cliques) {
        None => false,
        Some(p) => {
            let b = holds_id(&cliques[p].block_ids, id);
            proof {
                assert(views[p as int].block_ids == cliques@[p as int].block_ids@);
                assert(is_only_preferred(views, p as int));
                if preferred_holds(views, id) {
                    let c = choose|c: int|
                        0 <= c < views.len() && (#[trigger] views[c]).is_blockclique
                            && views[c].block_ids.contains(id);
                    assert(c == p);
                }
            }
            b
        },
    }
}

/// The summary of the block at position `k` of the snapshot.
pub fn summarize(snapshot: &GraphSnapshot, k: usize) -> (s: BlockSummary)
    requires
        k < snapshot@.blocks.len(),
    ensures
        s.deep_view() == summary_of(snapshot@, k as int),
{
    proof {
        use_type_invariant(snapshot);
    }
    let clock = snapshot.clock();
    let block = &snapshot.blocks()[k];
    let slot = block.header.slot;
    BlockSummary {
        id: block.id,
        slot,
        timestamp: time_of(slot, clock.genesis_time, clock.slot_duration, clock.thread_count),
        creator: block.header.creator,
        parents: copy_block_ids(&block.header.parents),
        is_final: block.is_final,
        is_in_blockclique: is_in_blockclique(snapshot.cliques(), block.id),
    }
}

fn precedes(a: &BlockSummary, b: &BlockSummary) -> (r: bool)
    ensures
        r == summary_lt(a.deep_view(), b.deep_view()),
{
    a.slot.lt(&b.slot) || (a.slot == b.slot && a.id.digest.lt(&b.id.digest))
}

fn insert_sorted(out: &mut Vec<BlockSummary>, item: BlockSummary) -> (p: usize)
    requires
        sorted(old(out).deep_view()),
        forall|q: int| 0 <= q < old(out).len() ==> (#[trigger] old(out).deep_view()[q]).id != item.id,
    ensures
        p <= old(out).len(),
        final(out).deep_view() == old(out).deep_view().insert(p as int, item.deep_view()),
        sorted(final(out).deep_view()),
{
    let ghost before = out.deep_view();
    let ghost added = item.deep_view();
    let mut p: usize = 0;
    while p < out.len() && precedes(&out[p], &item)
        invariant
            p <= out.len(),
            before == out.deep_view(),
            added == item.deep_view(),
            forall|q: int| 0 <= q < p ==> summary_lt(#[trigger] before[q], added),
        decreases out.len() - p,
    {
        p += 1;
    }
    out.insert(p, item);
    proof {
        let after = out.deep_view();
        before.insert_ensures(p as int, added);
        old(out)@.insert_ensures(p as int, item);
        assert(after =~= before.insert(p as int, added)) by {
            assert forall|i: int| 0 <= i < after.len() implies after[i] == before.insert(
                p as int,
                added,
            )[i] by {
                if i < p {
                    assert(out@[i] == old(out)@[i]);
                } else if i > p {
                    assert(out@[i] == old(out)@[i - 1]);
                    assert(before.insert(p as int, added)[(i - 1) + 1] == before[i - 1]);
                }
            }
        }
        assert forall|q: int| p <= q < before.len() implies summary_lt(added, #[trigger] before[q]) by {
            assert(!summary_lt(before[p as int], added));
            assert(before[p as int].id != added.id);
            lemma_lt_total(before[p as int], added);
            if q > p {
                lemma_lt_transitive(added, before[p as int], before[q]);
            }
        }
        assert forall|i: int, j: int| 0 <= i < j < after.len() implies summary_lt(
            #[trigger] after[i],
            #[trigger] after[j],
        ) by {
            if j < p {
                assert(after[i] == before[i] && after[j] == before[j]);
            } else if j == p {
                assert(after[i] == before[i] && after[j] == added);
            } else if i < p {
                assert(after[i] == before[i]);
                assert(before.insert(p as int, added)[(j - 1) + 1] == before[j - 1]);
            } else if i == p {
                assert(before.insert(p as int, added)[(j - 1) + 1] == before[j - 1]);
            } else {
                assert(before.insert(p as int, added)[(i - 1) + 1] == before[i - 1]);
                assert(before.insert(p as int, added)[(j - 1) + 1] == before[j - 1]);
            }
        }
    }
    p
}

proof fn lemma_drawn_from_more(
    graph: GraphView,
    start: Option<u64>,
    end: Option<u64>,
    n: int,
    item: BlockSummaryView,
)
    requires
        drawn_from(graph, start, end, n, item),
    ensures
        drawn_from(graph, start, end, n + 1, item),
{
    let k = choose|k: int|
        0 <= k < n && selected(graph, start, end, k) && item == #[trigger] summary_of(graph, k);
    assert(0 <= k < n + 1 && selected(graph, start, end, k) && item == summary_of(graph, k));
}

proof fn lemma_covers_skip(
    graph: GraphView,
    start: Option<u64>,
    end: Option<u64>,
    n: int,
    r: Seq<BlockSummaryView>,
)
    requires
        0 <= n,
        covers(graph, start, end, n, r),
        !selected(graph, start, end, n),
    ensures
        covers(graph, start, end, n + 1, r),
{
    assert forall|q: int| 0 <= q < r.len() implies drawn_from(
        graph,
        start,
        end,
        n + 1,
        #[trigger] r[q],
    ) by {
        lemma_drawn_from_more(graph, start, end, n, r[q]);
    }
}

proof fn lemma_covers_insert(
    graph: GraphView,
    start: Option<u64>,
    end: Option<u64>,
    n: int,
    r: Seq<BlockSummaryView>,
    p: int,
    grown: Seq<BlockSummaryView>,
)
    requires
        0 <= n,
        covers(graph, start, end, n, r),
        selected(graph, start, end, n),
        0 <= p <= r.len(),
        grown == r.insert(p, summary_of(graph, n)),
        sorted(grown),
    ensures
        covers(graph, start, end, n + 1, grown),
{
    let added = summary_of(graph, n);
    r.insert_ensures(p, added);
    assert forall|q: int| 0 <= q < grown.len() implies drawn_from(
        graph,
        start,
        end,
        n + 1,
        #[trigger] grown[q],
    ) by {
        if q == p {
            assert(0 <= n < n + 1 && selected(graph, start, end, n) && grown[q] == summary_of(
                graph,
                n,
            ));
        } else {
            let from = if q < p {
                q
            } else {
                q - 1
            };
            assert(grown[(q - 1) + 1] == grown[q]);
            assert(grown[q] == r[from]);
            lemma_drawn_from_more(graph, start, end, n, r[from]);
        }
    }
    assert forall|k: int| 0 <= k < n + 1 && #[trigger] selected(graph, start, end, k) implies grown.contains(
        summary_of(graph, k),
    ) by {
        if k == n {
            assert(grown[p] == summary_of(graph, k));
        } else {
            let q = choose|q: int| 0 <= q < r.len() && r[q] == summary_of(graph, k);
            if q < p {
                assert(grown[q] == r[q]);
            } else {
                assert(grown[q + 1] == r[q]);
            }
        }
    }
}

/// The blocks of the snapshot whose slot begins at or after `time_start` and
/// before `time_end`, by ascending slot and then by ascending identifier.
///
/// A missing bound is no bound. Fails with `InvalidRange` when the start lies
/// after the end, and otherwise with `InvalidTime` when a bound lies before
/// genesis.
pub fn graph_interval(
    snapshot: &GraphSnapshot,
    time_start: Option<u64>,
    time_end: Option<u64>,
) -> (r: Result<Vec<BlockSummary>, ApiError>)
    ensures
        range_inverted(time_start, time_end) ==> (r matches Err(e) && e == ApiError::InvalidRange),
        !range_inverted(time_start, time_end) && bound_before_genesis(
            snapshot@.clock,
            time_start,
            time_end,
        ) ==> (r matches Err(e) && e == ApiError::InvalidTime),
        !range_inverted(time_start, time_end) && !bound_before_genesis(
            snapshot@.clock,
            time_start,
            time_end,
        ) ==> (r matches Ok(v) && is_interval_of(snapshot@, time_start, time_end, v.deep_view())),
{
    proof {
        use_type_invariant(snapshot);
    }
    let clock = snapshot.clock();
    if let Some(s) = time_start {
        if let Some(e) = time_end {
            if s > e {
                return Err(ApiError::InvalidRange);
            }
        }
    }
    if let Some(s) = time_start {
        if let Err(e) = slot_of(s, clock.genesis_time, clock.slot_duration, clock.thread_count) {
            return Err(e);
        }
    }
    if let Some(e) = time_end {
        if let Err(err) = slot_of(e, clock.genesis_time, clock.slot_duration, clock.thread_count) {
            return Err(err);
        }
    }
    let ghost graph = snapshot@;
    let blocks = snapshot.blocks();
    let mut out: Vec<BlockSummary> = Vec::new();
    let mut k: usize = 0;
    while k < blocks.len()
        invariant
            k <= blocks.len(),
            graph == snapshot@,
            graph.wf(),
            clock == graph.clock,
            blocks.deep_view() == graph.blocks,
            covers(graph, time_start, time_end, k as int, out.deep_view()),
        decreases blocks.len() - k,
    {
        let slot = blocks[k].header.slot;
        let t = time_of(slot, clock.genesis_time, clock.slot_duration, clock.thread_count);
        assert(graph.blocks[k as int].header.slot == slot);
        let after_start = match time_start {
            Some(s) => s <= t,
            None => true,
        };
        let before_end = match time_end {
            Some(e) => t < e,
            None => true,
        };
        if after_start && before_end {
            let item = summarize(snapshot, k);
            let ghost before = out.deep_view();
            proof {
                assert forall|q: int| 0 <= q < out.len() implies (#[trigger] before[q]).id
                    != item.id by {
                    let earlier = before[q];
                    assert(drawn_from(graph, time_start, time_end, k as int, earlier));
                    let j = choose|j: int|
                        0 <= j < k && selected(graph, time_start, time_end, j) && earlier
                            == #[trigger] summary_of(graph, j);
                    assert(graph.blocks[j].id != graph.blocks[k as int].id);
                }
            }
            let p = insert_sorted(&mut out, item);
            proof {
                lemma_covers_insert(
                    graph,
                    time_start,
                    time_end,
                    k as int,
                    before,
                    p as int,
                    out.deep_view(),
                );
            }
        } else {
            proof {
                lemma_covers_skip(graph, time_start, time_end, k as int, out.deep_view());
            }
        }
        k += 1;
    }
    Ok(out)
}

/// What an interval holds lies within its bounds and stands in order: every
/// block's slot begins at or after the start and before the end, and the
/// blocks ascend by period, then thread, then identifier.
pub proof fn law_interval_within_bounds_and_ordered(
    graph: GraphView,
    start: Option<u64>,
    end: Option<u64>,
    r: Seq<BlockSummaryView>,
)
    requires
        graph.wf(),
        is_interval_of(graph, start, end, r),
    ensures
        forall|i: int|
            0 <= i < r.len() ==> in_interval((#[trigger] r[i]).timestamp as int, start, end),
        forall|i: int, j: int|
            0 <= i < j < r.len() ==> {
                let a = #[trigger] r[i];
                let b = #[trigger] r[j];
                ||| a.slot.period < b.slot.period
                ||| a.slot.period == b.slot.period && a.slot.thread < b.slot.thread
                ||| a.slot == b.slot && a.id.digest.spec_lt(b.id.digest)
            },
{
    assert forall|i: int| 0 <= i < r.len() implies in_interval(
        (#[trigger] r[i]).timestamp as int,
        start,
        end,
    ) by {
        assert(drawn_from(graph, start, end, graph.blocks.len() as int, r[i]));
    }
    assert forall|i: int, j: int| 0 <= i < j < r.len() implies {
        let a = #[trigger] r[i];
        let b = #[trigger] r[j];
        ||| a.slot.period < b.slot.period
        ||| a.slot.period == b.slot.period && a.slot.thread < b.slot.thread
        ||| a.slot == b.slot && a.id.digest.spec_lt(b.id.digest)
    } by {
        assert(summary_lt(r[i], r[j]));
    }
}

proof fn lemma_covers_same_members(
    graph: GraphView,
    start: Option<u64>,
    end: Option<u64>,
    n: int,
    a: Seq<BlockSummaryView>,
    b: Seq<BlockSummaryView>,
    x: BlockSummaryView,
)
    requires
        covers(graph, start, end, n, a),
        covers(graph, start, end, n, b),
        a.contains(x),
    ensures
        b.contains(x),
{
    let q = choose|q: int| 0 <= q < a.len() && a[q] == x;
    assert(drawn_from(graph, start, end, n, a[q]));
    let k = choose|k: int|
        0 <= k < n && selected(graph, start, end, k) && x == #[trigger] summary_of(graph, k);
    assert(b.contains(summary_of(graph, k)));
}

/// The graph between two instants is one sequence and no other: the same
/// snapshot and the same bounds always give the same answer.
pub proof fn law_interval_unique(
    graph: GraphView,
    start: Option<u64>,
    end: Option<u64>,
    a: Seq<BlockSummaryView>,
    b: Seq<BlockSummaryView>,
)
    requires
        is_interval_of(graph, start, end, a),
        is_interval_of(graph, start, end, b),
    ensures
        a == b,
{
    let n = graph.blocks.len() as int;
    assert forall|x: BlockSummaryView| a.contains(x) <==> b.contains(x) by {
        if a.contains(x) {
            lemma_covers_same_members(graph, start, end, n, a, b, x);
        }
        if b.contains(x) {
            lemma_covers_same_members(graph, start, end, n, b, a, x);
        }
    }
    let lt = |x: BlockSummaryView, y: BlockSummaryView| summary_lt(x, y);
    assert(ascending(a, lt)) by {
        assert forall|i: int, j: int| 0 <= i < j < a.len() implies lt(
            #[trigger] a[i],
            #[trigger] a[j],
        ) by {
            assert(summary_lt(a[i], a[j]));
        }
    }
    assert(ascending(b, lt)) by {
        assert forall|i: int, j: int| 0 <= i < j < b.len() implies lt(
            #[trigger] b[i],
            #[trigger] b[j],
        ) by {
            assert(summary_lt(b[i], b[j]));
        }
    }
    lemma_ascending_same_members_equal(a, b, lt);
}

proof fn lemma_covers_same_selection(
    graph: GraphView,
    start: Option<u64>,
    end: Option<u64>,
    other_start: Option<u64>,
    other_end: Option<u64>,
    r: Seq<BlockSummaryView>,
)
    requires
        is_interval_of(graph, start, end, r),
        forall|k: int|
            0 <= k < graph.blocks.len() ==> (#[trigger] selected(graph, start, end, k)
                <==> selected(graph, other_start, other_end, k)),
    ensures
        is_interval_of(graph, other_start, other_end, r),
{
    let n = graph.blocks.len() as int;
    assert forall|q: int| 0 <= q < r.len() implies drawn_from(
        graph,
        other_start,
        other_end,
        n,
        #[trigger] r[q],
    ) by {
        let item = r[q];
        assert(drawn_from(graph, start, end, n, item));
        let k = choose|k: int|
            0 <= k < n && selected(graph, start, end, k) && item == #[trigger] summary_of(graph, k);
        assert(0 <= k < n && selected(graph, other_start, other_end, k) && item == summary_of(
            graph,
            k,
        ));
    }
    assert forall|k: int|
        0 <= k < n && #[trigger] selected(graph, other_start, other_end, k) implies r.contains(
        summary_of(graph, k),
    ) by {
        assert(selected(graph, start, end, k));
    }
}

/// Asking without bounds is asking from genesis to the end of the newest slot.
///
/// `newest` stands for the timestamp of the newest slot that the snapshot
/// knows: no block's slot begins after it. The end of that slot has to be a
/// timestamp itself.
pub proof fn law_unbounded_is_genesis_to_newest(
    graph: GraphView,
    newest: u64,
    unbounded: Seq<BlockSummaryView>,
    bounded: Seq<BlockSummaryView>,
)
    requires
        graph.wf(),
        forall|k: int|
            0 <= k < graph.blocks.len() ==> slot_time(
                graph.clock,
                (#[trigger] graph.blocks[k]).header.slot,
            ) <= newest,
        newest + graph.clock.slot_duration <= u64::MAX,
        is_interval_of(graph, None, None, unbounded),
        is_interval_of(
            graph,
            Some(graph.clock.genesis_time),
            Some((newest + graph.clock.slot_duration) as u64),
            bounded,
        ),
    ensures
        unbounded == bounded,
{
    let start = Some(graph.clock.genesis_time);
    let end = Some((newest + graph.clock.slot_duration) as u64);
    assert forall|k: int| 0 <= k < graph.blocks.len() implies (#[trigger] selected(
        graph,
        None,
        None,
        k,
    ) <==> selected(graph, start, end, k)) by {
        let slot = graph.blocks[k].header.slot;
        assert(0 <= slot.index(graph.clock.thread_count) * graph.clock.slot_duration)
            by (nonlinear_arith)
            requires
                0 <= slot.index(graph.clock.thread_count),
                0 <= graph.clock.slot_duration,
        ;
        assert(0 <= slot.period * graph.clock.thread_count) by (nonlinear_arith);
    }
    lemma_covers_same_selection(graph, None, None, start, end, unbounded);
    law_interval_unique(graph, start, end, unbounded, bounded);
}

} // verus!
