//! Batch lookups of operations and endorsements by identifier.
//!
//! A lookup is best effort: every requested identifier that the index holds
//! gives one entry of the answer, in the order of the request; identifiers
//! that the index lacks are passed over, and so is an identifier that was
//! already requested earlier in the same batch.

use vstd::prelude::*;
use crate::ident::BlockId;
use crate::ident::Digest;
use crate::ident::EndorsementId;
use crate::ident::OperationId;
use crate::model::copy_block_ids;
use crate::model::copy_bytes;
use crate::operation::Operation;
use crate::operation::OperationView;
use crate::slot::Slot;

verus! {

/// Whether `k` is the first position of `keys` that holds `key`.
pub open spec fn is_first_match(keys: Seq<Digest>, key: Digest, k: int) -> bool {
    &&& 0 <= k < keys.len()
    &&& keys[k] == key
    &&& forall|j: int| 0 <= j < k ==> keys[j] != key
}

/// The first position of `keys` that holds `key`, where there is one.
pub open spec fn first_match(keys: Seq<Digest>, key: Digest) -> int {
    choose|k: int| is_first_match(keys, key, k)
}

/// The positions in `keys` of the keys that are wanted: one position for
/// each wanted key that `keys` holds, in the order in which the keys are
/// first wanted.
pub open spec fn resolved(keys: Seq<Digest>, wanted: Seq<Digest>) -> Seq<usize>
    decreases wanted.len(),
{
    if wanted.len() == 0 {
        Seq::empty()
    } else {
        let earlier = wanted.drop_last();
        let key = wanted.last();
        let rest = resolved(keys, earlier);
        if !earlier.contains(key) && keys.contains(key) {
            rest.push(first_match(keys, key) as usize)
        } else {
            rest
        }
    }
}

/// The entries at the given positions.
pub open spec fn picked<T>(entries: Seq<T>, positions: Seq<usize>) -> Seq<T> {
    Seq::new(positions.len(), |i: int| entries[positions[i] as int])
}

/// The first position of `keys` that holds `key`.
pub fn position_of(keys: &Vec<Digest>, key: Digest) -> (r: Option<usize>)
    ensures
        r is Some <==> keys@.contains(key),
        r matches Some(k) ==> k == first_match(keys@, key) && is_first_match(keys@, key, k as int),
{
    let mut k: usize = 0;
    while k < keys.len()
        invariant
            k <= keys.len(),
            forall|j: int| 0 <= j < k ==> keys@[j] != key,
        decreases keys.len() - k,
    {
        if keys[k] == key {
            assert(is_first_match(keys@, key, k as int));
            let ghost chosen = first_match(keys@, key);
            assert(is_first_match(keys@, key, chosen));
            assert(chosen == k);
            return Some(k);
        }
        k += 1;
    }
    None
}

fn wanted_before(wanted: &Vec<Digest>, i: usize) -> (b: bool)
    requires
        i < wanted.len(),
    ensures
        b == wanted@.take(i as int).contains(wanted@[i as int]),
{
    let mut j: usize = 0;
    while j < i
        invariant
            j <= i < wanted.len(),
            forall|x: int| 0 <= x < j ==> wanted@[x] != wanted@[i as int],
        decreases i - j,
    {
        if wanted[j] == wanted[i] {
            assert(wanted@.take(i as int)[j as int] == wanted@[i as int]);
            return true;
        }
        j += 1;
    }
    assert forall|x: int| 0 <= x < wanted@.take(i as int).len() implies wanted@.take(i as int)[x]
        != wanted@[i as int] by {
        assert(wanted@.take(i as int)[x] == wanted@[x]);
    }
    false
}

/// The positions in `keys` of the keys that are wanted.
pub fn resolve(keys: &Vec<Digest>, wanted: &Vec<Digest>) -> (r: Vec<usize>)
    ensures
        r@ == resolved(keys@, wanted@),
{
    let mut out: Vec<usize> = Vec::new();
    let mut i: usize = 0;
    while i < wanted.len()
        invariant
            i <= wanted.len(),
            out@ == resolved(keys@, wanted@.take(i as int)),
        decreases wanted.len() - i,
    {
        proof {
            let next = wanted@.take(i + 1);
            assert(next.drop_last() =~= wanted@.take(i as int));
            assert(next.last() == wanted@[i as int]);
        }
        if !wanted_before(wanted, i) {
            if let Some(k) = position_of(keys, wanted[i]) {
                out.push(k);
            }
        }
        i += 1;
    }
    proof {
        assert(wanted@.take(wanted.len() as int) =~= wanted@);
    }
    out
}

/// Every position of the answer holds a key that was wanted; no key is
/// answered twice; and every wanted key that `keys` holds is answered.
pub proof fn law_resolved_once_each(keys: Seq<Digest>, wanted: Seq<Digest>)
    requires
        keys.len() <= usize::MAX,
    ensures
        forall|i: int|
            0 <= i < resolved(keys, wanted).len() ==> {
                let p = #[trigger] resolved(keys, wanted)[i];
                p < keys.len() && wanted.contains(keys[p as int]) && is_first_match(
                    keys,
                    keys[p as int],
                    p as int,
                )
            },
        forall|i: int, j: int|
            0 <= i < j < resolved(keys, wanted).len() ==> keys[#[trigger] resolved(
                keys,
                wanted,
            )[i] as int] != keys[#[trigger] resolved(keys, wanted)[j] as int],
        forall|w: int|
            0 <= w < wanted.len() && keys.contains(#[trigger] wanted[w]) ==> exists|i: int|
                0 <= i < resolved(keys, wanted).len() && keys[#[trigger] resolved(
                    keys,
                    wanted,
                )[i] as int] == wanted[w],
    decreases wanted.len(),
{
    if wanted.len() > 0 {
        let earlier = wanted.drop_last();
        let key = wanted.last();
        let rest = resolved(keys, earlier);
        let all = resolved(keys, wanted);
        law_resolved_once_each(keys, earlier);
        let fresh = !earlier.contains(key) && keys.contains(key);
        if fresh {
            let k = first_match(keys, key);
            let at = choose|x: int| 0 <= x < keys.len() && keys[x] == key;
            lemma_first_match_exists(keys, key, at);
            assert(is_first_match(keys, key, k));
            assert(all == rest.push(k as usize));
        } else {
            assert(all == rest);
        }
        assert forall|i: int| 0 <= i < all.len() implies {
            let p = #[trigger] all[i];
            p < keys.len() && wanted.contains(keys[p as int]) && is_first_match(
                keys,
                keys[p as int],
                p as int,
            )
        } by {
            if i < rest.len() {
                let p = rest[i];
                assert(all[i] == p);
                let e = choose|e: int| 0 <= e < earlier.len() && earlier[e] == keys[p as int];
                assert(wanted[e] == keys[p as int]);
            } else {
                assert(wanted[wanted.len() - 1] == key);
            }
        }
        assert forall|i: int, j: int| 0 <= i < j < all.len() implies keys[#[trigger] all[i] as int]
            != keys[#[trigger] all[j] as int] by {
            if j < rest.len() {
                assert(all[i] == rest[i] && all[j] == rest[j]);
            } else {
                let p = rest[i];
                assert(all[i] == p);
                assert(earlier.contains(keys[p as int]));
            }
        }
        assert forall|w: int|
            0 <= w < wanted.len() && keys.contains(#[trigger] wanted[w]) implies exists|i: int|
            0 <= i < all.len() && keys[#[trigger] all[i] as int] == wanted[w] by {
            if w < earlier.len() {
                assert(earlier[w] == wanted[w]);
                let i = choose|i: int|
                    0 <= i < rest.len() && keys[#[trigger] rest[i] as int] == earlier[w];
                assert(all[i] == rest[i]);
            } else if fresh {
                assert(keys[all[all.len() - 1] as int] == key);
            } else {
                let e = choose|e: int| 0 <= e < earlier.len() && earlier[e] == key;
                assert(keys.contains(earlier[e]));
                let i = choose|i: int|
                    0 <= i < rest.len() && keys[#[trigger] rest[i] as int] == earlier[e];
                assert(all[i] == rest[i]);
            }
        }
    }
}

proof fn lemma_first_match_exists(keys: Seq<Digest>, key: Digest, at: int)
    requires
        0 <= at < keys.len(),
        keys[at] == key,
    ensures
        exists|k: int| is_first_match(keys, key, k),
    decreases at,
{
    if exists|j: int| 0 <= j < at && keys[j] == key {
        let j = choose|j: int| 0 <= j < at && keys[j] == key;
        lemma_first_match_exists(keys, key, j);
    } else {
        assert(is_first_match(keys, key, at));
    }
}

/// What the node knows about one operation.
#[derive(Debug, PartialEq, Eq)]
pub struct OperationInfo {
    pub id: OperationId,
    /// Whether the operation waits in the pool.
    pub in_pool: bool,
    /// The blocks that include the operation.
    pub in_blocks: Vec<BlockId>,
    /// Whether a final block includes the operation.
    pub is_final: bool,
    pub operation: Operation,
}

/// Model of an [`OperationInfo`].
pub struct OperationInfoView {
    pub id: OperationId,
    pub in_pool: bool,
    pub in_blocks: Seq<BlockId>,
    pub is_final: bool,
    pub operation: OperationView,
}

impl DeepView for OperationInfo {
    type V = OperationInfoView;

    open spec fn deep_view(&self) -> OperationInfoView {
        OperationInfoView {
            id: self.id,
            in_pool: self.in_pool,
            in_blocks: self.in_blocks@,
            is_final: self.is_final,
            operation: self.operation.deep_view(),
        }
    }
}

impl Clone for OperationInfo {
    fn clone(&self) -> (r: Self)
        ensures
            r.deep_view() == self.deep_view(),
    {
        OperationInfo {
            id: self.id,
            in_pool: self.in_pool,
            in_blocks: copy_block_ids(&self.in_blocks),
            is_final: self.is_final,
            operation: self.operation.clone(),
        }
    }
}

/// A vote of a staker for the block that a slot should build on.
#[derive(Debug, PartialEq, Eq)]
pub struct Endorsement {
    /// The public key of the staker that endorses.
    pub sender_public_key: Vec<u8>,
    /// The slot of the block that carries the endorsement.
    pub slot: Slot,
    /// The place of the endorsement among those of its slot.
    pub index: u32,
    pub endorsed_block: BlockId,
    pub signature: Vec<u8>,
}

/// Model of an [`Endorsement`].
pub struct EndorsementView {
    pub sender_public_key: Seq<u8>,
    pub slot: Slot,
    pub index: u32,
    pub endorsed_block: BlockId,
    pub signature: Seq<u8>,
}

impl DeepView for Endorsement {
    type V = EndorsementView;

    open spec fn deep_view(&self) -> EndorsementView {
        EndorsementView {
            sender_public_key: self.sender_public_key@,
            slot: self.slot,
            index: self.index,
            endorsed_block: self.endorsed_block,
            signature: self.signature@,
        }
    }
}

impl Clone for Endorsement {
    fn clone(&self) -> (r: Self)
        ensures
            r.deep_view() == self.deep_view(),
    {
        Endorsement {
            sender_public_key: copy_bytes(&self.sender_public_key),
            slot: self.slot,
            index: self.index,
            endorsed_block: self.endorsed_block,
            signature: copy_bytes(&self.signature),
        }
    }
}

/// What the node knows about one endorsement.
#[derive(Debug, PartialEq, Eq)]
pub struct EndorsementInfo {
    pub id: EndorsementId,
    /// Whether the endorsement waits in the pool.
    pub in_pool: bool,
    /// The blocks that include the endorsement.
    pub in_blocks: Vec<BlockId>,
    /// Whether a final block includes the endorsement.
    pub is_final: bool,
    pub endorsement: Endorsement,
}

/// Model of an [`EndorsementInfo`].
pub struct EndorsementInfoView {
    pub id: EndorsementId,
    pub in_pool: bool,
    pub in_blocks: Seq<BlockId>,
    pub is_final: bool,
    pub endorsement: EndorsementView,
}

impl DeepView for EndorsementInfo {
    type V = EndorsementInfoView;

    open spec fn deep_view(&self) -> EndorsementInfoView {
        EndorsementInfoView {
            id: self.id,
            in_pool: self.in_pool,
            in_blocks: self.in_blocks@,
            is_final: self.is_final,
            endorsement: self.endorsement.deep_view(),
        }
    }
}

impl Clone for EndorsementInfo {
    fn clone(&self) -> (r: Self)
        ensures
            r.deep_view() == self.deep_view(),
    {
        EndorsementInfo {
            id: self.id,
            in_pool: self.in_pool,
            in_blocks: copy_block_ids(&self.in_blocks),
            is_final: self.is_final,
            endorsement: self.endorsement.clone(),
        }
    }
}

/// The keys under which an index holds its operations.
pub open spec fn operation_keys(index: Seq<OperationInfoView>) -> Seq<Digest> {
    Seq::new(index.len(), |i: int| index[i].id.digest)
}

/// The keys that a request for operations asks for.
pub open spec fn operation_wanted(ids: Seq<OperationId>) -> Seq<Digest> {
    Seq::new(ids.len(), |i: int| ids[i].digest)
}

/// The answer to a request for the operations `ids`.
pub open spec fn operations_found(
    index: Seq<OperationInfoView>,
    ids: Seq<OperationId>,
) -> Seq<OperationInfoView> {
    picked(index, resolved(operation_keys(index), operation_wanted(ids)))
}

/// The keys under which an index holds its endorsements.
pub open spec fn endorsement_keys(index: Seq<EndorsementInfoView>) -> Seq<Digest> {
    Seq::new(index.len(), |i: int| index[i].id.digest)
}

/// The keys that a request for endorsements asks for.
pub open spec fn endorsement_wanted(ids: Seq<EndorsementId>) -> Seq<Digest> {
    Seq::new(ids.len(), |i: int| ids[i].digest)
}

/// The answer to a request for the endorsements `ids`.
pub open spec fn endorsements_found(
    index: Seq<EndorsementInfoView>,
    ids: Seq<EndorsementId>,
) -> Seq<EndorsementInfoView> {
    picked(index, resolved(endorsement_keys(index), endorsement_wanted(ids)))
}

/// What the index holds of the operations `ids`: one entry for each
/// identifier that the index knows, in the order of the request.
pub fn find_operations(index: &Vec<OperationInfo>, ids: &Vec<OperationId>) -> (r: Vec<
    OperationInfo,
>)
    ensures
        r.deep_view() == operations_found(index.deep_view(), ids@),
{
    let ghost entries = index.deep_view();
    let mut keys: Vec<Digest> = Vec::new();
    let mut i: usize = 0;
    while i < index.len()
        invariant
            i <= index.len(),
            entries == index.deep_view(),
            keys@ == operation_keys(entries).take(i as int),
        decreases index.len() - i,
    {
        keys.push(index[i].id.digest);
        assert(keys@ =~= operation_keys(entries).take(i + 1));
        i += 1;
    }
    assert(keys@ =~= operation_keys(entries));
    let mut wanted: Vec<Digest> = Vec::new();
    let mut j: usize = 0;
    while j < ids.len()
        invariant
            j <= ids.len(),
            wanted@ == operation_wanted(ids@).take(j as int),
        decreases ids.len() - j,
    {
        wanted.push(ids[j].digest);
        assert(wanted@ =~= operation_wanted(ids@).take(j + 1));
        j += 1;
    }
    assert(wanted@ =~= operation_wanted(ids@));
    let positions = resolve(&keys, &wanted);
    proof {
        law_resolved_once_each(keys@, wanted@);
    }
    let mut out: Vec<OperationInfo> = Vec::new();
    let mut n: usize = 0;
    while n < positions.len()
        invariant
            n <= positions.len(),
            entries == index.deep_view(),
            keys@.len() == index.len(),
            forall|x: int| 0 <= x < positions.len() ==> (#[trigger] positions@[x]) < keys@.len(),
            out.len() == n,
            out.deep_view() == picked(entries, positions@).take(n as int),
        decreases positions.len() - n,
    {
        let p: usize = positions[n];
        let ghost before = out.deep_view();
        let ghost held = out@;
        let entry = index[p].clone();
        assert(entry.deep_view() == entries[p as int]);
        out.push(entry);
        assert(out.deep_view() =~= picked(entries, positions@).take(n + 1)) by {
            assert forall|x: int| 0 <= x < n + 1 implies out.deep_view()[x] == picked(
                entries,
                positions@,
            ).take(n + 1)[x] by {
                if x < n {
                    assert(out@[x] == held[x]);
                    assert(before[x] == held[x].deep_view());
                }
            }
        }
        n += 1;
    }
    assert(out.deep_view() =~= picked(entries, positions@));
    out
}

/// What the index holds of the endorsements `ids`: one entry for each
/// identifier that the index knows, in the order of the request.
pub fn find_endorsements(index: &Vec<EndorsementInfo>, ids: &Vec<EndorsementId>) -> (r: Vec<
    EndorsementInfo,
>)
    ensures
        r.deep_view() == endorsements_found(index.deep_view(), ids@),
{
    let ghost entries = index.deep_view();
    let mut keys: Vec<Digest> = Vec::new();
    let mut i: usize = 0;
    while i < index.len()
        invariant
            i <= index.len(),
            entries == index.deep_view(),
            keys@ == endorsement_keys(entries).take(i as int),
        decreases index.len() - i,
    {
        keys.push(index[i].id.digest);
        assert(keys@ =~= endorsement_keys(entries).take(i + 1));
        i += 1;
    }
    assert(keys@ =~= endorsement_keys(entries));
    let mut wanted: Vec<Digest> = Vec::new();
    let mut j: usize = 0;
    while j < ids.len()
        invariant
            j <= ids.len(),
            wanted@ == endorsement_wanted(ids@).take(j as int),
        decreases ids.len() - j,
    {
        wanted.push(ids[j].digest);
        assert(wanted@ =~= endorsement_wanted(ids@).take(j + 1));
        j += 1;
    }
    assert(wanted@ =~= endorsement_wanted(ids@));
    let positions = resolve(&keys, &wanted);
    proof {
        law_resolved_once_each(keys@, wanted@);
    }
    let mut out: Vec<EndorsementInfo> = Vec::new();
    let mut n: usize = 0;
    while n < positions.len()
        invariant
            n <= positions.len(),
            entries == index.deep_view(),
            keys@.len() == index.len(),
            forall|x: int| 0 <= x < positions.len() ==> (#[trigger] positions@[x]) < keys@.len(),
            out.len() == n,
            out.deep_view() == picked(entries, positions@).take(n as int),
        decreases positions.len() - n,
    {
        let p: usize = positions[n];
        let ghost before = out.deep_view();
        let ghost held = out@;
        let entry = index[p].clone();
        assert(entry.deep_view() == entries[p as int]);
        out.push(entry);
        assert(out.deep_view() =~= picked(entries, positions@).take(n + 1)) by {
            assert forall|x: int| 0 <= x < n + 1 implies out.deep_view()[x] == picked(
                entries,
                positions@,
            ).take(n + 1)[x] by {
                if x < n {
                    assert(out@[x] == held[x]);
                    assert(before[x] == held[x].deep_view());
                }
            }
        }
        n += 1;
    }
    assert(out.deep_view() =~= picked(entries, positions@));
    out
}

/// No operation is answered twice, every answer was asked for, and every
/// operation that was asked for and that the index knows is answered.
pub proof fn law_operations_found_once_each(index: Seq<OperationInfoView>, ids: Seq<OperationId>)
    requires
        index.len() <= usize::MAX,
    ensures
        forall|i: int|
            0 <= i < operations_found(index, ids).len() ==> index.contains(
                #[trigger] operations_found(index, ids)[i],
            ) && ids.contains(operations_found(index, ids)[i].id),
        forall|i: int, j: int|
            0 <= i < j < operations_found(index, ids).len() ==> (#[trigger] operations_found(
                index,
                ids,
            )[i]).id != (#[trigger] operations_found(index, ids)[j]).id,
        forall|w: int, e: int|
            0 <= w < ids.len() && 0 <= e < index.len() && (#[trigger] index[e]).id
                == #[trigger] ids[w] ==> exists|i: int|
                0 <= i < operations_found(index, ids).len() && (#[trigger] operations_found(
                    index,
                    ids,
                )[i]).id == ids[w],
{
    let keys = operation_keys(index);
    let wanted = operation_wanted(ids);
    let positions = resolved(keys, wanted);
    let found = operations_found(index, ids);
    law_resolved_once_each(keys, wanted);
    assert forall|i: int| 0 <= i < found.len() implies index.contains(#[trigger] found[i])
        && ids.contains(found[i].id) by {
        let p = positions[i];
        assert(found[i] == index[p as int]);
        let w = choose|w: int| 0 <= w < wanted.len() && wanted[w] == keys[p as int];
        assert(ids[w].digest == index[p as int].id.digest);
        assert(ids[w] == found[i].id);
    }
    assert forall|i: int, j: int| 0 <= i < j < found.len() implies (#[trigger] found[i]).id != (
    #[trigger] found[j]).id by {
        assert(keys[positions[i] as int] != keys[positions[j] as int]);
    }
    assert forall|w: int, e: int|
        0 <= w < ids.len() && 0 <= e < index.len() && (#[trigger] index[e]).id
            == #[trigger] ids[w] implies exists|i: int|
        0 <= i < found.len() && (#[trigger] found[i]).id == ids[w] by {
        assert(keys[e] == wanted[w]);
        assert(keys.contains(wanted[w]));
        let i = choose|i: int|
            0 <= i < positions.len() && keys[#[trigger] positions[i] as int] == wanted[w];
        assert(found[i].id.digest == ids[w].digest);
        assert(found[i].id == ids[w]);
    }
}

/// No endorsement is answered twice, every answer was asked for, and every
/// endorsement that was asked for and that the index knows is answered.
pub proof fn law_endorsements_found_once_each(
    index: Seq<EndorsementInfoView>,
    ids: Seq<EndorsementId>,
)
    requires
        index.len() <= usize::MAX,
    ensures
        forall|i: int|
            0 <= i < endorsements_found(index, ids).len() ==> index.contains(
                #[trigger] endorsements_found(index, ids)[i],
            ) && ids.contains(endorsements_found(index, ids)[i].id),
        forall|i: int, j: int|
            0 <= i < j < endorsements_found(index, ids).len() ==> (#[trigger] endorsements_found(
                index,
                ids,
            )[i]).id != (#[trigger] endorsements_found(index, ids)[j]).id,
        forall|w: int, e: int|
            0 <= w < ids.len() && 0 <= e < index.len() && (#[trigger] index[e]).id
                == #[trigger] ids[w] ==> exists|i: int|
                0 <= i < endorsements_found(index, ids).len() && (#[trigger] endorsements_found(
                    index,
                    ids,
                )[i]).id == ids[w],
{
    let keys = endorsement_keys(index);
    let wanted = endorsement_wanted(ids);
    let positions = resolved(keys, wanted);
    let found = endorsements_found(index, ids);
    law_resolved_once_each(keys, wanted);
    assert forall|i: int| 0 <= i < found.len() implies index.contains(#[trigger] found[i])
        && ids.contains(found[i].id) by {
        let p = positions[i];
        assert(found[i] == index[p as int]);
        let w = choose|w: int| 0 <= w < wanted.len() && wanted[w] == keys[p as int];
        assert(ids[w].digest == index[p as int].id.digest);
        assert(ids[w] == found[i].id);
    }
    assert forall|i: int, j: int| 0 <= i < j < found.len() implies (#[trigger] found[i]).id != (
    #[trigger] found[j]).id by {
        assert(keys[positions[i] as int] != keys[positions[j] as int]);
    }
    assert forall|w: int, e: int|
        0 <= w < ids.len() && 0 <= e < index.len() && (#[trigger] index[e]).id
            == #[trigger] ids[w] implies exists|i: int|
        0 <= i < found.len() && (#[trigger] found[i]).id == ids[w] by {
        assert(keys[e] == wanted[w]);
        assert(keys.contains(wanted[w]));
        let i = choose|i: int|
            0 <= i < positions.len() && keys[#[trigger] positions[i] as int] == wanted[w];
        assert(found[i].id.digest == ids[w].digest);
        assert(found[i].id == ids[w]);
    }
}

} // verus!
