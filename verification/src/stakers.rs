//! The stakers of the current cycle and their rolls.

use vstd::prelude::*;
use crate::ident::Address;

verus! {

/// No address is listed twice.
pub open spec fn addresses_unique(entries: Seq<(Address, u64)>) -> bool {
    forall|i: int, j: int|
        0 <= i < j < entries.len() ==> (#[trigger] entries[i]).0 != (#[trigger] entries[j]).0
}

/// The test that keeps the addresses that hold at least one roll.
pub open spec fn holds_rolls() -> spec_fn((Address, u64)) -> bool {
    |entry: (Address, u64)| entry.1 > 0
}

/// The stakers among the entries: the addresses that hold at least one
/// roll, each with its count, in the order of the entries.
pub open spec fn stakers_of(entries: Seq<(Address, u64)>) -> Seq<(Address, u64)> {
    entries.filter(holds_rolls())
}

/// The roll count of every address, for one cycle. No address occurs twice.
pub struct RollCounts {
    entries: Vec<(Address, u64)>,
}

impl View for RollCounts {
    type V = Seq<(Address, u64)>;

    closed spec fn view(&self) -> Seq<(Address, u64)> {
        self.entries@
    }
}

impl RollCounts {
    /// Holds of every value.
    #[verifier::type_invariant]
    pub open spec fn inv(&self) -> bool {
        addresses_unique(self@)
    }

    /// The roll counts that `entries` lists.
    ///
    /// Gives `None` exactly when an address is listed twice.
    pub fn new(entries: Vec<(Address, u64)>) -> (r: Option<RollCounts>)
        ensures
            r is Some <==> addresses_unique(entries@),
            r matches Some(rolls) ==> rolls@ == entries@,
    {
        let mut j: usize = 0;
        while j < entries.len()
            invariant
                j <= entries.len(),
                forall|a: int, b: int|
                    0 <= a < b < j ==> (#[trigger] entries@[a]).0 != (#[trigger] entries@[b]).0,
            decreases entries.len() - j,
        {
            let mut i: usize = 0;
            while i < j
                invariant
                    i <= j < entries.len(),
                    forall|a: int| 0 <= a < i ==> (#[trigger] entries@[a]).0 != entries@[j as int].0,
                decreases j - i,
            {
                if entries[i].0 == entries[j].0 {
                    assert(entries@[i as int].0 == entries@[j as int].0);
                    return None;
                }
                i += 1;
            }
            j += 1;
        }
        Some(RollCounts { entries })
    }

    /// The stakers of the cycle: every address that holds at least one roll,
    /// with its count. The answer is empty when no address holds a roll.
    pub fn stakers(&self) -> (r: Vec<(Address, u64)>)
        ensures
            r@ == stakers_of(self@),
    {
        let ghost all = self.entries@;
        let mut out: Vec<(Address, u64)> = Vec::new();
        let mut i: usize = 0;
        while i < self.entries.len()
            invariant
                i <= self.entries.len(),
                all == self.entries@,
                out@ == all.take(i as int).filter(holds_rolls()),
            decreases self.entries.len() - i,
        {
            proof {
                assert(all.take(i + 1) =~= all.take(i as int).push(all[i as int]));
                all.take(i as int).lemma_filter_push(all[i as int], holds_rolls());
            }
            let entry: (Address, u64) = self.entries[i];
            if entry.1 > 0 {
                out.push(entry);
            }
            i += 1;
        }
        proof {
            assert(all.take(self.entries.len() as int) =~= all);
        }
        out
    }
}

proof fn lemma_stakers_unique(entries: Seq<(Address, u64)>)
    requires
        addresses_unique(entries),
    ensures
        addresses_unique(stakers_of(entries)),
    decreases entries.len(),
{
    reveal(Seq::filter);
    if entries.len() > 0 {
        let front = entries.drop_last();
        let last = entries.last();
        assert(addresses_unique(front)) by {
            assert forall|i: int, j: int| 0 <= i < j < front.len() implies (#[trigger] front[i]).0
                != (#[trigger] front[j]).0 by {
                assert(front[i] == entries[i] && front[j] == entries[j]);
            }
        }
        lemma_stakers_unique(front);
        let kept = stakers_of(front);
        if holds_rolls()(last) {
            assert(stakers_of(entries) == kept.push(last));
            assert forall|i: int, j: int| 0 <= i < j < kept.push(last).len() implies (
            #[trigger] kept.push(last)[i]).0 != (#[trigger] kept.push(last)[j]).0 by {
                if j == kept.len() {
                    assert(kept.contains(kept[i]));
                    front.lemma_filter_contains_rev(holds_rolls(), kept[i]);
                    let at = choose|at: int| 0 <= at < front.len() && front[at] == kept[i];
                    assert(entries[at] == kept[i]);
                    assert(entries[entries.len() - 1] == last);
                }
            }
        } else {
            assert(stakers_of(entries) == kept);
        }
    }
}

/// The stakers are the addresses that hold rolls, and no others: every
/// staker holds at least one roll and is listed with its count; every
/// address that holds a roll is a staker; and no staker is listed twice.
pub proof fn law_stakers_hold_rolls(entries: Seq<(Address, u64)>)
    requires
        addresses_unique(entries),
    ensures
        forall|i: int|
            0 <= i < stakers_of(entries).len() ==> (#[trigger] stakers_of(entries)[i]).1 > 0
                && entries.contains(stakers_of(entries)[i]),
        forall|i: int|
            0 <= i < entries.len() && (#[trigger] entries[i]).1 > 0 ==> stakers_of(
                entries,
            ).contains(entries[i]),
        addresses_unique(stakers_of(entries)),
{
    let stakers = stakers_of(entries);
    assert forall|i: int| 0 <= i < stakers.len() implies (#[trigger] stakers[i]).1 > 0
        && entries.contains(stakers[i]) by {
        entries.lemma_filter_pred(holds_rolls(), i);
        assert(stakers.contains(stakers[i]));
        entries.lemma_filter_contains_rev(holds_rolls(), stakers[i]);
    }
    assert forall|i: int| 0 <= i < entries.len() && (#[trigger] entries[i]).1
        > 0 implies stakers.contains(entries[i]) by {
        entries.lemma_filter_contains(holds_rolls(), i);
    }
    lemma_stakers_unique(entries);
}

/// Where no address holds a roll there is no staker.
pub proof fn law_no_rolls_no_stakers(entries: Seq<(Address, u64)>)
    requires
        forall|i: int| 0 <= i < entries.len() ==> (#[trigger] entries[i]).1 == 0,
    ensures
        stakers_of(entries).len() == 0,
{
    let stakers = stakers_of(entries);
    if stakers.len() > 0 {
        entries.lemma_filter_pred(holds_rolls(), 0);
        assert(stakers.contains(stakers[0]));
        entries.lemma_filter_contains_rev(holds_rolls(), stakers[0]);
        let at = choose|at: int| 0 <= at < entries.len() && entries[at] == stakers[0];
        assert(entries[at].1 == 0);
    }
}

} // verus!
