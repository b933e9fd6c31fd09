//! Sequences in strictly ascending order.

use vstd::prelude::*;

verus! {

/// Whether every element of `s` comes, by `lt`, before all that follow it.
pub open spec fn ascending<T>(s: Seq<T>, lt: spec_fn(T, T) -> bool) -> bool {
    forall|i: int, j: int| 0 <= i < j < s.len() ==> lt(#[trigger] s[i], #[trigger] s[j])
}

/// Whether `lt` never holds both ways round.
pub open spec fn asymmetric<T>(lt: spec_fn(T, T) -> bool) -> bool {
    forall|x: T, y: T| #[trigger] lt(x, y) ==> !lt(y, x)
}

/// Two ascending sequences with the same members are the same sequence.
pub proof fn lemma_ascending_same_members_equal<T>(a: Seq<T>, b: Seq<T>, lt: spec_fn(T, T) -> bool)
    requires
        asymmetric(lt),
        ascending(a, lt),
        ascending(b, lt),
        forall|x: T| a.contains(x) <==> b.contains(x),
    ensures
        a == b,
    decreases a.len(),
{
    if a.len() == 0 {
        if b.len() > 0 {
            assert(b.contains(b[0]));
            assert(a.contains(b[0]));
        }
        assert(a =~= b);
    } else if b.len() == 0 {
        assert(a.contains(a[0]));
        assert(b.contains(a[0]));
    } else {
        assert(a.contains(a[0]));
        assert(b.contains(a[0]));
        let j = choose|j: int| 0 <= j < b.len() && b[j] == a[0];
        assert(b.contains(b[0]));
        assert(a.contains(b[0]));
        let i = choose|i: int| 0 <= i < a.len() && a[i] == b[0];
        if j > 0 {
            assert(lt(b[0], b[j]));
        }
        if i > 0 {
            assert(lt(a[0], a[i]));
        }
        assert(a[0] == b[0]);
        let ta = a.drop_first();
        let tb = b.drop_first();
        assert forall|x: T| ta.contains(x) <==> tb.contains(x) by {
            if ta.contains(x) {
                let q = choose|q: int| 0 <= q < ta.len() && ta[q] == x;
                assert(a[q + 1] == x);
                assert(lt(a[0], a[q + 1]));
                assert(a.contains(x));
                assert(b.contains(x));
                let m = choose|m: int| 0 <= m < b.len() && b[m] == x;
                assert(tb[m - 1] == x);
            }
            if tb.contains(x) {
                let q = choose|q: int| 0 <= q < tb.len() && tb[q] == x;
                assert(b[q + 1] == x);
                assert(lt(b[0], b[q + 1]));
                assert(b.contains(x));
                assert(a.contains(x));
                let m = choose|m: int| 0 <= m < a.len() && a[m] == x;
                assert(ta[m - 1] == x);
            }
        }
        assert(ascending(ta, lt)) by {
            assert forall|x: int, y: int| 0 <= x < y < ta.len() implies lt(
                #[trigger] ta[x],
                #[trigger] ta[y],
            ) by {
                assert(lt(a[x + 1], a[y + 1]));
            }
        }
        assert(ascending(tb, lt)) by {
            assert forall|x: int, y: int| 0 <= x < y < tb.len() implies lt(
                #[trigger] tb[x],
                #[trigger] tb[y],
            ) by {
                assert(lt(b[x + 1], b[y + 1]));
            }
        }
        lemma_ascending_same_members_equal(ta, tb, lt);
        assert(a =~= b) by {
            assert(a.len() == b.len());
            assert forall|x: int| 0 <= x < a.len() implies a[x] == b[x] by {
                if x > 0 {
                    assert(ta[x - 1] == a[x]);
                    assert(tb[x - 1] == b[x]);
                }
            }
        }
    }
}

} // verus!
