use vstd::prelude::*;
use core::cmp::Ordering;

verus! {

/// `Less`, `Equal`, `Greater` in their usual order.
pub open spec fn ordering_le(a: Ordering, b: Ordering) -> bool {
    ||| a is Less
    ||| b is Greater
    ||| (a is Equal && b is Equal)
}

/// Binary search over the index range `0 .. size`, driven by a comparator:
/// `f(i)` reports how the element at `i` compares against the sought key.
/// For a comparator consistent with a sorted sequence (monotone in the
/// order `Less < Equal < Greater`), returns `Ok(i)` with `f(i) == Equal`
/// on a match, and otherwise `Err(i)` with the insertion point `i`: every
/// index before `i` compares `Less`, every index from `i` on `Greater`.
pub fn binary_search_by<F: Fn(usize) -> Ordering>(size: usize, f: F) -> (r: Result<usize, usize>)
    requires
        forall|i: usize| i < size ==> #[trigger] call_requires(f, (i,)),
        forall|i: usize, j: usize, ri: Ordering, rj: Ordering|
            i <= j && j < size && #[trigger] call_ensures(f, (i,), ri) && #[trigger] call_ensures(
                f,
                (j,),
                rj,
            ) ==> ordering_le(ri, rj),
    ensures
        match r {
            Ok(i) => i < size && call_ensures(f, (i,), Ordering::Equal),
            Err(i) => {
                &&& i <= size
                &&& forall|j: usize, rj: Ordering|
                    j < i && #[trigger] call_ensures(f, (j,), rj) ==> rj is Less
                &&& forall|j: usize, rj: Ordering|
                    i <= j && j < size && #[trigger] call_ensures(f, (j,), rj) ==> rj is Greater
            },
        },
{
    let mut left: usize = 0;
    let mut right: usize = size;
    while left < right
        invariant
            left <= right <= size,
            forall|i: usize| i < size ==> #[trigger] call_requires(f, (i,)),
            forall|i: usize, j: usize, ri: Ordering, rj: Ordering|
                i <= j && j < size && #[trigger] call_ensures(f, (i,), ri)
                    && #[trigger] call_ensures(f, (j,), rj) ==> ordering_le(ri, rj),
            forall|j: usize, rj: Ordering|
                j < left && #[trigger] call_ensures(f, (j,), rj) ==> rj is Less,
            forall|j: usize, rj: Ordering|
                right <= j && j < size && #[trigger] call_ensures(f, (j,), rj) ==> rj is Greater,
        decreases right - left,
    {
        let mid = left + (right - left) / 2;
        let ord = f(mid);
        match ord {
            Ordering::Less => {
                proof {
                    assert forall|j: usize, rj: Ordering|
                        j < mid + 1 && #[trigger] call_ensures(f, (j,), rj) implies rj is Less by {
                        if j >= left {
                            assert(call_ensures(f, (j,), rj));
                            assert(call_ensures(f, (mid,), ord));
                            assert(ordering_le(rj, ord));
                        }
                    }
                }
                left = mid + 1;
            },
            Ordering::Equal => {
                return Ok(mid);
            },
            Ordering::Greater => {
                proof {
                    assert forall|j: usize, rj: Ordering|
                        mid <= j && j < size && #[trigger] call_ensures(f, (j,), rj) implies rj
                        is Greater by {
                        if j < right {
                            assert(call_ensures(f, (mid,), ord));
                            assert(ordering_le(ord, rj));
                        }
                    }
                }
                right = mid;
            },
        }
    }
    Err(left)
}

} // verus!
