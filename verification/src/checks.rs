//! Defensive validation of the model data, on order codes.
//!
//! The capital grid is built by the caller (`base + step * i` for a positive
//! step); the search logic needs the one fact that its levels are strictly
//! increasing.  The transition matrix's entries are probabilities and must
//! lie between zero and one.  The caller hands both over as order codes and
//! these checks decide the invariants; what cannot be decided on codes alone
//! (a row summing to one) remains an arithmetic check on the caller's side.

use vstd::prelude::*;

verus! {

/// The entries of `s` grow strictly with the index.
pub open spec fn strictly_increasing(s: Seq<u64>) -> bool {
    forall|i: int, j: int| 0 <= i < j < s.len() ==> s[i] < s[j]
}

/// Decides whether the order codes in `v` are strictly increasing,
/// i.e. whether the grid they encode is a valid capital grid.
pub fn check_strictly_increasing(v: &Vec<u64>) -> (r: bool)
    ensures
        r == strictly_increasing(v@),
{
    let n = v.len();
    let mut i: usize = 1;
    while i < n
        invariant
            1 <= i <= n || n == 0,
            n == v@.len(),
            forall|p: int, q: int| 0 <= p < q < i ==> v@[p] < v@[q],
        decreases n - i,
    {
        if v[i - 1] >= v[i] {
            return false;
        }
        assert forall|p: int, q: int| 0 <= p < q < i + 1 implies v@[p] < v@[q] by {
            if q == i {
                if p < i - 1 {
                    assert(v@[p] < v@[i - 1]);
                }
            }
        }
        i = i + 1;
    }
    true
}

/// Decides whether every code in `v` lies between `lo` and `hi` inclusive —
/// for a transition-matrix row, whether every entry encodes a probability.
pub fn check_within_bounds(v: &Vec<u64>, lo: u64, hi: u64) -> (r: bool)
    ensures
        r == forall|i: int| 0 <= i < v@.len() ==> lo <= #[trigger] v@[i] <= hi,
{
    let n = v.len();
    let mut i: usize = 0;
    while i < n
        invariant
            i <= n,
            n == v@.len(),
            forall|p: int| 0 <= p < i ==> lo <= #[trigger] v@[p] <= hi,
        decreases n - i,
    {
        if v[i] < lo || v[i] > hi {
            return false;
        }
        i = i + 1;
    }
    true
}

} // verus!
