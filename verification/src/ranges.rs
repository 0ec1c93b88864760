//! The leaves of the nullifier tree: the ranges of field values that no
//! nullifier has taken.
//!
//! From the sorted nullifiers `r1 < r2 < ..` the leaves come in pairs
//! `(start, end)`, both ends included: from 0 to `r1 - 1`, from `r1 + 1` to
//! `r2 - 1`, and so on, and at last from the value after the greatest
//! nullifier to the greatest field value. A range that would be empty is left
//! out.

use crate::field::{
    all_canonical, lemma_reduce, modulus, non_decreasing, values, FieldElement,
};
use vstd::prelude::*;

verus! {

/// Each entry is below every later one.
pub open spec fn strictly_increasing(s: Seq<nat>) -> bool {
    forall|i: int, j: int| 0 <= i < j < s.len() ==> s[i] < s[j]
}

/// The ranges left by the nullifiers `nfs` when the next range starts at
/// `prev`.
pub open spec fn ranges_from(nfs: Seq<nat>, prev: nat) -> Seq<nat>
    decreases nfs.len(),
{
    if nfs.len() == 0 {
        if prev != 0 {
            seq![prev, (modulus() - 1) as nat]
        } else {
            Seq::empty()
        }
    } else {
        let r = nfs[0];
        let rest = ranges_from(nfs.drop_first(), (r + 1) % modulus());
        if prev < r {
            seq![prev, (r - 1) as nat] + rest
        } else {
            rest
        }
    }
}

/// The leaves of the nullifier tree for the nullifiers `nfs`.
pub open spec fn nf_ranges(nfs: Seq<nat>) -> Seq<nat> {
    ranges_from(nfs, 0)
}

/// `j` is the last index at which `leaves` holds a value that is at most `x`.
pub open spec fn is_last_at_most(leaves: Seq<nat>, x: nat, j: int) -> bool {
    &&& 0 <= j < leaves.len()
    &&& leaves[j] <= x
    &&& forall|m: int| j < m < leaves.len() ==> x < #[trigger] leaves[m]
}

/// The leaves of the nullifier tree for `nfs`, which the caller has sorted.
pub fn build_nf_ranges(nfs: Vec<FieldElement>) -> (leaves: Vec<FieldElement>)
    ensures
        values(leaves@) == nf_ranges(values(nfs@)),
        all_canonical(leaves@),
{
    let zero = FieldElement::zero();
    let one = FieldElement::one();
    let mut prev = zero;
    let mut leaves: Vec<FieldElement> = Vec::new();
    let ghost all = values(nfs@);
    let mut i: usize = 0;
    proof {
        assert(all.skip(0) =~= all);
        assert(values(leaves@) + nf_ranges(all) =~= nf_ranges(all));
    }
    while i < nfs.len()
        invariant
            i <= nfs@.len(),
            all == values(nfs@),
            one.value() == 1,
            all_canonical(leaves@),
            values(leaves@) + ranges_from(all.skip(i as int), prev.value()) == nf_ranges(all),
        decreases nfs@.len() - i,
    {
        let r = nfs[i];
        let ghost before = values(leaves@);
        let ghost pending = all.skip(i as int);
        proof {
            use_type_invariant(&r);
            use_type_invariant(&prev);
            assert(pending[0] == r.value());
            assert(pending.drop_first() =~= all.skip(i + 1));
        }
        if prev.lt(&r) {
            let a = prev;
            let b = r.minus(&one);
            proof {
                use_type_invariant(&b);
            }
            leaves.push(a);
            leaves.push(b);
            proof {
                lemma_reduce(r.value() + modulus() - 1);
                assert(b.value() == r.value() - 1);
                assert(values(leaves@) =~= before + seq![a.value(), b.value()]);
                let rest = ranges_from(all.skip(i + 1), (r.value() + 1) % modulus());
                assert(before + (seq![a.value(), b.value()] + rest) =~= (before + seq![
                    a.value(),
                    b.value(),
                ]) + rest);
            }
        }
        prev = r.plus(&one);
        i += 1;
    }
    proof {
        assert(all.skip(i as int).len() == 0);
    }
    let ghost before = values(leaves@);
    if zero.lt(&prev) {
        let last = one.negated();
        proof {
            use_type_invariant(&prev);
            use_type_invariant(&last);
        }
        leaves.push(prev);
        leaves.push(last);
        proof {
            lemma_reduce(modulus() - 1);
            assert(last.value() == modulus() - 1);
            assert(values(leaves@) =~= before + seq![prev.value(), last.value()]);
        }
    } else {
        proof {
            assert(before + Seq::<nat>::empty() =~= before);
        }
    }
    leaves
}

/// The start of the range in which `nf` lies: the index of the last leaf
/// that is at most `nf`, with its lowest bit cleared. There is none where
/// every leaf is above `nf`.
pub fn locate_range(leaves: &[FieldElement], nf: &FieldElement) -> (r: Option<usize>)
    ensures
        non_decreasing(values(leaves@)) ==> match r {
            Some(pos) => exists|j: int|
                is_last_at_most(values(leaves@), nf.value(), j) && pos == j - j % 2,
            None => forall|m: int| 0 <= m < leaves@.len() ==> nf.value() < values(leaves@)[m],
        },
{
    let ghost v = values(leaves@);
    let mut lo: usize = 0;
    let mut hi: usize = leaves.len();
    while lo < hi
        invariant
            lo <= hi <= leaves@.len(),
            v == values(leaves@),
            non_decreasing(v) ==> forall|m: int| 0 <= m < lo ==> v[m] <= nf.value(),
            non_decreasing(v) ==> forall|m: int| hi <= m < v.len() ==> nf.value() < v[m],
        decreases hi - lo,
    {
        let mid = lo + (hi - lo) / 2;
        let at = leaves[mid];
        assert(v[mid as int] == at.value());
        if nf.lt(&at) {
            hi = mid;
        } else {
            lo = mid + 1;
        }
    }
    if lo == 0 {
        None
    } else {
        let j = lo - 1;
        let pos = j - j % 2;
        proof {
            if non_decreasing(v) {
                assert(is_last_at_most(v, nf.value(), j as int));
            }
        }
        Some(pos)
    }
}

/// The nullifiers are field values in strictly increasing order.
pub open spec fn valid_nullifiers(nfs: Seq<nat>) -> bool {
    &&& strictly_increasing(nfs)
    &&& forall|i: int| 0 <= i < nfs.len() ==> #[trigger] nfs[i] < modulus()
}

/// The leaves come in pairs of a start and an end that is not below it, each
/// pair wholly below the next, and no leaf is below `lo`.
pub open spec fn ordered_ranges(out: Seq<nat>, lo: nat) -> bool {
    &&& out.len() % 2 == 0
    &&& non_decreasing(out)
    &&& forall|m: int| 0 <= m < out.len() ==> lo <= #[trigger] out[m] < modulus()
    &&& forall|k: int| 0 <= k && 2 * k + 2 < out.len() ==> out[2 * k + 1] < #[trigger] out[2 * k + 2]
}

/// Valid nullifiers without the first are valid nullifiers, and the first of
/// them is above the one left out.
pub proof fn lemma_rest_valid(nfs: Seq<nat>)
    requires
        valid_nullifiers(nfs),
        nfs.len() > 0,
    ensures
        valid_nullifiers(nfs.drop_first()),
        nfs.len() > 1 ==> nfs[0] < nfs.drop_first()[0],
{
    let rest = nfs.drop_first();
    assert forall|i: int, j: int| 0 <= i < j < rest.len() implies rest[i] < rest[j] by {
        assert(rest[i] == nfs[i + 1] && rest[j] == nfs[j + 1]);
    }
    assert forall|i: int| 0 <= i < rest.len() implies #[trigger] rest[i] < modulus() by {
        assert(rest[i] == nfs[i + 1]);
    }
    if rest.len() > 0 {
        assert(rest[0] == nfs[1]);
    }
}

/// The ranges left above `lo` by nullifiers that are none of them below `lo`
/// are ordered.
pub proof fn lemma_ranges_ordered(nfs: Seq<nat>, lo: nat)
    requires
        valid_nullifiers(nfs),
        lo <= modulus(),
        nfs.len() > 0 ==> lo <= nfs[0],
    ensures
        ordered_ranges(ranges_from(nfs, lo % modulus()), lo),
    decreases nfs.len(),
{
    let out = ranges_from(nfs, lo % modulus());
    lemma_reduce(lo as int);
    if nfs.len() > 0 {
        let r = nfs[0];
        let rest = nfs.drop_first();
        lemma_rest_valid(nfs);
        lemma_ranges_ordered(rest, r + 1);
        let above = ranges_from(rest, (r + 1) % modulus());
        if lo < r {
            let head = seq![lo, (r - 1) as nat];
            assert(out == head + above);
            assert forall|i: int, j: int| 0 <= i < j < out.len() implies out[i] <= out[j] by {
                if i >= 2 {
                    assert(out[i] == above[i - 2] && out[j] == above[j - 2]);
                } else if j >= 2 {
                    assert(out[j] == above[j - 2]);
                }
            }
            assert forall|m: int| 0 <= m < out.len() implies lo <= #[trigger] out[m]
                < modulus() by {
                if m >= 2 {
                    assert(out[m] == above[m - 2]);
                }
            }
            assert forall|k: int| 0 <= k && 2 * k + 2 < out.len() implies out[2 * k + 1]
                < #[trigger] out[2 * k + 2] by {
                if k >= 1 {
                    assert(out[2 * k + 1] == above[2 * (k - 1) + 1]);
                    assert(out[2 * k + 2] == above[2 * (k - 1) + 2]);
                } else {
                    assert(out[2] == above[0]);
                }
            }
        }
    } else if lo % modulus() != 0 {
        assert(out == seq![lo, (modulus() - 1) as nat]);
    }
}

/// Every field value from `lo` up that is no nullifier lies in one of the
/// ranges left above `lo`.
pub proof fn lemma_ranges_cover(nfs: Seq<nat>, lo: nat, x: nat) -> (k: int)
    requires
        valid_nullifiers(nfs),
        nfs.len() > 0 ==> lo <= nfs[0],
        nfs.len() > 0 || lo > 0,
        lo <= x < modulus(),
        !nfs.contains(x),
    ensures
        0 <= k,
        2 * k + 1 < ranges_from(nfs, lo % modulus()).len(),
        ranges_from(nfs, lo % modulus())[2 * k] <= x <= ranges_from(nfs, lo % modulus())[2 * k
            + 1],
    decreases nfs.len(),
{
    let out = ranges_from(nfs, lo % modulus());
    lemma_reduce(lo as int);
    if nfs.len() == 0 {
        assert(out == seq![lo, (modulus() - 1) as nat]);
        0
    } else {
        let r = nfs[0];
        let rest = nfs.drop_first();
        assert(nfs.contains(r));
        let above = ranges_from(rest, (r + 1) % modulus());
        if x < r {
            assert(out == seq![lo, (r - 1) as nat] + above);
            0
        } else {
            lemma_rest_valid(nfs);
            assert(!rest.contains(x)) by {
                if rest.contains(x) {
                    let i = choose|i: int| 0 <= i < rest.len() && rest[i] == x;
                    assert(nfs[i + 1] == x);
                }
            }
            let k = lemma_ranges_cover(rest, r + 1, x);
            if lo < r {
                assert(out == seq![lo, (r - 1) as nat] + above);
                assert(out[2 * (k + 1)] == above[2 * k]);
                assert(out[2 * (k + 1) + 1] == above[2 * k + 1]);
                k + 1
            } else {
                k
            }
        }
    }
}

/// No nullifier lies in any of the ranges left above `lo`.
pub proof fn lemma_ranges_exclude(nfs: Seq<nat>, lo: nat, x: nat, k: int)
    requires
        valid_nullifiers(nfs),
        lo <= modulus(),
        nfs.len() > 0 ==> lo <= nfs[0],
        nfs.contains(x),
        0 <= k,
        2 * k + 1 < ranges_from(nfs, lo % modulus()).len(),
    ensures
        !(ranges_from(nfs, lo % modulus())[2 * k] <= x <= ranges_from(nfs, lo % modulus())[2 * k
            + 1]),
    decreases nfs.len(),
{
    let out = ranges_from(nfs, lo % modulus());
    lemma_reduce(lo as int);
    let r = nfs[0];
    let rest = nfs.drop_first();
    let above = ranges_from(rest, (r + 1) % modulus());
    let at = choose|i: int| 0 <= i < nfs.len() && nfs[i] == x;
    if nfs.len() > 0 {
        lemma_rest_valid(nfs);
    }
    lemma_ranges_ordered(rest, r + 1);
    let first = lo < r && k == 0;
    if first {
        assert(out == seq![lo, (r - 1) as nat] + above);
        assert(nfs[0] <= nfs[at]);
    } else {
        let k2 = if lo < r {
            k - 1
        } else {
            k
        };
        if lo < r {
            assert(out == seq![lo, (r - 1) as nat] + above);
            assert(out[2 * k] == above[2 * k2]);
            assert(out[2 * k + 1] == above[2 * k2 + 1]);
        }
        if at == 0 {
            assert(r + 1 <= above[2 * k2]);
        } else {
            assert(rest[at - 1] == x);
            lemma_ranges_exclude(rest, r + 1, x, k2);
        }
    }
}

/// No nullifier lies in a range between two leaves of the nullifier tree.
pub proof fn lemma_nullifier_in_no_range(nfs: Seq<nat>, x: nat, k: int)
    requires
        valid_nullifiers(nfs),
        nfs.contains(x),
        0 <= k,
        2 * k + 1 < nf_ranges(nfs).len(),
    ensures
        !(nf_ranges(nfs)[2 * k] <= x <= nf_ranges(nfs)[2 * k + 1]),
{
    lemma_reduce(0);
    lemma_ranges_exclude(nfs, 0, x, k);
}

/// The leaves of the nullifier tree are in order.
pub proof fn lemma_nf_ranges_ordered(nfs: Seq<nat>)
    requires
        valid_nullifiers(nfs),
    ensures
        ordered_ranges(nf_ranges(nfs), 0),
{
    lemma_reduce(0);
    lemma_ranges_ordered(nfs, 0);
}

/// A field value that is no nullifier lies in the range that is found for it:
/// where `j` is the last leaf that is at most `x`, the leaf at `j` with its
/// lowest bit cleared is at most `x`, and the leaf after that one is at least
/// `x`. Such a `j` exists. (Without nullifiers there are no leaves.)
pub proof fn lemma_located_range_contains(nfs: Seq<nat>, x: nat, j: int)
    requires
        valid_nullifiers(nfs),
        nfs.len() > 0,
        x < modulus(),
        !nfs.contains(x),
        is_last_at_most(nf_ranges(nfs), x, j),
    ensures
        0 <= j - j % 2,
        j - j % 2 + 1 < nf_ranges(nfs).len(),
        nf_ranges(nfs)[j - j % 2] <= x <= nf_ranges(nfs)[j - j % 2 + 1],
{
    let out = nf_ranges(nfs);
    lemma_reduce(0);
    lemma_ranges_ordered(nfs, 0);
    let k = lemma_ranges_cover(nfs, 0, x);
    if j < 2 * k {
        assert(x < out[2 * k]);
    }
    if j >= 2 * k + 2 {
        assert(out[2 * k + 1] < out[2 * k + 2]);
        assert(out[2 * k + 2] <= out[j]);
    }
}

/// For a field value that is no nullifier there is a last leaf that is at
/// most that value, so that `locate_range` finds a range for it.
pub proof fn lemma_range_found(nfs: Seq<nat>, x: nat) -> (j: int)
    requires
        valid_nullifiers(nfs),
        nfs.len() > 0,
        x < modulus(),
        !nfs.contains(x),
    ensures
        is_last_at_most(nf_ranges(nfs), x, j),
{
    let out = nf_ranges(nfs);
    lemma_reduce(0);
    lemma_ranges_ordered(nfs, 0);
    let k = lemma_ranges_cover(nfs, 0, x);
    if 2 * k + 2 < out.len() {
        assert(out[2 * k + 1] < out[2 * k + 2]);
    }
    let j = if x == out[2 * k + 1] {
        2 * k + 1
    } else {
        2 * k
    };
    assert forall|m: int| j < m < out.len() implies x < #[trigger] out[m] by {
        if m >= 2 * k + 2 {
            assert(out[2 * k + 2] <= out[m]);
        }
    }
    j
}

} // verus!
