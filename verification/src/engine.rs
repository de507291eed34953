//! The inclusion classification of the Krawczyk certificate: how the per-axis
//! comparisons of the image `K(B)` with the box `B` combine.

use vstd::prelude::*;

verus! {

/// The inclusion classification of a Krawczyk image (per axis, or combined).
#[derive(Debug, Clone, Copy, PartialEq, Eq, Structural)]
pub enum Inclusion {
    /// `K(B)` is strictly inside `B`.
    Strict,
    /// `K(B)` is disjoint from `B` (no common point).
    Disjoint,
    /// `K(B)` overlaps `B` but is not strictly inside.
    Overlap,
}

/// The combined classification of the per-axis classifications: strictly
/// inside exactly when every axis is strictly inside; disjoint as soon as one
/// axis is disjoint (a box with one disjoint axis shares no point with the
/// image); overlapping otherwise.
pub open spec fn combined_inclusion(axes: Seq<Inclusion>) -> Inclusion {
    if exists|i: int| 0 <= i < axes.len() && axes[i] == Inclusion::Disjoint {
        Inclusion::Disjoint
    } else if forall|i: int| 0 <= i < axes.len() ==> axes[i] == Inclusion::Strict {
        Inclusion::Strict
    } else {
        Inclusion::Overlap
    }
}

/// Combine the per-axis classifications of a Krawczyk image: `Strict` leads
/// to a candidate certificate, `Disjoint` refutes a root in the box, and
/// `Overlap` is inconclusive.
pub fn combine_inclusions(axes: &[Inclusion]) -> (c: Inclusion)
    ensures
        c == combined_inclusion(axes@),
        c == Inclusion::Strict <==> forall|i: int| 0 <= i < axes@.len() ==> axes@[i] == Inclusion::Strict,
        c == Inclusion::Disjoint <==> exists|i: int| 0 <= i < axes@.len() && axes@[i] == Inclusion::Disjoint,
{
    let mut strict = true;
    let mut disjoint = false;
    let mut i: usize = 0;
    while i < axes.len()
        invariant
            i <= axes@.len(),
            strict <==> forall|j: int| 0 <= j < i ==> axes@[j] == Inclusion::Strict,
            disjoint <==> exists|j: int| 0 <= j < i && axes@[j] == Inclusion::Disjoint,
        decreases axes@.len() - i,
    {
        match axes[i] {
            Inclusion::Strict => {},
            Inclusion::Disjoint => {
                disjoint = true;
                strict = false;
            },
            Inclusion::Overlap => strict = false,
        }
        proof {
            assert(axes@[i as int] == axes[i as int]);
        }
        i = i + 1;
    }
    if !strict {
        if disjoint {
            return Inclusion::Disjoint;
        }
        return Inclusion::Overlap;
    }
    Inclusion::Strict
}

/// The combination of per-axis classifications is strictly inside exactly
/// when every axis is strictly inside (a single axis that only overlaps, or is
/// disjoint, withholds the candidate certificate), disjoint exactly when some
/// axis is disjoint, and overlapping exactly when no axis is disjoint but some
/// axis is not strictly inside. It depends only on which classifications
/// occur, not on their order: reading the axes in the opposite order, or
/// swapping two blocks of axes, gives the same combination.
pub proof fn lemma_combined_inclusion_laws(axes: Seq<Inclusion>, left: Seq<Inclusion>, right: Seq<Inclusion>)
    ensures
        combined_inclusion(axes) == Inclusion::Strict <==> forall|i: int|
            0 <= i < axes.len() ==> axes[i] == Inclusion::Strict,
        combined_inclusion(axes) == Inclusion::Disjoint <==> exists|i: int|
            0 <= i < axes.len() && axes[i] == Inclusion::Disjoint,
        combined_inclusion(axes) == Inclusion::Overlap <==> (forall|i: int|
            0 <= i < axes.len() ==> axes[i] != Inclusion::Disjoint) && exists|i: int|
            0 <= i < axes.len() && axes[i] == Inclusion::Overlap,
        combined_inclusion(axes.reverse()) == combined_inclusion(axes),
        combined_inclusion(left + right) == combined_inclusion(right + left),
{
    let r = axes.reverse();
    assert forall|i: int| 0 <= i < axes.len() implies r[axes.len() - 1 - i] == axes[i] by {}
    assert forall|i: int| 0 <= i < r.len() implies r[i] == axes[axes.len() - 1 - i] by {}
    if exists|i: int| 0 <= i < axes.len() && axes[i] == Inclusion::Disjoint {
        let i = choose|i: int| 0 <= i < axes.len() && axes[i] == Inclusion::Disjoint;
        assert(r[axes.len() - 1 - i] == Inclusion::Disjoint);
    }
    if exists|i: int| 0 <= i < r.len() && r[i] == Inclusion::Disjoint {
        let i = choose|i: int| 0 <= i < r.len() && r[i] == Inclusion::Disjoint;
        assert(axes[axes.len() - 1 - i] == Inclusion::Disjoint);
    }
    if !(forall|i: int| 0 <= i < axes.len() ==> axes[i] == Inclusion::Strict) {
        let i = choose|i: int| 0 <= i < axes.len() && axes[i] != Inclusion::Strict;
        assert(r[axes.len() - 1 - i] != Inclusion::Strict);
    }
    if !(forall|i: int| 0 <= i < r.len() ==> r[i] == Inclusion::Strict) {
        let i = choose|i: int| 0 <= i < r.len() && r[i] != Inclusion::Strict;
        assert(axes[axes.len() - 1 - i] != Inclusion::Strict);
    }
    if !(forall|i: int| 0 <= i < axes.len() ==> axes[i] == Inclusion::Strict) {
        let i = choose|i: int| 0 <= i < axes.len() && axes[i] != Inclusion::Strict;
        if axes[i] == Inclusion::Overlap {
            assert(exists|j: int| 0 <= j < axes.len() && axes[j] == Inclusion::Overlap);
        }
    }
    lemma_occurs_swap(left, right, Inclusion::Strict);
    lemma_occurs_swap(left, right, Inclusion::Disjoint);
    lemma_occurs_swap(left, right, Inclusion::Overlap);
    lemma_combined_by_occurrence(left + right);
    lemma_combined_by_occurrence(right + left);
}

/// Whether the classification `x` occurs among `s`.
spec fn occurs(s: Seq<Inclusion>, x: Inclusion) -> bool {
    exists|i: int| 0 <= i < s.len() && s[i] == x
}

/// The combination read off which classifications occur.
proof fn lemma_combined_by_occurrence(s: Seq<Inclusion>)
    ensures
        combined_inclusion(s) == (if occurs(s, Inclusion::Disjoint) {
            Inclusion::Disjoint
        } else if !occurs(s, Inclusion::Overlap) {
            Inclusion::Strict
        } else {
            Inclusion::Overlap
        }),
{
    if !(forall|i: int| 0 <= i < s.len() ==> s[i] == Inclusion::Strict) {
        let i = choose|i: int| 0 <= i < s.len() && s[i] != Inclusion::Strict;
        if s[i] == Inclusion::Overlap {
            assert(occurs(s, Inclusion::Overlap));
        } else {
            assert(occurs(s, Inclusion::Disjoint));
        }
    }
}

/// Swapping two blocks keeps the classifications that occur.
proof fn lemma_occurs_swap(left: Seq<Inclusion>, right: Seq<Inclusion>, x: Inclusion)
    ensures
        occurs(left + right, x) == occurs(right + left, x),
{
    let lr = left + right;
    let rl = right + left;
    if occurs(lr, x) {
        let i = choose|i: int| 0 <= i < lr.len() && lr[i] == x;
        if i < left.len() {
            assert(rl[right.len() + i] == x);
        } else {
            assert(rl[i - left.len()] == x);
        }
    }
    if occurs(rl, x) {
        let i = choose|i: int| 0 <= i < rl.len() && rl[i] == x;
        if i < right.len() {
            assert(lr[left.len() + i] == x);
        } else {
            assert(lr[i - right.len()] == x);
        }
    }
}

} // verus!
