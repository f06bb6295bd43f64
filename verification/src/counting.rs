//! Counting over the cell vector: how many mines, flags, flagged mines
//! and covered cells a board holds, with the lemmas that track those
//! counts through single-cell updates.

use vstd::prelude::*;

use crate::grid::Cell;
use crate::grid::spec_ind;

verus! {

/// The number of cells whose content is a mine.
pub open spec fn count_mines(s: Seq<Cell>) -> int
    decreases s.len(),
{
    if s.len() == 0 {
        0
    } else {
        count_mines(s.drop_last()) + if s.last().kind is Mine {
            1int
        } else {
            0int
        }
    }
}

/// The number of cells currently flagged.
pub open spec fn count_flagged(s: Seq<Cell>) -> int
    decreases s.len(),
{
    if s.len() == 0 {
        0
    } else {
        count_flagged(s.drop_last()) + if s.last().state is Flagged {
            1int
        } else {
            0int
        }
    }
}

/// The number of mine cells currently flagged: the correct-flag credit
/// that drives `remaining_mines`.
pub open spec fn count_flagged_mines(s: Seq<Cell>) -> int
    decreases s.len(),
{
    if s.len() == 0 {
        0
    } else {
        count_flagged_mines(s.drop_last()) + if s.last().kind is Mine && s.last().state is Flagged {
            1int
        } else {
            0int
        }
    }
}

/// The number of cells still covered: the measure that shrinks with every
/// uncovering, which is what bounds the flood fill.
pub open spec fn count_covered(s: Seq<Cell>) -> int
    decreases s.len(),
{
    if s.len() == 0 {
        0
    } else {
        count_covered(s.drop_last()) + if s.last().state is Covered {
            1int
        } else {
            0int
        }
    }
}

/// Replacing one cell moves each count by the difference of the two
/// indicator values at that slot.
pub proof fn lemma_counts_update(s: Seq<Cell>, j: int, c: Cell)
    requires
        0 <= j < s.len(),
    ensures
        count_mines(s.update(j, c)) == count_mines(s) + spec_ind(c.kind is Mine)
            - spec_ind(s[j].kind is Mine),
        count_flagged(s.update(j, c)) == count_flagged(s) + spec_ind(c.state is Flagged)
            - spec_ind(s[j].state is Flagged),
        count_flagged_mines(s.update(j, c)) == count_flagged_mines(s) + spec_ind(
            c.kind is Mine && c.state is Flagged,
        ) - spec_ind(s[j].kind is Mine && s[j].state is Flagged),
        count_covered(s.update(j, c)) == count_covered(s) + spec_ind(c.state is Covered)
            - spec_ind(s[j].state is Covered),
    decreases s.len(),
{
    let t = s.update(j, c);
    if j == s.len() - 1 {
        assert(t.drop_last() =~= s.drop_last());
        assert(t.last() == c);
    } else {
        assert(t.drop_last() =~= s.drop_last().update(j, c));
        assert(t.last() == s.last());
        lemma_counts_update(s.drop_last(), j, c);
    }
}

/// Two boards whose cells agree pointwise on mine-ness and flagged-ness
/// have equal mine and flag counts; those counts look at nothing else.
pub proof fn lemma_counts_pointwise(s: Seq<Cell>, t: Seq<Cell>)
    requires
        s.len() == t.len(),
        forall|j: int| 0 <= j < s.len() ==> ((#[trigger] s[j]).kind is Mine <==> (#[trigger] t[j]).kind is Mine),
        forall|j: int| 0 <= j < s.len() ==> (s[j].state is Flagged <==> t[j].state is Flagged),
    ensures
        count_mines(s) == count_mines(t),
        count_flagged(s) == count_flagged(t),
        count_flagged_mines(s) == count_flagged_mines(t),
    decreases s.len(),
{
    if s.len() > 0 {
        assert(s.last() == s[s.len() - 1]);
        assert(t.last() == t[s.len() - 1]);
        lemma_counts_pointwise(s.drop_last(), t.drop_last());
    }
}

/// A board with no flag planted has flag counts of zero, and one with no
/// mine has no mine to count.
pub proof fn lemma_counts_zero(s: Seq<Cell>)
    ensures
        (forall|j: int| 0 <= j < s.len() ==> !((#[trigger] s[j]).state is Flagged)) ==> (
        count_flagged(s) == 0 && count_flagged_mines(s) == 0),
        (forall|j: int| 0 <= j < s.len() ==> !((#[trigger] s[j]).kind is Mine)) ==> count_mines(s)
            == 0,
    decreases s.len(),
{
    if s.len() > 0 {
        assert(s.last() == s[s.len() - 1]);
        lemma_counts_zero(s.drop_last());
    }
}

/// A slot that carries a flag witnesses that the flag counts are positive.
pub proof fn lemma_count_flagged_pos(s: Seq<Cell>, j: int)
    requires
        0 <= j < s.len(),
        s[j].state is Flagged,
    ensures
        count_flagged(s) >= 1,
        s[j].kind is Mine ==> count_flagged_mines(s) >= 1,
    decreases s.len(),
{
    lemma_counts_nonneg(s);
    if j == s.len() - 1 {
        assert(s.last() == s[j]);
        lemma_counts_nonneg(s.drop_last());
    } else {
        assert(s.drop_last()[j] == s[j]);
        lemma_count_flagged_pos(s.drop_last(), j);
    }
}

/// No count is ever negative.
pub proof fn lemma_counts_nonneg(s: Seq<Cell>)
    ensures
        count_mines(s) >= 0,
        count_flagged(s) >= 0,
        count_flagged_mines(s) >= 0,
        count_covered(s) >= 0,
    decreases s.len(),
{
    if s.len() > 0 {
        lemma_counts_nonneg(s.drop_last());
    }
}

/// At most as many mines carry flags as there are mines, with equality
/// exactly when every mine carries one.
pub proof fn lemma_flagged_mines_vs_mines(s: Seq<Cell>)
    ensures
        count_flagged_mines(s) <= count_mines(s),
        count_flagged_mines(s) == count_mines(s) <==> (forall|j: int|
            0 <= j < s.len() && (#[trigger] s[j]).kind is Mine ==> s[j].state is Flagged),
    decreases s.len(),
{
    if s.len() > 0 {
        let dl = s.drop_last();
        lemma_flagged_mines_vs_mines(dl);
        assert(s.last() == s[s.len() - 1]);
        assert(forall|j: int| 0 <= j < s.len() - 1 ==> #[trigger] dl[j] == s[j]);
        if count_flagged_mines(s) == count_mines(s) {
            assert(count_flagged_mines(dl) == count_mines(dl));
            assert forall|j: int|
                0 <= j < s.len() && (#[trigger] s[j]).kind is Mine implies s[j].state is Flagged by {
                if j < s.len() - 1 {
                    assert(dl[j].kind is Mine);
                }
            }
        }
        if forall|j: int| 0 <= j < s.len() && (#[trigger] s[j]).kind is Mine ==> s[j].state is Flagged {
            assert forall|j: int|
                0 <= j < dl.len() && (#[trigger] dl[j]).kind is Mine implies dl[j].state is Flagged by {
                assert(s[j].kind is Mine);
            }
            assert(count_flagged_mines(dl) == count_mines(dl));
            assert(s[s.len() - 1].kind is Mine ==> s[s.len() - 1].state is Flagged);
        }
    }
}

} // verus!
