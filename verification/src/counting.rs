//! Counting set and unset positions of a boolean sequence: the ghost
//! bookkeeping behind the allocator's free-page counter.

use vstd::prelude::*;

verus! {

/// Number of `true` positions in `s`.
pub open spec fn count_true(s: Seq<bool>) -> int
    decreases s.len(),
{
    if s.len() == 0 {
        0
    } else {
        count_true(s.drop_last()) + if s.last() {
            1int
        } else {
            0int
        }
    }
}

/// Number of `false` positions in `s`.
pub open spec fn count_false(s: Seq<bool>) -> int {
    s.len() - count_true(s)
}

/// The count of `true` positions lies between 0 and the length.
pub proof fn lemma_count_true_bounds(s: Seq<bool>)
    ensures
        0 <= count_true(s) <= s.len(),
    decreases s.len(),
{
    if s.len() > 0 {
        lemma_count_true_bounds(s.drop_last());
    }
}

/// Updating one position changes the count of `true` positions by the
/// difference at that position alone.
pub proof fn lemma_count_true_update(s: Seq<bool>, i: int, v: bool)
    requires
        0 <= i < s.len(),
    ensures
        count_true(s.update(i, v)) == count_true(s) + if v == s[i] {
            0int
        } else if v {
            1int
        } else {
            -1int
        },
    decreases s.len(),
{
    let t = s.update(i, v);
    if i == s.len() - 1 {
        assert(t.drop_last() =~= s.drop_last());
    } else {
        assert(t.drop_last() =~= s.drop_last().update(i, v));
        lemma_count_true_update(s.drop_last(), i, v);
    }
}

/// Counting over `[lo, hi)` splits at any midpoint.
pub proof fn lemma_count_true_split(s: Seq<bool>, lo: int, mid: int, hi: int)
    requires
        0 <= lo <= mid <= hi <= s.len(),
    ensures
        count_true(s.subrange(lo, hi)) == count_true(s.subrange(lo, mid)) + count_true(
            s.subrange(mid, hi),
        ),
    decreases hi - mid,
{
    if mid == hi {
        assert(s.subrange(mid, hi) =~= Seq::<bool>::empty());
        assert(s.subrange(lo, hi) =~= s.subrange(lo, mid));
    } else {
        assert(s.subrange(lo, hi).drop_last() =~= s.subrange(lo, hi - 1));
        assert(s.subrange(mid, hi).drop_last() =~= s.subrange(mid, hi - 1));
        assert(s.subrange(lo, hi).last() == s[hi - 1]);
        assert(s.subrange(mid, hi).last() == s[hi - 1]);
        lemma_count_true_split(s, lo, mid, hi - 1);
    }
}

/// A constant stretch contributes its full length, or nothing.
pub proof fn lemma_count_true_constant(s: Seq<bool>, lo: int, hi: int, b: bool)
    requires
        0 <= lo <= hi <= s.len(),
        forall|j: int| lo <= j < hi ==> s[j] == b,
    ensures
        count_true(s.subrange(lo, hi)) == if b {
            hi - lo
        } else {
            0int
        },
    decreases hi - lo,
{
    if lo == hi {
        assert(s.subrange(lo, hi) =~= Seq::<bool>::empty());
    } else {
        assert(s.subrange(lo, hi).drop_last() =~= s.subrange(lo, hi - 1));
        assert(s.subrange(lo, hi).last() == s[hi - 1]);
        lemma_count_true_constant(s, lo, hi - 1, b);
    }
}

/// Counting the whole sequence is counting its full subrange.
pub proof fn lemma_count_true_whole(s: Seq<bool>)
    ensures
        count_true(s.subrange(0, s.len() as int)) == count_true(s),
{
    assert(s.subrange(0, s.len() as int) =~= s);
}

/// No position is `false` exactly when the `false` count is zero.
pub proof fn lemma_count_false_zero_iff_full(s: Seq<bool>)
    ensures
        (count_false(s) == 0) <==> (forall|j: int| 0 <= j < s.len() ==> s[j]),
    decreases s.len(),
{
    if s.len() == 0 {
    } else {
        lemma_count_false_zero_iff_full(s.drop_last());
        lemma_count_true_bounds(s.drop_last());
        if count_false(s) == 0 {
            assert(forall|j: int| 0 <= j < s.len() - 1 ==> s.drop_last()[j] == s[j]);
            assert(s.last() == s[s.len() - 1]);
        } else {
            if forall|j: int| 0 <= j < s.len() ==> s[j] {
                assert(forall|j: int| 0 <= j < s.len() - 1 ==> s.drop_last()[j]);
                assert(s.last());
            }
        }
    }
}

} // verus!
