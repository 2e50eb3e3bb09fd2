//! The maximal runs of a sequence: the model that the run-length functions
//! are stated over.
//!
//! A run is a maximal block of equal, consecutive elements. Every sequence
//! falls into its runs in exactly one way: the runs hold at least one element
//! each, no two neighbours hold the same value, together they spell out the
//! sequence, and no other sequence of blocks does all three
//! (`lemma_runs_unique`).

use vstd::prelude::*;

verus! {

/// A block of `count` copies of `value`.
pub ghost struct Run<T> {
    pub count: nat,
    pub value: T,
}

impl<T> Run<T> {
    /// The elements that the run stands for.
    pub open spec fn elements(self) -> Seq<T> {
        Seq::new(self.count, |i: int| self.value)
    }
}

/// The length of the last run of `xs`: of its longest suffix of equal
/// elements. Zero for the empty sequence.
pub open spec fn last_run_len<T>(xs: Seq<T>) -> nat
    decreases xs.len(),
{
    if xs.len() == 0 {
        0
    } else if xs.len() >= 2 && xs[xs.len() - 2] == xs.last() {
        last_run_len(xs.drop_last()) + 1
    } else {
        1
    }
}

/// The runs of `xs`, in order: the runs of what stands before its last run,
/// then its last run.
pub open spec fn runs<T>(xs: Seq<T>) -> Seq<Run<T>>
    decreases xs.len(),
    via runs_decreases::<T>
{
    if xs.len() == 0 {
        Seq::empty()
    } else {
        let n = last_run_len(xs);
        runs(xs.take(xs.len() - n)).push(Run { count: n, value: xs.last() })
    }
}

#[via_fn]
proof fn runs_decreases<T>(xs: Seq<T>) {
    lemma_last_run_len_bounds(xs);
}

/// The sequence that `rs` stands for: the elements of each run, one run after
/// the other. A run with a count of zero adds nothing.
pub open spec fn expand<T>(rs: Seq<Run<T>>) -> Seq<T>
    decreases rs.len(),
{
    if rs.len() == 0 {
        Seq::empty()
    } else {
        expand(rs.drop_last()) + rs.last().elements()
    }
}

/// Every run holds at least one element.
pub open spec fn counts_positive<T>(rs: Seq<Run<T>>) -> bool {
    forall|k: int| 0 <= k < rs.len() ==> (#[trigger] rs[k]).count >= 1
}

/// No two neighbouring runs hold the same value, so none could be merged with
/// the next.
pub open spec fn is_maximal<T>(rs: Seq<Run<T>>) -> bool {
    forall|k: int| 0 <= k < rs.len() - 1 ==> (#[trigger] rs[k]).value != rs[k + 1].value
}

/// A non-empty sequence has a last run of at least one element and of no more
/// than all of them.
pub proof fn lemma_last_run_len_bounds<T>(xs: Seq<T>)
    ensures
        xs.len() == 0 ==> last_run_len(xs) == 0,
        xs.len() > 0 ==> 1 <= last_run_len(xs) <= xs.len(),
    decreases xs.len(),
{
    if xs.len() >= 2 {
        lemma_last_run_len_bounds(xs.drop_last());
    }
}

/// The elements of the last run of `xs` are all equal to its last element, and
/// the element before that run, if there is one, differs from it.
pub proof fn lemma_last_run_is_longest<T>(xs: Seq<T>)
    requires
        xs.len() > 0,
    ensures
        forall|i: int| xs.len() - last_run_len(xs) <= i < xs.len() ==> xs[i] == xs.last(),
        last_run_len(xs) < xs.len() ==> xs[xs.len() - last_run_len(xs) - 1] != xs.last(),
    decreases xs.len(),
{
    lemma_last_run_len_bounds(xs);
    if xs.len() >= 2 && xs[xs.len() - 2] == xs.last() {
        let front = xs.drop_last();
        lemma_last_run_is_longest(front);
        assert forall|i: int| xs.len() - last_run_len(xs) <= i < xs.len() implies xs[i]
            == xs.last() by {
            if i < front.len() {
                assert(xs[i] == front[i]);
            }
        }
    }
}

/// A suffix of `n` equal elements that cannot be extended to the left is the
/// last run.
pub proof fn lemma_last_run_len_is<T>(xs: Seq<T>, n: nat)
    requires
        1 <= n <= xs.len(),
        forall|i: int| xs.len() - n <= i < xs.len() ==> xs[i] == xs.last(),
        n < xs.len() ==> xs[xs.len() - n - 1] != xs.last(),
    ensures
        last_run_len(xs) == n,
    decreases n,
{
    if n >= 2 {
        let front = xs.drop_last();
        assert(front.last() == xs.last());
        lemma_last_run_len_is(front, (n - 1) as nat);
    }
}

/// How the runs change when one element is appended: an element equal to the
/// last one lengthens the last run by one, any other opens a new run of one.
pub proof fn lemma_runs_push<T>(xs: Seq<T>, a: T)
    ensures
        runs(xs.push(a)) == if xs.len() > 0 && xs.last() == a {
            runs(xs).drop_last().push(Run { count: runs(xs).last().count + 1, value: a })
        } else {
            runs(xs).push(Run { count: 1, value: a })
        },
        xs.len() > 0 ==> runs(xs).len() > 0 && runs(xs).last().value == xs.last(),
{
    let ys = xs.push(a);
    assert(ys.drop_last() =~= xs);
    if xs.len() > 0 && xs.last() == a {
        let n = last_run_len(xs);
        lemma_last_run_len_bounds(xs);
        assert(last_run_len(ys) == n + 1);
        assert(ys.take(ys.len() - (n + 1)) =~= xs.take(xs.len() - n));
        assert(runs(xs).drop_last() =~= runs(xs.take(xs.len() - n)));
    } else {
        assert(last_run_len(ys) == 1);
        assert(ys.take(ys.len() - 1) =~= xs);
    }
}

/// Expanding goes block by block: two sequences of runs, one after the other,
/// stand for what the first stands for and then what the second stands for.
pub proof fn lemma_expand_concat<T>(left: Seq<Run<T>>, right: Seq<Run<T>>)
    ensures
        expand(left + right) == expand(left) + expand(right),
    decreases right.len(),
{
    if right.len() == 0 {
        assert(left + right =~= left);
    } else {
        lemma_expand_concat(left, right.drop_last());
        assert((left + right).drop_last() =~= left + right.drop_last());
        assert((left + right).last() == right.last());
    }
}

/// Expanding the runs of a sequence gives the sequence back.
pub proof fn lemma_expand_runs<T>(xs: Seq<T>)
    ensures
        expand(runs(xs)) == xs,
    decreases xs.len(),
{
    if xs.len() > 0 {
        lemma_last_run_len_bounds(xs);
        lemma_last_run_is_longest(xs);
        let front = xs.take(xs.len() - last_run_len(xs));
        let tail = runs(xs).last();
        lemma_expand_runs(front);
        assert(runs(xs).drop_last() =~= runs(front));
        assert(expand(runs(xs)) == front + tail.elements());
        assert(front + tail.elements() =~= xs);
    }
}

/// Every run of a sequence holds at least one element.
pub proof fn lemma_runs_counts_positive<T>(xs: Seq<T>)
    ensures
        counts_positive(runs(xs)),
    decreases xs.len(),
{
    if xs.len() > 0 {
        lemma_last_run_len_bounds(xs);
        lemma_runs_counts_positive(xs.take(xs.len() - last_run_len(xs)));
    }
}

/// No two neighbouring runs of a sequence hold the same value.
pub proof fn lemma_runs_maximal<T>(xs: Seq<T>)
    ensures
        is_maximal(runs(xs)),
    decreases xs.len(),
{
    if xs.len() > 0 {
        lemma_last_run_len_bounds(xs);
        lemma_last_run_is_longest(xs);
        let front = xs.take(xs.len() - last_run_len(xs));
        lemma_runs_maximal(front);
        let rs = runs(xs);
        assert(rs.drop_last() =~= runs(front));
        assert forall|k: int| 0 <= k < rs.len() - 1 implies (#[trigger] rs[k]).value != rs[k
            + 1].value by {
            if k + 1 < rs.len() - 1 {
                assert(rs[k] == runs(front)[k] && rs[k + 1] == runs(front)[k + 1]);
            } else {
                // The last run of `front` holds the element before the last run
                // of `xs`.
                assert(rs[k].value == front.last());
                assert(rs[k + 1].value == xs.last());
            }
        }
    }
}

/// The runs of a sequence are the only way to write it as blocks of at least
/// one element of which no two neighbours hold the same value.
pub proof fn lemma_runs_unique<T>(rs: Seq<Run<T>>, xs: Seq<T>)
    requires
        counts_positive(rs),
        is_maximal(rs),
        expand(rs) == xs,
    ensures
        rs == runs(xs),
    decreases rs.len(),
{
    if rs.len() > 0 {
        let front = rs.drop_last();
        let tail = rs.last();
        let before = expand(front);
        assert(xs =~= before + tail.elements());
        assert(counts_positive(front) && is_maximal(front));
        // The last `tail.count` elements of `xs` are its last run: they equal
        // `tail.value`, and the element before them, the last of the run
        // before, does not.
        assert(tail.count >= 1 && xs.last() == tail.value);
        if front.len() > 0 {
            let prev = front.last();
            assert(prev == rs[rs.len() - 2]);
            assert(before =~= expand(front.drop_last()) + prev.elements());
            assert(prev.count >= 1 && before.last() == prev.value);
        }
        lemma_last_run_len_is(xs, tail.count);
        assert(xs.take(xs.len() - tail.count) =~= before);
        lemma_runs_unique(front, before);
    }
}

} // verus!
