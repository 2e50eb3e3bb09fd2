//! Run-length coding of a list, and the functions that share its scan: one
//! pass from left to right that either lengthens the run in progress or opens
//! a new one.

use crate::equality::decides_equality;
use crate::runs::{
    expand, is_maximal, lemma_expand_runs, lemma_runs_maximal, lemma_runs_push, runs, Run,
};
use vstd::prelude::*;

verus! {

/// One token of the tagged run-length code: a value that stands alone, or a
/// count and the value that is repeated.
#[derive(Debug, PartialEq)]
pub enum Rle<T> {
    /// A value that occurs once.
    One(T),
    /// A count, and the value that occurs that often in a row.
    Many(usize, T),
}

impl<T> View for Rle<T> {
    type V = Run<T>;

    /// The run that the token stands for. The view does not tell a `One` from
    /// a `Many` with a count of one: `is_compact` does.
    open spec fn view(&self) -> Run<T> {
        match *self {
            Rle::One(value) => Run { count: 1, value },
            Rle::Many(count, value) => Run { count: count as nat, value },
        }
    }
}

impl<T> Rle<T> {
    /// Whether the token is written in the shortest form: a run of one element
    /// is a `One`, so a `Many` counts at least two.
    pub open spec fn is_compact(self) -> bool {
        match self {
            Rle::One(_) => true,
            Rle::Many(count, _) => count >= 2,
        }
    }
}

/// The runs that a sequence of tagged tokens stands for.
pub open spec fn tagged_runs<T>(tokens: Seq<Rle<T>>) -> Seq<Run<T>> {
    tokens.map_values(|token: Rle<T>| token@)
}

/// The runs that a sequence of counted tokens stands for.
pub open spec fn counted_runs<T>(tokens: Seq<(usize, T)>) -> Seq<Run<T>> {
    tokens.map_values(|token: (usize, T)| Run { count: token.0 as nat, value: token.1 })
}

/// The run-length code of `slice`: for each of its runs, in order, the number
/// of elements and the value.
pub fn encode<T: Copy + PartialEq>(slice: &[T]) -> (tokens: Vec<(usize, T)>)
    ensures
        tokens@.len() <= slice@.len(),
        forall|k: int| 0 <= k < tokens@.len() ==> (#[trigger] tokens@[k]).0 >= 1,
        decides_equality::<T>() ==> counted_runs(tokens@) == runs(slice@),
        decides_equality::<T>() ==> is_maximal(counted_runs(tokens@)),
        decides_equality::<T>() ==> expand(counted_runs(tokens@)) == slice@,
{
    let mut list: Vec<(usize, T)> = Vec::new();
    let mut i: usize = 0;
    while i < slice.len()
        invariant
            i <= slice@.len(),
            list@.len() <= i,
            forall|k: int| 0 <= k < list@.len() ==> 1 <= (#[trigger] list@[k]).0 <= i,
            decides_equality::<T>() ==> counted_runs(list@) == runs(slice@.take(i as int)),
        decreases slice@.len() - i,
    {
        let a: T = slice[i];
        let n: usize = list.len();
        proof {
            lemma_runs_push(slice@.take(i as int), a);
            assert(slice@.take(i + 1) =~= slice@.take(i as int).push(a));
        }
        if n > 0 && a == list[n - 1].1 {
            list[n - 1].0 += 1;
        } else {
            list.push((1, a));
        }
        i += 1;
    }
    proof {
        assert(slice@.take(i as int) =~= slice@);
        lemma_runs_maximal(slice@);
        lemma_expand_runs(slice@);
    }
    list
}

/// The tagged run-length code of `slice`: one token for each of its runs, in
/// order, a `One` for a run of a single element and a `Many` for a longer one.
pub fn mod_encode<T: Copy + PartialEq>(slice: &[T]) -> (tokens: Vec<Rle<T>>)
    ensures
        tokens@.len() <= slice@.len(),
        forall|k: int| 0 <= k < tokens@.len() ==> (#[trigger] tokens@[k]).is_compact(),
        decides_equality::<T>() ==> tagged_runs(tokens@) == runs(slice@),
        decides_equality::<T>() ==> is_maximal(tagged_runs(tokens@)),
        decides_equality::<T>() ==> expand(tagged_runs(tokens@)) == slice@,
{
    let mut list: Vec<Rle<T>> = Vec::new();
    let mut i: usize = 0;
    while i < slice.len()
        invariant
            i <= slice@.len(),
            list@.len() <= i,
            forall|k: int| 0 <= k < list@.len() ==> (#[trigger] list@[k]).is_compact(),
            forall|k: int| 0 <= k < list@.len() ==> (#[trigger] list@[k])@.count <= i,
            decides_equality::<T>() ==> tagged_runs(list@) == runs(slice@.take(i as int)),
        decreases slice@.len() - i,
    {
        let a: T = slice[i];
        let n: usize = list.len();
        proof {
            lemma_runs_push(slice@.take(i as int), a);
            assert(slice@.take(i + 1) =~= slice@.take(i as int).push(a));
        }
        if n == 0 {
            list.push(Rle::One(a));
        } else {
            match list[n - 1] {
                Rle::One(b) if a == b => {
                    list[n - 1] = Rle::Many(2, a);
                },
                Rle::Many(count, b) if a == b => {
                    list[n - 1] = Rle::Many(count + 1, b);
                },
                _ => {
                    list.push(Rle::One(a));
                },
            }
        }
        i += 1;
    }
    proof {
        assert(slice@.take(i as int) =~= slice@);
        lemma_runs_maximal(slice@);
        lemma_expand_runs(slice@);
    }
    list
}

/// The list that `slice` stands for: for each token in order, its value as
/// often as its count says. A `Many` with a count of zero adds nothing.
pub fn decode<T: Copy>(slice: &[Rle<T>]) -> (list: Vec<T>)
    ensures
        list@ == expand(tagged_runs(slice@)),
{
    let mut list: Vec<T> = Vec::new();
    let mut i: usize = 0;
    while i < slice.len()
        invariant
            i <= slice@.len(),
            list@ == expand(tagged_runs(slice@.take(i as int))),
        decreases slice@.len() - i,
    {
        let (count, value): (usize, T) = match slice[i] {
            Rle::One(a) => (1, a),
            Rle::Many(n, a) => (n, a),
        };
        let ghost before = list@;
        let mut j: usize = 0;
        while j < count
            invariant
                j <= count,
                list@ == before + Seq::new(j as nat, |k: int| value),
            decreases count - j,
        {
            list.push(value);
            j += 1;
        }
        proof {
            let done = tagged_runs(slice@.take(i as int));
            let next = tagged_runs(slice@.take(i + 1));
            assert(next.drop_last() =~= done);
            assert(next.last() == slice@[i as int]@);
        }
        i += 1;
    }
    assert(slice@.take(i as int) =~= slice@);
    list
}

/// `slice` with each run cut down to one element: the values of its runs, in
/// order.
pub fn compress<T: Copy + PartialEq>(slice: &[T]) -> (list: Vec<T>)
    ensures
        list@.len() <= slice@.len(),
        decides_equality::<T>() ==> list@ == runs(slice@).map_values(|run: Run<T>| run.value),
{
    let mut list: Vec<T> = Vec::new();
    let mut i: usize = 0;
    while i < slice.len()
        invariant
            i <= slice@.len(),
            list@.len() <= i,
            decides_equality::<T>() ==> list@ == runs(slice@.take(i as int)).map_values(
                |run: Run<T>| run.value,
            ),
        decreases slice@.len() - i,
    {
        let a: T = slice[i];
        let n: usize = list.len();
        proof {
            lemma_runs_push(slice@.take(i as int), a);
            assert(slice@.take(i + 1) =~= slice@.take(i as int).push(a));
        }
        if n == 0 || a != list[n - 1] {
            list.push(a);
        }
        i += 1;
    }
    assert(slice@.take(i as int) =~= slice@);
    list
}

/// `slice` cut into its runs: one list for each run, in order, holding the
/// elements of that run.
pub fn pack<T: Copy + PartialEq>(slice: &[T]) -> (groups: Vec<Vec<T>>)
    ensures
        groups@.len() <= slice@.len(),
        forall|k: int| 0 <= k < groups@.len() ==> (#[trigger] groups@[k])@.len() >= 1,
        decides_equality::<T>() ==> groups@.len() == runs(slice@).len(),
        decides_equality::<T>() ==> forall|k: int|
            0 <= k < groups@.len() ==> (#[trigger] groups@[k])@ == runs(slice@)[k].elements(),
{
    let mut list: Vec<Vec<T>> = Vec::new();
    let mut i: usize = 0;
    while i < slice.len()
        invariant
            i <= slice@.len(),
            list@.len() <= i,
            forall|k: int| 0 <= k < list@.len() ==> (#[trigger] list@[k])@.len() >= 1,
            decides_equality::<T>() ==> list@.len() == runs(slice@.take(i as int)).len(),
            decides_equality::<T>() ==> forall|k: int|
                0 <= k < list@.len() ==> (#[trigger] list@[k])@ == runs(
                    slice@.take(i as int),
                )[k].elements(),
        decreases slice@.len() - i,
    {
        let a: T = slice[i];
        let n: usize = list.len();
        let ghost done = runs(slice@.take(i as int));
        proof {
            lemma_runs_push(slice@.take(i as int), a);
            assert(slice@.take(i + 1) =~= slice@.take(i as int).push(a));
            if decides_equality::<T>() && n > 0 {
                assert(list@[n - 1]@ == done[n - 1].elements());
                assert(list@[n - 1]@.last() == done.last().value);
            }
        }
        if n > 0 && a == list[n - 1][list[n - 1].len() - 1] {
            let b: T = list[n - 1][list[n - 1].len() - 1];
            let ghost before = list@;
            list[n - 1].push(b);
            proof {
                if decides_equality::<T>() {
                    let grown = Run { count: done.last().count + 1, value: a };
                    assert(runs(slice@.take(i + 1)) == done.drop_last().push(grown));
                    assert(list@[n - 1]@ =~= grown.elements());
                    assert forall|k: int| 0 <= k < list@.len() implies (#[trigger] list@[k])@
                        == runs(slice@.take(i + 1))[k].elements() by {
                        if k < n - 1 {
                            assert(list@[k] == before[k]);
                        }
                    }
                }
            }
        } else {
            let mut group: Vec<T> = Vec::new();
            group.push(a);
            let ghost before = list@;
            list.push(group);
            proof {
                if decides_equality::<T>() {
                    let opened = Run { count: 1, value: a };
                    assert(runs(slice@.take(i + 1)) == done.push(opened));
                    assert(list@[n as int]@ =~= opened.elements());
                    assert forall|k: int| 0 <= k < list@.len() implies (#[trigger] list@[k])@
                        == runs(slice@.take(i + 1))[k].elements() by {
                        if k < n {
                            assert(list@[k] == before[k]);
                        }
                    }
                }
            }
        }
        i += 1;
    }
    assert(slice@.take(i as int) =~= slice@);
    list
}

} // verus!
