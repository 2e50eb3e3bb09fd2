//! Reversal of a list, and whether a list reads the same from both ends.

use crate::equality::decides_equality;
use vstd::prelude::*;

verus! {

/// The elements of `slice` in reverse order.
pub fn rev<T: Copy>(slice: &[T]) -> (list: Vec<T>)
    ensures
        list@ == slice@.reverse(),
{
    let mut list: Vec<T> = Vec::new();
    let mut i: usize = slice.len();
    while i > 0
        invariant
            i <= slice@.len(),
            list@.len() == slice@.len() - i,
            forall|k: int| 0 <= k < list@.len() ==> list@[k] == slice@[slice@.len() - 1 - k],
        decreases i,
    {
        i -= 1;
        list.push(slice[i]);
    }
    list
}

/// Whether `slice` is a palindrome: whether it reads the same from both ends,
/// which is to equal its reverse. The comparison works from the ends inwards,
/// pair by pair, until fewer than two elements are left between them.
pub fn is_palindrome<T: PartialEq>(slice: &[T]) -> (mirrored: bool)
    ensures
        slice@.len() <= 1 ==> mirrored,
        decides_equality::<T>() ==> mirrored == (slice@ == slice@.reverse()),
{
    let mut low: usize = 0;
    let mut high: usize = slice.len();
    while high - low >= 2
        invariant
            low <= high,
            low + high == slice@.len(),
            decides_equality::<T>() ==> forall|i: int|
                0 <= i < low ==> #[trigger] slice@[i] == slice@[slice@.len() - 1 - i],
        decreases high - low,
    {
        if slice[low] != slice[high - 1] {
            assert(slice@.reverse()[low as int] == slice@[high - 1]);
            return false;
        }
        low += 1;
        high -= 1;
    }
    proof {
        if decides_equality::<T>() {
            let n = slice@.len() as int;
            assert forall|i: int| 0 <= i < n implies slice@[i] == slice@.reverse()[i] by {
                // An element right of the middle is the mirror image of one
                // left of it, which was compared.
                let j = n - 1 - i;
                if j < low {
                    assert(slice@[j] == slice@[n - 1 - j]);
                }
            }
            assert(slice@ =~= slice@.reverse());
        }
    }
    true
}

} // verus!
