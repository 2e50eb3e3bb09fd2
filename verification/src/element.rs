//! Access to single elements of a list, and its length.

use vstd::prelude::*;

verus! {

/// The last element of `slice`, or `None` when it is empty.
pub fn last<T: Copy>(slice: &[T]) -> (found: Option<T>)
    ensures
        found == if slice@.len() == 0 {
            None
        } else {
            Some(slice@.last())
        },
{
    let n: usize = slice.len();
    if n == 0 {
        None
    } else {
        Some(slice[n - 1])
    }
}

/// The last two elements of `slice` in their order, or `None` when it holds
/// fewer than two.
pub fn last_two<T: Copy>(slice: &[T]) -> (found: Option<(T, T)>)
    ensures
        found == if slice@.len() < 2 {
            None
        } else {
            Some((slice@[slice@.len() - 2], slice@[slice@.len() - 1]))
        },
{
    let n: usize = slice.len();
    if n < 2 {
        None
    } else {
        Some((slice[n - 2], slice[n - 1]))
    }
}

/// The `k`-th element of `slice`, counting from one, or `None` when `k` is
/// zero or beyond the end.
pub fn at<T: Copy>(slice: &[T], k: usize) -> (found: Option<T>)
    ensures
        found == if 1 <= k <= slice@.len() {
            Some(slice@[k - 1])
        } else {
            None
        },
{
    if 1 <= k && k <= slice.len() {
        Some(slice[k - 1])
    } else {
        None
    }
}

/// The number of elements of `slice`.
pub fn length<T>(slice: &[T]) -> (n: usize)
    ensures
        n == slice@.len(),
{
    slice.len()
}

} // verus!
