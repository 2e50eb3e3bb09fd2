//! Lists with each element repeated, and lists thinned out at regular steps.

use vstd::arithmetic::div_mod::{lemma_fundamental_div_mod, lemma_fundamental_div_mod_converse};
use vstd::prelude::*;

verus! {

/// `xs` with each element written `n` times in a row.
pub open spec fn repeat_each<T>(xs: Seq<T>, n: nat) -> Seq<T> {
    Seq::new(xs.len() * n, |i: int| xs[i / (n as int)])
}

/// `xs` without every `n`-th element, counting from one: without the elements
/// at the positions `n`, `2n`, `3n` and so on. With `n` zero nothing is kept.
pub open spec fn drop_every<T>(xs: Seq<T>, n: nat) -> Seq<T>
    decreases xs.len(),
{
    if xs.len() == 0 {
        Seq::empty()
    } else if n > 0 && xs.len() % n != 0 {
        drop_every(xs.drop_last(), n).push(xs.last())
    } else {
        drop_every(xs.drop_last(), n)
    }
}

/// Of every `n` elements in a row, `drop_every` drops one: what it keeps is
/// shorter than `xs` by the number of multiples of `n` up to the length of
/// `xs`.
pub proof fn lemma_drop_every_len<T>(xs: Seq<T>, n: nat)
    ensures
        drop_every(xs, n).len() == if n == 0 {
            0
        } else {
            xs.len() - xs.len() / n
        },
    decreases xs.len(),
{
    if xs.len() > 0 {
        lemma_drop_every_len(xs.drop_last(), n);
        if n > 0 {
            let m = xs.len() as int;
            let d = n as int;
            lemma_fundamental_div_mod(m, d);
            if m % d != 0 {
                lemma_fundamental_div_mod_converse(m - 1, d, m / d, m % d - 1);
            } else {
                assert(m - 1 == (m / d - 1) * d + (d - 1)) by (nonlinear_arith)
                    requires
                        m == d * (m / d),
                ;
                lemma_fundamental_div_mod_converse(m - 1, d, m / d - 1, d - 1);
            }
        }
    }
}

/// `slice` with each element written twice in a row.
pub fn duplicate<T: Copy>(slice: &[T]) -> (list: Vec<T>)
    ensures
        list@ == repeat_each(slice@, 2),
{
    let mut list: Vec<T> = Vec::new();
    let mut i: usize = 0;
    while i < slice.len()
        invariant
            i <= slice@.len(),
            list@.len() == 2 * i,
            forall|k: int| 0 <= k < list@.len() ==> list@[k] == slice@[k / 2],
        decreases slice@.len() - i,
    {
        let a: T = slice[i];
        list.push(a);
        list.push(a);
        i += 1;
    }
    list
}

/// `slice` with each element written `n` times in a row. With `n` zero the
/// result is empty.
pub fn replicate<T: Copy>(slice: &[T], n: usize) -> (list: Vec<T>)
    ensures
        list@ == repeat_each(slice@, n as nat),
{
    let mut list: Vec<T> = Vec::new();
    let mut i: usize = 0;
    while i < slice.len()
        invariant
            i <= slice@.len(),
            list@.len() == i * n,
            forall|k: int| 0 <= k < list@.len() ==> list@[k] == slice@[k / (n as int)],
        decreases slice@.len() - i,
    {
        let a: T = slice[i];
        let mut j: usize = 0;
        while j < n
            invariant
                j <= n,
                i < slice@.len(),
                a == slice@[i as int],
                list@.len() == i * n + j,
                forall|k: int| 0 <= k < list@.len() ==> list@[k] == slice@[k / (n as int)],
            decreases n - j,
        {
            proof {
                lemma_fundamental_div_mod_converse(i * n + j, n as int, i as int, j as int);
            }
            list.push(a);
            j += 1;
        }
        assert((i + 1) * n == i * n + n) by (nonlinear_arith);
        i += 1;
    }
    list
}

/// Where a countdown to the next multiple of `n` stands after one more
/// position: `left` positions after position `i` lies a multiple of `n`.
proof fn lemma_countdown_step(i: int, left: int, n: int)
    requires
        0 <= i,
        1 <= left <= n,
        (i + left) % n == 0,
    ensures
        left >= 2 ==> (i + 1) % n != 0 && (i + 1 + (left - 1)) % n == 0,
        left == 1 ==> (i + 1) % n == 0 && (i + 1 + n) % n == 0,
{
    let q = (i + left) / n;
    lemma_fundamental_div_mod(i + left, n);
    if left >= 2 {
        assert(i + 1 == (q - 1) * n + (n - left + 1)) by (nonlinear_arith)
            requires
                i + left == n * q,
        ;
        lemma_fundamental_div_mod_converse(i + 1, n, q - 1, n - left + 1);
    } else {
        assert(i + 1 == q * n + 0) by (nonlinear_arith)
            requires
                i + left == n * q,
                left == 1,
        ;
        lemma_fundamental_div_mod_converse(i + 1, n, q, 0);
        assert(i + 1 + n == (q + 1) * n + 0) by (nonlinear_arith)
            requires
                i + 1 == q * n,
        ;
        lemma_fundamental_div_mod_converse(i + 1 + n, n, q + 1, 0);
    }
}

/// `slice` without every `n`-th element, counting from one. With `n` zero or
/// one the result is empty.
pub fn dropn<T: Copy>(slice: &[T], n: usize) -> (list: Vec<T>)
    ensures
        list@ == drop_every(slice@, n as nat),
{
    let mut list: Vec<T> = Vec::new();
    let mut left: usize = n;
    let mut i: usize = 0;
    proof {
        if n > 0 {
            lemma_fundamental_div_mod_converse(n as int, n as int, 1, 0);
        }
    }
    while i < slice.len()
        invariant
            i <= slice@.len(),
            n == 0 ==> left == 0,
            n > 0 ==> 1 <= left <= n && (i + left) % (n as int) == 0,
            list@ == drop_every(slice@.take(i as int), n as nat),
        decreases slice@.len() - i,
    {
        proof {
            assert(slice@.take(i + 1).drop_last() =~= slice@.take(i as int));
            if n > 0 {
                lemma_countdown_step(i as int, left as int, n as int);
            }
        }
        if left >= 2 {
            list.push(slice[i]);
            left -= 1;
        } else {
            left = n;
        }
        i += 1;
    }
    assert(slice@.take(i as int) =~= slice@);
    list
}

} // verus!
