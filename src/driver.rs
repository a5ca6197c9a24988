use vstd::prelude::*;
use crate::mapper::Action;

verus! {

/// Iterations a batch of the parallel driver holds.
pub const BATCH_SIZE: usize = 1000;

/// Split `iterations` over `threads` workers: each gets the quotient, and
/// the first `iterations % threads` workers one more.
pub fn split_iterations(iterations: usize, threads: usize) -> (r: Vec<usize>)
    requires
        threads > 0,
    ensures
        r@.len() == threads,
        forall|i: int|
            0 <= i < threads ==> #[trigger] r@[i] == iterations / threads + if i < iterations
                % threads {
                1int
            } else {
                0int
            },
{
    let base = iterations / threads;
    let extra = iterations % threads;
    let mut out: Vec<usize> = Vec::new();
    let mut i: usize = 0;
    proof {
        assert(base * threads + extra == iterations) by (nonlinear_arith)
            requires
                base == iterations / threads,
                extra == iterations % threads,
                threads > 0,
        ;
    }
    while i < threads
        invariant
            i <= threads,
            base == iterations / threads,
            extra == iterations % threads,
            extra < threads,
            base * threads + extra == iterations,
            out@.len() == i,
            forall|j: int|
                0 <= j < i ==> #[trigger] out@[j] == base + if j < extra {
                    1int
                } else {
                    0int
                },
        decreases threads - i,
    {
        proof {
            if base == usize::MAX as int {
                assert(base * threads >= base) by (nonlinear_arith)
                    requires
                        threads > 0,
                        base >= 0,
                ;
                assert(extra == 0);
            }
        }
        if i < extra {
            out.push(base + 1);
        } else {
            out.push(base);
        }
        i = i + 1;
    }
    out
}

/// Sum of the entries.
pub open spec fn sum_of(s: Seq<usize>) -> int
    decreases s.len(),
{
    if s.len() == 0 {
        0
    } else {
        sum_of(s.drop_last()) + s.last()
    }
}

proof fn lemma_sum_split(n: int, t: int, base: int, extra: int, s: Seq<usize>)
    requires
        0 <= t <= s.len(),
        0 <= extra <= s.len(),
        forall|i: int| 0 <= i < s.len() ==> #[trigger] s[i] == base + if i < extra {
            1int
        } else {
            0int
        },
    ensures
        sum_of(s.subrange(0, t)) == base * t + if t < extra {
            t
        } else {
            extra
        },
    decreases t,
{
    if t > 0 {
        lemma_sum_split(n, t - 1, base, extra, s);
        assert(s.subrange(0, t).drop_last() =~= s.subrange(0, t - 1));
        assert(s.subrange(0, t).last() == s[t - 1]);
        assert(base * t == base * (t - 1) + base) by (nonlinear_arith);
    } else {
        assert(s.subrange(0, 0).len() == 0);
    }
}

/// The split hands out every iteration of the batch, no more.
pub proof fn lemma_split_total(iterations: usize, threads: usize, r: Seq<usize>)
    requires
        threads > 0,
        r.len() == threads,
        forall|i: int|
            0 <= i < threads ==> #[trigger] r[i] == iterations / threads + if i < iterations
                % threads {
                1int
            } else {
                0int
            },
    ensures
        sum_of(r) == iterations,
{
    let base = iterations / threads;
    let extra = iterations % threads;
    lemma_sum_split(iterations as int, threads as int, base as int, extra as int, r);
    assert(r.subrange(0, threads as int) =~= r);
    assert(base * threads + extra == iterations) by (nonlinear_arith)
        requires
            base == iterations / threads,
            extra == iterations % threads,
            threads > 0,
    ;
}

/// Batch sizes covering `iterations`: full batches of `BATCH_SIZE`, then
/// the remainder as a last, shorter batch where there is one.
pub fn batch_sizes(iterations: usize) -> (r: Vec<usize>)
    ensures
        sum_of(r@) == iterations,
        forall|i: int| 0 <= i < r@.len() ==> 0 < #[trigger] r@[i] <= BATCH_SIZE,
        forall|i: int| 0 <= i < r@.len() - 1 ==> #[trigger] r@[i] == BATCH_SIZE,
{
    let mut out: Vec<usize> = Vec::new();
    let mut left: usize = iterations;
    while left > 0
        invariant
            sum_of(out@) + left == iterations,
            forall|i: int| 0 <= i < out@.len() ==> #[trigger] out@[i] == BATCH_SIZE,
        decreases left,
    {
        let ghost prev = out@;
        if left >= BATCH_SIZE {
            out.push(BATCH_SIZE);
            left = left - BATCH_SIZE;
        } else {
            out.push(left);
            proof {
                assert(out@.drop_last() =~= prev);
            }
            return out;
        }
        proof {
            assert(out@.drop_last() =~= prev);
        }
    }
    out
}

/// For each action index below `size`: whether a legal action has it, and
/// the last legal action that does.
pub fn legal_slots<A: Action>(actions: &Vec<A>, size: usize) -> (r: (Vec<bool>, Vec<Option<A>>))
    requires
        forall|i: int| 0 <= i < actions@.len() ==> (#[trigger] actions@[i]).spec_index() < size,
    ensures
        r.0@.len() == size,
        r.1@.len() == size,
        forall|k: int|
            0 <= k < size ==> (#[trigger] r.0@[k] <==> exists|i: int|
                0 <= i < actions@.len() && actions@[i].spec_index() == k),
        forall|k: int|
            0 <= k < size ==> match #[trigger] r.1@[k] {
                Some(a) => exists|i: int|
                    0 <= i < actions@.len() && actions@[i] == a && a.spec_index() == k && forall|
                        j: int,
                    |
                        i < j < actions@.len() ==> actions@[j].spec_index() != k,
                None => forall|i: int|
                    0 <= i < actions@.len() ==> actions@[i].spec_index() != k,
            },
{
    let mut mask: Vec<bool> = Vec::new();
    let mut slots: Vec<Option<A>> = Vec::new();
    let mut k: usize = 0;
    while k < size
        invariant
            k <= size,
            mask@.len() == k,
            slots@.len() == k,
            forall|j: int| 0 <= j < k ==> !(#[trigger] mask@[j]),
            forall|j: int| 0 <= j < k ==> (#[trigger] slots@[j]) is None,
        decreases size - k,
    {
        mask.push(false);
        slots.push(None);
        k = k + 1;
    }
    let mut i: usize = 0;
    while i < actions.len()
        invariant
            i <= actions@.len(),
            mask@.len() == size,
            slots@.len() == size,
            forall|j: int| 0 <= j < actions@.len() ==> (#[trigger] actions@[j]).spec_index() < size,
            forall|k: int|
                0 <= k < size ==> (#[trigger] mask@[k] <==> exists|j: int|
                    0 <= j < i && actions@[j].spec_index() == k),
            forall|k: int|
                0 <= k < size ==> match #[trigger] slots@[k] {
                    Some(a) => exists|j: int|
                        0 <= j < i && actions@[j] == a && a.spec_index() == k && forall|m: int|
                            j < m < i ==> actions@[m].spec_index() != k,
                    None => forall|j: int| 0 <= j < i ==> actions@[j].spec_index() != k,
                },
        decreases actions@.len() - i,
    {
        let a = actions[i];
        let idx = a.index() as usize;
        mask.set(idx, true);
        slots.set(idx, Some(a));
        proof {
            assert forall|k: int| 0 <= k < size implies (#[trigger] mask@[k] <==> exists|j: int|
                0 <= j < i + 1 && actions@[j].spec_index() == k) by {
                if k == idx {
                    assert(actions@[i as int].spec_index() == k);
                }
            }
            assert forall|k: int| 0 <= k < size implies match #[trigger] slots@[k] {
                Some(b) => exists|j: int|
                    0 <= j < i + 1 && actions@[j] == b && b.spec_index() == k && forall|m: int|
                        j < m < i + 1 ==> actions@[m].spec_index() != k,
                None => forall|j: int| 0 <= j < i + 1 ==> actions@[j].spec_index() != k,
            } by {
                if k == idx {
                    assert(actions@[i as int] == a);
                } else {
                    assert(actions@[i as int].spec_index() != k);
                }
            }
        }
        i = i + 1;
    }
    (mask, slots)
}

} // verus!
