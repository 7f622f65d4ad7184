//! Partitioning of bulk work into batches no larger than the backend's
//! 25-request limit.

use vstd::prelude::*;

verus! {

/// How many batch calls a bulk operation over `n` requests needs: `n`
/// divided by 25, rounded up.
pub open spec fn batch_count(n: nat) -> nat {
    (n + 24) / 25
}

/// `batch_count` is the least number of batches of at most 25 that
/// cover `n` requests: its batches suffice, and one batch fewer would
/// not.
pub proof fn lemma_batch_count_least(n: nat)
    ensures
        n == 0 ==> batch_count(n) == 0,
        n > 0 ==> n <= 25 * batch_count(n),
        n > 0 ==> 25 * (batch_count(n) - 1) < n,
{
}

/// Splits `v` into consecutive chunks of at most 25 elements: every
/// chunk except the last holds exactly 25, no chunk is empty, and the
/// chunks concatenate back to `v` in order.
pub fn into_batches<T>(v: Vec<T>) -> (r: Vec<Vec<T>>)
    ensures
        r@.len() == batch_count(v@.len() as nat),
        forall|i: int| 0 <= i < r@.len() ==> 0 < #[trigger] r@[i]@.len() <= 25,
        forall|i: int|
            0 <= i < r@.len() ==> #[trigger] r@[i]@.len() == if 25 * (i + 1) <= v@.len() {
                25int
            } else {
                v@.len() - 25 * i
            },
        forall|i: int, j: int|
            0 <= i < r@.len() && 0 <= j < r@[i]@.len() ==> #[trigger] r@[i]@[j] == v@[25 * i + j],
{
    let ghost orig = v@;
    let mut rest = v;
    let mut r: Vec<Vec<T>> = Vec::new();
    proof {
        assert(rest@ =~= orig.skip(0));
    }
    while rest.len() > 0
        invariant
            rest@.len() > 0 ==> rest@ == orig.skip(25 * r@.len() as int) && 25 * r@.len()
                < orig.len(),
            rest@.len() == 0 ==> r@.len() == batch_count(orig.len() as nat),
            forall|i: int|
                0 <= i < r@.len() ==> #[trigger] r@[i]@.len() == if 25 * (i + 1) <= orig.len() {
                    25int
                } else {
                    orig.len() - 25 * i
                },
            forall|i: int, j: int|
                0 <= i < r@.len() && 0 <= j < r@[i]@.len() ==> #[trigger] r@[i]@[j] == orig[25 * i
                    + j],
        decreases rest@.len(),
    {
        let ghost b = r@.len() as int;
        let mut head = rest;
        let tail: Vec<T> = if head.len() > 25 {
            head.split_off(25)
        } else {
            Vec::new()
        };
        proof {
            assert(head@.len() <= 25);
            assert(forall|j: int|
                0 <= j < head@.len() ==> #[trigger] head@[j] == orig[25 * b + j]);
            if tail@.len() > 0 {
                assert(tail@ =~= orig.skip(25 * (b + 1)));
            }
        }
        r.push(head);
        rest = tail;
        proof {
            if rest@.len() == 0 {
                assert(orig.len() == 25 * b + r@[b]@.len());
                assert(r@.len() == batch_count(orig.len() as nat)) by (nonlinear_arith)
                    requires
                        r@.len() == b + 1,
                        orig.len() == 25 * b + r@[b]@.len(),
                        0 < r@[b]@.len() <= 25,
                        b >= 0,
                ;
            }
        }
    }
    r
}

} // verus!
