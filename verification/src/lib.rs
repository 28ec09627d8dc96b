//! Levenshtein edit distance between two sequences of equality-comparable
//! elements, computed by dynamic programming over a two-dimensional table.

pub mod dist;
pub mod matrix;

use vstd::prelude::*;

verus! {

use crate::dist::{edit_dist, lemma_dist_bounds, lemma_dist_zero_iff, lemma_edit_dist_step};
use crate::matrix::Matrix;
use vstd::std_specs::cmp::PartialEqSpec;

/// A grid of `(m + 1) * (n + 1)` cells fits in memory only when each
/// dimension and the sum of the side lengths do as well.
proof fn lemma_grid_fits(m: int, n: int)
    requires
        0 <= m,
        0 <= n,
        (m + 1) * (n + 1) <= usize::MAX,
    ensures
        m + 1 <= usize::MAX,
        n + 1 <= usize::MAX,
        m + n + 1 <= usize::MAX,
{
    assert((m + 1) * (n + 1) == m * n + m + n + 1) by (nonlinear_arith);
    assert(m * n >= 0) by (nonlinear_arith)
        requires
            0 <= m,
            0 <= n,
    ;
}

/// Levenshtein edit distance between two sequences of equality-comparable
/// elements: the minimum number of single-element insertions, deletions and
/// substitutions that turn `first_word` into `second_word`. The element
/// type's equality test must decide equality of the values, and the
/// dynamic-programming table must fit in the platform's size type.
#[verifier::loop_isolation(false)]
#[verifier::rlimit(50)]
pub fn levenshtein<T: PartialEq>(first_word: &Vec<T>, second_word: &Vec<T>) -> (r: usize)
    requires
        T::obeys_eq_spec(),
        forall|a: T, b: T| #[trigger] a.eq_spec(&b) <==> a == b,
        (first_word@.len() + 1) * (second_word@.len() + 1) <= usize::MAX,
    ensures
        r == edit_dist(first_word@, second_word@),
        r == 0 <==> first_word@ == second_word@,
{
    let m = first_word.len();
    let n = second_word.len();
    proof {
        lemma_grid_fits(m as int, n as int);
    }
    let mut matrix = Matrix::new(m + 1, n + 1);
    let w = matrix.width();
    let h = matrix.height();

    for y in 0..h
        invariant
            matrix.wf(),
            matrix.spec_width() == m + 1,
            matrix.spec_height() == n + 1,
            forall|i: int| 0 <= i < y ==> #[trigger] matrix.cell(i, 0) == i,
    {
        matrix.set((y, 0), y);
    }
    for x in 0..w
        invariant
            matrix.wf(),
            matrix.spec_width() == m + 1,
            matrix.spec_height() == n + 1,
            forall|i: int| 0 <= i <= n ==> #[trigger] matrix.cell(i, 0) == i,
            forall|j: int| 0 <= j < x ==> #[trigger] matrix.cell(0, j) == j,
    {
        matrix.set((0, x), x);
    }

    for y in 1..h
        invariant
            matrix.wf(),
            matrix.spec_width() == m + 1,
            matrix.spec_height() == n + 1,
            forall|i: int| 0 <= i <= n ==> #[trigger] matrix.cell(i, 0) == i,
            forall|i: int, j: int|
                0 <= i < y && 0 <= j <= m ==> #[trigger] matrix.cell(i, j) == edit_dist(
                    first_word@.take(j),
                    second_word@.take(i),
                ),
    {
        for x in 1..w
            invariant
                1 <= y < h,
                matrix.wf(),
                matrix.spec_width() == m + 1,
                matrix.spec_height() == n + 1,
                forall|i: int| 0 <= i <= n ==> #[trigger] matrix.cell(i, 0) == i,
                forall|i: int, j: int|
                    0 <= i < y && 0 <= j <= m ==> #[trigger] matrix.cell(i, j) == edit_dist(
                        first_word@.take(j),
                        second_word@.take(i),
                    ),
                forall|j: int|
                    0 <= j < x ==> #[trigger] matrix.cell(y as int, j) == edit_dist(
                        first_word@.take(j),
                        second_word@.take(y as int),
                    ),
        {
            let same = first_word[x - 1] == second_word[y - 1];
            let cost: usize = if same {
                0
            } else {
                1
            };
            proof {
                lemma_grid_fits(m as int, n as int);
                lemma_dist_bounds(first_word@.take(x - 1), second_word@.take(y - 1));
                lemma_dist_bounds(first_word@.take(x - 1), second_word@.take(y as int));
                lemma_dist_bounds(first_word@.take(x as int), second_word@.take(y - 1));
                lemma_edit_dist_step(first_word@, second_word@, x as int, y as int);
            }
            let substituted = matrix.at((y - 1, x - 1)) + cost;
            let inserted = matrix.at((y - 1, x)) + 1;
            let deleted = matrix.at((y, x - 1)) + 1;
            let mut best = substituted;
            if inserted < best {
                best = inserted;
            }
            if deleted < best {
                best = deleted;
            }
            matrix.set((y, x), best);
        }
    }

    proof {
        assert(first_word@.take(m as int) =~= first_word@);
        assert(second_word@.take(n as int) =~= second_word@);
        lemma_dist_zero_iff(first_word@, second_word@);
    }
    matrix.at((h - 1, w - 1))
}

} // verus!
