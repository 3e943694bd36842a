//! Pairing the branches of two `anyOf` lists.
//!
//! Each branch of the old list is paired with one branch of the new list
//! so that the costs of the pairs, taken from a square matrix, add up to
//! as little as possible.

use vstd::prelude::*;

verus! {

/// The cost of a pair is the number of changes between its two branches,
/// counted no further than this.
pub const COST_CAP: i64 = 0x7fff_ffff;

/// The row-major matrix has `n` rows of `n` costs, each between zero and
/// the cap.
pub open spec fn is_cost_matrix(n: nat, costs: Seq<i64>) -> bool {
    &&& costs.len() == n * n
    &&& forall|c: int| 0 <= c < costs.len() ==> 0 <= #[trigger] costs[c] <= COST_CAP
}

/// `pairs` gives each of `n` rows a column of its own.
pub open spec fn is_assignment(n: nat, pairs: Seq<usize>) -> bool {
    &&& pairs.len() == n
    &&& forall|i: int| 0 <= i < n ==> (#[trigger] pairs[i]) < n
    &&& forall|i: int, j: int| 0 <= i < n && 0 <= j < n && i != j ==> pairs[i] != pairs[j]
}

/// The cost in row `i` and column `j` of the matrix.
pub open spec fn cell(n: nat, costs: Seq<i64>, i: int, j: int) -> i64 {
    costs[i * n + j]
}

/// The sum of the costs that `pairs` picks in the first `k` rows.
pub open spec fn total_cost(n: nat, costs: Seq<i64>, pairs: Seq<usize>, k: int) -> int
    decreases k,
{
    if k <= 0 {
        0
    } else {
        total_cost(n, costs, pairs, k - 1) + cell(n, costs, k - 1, pairs[k - 1] as int)
    }
}

/// The columns that the Kuhn-Munkres algorithm of the `pathfinding` crate
/// gives the rows of the `n` by `n` matrix `costs` when it minimizes the
/// sum.
pub uninterp spec fn kuhn_munkres_min_assignment(n: nat, costs: Seq<i64>) -> Seq<usize>;

/// Calls `pathfinding::kuhn_munkres::kuhn_munkres_min` on the matrix that
/// `pathfinding::matrix::Matrix::from_vec` makes of `costs`, and returns
/// the columns it assigns to the rows.
///
/// Believed of the call, not proved: that it returns, for each row, a
/// column of its own; that no other such assignment has a smaller sum of
/// costs; and that the same matrix always gets the same columns. The
/// bounds demanded of `n` and of the costs keep the sums that the
/// algorithm forms inside `i64`.
#[verifier::external_body]
fn kuhn_munkres_min(n: usize, costs: Vec<i64>) -> (pairs: Vec<usize>)
    requires
        is_cost_matrix(n as nat, costs@),
        n <= 0xffff_ffff,
    ensures
        pairs@ == kuhn_munkres_min_assignment(n as nat, costs@),
        is_assignment(n as nat, pairs@),
        forall|other: Seq<usize>|
            is_assignment(n as nat, other) ==> total_cost(n as nat, costs@, pairs@, n as int) <= #[trigger] total_cost(
                n as nat,
                costs@,
                other,
                n as int,
            ),
{
    let matrix = pathfinding::matrix::Matrix::from_vec(n, n, costs).unwrap();
    pathfinding::kuhn_munkres::kuhn_munkres_min(&matrix).1
}

/// A square matrix whose cells can be counted in 64 bits has fewer than
/// 2^32 rows.
pub proof fn lemma_square_fits(n: nat, len: nat)
    requires
        len == n * n,
        len <= 0xffff_ffff_ffff_ffff,
    ensures
        n <= 0xffff_ffff,
{
    assert(n <= 0xffff_ffff) by (nonlinear_arith)
        requires
            len == n * n,
            len <= 0xffff_ffff_ffff_ffff,
    ;
}

/// Pairs each row of the cost matrix with a column of its own so that the
/// costs of the pairs add up to as little as possible.
pub fn min_cost_pairs(n: usize, costs: Vec<i64>) -> (pairs: Vec<usize>)
    requires
        is_cost_matrix(n as nat, costs@),
    ensures
        pairs@ == kuhn_munkres_min_assignment(n as nat, costs@),
        is_assignment(n as nat, pairs@),
        forall|other: Seq<usize>|
            is_assignment(n as nat, other) ==> total_cost(n as nat, costs@, pairs@, n as int) <= #[trigger] total_cost(
                n as nat,
                costs@,
                other,
                n as int,
            ),
{
    proof {
        let len = costs.len();
        lemma_square_fits(n as nat, len as nat);
    }
    kuhn_munkres_min(n, costs)
}

/// The costs that an assignment picks from a cost matrix add up to no less
/// than zero, and to no less than any one of them.
pub proof fn lemma_total_cost_bounds(n: nat, costs: Seq<i64>, pairs: Seq<usize>, k: int)
    requires
        is_cost_matrix(n, costs),
        is_assignment(n, pairs),
        0 <= k <= n,
    ensures
        0 <= total_cost(n, costs, pairs, k),
        forall|i: int| 0 <= i < k ==> #[trigger] cell(n, costs, i, pairs[i] as int) <= total_cost(n, costs, pairs, k),
    decreases k,
{
    if k > 0 {
        lemma_total_cost_bounds(n, costs, pairs, k - 1);
        lemma_cell_index(n, k - 1, pairs[k - 1] as int);
        assert forall|i: int| 0 <= i < k implies #[trigger] cell(n, costs, i, pairs[i] as int) <= total_cost(n, costs, pairs, k) by {
            lemma_cell_index(n, i, pairs[i] as int);
        }
    }
}

/// The cell in row `i` and column `j` lies within the matrix.
pub proof fn lemma_cell_index(n: nat, i: int, j: int)
    requires
        0 <= i < n,
        0 <= j < n,
    ensures
        0 <= i * n + j < n * n,
{
    assert(0 <= i * n + j < n * n) by (nonlinear_arith)
        requires
            0 <= i < n,
            0 <= j < n,
    ;
}

/// The assignment that gives row `i` the column `i`.
pub open spec fn identity_assignment(n: nat) -> Seq<usize> {
    Seq::new(n, |i: int| i as usize)
}

/// Where pairing each row with the column of its own number costs
/// nothing, every pair of a cheapest assignment costs nothing.
pub proof fn lemma_zero_diagonal(n: nat, costs: Seq<i64>, pairs: Seq<usize>)
    requires
        is_cost_matrix(n, costs),
        n <= usize::MAX,
        is_assignment(n, pairs),
        forall|other: Seq<usize>|
            is_assignment(n, other) ==> total_cost(n, costs, pairs, n as int) <= #[trigger] total_cost(
                n,
                costs,
                other,
                n as int,
            ),
        forall|i: int| 0 <= i < n ==> #[trigger] cell(n, costs, i, i) == 0,
    ensures
        forall|i: int| 0 <= i < n ==> #[trigger] cell(n, costs, i, pairs[i] as int) == 0,
{
    let id = identity_assignment(n);
    assert(is_assignment(n, id));
    lemma_identity_total(n, costs, n as int);
    lemma_total_cost_bounds(n, costs, pairs, n as int);
    assert(total_cost(n, costs, pairs, n as int) <= total_cost(n, costs, id, n as int));
    assert forall|i: int| 0 <= i < n implies #[trigger] cell(n, costs, i, pairs[i] as int) == 0 by {
        lemma_cell_index(n, i, pairs[i] as int);
    }
}

proof fn lemma_identity_total(n: nat, costs: Seq<i64>, k: int)
    requires
        n <= usize::MAX,
        0 <= k <= n,
        forall|i: int| 0 <= i < n ==> #[trigger] cell(n, costs, i, i) == 0,
    ensures
        total_cost(n, costs, identity_assignment(n), k) == 0,
    decreases k,
{
    if k > 0 {
        lemma_identity_total(n, costs, k - 1);
        assert(identity_assignment(n)[k - 1] == k - 1);
    }
}

} // verus!
