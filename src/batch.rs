//! Helpers of the batch path: restricting per-time arrays to a subset of
//! instants, and spreading a target-independent result over many targets.
use vstd::prelude::*;

verus! {

/// The elements of `values` at the positions `indices`, in the order of
/// `indices`; `None` where an index is out of range.
///
/// Every per-time array of one evaluation is filtered with the same indices,
/// so index `k` of each filtered array refers to the same instant.
pub fn select_indices<T: Copy>(values: &Vec<T>, indices: &Vec<usize>) -> (r: Option<Vec<T>>)
    ensures
        r is Some <==> forall|k: int| 0 <= k < indices@.len() ==> #[trigger] indices@[k] < values@.len(),
        r matches Some(v) ==> {
            &&& v@.len() == indices@.len()
            &&& forall|k: int| 0 <= k < indices@.len() ==> #[trigger] v@[k] == values@[indices@[k] as int]
        },
{
    let n = indices.len();
    let mut out: Vec<T> = Vec::new();
    let mut k: usize = 0;
    while k < n
        invariant
            n == indices@.len(),
            k <= n,
            out@.len() == k,
            forall|j: int| 0 <= j < k ==> #[trigger] indices@[j] < values@.len(),
            forall|j: int| 0 <= j < k ==> #[trigger] out@[j] == values@[indices@[j] as int],
        decreases n - k,
    {
        let idx = indices[k];
        if idx >= values.len() {
            return None;
        }
        out.push(values[idx]);
        k = k + 1;
    }
    Some(out)
}

/// The satisfaction matrix of a target-independent constraint: one row per
/// target, one column per instant, true where the instant was not violated.
/// Each row is the same; the per-time result is computed once and spread.
pub fn broadcast_satisfied(violated: &Vec<bool>, n_targets: usize) -> (r: Vec<Vec<bool>>)
    ensures
        r@.len() == n_targets,
        forall|j: int| 0 <= j < n_targets ==> (#[trigger] r@[j])@.len() == violated@.len(),
        forall|j: int, i: int| 0 <= j < n_targets && 0 <= i < violated@.len() ==> #[trigger] r@[j]@[i] == !violated@[i],
{
    let n = violated.len();
    let mut row: Vec<bool> = Vec::new();
    let mut i: usize = 0;
    while i < n
        invariant
            n == violated@.len(),
            i <= n,
            row@.len() == i,
            forall|t: int| 0 <= t < i ==> #[trigger] row@[t] == !violated@[t],
        decreases n - i,
    {
        row.push(!violated[i]);
        i = i + 1;
    }
    let mut matrix: Vec<Vec<bool>> = Vec::new();
    let mut j: usize = 0;
    while j < n_targets
        invariant
            j <= n_targets,
            row@.len() == n,
            n == violated@.len(),
            forall|t: int| 0 <= t < n ==> #[trigger] row@[t] == !violated@[t],
            matrix@.len() == j,
            forall|q: int| 0 <= q < j ==> (#[trigger] matrix@[q])@ == row@,
        decreases n_targets - j,
    {
        matrix.push(row.clone());
        j = j + 1;
    }
    matrix
}

/// The satisfaction matrix of per-target violation flags: one row per target,
/// true where the sample was not violated (the batch path reports
/// satisfaction, the per-sample predicate reports violation).
pub fn satisfaction_matrix(violated: &Vec<Vec<bool>>) -> (r: Vec<Vec<bool>>)
    ensures
        r@.len() == violated@.len(),
        forall|j: int| 0 <= j < violated@.len() ==> (#[trigger] r@[j])@.len() == violated@[j]@.len(),
        forall|j: int, i: int| 0 <= j < violated@.len() && 0 <= i < violated@[j]@.len() ==> #[trigger] r@[j]@[i] == !violated@[j]@[i],
{
    let n = violated.len();
    let mut matrix: Vec<Vec<bool>> = Vec::new();
    let mut j: usize = 0;
    while j < n
        invariant
            n == violated@.len(),
            j <= n,
            matrix@.len() == j,
            forall|q: int| 0 <= q < j ==> (#[trigger] matrix@[q])@.len() == violated@[q]@.len(),
            forall|q: int, i: int| 0 <= q < j && 0 <= i < violated@[q]@.len() ==> #[trigger] matrix@[q]@[i] == !violated@[q]@[i],
        decreases n - j,
    {
        let flags = &violated[j];
        let m = flags.len();
        let mut row: Vec<bool> = Vec::new();
        let mut i: usize = 0;
        while i < m
            invariant
                m == flags@.len(),
                i <= m,
                row@.len() == i,
                forall|t: int| 0 <= t < i ==> #[trigger] row@[t] == !flags@[t],
            decreases m - i,
        {
            row.push(!flags[i]);
            i = i + 1;
        }
        matrix.push(row);
        proof {
            assert(matrix@[j as int]@ == row@);
        }
        j = j + 1;
    }
    matrix
}

} // verus!
