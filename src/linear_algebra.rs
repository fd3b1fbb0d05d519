//! Matrix layouts of the linear algebra: the companion matrix of a monic
//! polynomial and the error of the Toeplitz solver.

use vstd::prelude::*;

verus! {

/// Why a Toeplitz system could not be solved.
#[derive(Debug, Copy, Clone, PartialEq, Eq, Hash, Structural)]
pub enum ToeplitzError {
    /// A leading principal minor of the matrix is zero.
    SingularPrincipalMinor,
}

/// Given the coefficients of a monic polynomial `x^n + c[n-1] x^(n-1) + ... +
/// c[0]` (lowest degree first, the leading 1 left out), returns its `n x n`
/// companion matrix as rows: ones on the super-diagonal, `negate(c[j])` in
/// column `j` of the last row, `zero` elsewhere. Its eigenvalues are the roots
/// of the polynomial.
pub fn get_companion_matrix<T: Copy, F: Fn(T) -> T>(
    coefs: &Vec<T>,
    zero: T,
    one: T,
    negate: F,
) -> (r: Vec<Vec<T>>)
    requires
        coefs.len() >= 1,
        forall|c: T| #[trigger] negate.requires((c,)),
    ensures
        r.len() == coefs.len(),
        forall|i: int| 0 <= i < r.len() ==> (#[trigger] r@[i]).len() == coefs.len(),
        forall|j: int|
            0 <= j < coefs.len() ==> negate.ensures(
                (coefs@[j],),
                #[trigger] r@[coefs.len() - 1]@[j],
            ),
        forall|i: int, j: int|
            0 <= i < coefs.len() - 1 && 0 <= j < coefs.len() ==> #[trigger] r@[i]@[j] == if j
                == i + 1 {
                one
            } else {
                zero
            },
{
    let n = coefs.len();
    let mut matrix: Vec<Vec<T>> = Vec::with_capacity(n);
    let mut i: usize = 0;
    while i < n - 1
        invariant
            n == coefs.len() >= 1,
            i <= n - 1,
            matrix.len() == i,
            forall|a: int| 0 <= a < i ==> (#[trigger] matrix@[a]).len() == n,
            forall|a: int, b: int|
                0 <= a < i && 0 <= b < n ==> #[trigger] matrix@[a]@[b] == if b == a + 1 {
                    one
                } else {
                    zero
                },
        decreases n - 1 - i,
    {
        let mut row: Vec<T> = Vec::with_capacity(n);
        let mut j: usize = 0;
        while j < n
            invariant
                n == coefs.len() >= 1,
                i < n - 1,
                j <= n,
                row.len() == j,
                forall|b: int|
                    0 <= b < j ==> #[trigger] row@[b] == if b == i + 1 {
                        one
                    } else {
                        zero
                    },
            decreases n - j,
        {
            if j == i + 1 {
                row.push(one);
            } else {
                row.push(zero);
            }
            j += 1;
        }
        matrix.push(row);
        i += 1;
    }
    let mut last: Vec<T> = Vec::with_capacity(n);
    let mut j: usize = 0;
    while j < n
        invariant
            n == coefs.len(),
            j <= n,
            last.len() == j,
            forall|c: T| #[trigger] negate.requires((c,)),
            forall|b: int| 0 <= b < j ==> negate.ensures((coefs@[b],), #[trigger] last@[b]),
        decreases n - j,
    {
        last.push(negate(coefs[j]));
        j += 1;
    }
    matrix.push(last);
    matrix
}

} // verus!
