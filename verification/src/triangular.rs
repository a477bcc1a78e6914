use vstd::prelude::*;
use crate::util::filled;

verus! {

// Layout of the data in this structure.
// The values are stored from "left to right", from "up" to "down".
//
//    j --->
//       0   1   2   3
//  i 0      x   x   x
//  | 1          x   x
//  v 2              x
//    3

/// The number of stored entries that belong to the first `i` rows of the
/// strict upper triangle of an `n` by `n` matrix: row `r` holds `n - r - 1`
/// entries.
pub open spec fn rows_before(n: nat, i: nat) -> nat
    recommends
        i <= n,
    decreases i,
{
    if i == 0 {
        0
    } else {
        (rows_before(n, (i - 1) as nat) + (n - i)) as nat
    }
}

/// The number of entries of the strict upper triangle of an `n` by `n` matrix.
pub open spec fn triangle_size(n: nat) -> nat {
    rows_before(n, n)
}

/// The flat position of entry `(i, j)` in the stored triangle.
pub open spec fn triangle_offset(n: nat, i: nat, j: nat) -> nat
    recommends
        i < j < n,
{
    (rows_before(n, i) + (j - i - 1)) as nat
}

/// `rows_before` grows with the row index.
pub proof fn lemma_rows_before_monotonic(n: nat, i1: nat, i2: nat)
    requires
        i1 <= i2 <= n,
    ensures
        rows_before(n, i1) <= rows_before(n, i2),
    decreases i2,
{
    if i1 < i2 {
        lemma_rows_before_monotonic(n, i1, (i2 - 1) as nat);
    }
}

/// Every entry `(i, j)` with `i < j < n` is stored below `triangle_size(n)`,
/// and the entries of row `i` stop before those of row `i + 1` begin.
pub proof fn lemma_triangle_offset_in_range(n: nat, i: nat, j: nat)
    requires
        i < j < n,
    ensures
        triangle_offset(n, i, j) < rows_before(n, i + 1),
        triangle_offset(n, i, j) < triangle_size(n),
{
    assert(rows_before(n, i + 1) == rows_before(n, i) + (n - i - 1));
    lemma_rows_before_monotonic(n, i + 1, n);
}

/// Entries that differ in `(i, j)` are stored at different offsets.
pub proof fn lemma_triangle_offset_injective(n: nat, i1: nat, j1: nat, i2: nat, j2: nat)
    requires
        i1 < j1 < n,
        i2 < j2 < n,
        triangle_offset(n, i1, j1) == triangle_offset(n, i2, j2),
    ensures
        i1 == i2 && j1 == j2,
{
    if i1 < i2 {
        lemma_triangle_offset_in_range(n, i1, j1);
        lemma_rows_before_monotonic(n, i1 + 1, i2);
    } else if i2 < i1 {
        lemma_triangle_offset_in_range(n, i2, j2);
        lemma_rows_before_monotonic(n, i2 + 1, i1);
    }
}

/// The closed form that the runtime computes for `rows_before`.
proof fn lemma_rows_before_closed(n: nat, i: nat)
    requires
        i <= n,
    ensures
        rows_before(n, i) == i * n - (i * i + i) / 2,
        (i * i + i) % 2 == 0,
    decreases i,
{
    if i > 0 {
        lemma_rows_before_closed(n, (i - 1) as nat);
        assert(((i - 1) * (i - 1) + (i - 1)) + 2 * i == i * i + i) by (nonlinear_arith);
        assert((i - 1) * n + n == i * n) by (nonlinear_arith);
        assert(((i - 1) * (i - 1) + (i - 1)) / 2 + i == (i * i + i) / 2) by (nonlinear_arith)
            requires
                ((i - 1) * (i - 1) + (i - 1)) % 2 == 0,
                ((i - 1) * (i - 1) + (i - 1)) + 2 * i == i * i + i,
        ;
    }
}

/// The closed form of the triangle size.
pub proof fn lemma_triangle_size_closed(n: nat)
    ensures
        triangle_size(n) == n * (n - 1) / 2,
{
    lemma_rows_before_closed(n, n);
    if n == 0 {
    } else {
        assert(n * n - (n * n + n) / 2 == n * (n - 1) / 2) by (nonlinear_arith)
            requires
                (n * n + n) % 2 == 0,
                n >= 1,
        ;
    }
}

/// Computes the flat triangular offset of pair `(i, j)` among `n` classes,
/// without a stored matrix at hand: the offsets are a property of the
/// dimension alone.
pub fn pair_offset(n: usize, i: usize, j: usize) -> (r: usize)
    requires
        i < j < n,
        n * n <= usize::MAX,
    ensures
        r == triangle_offset(n as nat, i as nat, j as nat),
        r < triangle_size(n as nat),
{
    proof {
        lemma_triangle_offset_in_range(n as nat, i as nat, j as nat);
        lemma_rows_before_closed(n as nat, i as nat);
        lemma_rows_before_closed(n as nat, n as nat);
        assert(triangle_size(n as nat) <= n * n);
        assert(i * i <= i * n && i * n <= n * n) by (nonlinear_arith)
            requires
                i < n,
        ;
        assert(i * i + i <= n * n) by (nonlinear_arith)
            requires
                i < n,
        ;
        assert((i * i + i) / 2 <= i * n) by (nonlinear_arith)
            requires
                i * i <= i * n,
                i <= n,
                i < n,
        ;
    }
    if i == 0 {
        return j - 1;
    }
    let last_index = (i * n) - (i * i + i) / 2;
    proof {
        assert(last_index == rows_before(n as nat, i as nat));
        assert(last_index + (j - i - 1) == triangle_offset(n as nat, i as nat, j as nat));
    }
    last_index + (j - i - 1)
}

/// Square triangular matrix.
///
/// Stores the strict upper triangle of a `dimension` by `dimension` square
/// matrix in one flat vector; the diagonal is not stored. The runtime keeps
/// the per-pair bias terms and the pairwise decision values of a classifier
/// in this shape.
#[derive(Clone)]
pub struct Triangular<T: Copy> {
    /// Width and height of the matrix.
    pub dimension: usize,

    /// Actual data, see the comment above for how indices are stored.
    pub data: Vec<T>,
}

impl<T: Copy> Triangular<T> {
    /// The matrix is consistent: the flat vector holds exactly the triangle,
    /// and the dimension is small enough for offset arithmetic.
    pub open spec fn wf(&self) -> bool {
        &&& self.data@.len() == triangle_size(self.dimension as nat)
        &&& self.dimension * self.dimension <= usize::MAX
    }

    /// Creates a triangular matrix with the given dimension, every entry set
    /// to the given default.
    pub fn with_dimension(dimension: usize, default: T) -> (r: Self)
        requires
            dimension * dimension <= usize::MAX,
        ensures
            r.wf(),
            r.dimension == dimension,
            r.data@ == Seq::new(triangle_size(dimension as nat), |k: int| default),
    {
        let len: usize = if dimension == 0 {
            0
        } else {
            proof {
                lemma_rows_before_closed(dimension as nat, dimension as nat);
                assert(dimension * (dimension - 1) == dimension * dimension - dimension)
                    by (nonlinear_arith);
            }
            dimension * (dimension - 1) / 2
        };
        proof {
            if dimension == 0 {
                assert(triangle_size(0) == 0);
            } else {
                lemma_rows_before_closed(dimension as nat, dimension as nat);
                assert((dimension * dimension + dimension) / 2 - dimension == dimension * (
                dimension - 1) / 2) by (nonlinear_arith)
                    requires
                        (dimension * dimension + dimension) % 2 == 0,
                        dimension >= 1,
                ;
            }
        }
        let data: Vec<T> = filled(len, default);
        Triangular { dimension, data }
    }

    /// Computes the flat offset for a given `(i, j)` position.
    #[inline]
    pub fn offset(&self, i: usize, j: usize) -> (r: usize)
        requires
            i < j,
            j < self.dimension,
            self.wf(),
        ensures
            r == triangle_offset(self.dimension as nat, i as nat, j as nat),
            r < self.data@.len(),
    {
        proof {
            lemma_triangle_offset_in_range(self.dimension as nat, i as nat, j as nat);
            lemma_rows_before_closed(self.dimension as nat, i as nat);
            lemma_rows_before_closed(self.dimension as nat, self.dimension as nat);
            assert(triangle_size(self.dimension as nat) <= self.dimension * self.dimension);
            assert(i * i <= i * self.dimension && i * self.dimension <= self.dimension
                * self.dimension) by (nonlinear_arith)
                requires
                    i < self.dimension,
            ;
            assert(i * i + i <= self.dimension * self.dimension) by (nonlinear_arith)
                requires
                    i < self.dimension,
            ;
            assert((i * i + i) / 2 <= i * self.dimension) by (nonlinear_arith)
                requires
                    i * i <= i * self.dimension,
                    i <= self.dimension,
                    i < self.dimension,
            ;
        }
        // The vast majority of lookups hit the first row. Fast pass.
        if i == 0 {
            return j - 1;
        }
        // (i*i + i) / 2 instead of i/2 * (i+1), which would round too early.
        let last_index = (i * self.dimension) - (i * i + i) / 2;
        proof {
            assert(last_index == rows_before(self.dimension as nat, i as nat));
            assert(last_index + (j - i - 1) == triangle_offset(
                self.dimension as nat,
                i as nat,
                j as nat,
            ));
        }
        last_index + (j - i - 1)
    }

    /// Reads the entry at `(i, j)`.
    pub fn get(&self, i: usize, j: usize) -> (r: T)
        requires
            i < j,
            j < self.dimension,
            self.wf(),
        ensures
            r == self.data@[triangle_offset(self.dimension as nat, i as nat, j as nat) as int],
    {
        let off = self.offset(i, j);
        self.data[off]
    }

    /// Replaces the entry at `(i, j)`.
    pub fn set(&mut self, i: usize, j: usize, value: T)
        requires
            i < j,
            j < old(self).dimension,
            old(self).wf(),
        ensures
            final(self).wf(),
            final(self).dimension == old(self).dimension,
            final(self).data@ == old(self).data@.update(
                triangle_offset(old(self).dimension as nat, i as nat, j as nat) as int,
                value,
            ),
    {
        let off = self.offset(i, j);
        self.data.set(off, value);
    }
}

} // verus!
