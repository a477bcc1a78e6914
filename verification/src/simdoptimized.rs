use vstd::prelude::*;
use crate::util::filled;

verus! {

/// Number of scalar lanes per SIMD register that row layouts are padded to.
pub const LANES: usize = 8;

/// The length of a row of `n` attributes once padded up to a whole number of
/// SIMD registers.
pub open spec fn padded_length(n: nat) -> nat {
    ((n + 7) / 8) * 8
}

/// The padded length covers the attributes, stays within one register of
/// them, and is a whole number of registers.
pub proof fn lemma_padded_length(n: nat)
    ensures
        n <= padded_length(n),
        padded_length(n) < n + 8,
        padded_length(n) % 8 == 0,
{
    assert(n <= ((n + 7) / 8) * 8 && ((n + 7) / 8) * 8 < n + 8 && (((n + 7) / 8) * 8) % 8 == 0)
        by (nonlinear_arith);
}

/// Row-major matrix whose rows are padded to a whole number of SIMD
/// registers, so that kernel loops can run register by register without a
/// scalar tail.
///
/// The padding entries keep the default the matrix was created with; writers
/// leave them untouched, so reductions over whole rows see zeroes there when
/// the default is the numeric zero.
pub struct SimdOptimized<T: Copy> {
    /// Number of vectors (rows) this matrix has.
    pub vectors: usize,

    /// Number of attributes this matrix has per vector.
    pub attributes: usize,

    /// Actual stored length of each vector, `attributes` padded up to a
    /// whole number of SIMD registers.
    pub vector_length: usize,

    /// All data in one flat array.
    pub data: Vec<T>,
}

impl<T: Copy> SimdOptimized<T> {
    /// The flat vector holds exactly `vectors` padded rows.
    pub open spec fn wf(&self) -> bool {
        &&& self.vector_length == padded_length(self.attributes as nat)
        &&& self.data@.len() == self.vectors * self.vector_length
        &&& self.vectors * self.vector_length <= usize::MAX
    }

    /// The stored (padded) contents of row `index_vector`.
    pub open spec fn row(&self, index_vector: int) -> Seq<T> {
        self.data@.subrange(
            index_vector * self.vector_length,
            index_vector * self.vector_length + self.vector_length,
        )
    }

    /// Creates a matrix of the given dimensions, every entry (padding
    /// included) set to the given default.
    pub fn with_dimension(vectors: usize, attributes: usize, default: T) -> (r: Self)
        requires
            attributes + 8 <= usize::MAX,
            vectors * padded_length(attributes as nat) <= usize::MAX,
        ensures
            r.wf(),
            r.vectors == vectors,
            r.attributes == attributes,
            r.data@ == Seq::new(
                (vectors * padded_length(attributes as nat)) as nat,
                |k: int| default,
            ),
    {
        proof {
            lemma_padded_length(attributes as nat);
        }
        let vector_length: usize = ((attributes + LANES - 1) / LANES) * LANES;
        assert(vector_length == padded_length(attributes as nat)) by (nonlinear_arith)
            requires
                vector_length == ((attributes + 7) / 8) * 8,
        ;
        let len: usize = vectors * vector_length;
        SimdOptimized { vectors, attributes, vector_length, data: filled(len, default) }
    }

    /// Computes the flat offset of entry `(vector, attribute)`.
    #[inline]
    pub fn offset(&self, vector: usize, attribute: usize) -> (r: usize)
        requires
            self.wf(),
            vector < self.vectors,
            attribute < self.vector_length,
        ensures
            r == vector * self.vector_length + attribute,
            r < self.data@.len(),
    {
        proof {
            lemma_padded_row_in_range(
                self.vectors as nat,
                self.vector_length as nat,
                vector as nat,
            );
        }
        vector * self.vector_length + attribute
    }

    /// Reads the entry at `(vector, attribute)`.
    #[inline]
    pub fn get(&self, vector: usize, attribute: usize) -> (r: T)
        requires
            self.wf(),
            vector < self.vectors,
            attribute < self.vector_length,
        ensures
            r == self.data@[vector * self.vector_length + attribute],
    {
        let index = self.offset(vector, attribute);
        self.data[index]
    }

    /// Replaces the attributes of row `index_vector` with the first
    /// `attributes` entries of the given vector; the padding stays as it was.
    pub fn set_vector(&mut self, index_vector: usize, vector: &Vec<T>)
        requires
            old(self).wf(),
            index_vector < old(self).vectors,
            vector@.len() >= old(self).attributes,
        ensures
            final(self).wf(),
            final(self).vectors == old(self).vectors,
            final(self).attributes == old(self).attributes,
            final(self).vector_length == old(self).vector_length,
            final(self).data@.len() == old(self).data@.len(),
            forall|k: int|
                0 <= k < old(self).attributes ==> final(self).data@[index_vector * old(
                    self,
                ).vector_length + k] == vector@[k],
            forall|k: int|
                0 <= k < old(self).data@.len() && !(index_vector * old(self).vector_length <= k
                    < index_vector * old(self).vector_length + old(self).attributes)
                    ==> final(self).data@[k] == old(self).data@[k],
    {
        proof {
            lemma_padded_row_in_range(
                self.vectors as nat,
                self.vector_length as nat,
                index_vector as nat,
            );
            lemma_padded_length(self.attributes as nat);
        }
        if self.attributes == 0 {
            return ;
        }
        let start_index = self.offset(index_vector, 0);
        let attributes = self.attributes;
        let mut i: usize = 0;
        while i < attributes
            invariant
                self.vectors == old(self).vectors,
                self.attributes == old(self).attributes,
                self.vector_length == old(self).vector_length,
                self.wf(),
                vector@.len() >= self.attributes,
                index_vector < self.vectors,
                attributes == self.attributes,
                self.attributes <= self.vector_length,
                start_index == index_vector * self.vector_length,
                index_vector * self.vector_length + self.vector_length <= self.data@.len(),
                i <= attributes,
                self.data@.len() == old(self).data@.len(),
                forall|k: int| 0 <= k < i ==> self.data@[start_index + k] == vector@[k],
                forall|k: int|
                    0 <= k < self.data@.len() && !(start_index <= k < start_index + i)
                        ==> self.data@[k] == old(self).data@[k],
            decreases attributes - i,
        {
            self.data.set(start_index + i, vector[i]);
            i += 1;
        }
    }

    /// Starts a row-by-row walk over the matrix.
    pub fn iter(&self) -> (r: IterManyVectors<'_, T>)
        ensures
            r.matrix == self,
            r.index == 0,
    {
        IterManyVectors { matrix: self, index: 0 }
    }
}

/// Basic iterator struct to go over a padded matrix row by row.
pub struct IterManyVectors<'a, T: Copy> {
    /// Reference to the matrix we iterate over.
    pub matrix: &'a SimdOptimized<T>,

    /// Current row of the iteration.
    pub index: usize,
}

impl<'a, T: Copy> IterManyVectors<'a, T> {
    /// Hands out a copy of the next padded row, or `None` past the last one.
    pub fn next(&mut self) -> (r: Option<Vec<T>>)
        requires
            old(self).matrix.wf(),
        ensures
            final(self).matrix == old(self).matrix,
            old(self).index >= old(self).matrix.vectors ==> r is None && final(self).index == old(
                self,
            ).index,
            old(self).index < old(self).matrix.vectors ==> final(self).index == old(self).index + 1
                && (r matches Some(row) && row@ == old(self).matrix.row(old(self).index as int)),
    {
        if self.index >= self.matrix.vectors {
            None
        } else {
            proof {
                lemma_padded_row_in_range(
                    self.matrix.vectors as nat,
                    self.matrix.vector_length as nat,
                    self.index as nat,
                );
            }
            let start_index = self.index * self.matrix.vector_length;
            let mut out: Vec<T> = Vec::new();
            let mut i: usize = 0;
            while i < self.matrix.vector_length
                invariant
                    self.matrix.wf(),
                    self.index < self.matrix.vectors,
                    start_index == self.index * self.matrix.vector_length,
                    self.index * self.matrix.vector_length + self.matrix.vector_length
                        <= self.matrix.data@.len(),
                    i <= self.matrix.vector_length,
                    out@.len() == i,
                    forall|k: int|
                        0 <= k < i ==> out@[k] == self.matrix.data@[start_index + k],
                decreases self.matrix.vector_length - i,
            {
                out.push(self.matrix.data[start_index + i]);
                i += 1;
            }
            proof {
                assert(out@ =~= self.matrix.row(self.index as int));
            }
            self.index += 1;
            Some(out)
        }
    }
}

/// A whole padded row stays inside the flat vector.
proof fn lemma_padded_row_in_range(vectors: nat, vector_length: nat, iv: nat)
    requires
        iv < vectors,
    ensures
        iv * vector_length + vector_length <= vectors * vector_length,
{
    assert(iv * vector_length + vector_length <= vectors * vector_length) by (nonlinear_arith)
        requires
            iv < vectors,
    ;
}

} // verus!
