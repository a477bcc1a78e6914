use vstd::prelude::*;
use crate::util::filled;

verus! {

/// Basic row-major matrix used for bulk read operations.
///
/// All data lives in one flat vector so that rows stay contiguous in memory.
pub struct Matrix<T: Copy> {
    /// Number of vectors (rows) this matrix has.
    pub vectors: usize,

    /// Number of attributes (columns) this matrix has.
    pub attributes: usize,

    /// All data in one flat array.
    pub data: Vec<T>,
}

impl<T: Copy> Matrix<T> {
    /// The flat vector holds exactly `vectors` rows of `attributes` entries.
    pub open spec fn wf(&self) -> bool {
        &&& self.data@.len() == self.vectors * self.attributes
        &&& self.vectors * self.attributes <= usize::MAX
    }

    /// The contents of row `index_vector`.
    pub open spec fn row(&self, index_vector: int) -> Seq<T> {
        self.data@.subrange(
            index_vector * self.attributes,
            index_vector * self.attributes + self.attributes,
        )
    }

    /// Creates a matrix of the given dimensions, every entry set to the
    /// given default.
    pub fn new(vectors: usize, attributes: usize, default: T) -> (r: Self)
        requires
            vectors * attributes <= usize::MAX,
        ensures
            r.wf(),
            r.vectors == vectors,
            r.attributes == attributes,
            r.data@ == Seq::new((vectors * attributes) as nat, |k: int| default),
    {
        let len: usize = vectors * attributes;
        Matrix { vectors, attributes, data: filled(len, default) }
    }

    /// Wraps a flat vector of the given dimensions into a matrix.
    pub fn from_flat_vec(vector: Vec<T>, vectors: usize, attributes: usize) -> (r: Self)
        requires
            vector@.len() == vectors * attributes,
            vectors * attributes <= usize::MAX,
        ensures
            r.wf(),
            r.vectors == vectors,
            r.attributes == attributes,
            r.data@ == vector@,
    {
        Matrix { vectors, attributes, data: vector }
    }

    /// Computes the flat offset of entry `(index_vector, index_attribute)`.
    #[inline]
    pub fn offset(&self, index_vector: usize, index_attribute: usize) -> (r: usize)
        requires
            self.wf(),
            index_vector < self.vectors,
            index_attribute < self.attributes,
        ensures
            r == index_vector * self.attributes + index_attribute,
            r < self.data@.len(),
    {
        proof {
            lemma_row_offset_in_range(
                self.vectors as nat,
                self.attributes as nat,
                index_vector as nat,
                index_attribute as nat,
            );
        }
        index_vector * self.attributes + index_attribute
    }

    /// Copies out row `index_vector`.
    pub fn get_vector(&self, index_vector: usize) -> (r: Vec<T>)
        requires
            self.wf(),
            index_vector < self.vectors,
        ensures
            r@ == self.row(index_vector as int),
    {
        let mut out: Vec<T> = Vec::new();
        let start_index = if self.attributes == 0 {
            0
        } else {
            self.offset(index_vector, 0)
        };
        let mut i: usize = 0;
        proof {
            lemma_row_end_in_range(
                self.vectors as nat,
                self.attributes as nat,
                index_vector as nat,
            );
        }
        while i < self.attributes
            invariant
                self.wf(),
                index_vector < self.vectors,
                start_index == index_vector * self.attributes,
                index_vector * self.attributes + self.attributes <= self.data@.len(),
                i <= self.attributes,
                out@.len() == i,
                forall|k: int| 0 <= k < i ==> out@[k] == self.data@[start_index + k],
            decreases self.attributes - i,
        {
            out.push(self.data[start_index + i]);
            i += 1;
        }
        proof {
            assert(out@ =~= self.row(index_vector as int));
        }
        out
    }

    /// Replaces row `index_vector` with the first `attributes` entries of the
    /// given vector.
    pub fn set_vector(&mut self, index_vector: usize, vector: &Vec<T>)
        requires
            old(self).wf(),
            index_vector < old(self).vectors,
            vector@.len() >= old(self).attributes,
        ensures
            final(self).wf(),
            final(self).vectors == old(self).vectors,
            final(self).attributes == old(self).attributes,
            final(self).data@.len() == old(self).data@.len(),
            final(self).row(index_vector as int) == vector@.subrange(
                0,
                old(self).attributes as int,
            ),
            forall|k: int|
                0 <= k < old(self).data@.len() && !(index_vector * old(self).attributes <= k
                    < index_vector * old(self).attributes + old(self).attributes)
                    ==> final(self).data@[k] == old(self).data@[k],
    {
        let start_index = if self.attributes == 0 {
            0
        } else {
            self.offset(index_vector, 0)
        };
        proof {
            lemma_row_end_in_range(
                self.vectors as nat,
                self.attributes as nat,
                index_vector as nat,
            );
        }
        let attributes = self.attributes;
        let mut i: usize = 0;
        while i < attributes
            invariant
                self.vectors == old(self).vectors,
                self.attributes == old(self).attributes,
                self.wf(),
                vector@.len() >= self.attributes,
                index_vector < self.vectors,
                attributes == self.attributes,
                start_index == index_vector * self.attributes,
                index_vector * self.attributes + self.attributes <= self.data@.len(),
                i <= attributes,
                self.data@.len() == old(self).data@.len(),
                forall|k: int| 0 <= k < i ==> self.data@[start_index + k] == vector@[k],
                forall|k: int|
                    0 <= k < self.data@.len() && !(start_index <= k < start_index + i)
                        ==> self.data@[k] == old(self).data@[k],
            decreases attributes - i,
        {
            self.data.set(start_index + i, vector[i]);
            i += 1;
        }
        proof {
            assert(self.row(index_vector as int) =~= vector@.subrange(
                0,
                self.attributes as int,
            ));
        }
    }

    /// Replaces the entry at `(index_vector, index_attribute)`.
    #[inline]
    pub fn set(&mut self, index_vector: usize, index_attribute: usize, value: T)
        requires
            old(self).wf(),
            index_vector < old(self).vectors,
            index_attribute < old(self).attributes,
        ensures
            final(self).wf(),
            final(self).vectors == old(self).vectors,
            final(self).attributes == old(self).attributes,
            final(self).data@ == old(self).data@.update(
                index_vector * old(self).attributes + index_attribute,
                value,
            ),
    {
        let index = self.offset(index_vector, index_attribute);
        self.data.set(index, value);
    }

    /// Reads the entry at `(index_vector, index_attribute)`.
    #[inline]
    pub fn get(&self, index_vector: usize, index_attribute: usize) -> (r: T)
        requires
            self.wf(),
            index_vector < self.vectors,
            index_attribute < self.attributes,
        ensures
            r == self.data@[index_vector * self.attributes + index_attribute],
    {
        let index = self.offset(index_vector, index_attribute);
        self.data[index]
    }

    /// Starts a row-by-row walk over the matrix.
    pub fn iter(&self) -> (r: IterMatrix<'_, T>)
        ensures
            r.matrix == self,
            r.index == 0,
    {
        IterMatrix { matrix: self, index: 0 }
    }
}

/// Basic iterator struct to go over a matrix row by row.
pub struct IterMatrix<'a, T: Copy> {
    /// Reference to the matrix we iterate over.
    pub matrix: &'a Matrix<T>,

    /// Current row of the iteration.
    pub index: usize,
}

impl<'a, T: Copy> IterMatrix<'a, T> {
    /// Hands out a copy of the next row, or `None` past the last one.
    pub fn next(&mut self) -> (r: Option<Vec<T>>)
        requires
            old(self).matrix.wf(),
        ensures
            final(self).matrix == old(self).matrix,
            old(self).index >= old(self).matrix.vectors ==> r is None && final(self).index == old(
                self,
            ).index,
            old(self).index < old(self).matrix.vectors ==> final(self).index == old(self).index + 1
                && (r matches Some(row) && row@ == old(self).matrix.row(old(self).index as int)),
    {
        if self.index >= self.matrix.vectors {
            None
        } else {
            self.index += 1;
            Some(self.matrix.get_vector(self.index - 1))
        }
    }
}

/// Row offsets stay inside the flat vector.
proof fn lemma_row_offset_in_range(vectors: nat, attributes: nat, iv: nat, ia: nat)
    requires
        iv < vectors,
        ia < attributes,
    ensures
        iv * attributes + ia < vectors * attributes,
{
    assert(iv * attributes + attributes <= vectors * attributes) by (nonlinear_arith)
        requires
            iv < vectors,
    ;
}

/// A whole row stays inside the flat vector.
proof fn lemma_row_end_in_range(vectors: nat, attributes: nat, iv: nat)
    requires
        iv < vectors,
    ensures
        iv * attributes + attributes <= vectors * attributes,
{
    assert(iv * attributes + attributes <= vectors * attributes) by (nonlinear_arith)
        requires
            iv < vectors,
    ;
}

} // verus!
