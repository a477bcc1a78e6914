use vstd::prelude::*;

verus! {

/// One stored entry of a sparse vector.
pub struct Entry<T: Copy> {
    /// The attribute index this entry belongs to.
    pub index: u32,

    /// The stored value.
    pub value: T,
}

/// Ordered sparse vector.
///
/// Stores only the entries that were explicitly written, with strictly
/// increasing attribute indices, so that kernel evaluations can merge-walk
/// two such vectors without searching.
pub struct SparseVector<T: Copy> {
    pub entries: Vec<Entry<T>>,
}

impl<T: Copy> SparseVector<T> {
    /// The indices of the stored entries, in storage order.
    pub open spec fn indices(&self) -> Seq<u32> {
        self.entries@.map_values(|e: Entry<T>| e.index)
    }

    /// The values of the stored entries, in storage order.
    pub open spec fn values(&self) -> Seq<T> {
        self.entries@.map_values(|e: Entry<T>| e.value)
    }

    /// The number of stored entries.
    pub open spec fn spec_len(&self) -> nat {
        self.entries@.len()
    }

    /// The indices strictly increase from one entry to the next.
    pub open spec fn wf(&self) -> bool {
        forall|a: int, b: int|
            0 <= a < b < self.entries@.len() ==> self.entries@[a].index < self.entries@[b].index
    }

    /// Creates an empty sparse vector.
    pub fn new() -> (r: Self)
        ensures
            r.wf(),
            r.spec_len() == 0,
    {
        SparseVector { entries: Vec::new() }
    }

    /// Drops all entries, keeping the allocation for reuse.
    pub fn clear(&mut self)
        ensures
            final(self).wf(),
            final(self).spec_len() == 0,
    {
        self.entries.clear();
    }

    /// The number of stored entries.
    pub fn len(&self) -> (r: usize)
        ensures
            r == self.spec_len(),
    {
        self.entries.len()
    }

    /// Reads the stored entry at storage position `n`.
    pub fn entry_at(&self, n: usize) -> (r: (u32, T))
        requires
            n < self.spec_len(),
        ensures
            r.0 == self.indices()[n as int],
            r.1 == self.values()[n as int],
    {
        let e = &self.entries[n];
        (e.index, e.value)
    }

    /// Appends an entry behind all stored ones; its index must lie strictly
    /// beyond the last stored index, keeping the order invariant.
    pub fn push_entry(&mut self, index: u32, value: T)
        requires
            old(self).wf(),
            forall|k: int| 0 <= k < old(self).spec_len() ==> old(self).indices()[k] < index,
        ensures
            final(self).wf(),
            final(self).indices() == old(self).indices().push(index),
            final(self).values() == old(self).values().push(value),
    {
        self.entries.push(Entry { index, value });
        proof {
            assert(final(self).indices() =~= old(self).indices().push(index));
            assert(final(self).values() =~= old(self).values().push(value));
            assert forall|a: int, b: int|
                0 <= a < b < self.entries@.len() implies self.entries@[a].index
                < self.entries@[b].index by {
                if b == self.entries@.len() - 1 {
                    assert(old(self).indices()[a] == old(self).entries@[a].index);
                    assert(old(self).indices()[a] < index);
                }
            }
        }
    }

    /// Looks up the value stored for `index`, or `None` when that index was
    /// never written.
    pub fn get(&self, index: u32) -> (r: Option<T>)
        requires
            self.wf(),
        ensures
            match r {
                Some(v) => exists|k: int|
                    0 <= k < self.spec_len() && self.indices()[k] == index && self.values()[k]
                        == v,
                None => forall|k: int|
                    0 <= k < self.spec_len() ==> self.indices()[k] != index,
            },
    {
        let n = self.entries.len();
        let mut i: usize = 0;
        while i < n
            invariant
                self.wf(),
                n == self.spec_len(),
                i <= n,
                forall|k: int| 0 <= k < i ==> self.indices()[k] != index,
            decreases n - i,
        {
            let e = &self.entries[i];
            if e.index == index {
                proof {
                    assert(self.indices()[i as int] == index);
                    assert(self.values()[i as int] == e.value);
                }
                return Some(e.value);
            }
            i += 1;
        }
        None
    }

    /// Starts an entry-by-entry walk over the vector.
    pub fn iter(&self) -> (r: SparseVectorIter<'_, T>)
        ensures
            r.vector == self,
            r.index == 0,
    {
        SparseVectorIter { vector: self, index: 0 }
    }
}

/// Basic iterator struct to go over a sparse vector.
pub struct SparseVectorIter<'a, T: Copy> {
    /// Reference to the vector we iterate over.
    pub vector: &'a SparseVector<T>,

    /// Current position of the iteration.
    pub index: usize,
}

impl<'a, T: Copy> SparseVectorIter<'a, T> {
    /// Hands out the next `(index, value)` pair, or `None` past the last one.
    pub fn next(&mut self) -> (r: Option<(u32, T)>)
        ensures
            final(self).vector == old(self).vector,
            old(self).index >= old(self).vector.spec_len() ==> r is None && final(self).index
                == old(self).index,
            old(self).index < old(self).vector.spec_len() ==> final(self).index == old(self).index
                + 1 && (r matches Some(p) && p.0 == old(self).vector.indices()[old(self).index as int]
                && p.1 == old(self).vector.values()[old(self).index as int]),
    {
        if self.index >= self.vector.entries.len() {
            None
        } else {
            let e = &self.vector.entries[self.index];
            self.index += 1;
            Some((e.index, e.value))
        }
    }
}

/// A set of sparse vectors of one shared dimensionality, one per row.
pub struct SparseMatrix<T: Copy> {
    pub vectors: Vec<SparseVector<T>>,
}

impl<T: Copy> SparseMatrix<T> {
    /// Every row keeps its indices strictly increasing.
    pub open spec fn wf(&self) -> bool {
        forall|r: int| 0 <= r < self.vectors@.len() ==> (#[trigger] self.vectors@[r]).wf()
    }

    /// The number of rows.
    pub open spec fn spec_rows(&self) -> nat {
        self.vectors@.len()
    }

    /// Creates a sparse matrix with the given number of empty rows.
    pub fn with(rows: usize) -> (r: Self)
        ensures
            r.wf(),
            r.spec_rows() == rows,
            forall|k: int| 0 <= k < rows ==> (#[trigger] r.vectors@[k]).spec_len() == 0,
    {
        let mut vectors: Vec<SparseVector<T>> = Vec::new();
        let mut i: usize = 0;
        while i < rows
            invariant
                i <= rows,
                vectors@.len() == i,
                forall|k: int| 0 <= k < i ==> (#[trigger] vectors@[k]).wf(),
                forall|k: int| 0 <= k < i ==> (#[trigger] vectors@[k]).spec_len() == 0,
            decreases rows - i,
        {
            vectors.push(SparseVector::new());
            i += 1;
        }
        SparseMatrix { vectors }
    }

    /// The number of rows.
    pub fn rows(&self) -> (r: usize)
        ensures
            r == self.spec_rows(),
    {
        self.vectors.len()
    }

    /// Borrows row `row`.
    pub fn row(&self, row: usize) -> (r: &SparseVector<T>)
        requires
            row < self.spec_rows(),
        ensures
            r == self.vectors@[row as int],
    {
        &self.vectors[row]
    }

    /// Appends an entry to row `row`; its index must lie strictly beyond the
    /// row's last stored index.
    pub fn push_entry(&mut self, row: usize, index: u32, value: T)
        requires
            old(self).wf(),
            row < old(self).spec_rows(),
            forall|k: int|
                0 <= k < old(self).vectors@[row as int].spec_len() ==> old(
                    self,
                ).vectors@[row as int].indices()[k] < index,
        ensures
            final(self).wf(),
            final(self).spec_rows() == old(self).spec_rows(),
            final(self).vectors@[row as int].indices() == old(
                self,
            ).vectors@[row as int].indices().push(index),
            final(self).vectors@[row as int].values() == old(
                self,
            ).vectors@[row as int].values().push(value),
            forall|k: int|
                0 <= k < old(self).spec_rows() && k != row ==> final(self).vectors@[k] == old(
                    self,
                ).vectors@[k],
    {
        let v = &mut self.vectors[row];
        v.push_entry(index, value);
    }

    /// Starts a row-by-row walk over the matrix.
    pub fn row_iter(&self) -> (r: SparseMatrixIter<'_, T>)
        ensures
            r.matrix == self,
            r.index == 0,
    {
        SparseMatrixIter { matrix: self, index: 0 }
    }
}

/// Basic iterator struct to go over a sparse matrix.
pub struct SparseMatrixIter<'a, T: Copy> {
    /// Reference to the matrix we iterate over.
    pub matrix: &'a SparseMatrix<T>,

    /// Current row of the iteration.
    pub index: usize,
}

impl<'a, T: Copy> SparseMatrixIter<'a, T> {
    /// Hands out a reference to the next row, or `None` past the last one.
    pub fn next(&mut self) -> (r: Option<&'a SparseVector<T>>)
        ensures
            final(self).matrix == old(self).matrix,
            old(self).index >= old(self).matrix.spec_rows() ==> r is None && final(self).index
                == old(self).index,
            old(self).index < old(self).matrix.spec_rows() ==> final(self).index == old(self).index
                + 1 && (r matches Some(v) && v == old(self).matrix.vectors@[old(self).index as int]),
    {
        if self.index >= self.matrix.vectors.len() {
            None
        } else {
            self.index += 1;
            Some(&self.matrix.vectors[self.index - 1])
        }
    }
}

} // verus!
