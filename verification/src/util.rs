use vstd::prelude::*;

verus! {

/// Sets every element of a vector to the given value.
pub fn set_all<T: Copy>(vector: &mut Vec<T>, value: T)
    ensures
        final(vector)@.len() == old(vector)@.len(),
        forall|k: int| 0 <= k < final(vector)@.len() ==> final(vector)@[k] == value,
{
    let n = vector.len();
    let mut i: usize = 0;
    while i < n
        invariant
            n == vector@.len(),
            i <= n,
            forall|k: int| 0 <= k < i ==> vector@[k] == value,
        decreases n - i,
    {
        vector.set(i, value);
        i += 1;
    }
}

/// Builds a vector of `n` copies of the given value.
pub fn filled<T: Copy>(n: usize, value: T) -> (r: Vec<T>)
    ensures
        r@ == Seq::new(n as nat, |k: int| value),
{
    let mut data: Vec<T> = Vec::new();
    let mut i: usize = 0;
    while i < n
        invariant
            i <= n,
            data@.len() == i,
            forall|k: int| 0 <= k < i ==> data@[k] == value,
        decreases n - i,
    {
        data.push(value);
        i += 1;
    }
    proof {
        assert(data@ =~= Seq::new(n as nat, |k: int| value));
    }
    data
}

/// True when `array[r]` is a maximal element and no earlier index holds one as large.
pub open spec fn is_first_max(array: Seq<u32>, r: int) -> bool {
    &&& 0 <= r < array.len()
    &&& forall|k: int| 0 <= k < array.len() ==> array[k] <= array[r]
    &&& forall|k: int| 0 <= k < r ==> array[k] < array[r]
}

/// True when `array[r]` is a maximal element and no earlier index holds one as large.
pub open spec fn is_first_max_u64(array: Seq<u64>, r: int) -> bool {
    &&& 0 <= r < array.len()
    &&& forall|k: int| 0 <= k < array.len() ==> array[k] <= array[r]
    &&& forall|k: int| 0 <= k < r ==> array[k] < array[r]
}

/// Only one index can be the first maximum: the argmax that the vote and the
/// probability step report is unambiguous.
pub proof fn lemma_first_max_unique(array: Seq<u32>, k1: int, k2: int)
    requires
        is_first_max(array, k1),
        is_first_max(array, k2),
    ensures
        k1 == k2,
{
    if k1 < k2 {
        assert(array[k1] < array[k2]);
        assert(array[k2] <= array[k1]);
    } else if k2 < k1 {
        assert(array[k2] < array[k1]);
        assert(array[k1] <= array[k2]);
    }
}

/// Only one index can be the first maximum, for the 64-bit keys as well.
pub proof fn lemma_first_max_u64_unique(array: Seq<u64>, k1: int, k2: int)
    requires
        is_first_max_u64(array, k1),
        is_first_max_u64(array, k2),
    ensures
        k1 == k2,
{
    if k1 < k2 {
        assert(array[k1] < array[k2]);
        assert(array[k2] <= array[k1]);
    } else if k2 < k1 {
        assert(array[k2] < array[k1]);
        assert(array[k1] <= array[k2]);
    }
}

/// Finds the index of the largest element, preferring the lowest index on ties.
pub fn find_max_index(array: &Vec<u32>) -> (r: usize)
    requires
        array@.len() > 0,
    ensures
        is_first_max(array@, r as int),
{
    let mut vote_max_idx: usize = 0;
    let n = array.len();
    let mut i: usize = 1;
    while i < n
        invariant
            n == array@.len(),
            1 <= i <= n,
            vote_max_idx < i,
            forall|k: int| 0 <= k < i ==> array@[k] <= array@[vote_max_idx as int],
            forall|k: int| 0 <= k < vote_max_idx ==> array@[k] < array@[vote_max_idx as int],
        decreases n - i,
    {
        if array[i] > array[vote_max_idx] {
            vote_max_idx = i;
        }
        i += 1;
    }
    vote_max_idx
}

/// Finds the index of the largest element, preferring the lowest index on ties.
///
/// The `u64` variant serves the probability argmax of the classification
/// pipeline, whose keys are order-preserving encodings of the estimates.
pub fn find_max_index_u64(array: &Vec<u64>) -> (r: usize)
    requires
        array@.len() > 0,
    ensures
        is_first_max_u64(array@, r as int),
{
    let mut max_idx: usize = 0;
    let n = array.len();
    let mut i: usize = 1;
    while i < n
        invariant
            n == array@.len(),
            1 <= i <= n,
            max_idx < i,
            forall|k: int| 0 <= k < i ==> array@[k] <= array@[max_idx as int],
            forall|k: int| 0 <= k < max_idx ==> array@[k] < array@[max_idx as int],
        decreases n - i,
    {
        if array[i] > array[max_idx] {
            max_idx = i;
        }
        i += 1;
    }
    max_idx
}

} // verus!
