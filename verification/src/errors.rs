use vstd::prelude::*;

verus! {

/// Everything that can go wrong when loading a model or asking it to
/// classify.
#[derive(Debug, Clone)]
pub enum Error {
    /// The model file lacked one of the required header entries (`svm_type`,
    /// `kernel_type`, `nr_class`, `total_sv`), or its structure did not hang
    /// together (counts that disagree, a truncated support-vector row, an
    /// unsupported type token).
    MissingRequiredAttribute,

    /// A support vector of a dense model did not number its attributes
    /// `0, 1, 2, …`: the attribute `index` with the raw `value` token
    /// followed `last_index`. A sparse model reports the first attribute
    /// whose index failed to increase the same way.
    AttributesUnordered {
        /// The attribute index that broke the order.
        index: u32,
        /// The raw value token of that attribute.
        value: Vec<u8>,
        /// The attribute index seen before it.
        last_index: u32,
    },

    /// The chosen kernel needs a `gamma` value and the header has none.
    NoGamma,

    /// The chosen kernel needs a `coef0` value and the header has none.
    NoCoef0,

    /// The chosen kernel needs a `degree` value and the header has none.
    NoDegree,

    /// Probabilities were requested from a model trained without them.
    NoProbabilities,

    /// The multiclass probability coupling ran out of iterations before it
    /// converged.
    IterationsExceeded,
}

} // verus!
