//! A runtime for classifying feature vectors against pre-trained support
//! vector machines in the libSVM model format.
//!
//! The crate holds the structural core of such a runtime: the containers
//! (matrices, triangular matrices, ordered sparse vectors), the model-file
//! parser and the loader with its structural validation, and the decision
//! logic of the one-vs-one classification pipeline (pairwise voting, argmax
//! label selection, the merge-walk of the sparse kernels). Numeric payloads
//! (support-vector values, coefficients, calibration constants) are carried
//! as the textual tokens of the model file; evaluating kernels over them is
//! floating-point work that a host application performs on top of the
//! decision logic exported here.

mod errors;
mod matrix;
mod numbers;
mod parser;
mod pipeline;
mod simdoptimized;
mod sparse;
mod svm;
mod triangular;
mod util;

pub use crate::errors::Error;
pub use crate::matrix::IterMatrix;
pub use crate::matrix::Matrix;
pub use crate::numbers::parse_i32_token;
pub use crate::numbers::parse_u32_token;
pub use crate::parser::Attribute;
pub use crate::parser::Header;
pub use crate::parser::ModelFile;
pub use crate::parser::SupportVector;
pub use crate::pipeline::count_votes;
pub use crate::pipeline::label_for_max_probability;
pub use crate::pipeline::matched_pairs;
pub use crate::pipeline::max_coupling_iterations;
pub use crate::pipeline::predict_label_from_votes;
pub use crate::simdoptimized::IterManyVectors;
pub use crate::simdoptimized::SimdOptimized;
pub use crate::sparse::Entry;
pub use crate::sparse::SparseMatrix;
pub use crate::sparse::SparseMatrixIter;
pub use crate::sparse::SparseVector;
pub use crate::sparse::SparseVectorIter;
pub use crate::svm::Class;
pub use crate::svm::DenseSVM;
pub use crate::svm::KernelKind;
pub use crate::svm::KernelParams;
pub use crate::svm::Probabilities;
pub use crate::svm::SVMType;
pub use crate::svm::SparseClass;
pub use crate::svm::SparseSVM;
pub use crate::triangular::pair_offset;
pub use crate::triangular::Triangular;
pub use crate::util::find_max_index;
pub use crate::util::find_max_index_u64;
pub use crate::util::set_all;
