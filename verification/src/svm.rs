use vstd::prelude::*;
use vstd::string::StringSliceAdditionalSpecFns;
use crate::numbers::bytes_eq;
use crate::numbers::copy_token;
use crate::errors::Error;
use crate::parser::Header;
use crate::parser::ModelFile;
use crate::parser::SupportVector;
use crate::triangular::triangle_size;

verus! {

/// Classifier type.
#[derive(Copy, Clone, PartialEq, Eq, Structural, Debug)]
pub enum SVMType {
    /// C-parameterized classification.
    CSvc,
    /// Nu-parameterized classification.
    NuSvc,
    /// Epsilon regression.
    ESvr,
    /// Nu regression.
    NuSvr,
}

/// The kernel a model computes similarities with, carrying its raw numeric
/// parameter tokens.
pub enum KernelParams {
    /// Plain dot product.
    Linear,
    /// `(gamma * <u, v> + coef0) ^ degree`.
    Poly {
        /// The raw `gamma` token.
        gamma: Vec<u8>,
        /// The raw `coef0` token.
        coef0: Vec<u8>,
        /// The polynomial degree.
        degree: u32,
    },
    /// `exp(-gamma * |u - v|^2)`.
    Rbf {
        /// The raw `gamma` token.
        gamma: Vec<u8>,
    },
    /// `tanh(gamma * <u, v> + coef0)`.
    Sigmoid {
        /// The raw `gamma` token.
        gamma: Vec<u8>,
        /// The raw `coef0` token.
        coef0: Vec<u8>,
    },
}

/// The SVM type a `svm_type` token denotes, if any.
pub open spec fn spec_svm_type(tok: Seq<u8>) -> Option<SVMType> {
    if tok == "c_svc".spec_bytes() {
        Some(SVMType::CSvc)
    } else if tok == "nu_svc".spec_bytes() {
        Some(SVMType::NuSvc)
    } else if tok == "epsilon_svr".spec_bytes() {
        Some(SVMType::ESvr)
    } else if tok == "nu_svr".spec_bytes() {
        Some(SVMType::NuSvr)
    } else {
        None
    }
}

/// The four kernel shapes.
#[derive(Copy, Clone, PartialEq, Eq, Structural, Debug)]
pub enum KernelKind {
    /// Plain dot product.
    Linear,
    /// Polynomial kernel.
    Poly,
    /// Radial basis function kernel.
    Rbf,
    /// Sigmoid kernel.
    Sigmoid,
}

/// The kernel shape a `kernel_type` token denotes, if any.
pub open spec fn spec_kernel_kind(tok: Seq<u8>) -> Option<KernelKind> {
    if tok == "rbf".spec_bytes() {
        Some(KernelKind::Rbf)
    } else if tok == "linear".spec_bytes() {
        Some(KernelKind::Linear)
    } else if tok == "polynomial".spec_bytes() {
        Some(KernelKind::Poly)
    } else if tok == "sigmoid".spec_bytes() {
        Some(KernelKind::Sigmoid)
    } else {
        None
    }
}

/// What building the kernel from a header yields: its shape, or the error
/// naming the first missing parameter. An unknown kernel token counts as a
/// missing required attribute.
pub open spec fn spec_kernel_result(h: Header) -> Result<KernelKind, Error> {
    match spec_kernel_kind(h.kernel_type@) {
        None => Err(Error::MissingRequiredAttribute),
        Some(KernelKind::Linear) => Ok(KernelKind::Linear),
        Some(KernelKind::Rbf) => if h.gamma is Some {
            Ok(KernelKind::Rbf)
        } else {
            Err(Error::NoGamma)
        },
        Some(KernelKind::Poly) => if h.gamma is None {
            Err(Error::NoGamma)
        } else if h.coef0 is None {
            Err(Error::NoCoef0)
        } else if h.degree is None {
            Err(Error::NoDegree)
        } else {
            Ok(KernelKind::Poly)
        },
        Some(KernelKind::Sigmoid) => if h.gamma is None {
            Err(Error::NoGamma)
        } else if h.coef0 is None {
            Err(Error::NoCoef0)
        } else {
            Ok(KernelKind::Sigmoid)
        },
    }
}

/// The shape of a kernel parameter set.
pub open spec fn kernel_kind_of(k: KernelParams) -> KernelKind {
    match k {
        KernelParams::Linear => KernelKind::Linear,
        KernelParams::Poly { .. } => KernelKind::Poly,
        KernelParams::Rbf { .. } => KernelKind::Rbf,
        KernelParams::Sigmoid { .. } => KernelKind::Sigmoid,
    }
}

/// The kernel's parameter tokens agree with the header's.
pub open spec fn kernel_params_match(k: KernelParams, h: Header) -> bool {
    match k {
        KernelParams::Linear => true,
        KernelParams::Poly { gamma, coef0, degree } => {
            &&& h.gamma matches Some(g) && gamma@ == g@
            &&& h.coef0 matches Some(c) && coef0@ == c@
            &&& h.degree == Some(degree)
        },
        KernelParams::Rbf { gamma } => h.gamma matches Some(g) && gamma@ == g@,
        KernelParams::Sigmoid { gamma, coef0 } => {
            &&& h.gamma matches Some(g) && gamma@ == g@
            &&& h.coef0 matches Some(c) && coef0@ == c@
        },
    }
}

/// The sum of a sequence of 32-bit counts.
pub open spec fn sum_u32(s: Seq<u32>) -> int
    decreases s.len(),
{
    if s.len() == 0 {
        0
    } else {
        sum_u32(s.drop_last()) + s.last()
    }
}

/// True when the model is for classification (one class per label) rather
/// than regression (one synthetic class holding every support vector).
pub open spec fn spec_is_classifier(t: SVMType) -> bool {
    t == SVMType::CSvc || t == SVMType::NuSvc
}

/// The number of runtime classes a model materializes.
pub open spec fn spec_num_classes(t: SVMType, h: Header) -> int {
    if spec_is_classifier(t) {
        h.nr_class as int
    } else {
        1
    }
}

/// The number of coefficient rows every support vector carries: one against
/// each other class for a classifier, and a single row for a regressor's
/// synthetic class.
pub open spec fn spec_coef_rows(t: SVMType, h: Header) -> int {
    if spec_is_classifier(t) {
        spec_num_classes(t, h) - 1
    } else {
        1
    }
}

/// The structural checks shared by the dense and the sparse loader: the
/// header's counts must hang together and the rows must carry exactly the
/// expected number of coefficients.
pub open spec fn spec_counts_ok(m: ModelFile, t: SVMType) -> bool {
    let h = m.header;
    let ncl = spec_num_classes(t, h);
    &&& m.vectors@.len() > 0
    &&& m.vectors@.len() == h.total_sv
    &&& (spec_is_classifier(t) ==> {
        &&& h.nr_class >= 2
        &&& h.label@.len() == ncl
        &&& h.nr_sv@.len() == ncl
        &&& sum_u32(h.nr_sv@) == h.total_sv
        &&& h.rho@.len() == triangle_size(ncl as nat)
        &&& (h.prob_a is Some && h.prob_b is Some ==> h.prob_a.unwrap()@.len() == triangle_size(
            ncl as nat,
        ) && h.prob_b.unwrap()@.len() == triangle_size(ncl as nat))
    })
    &&& (!spec_is_classifier(t) ==> h.rho@.len() >= 1)
    &&& (forall|v: int|
        0 <= v < m.vectors@.len() ==> (#[trigger] m.vectors@[v].coefs)@.len() == spec_coef_rows(
            t,
            h,
        ))
}

/// A dense support-vector row numbers its attributes `0, 1, 2, …` and has
/// one for each of the model's attributes.
pub open spec fn dense_row_ok(sv: SupportVector, num_attributes: int) -> bool {
    &&& sv.features@.len() == num_attributes
    &&& (forall|k: int| 0 <= k < sv.features@.len() ==> (#[trigger] sv.features@[k]).index == k)
}

/// A sparse support-vector row keeps its attribute indices strictly
/// increasing.
pub open spec fn sparse_row_ok(sv: SupportVector) -> bool {
    forall|a: int, b: int|
        0 <= a < b < sv.features@.len() ==> sv.features@[a].index < sv.features@[b].index
}

/// All checks of the dense loader pass.
pub open spec fn spec_dense_ok(m: ModelFile) -> bool {
    &&& spec_svm_type(m.header.svm_type@) is Some
    &&& spec_kernel_result(m.header) is Ok
    &&& spec_counts_ok(m, spec_svm_type(m.header.svm_type@).unwrap())
    &&& (forall|v: int|
        0 <= v < m.vectors@.len() ==> dense_row_ok(
            #[trigger] m.vectors@[v],
            m.vectors@[0].features@.len() as int,
        ))
}

/// All checks of the sparse loader pass.
pub open spec fn spec_sparse_ok(m: ModelFile) -> bool {
    &&& spec_svm_type(m.header.svm_type@) is Some
    &&& spec_kernel_result(m.header) is Ok
    &&& spec_counts_ok(m, spec_svm_type(m.header.svm_type@).unwrap())
    &&& (forall|v: int| 0 <= v < m.vectors@.len() ==> sparse_row_ok(#[trigger] m.vectors@[v]))
}

/// Every dense row carries one value per attribute of the model.
pub open spec fn spec_dense_lengths_ok(m: ModelFile) -> bool {
    forall|v: int|
        0 <= v < m.vectors@.len() ==> (#[trigger] m.vectors@[v]).features@.len()
            == m.vectors@[0].features@.len()
}

/// The index of the first support vector of class `c`: the support vectors
/// of a model file are grouped by class.
pub open spec fn class_start(nr_sv: Seq<u32>, c: int) -> int {
    sum_u32(nr_sv.take(c))
}

proof fn lemma_sum_u32_take_step(s: Seq<u32>, c: int)
    requires
        0 <= c < s.len(),
    ensures
        sum_u32(s.take(c + 1)) == sum_u32(s.take(c)) + s[c],
{
    assert(s.take(c + 1).drop_last() =~= s.take(c));
}

proof fn lemma_sum_u32_take_bound(s: Seq<u32>, c: int)
    requires
        0 <= c <= s.len(),
    ensures
        0 <= sum_u32(s.take(c)) <= sum_u32(s),
    decreases s.len() - c,
{
    lemma_sum_u32_nonneg(s.take(c));
    if c == s.len() {
        assert(s.take(c) =~= s);
        lemma_sum_u32_nonneg(s);
    } else {
        lemma_sum_u32_take_step(s, c);
        lemma_sum_u32_take_bound(s, c + 1);
    }
}

proof fn lemma_sum_u32_nonneg(s: Seq<u32>)
    ensures
        sum_u32(s) >= 0,
    decreases s.len(),
{
    if s.len() > 0 {
        lemma_sum_u32_nonneg(s.drop_last());
    }
}

/// The loaded calibration data agrees with the header: for a classifier
/// both arrays are carried, token for token, exactly when both are present;
/// for a regressor the `probA` array is carried alone, with `b` left empty.
pub open spec fn probabilities_match(o: Option<Probabilities>, h: Header, t: SVMType) -> bool {
    match o {
        Some(p) => {
            &&& (h.prob_a matches Some(a) && p.a@.len() == a@.len() && (forall|k: int|
                0 <= k < a@.len() ==> (#[trigger] p.a@[k])@ == a@[k]@))
            &&& (spec_is_classifier(t) ==> (h.prob_b matches Some(b) && p.b@.len() == b@.len() && (
            forall|k: int| 0 <= k < b@.len() ==> (#[trigger] p.b@[k])@ == b@[k]@)))
            &&& (!spec_is_classifier(t) ==> p.b@.len() == 0)
        },
        None => h.prob_a is None || (spec_is_classifier(t) && h.prob_b is None),
    }
}

/// The probability calibration arrays of a model, as raw tokens.
pub struct Probabilities {
    /// The `probA` tokens, one per class pair (one in all for a regressor).
    pub a: Vec<Vec<u8>>,

    /// The `probB` tokens, one per class pair (empty for a regressor).
    pub b: Vec<Vec<u8>>,
}

/// One class of a dense model: its label, its support-vector rows (value
/// tokens, one per attribute, in attribute order), and its coefficient rows
/// (one row against each other class, one token per support vector).
pub struct Class {
    /// The label of this class.
    pub label: i32,

    /// Coefficients between this class and the other classes, row-major:
    /// `coefficients[r][v]` is support vector `v`'s coefficient in row `r`.
    pub coefficients: Vec<Vec<Vec<u8>>>,

    /// The support vectors of this class, one row of value tokens each.
    pub support_vectors: Vec<Vec<Vec<u8>>>,
}

/// One class of a sparse model; each support vector keeps only its stored
/// `(index, value token)` pairs, with strictly increasing indices.
pub struct SparseClass {
    /// The label of this class.
    pub label: i32,

    /// Coefficients between this class and the other classes, row-major.
    pub coefficients: Vec<Vec<Vec<u8>>>,

    /// The support vectors of this class.
    pub support_vectors: Vec<Vec<(u32, Vec<u8>)>>,
}

/// Copies the values of a slice of `i32`s.
fn copy_i32s(v: &Vec<i32>) -> (r: Vec<i32>)
    ensures
        r@ == v@,
{
    let mut out: Vec<i32> = Vec::new();
    let n = v.len();
    let mut i: usize = 0;
    while i < n
        invariant
            n == v@.len(),
            i <= n,
            out@ == v@.take(i as int),
        decreases n - i,
    {
        out.push(v[i]);
        proof {
            assert(out@ =~= v@.take(i + 1));
        }
        i += 1;
    }
    proof {
        assert(v@.take(n as int) =~= v@);
    }
    out
}

/// Copies the tokens of a slice of strings.
fn copy_tokens(v: &Vec<Vec<u8>>) -> (r: Vec<Vec<u8>>)
    ensures
        r@.len() == v@.len(),
        forall|k: int| 0 <= k < v@.len() ==> r@[k]@ == v@[k]@,
{
    let mut out: Vec<Vec<u8>> = Vec::new();
    let n = v.len();
    let mut i: usize = 0;
    while i < n
        invariant
            n == v@.len(),
            i <= n,
            out@.len() == i,
            forall|k: int| 0 <= k < i ==> out@[k]@ == v@[k]@,
        decreases n - i,
    {
        out.push(copy_token(&v[i]));
        i += 1;
    }
    out
}

/// Computes `n * (n - 1) / 2` exactly.
fn triangle_size_exec(n: u64) -> (r: u64)
    requires
        n <= u32::MAX,
    ensures
        r == triangle_size(n as nat),
{
    proof {
        crate::triangular::lemma_triangle_size_closed(n as nat);
    }
    if n == 0 {
        0
    } else {
        proof {
            assert(n * (n - 1) <= u32::MAX * u32::MAX) by (nonlinear_arith)
                requires
                    n <= u32::MAX,
            ;
        }
        n * (n - 1) / 2
    }
}

/// Sums the per-class support-vector counts.
fn sum_counts(v: &Vec<u32>) -> (r: u64)
    requires
        v@.len() <= u32::MAX,
    ensures
        r == sum_u32(v@),
{
    let mut sum: u64 = 0;
    let n = v.len();
    let mut i: usize = 0;
    while i < n
        invariant
            n == v@.len(),
            n <= u32::MAX,
            i <= n,
            sum == sum_u32(v@.take(i as int)),
            sum <= i * (u32::MAX as int),
        decreases n - i,
    {
        proof {
            lemma_sum_u32_take_step(v@, i as int);
            assert(i * (u32::MAX as int) + u32::MAX == (i + 1) * (u32::MAX as int))
                by (nonlinear_arith);
            assert((i + 1) * (u32::MAX as int) <= (u32::MAX as int) * (u32::MAX as int))
                by (nonlinear_arith)
                requires
                    i + 1 <= u32::MAX,
            ;
        }
        sum = sum + (v[i] as u64);
        i += 1;
    }
    proof {
        assert(v@.take(n as int) =~= v@);
    }
    sum
}

/// Reads the `svm_type` token.
fn read_svm_type(h: &Header) -> (r: Option<SVMType>)
    ensures
        r == spec_svm_type(h.svm_type@),
{
    let tok = h.svm_type.as_slice();
    if bytes_eq(tok, "c_svc".as_bytes()) {
        Some(SVMType::CSvc)
    } else if bytes_eq(tok, "nu_svc".as_bytes()) {
        Some(SVMType::NuSvc)
    } else if bytes_eq(tok, "epsilon_svr".as_bytes()) {
        Some(SVMType::ESvr)
    } else if bytes_eq(tok, "nu_svr".as_bytes()) {
        Some(SVMType::NuSvr)
    } else {
        None
    }
}

/// Builds the kernel from the header: reads the `kernel_type` token and
/// takes the parameter tokens that kernel needs, reporting the first one
/// that is missing.
fn read_kernel(h: &Header) -> (r: Result<KernelParams, Error>)
    ensures
        r matches Ok(k) ==> spec_kernel_result(*h) == Ok::<KernelKind, Error>(kernel_kind_of(k))
            && kernel_params_match(k, *h),
        r matches Err(e) ==> spec_kernel_result(*h) == Err::<KernelKind, Error>(e),
{
    let tok = h.kernel_type.as_slice();
    let kind: Option<KernelKind> = if bytes_eq(tok, "rbf".as_bytes()) {
        Some(KernelKind::Rbf)
    } else if bytes_eq(tok, "linear".as_bytes()) {
        Some(KernelKind::Linear)
    } else if bytes_eq(tok, "polynomial".as_bytes()) {
        Some(KernelKind::Poly)
    } else if bytes_eq(tok, "sigmoid".as_bytes()) {
        Some(KernelKind::Sigmoid)
    } else {
        None
    };
    proof {
        assert(kind == spec_kernel_kind(h.kernel_type@));
    }
    match kind {
        None => Err(Error::MissingRequiredAttribute),
        Some(KernelKind::Linear) => Ok(KernelParams::Linear),
        Some(KernelKind::Rbf) => {
            match &h.gamma {
                Some(g) => Ok(KernelParams::Rbf { gamma: copy_token(g) }),
                None => Err(Error::NoGamma),
            }
        },
        Some(KernelKind::Poly) => {
            let gamma = match &h.gamma {
                Some(g) => copy_token(g),
                None => {
                    return Err(Error::NoGamma);
                },
            };
            let coef0 = match &h.coef0 {
                Some(c) => copy_token(c),
                None => {
                    return Err(Error::NoCoef0);
                },
            };
            let degree = match &h.degree {
                Some(d) => *d,
                None => {
                    return Err(Error::NoDegree);
                },
            };
            Ok(KernelParams::Poly { gamma, coef0, degree })
        },
        Some(KernelKind::Sigmoid) => {
            let gamma = match &h.gamma {
                Some(g) => copy_token(g),
                None => {
                    return Err(Error::NoGamma);
                },
            };
            let coef0 = match &h.coef0 {
                Some(c) => copy_token(c),
                None => {
                    return Err(Error::NoCoef0);
                },
            };
            Ok(KernelParams::Sigmoid { gamma, coef0 })
        },
    }
}

/// Checks the header's counts and the per-row coefficient counts, and hands
/// back the validated type, kernel and class count.
fn prepare(m: &ModelFile) -> (r: Result<(SVMType, KernelParams, usize), Error>)
    ensures
        spec_svm_type(m.header.svm_type@) is None ==> r matches Err(
            Error::MissingRequiredAttribute,
        ),
        spec_svm_type(m.header.svm_type@) is Some && spec_kernel_result(m.header) is Err ==> r
            == Err::<(SVMType, KernelParams, usize), Error>(spec_kernel_result(m.header)->Err_0),
        spec_svm_type(m.header.svm_type@) is Some && spec_kernel_result(m.header) is Ok
            && !spec_counts_ok(*m, spec_svm_type(m.header.svm_type@).unwrap()) ==> r matches Err(
            Error::MissingRequiredAttribute,
        ),
        r is Ok <==> (spec_svm_type(m.header.svm_type@) is Some && spec_kernel_result(m.header)
            is Ok && spec_counts_ok(*m, spec_svm_type(m.header.svm_type@).unwrap())),
        r matches Err(e) ==> (e matches Error::MissingRequiredAttribute || e matches Error::NoGamma
            || e matches Error::NoCoef0 || e matches Error::NoDegree),
        r matches Ok((t, k, ncl)) ==> {
            &&& spec_svm_type(m.header.svm_type@) == Some(t)
            &&& spec_kernel_result(m.header) == Ok::<KernelKind, Error>(kernel_kind_of(k))
            &&& kernel_params_match(k, m.header)
            &&& spec_counts_ok(*m, t)
            &&& ncl == spec_num_classes(t, m.header)
            &&& ncl >= 1
        },
{
    let svm_type = match read_svm_type(&m.header) {
        Some(t) => t,
        None => {
            return Err(Error::MissingRequiredAttribute);
        },
    };
    let kernel = match read_kernel(&m.header) {
        Ok(k) => k,
        Err(e) => {
            return Err(e);
        },
    };
    let classifier = match svm_type {
        SVMType::CSvc | SVMType::NuSvc => true,
        SVMType::ESvr | SVMType::NuSvr => false,
    };
    let total = m.vectors.len();
    if total == 0 {
        return Err(Error::MissingRequiredAttribute);
    }
    if m.header.total_sv as usize != total {
        return Err(Error::MissingRequiredAttribute);
    }
    let num_classes: usize;
    if classifier {
        if m.header.nr_class < 2 {
            return Err(Error::MissingRequiredAttribute);
        }
        num_classes = m.header.nr_class as usize;
        if m.header.label.len() != num_classes {
            return Err(Error::MissingRequiredAttribute);
        }
        if m.header.nr_sv.len() != num_classes {
            return Err(Error::MissingRequiredAttribute);
        }
        if sum_counts(&m.header.nr_sv) != m.header.total_sv as u64 {
            return Err(Error::MissingRequiredAttribute);
        }
        let tri = triangle_size_exec(num_classes as u64);
        if m.header.rho.len() as u64 != tri {
            return Err(Error::MissingRequiredAttribute);
        }
        match (&m.header.prob_a, &m.header.prob_b) {
            (Some(a), Some(b)) => {
                if a.len() as u64 != tri || b.len() as u64 != tri {
                    return Err(Error::MissingRequiredAttribute);
                }
            },
            _ => {},
        }
    } else {
        num_classes = 1;
        if m.header.rho.len() == 0 {
            return Err(Error::MissingRequiredAttribute);
        }
    }
    let n_minus_1: usize = if classifier {
        num_classes - 1
    } else {
        1
    };
    let mut v: usize = 0;
    while v < total
        invariant
            total == m.vectors@.len(),
            v <= total,
            spec_svm_type(m.header.svm_type@) == Some(svm_type),
            spec_kernel_result(m.header) == Ok::<KernelKind, Error>(kernel_kind_of(kernel)),
            n_minus_1 == spec_coef_rows(svm_type, m.header),
            forall|k: int| 0 <= k < v ==> (#[trigger] m.vectors@[k].coefs)@.len() == n_minus_1,
        decreases total - v,
    {
        if m.vectors[v].coefs.len() != n_minus_1 {
            return Err(Error::MissingRequiredAttribute);
        }
        v += 1;
    }
    Ok((svm_type, kernel, num_classes))
}


/// Builds one dense class: the label, the rows `start .. start + count` of
/// the model's support vectors (value tokens in attribute order), and the
/// coefficient rows laid out `coefficients[r][v]`.
fn build_dense_class(m: &ModelFile, label: i32, start: usize, count: usize, na: usize, rows: usize) -> (r: Class)
    requires
        start + count <= m.vectors@.len(),
        forall|v: int|
            start <= v < start + count ==> (#[trigger] m.vectors@[v]).features@.len() == na,
        forall|v: int| start <= v < start + count ==> (#[trigger] m.vectors@[v]).coefs@.len() == rows,
    ensures
        r.label == label,
        r.support_vectors@.len() == count,
        forall|v: int| 0 <= v < count ==> (#[trigger] r.support_vectors@[v])@.len() == na,
        forall|v: int, k: int|
            0 <= v < count && 0 <= k < na ==> (#[trigger] r.support_vectors@[v]@[k])@
                == m.vectors@[start + v].features@[k].value@,
        r.coefficients@.len() == rows,
        forall|rr: int| 0 <= rr < rows ==> (#[trigger] r.coefficients@[rr])@.len() == count,
        forall|rr: int, v: int|
            0 <= rr < rows && 0 <= v < count ==> (#[trigger] r.coefficients@[rr]@[v])@
                == m.vectors@[start + v].coefs@[rr]@,
{
    let total_vectors = m.vectors.len();
    let mut support_vectors: Vec<Vec<Vec<u8>>> = Vec::new();
    let mut v: usize = 0;
    while v < count
        invariant
            total_vectors == m.vectors@.len(),
            start + count <= m.vectors@.len(),
            forall|w: int|
                start <= w < start + count ==> (#[trigger] m.vectors@[w]).features@.len() == na,
            v <= count,
            support_vectors@.len() == v,
            forall|w: int| 0 <= w < v ==> (#[trigger] support_vectors@[w])@.len() == na,
            forall|w: int, k: int|
                0 <= w < v && 0 <= k < na ==> (#[trigger] support_vectors@[w]@[k])@
                    == m.vectors@[start + w].features@[k].value@,
        decreases count - v,
    {
        let src = &m.vectors[start + v];
        let mut row: Vec<Vec<u8>> = Vec::new();
        let mut k: usize = 0;
        while k < na
            invariant
                start + v < m.vectors@.len(),
                src == &m.vectors@[start + v as int],
                src.features@.len() == na,
                k <= na,
                row@.len() == k,
                forall|q: int| 0 <= q < k ==> (#[trigger] row@[q])@ == src.features@[q].value@,
            decreases na - k,
        {
            row.push(copy_token(&src.features[k].value));
            k += 1;
        }
        support_vectors.push(row);
        v += 1;
    }
    let mut coefficients: Vec<Vec<Vec<u8>>> = Vec::new();
    let mut rr: usize = 0;
    while rr < rows
        invariant
            total_vectors == m.vectors@.len(),
            start + count <= m.vectors@.len(),
            forall|w: int|
                start <= w < start + count ==> (#[trigger] m.vectors@[w]).coefs@.len() == rows,
            rr <= rows,
            coefficients@.len() == rr,
            forall|q: int| 0 <= q < rr ==> (#[trigger] coefficients@[q])@.len() == count,
            forall|q: int, w: int|
                0 <= q < rr && 0 <= w < count ==> (#[trigger] coefficients@[q]@[w])@
                    == m.vectors@[start + w].coefs@[q]@,
        decreases rows - rr,
    {
        let mut row: Vec<Vec<u8>> = Vec::new();
        let mut w: usize = 0;
        while w < count
            invariant
                total_vectors == m.vectors@.len(),
                start + count <= m.vectors@.len(),
                rr < rows,
                forall|q: int|
                    start <= q < start + count ==> (#[trigger] m.vectors@[q]).coefs@.len() == rows,
                w <= count,
                row@.len() == w,
                forall|q: int| 0 <= q < w ==> (#[trigger] row@[q])@ == m.vectors@[start + q].coefs@[
                    rr as int
                ]@,
            decreases count - w,
        {
            row.push(copy_token(&m.vectors[start + w].coefs[rr]));
            w += 1;
        }
        coefficients.push(row);
        rr += 1;
    }
    Class { label, coefficients, support_vectors }
}

/// Builds one sparse class the same way, keeping each row's stored
/// `(index, value token)` pairs.
fn build_sparse_class(m: &ModelFile, label: i32, start: usize, count: usize, rows: usize) -> (r: SparseClass)
    requires
        start + count <= m.vectors@.len(),
        forall|v: int| start <= v < start + count ==> (#[trigger] m.vectors@[v]).coefs@.len() == rows,
    ensures
        r.label == label,
        r.support_vectors@.len() == count,
        forall|v: int|
            0 <= v < count ==> (#[trigger] r.support_vectors@[v])@.len() == m.vectors@[start
                + v].features@.len(),
        forall|v: int, k: int|
            0 <= v < count && 0 <= k < m.vectors@[start + v].features@.len() ==> (
            #[trigger] r.support_vectors@[v]@[k]).0 == m.vectors@[start + v].features@[k].index
                && r.support_vectors@[v]@[k].1@ == m.vectors@[start + v].features@[k].value@,
        r.coefficients@.len() == rows,
        forall|rr: int| 0 <= rr < rows ==> (#[trigger] r.coefficients@[rr])@.len() == count,
        forall|rr: int, v: int|
            0 <= rr < rows && 0 <= v < count ==> (#[trigger] r.coefficients@[rr]@[v])@
                == m.vectors@[start + v].coefs@[rr]@,
{
    let total_vectors = m.vectors.len();
    let mut support_vectors: Vec<Vec<(u32, Vec<u8>)>> = Vec::new();
    let mut v: usize = 0;
    while v < count
        invariant
            total_vectors == m.vectors@.len(),
            start + count <= m.vectors@.len(),
            v <= count,
            support_vectors@.len() == v,
            forall|w: int|
                0 <= w < v ==> (#[trigger] support_vectors@[w])@.len() == m.vectors@[start
                    + w].features@.len(),
            forall|w: int, k: int|
                0 <= w < v && 0 <= k < m.vectors@[start + w].features@.len() ==> (
                #[trigger] support_vectors@[w]@[k]).0 == m.vectors@[start + w].features@[k].index
                    && support_vectors@[w]@[k].1@ == m.vectors@[start + w].features@[k].value@,
        decreases count - v,
    {
        let src = &m.vectors[start + v];
        let nf = src.features.len();
        let mut row: Vec<(u32, Vec<u8>)> = Vec::new();
        let mut k: usize = 0;
        while k < nf
            invariant
                start + v < m.vectors@.len(),
                src == &m.vectors@[start + v as int],
                nf == src.features@.len(),
                k <= nf,
                row@.len() == k,
                forall|q: int|
                    0 <= q < k ==> (#[trigger] row@[q]).0 == src.features@[q].index && row@[q].1@
                        == src.features@[q].value@,
            decreases nf - k,
        {
            row.push((src.features[k].index, copy_token(&src.features[k].value)));
            k += 1;
        }
        support_vectors.push(row);
        v += 1;
    }
    let mut coefficients: Vec<Vec<Vec<u8>>> = Vec::new();
    let mut rr: usize = 0;
    while rr < rows
        invariant
            total_vectors == m.vectors@.len(),
            start + count <= m.vectors@.len(),
            forall|w: int|
                start <= w < start + count ==> (#[trigger] m.vectors@[w]).coefs@.len() == rows,
            rr <= rows,
            coefficients@.len() == rr,
            forall|q: int| 0 <= q < rr ==> (#[trigger] coefficients@[q])@.len() == count,
            forall|q: int, w: int|
                0 <= q < rr && 0 <= w < count ==> (#[trigger] coefficients@[q]@[w])@
                    == m.vectors@[start + w].coefs@[q]@,
        decreases rows - rr,
    {
        let mut row: Vec<Vec<u8>> = Vec::new();
        let mut w: usize = 0;
        while w < count
            invariant
                total_vectors == m.vectors@.len(),
                start + count <= m.vectors@.len(),
                rr < rows,
                forall|q: int|
                    start <= q < start + count ==> (#[trigger] m.vectors@[q]).coefs@.len() == rows,
                w <= count,
                row@.len() == w,
                forall|q: int| 0 <= q < w ==> (#[trigger] row@[q])@ == m.vectors@[start + q].coefs@[
                    rr as int
                ]@,
            decreases count - w,
        {
            row.push(copy_token(&m.vectors[start + w].coefs[rr]));
            w += 1;
        }
        coefficients.push(row);
        rr += 1;
    }
    SparseClass { label, coefficients, support_vectors }
}

/// Copies the probability calibration tokens out of the header: for a
/// classifier both arrays when both are present, for a regressor the `probA`
/// array alone.
fn read_probabilities(h: &Header, classifier: bool) -> (r: Option<Probabilities>)
    ensures
        classifier ==> match r {
            Some(p) => {
                &&& h.prob_a matches Some(a) && p.a@.len() == a@.len() && (forall|k: int|
                    0 <= k < a@.len() ==> p.a@[k]@ == a@[k]@)
                &&& h.prob_b matches Some(b) && p.b@.len() == b@.len() && (forall|k: int|
                    0 <= k < b@.len() ==> p.b@[k]@ == b@[k]@)
            },
            None => h.prob_a is None || h.prob_b is None,
        },
        !classifier ==> match r {
            Some(p) => {
                &&& h.prob_a matches Some(a) && p.a@.len() == a@.len() && (forall|k: int|
                    0 <= k < a@.len() ==> p.a@[k]@ == a@[k]@)
                &&& p.b@.len() == 0
            },
            None => h.prob_a is None,
        },
        r is Some <==> (h.prob_a is Some && (classifier ==> h.prob_b is Some)),
{
    if classifier {
        match (&h.prob_a, &h.prob_b) {
            (Some(a), Some(b)) => Some(
                Probabilities { a: copy_tokens(a), b: copy_tokens(b) },
            ),
            _ => None,
        }
    } else {
        match &h.prob_a {
            Some(a) => Some(Probabilities { a: copy_tokens(a), b: Vec::new() }),
            None => None,
        }
    }
}

/// An SVM over dense feature vectors: every support vector carries one value
/// per attribute, in attribute order.
///
/// The numeric payloads stay raw tokens; the structure — counts, labels,
/// attribute order, and the one-vs-one coefficient layout — is validated by
/// [`DenseSVM::load`].
pub struct DenseSVM {
    /// Total number of support vectors.
    pub num_total_sv: usize,

    /// Number of attributes per support vector.
    pub num_attributes: usize,

    /// The classifier or regressor type.
    pub svm_type: SVMType,

    /// The kernel and its raw parameter tokens.
    pub kernel: KernelParams,

    /// The per-pair bias tokens, the flat strict upper triangle (one token
    /// for a regressor).
    pub rho: Vec<Vec<u8>>,

    /// The calibration tokens, when the model was trained with probability
    /// estimates.
    pub probabilities: Option<Probabilities>,

    /// All classes; a regressor holds one synthetic class of label 0.
    pub classes: Vec<Class>,
}

impl DenseSVM {
    /// Materializes a dense SVM from a parsed model file.
    ///
    /// The load succeeds exactly when the header names a known type and a
    /// known kernel with its required parameters, the counts hang together,
    /// and every support vector numbers its attributes `0, 1, 2, …` — one
    /// per attribute of the model. A row whose attributes break that order
    /// is reported as [`Error::AttributesUnordered`] with the offending
    /// attribute; every structural mismatch is
    /// [`Error::MissingRequiredAttribute`]; a kernel parameter that is
    /// missing is [`Error::NoGamma`], [`Error::NoCoef0`] or
    /// [`Error::NoDegree`].
    pub fn load(m: &ModelFile) -> (r: Result<DenseSVM, Error>)
        ensures
            r is Ok <==> spec_dense_ok(*m),
            spec_svm_type(m.header.svm_type@) is Some && spec_kernel_result(m.header) is Err
                ==> r == Err::<DenseSVM, Error>(spec_kernel_result(m.header)->Err_0),
            r matches Err(Error::AttributesUnordered { index, value, last_index }) ==> exists|
                v: int,
                k: int,
            |
                0 <= v < m.vectors@.len() && 0 <= k < m.vectors@[v].features@.len() && (
                #[trigger] m.vectors@[v].features@[k]).index != k && index
                    == m.vectors@[v].features@[k].index && value@ == m.vectors@[v].features@[
                    k
                ].value@,
            spec_svm_type(m.header.svm_type@) is Some && spec_kernel_result(m.header) is Ok
                && spec_counts_ok(*m, spec_svm_type(m.header.svm_type@).unwrap())
                && spec_dense_lengths_ok(*m) && !spec_dense_ok(*m) ==> r matches Err(
                Error::AttributesUnordered { .. },
            ),
            spec_svm_type(m.header.svm_type@) is Some && spec_kernel_result(m.header) is Ok
                && spec_counts_ok(*m, spec_svm_type(m.header.svm_type@).unwrap())
                && !spec_dense_lengths_ok(*m) ==> r matches Err(Error::MissingRequiredAttribute),
            r matches Ok(svm) ==> {
                let h = m.header;
                let t = spec_svm_type(h.svm_type@).unwrap();
                let ncl = spec_num_classes(t, h);
                &&& svm.svm_type == t
                &&& svm.num_total_sv == h.total_sv
                &&& svm.num_attributes == m.vectors@[0].features@.len()
                &&& kernel_kind_of(svm.kernel) == spec_kernel_result(h)->Ok_0
                &&& kernel_params_match(svm.kernel, h)
                &&& svm.rho@.len() == h.rho@.len()
                &&& (forall|k: int| 0 <= k < h.rho@.len() ==> (#[trigger] svm.rho@[k])@ == h.rho@[k]@)
                &&& (svm.probabilities is Some <==> (h.prob_a is Some && (spec_is_classifier(t)
                    ==> h.prob_b is Some)))
                &&& probabilities_match(svm.probabilities, h, t)
                &&& svm.classes@.len() == ncl
                &&& (spec_is_classifier(t) ==> forall|c: int|
                    0 <= c < ncl ==> (#[trigger] svm.classes@[c]).label == h.label@[c]
                        && svm.classes@[c].support_vectors@.len() == h.nr_sv@[c])
                &&& (!spec_is_classifier(t) ==> svm.classes@[0].label == 0
                    && svm.classes@[0].support_vectors@.len() == h.total_sv)
                &&& (forall|c: int, v: int, k: int|
                    0 <= c < ncl && 0 <= v < svm.classes@[c].support_vectors@.len() && 0 <= k
                        < svm.num_attributes ==> (#[trigger] svm.classes@[c].support_vectors@[v]@[
                        k
                    ])@ == m.vectors@[dense_class_start(t, h, c) + v].features@[k].value@)
                &&& (forall|c: int, rr: int, v: int|
                    0 <= c < ncl && 0 <= rr < spec_coef_rows(t, h) && 0 <= v
                        < svm.classes@[c].support_vectors@.len() ==> (
                    #[trigger] svm.classes@[c].coefficients@[rr]@[v])@ == m.vectors@[
                        dense_class_start(t, h, c) + v
                    ].coefs@[rr]@)
                &&& (forall|c: int|
                    0 <= c < ncl ==> (#[trigger] svm.classes@[c]).coefficients@.len()
                        == spec_coef_rows(t, h))
            },
    {
        let (svm_type, kernel, num_classes) = match prepare(m) {
            Ok(p) => p,
            Err(e) => {
                return Err(e);
            },
        };
        let classifier = match svm_type {
            SVMType::CSvc | SVMType::NuSvc => true,
            SVMType::ESvr | SVMType::NuSvr => false,
        };
        let total = m.vectors.len();
        let num_attributes = m.vectors[0].features.len();

        // First pass: every row must carry one value per attribute.
        let mut v: usize = 0;
        while v < total
            invariant
                total == m.vectors@.len(),
                total > 0,
                num_attributes == m.vectors@[0].features@.len(),
                v <= total,
                spec_svm_type(m.header.svm_type@) == Some(svm_type),
                spec_kernel_result(m.header) == Ok::<KernelKind, Error>(kernel_kind_of(kernel)),
                forall|w: int|
                    0 <= w < v ==> (#[trigger] m.vectors@[w]).features@.len() == num_attributes,
            decreases total - v,
        {
            if m.vectors[v].features.len() != num_attributes {
                proof {
                    assert(!dense_row_ok(m.vectors@[v as int], num_attributes as int));
                }
                return Err(Error::MissingRequiredAttribute);
            }
            v += 1;
        }

        // Second pass: within every row the attribute indices must be
        // exactly `0, 1, 2, …`.
        let mut v: usize = 0;
        while v < total
            invariant
                total == m.vectors@.len(),
                total > 0,
                num_attributes == m.vectors@[0].features@.len(),
                v <= total,
                spec_svm_type(m.header.svm_type@) == Some(svm_type),
                spec_kernel_result(m.header) == Ok::<KernelKind, Error>(kernel_kind_of(kernel)),
                forall|w: int|
                    0 <= w < total ==> (#[trigger] m.vectors@[w]).features@.len()
                        == num_attributes,
                forall|w: int|
                    0 <= w < v ==> dense_row_ok(#[trigger] m.vectors@[w], num_attributes as int),
            decreases total - v,
        {
            let row = &m.vectors[v];
            let mut k: usize = 0;
            while k < num_attributes
                invariant
                    total == m.vectors@.len(),
                    total > 0,
                    num_attributes == m.vectors@[0].features@.len(),
                    v < total,
                    spec_svm_type(m.header.svm_type@) == Some(svm_type),
                    spec_kernel_result(m.header) == Ok::<KernelKind, Error>(kernel_kind_of(kernel)),
                    row == &m.vectors@[v as int],
                    row.features@.len() == num_attributes,
                    k <= num_attributes,
                    forall|w: int|
                        0 <= w < total ==> (#[trigger] m.vectors@[w]).features@.len()
                            == num_attributes,
                    forall|q: int| 0 <= q < k ==> (#[trigger] row.features@[q]).index == q,
                decreases num_attributes - k,
            {
                let a = &row.features[k];
                if (a.index as u64) != (k as u64) {
                    let last_index: u32 = if k == 0 {
                        0
                    } else {
                        proof {
                            assert(row.features@[k - 1].index == k - 1);
                        }
                        (k - 1) as u32
                    };
                    proof {
                        assert(m.vectors@[v as int].features@[k as int].index != k);
                        assert(!dense_row_ok(m.vectors@[v as int], num_attributes as int));
                        assert(!spec_dense_ok(*m));
                        assert(spec_dense_lengths_ok(*m));
                    }
                    return Err(
                        Error::AttributesUnordered {
                            index: a.index,
                            value: copy_token(&a.value),
                            last_index,
                        },
                    );
                }
                k += 1;
            }
            v += 1;
        }

        // Materialize the classes, walking the rows class by class.
        let mut classes: Vec<Class> = Vec::new();
        if classifier {
            let ghost h = m.header;
            let mut start: usize = 0;
            let mut c: usize = 0;
            while c < num_classes
                invariant
                    total == m.vectors@.len(),
                    total == m.header.total_sv,
                    num_attributes == m.vectors@[0].features@.len(),
                    spec_svm_type(m.header.svm_type@) == Some(svm_type),
                    spec_is_classifier(svm_type),
                    spec_counts_ok(*m, svm_type),
                    num_classes == spec_num_classes(svm_type, m.header),
                    h == m.header,
                    c <= num_classes,
                    start == class_start(h.nr_sv@, c as int),
                    start <= total,
                    forall|w: int|
                        0 <= w < total ==> dense_row_ok(
                            #[trigger] m.vectors@[w],
                            num_attributes as int,
                        ),
                    classes@.len() == c,
                    forall|q: int|
                        0 <= q < c ==> (#[trigger] classes@[q]).label == h.label@[q],
                    forall|q: int|
                        0 <= q < c ==> (#[trigger] classes@[q]).support_vectors@.len()
                            == h.nr_sv@[q],
                    forall|q: int|
                        0 <= q < c ==> (#[trigger] classes@[q]).coefficients@.len() == num_classes
                            - 1,
                    forall|q: int, w: int, k: int|
                        0 <= q < c && 0 <= w < classes@[q].support_vectors@.len() && 0 <= k
                            < num_attributes ==> (#[trigger] classes@[q].support_vectors@[w]@[k])@
                            == m.vectors@[class_start(h.nr_sv@, q) + w].features@[k].value@,
                    forall|q: int, rr: int, w: int|
                        0 <= q < c && 0 <= rr < num_classes - 1 && 0 <= w < classes@[
                            q
                        ].support_vectors@.len() ==> (#[trigger] classes@[q].coefficients@[rr]@[
                            w
                        ])@ == m.vectors@[class_start(h.nr_sv@, q) + w].coefs@[rr]@,
                decreases num_classes - c,
            {
                proof {
                    lemma_sum_u32_take_step(h.nr_sv@, c as int);
                    lemma_sum_u32_take_bound(h.nr_sv@, c as int + 1);
                    assert(sum_u32(h.nr_sv@) == h.total_sv);
                }
                let count = m.header.nr_sv[c] as usize;
                let label = m.header.label[c];
                let class = build_dense_class(
                    m,
                    label,
                    start,
                    count,
                    num_attributes,
                    num_classes - 1,
                );
                classes.push(class);
                start += count;
                c += 1;
            }
            proof {
                assert(classes@.len() == spec_num_classes(svm_type, m.header));
            }
        } else {
            let class = build_dense_class(m, 0, 0, total, num_attributes, 1);
            classes.push(class);
        }

        let rho = copy_tokens(&m.header.rho);
        let probabilities = read_probabilities(&m.header, classifier);
        Ok(
            DenseSVM {
                num_total_sv: total,
                num_attributes,
                svm_type,
                kernel,
                rho,
                probabilities,
                classes,
            },
        )
    }

    /// Finds the class index for a given label: the position of that label's
    /// class in the model, which is also the index of its probability
    /// estimate.
    pub fn class_index_for_label(&self, label: i32) -> (r: Option<usize>)
        ensures
            match r {
                Some(i) => i < self.classes@.len() && self.classes@[i as int].label == label
                    && forall|k: int| 0 <= k < i ==> (#[trigger] self.classes@[k]).label != label,
                None => forall|k: int|
                    0 <= k < self.classes@.len() ==> (#[trigger] self.classes@[k]).label != label,
            },
    {
        let n = self.classes.len();
        let mut i: usize = 0;
        while i < n
            invariant
                n == self.classes@.len(),
                i <= n,
                forall|k: int| 0 <= k < i ==> (#[trigger] self.classes@[k]).label != label,
            decreases n - i,
        {
            if self.classes[i].label == label {
                return Some(i);
            }
            i += 1;
        }
        None
    }

    /// Returns the class label for a given index, the inverse of
    /// [`DenseSVM::class_index_for_label`].
    pub fn class_label_for_index(&self, index: usize) -> (r: Option<i32>)
        ensures
            match r {
                Some(l) => index < self.classes@.len() && l == self.classes@[index as int].label,
                None => index >= self.classes@.len(),
            },
    {
        if index >= self.classes.len() {
            None
        } else {
            Some(self.classes[index].label)
        }
    }

    /// Returns the number of attributes, reflecting the model.
    pub fn attributes(&self) -> (r: usize)
        ensures
            r == self.num_attributes,
    {
        self.num_attributes
    }

    /// Returns the number of classes, reflecting the model.
    pub fn classes(&self) -> (r: usize)
        ensures
            r == self.classes@.len(),
    {
        self.classes.len()
    }

    /// Tells whether probability estimation may run on this model: a
    /// classifier without calibration data yields
    /// [`Error::NoProbabilities`], exactly as asking it for probabilities
    /// would.
    pub fn probability_check(&self) -> (r: Result<(), Error>)
        ensures
            r == if spec_is_classifier(self.svm_type) && self.probabilities is None {
                Err::<(), Error>(Error::NoProbabilities)
            } else {
                Ok::<(), Error>(())
            },
    {
        let classifier = match self.svm_type {
            SVMType::CSvc | SVMType::NuSvc => true,
            SVMType::ESvr | SVMType::NuSvr => false,
        };
        if classifier && self.probabilities.is_none() {
            Err(Error::NoProbabilities)
        } else {
            Ok(())
        }
    }
}

/// The index of the first support-vector row of class `c` in the model
/// file: the rows are grouped by class, a regressor's synthetic class owns
/// them all.
pub open spec fn dense_class_start(t: SVMType, h: Header, c: int) -> int {
    if spec_is_classifier(t) {
        class_start(h.nr_sv@, c)
    } else {
        0
    }
}

/// An SVM over sparse feature vectors: every support vector stores only its
/// written attributes, keyed by strictly increasing indices.
pub struct SparseSVM {
    /// Total number of support vectors.
    pub num_total_sv: usize,

    /// Number of attributes of the first support vector, reflecting the
    /// model file.
    pub num_attributes: usize,

    /// The classifier or regressor type.
    pub svm_type: SVMType,

    /// The kernel and its raw parameter tokens.
    pub kernel: KernelParams,

    /// The per-pair bias tokens, the flat strict upper triangle (one token
    /// for a regressor).
    pub rho: Vec<Vec<u8>>,

    /// The calibration tokens, when the model was trained with probability
    /// estimates.
    pub probabilities: Option<Probabilities>,

    /// All classes; a regressor holds one synthetic class of label 0.
    pub classes: Vec<SparseClass>,
}

impl SparseSVM {
    /// Materializes a sparse SVM from a parsed model file.
    ///
    /// The load succeeds exactly when the header names a known type and a
    /// known kernel with its required parameters, the counts hang together,
    /// and within every support vector the attribute indices strictly
    /// increase. The first attribute whose index fails to increase is
    /// reported as [`Error::AttributesUnordered`]; the other errors are as
    /// in [`DenseSVM::load`].
    pub fn load(m: &ModelFile) -> (r: Result<SparseSVM, Error>)
        ensures
            r is Ok <==> spec_sparse_ok(*m),
            spec_svm_type(m.header.svm_type@) is Some && spec_kernel_result(m.header) is Err
                ==> r == Err::<SparseSVM, Error>(spec_kernel_result(m.header)->Err_0),
            r matches Err(Error::AttributesUnordered { index, value, last_index }) ==> exists|
                v: int,
                k: int,
            |
                0 <= v < m.vectors@.len() && 1 <= k < m.vectors@[v].features@.len() && (
                #[trigger] m.vectors@[v].features@[k]).index <= m.vectors@[v].features@[
                    k - 1
                ].index && index == m.vectors@[v].features@[k].index && value@
                    == m.vectors@[v].features@[k].value@ && last_index == m.vectors@[v].features@[
                    k - 1
                ].index,
            spec_svm_type(m.header.svm_type@) is Some && spec_kernel_result(m.header) is Ok
                && spec_counts_ok(*m, spec_svm_type(m.header.svm_type@).unwrap())
                && !spec_sparse_ok(*m) ==> r matches Err(Error::AttributesUnordered { .. }),
            r matches Ok(svm) ==> {
                let h = m.header;
                let t = spec_svm_type(h.svm_type@).unwrap();
                let ncl = spec_num_classes(t, h);
                &&& svm.svm_type == t
                &&& svm.num_total_sv == h.total_sv
                &&& svm.num_attributes == m.vectors@[0].features@.len()
                &&& kernel_kind_of(svm.kernel) == spec_kernel_result(h)->Ok_0
                &&& kernel_params_match(svm.kernel, h)
                &&& svm.rho@.len() == h.rho@.len()
                &&& (forall|k: int| 0 <= k < h.rho@.len() ==> (#[trigger] svm.rho@[k])@ == h.rho@[k]@)
                &&& (svm.probabilities is Some <==> (h.prob_a is Some && (spec_is_classifier(t)
                    ==> h.prob_b is Some)))
                &&& probabilities_match(svm.probabilities, h, t)
                &&& svm.classes@.len() == ncl
                &&& (spec_is_classifier(t) ==> forall|c: int|
                    0 <= c < ncl ==> (#[trigger] svm.classes@[c]).label == h.label@[c]
                        && svm.classes@[c].support_vectors@.len() == h.nr_sv@[c])
                &&& (!spec_is_classifier(t) ==> svm.classes@[0].label == 0
                    && svm.classes@[0].support_vectors@.len() == h.total_sv)
                &&& (forall|c: int, v: int, k: int|
                    0 <= c < ncl && 0 <= v < svm.classes@[c].support_vectors@.len() && 0 <= k
                        < svm.classes@[c].support_vectors@[v]@.len() ==> (
                    #[trigger] svm.classes@[c].support_vectors@[v]@[k]).0 == m.vectors@[
                        dense_class_start(t, h, c) + v
                    ].features@[k].index && svm.classes@[c].support_vectors@[v]@[k].1@
                        == m.vectors@[dense_class_start(t, h, c) + v].features@[k].value@)
                &&& (forall|c: int, rr: int, v: int|
                    0 <= c < ncl && 0 <= rr < spec_coef_rows(t, h) && 0 <= v
                        < svm.classes@[c].support_vectors@.len() ==> (
                    #[trigger] svm.classes@[c].coefficients@[rr]@[v])@ == m.vectors@[
                        dense_class_start(t, h, c) + v
                    ].coefs@[rr]@)
                &&& (forall|c: int|
                    0 <= c < ncl ==> (#[trigger] svm.classes@[c]).coefficients@.len()
                        == spec_coef_rows(t, h))
            },
    {
        let (svm_type, kernel, num_classes) = match prepare(m) {
            Ok(p) => p,
            Err(e) => {
                return Err(e);
            },
        };
        let classifier = match svm_type {
            SVMType::CSvc | SVMType::NuSvc => true,
            SVMType::ESvr | SVMType::NuSvr => false,
        };
        let total = m.vectors.len();
        let num_attributes = m.vectors[0].features.len();

        // Every row's attribute indices must strictly increase.
        let mut v: usize = 0;
        while v < total
            invariant
                total == m.vectors@.len(),
                total > 0,
                v <= total,
                spec_svm_type(m.header.svm_type@) == Some(svm_type),
                spec_kernel_result(m.header) == Ok::<KernelKind, Error>(kernel_kind_of(kernel)),
                forall|w: int| 0 <= w < v ==> sparse_row_ok(#[trigger] m.vectors@[w]),
            decreases total - v,
        {
            let row = &m.vectors[v];
            let nf = row.features.len();
            let mut k: usize = 1;
            while k < nf
                invariant
                    total == m.vectors@.len(),
                    total > 0,
                    v < total,
                    spec_svm_type(m.header.svm_type@) == Some(svm_type),
                    spec_kernel_result(m.header) == Ok::<KernelKind, Error>(
                        kernel_kind_of(kernel),
                    ),
                    row == &m.vectors@[v as int],
                    nf == row.features@.len(),
                    1 <= k,
                    nf > 0 ==> k <= nf,
                    nf == 0 ==> k == 1,
                    forall|a: int, b: int|
                        0 <= a < b < k && b < nf ==> row.features@[a].index < row.features@[
                            b
                        ].index,
                decreases nf - k,
            {
                let prev = &row.features[k - 1];
                let cur = &row.features[k];
                if cur.index <= prev.index {
                    proof {
                        assert(!sparse_row_ok(m.vectors@[v as int]));
                        assert(!spec_sparse_ok(*m));
                    }
                    return Err(
                        Error::AttributesUnordered {
                            index: cur.index,
                            value: copy_token(&cur.value),
                            last_index: prev.index,
                        },
                    );
                }
                proof {
                    assert(forall|a: int|
                        0 <= a < k - 1 ==> (#[trigger] row.features@[a]).index < row.features@[
                            k - 1
                        ].index);
                }
                k += 1;
            }
            proof {
                assert(sparse_row_ok(m.vectors@[v as int]));
            }
            v += 1;
        }

        // Materialize the classes, walking the rows class by class.
        let mut classes: Vec<SparseClass> = Vec::new();
        if classifier {
            let ghost h = m.header;
            let mut start: usize = 0;
            let mut c: usize = 0;
            while c < num_classes
                invariant
                    total == m.vectors@.len(),
                    total == m.header.total_sv,
                    spec_svm_type(m.header.svm_type@) == Some(svm_type),
                    spec_is_classifier(svm_type),
                    spec_counts_ok(*m, svm_type),
                    num_classes == spec_num_classes(svm_type, m.header),
                    h == m.header,
                    c <= num_classes,
                    start == class_start(h.nr_sv@, c as int),
                    start <= total,
                    classes@.len() == c,
                    forall|q: int| 0 <= q < c ==> (#[trigger] classes@[q]).label == h.label@[q],
                    forall|q: int|
                        0 <= q < c ==> (#[trigger] classes@[q]).support_vectors@.len()
                            == h.nr_sv@[q],
                    forall|q: int|
                        0 <= q < c ==> (#[trigger] classes@[q]).coefficients@.len() == num_classes
                            - 1,
                    forall|q: int, w: int|
                        0 <= q < c && 0 <= w < classes@[q].support_vectors@.len() ==> (
                        #[trigger] classes@[q].support_vectors@[w])@.len() == m.vectors@[
                            class_start(h.nr_sv@, q) + w
                        ].features@.len(),
                    forall|q: int, w: int, k: int|
                        0 <= q < c && 0 <= w < classes@[q].support_vectors@.len() && 0 <= k
                            < classes@[q].support_vectors@[w]@.len() ==> (#[trigger] classes@[
                            q
                        ].support_vectors@[w]@[k]).0 == m.vectors@[class_start(h.nr_sv@, q)
                            + w].features@[k].index && classes@[q].support_vectors@[w]@[k].1@
                            == m.vectors@[class_start(h.nr_sv@, q) + w].features@[k].value@,
                    forall|q: int, rr: int, w: int|
                        0 <= q < c && 0 <= rr < num_classes - 1 && 0 <= w < classes@[
                            q
                        ].support_vectors@.len() ==> (#[trigger] classes@[q].coefficients@[rr]@[
                            w
                        ])@ == m.vectors@[class_start(h.nr_sv@, q) + w].coefs@[rr]@,
                decreases num_classes - c,
            {
                proof {
                    lemma_sum_u32_take_step(h.nr_sv@, c as int);
                    lemma_sum_u32_take_bound(h.nr_sv@, c as int + 1);
                    assert(sum_u32(h.nr_sv@) == h.total_sv);
                }
                let count = m.header.nr_sv[c] as usize;
                let label = m.header.label[c];
                let class = build_sparse_class(m, label, start, count, num_classes - 1);
                classes.push(class);
                start += count;
                c += 1;
            }
        } else {
            let class = build_sparse_class(m, 0, 0, total, 1);
            classes.push(class);
        }

        let rho = copy_tokens(&m.header.rho);
        let probabilities = read_probabilities(&m.header, classifier);
        Ok(
            SparseSVM {
                num_total_sv: total,
                num_attributes,
                svm_type,
                kernel,
                rho,
                probabilities,
                classes,
            },
        )
    }

    /// Finds the class index for a given label.
    pub fn class_index_for_label(&self, label: i32) -> (r: Option<usize>)
        ensures
            match r {
                Some(i) => i < self.classes@.len() && self.classes@[i as int].label == label
                    && forall|k: int| 0 <= k < i ==> (#[trigger] self.classes@[k]).label != label,
                None => forall|k: int|
                    0 <= k < self.classes@.len() ==> (#[trigger] self.classes@[k]).label != label,
            },
    {
        let n = self.classes.len();
        let mut i: usize = 0;
        while i < n
            invariant
                n == self.classes@.len(),
                i <= n,
                forall|k: int| 0 <= k < i ==> (#[trigger] self.classes@[k]).label != label,
            decreases n - i,
        {
            if self.classes[i].label == label {
                return Some(i);
            }
            i += 1;
        }
        None
    }

    /// Returns the class label for a given index, the inverse of
    /// [`SparseSVM::class_index_for_label`].
    pub fn class_label_for_index(&self, index: usize) -> (r: Option<i32>)
        ensures
            match r {
                Some(l) => index < self.classes@.len() && l == self.classes@[index as int].label,
                None => index >= self.classes@.len(),
            },
    {
        if index >= self.classes.len() {
            None
        } else {
            Some(self.classes[index].label)
        }
    }

    /// Returns the number of attributes, reflecting the model.
    pub fn attributes(&self) -> (r: usize)
        ensures
            r == self.num_attributes,
    {
        self.num_attributes
    }

    /// Returns the number of classes, reflecting the model.
    pub fn classes(&self) -> (r: usize)
        ensures
            r == self.classes@.len(),
    {
        self.classes.len()
    }

    /// Tells whether probability estimation may run on this model, as
    /// [`DenseSVM::probability_check`] does.
    pub fn probability_check(&self) -> (r: Result<(), Error>)
        ensures
            r == if spec_is_classifier(self.svm_type) && self.probabilities is None {
                Err::<(), Error>(Error::NoProbabilities)
            } else {
                Ok::<(), Error>(())
            },
    {
        let classifier = match self.svm_type {
            SVMType::CSvc | SVMType::NuSvc => true,
            SVMType::ESvr | SVMType::NuSvr => false,
        };
        if classifier && self.probabilities.is_none() {
            Err(Error::NoProbabilities)
        } else {
            Ok(())
        }
    }
}

} // verus!
