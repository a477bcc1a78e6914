//! End-to-end checks of the classification pipeline: the library's verified
//! decision logic (vote counting, argmax label selection, pair offsets) glued
//! together with the floating-point kernel arithmetic that a host performs.

use ffsvm::DenseSVM;
use ffsvm::KernelParams;
use ffsvm::ModelFile;
use ffsvm::SVMType;
use ffsvm::count_votes;
use ffsvm::label_for_max_probability;
use ffsvm::max_coupling_iterations;
use ffsvm::pair_offset;
use ffsvm::predict_label_from_votes;

fn tok(s: &[u8]) -> f64 {
    std::str::from_utf8(s).unwrap().parse::<f64>().unwrap()
}

fn tok32(s: &[u8]) -> f32 {
    std::str::from_utf8(s).unwrap().parse::<f32>().unwrap()
}

fn kernel_value(kernel: &KernelParams, sv: &[f32], x: &[f32]) -> f64 {
    match kernel {
        KernelParams::Linear => {
            let mut sum = 0.0f32;
            for k in 0..sv.len() {
                sum += sv[k] * x[k];
            }
            f64::from(sum)
        }
        KernelParams::Rbf { gamma } => {
            let g = tok32(gamma);
            let mut sum = 0.0f32;
            for k in 0..sv.len() {
                sum += (sv[k] - x[k]) * (sv[k] - x[k]);
            }
            f64::from((-g * sum).exp())
        }
        KernelParams::Poly { gamma, coef0, degree } => {
            let g = tok32(gamma);
            let c = tok32(coef0);
            let mut sum = 0.0f32;
            for k in 0..sv.len() {
                sum += sv[k] * x[k];
            }
            f64::from(g * sum + c).powi(*degree as i32)
        }
        KernelParams::Sigmoid { gamma, coef0 } => {
            let g = tok32(gamma);
            let c = tok32(coef0);
            let mut sum = 0.0f32;
            for k in 0..sv.len() {
                sum += sv[k] * x[k];
            }
            f64::from(g * sum + c).tanh()
        }
    }
}

fn row_f32(tokens: &[Vec<u8>]) -> Vec<f32> {
    tokens.iter().map(|t| tok32(t) ).collect()
}

fn kernel_values(svm: &DenseSVM, x: &[f32]) -> Vec<Vec<f64>> {
    svm.classes
        .iter()
        .map(|c| {
            c.support_vectors
                .iter()
                .map(|sv| kernel_value(&svm.kernel, &row_f32(sv), x))
                .collect()
        })
        .collect()
}

fn decision_values(svm: &DenseSVM, kv: &[Vec<f64>]) -> Vec<f64> {
    let n = svm.classes();
    let mut out = vec![0.0f64; n * (n - 1) / 2];
    for i in 0..n {
        for j in (i + 1)..n {
            let off = pair_offset(n, i, j);
            let mut sum = 0.0f64;
            for (v, k) in svm.classes[i].coefficients[j - 1].iter().zip(kv[i].iter()) {
                sum += tok(v) * k;
            }
            for (v, k) in svm.classes[j].coefficients[i].iter().zip(kv[j].iter()) {
                sum += tok(v) * k;
            }
            out[off] = sum - tok(&svm.rho[off]);
        }
    }
    out
}

fn labels_of(svm: &DenseSVM) -> Vec<i32> {
    svm.classes.iter().map(|c| c.label).collect()
}

/// Classification: kernels, pairwise decisions, the verified vote count, and
/// the verified argmax label. Returns the label and the votes.
fn predict_value(svm: &DenseSVM, x: &[f32]) -> (i32, Vec<u32>) {
    let kv = kernel_values(svm, x);
    let dv = decision_values(svm, &kv);
    let dp: Vec<bool> = dv.iter().map(|d| *d > 0.0).collect();
    let votes = count_votes(svm.classes(), &dp);
    let label = predict_label_from_votes(&labels_of(svm), &votes);
    (label, votes)
}

fn sigmoid_predict(decision_value: f64, a: f64, b: f64) -> f64 {
    let fapb = decision_value * a + b;
    if fapb >= 0.0 {
        (-fapb).exp() / (1.0 + (-fapb).exp())
    } else {
        1.0 / (1.0 + fapb.exp())
    }
}

/// Probability estimation: Platt sigmoids per pair, the binary shortcut or
/// the coupling iteration, and the verified argmax over the estimates.
fn predict_probability(svm: &DenseSVM, x: &[f32]) -> (i32, Vec<f64>) {
    svm.probability_check().unwrap();
    let n = svm.classes();
    let probs = svm.probabilities.as_ref().unwrap();
    let kv = kernel_values(svm, x);
    let dv = decision_values(svm, &kv);

    const MIN_PROB: f64 = 1e-7;
    let mut pairwise = vec![vec![0.0f64; n]; n];
    for i in 0..n {
        for j in (i + 1)..n {
            let off = pair_offset(n, i, j);
            let s = sigmoid_predict(dv[off], tok(&probs.a[off]), tok(&probs.b[off]))
                .max(MIN_PROB)
                .min(1.0 - MIN_PROB);
            pairwise[i][j] = s;
            pairwise[j][i] = 1.0 - s;
        }
    }

    let mut p = vec![0.0f64; n];
    if n == 2 {
        p[0] = pairwise[0][1];
        p[1] = pairwise[1][0];
    } else {
        let mut q = vec![vec![0.0f64; n]; n];
        for t in 0..n {
            p[t] = 1.0 / n as f64;
            q[t][t] = 0.0;
            for j in 0..t {
                q[t][t] += pairwise[j][t] * pairwise[j][t];
                q[t][j] = q[j][t];
            }
            for j in (t + 1)..n {
                q[t][t] += pairwise[j][t] * pairwise[j][t];
                q[t][j] = -pairwise[j][t] * pairwise[t][j];
            }
        }
        let max_iter = max_coupling_iterations(n);
        let eps = 0.005 / n as f64;
        let mut qp = vec![0.0f64; n];
        let mut converged = false;
        for _ in 0..=max_iter {
            let mut pqp = 0.0;
            for t in 0..n {
                qp[t] = 0.0;
                for j in 0..n {
                    qp[t] += q[t][j] * p[j];
                }
                pqp += p[t] * qp[t];
            }
            let mut max_error = 0.0f64;
            for item in &qp {
                let error = (*item - pqp).abs();
                if error > max_error {
                    max_error = error;
                }
            }
            if max_error < eps {
                converged = true;
                break;
            }
            let mut pqp = pqp;
            for t in 0..n {
                let diff = (-qp[t] + pqp) / q[t][t];
                p[t] += diff;
                pqp = (pqp + diff * (diff * q[t][t] + 2.0 * qp[t])) / (1.0 + diff) / (1.0 + diff);
                for j in 0..n {
                    qp[j] = (qp[j] + diff * q[t][j]) / (1.0 + diff);
                    p[j] /= 1.0 + diff;
                }
            }
        }
        assert!(converged, "coupling ran out of iterations");
    }

    let keys: Vec<u64> = p.iter().map(|v| v.to_bits()).collect();
    let label = label_for_max_probability(&labels_of(svm), &keys);
    (label, p)
}

fn linear_two_class() -> DenseSVM {
    let text = [
        "svm_type c_svc",
        "kernel_type linear",
        "nr_class 2",
        "total_sv 2",
        "rho 0",
        "label 0 1",
        "nr_sv 1 1",
        "SV",
        "1 0:1 1:0",
        "-1 0:0 1:1",
    ]
    .join("\n");
    DenseSVM::load(&ModelFile::parse(&text).unwrap()).unwrap()
}

fn linear_two_class_with_probabilities() -> DenseSVM {
    let text = [
        "svm_type c_svc",
        "kernel_type linear",
        "nr_class 2",
        "total_sv 2",
        "rho 0",
        "label 0 1",
        "probA -2",
        "probB 0",
        "nr_sv 1 1",
        "SV",
        "1 0:1 1:0",
        "-1 0:0 1:1",
    ]
    .join("\n");
    DenseSVM::load(&ModelFile::parse(&text).unwrap()).unwrap()
}

fn rbf_four_class_with_probabilities() -> DenseSVM {
    let text = [
        "svm_type c_svc",
        "kernel_type rbf",
        "gamma 0.5",
        "nr_class 4",
        "total_sv 4",
        "rho 0.1 -0.2 0.05 0.3 -0.1 0.2",
        "label 3 7 1 5",
        "probA -1.5 -2.0 -1.0 -2.5 -1.2 -0.8",
        "probB 0.1 -0.1 0.2 0.0 -0.2 0.15",
        "nr_sv 1 1 1 1",
        "SV",
        "0.5 0.25 -0.5 0:1 1:0 2:0",
        "-0.25 0.75 0.5 0:0 1:1 2:0",
        "0.25 -0.5 1 0:0 1:0 2:1",
        "-0.75 0.25 -1 0:1 1:1 2:1",
    ]
    .join("\n");
    DenseSVM::load(&ModelFile::parse(&text).unwrap()).unwrap()
}

#[test]
fn linear_classification_picks_the_nearer_side() {
    let svm = linear_two_class();
    let (label0, _) = predict_value(&svm, &[1.0, 0.0]);
    let (label1, _) = predict_value(&svm, &[0.0, 1.0]);
    assert_eq!(label0, 0);
    assert_eq!(label1, 1);
}

#[test]
fn zero_query_yields_zero_linear_kernel_values() {
    let svm = linear_two_class();
    let kv = kernel_values(&svm, &[0.0, 0.0]);
    for row in &kv {
        for v in row {
            assert_eq!(*v, 0.0);
        }
    }
    // With all kernel values zero, every decision is -rho; rho is 0 here,
    // so no pair is strictly positive and the second class of the pair wins.
    let (label, votes) = predict_value(&svm, &[0.0, 0.0]);
    assert_eq!(votes, vec![0, 1]);
    assert_eq!(label, 1);
}

#[test]
fn rbf_kernel_of_a_support_vector_is_one() {
    let svm = rbf_four_class_with_probabilities();
    let kv = kernel_values(&svm, &[1.0, 0.0, 0.0]);
    assert!((kv[0][0] - 1.0).abs() < 1e-6);
}

#[test]
fn votes_sum_to_the_number_of_pairs() {
    let svm = rbf_four_class_with_probabilities();
    for x in [
        [1.0f32, 0.0, 0.0],
        [0.0, 1.0, 0.0],
        [0.3, -0.7, 2.0],
        [0.0, 0.0, 0.0],
    ] {
        let (_, votes) = predict_value(&svm, &x);
        let total: u32 = votes.iter().sum();
        assert_eq!(total as usize, 4 * 3 / 2);
    }
}

#[test]
fn probabilities_sum_to_one() {
    let svm = rbf_four_class_with_probabilities();
    let (_, p) = predict_probability(&svm, &[0.2, 0.4, -0.3]);
    let sum: f64 = p.iter().sum();
    assert!((sum - 1.0).abs() < 1e-6);
}

#[test]
fn predicted_label_is_the_class_of_maximum_probability() {
    let svm = rbf_four_class_with_probabilities();
    for x in [[1.0f32, 0.0, 0.0], [0.0, 0.5, 0.5], [-1.0, 2.0, 0.25]] {
        let (label, p) = predict_probability(&svm, &x);
        let mut best = 0;
        for k in 1..p.len() {
            if p[k] > p[best] {
                best = k;
            }
        }
        assert_eq!(label, svm.class_label_for_index(best).unwrap());
    }
}

#[test]
fn binary_probabilities_are_complementary() {
    let svm = linear_two_class_with_probabilities();
    let (label, p) = predict_probability(&svm, &[1.0, 0.0]);
    assert_eq!(p.len(), 2);
    assert!((p[0] + p[1] - 1.0).abs() < 1e-12);
    // decision value 1, platt(1, -2, 0) = 1/(1+exp(-2)) ~ 0.8808.
    assert!((p[0] - 0.88079707797788).abs() < 1e-9);
    assert_eq!(label, 0);
}

#[test]
fn identical_feature_vectors_classify_identically() {
    let svm = rbf_four_class_with_probabilities();
    let x = [0.7f32, -0.2, 1.4];
    let (l1, p1) = predict_probability(&svm, &x);
    let (l2, p2) = predict_probability(&svm, &x);
    assert_eq!(l1, l2);
    let b1: Vec<u64> = p1.iter().map(|v| v.to_bits()).collect();
    let b2: Vec<u64> = p2.iter().map(|v| v.to_bits()).collect();
    assert_eq!(b1, b2);
    let (v1, votes1) = predict_value(&svm, &x);
    let (v2, votes2) = predict_value(&svm, &x);
    assert_eq!(v1, v2);
    assert_eq!(votes1, votes2);
}

#[test]
fn regression_matches_the_reference_formula() {
    let text = [
        "svm_type epsilon_svr",
        "kernel_type linear",
        "nr_class 2",
        "total_sv 2",
        "rho 0.25",
        "SV",
        "0.5 0:1 1:2",
        "-0.25 0:3 1:4",
    ]
    .join("\n");
    let svm = DenseSVM::load(&ModelFile::parse(&text).unwrap()).unwrap();
    assert!(matches!(svm.svm_type, SVMType::ESvr));
    let x = [1.0f32, 1.0];
    let kv = kernel_values(&svm, &x);
    let mut sum = 0.0f64;
    for (c, k) in svm.classes[0].coefficients[0].iter().zip(kv[0].iter()) {
        sum += tok(c) * k;
    }
    sum -= tok(&svm.rho[0]);
    let value = sum as f32;

    // Reference: 0.5 * <(1,2),(1,1)> - 0.25 * <(3,4),(1,1)> - 0.25.
    let reference = 0.5 * 3.0 - 0.25 * 7.0 - 0.25;
    assert!((f64::from(value) - reference).abs() <= 0.001 * reference.abs());
    assert_eq!(value, -0.5f32);
}

#[test]
fn coupling_iteration_budget_follows_the_class_count() {
    assert_eq!(max_coupling_iterations(3), 100);
    assert_eq!(max_coupling_iterations(100), 100);
    assert_eq!(max_coupling_iterations(250), 250);
}

#[test]
fn sparse_merge_walk_matches_by_index() {
    let matched = ffsvm::matched_pairs(&vec![0, 2, 5, 9], &vec![2, 3, 5, 10]);
    assert_eq!(matched, vec![(1, 0), (2, 2)]);
    let none = ffsvm::matched_pairs(&vec![1, 3], &vec![0, 2]);
    assert!(none.is_empty());
    // A sparse linear kernel is the dot product over the matched positions.
    let a_vals = [0.5f32, 1.0, 2.0, 0.25];
    let b_vals = [4.0f32, 8.0, 0.5, 16.0];
    let mut sum = 0.0f32;
    for (i, j) in ffsvm::matched_pairs(&vec![0, 2, 5, 9], &vec![2, 3, 5, 10]) {
        sum += a_vals[i] * b_vals[j];
    }
    assert_eq!(sum, 1.0 * 4.0 + 2.0 * 0.5);
}

#[test]
fn poly_and_sigmoid_kernel_formulas() {
    let poly = KernelParams::Poly {
        gamma: b"1".to_vec(),
        coef0: b"1".to_vec(),
        degree: 2,
    };
    // (1 * <(1,1),(1,1)> + 1)^2 = 9.
    assert_eq!(kernel_value(&poly, &[1.0, 1.0], &[1.0, 1.0]), 9.0);

    let sigmoid = KernelParams::Sigmoid {
        gamma: b"1".to_vec(),
        coef0: b"-1".to_vec(),
    };
    // tanh(1 * 2 - 1) = tanh(1).
    let expected = 1.0f64.tanh();
    assert!((kernel_value(&sigmoid, &[1.0, 1.0], &[1.0, 1.0]) - expected).abs() < 1e-9);

    let rbf = KernelParams::Rbf {
        gamma: b"0.5".to_vec(),
    };
    // exp(-0.5 * |(1,0) - (0,0)|^2) = exp(-0.5).
    let expected = (-0.5f64).exp();
    assert!((kernel_value(&rbf, &[1.0, 0.0], &[0.0, 0.0]) - expected).abs() < 1e-6);
}

#[test]
fn sparse_classification_walks_matched_indices() {
    // Two classes, one sparse support vector each, linear kernel. The rows
    // live on disjoint attribute indices, so a query on one side matches
    // only that class's support vector.
    let text = [
        "svm_type c_svc",
        "kernel_type linear",
        "nr_class 2",
        "total_sv 2",
        "rho 0",
        "label 5 6",
        "nr_sv 1 1",
        "SV",
        "1 2:1 7:2",
        "-1 3:1 9:2",
    ]
    .join("\n");
    let model = ModelFile::parse(&text).unwrap();
    let svm = ffsvm::SparseSVM::load(&model).unwrap();

    // Query {2: 1.0}: matches only class 0's vector, kernel values 1 and 0,
    // decision 1 * 1 - 0 = 1 > 0, so class index 0 wins the pair.
    let query_idx: Vec<u32> = vec![2];
    let query_val: Vec<f32> = vec![1.0];
    let mut kv: Vec<f64> = Vec::new();
    for class in &svm.classes {
        let row = &class.support_vectors[0];
        let idx: Vec<u32> = row.iter().map(|e| e.0).collect();
        let val: Vec<f32> = row.iter().map(|e| tok32(&e.1)).collect();
        let mut sum = 0.0f32;
        for (i, j) in ffsvm::matched_pairs(&idx, &query_idx) {
            sum += val[i] * query_val[j];
        }
        kv.push(f64::from(sum));
    }
    assert_eq!(kv, vec![1.0, 0.0]);
    let d = tok(&svm.classes[0].coefficients[0][0]) * kv[0]
        + tok(&svm.classes[1].coefficients[0][0]) * kv[1]
        - tok(&svm.rho[0]);
    let dp = vec![d > 0.0];
    let votes = count_votes(2, &dp);
    assert_eq!(votes, vec![1, 0]);
    let labels: Vec<i32> = svm.classes.iter().map(|c| c.label).collect();
    assert_eq!(predict_label_from_votes(&labels, &votes), 5);
}
