use ffsvm::DenseSVM;
use ffsvm::Error;
use ffsvm::KernelParams;
use ffsvm::ModelFile;
use ffsvm::SVMType;
use ffsvm::SparseSVM;
use ffsvm::parse_i32_token;
use ffsvm::parse_u32_token;

fn small_rbf_model() -> String {
    [
        "svm_type c_svc",
        "kernel_type rbf",
        "gamma 1",
        "nr_class 2",
        "total_sv 3",
        "rho -0.5",
        "label 9 42",
        "nr_sv 2 1",
        "SV",
        "0.25 0:0.5 1:0.25",
        "0.5 0:1 1:0",
        "-0.75 0:0 1:1",
    ]
    .join("\n")
}

#[test]
fn parses_header_and_vectors() {
    let text = small_rbf_model();
    let model = ModelFile::parse(&text).unwrap();
    let h = model.header();
    assert_eq!(h.svm_type, b"c_svc");
    assert_eq!(h.kernel_type, b"rbf");
    assert_eq!(h.gamma, Some(b"1".to_vec()));
    assert_eq!(h.nr_class, 2);
    assert_eq!(h.total_sv, 3);
    assert_eq!(h.rho, vec![b"-0.5".to_vec()]);
    assert_eq!(h.label, vec![9, 42]);
    assert_eq!(h.nr_sv, vec![2, 1]);
    assert_eq!(model.vectors().len(), 3);
    let sv = &model.vectors()[0];
    assert_eq!(sv.coefs, vec![b"0.25".to_vec()]);
    assert_eq!(sv.features.len(), 2);
    assert_eq!(sv.features[0].index, 0);
    assert_eq!(sv.features[0].value, b"0.5");
    assert_eq!(sv.features[1].index, 1);
    assert_eq!(sv.features[1].value, b"0.25");
}

#[test]
fn integer_tokens_parse_exactly() {
    assert_eq!(parse_u32_token(b"0"), Some(0));
    assert_eq!(parse_u32_token(b"+42"), Some(42));
    assert_eq!(parse_u32_token(b"4294967295"), Some(u32::MAX));
    assert_eq!(parse_u32_token(b"4294967296"), None);
    assert_eq!(parse_u32_token(b""), None);
    assert_eq!(parse_u32_token(b"-1"), None);
    assert_eq!(parse_u32_token(b"12a"), None);
    assert_eq!(parse_i32_token(b"-2147483648"), Some(i32::MIN));
    assert_eq!(parse_i32_token(b"2147483647"), Some(i32::MAX));
    assert_eq!(parse_i32_token(b"-2147483649"), None);
    assert_eq!(parse_i32_token(b"+7"), Some(7));
    assert_eq!(parse_i32_token(b"--7"), None);
}

#[test]
fn missing_required_keys_fail_the_parse() {
    assert!(matches!(
        ModelFile::parse("kernel_type rbf\nnr_class 2\ntotal_sv 1\n"),
        Err(Error::MissingRequiredAttribute)
    ));
    assert!(matches!(
        ModelFile::parse("svm_type c_svc\nnr_class 2\ntotal_sv 1\n"),
        Err(Error::MissingRequiredAttribute)
    ));
    assert!(matches!(
        ModelFile::parse("svm_type c_svc\nkernel_type rbf\ntotal_sv 1\n"),
        Err(Error::MissingRequiredAttribute)
    ));
    assert!(matches!(
        ModelFile::parse("svm_type c_svc\nkernel_type rbf\nnr_class 2\n"),
        Err(Error::MissingRequiredAttribute)
    ));
    // A malformed count is as good as a missing one.
    assert!(matches!(
        ModelFile::parse("svm_type c_svc\nkernel_type rbf\nnr_class two\ntotal_sv 1\n"),
        Err(Error::MissingRequiredAttribute)
    ));
}

#[test]
fn an_empty_line_ends_the_file() {
    let text = "svm_type c_svc\n\nkernel_type rbf\nnr_class 2\ntotal_sv 1\n";
    assert!(matches!(
        ModelFile::parse(text),
        Err(Error::MissingRequiredAttribute)
    ));
}

#[test]
fn kernel_parameter_errors() {
    let no_gamma = small_rbf_model().replace("gamma 1\n", "");
    let model = ModelFile::parse(&no_gamma).unwrap();
    assert!(matches!(DenseSVM::load(&model), Err(Error::NoGamma)));
    assert!(matches!(SparseSVM::load(&model), Err(Error::NoGamma)));

    let poly = small_rbf_model().replace("kernel_type rbf", "kernel_type polynomial");
    let model = ModelFile::parse(&poly).unwrap();
    assert!(matches!(DenseSVM::load(&model), Err(Error::NoCoef0)));

    let poly = poly.replace("gamma 1", "gamma 1\ncoef0 0.5");
    let model = ModelFile::parse(&poly).unwrap();
    assert!(matches!(DenseSVM::load(&model), Err(Error::NoDegree)));

    let poly = poly.replace("coef0 0.5", "coef0 0.5\ndegree 3");
    let model = ModelFile::parse(&poly).unwrap();
    let svm = DenseSVM::load(&model).unwrap();
    assert!(matches!(
        svm.kernel,
        KernelParams::Poly { degree: 3, .. }
    ));

    let sigmoid = small_rbf_model()
        .replace("kernel_type rbf", "kernel_type sigmoid")
        .replace("gamma 1", "gamma 1\ncoef0 -1");
    let model = ModelFile::parse(&sigmoid).unwrap();
    assert!(matches!(
        DenseSVM::load(&model).unwrap().kernel,
        KernelParams::Sigmoid { .. }
    ));

    let unknown = small_rbf_model().replace("kernel_type rbf", "kernel_type precomputed");
    let model = ModelFile::parse(&unknown).unwrap();
    assert!(matches!(
        DenseSVM::load(&model),
        Err(Error::MissingRequiredAttribute)
    ));
}

#[test]
fn loaded_shape_round_trips_against_the_header() {
    let text = small_rbf_model();
    let model = ModelFile::parse(&text).unwrap();
    let svm = DenseSVM::load(&model).unwrap();
    assert!(matches!(svm.svm_type, SVMType::CSvc));
    assert_eq!(svm.attributes(), 2);
    assert_eq!(svm.classes(), 2);
    assert_eq!(svm.num_total_sv, 3);
    assert_eq!(svm.rho, vec![b"-0.5".to_vec()]);
    assert_eq!(svm.classes[0].label, 9);
    assert_eq!(svm.classes[1].label, 42);
    assert_eq!(svm.classes[0].support_vectors.len(), 2);
    assert_eq!(svm.classes[1].support_vectors.len(), 1);
    // The rows are grouped by class and keep their value tokens.
    assert_eq!(
        svm.classes[0].support_vectors[0],
        vec![b"0.5".to_vec(), b"0.25".to_vec()]
    );
    assert_eq!(svm.classes[1].support_vectors[0], vec![b"0".to_vec(), b"1".to_vec()]);
    // Coefficient layout: each coefficient row of a class holds one token
    // per support vector.
    assert_eq!(
        svm.classes[0].coefficients,
        vec![vec![b"0.25".to_vec(), b"0.5".to_vec()]]
    );
    assert_eq!(svm.classes[1].coefficients, vec![vec![b"-0.75".to_vec()]]);
    // No probA/probB in the file: asking for probabilities must fail.
    assert!(matches!(
        svm.probability_check(),
        Err(Error::NoProbabilities)
    ));
}

#[test]
fn class_operations() {
    let text = small_rbf_model();
    let model = ModelFile::parse(&text).unwrap();
    let svm = DenseSVM::load(&model).unwrap();

    assert_eq!(None, svm.class_index_for_label(0));
    assert_eq!(Some(1), svm.class_index_for_label(42));
    assert_eq!(Some(0), svm.class_index_for_label(9));
    assert_eq!(svm.class_label_for_index(1), Some(42));
    assert_eq!(svm.class_label_for_index(5), None);
}

#[test]
fn dense_model_rejects_unordered_attributes() {
    let bad = small_rbf_model().replace("0.5 0:1 1:0", "0.5 0:1 3:0");
    let model = ModelFile::parse(&bad).unwrap();
    match DenseSVM::load(&model) {
        Err(Error::AttributesUnordered { index, value, last_index }) => {
            assert_eq!(index, 3);
            assert_eq!(value, b"0");
            assert_eq!(last_index, 0);
        }
        other => panic!("expected AttributesUnordered, got {:?}", other.is_ok()),
    }
    // The sparse loader accepts the same model: 0 < 3 is still increasing.
    assert!(SparseSVM::load(&model).is_ok());
}

#[test]
fn sparse_model_rejects_decreasing_indices() {
    let bad = small_rbf_model().replace("0.5 0:1 1:0", "0.5 4:1 2:0");
    let model = ModelFile::parse(&bad).unwrap();
    match SparseSVM::load(&model) {
        Err(Error::AttributesUnordered { index, value, last_index }) => {
            assert_eq!(index, 2);
            assert_eq!(value, b"0");
            assert_eq!(last_index, 4);
        }
        other => panic!("expected AttributesUnordered, got {:?}", other.is_ok()),
    }
}

#[test]
fn count_mismatches_fail_the_load() {
    let wrong_total = small_rbf_model().replace("total_sv 3", "total_sv 4");
    let model = ModelFile::parse(&wrong_total).unwrap();
    assert!(matches!(
        DenseSVM::load(&model),
        Err(Error::MissingRequiredAttribute)
    ));

    let wrong_nr_sv = small_rbf_model().replace("nr_sv 2 1", "nr_sv 1 1");
    let model = ModelFile::parse(&wrong_nr_sv).unwrap();
    assert!(matches!(
        DenseSVM::load(&model),
        Err(Error::MissingRequiredAttribute)
    ));
}

#[test]
fn regressor_synthesizes_one_class() {
    let text = [
        "svm_type epsilon_svr",
        "kernel_type linear",
        "nr_class 2",
        "total_sv 2",
        "rho 0.25",
        "SV",
        "0.5 0:1 1:2",
        "-0.25 0:3 1:4",
    ]
    .join("\n");
    let model = ModelFile::parse(&text).unwrap();
    let svm = DenseSVM::load(&model).unwrap();
    assert!(matches!(svm.svm_type, SVMType::ESvr));
    assert_eq!(svm.classes(), 1);
    assert_eq!(svm.classes[0].label, 0);
    assert_eq!(svm.classes[0].support_vectors.len(), 2);
    // Regressors fall back to plain prediction; probabilities are fine.
    assert!(svm.probability_check().is_ok());
}

#[test]
fn unknown_header_keys_are_ignored() {
    let text = small_rbf_model().replace("gamma 1", "obedience 99\ngamma 1\nflavor sour");
    let model = ModelFile::parse(&text).unwrap();
    assert_eq!(model.header().gamma, Some(b"1".to_vec()));
    assert!(DenseSVM::load(&model).is_ok());
}

#[test]
fn carriage_returns_and_extra_blanks_are_separators() {
    let text = small_rbf_model().replace("gamma 1", "gamma \t 1\r");
    let model = ModelFile::parse(&text).unwrap();
    assert_eq!(model.header().gamma, Some(b"1".to_vec()));
}

#[test]
fn empty_input_is_missing_everything() {
    assert!(matches!(
        ModelFile::parse(""),
        Err(Error::MissingRequiredAttribute)
    ));
}

#[test]
fn malformed_label_tokens_are_dropped() {
    let text = small_rbf_model().replace("label 9 42", "label 9 x 42");
    let model = ModelFile::parse(&text).unwrap();
    assert_eq!(model.header().label, vec![9, 42]);
}

#[test]
fn short_rows_fail_the_dense_load() {
    let short = small_rbf_model().replace("0.5 0:1 1:0", "0.5 0:1");
    let model = ModelFile::parse(&short).unwrap();
    assert!(matches!(
        DenseSVM::load(&model),
        Err(Error::MissingRequiredAttribute)
    ));
    // The sparse loader has no notion of a row length.
    assert!(SparseSVM::load(&model).is_ok());
}

#[test]
fn half_present_calibration_counts_as_absent() {
    let text = small_rbf_model().replace("rho -0.5", "rho -0.5\nprobA -1.5");
    let model = ModelFile::parse(&text).unwrap();
    let svm = DenseSVM::load(&model).unwrap();
    assert!(svm.probabilities.is_none());
    assert!(matches!(
        svm.probability_check(),
        Err(Error::NoProbabilities)
    ));
}

#[test]
fn wrong_calibration_length_fails_the_load() {
    let text = small_rbf_model().replace("rho -0.5", "rho -0.5\nprobA -1.5 2\nprobB 0.5");
    let model = ModelFile::parse(&text).unwrap();
    assert!(matches!(
        DenseSVM::load(&model),
        Err(Error::MissingRequiredAttribute)
    ));
}

#[test]
fn sparse_accessors_mirror_the_dense_ones() {
    let text = small_rbf_model();
    let model = ModelFile::parse(&text).unwrap();
    let svm = SparseSVM::load(&model).unwrap();
    assert_eq!(svm.classes(), 2);
    assert_eq!(svm.attributes(), 2);
    assert_eq!(svm.class_index_for_label(42), Some(1));
    assert_eq!(svm.class_label_for_index(0), Some(9));
    assert_eq!(svm.classes[0].support_vectors[0][1], (1, b"0.25".to_vec()));
}

#[test]
fn load_label_negative() {
    let text = [
        "svm_type c_svc",
        "kernel_type linear",
        "nr_class 2",
        "total_sv 2",
        "rho 0.5",
        "label -1 1",
        "nr_sv 1 1",
        "SV",
        "0.25 0:1 1:0",
        "-0.25 0:0 1:1",
    ]
    .join("\n");
    let model = ModelFile::parse(&text).unwrap();
    assert_eq!(model.header().label, vec![-1, 1]);
    let svm = DenseSVM::load(&model).unwrap();
    assert_eq!(svm.classes[0].label, -1);
    assert_eq!(svm.classes[1].label, 1);
    assert_eq!(svm.class_index_for_label(-1), Some(0));
    assert_eq!(svm.class_label_for_index(0), Some(-1));
}

#[test]
fn non_ascii_text_in_ignored_lines_is_accepted() {
    // The model file is UTF-8 text; a non-ASCII unknown header key must not
    // break the parse of the keys that matter.
    let text = small_rbf_model().replace("gamma 1", "gamma 1\nnot\u{e9}s ignor\u{e9}es");
    let model = ModelFile::parse(&text).unwrap();
    assert_eq!(model.header().gamma, Some(b"1".to_vec()));
    assert!(DenseSVM::load(&model).is_ok());
}

#[test]
fn a_later_header_line_overwrites_an_earlier_one() {
    let text = small_rbf_model().replace("gamma 1", "gamma 1\nnr_class 5\ngamma 7\nnr_class 2");
    let model = ModelFile::parse(&text).unwrap();
    assert_eq!(model.header().gamma, Some(b"7".to_vec()));
    assert_eq!(model.header().nr_class, 2);
}

#[test]
fn header_keys_after_the_separator_are_rows() {
    // Past `SV`, a line starting with a header key is read as a row: its
    // colon-free tokens are coefficients.
    let text = small_rbf_model().replace("-0.75 0:0 1:1", "gamma 0:0 1:1");
    let model = ModelFile::parse(&text).unwrap();
    assert_eq!(model.header().gamma, Some(b"1".to_vec()));
    assert_eq!(model.vectors()[2].coefs, vec![b"gamma".to_vec()]);
}
