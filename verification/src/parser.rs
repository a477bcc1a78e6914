use vstd::prelude::*;
use vstd::slice::slice_to_vec;
use vstd::string::StringSliceAdditionalSpecFns;
use crate::errors::Error;
use crate::numbers::bytes_eq;
use crate::numbers::copy_token;
use crate::numbers::parse_i32_token;
use crate::numbers::parse_u32_token;
use crate::numbers::spec_parse_i32;
use crate::numbers::spec_parse_u32;

verus! {

/// One `index:value` attribute of a support-vector row, the value kept as
/// its raw textual token.
pub struct Attribute {
    /// The attribute index in front of the colon.
    pub index: u32,

    /// The raw value token behind the colon.
    pub value: Vec<u8>,
}

/// One support-vector row: its leading coefficient tokens and its
/// `index:value` attributes.
pub struct SupportVector {
    /// The raw coefficient tokens (every token without a colon).
    pub coefs: Vec<Vec<u8>>,

    /// The parsed attributes (every token with a colon whose index part is a
    /// decimal number).
    pub features: Vec<Attribute>,
}

/// The header block of a model file.
///
/// Numeric values that feed the classifier's floating-point work (`gamma`,
/// `coef0`, `rho`, the calibration arrays and so on) are kept as their raw
/// tokens; the counts and labels that drive the model's structure are parsed
/// and validated here.
pub struct Header {
    /// The `svm_type` token (`c_svc`, `nu_svc`, `epsilon_svr`, `nu_svr`).
    pub svm_type: Vec<u8>,

    /// The `kernel_type` token (`linear`, `polynomial`, `rbf`, `sigmoid`).
    pub kernel_type: Vec<u8>,

    /// The raw `gamma` token, when the header had one.
    pub gamma: Option<Vec<u8>>,

    /// The raw `coef0` token, when the header had one.
    pub coef0: Option<Vec<u8>>,

    /// The polynomial degree, when the header had a well-formed one.
    pub degree: Option<u32>,

    /// The number of classes.
    pub nr_class: u32,

    /// The total number of support vectors.
    pub total_sv: u32,

    /// The raw per-pair bias tokens.
    pub rho: Vec<Vec<u8>>,

    /// The class labels, in class order.
    pub label: Vec<i32>,

    /// The raw `probA` calibration tokens, when the header had them.
    pub prob_a: Option<Vec<Vec<u8>>>,

    /// The raw `probB` calibration tokens, when the header had them.
    pub prob_b: Option<Vec<Vec<u8>>>,

    /// The number of support vectors of each class.
    pub nr_sv: Vec<u32>,
}

/// Parsing result of a model file, used to instantiate a dense or sparse
/// SVM.
///
/// A model file is line-oriented UTF-8 text: a header of `key value …`
/// lines, an `SV` separator, and one support-vector row per line after it.
/// [`ModelFile::parse`] turns such text into this structure. Tokens are kept
/// as raw bytes; every separator and key of the format is ASCII, so
/// splitting at the byte level is sound for any UTF-8 text.
pub struct ModelFile {
    /// The parsed header block.
    pub header: Header,

    /// The parsed support-vector rows, in file order.
    pub vectors: Vec<SupportVector>,
}

// ------------------------------------------------------------------
// The tokenization of a model text: lines split on `\n`, tokens split on
// blanks, tabs and carriage returns, empty tokens dropped.
/// True when the byte separates tokens within a line.
pub open spec fn is_separator_byte(b: u8) -> bool {
    b == 32 || b == 9 || b == 13
}

/// One left-to-right pass of the tokenizer: `tok` is the token being built,
/// `line` the tokens of the line being built, `acc` the finished lines. A
/// trailing piece without a final newline still forms a line.
pub open spec fn spec_scan(
    s: Seq<u8>,
    tok: Seq<u8>,
    line: Seq<Seq<u8>>,
    acc: Seq<Seq<Seq<u8>>>,
) -> Seq<Seq<Seq<u8>>>
    decreases s.len(),
{
    if s.len() == 0 {
        let line2 = if tok.len() > 0 {
            line.push(tok)
        } else {
            line
        };
        if line2.len() > 0 {
            acc.push(line2)
        } else {
            acc
        }
    } else {
        let b = s[0];
        let rest = s.drop_first();
        if b == 10 {
            let line2 = if tok.len() > 0 {
                line.push(tok)
            } else {
                line
            };
            spec_scan(rest, Seq::empty(), Seq::empty(), acc.push(line2))
        } else if is_separator_byte(b) {
            let line2 = if tok.len() > 0 {
                line.push(tok)
            } else {
                line
            };
            spec_scan(rest, Seq::empty(), line2, acc)
        } else {
            spec_scan(rest, tok.push(b), line, acc)
        }
    }
}

/// The token lines of a model text.
pub open spec fn token_lines(s: Seq<u8>) -> Seq<Seq<Seq<u8>>> {
    spec_scan(s, Seq::empty(), Seq::empty(), Seq::empty())
}

/// The byte contents of a list of tokens.
pub open spec fn tokens_view(l: Seq<Vec<u8>>) -> Seq<Seq<u8>> {
    l.map_values(|t: Vec<u8>| t@)
}

/// The byte contents of a list of token lines.
pub open spec fn lines_view(ls: Seq<Vec<Vec<u8>>>) -> Seq<Seq<Seq<u8>>> {
    ls.map_values(|l: Vec<Vec<u8>>| tokens_view(l@))
}

/// The contents of an optional token.
pub open spec fn opt_token_view(o: Option<Vec<u8>>) -> Option<Seq<u8>> {
    match o {
        Some(t) => Some(t@),
        None => None,
    }
}

/// The contents of an optional token list.
pub open spec fn opt_tokens_view(o: Option<Vec<Vec<u8>>>) -> Option<Seq<Seq<u8>>> {
    match o {
        Some(t) => Some(tokens_view(t@)),
        None => None,
    }
}

/// The contents of a parsed support-vector row: its coefficient tokens and
/// its `(index, value token)` attributes.
pub open spec fn sv_view(sv: SupportVector) -> (Seq<Seq<u8>>, Seq<(u32, Seq<u8>)>) {
    (tokens_view(sv.coefs@), sv.features@.map_values(|a: Attribute| (a.index, a.value@)))
}

/// The contents of a list of parsed support-vector rows.
pub open spec fn svs_view(svs: Seq<SupportVector>) -> Seq<(Seq<Seq<u8>>, Seq<(u32, Seq<u8>)>)> {
    svs.map_values(|sv: SupportVector| sv_view(sv))
}

// ------------------------------------------------------------------
// What the parse of a sequence of token lines yields, one header field at a
// time. Every walk reads the lines in order, stops at the first empty line
// or at the `SV` separator, and lets a later line overwrite an earlier one.
/// True when the key is one of those whose line must carry a value token.
pub open spec fn is_value_key(t: Seq<u8>) -> bool {
    ||| t == "svm_type".spec_bytes()
    ||| t == "kernel_type".spec_bytes()
    ||| t == "gamma".spec_bytes()
    ||| t == "coef0".spec_bytes()
    ||| t == "degree".spec_bytes()
    ||| t == "nr_class".spec_bytes()
    ||| t == "total_sv".spec_bytes()
}

/// True when the parse stops with an error: some header line names a key
/// that needs a value token but carries none.
pub open spec fn parse_aborts(lines: Seq<Seq<Seq<u8>>>, in_vectors: bool) -> bool
    decreases lines.len(),
{
    if in_vectors || lines.len() == 0 {
        false
    } else {
        let l = lines[0];
        if l.len() == 0 {
            false
        } else if l[0] == "SV".spec_bytes() {
            false
        } else if is_value_key(l[0]) && l.len() < 2 {
            true
        } else {
            parse_aborts(lines.drop_first(), false)
        }
    }
}

/// The value token of the last header line naming `key`, starting from
/// `cur`.
pub open spec fn scan_value(
    lines: Seq<Seq<Seq<u8>>>,
    key: Seq<u8>,
    cur: Option<Seq<u8>>,
    in_vectors: bool,
) -> Option<Seq<u8>>
    decreases lines.len(),
{
    if in_vectors || lines.len() == 0 {
        cur
    } else {
        let l = lines[0];
        if l.len() == 0 {
            cur
        } else if l[0] == "SV".spec_bytes() {
            cur
        } else if l[0] == key && l.len() >= 2 {
            scan_value(lines.drop_first(), key, Some(l[1]), false)
        } else {
            scan_value(lines.drop_first(), key, cur, false)
        }
    }
}

/// The parsed count of the last header line naming `key`; a malformed
/// number counts as absent.
pub open spec fn scan_u32_value(
    lines: Seq<Seq<Seq<u8>>>,
    key: Seq<u8>,
    cur: Option<u32>,
    in_vectors: bool,
) -> Option<u32>
    decreases lines.len(),
{
    if in_vectors || lines.len() == 0 {
        cur
    } else {
        let l = lines[0];
        if l.len() == 0 {
            cur
        } else if l[0] == "SV".spec_bytes() {
            cur
        } else if l[0] == key && l.len() >= 2 {
            scan_u32_value(lines.drop_first(), key, spec_parse_u32(l[1]), false)
        } else {
            scan_u32_value(lines.drop_first(), key, cur, false)
        }
    }
}

/// The value tokens of the last header line naming `key`.
pub open spec fn scan_tokens(
    lines: Seq<Seq<Seq<u8>>>,
    key: Seq<u8>,
    cur: Seq<Seq<u8>>,
    in_vectors: bool,
) -> Seq<Seq<u8>>
    decreases lines.len(),
{
    if in_vectors || lines.len() == 0 {
        cur
    } else {
        let l = lines[0];
        if l.len() == 0 {
            cur
        } else if l[0] == "SV".spec_bytes() {
            cur
        } else if l[0] == key {
            scan_tokens(lines.drop_first(), key, l.drop_first(), false)
        } else {
            scan_tokens(lines.drop_first(), key, cur, false)
        }
    }
}

/// As `scan_tokens`, but remembering whether the key appeared at all.
pub open spec fn scan_tokens_opt(
    lines: Seq<Seq<Seq<u8>>>,
    key: Seq<u8>,
    cur: Option<Seq<Seq<u8>>>,
    in_vectors: bool,
) -> Option<Seq<Seq<u8>>>
    decreases lines.len(),
{
    if in_vectors || lines.len() == 0 {
        cur
    } else {
        let l = lines[0];
        if l.len() == 0 {
            cur
        } else if l[0] == "SV".spec_bytes() {
            cur
        } else if l[0] == key {
            scan_tokens_opt(lines.drop_first(), key, Some(l.drop_first()), false)
        } else {
            scan_tokens_opt(lines.drop_first(), key, cur, false)
        }
    }
}

/// The well-formed numbers among a line's value tokens, malformed ones
/// dropped, as libSVM's loader does.
pub open spec fn spec_i32_tail(tokens: Seq<Seq<u8>>) -> Seq<i32>
    decreases tokens.len(),
{
    if tokens.len() == 0 {
        Seq::empty()
    } else {
        let prefix = spec_i32_tail(tokens.drop_last());
        match spec_parse_i32(tokens.last()) {
            Some(v) => prefix.push(v),
            None => prefix,
        }
    }
}

/// The well-formed counts among a line's value tokens.
pub open spec fn spec_u32_tail(tokens: Seq<Seq<u8>>) -> Seq<u32>
    decreases tokens.len(),
{
    if tokens.len() == 0 {
        Seq::empty()
    } else {
        let prefix = spec_u32_tail(tokens.drop_last());
        match spec_parse_u32(tokens.last()) {
            Some(v) => prefix.push(v),
            None => prefix,
        }
    }
}

/// The parsed labels of the last header line naming `key`.
pub open spec fn scan_i32s(
    lines: Seq<Seq<Seq<u8>>>,
    key: Seq<u8>,
    cur: Seq<i32>,
    in_vectors: bool,
) -> Seq<i32>
    decreases lines.len(),
{
    if in_vectors || lines.len() == 0 {
        cur
    } else {
        let l = lines[0];
        if l.len() == 0 {
            cur
        } else if l[0] == "SV".spec_bytes() {
            cur
        } else if l[0] == key {
            scan_i32s(lines.drop_first(), key, spec_i32_tail(l.drop_first()), false)
        } else {
            scan_i32s(lines.drop_first(), key, cur, false)
        }
    }
}

/// The parsed counts of the last header line naming `key`.
pub open spec fn scan_u32s(
    lines: Seq<Seq<Seq<u8>>>,
    key: Seq<u8>,
    cur: Seq<u32>,
    in_vectors: bool,
) -> Seq<u32>
    decreases lines.len(),
{
    if in_vectors || lines.len() == 0 {
        cur
    } else {
        let l = lines[0];
        if l.len() == 0 {
            cur
        } else if l[0] == "SV".spec_bytes() {
            cur
        } else if l[0] == key {
            scan_u32s(lines.drop_first(), key, spec_u32_tail(l.drop_first()), false)
        } else {
            scan_u32s(lines.drop_first(), key, cur, false)
        }
    }
}

/// The first colon of a token at or behind position `from`.
pub open spec fn spec_find_colon(t: Seq<u8>, from: int) -> Option<int>
    recommends
        0 <= from <= t.len(),
    decreases t.len() - from,
{
    if from < 0 || from >= t.len() {
        None
    } else if t[from] == 58 {
        Some(from)
    } else {
        spec_find_colon(t, from + 1)
    }
}

/// The parse of one support-vector line: tokens without a colon become
/// coefficients; a token with a colon becomes an `(index, value)` attribute
/// when its index part is a decimal number (the value runs from behind the
/// first colon to the second colon or the end), and is dropped otherwise.
pub open spec fn spec_sv(tokens: Seq<Seq<u8>>) -> (Seq<Seq<u8>>, Seq<(u32, Seq<u8>)>)
    decreases tokens.len(),
{
    if tokens.len() == 0 {
        (Seq::empty(), Seq::empty())
    } else {
        let prev = spec_sv(tokens.drop_last());
        let t = tokens.last();
        match spec_find_colon(t, 0) {
            None => (prev.0.push(t), prev.1),
            Some(p) => match spec_parse_u32(t.take(p)) {
                None => prev,
                Some(index) => {
                    let end = match spec_find_colon(t, p + 1) {
                        Some(q) => q,
                        None => t.len() as int,
                    };
                    (prev.0, prev.1.push((index, t.subrange(p + 1, end))))
                },
            },
        }
    }
}

/// The parsed support-vector rows: every line after the `SV` separator and
/// before the first empty line.
pub open spec fn scan_vectors(
    lines: Seq<Seq<Seq<u8>>>,
    cur: Seq<(Seq<Seq<u8>>, Seq<(u32, Seq<u8>)>)>,
    in_vectors: bool,
) -> Seq<(Seq<Seq<u8>>, Seq<(u32, Seq<u8>)>)>
    decreases lines.len(),
{
    if lines.len() == 0 {
        cur
    } else {
        let l = lines[0];
        if l.len() == 0 {
            cur
        } else if in_vectors {
            scan_vectors(lines.drop_first(), cur.push(spec_sv(l)), true)
        } else if l[0] == "SV".spec_bytes() {
            scan_vectors(lines.drop_first(), cur, true)
        } else {
            scan_vectors(lines.drop_first(), cur, false)
        }
    }
}

impl ModelFile {
    /// Wraps an already-built header and vector list.
    pub fn new(header: Header, vectors: Vec<SupportVector>) -> (r: Self)
        ensures
            r.header == header,
            r.vectors == vectors,
    {
        ModelFile { header, vectors }
    }

    /// The parsed header block.
    pub fn header(&self) -> (r: &Header)
        ensures
            r == &self.header,
    {
        &self.header
    }

    /// The parsed support-vector rows.
    pub fn vectors(&self) -> (r: &Vec<SupportVector>)
        ensures
            r == &self.vectors,
    {
        &self.vectors
    }

    /// Parses the text of a libSVM model file.
    ///
    /// The text is split into whitespace-separated byte tokens, line by
    /// line, up to the first empty line. Until the `SV` separator, a
    /// `key value …` line fills the header field named by its first token,
    /// a later line overwriting an earlier one; unknown keys are ignored
    /// defensively. Every line after the separator is a support-vector row.
    /// The only error is [`Error::MissingRequiredAttribute`]: a header line
    /// whose key demands a value token carries none, or one of `svm_type`,
    /// `kernel_type`, `nr_class`, `total_sv` is absent or malformed at the
    /// end. Kernel parameters, counts and attribute order are validated by
    /// the SVM loaders, which report the specific error.
    pub fn parse(input: &str) -> (r: Result<ModelFile, Error>)
        ensures
            ({
                let lv = token_lines(input.spec_bytes());
                &&& (r is Err <==> parse_aborts(lv, false) || scan_value(
                    lv,
                    "svm_type".spec_bytes(),
                    None,
                    false,
                ) is None || scan_value(lv, "kernel_type".spec_bytes(), None, false) is None
                    || scan_u32_value(lv, "nr_class".spec_bytes(), None, false) is None
                    || scan_u32_value(lv, "total_sv".spec_bytes(), None, false) is None)
                &&& (r matches Err(e) ==> e matches Error::MissingRequiredAttribute)
                &&& (r matches Ok(m) ==> {
                    &&& Some(m.header.svm_type@) == scan_value(
                        lv,
                        "svm_type".spec_bytes(),
                        None,
                        false,
                    )
                    &&& Some(m.header.kernel_type@) == scan_value(
                        lv,
                        "kernel_type".spec_bytes(),
                        None,
                        false,
                    )
                    &&& opt_token_view(m.header.gamma) == scan_value(
                        lv,
                        "gamma".spec_bytes(),
                        None,
                        false,
                    )
                    &&& opt_token_view(m.header.coef0) == scan_value(
                        lv,
                        "coef0".spec_bytes(),
                        None,
                        false,
                    )
                    &&& m.header.degree == scan_u32_value(lv, "degree".spec_bytes(), None, false)
                    &&& Some(m.header.nr_class) == scan_u32_value(
                        lv,
                        "nr_class".spec_bytes(),
                        None,
                        false,
                    )
                    &&& Some(m.header.total_sv) == scan_u32_value(
                        lv,
                        "total_sv".spec_bytes(),
                        None,
                        false,
                    )
                    &&& tokens_view(m.header.rho@) == scan_tokens(
                        lv,
                        "rho".spec_bytes(),
                        Seq::empty(),
                        false,
                    )
                    &&& m.header.label@ == scan_i32s(lv, "label".spec_bytes(), Seq::empty(), false)
                    &&& m.header.nr_sv@ == scan_u32s(lv, "nr_sv".spec_bytes(), Seq::empty(), false)
                    &&& opt_tokens_view(m.header.prob_a) == scan_tokens_opt(
                        lv,
                        "probA".spec_bytes(),
                        None,
                        false,
                    )
                    &&& opt_tokens_view(m.header.prob_b) == scan_tokens_opt(
                        lv,
                        "probB".spec_bytes(),
                        None,
                        false,
                    )
                    &&& svs_view(m.vectors@) == scan_vectors(lv, Seq::empty(), false)
                })
            }),
    {
        let lines = tokenize(input);
        let ghost lv = token_lines(input.spec_bytes());

        let mut svm_type: Option<Vec<u8>> = None;
        let mut kernel_type: Option<Vec<u8>> = None;
        let mut gamma: Option<Vec<u8>> = None;
        let mut coef0: Option<Vec<u8>> = None;
        let mut degree: Option<u32> = None;
        let mut nr_class: Option<u32> = None;
        let mut total_sv: Option<u32> = None;
        let mut rho: Vec<Vec<u8>> = Vec::new();
        let mut label: Vec<i32> = Vec::new();
        let mut prob_a: Option<Vec<Vec<u8>>> = None;
        let mut prob_b: Option<Vec<Vec<u8>>> = None;
        let mut nr_sv: Vec<u32> = Vec::new();
        let mut vectors: Vec<SupportVector> = Vec::new();
        let mut in_vectors = false;

        let n_lines = lines.len();
        proof {
            assert(lv.skip(0) =~= lv);
            assert(tokens_view(rho@) =~= Seq::<Seq<u8>>::empty());
            assert(svs_view(vectors@) =~= Seq::<(Seq<Seq<u8>>, Seq<(u32, Seq<u8>)>)>::empty());
        }
        let mut li: usize = 0;
        let mut stopped = false;
        while li < n_lines && !stopped
            invariant
                n_lines == lines@.len(),
                li <= n_lines,
                lv == lines_view(lines@),
                lv == token_lines(input.spec_bytes()),
                stopped ==> li < n_lines && lv.skip(li as int)[0].len() == 0,
                scan_value(
                    lv.skip(li as int),
                    "svm_type".spec_bytes(),
                    opt_token_view(svm_type),
                    in_vectors,
                ) == scan_value(lv, "svm_type".spec_bytes(), None, false),
                scan_value(
                    lv.skip(li as int),
                    "kernel_type".spec_bytes(),
                    opt_token_view(kernel_type),
                    in_vectors,
                ) == scan_value(lv, "kernel_type".spec_bytes(), None, false),
                scan_value(
                    lv.skip(li as int),
                    "gamma".spec_bytes(),
                    opt_token_view(gamma),
                    in_vectors,
                ) == scan_value(lv, "gamma".spec_bytes(), None, false),
                scan_value(
                    lv.skip(li as int),
                    "coef0".spec_bytes(),
                    opt_token_view(coef0),
                    in_vectors,
                ) == scan_value(lv, "coef0".spec_bytes(), None, false),
                scan_u32_value(lv.skip(li as int), "degree".spec_bytes(), degree, in_vectors)
                    == scan_u32_value(lv, "degree".spec_bytes(), None, false),
                scan_u32_value(lv.skip(li as int), "nr_class".spec_bytes(), nr_class, in_vectors)
                    == scan_u32_value(lv, "nr_class".spec_bytes(), None, false),
                scan_u32_value(lv.skip(li as int), "total_sv".spec_bytes(), total_sv, in_vectors)
                    == scan_u32_value(lv, "total_sv".spec_bytes(), None, false),
                scan_tokens(lv.skip(li as int), "rho".spec_bytes(), tokens_view(rho@), in_vectors)
                    == scan_tokens(lv, "rho".spec_bytes(), Seq::empty(), false),
                scan_i32s(lv.skip(li as int), "label".spec_bytes(), label@, in_vectors)
                    == scan_i32s(lv, "label".spec_bytes(), Seq::empty(), false),
                scan_u32s(lv.skip(li as int), "nr_sv".spec_bytes(), nr_sv@, in_vectors)
                    == scan_u32s(lv, "nr_sv".spec_bytes(), Seq::empty(), false),
                scan_tokens_opt(
                    lv.skip(li as int),
                    "probA".spec_bytes(),
                    opt_tokens_view(prob_a),
                    in_vectors,
                ) == scan_tokens_opt(lv, "probA".spec_bytes(), None, false),
                scan_tokens_opt(
                    lv.skip(li as int),
                    "probB".spec_bytes(),
                    opt_tokens_view(prob_b),
                    in_vectors,
                ) == scan_tokens_opt(lv, "probB".spec_bytes(), None, false),
                scan_vectors(lv.skip(li as int), svs_view(vectors@), in_vectors) == scan_vectors(
                    lv,
                    Seq::empty(),
                    false,
                ),
                parse_aborts(lv.skip(li as int), in_vectors) == parse_aborts(lv, false),
            decreases n_lines - li + (if stopped { 0int } else { 1int }),
        {
            let tokens = &lines[li];
            let ghost l = lv.skip(li as int)[0];
            proof {
                assert(l == tokens_view(tokens@));
                assert(lv.skip(li as int).drop_first() =~= lv.skip(li as int + 1));
            }
            let n_tokens = tokens.len();
            if n_tokens == 0 {
                // An empty line ends the file.
                stopped = true;
                continue ;
            }
            if in_vectors {
                let ghost old_svs = svs_view(vectors@);
                let sv = parse_sv_line(tokens);
                vectors.push(sv);
                proof {
                    assert(svs_view(vectors@) =~= old_svs.push(sv_view(sv)));
                    assert(sv_view(sv) == spec_sv(l));
                    assert(scan_vectors(lv.skip(li as int), old_svs, true) == scan_vectors(
                        lv.skip(li as int + 1),
                        old_svs.push(spec_sv(l)),
                        true,
                    ));
                }
                li += 1;
                continue ;
            }
            let first = &tokens[0];
            proof {
                assert(first@ == l[0]);
            }
            let is_sv = bytes_eq(first.as_slice(), "SV".as_bytes());
            if is_sv {
                // Header separator; the rows follow.
                in_vectors = true;
            }
            if !is_sv && bytes_eq(first.as_slice(), "svm_type".as_bytes()) {
                if n_tokens < 2 {
                    proof {
                        assert(is_value_key(l[0]));
                        assert(parse_aborts(lv.skip(li as int), false));
                    }
                    return Err(Error::MissingRequiredAttribute);
                }
                svm_type = Some(copy_token(&tokens[1]));
            }
            if !is_sv && bytes_eq(first.as_slice(), "kernel_type".as_bytes()) {
                if n_tokens < 2 {
                    proof {
                        assert(is_value_key(l[0]));
                        assert(parse_aborts(lv.skip(li as int), false));
                    }
                    return Err(Error::MissingRequiredAttribute);
                }
                kernel_type = Some(copy_token(&tokens[1]));
            }
            if !is_sv && bytes_eq(first.as_slice(), "gamma".as_bytes()) {
                if n_tokens < 2 {
                    proof {
                        assert(is_value_key(l[0]));
                        assert(parse_aborts(lv.skip(li as int), false));
                    }
                    return Err(Error::MissingRequiredAttribute);
                }
                gamma = Some(copy_token(&tokens[1]));
            }
            if !is_sv && bytes_eq(first.as_slice(), "coef0".as_bytes()) {
                if n_tokens < 2 {
                    proof {
                        assert(is_value_key(l[0]));
                        assert(parse_aborts(lv.skip(li as int), false));
                    }
                    return Err(Error::MissingRequiredAttribute);
                }
                coef0 = Some(copy_token(&tokens[1]));
            }
            if !is_sv && bytes_eq(first.as_slice(), "degree".as_bytes()) {
                if n_tokens < 2 {
                    proof {
                        assert(is_value_key(l[0]));
                        assert(parse_aborts(lv.skip(li as int), false));
                    }
                    return Err(Error::MissingRequiredAttribute);
                }
                degree = parse_u32_token(tokens[1].as_slice());
            }
            if !is_sv && bytes_eq(first.as_slice(), "nr_class".as_bytes()) {
                if n_tokens < 2 {
                    proof {
                        assert(is_value_key(l[0]));
                        assert(parse_aborts(lv.skip(li as int), false));
                    }
                    return Err(Error::MissingRequiredAttribute);
                }
                nr_class = parse_u32_token(tokens[1].as_slice());
            }
            if !is_sv && bytes_eq(first.as_slice(), "total_sv".as_bytes()) {
                if n_tokens < 2 {
                    proof {
                        assert(is_value_key(l[0]));
                        assert(parse_aborts(lv.skip(li as int), false));
                    }
                    return Err(Error::MissingRequiredAttribute);
                }
                total_sv = parse_u32_token(tokens[1].as_slice());
            }
            if !is_sv && bytes_eq(first.as_slice(), "rho".as_bytes()) {
                rho = clone_tail(tokens);
                proof {
                    assert(tokens_view(rho@) =~= l.drop_first());
                }
            }
            if !is_sv && bytes_eq(first.as_slice(), "label".as_bytes()) {
                label = parse_i32_tail(tokens);
                proof {
                    assert(tokens_view(tokens@).drop_first() =~= l.drop_first());
                }
            }
            if !is_sv && bytes_eq(first.as_slice(), "nr_sv".as_bytes()) {
                nr_sv = parse_u32_tail(tokens);
                proof {
                    assert(tokens_view(tokens@).drop_first() =~= l.drop_first());
                }
            }
            if !is_sv && bytes_eq(first.as_slice(), "probA".as_bytes()) {
                let t = clone_tail(tokens);
                proof {
                    assert(tokens_view(t@) =~= l.drop_first());
                }
                prob_a = Some(t);
            }
            if !is_sv && bytes_eq(first.as_slice(), "probB".as_bytes()) {
                let t = clone_tail(tokens);
                proof {
                    assert(tokens_view(t@) =~= l.drop_first());
                }
                prob_b = Some(t);
            }
            li += 1;
        }
        proof {
            if !stopped {
                assert(lv.skip(li as int) =~= Seq::<Seq<Seq<u8>>>::empty());
            }
        }

        let svm_type = match svm_type {
            Some(t) => t,
            None => {
                return Err(Error::MissingRequiredAttribute);
            },
        };
        let kernel_type = match kernel_type {
            Some(t) => t,
            None => {
                return Err(Error::MissingRequiredAttribute);
            },
        };
        let nr_class = match nr_class {
            Some(t) => t,
            None => {
                return Err(Error::MissingRequiredAttribute);
            },
        };
        let total_sv = match total_sv {
            Some(t) => t,
            None => {
                return Err(Error::MissingRequiredAttribute);
            },
        };
        Ok(
            ModelFile {
                header: Header {
                    svm_type,
                    kernel_type,
                    gamma,
                    coef0,
                    degree,
                    nr_class,
                    total_sv,
                    rho,
                    label,
                    prob_a,
                    prob_b,
                    nr_sv,
                },
                vectors,
            },
        )
    }
}

/// Reads one support-vector line.
fn parse_sv_line(tokens: &Vec<Vec<u8>>) -> (sv: SupportVector)
    ensures
        sv_view(sv) == spec_sv(tokens_view(tokens@)),
{
    let ghost tv = tokens_view(tokens@);
    let mut coefs: Vec<Vec<u8>> = Vec::new();
    let mut features: Vec<Attribute> = Vec::new();
    let n = tokens.len();
    let mut t: usize = 0;
    while t < n
        invariant
            n == tokens@.len(),
            tv == tokens_view(tokens@),
            t <= n,
            (tokens_view(coefs@), features@.map_values(|a: Attribute| (a.index, a.value@)))
                == spec_sv(tv.take(t as int)),
        decreases n - t,
    {
        let token = &tokens[t];
        proof {
            assert(tv.take(t as int + 1).drop_last() =~= tv.take(t as int));
            assert(tv.take(t as int + 1).last() == token@);
        }
        match find_colon(token, 0) {
            None => {
                coefs.push(copy_token(token));
                proof {
                    assert(tokens_view(coefs@) =~= tokens_view(coefs@.drop_last()).push(token@));
                }
            },
            Some(p) => {
                let index_part = slice_to_vec(&token.as_slice()[0..p]);
                proof {
                    assert(index_part@ =~= token@.take(p as int));
                }
                match parse_u32_token(index_part.as_slice()) {
                    None => {
                        // libSVM's loader drops attributes whose index part
                        // is not a number.
                    },
                    Some(index) => {
                        let len = token.len();
                        let value_end = match find_colon(token, p + 1) {
                            Some(q) => q,
                            None => len,
                        };
                        let value = slice_to_vec(&token.as_slice()[p + 1..value_end]);
                        proof {
                            assert(value@ =~= token@.subrange(p + 1, value_end as int));
                        }
                        features.push(Attribute { index, value });
                        proof {
                            assert(features@.map_values(|a: Attribute| (a.index, a.value@))
                                =~= features@.drop_last().map_values(
                                |a: Attribute| (a.index, a.value@),
                            ).push((index, value@)));
                        }
                    },
                }
            },
        }
        t += 1;
    }
    proof {
        assert(tv.take(n as int) =~= tv);
    }
    SupportVector { coefs, features }
}

/// Clones every token behind the line's key.
fn clone_tail(tokens: &Vec<Vec<u8>>) -> (r: Vec<Vec<u8>>)
    requires
        tokens@.len() >= 1,
    ensures
        r@.len() == tokens@.len() - 1,
        forall|k: int| 0 <= k < r@.len() ==> r@[k]@ == tokens@[k + 1]@,
{
    let mut out: Vec<Vec<u8>> = Vec::new();
    let n = tokens.len();
    let mut t: usize = 1;
    while t < n
        invariant
            n == tokens@.len(),
            1 <= t <= n,
            out@.len() == t - 1,
            forall|k: int| 0 <= k < out@.len() ==> out@[k]@ == tokens@[k + 1]@,
        decreases n - t,
    {
        out.push(copy_token(&tokens[t]));
        t += 1;
    }
    out
}

/// Parses every token behind the line's key as an `i32`, dropping malformed
/// ones, as libSVM's loader does.
fn parse_i32_tail(tokens: &Vec<Vec<u8>>) -> (r: Vec<i32>)
    requires
        tokens@.len() >= 1,
    ensures
        r@ == spec_i32_tail(tokens_view(tokens@).drop_first()),
{
    let ghost tail = tokens_view(tokens@).drop_first();
    let mut out: Vec<i32> = Vec::new();
    let n = tokens.len();
    let mut t: usize = 1;
    while t < n
        invariant
            n == tokens@.len(),
            tail == tokens_view(tokens@).drop_first(),
            tail.len() == n - 1,
            forall|k: int| 0 <= k < tail.len() ==> tail[k] == tokens@[k + 1]@,
            1 <= t <= n,
            out@ == spec_i32_tail(tail.take(t - 1)),
        decreases n - t,
    {
        proof {
            assert(tail.take(t as int).drop_last() =~= tail.take(t - 1));
            assert(tail.take(t as int).last() == tokens@[t as int]@);
        }
        if let Some(v) = parse_i32_token(tokens[t].as_slice()) {
            out.push(v);
        }
        t += 1;
    }
    proof {
        assert(tail.take(n - 1) =~= tail);
    }
    out
}

/// Parses every token behind the line's key as a `u32`, dropping malformed
/// ones, as libSVM's loader does.
fn parse_u32_tail(tokens: &Vec<Vec<u8>>) -> (r: Vec<u32>)
    requires
        tokens@.len() >= 1,
    ensures
        r@ == spec_u32_tail(tokens_view(tokens@).drop_first()),
{
    let ghost tail = tokens_view(tokens@).drop_first();
    let mut out: Vec<u32> = Vec::new();
    let n = tokens.len();
    let mut t: usize = 1;
    while t < n
        invariant
            n == tokens@.len(),
            tail == tokens_view(tokens@).drop_first(),
            tail.len() == n - 1,
            forall|k: int| 0 <= k < tail.len() ==> tail[k] == tokens@[k + 1]@,
            1 <= t <= n,
            out@ == spec_u32_tail(tail.take(t - 1)),
        decreases n - t,
    {
        proof {
            assert(tail.take(t as int).drop_last() =~= tail.take(t - 1));
            assert(tail.take(t as int).last() == tokens@[t as int]@);
        }
        if let Some(v) = parse_u32_token(tokens[t].as_slice()) {
            out.push(v);
        }
        t += 1;
    }
    proof {
        assert(tail.take(n - 1) =~= tail);
    }
    out
}

/// Finds the first colon of a token at or behind position `from`, if any.
fn find_colon(tok: &Vec<u8>, from: usize) -> (r: Option<usize>)
    requires
        from <= tok@.len(),
    ensures
        match r {
            Some(p) => Some(p as int) == spec_find_colon(tok@, from as int) && from <= p
                < tok@.len(),
            None => spec_find_colon(tok@, from as int) is None,
        },
{
    let n = tok.len();
    let mut i: usize = from;
    while i < n
        invariant
            n == tok@.len(),
            from <= i <= n,
            spec_find_colon(tok@, from as int) == spec_find_colon(tok@, i as int),
        decreases n - i,
    {
        if tok[i] == 58 {
            return Some(i);
        }
        i += 1;
    }
    None
}

/// Splits the text into token lines at the byte level; every separator of
/// the format is ASCII, so any UTF-8 text splits soundly.
fn tokenize(input: &str) -> (lines: Vec<Vec<Vec<u8>>>)
    ensures
        lines_view(lines@) == token_lines(input.spec_bytes()),
{
    let bytes = input.as_bytes();
    let n = bytes.len();
    let mut lines: Vec<Vec<Vec<u8>>> = Vec::new();
    let mut current: Vec<Vec<u8>> = Vec::new();
    let mut token_start: usize = 0;
    let mut in_token = false;
    let mut i: usize = 0;
    proof {
        assert(bytes@.subrange(0, n as int) =~= bytes@);
        assert(tokens_view(current@) =~= Seq::<Seq<u8>>::empty());
        assert(lines_view(lines@) =~= Seq::<Seq<Seq<u8>>>::empty());
    }
    while i < n
        invariant
            bytes@ == input.spec_bytes(),
            n == bytes@.len(),
            i <= n,
            in_token ==> token_start < i,
            spec_scan(
                bytes@.subrange(i as int, n as int),
                if in_token {
                    bytes@.subrange(token_start as int, i as int)
                } else {
                    Seq::empty()
                },
                tokens_view(current@),
                lines_view(lines@),
            ) == token_lines(bytes@),
        decreases n - i,
    {
        let ghost pre_rest = bytes@.subrange(i as int, n as int);
        let ghost pre_tok: Seq<u8> = if in_token {
            bytes@.subrange(token_start as int, i as int)
        } else {
            Seq::empty()
        };
        let ghost pre_line = tokens_view(current@);
        let ghost pre_acc = lines_view(lines@);
        let ghost line2: Seq<Seq<u8>> = if pre_tok.len() > 0 {
            pre_line.push(pre_tok)
        } else {
            pre_line
        };
        proof {
            assert(pre_rest.len() > 0);
            assert(pre_rest[0] == bytes@[i as int]);
            assert(pre_rest.drop_first() =~= bytes@.subrange(i as int + 1, n as int));
            assert(in_token <==> pre_tok.len() > 0);
        }
        let b = bytes[i];
        if b == 10 {
            if in_token {
                let tok = slice_to_vec(&bytes[token_start..i]);
                current.push(tok);
                in_token = false;
                proof {
                    assert(tokens_view(current@) =~= pre_line.push(pre_tok));
                }
            }
            proof {
                assert(tokens_view(current@) =~= line2);
            }
            lines.push(current);
            current = Vec::new();
            proof {
                assert(lines_view(lines@) =~= pre_acc.push(line2));
                assert(tokens_view(current@) =~= Seq::<Seq<u8>>::empty());
                assert(spec_scan(pre_rest, pre_tok, pre_line, pre_acc) == spec_scan(
                    pre_rest.drop_first(),
                    Seq::empty(),
                    Seq::empty(),
                    pre_acc.push(line2),
                ));
            }
        } else if b == 32 || b == 9 || b == 13 {
            if in_token {
                let tok = slice_to_vec(&bytes[token_start..i]);
                current.push(tok);
                in_token = false;
                proof {
                    assert(tokens_view(current@) =~= pre_line.push(pre_tok));
                }
            }
            proof {
                assert(tokens_view(current@) =~= line2);
                assert(spec_scan(pre_rest, pre_tok, pre_line, pre_acc) == spec_scan(
                    pre_rest.drop_first(),
                    Seq::empty(),
                    line2,
                    pre_acc,
                ));
            }
        } else {
            if !in_token {
                token_start = i;
                in_token = true;
                proof {
                    assert(bytes@.subrange(i as int, i as int) =~= Seq::<u8>::empty());
                }
            }
            proof {
                assert(bytes@.subrange(token_start as int, i as int + 1) =~= bytes@.subrange(
                    token_start as int,
                    i as int,
                ).push(bytes@[i as int]));
                assert(bytes@.subrange(token_start as int, i as int + 1) =~= pre_tok.push(
                    bytes@[i as int],
                ));
                assert(spec_scan(pre_rest, pre_tok, pre_line, pre_acc) == spec_scan(
                    pre_rest.drop_first(),
                    pre_tok.push(bytes@[i as int]),
                    pre_line,
                    pre_acc,
                ));
            }
        }
        i += 1;
    }
    proof {
        assert(bytes@.subrange(n as int, n as int) =~= Seq::<u8>::empty());
    }
    let ghost pre_tok: Seq<u8> = if in_token {
        bytes@.subrange(token_start as int, n as int)
    } else {
        Seq::empty()
    };
    let ghost pre_line = tokens_view(current@);
    let ghost pre_acc = lines_view(lines@);
    proof {
        assert(in_token <==> pre_tok.len() > 0);
    }
    if in_token {
        let tok = slice_to_vec(&bytes[token_start..n]);
        current.push(tok);
        proof {
            assert(tokens_view(current@) =~= pre_line.push(pre_tok));
        }
    }
    if current.len() > 0 {
        lines.push(current);
        proof {
            assert(lines_view(lines@) =~= pre_acc.push(
                if pre_tok.len() > 0 {
                    pre_line.push(pre_tok)
                } else {
                    pre_line
                },
            ));
        }
    } else {
        proof {
            assert(tokens_view(current@).len() == 0);
            assert(pre_tok.len() == 0);
            assert(pre_line.len() == 0);
        }
    }
    lines
}

} // verus!
