use vstd::prelude::*;

verus! {

/// True when `b` is the byte of a decimal digit.
pub open spec fn is_digit(b: u8) -> bool {
    48 <= b <= 57
}

/// The numeric value of the digit byte `b`.
pub open spec fn digit_val(b: u8) -> int {
    b - 48
}

/// The number a sequence of decimal digit bytes denotes.
pub open spec fn digits_value(s: Seq<u8>) -> int
    decreases s.len(),
{
    if s.len() == 0 {
        0
    } else {
        digits_value(s.drop_last()) * 10 + digit_val(s.last())
    }
}

/// The digit part of an integer token: everything behind an optional sign.
pub open spec fn unsigned_body(s: Seq<u8>) -> Seq<u8> {
    if s.len() > 0 && (s[0] == 43 || s[0] == 45) {
        s.drop_first()
    } else {
        s
    }
}

/// True when `s` is a well-formed decimal token for a `u32`: an optional
/// leading `+`, then one or more digits, denoting a value that fits.
pub open spec fn is_u32_token(s: Seq<u8>) -> bool {
    &&& s.len() > 0
    &&& s[0] != 45
    &&& unsigned_body(s).len() > 0
    &&& (forall|k: int|
        0 <= k < unsigned_body(s).len() ==> is_digit(#[trigger] unsigned_body(s)[k]))
    &&& digits_value(unsigned_body(s)) <= u32::MAX
}

/// The value a well-formed `u32` token denotes.
pub open spec fn u32_token_value(s: Seq<u8>) -> int {
    digits_value(unsigned_body(s))
}

/// The parse of a `u32` token: its value when well formed, nothing
/// otherwise.
pub open spec fn spec_parse_u32(s: Seq<u8>) -> Option<u32> {
    if is_u32_token(s) {
        Some(u32_token_value(s) as u32)
    } else {
        None
    }
}

/// The signed value an integer token denotes.
pub open spec fn signed_value(s: Seq<u8>) -> int {
    if s.len() > 0 && s[0] == 45 {
        -digits_value(unsigned_body(s))
    } else {
        digits_value(unsigned_body(s))
    }
}

/// True when `s` is a well-formed decimal token for an `i32`: an optional
/// sign, then one or more digits, denoting a value that fits.
pub open spec fn is_i32_token(s: Seq<u8>) -> bool {
    &&& unsigned_body(s).len() > 0
    &&& (forall|k: int|
        0 <= k < unsigned_body(s).len() ==> is_digit(#[trigger] unsigned_body(s)[k]))
    &&& i32::MIN <= signed_value(s) <= i32::MAX
}

/// The parse of an `i32` token: its value when well formed, nothing
/// otherwise.
pub open spec fn spec_parse_i32(s: Seq<u8>) -> Option<i32> {
    if is_i32_token(s) {
        Some(signed_value(s) as i32)
    } else {
        None
    }
}

proof fn lemma_digits_value_nonneg(s: Seq<u8>)
    requires
        forall|k: int| 0 <= k < s.len() ==> is_digit(#[trigger] s[k]),
    ensures
        digits_value(s) >= 0,
    decreases s.len(),
{
    if s.len() > 0 {
        assert(forall|k: int|
            0 <= k < s.drop_last().len() ==> is_digit(#[trigger] s.drop_last()[k]));
        lemma_digits_value_nonneg(s.drop_last());
    }
}

/// A digit string denotes at least as much as any of its prefixes.
proof fn lemma_digits_value_prefix(s: Seq<u8>, k: int)
    requires
        forall|a: int| 0 <= a < s.len() ==> is_digit(#[trigger] s[a]),
        0 <= k <= s.len(),
    ensures
        digits_value(s.take(k)) <= digits_value(s),
    decreases s.len(),
{
    if k < s.len() {
        assert(forall|a: int|
            0 <= a < s.drop_last().len() ==> is_digit(#[trigger] s.drop_last()[a]));
        assert(s.take(k) =~= s.drop_last().take(k));
        lemma_digits_value_prefix(s.drop_last(), k);
        lemma_digits_value_nonneg(s.drop_last());
        assert(digits_value(s.drop_last()) * 10 >= digits_value(s.drop_last())) by (nonlinear_arith)
            requires
                digits_value(s.drop_last()) >= 0,
        ;
    } else {
        assert(s.take(k) =~= s);
    }
}

/// Parses a decimal `u32` token: an optional leading `+` followed by digits.
/// Returns `None` on any other shape and on overflow.
pub fn parse_u32_token(s: &[u8]) -> (r: Option<u32>)
    ensures
        r == spec_parse_u32(s@),
{
    let n = s.len();
    if n == 0 {
        return None;
    }
    let first = s[0];
    if first == 45 {
        return None;
    }
    let start: usize = if first == 43 {
        1
    } else {
        0
    };
    let ghost body = unsigned_body(s@);
    proof {
        assert(body.len() == n - start);
        assert(forall|k: int| 0 <= k < body.len() ==> body[k] == s@[k + start]);
    }
    if n == start {
        return None;
    }
    let mut acc: u32 = 0;
    let mut i: usize = start;
    while i < n
        invariant
            n == s@.len(),
            start <= i <= n,
            start <= 1,
            start < n,
            body == unsigned_body(s@),
            body.len() == n - start,
            forall|k: int| 0 <= k < body.len() ==> body[k] == s@[k + start],
            forall|k: int| 0 <= k < i - start ==> is_digit(#[trigger] body[k]),
            acc == digits_value(body.take(i - start)),
        decreases n - i,
    {
        let b = s[i];
        if b < 48 || b > 57 {
            proof {
                assert(!is_digit(body[i - start]));
            }
            return None;
        }
        let d: u32 = (b - 48) as u32;
        proof {
            assert(body.take(i - start + 1).drop_last() =~= body.take(i - start));
            assert(body.take(i - start + 1).last() == body[i - start]);
            assert(digit_val(body[i - start]) == d);
            lemma_digits_value_nonneg(body.take(i - start));
        }
        if acc > (u32::MAX - d) / 10 {
            proof {
                assert(digits_value(body.take(i - start + 1)) == acc * 10 + d);
                assert(acc * 10 + d > u32::MAX) by (nonlinear_arith)
                    requires
                        acc > (u32::MAX - d) / 10,
                        0 <= d <= 9,
                        acc >= 0,
                ;
                assert(forall|k: int|
                    0 <= k < i - start + 1 ==> is_digit(#[trigger] body.take(i - start + 1)[k]));
                if is_u32_token(s@) {
                    lemma_digits_value_prefix(body, i - start + 1);
                }
            }
            return None;
        }
        acc = acc * 10 + d;
        i += 1;
    }
    proof {
        assert(body.take(n - start) =~= body);
    }
    Some(acc)
}

/// Parses a decimal `i32` token: an optional sign followed by digits.
/// Returns `None` on any other shape and on overflow.
pub fn parse_i32_token(s: &[u8]) -> (r: Option<i32>)
    ensures
        r == spec_parse_i32(s@),
{
    let n = s.len();
    if n == 0 {
        return None;
    }
    let first = s[0];
    let negative = first == 45;
    let start: usize = if first == 43 || first == 45 {
        1
    } else {
        0
    };
    let ghost body = unsigned_body(s@);
    proof {
        assert(body.len() == n - start);
        assert(forall|k: int| 0 <= k < body.len() ==> body[k] == s@[k + start]);
    }
    if n == start {
        return None;
    }
    let limit: u32 = if negative {
        2147483648
    } else {
        2147483647
    };
    let mut acc: u32 = 0;
    let mut i: usize = start;
    while i < n
        invariant
            n == s@.len(),
            start <= i <= n,
            start <= 1,
            start < n,
            negative == (s@[0] == 45),
            limit == if negative { 2147483648int } else { 2147483647int },
            body == unsigned_body(s@),
            body.len() == n - start,
            forall|k: int| 0 <= k < body.len() ==> body[k] == s@[k + start],
            forall|k: int| 0 <= k < i - start ==> is_digit(#[trigger] body[k]),
            acc == digits_value(body.take(i - start)),
            acc <= limit,
        decreases n - i,
    {
        let b = s[i];
        if b < 48 || b > 57 {
            proof {
                assert(!is_digit(body[i - start]));
            }
            return None;
        }
        let d: u32 = (b - 48) as u32;
        proof {
            assert(body.take(i - start + 1).drop_last() =~= body.take(i - start));
            assert(body.take(i - start + 1).last() == body[i - start]);
            assert(digit_val(body[i - start]) == d);
            lemma_digits_value_nonneg(body.take(i - start));
        }
        if acc > (limit - d) / 10 {
            proof {
                assert(digits_value(body.take(i - start + 1)) == acc * 10 + d);
                assert(acc * 10 + d > limit) by (nonlinear_arith)
                    requires
                        acc > (limit - d) / 10,
                        0 <= d <= 9,
                        acc >= 0,
                        limit >= 0,
                ;
                assert(forall|k: int|
                    0 <= k < i - start + 1 ==> is_digit(#[trigger] body.take(i - start + 1)[k]));
                if is_i32_token(s@) {
                    lemma_digits_value_prefix(body, i - start + 1);
                }
            }
            return None;
        }
        acc = acc * 10 + d;
        i += 1;
    }
    proof {
        assert(body.take(n - start) =~= body);
    }
    if negative {
        if acc == 2147483648 {
            Some(i32::MIN)
        } else {
            Some(0i32 - (acc as i32))
        }
    } else {
        Some(acc as i32)
    }
}

/// Copies a token.
pub(crate) fn copy_token(t: &Vec<u8>) -> (r: Vec<u8>)
    ensures
        r@ == t@,
{
    vstd::slice::slice_to_vec(t.as_slice())
}

/// Compares two byte strings.
pub fn bytes_eq(a: &[u8], b: &[u8]) -> (r: bool)
    ensures
        r == (a@ == b@),
{
    let na = a.len();
    let nb = b.len();
    if na != nb {
        proof {
            assert(a@.len() != b@.len());
        }
        return false;
    }
    let mut i: usize = 0;
    while i < na
        invariant
            na == a@.len(),
            na == b@.len(),
            i <= na,
            forall|k: int| 0 <= k < i ==> a@[k] == b@[k],
        decreases na - i,
    {
        if a[i] != b[i] {
            return false;
        }
        i += 1;
    }
    proof {
        assert(a@ =~= b@);
    }
    true
}

} // verus!
