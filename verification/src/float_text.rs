//! The decimal text of a floating-point constant, as `str::parse` accepts it.
use vstd::prelude::*;

verus! {

/// An ASCII decimal digit.
pub open spec fn is_digit(b: u8) -> bool {
    0x30 <= b <= 0x39
}

/// The byte with ASCII upper-case letters mapped to lower case.
pub open spec fn lower(b: u8) -> u8 {
    if 0x41 <= b <= 0x5a {
        (b + 0x20) as u8
    } else {
        b
    }
}

/// The text, ignoring ASCII case, equals `word` (given in lower case).
pub open spec fn equals_ignoring_case(text: Seq<u8>, word: Seq<u8>) -> bool {
    text.len() == word.len() && forall|i: int| 0 <= i < text.len() ==> lower(#[trigger] text[i])
        == word[i]
}

/// Where the exponent part starts: the first `e` or `E`, or the end.
pub open spec fn exponent_start(s: Seq<u8>) -> int
    decreases s.len(),
{
    if s.len() == 0 {
        0
    } else if lower(s[0]) == 0x65 {
        0
    } else {
        1 + exponent_start(s.skip(1))
    }
}

/// Digits with at most one `.` and at least one digit.
pub open spec fn is_mantissa(s: Seq<u8>) -> bool {
    &&& forall|i: int| 0 <= i < s.len() ==> is_digit(#[trigger] s[i]) || s[i] == 0x2e
    &&& forall|i: int, j: int| 0 <= i < j < s.len() && #[trigger] s[i] == 0x2e ==> #[trigger] s[j] != 0x2e
    &&& exists|i: int| 0 <= i < s.len() && is_digit(#[trigger] s[i])
}

/// What follows the `e` and the optional sign of an exponent part.
pub open spec fn exponent_digits(s: Seq<u8>) -> Seq<u8> {
    if s.len() > 1 && (s[1] == 0x2b || s[1] == 0x2d) {
        s.skip(2)
    } else {
        s.skip(1)
    }
}

/// Every byte is a decimal digit.
pub open spec fn all_digits_spec(s: Seq<u8>) -> bool {
    forall|i: int| 0 <= i < s.len() ==> is_digit(#[trigger] s[i])
}

/// Empty, or `e`/`E`, an optional sign and at least one digit.
pub open spec fn is_exponent(s: Seq<u8>) -> bool {
    s.len() == 0 || (lower(s[0]) == 0x65 && exponent_digits(s).len() > 0 && all_digits_spec(
        exponent_digits(s),
    ))
}

/// The text without a leading `+` or `-`.
pub open spec fn unsigned_part(s: Seq<u8>) -> Seq<u8> {
    if s.len() > 0 && (s[0] == 0x2b || s[0] == 0x2d) {
        s.skip(1)
    } else {
        s
    }
}

/// The grammar of `str::parse::<f64>`: an optional sign, then `inf`,
/// `infinity` or `nan` in any case, or a decimal number with an optional
/// exponent.
pub open spec fn is_float_text(s: Seq<u8>) -> bool {
    let body = unsigned_part(s);
    ||| equals_ignoring_case(body, seq![0x69u8, 0x6e, 0x66])
    ||| equals_ignoring_case(body, seq![0x69u8, 0x6e, 0x66, 0x69, 0x6e, 0x69, 0x74, 0x79])
    ||| equals_ignoring_case(body, seq![0x6eu8, 0x61, 0x6e])
    ||| is_mantissa(body.take(exponent_start(body))) && is_exponent(
        body.skip(exponent_start(body)),
    )
}

} // verus!

verus! {

fn lower_byte(b: u8) -> (r: u8)
    ensures
        r == lower(b),
{
    if 0x41 <= b && b <= 0x5a {
        b + 0x20
    } else {
        b
    }
}

proof fn lemma_exponent_start(s: Seq<u8>, k: int)
    requires
        0 <= k <= s.len(),
        forall|j: int| 0 <= j < k ==> lower(#[trigger] s[j]) != 0x65,
    ensures
        exponent_start(s) == k + exponent_start(s.skip(k)),
    decreases k,
{
    if k > 0 {
        assert(s.skip(1).skip(k - 1) =~= s.skip(k));
        assert forall|j: int| 0 <= j < k - 1 implies lower(#[trigger] s.skip(1)[j]) != 0x65 by {
            assert(s.skip(1)[j] == s[j + 1]);
        }
        lemma_exponent_start(s.skip(1), k - 1);
    } else {
        assert(s.skip(0) =~= s);
    }
}

/// Where the exponent part of `s` starts.
fn find_exponent(s: &[u8]) -> (k: usize)
    ensures
        k == exponent_start(s@),
        k <= s@.len(),
{
    let mut k: usize = 0;
    while k < s.len() && lower_byte(s[k]) != 0x65
        invariant
            k <= s@.len(),
            forall|j: int| 0 <= j < k ==> lower(#[trigger] s@[j]) != 0x65,
        decreases s@.len() - k,
    {
        k += 1;
    }
    proof {
        lemma_exponent_start(s@, k as int);
    }
    k
}

fn check_mantissa(s: &[u8]) -> (r: bool)
    ensures
        r == is_mantissa(s@),
{
    let mut i: usize = 0;
    let mut dot: Option<usize> = None;
    let mut digit: Option<usize> = None;
    while i < s.len()
        invariant
            i <= s@.len(),
            forall|j: int| 0 <= j < i ==> is_digit(#[trigger] s@[j]) || s@[j] == 0x2e,
            dot matches Some(d) ==> d < i && s@[d as int] == 0x2e,
            dot is None ==> forall|j: int| 0 <= j < i ==> #[trigger] s@[j] != 0x2e,
            dot matches Some(d) ==> forall|j: int| 0 <= j < i && j != d ==> #[trigger] s@[j]
                != 0x2e,
            digit matches Some(d) ==> d < i && is_digit(s@[d as int]),
            digit is None ==> forall|j: int| 0 <= j < i ==> !is_digit(#[trigger] s@[j]),
        decreases s@.len() - i,
    {
        let b = s[i];
        if b == 0x2e {
            if dot.is_some() {
                proof {
                    let d = dot->0 as int;
                    assert(s@[d] == 0x2e && s@[i as int] == 0x2e);
                }
                return false;
            }
            dot = Some(i);
        } else if 0x30 <= b && b <= 0x39 {
            digit = Some(i);
        } else {
            return false;
        }
        i += 1;
    }
    if digit.is_none() {
        return false;
    }
    proof {
        let d = digit->0 as int;
        assert(is_digit(s@[d]));
    }
    true
}

fn all_digits(s: &[u8]) -> (r: bool)
    ensures
        r == all_digits_spec(s@),
{
    let mut i: usize = 0;
    while i < s.len()
        invariant
            i <= s@.len(),
            forall|j: int| 0 <= j < i ==> is_digit(#[trigger] s@[j]),
        decreases s@.len() - i,
    {
        if !(0x30 <= s[i] && s[i] <= 0x39) {
            return false;
        }
        i += 1;
    }
    true
}

fn check_exponent(s: &[u8]) -> (r: bool)
    ensures
        r == is_exponent(s@),
{
    if s.len() == 0 {
        return true;
    }
    if lower_byte(s[0]) != 0x65 {
        return false;
    }
    let start: usize = if s.len() > 1 && (s[1] == 0x2b || s[1] == 0x2d) {
        2
    } else {
        1
    };
    let rest = vstd::slice::slice_subrange(s, start, s.len());
    assert(rest@ =~= exponent_digits(s@));
    rest.len() > 0 && all_digits(rest)
}

fn equals_word(s: &[u8], word: &[u8]) -> (r: bool)
    ensures
        r == equals_ignoring_case(s@, word@),
{
    if s.len() != word.len() {
        return false;
    }
    let mut i: usize = 0;
    while i < s.len()
        invariant
            i <= s@.len(),
            s@.len() == word@.len(),
            forall|j: int| 0 <= j < i ==> lower(#[trigger] s@[j]) == word@[j],
        decreases s@.len() - i,
    {
        if lower_byte(s[i]) != word[i] {
            return false;
        }
        i += 1;
    }
    true
}

/// Whether the bytes spell a floating-point number that `str::parse` accepts.
pub fn check_float_text(s: &[u8]) -> (r: bool)
    ensures
        r == is_float_text(s@),
{
    let start: usize = if s.len() > 0 && (s[0] == 0x2b || s[0] == 0x2d) {
        1
    } else {
        0
    };
    let body = vstd::slice::slice_subrange(s, start, s.len());
    proof {
        assert(body@ =~= unsigned_part(s@));
    }
    let inf: [u8; 3] = [0x69, 0x6e, 0x66];
    let infinity: [u8; 8] = [0x69, 0x6e, 0x66, 0x69, 0x6e, 0x69, 0x74, 0x79];
    let nan: [u8; 3] = [0x6e, 0x61, 0x6e];
    proof {
        assert(inf@ =~= seq![0x69u8, 0x6e, 0x66]);
        assert(infinity@ =~= seq![0x69u8, 0x6e, 0x66, 0x69, 0x6e, 0x69, 0x74, 0x79]);
        assert(nan@ =~= seq![0x6eu8, 0x61, 0x6e]);
    }
    if equals_word(body, inf.as_slice()) || equals_word(body, infinity.as_slice()) || equals_word(
        body,
        nan.as_slice(),
    ) {
        return true;
    }
    let e = find_exponent(body);
    let mantissa = vstd::slice::slice_subrange(body, 0, e);
    let exponent = vstd::slice::slice_subrange(body, e, body.len());
    check_mantissa(mantissa) && check_exponent(exponent)
}

} // verus!
