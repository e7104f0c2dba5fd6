//! IEEE 754 binary64 values held as their bit patterns: comparison, sign and
//! conversion from integers, computed with integer arithmetic.
use vstd::arithmetic::power2::{lemma_pow2_adds, lemma_pow2_pos, lemma_pow2_unfold, lemma2_to64, pow2};
use vstd::prelude::*;

verus! {

/// The sign bit of a binary64 value.
pub const SIGN_BIT: u64 = 0x8000_0000_0000_0000;

/// The bits of positive infinity; larger magnitudes are NaNs.
pub const INFINITY_BITS: u64 = 0x7ff0_0000_0000_0000;

/// All bits but the sign bit.
pub open spec fn magnitude(bits: u64) -> int {
    bits as int % 0x8000_0000_0000_0000
}

/// The value is a NaN.
pub open spec fn is_nan(bits: u64) -> bool {
    magnitude(bits) > INFINITY_BITS
}

/// The value is +0.0 or -0.0.
pub open spec fn is_zero(bits: u64) -> bool {
    magnitude(bits) == 0
}

/// A key that orders non-NaN values as the numbers they denote: the
/// magnitude, negated when the sign bit is set (both zeros map to 0).
pub open spec fn order_key(bits: u64) -> int {
    if bits >= SIGN_BIT {
        -magnitude(bits)
    } else {
        magnitude(bits)
    }
}

/// IEEE equality: NaN equals nothing, the two zeros are equal, and other
/// values are equal when their bits are.
pub open spec fn float_eq(a: u64, b: u64) -> bool {
    !is_nan(a) && !is_nan(b) && order_key(a) == order_key(b)
}

/// How two numbers compare.
#[derive(Debug, Clone, Copy, PartialEq, Eq, Structural)]
pub enum Comparison {
    Less,
    Equal,
    Greater,
}

/// The IEEE order of two values; `None` when either is a NaN.
pub open spec fn float_compare(a: u64, b: u64) -> Option<Comparison> {
    if is_nan(a) || is_nan(b) {
        None
    } else if order_key(a) < order_key(b) {
        Some(Comparison::Less)
    } else if order_key(a) == order_key(b) {
        Some(Comparison::Equal)
    } else {
        Some(Comparison::Greater)
    }
}

/// The bits of the value with its sign flipped.
pub open spec fn negate_bits(bits: u64) -> u64 {
    if bits >= SIGN_BIT {
        (bits - SIGN_BIT) as u64
    } else {
        (bits + SIGN_BIT) as u64
    }
}

/// The position of the highest set bit of a positive number.
pub open spec fn high_bit(m: nat) -> nat
    decreases m,
{
    if m < 2 {
        0
    } else {
        1 + high_bit(m / 2)
    }
}

/// The binary64 nearest to the integer `v` (ties to an even significand),
/// for `|v| <= 2^63`: the sign, the exponent of the highest set bit and the
/// 52 bits below it after rounding.
pub open spec fn int_to_float_bits(v: int) -> u64 {
    if v == 0 {
        0
    } else {
        let sign: int = if v < 0 {
            SIGN_BIT as int
        } else {
            0
        };
        let m: nat = if v < 0 {
            (-v) as nat
        } else {
            v as nat
        };
        let e = high_bit(m);
        if e <= 52 {
            (sign + (e + 1023) * pow2(52) + (m * pow2((52 - e) as nat) - pow2(52))) as u64
        } else {
            let d = pow2((e - 52) as nat);
            let q = m / d;
            let r = m % d;
            let up = r * 2 > d || (r * 2 == d && q % 2 == 1);
            let q2 = if up {
                q + 1
            } else {
                q
            };
            if q2 == pow2(53) {
                (sign + (e + 1024) * pow2(52)) as u64
            } else {
                (sign + (e + 1023) * pow2(52) + (q2 - pow2(52))) as u64
            }
        }
    }
}

/// Whether the value is a NaN.
pub fn float_is_nan(bits: u64) -> (r: bool)
    ensures
        r == is_nan(bits),
{
    bits % 0x8000_0000_0000_0000 > INFINITY_BITS
}

/// Whether the value is +0.0 or -0.0.
pub fn float_is_zero(bits: u64) -> (r: bool)
    ensures
        r == is_zero(bits),
{
    bits % 0x8000_0000_0000_0000 == 0
}

/// The value with its sign flipped.
pub fn float_negate(bits: u64) -> (r: u64)
    ensures
        r == negate_bits(bits),
{
    if bits >= SIGN_BIT {
        bits - SIGN_BIT
    } else {
        bits + SIGN_BIT
    }
}

fn order_key_of(bits: u64) -> (k: i64)
    ensures
        k == order_key(bits),
{
    let m = (bits % 0x8000_0000_0000_0000) as i64;
    if bits >= SIGN_BIT {
        -m
    } else {
        m
    }
}

/// IEEE equality of two values.
pub fn float_equal(a: u64, b: u64) -> (r: bool)
    ensures
        r == float_eq(a, b),
{
    !float_is_nan(a) && !float_is_nan(b) && order_key_of(a) == order_key_of(b)
}

/// The IEEE order of two values; `None` when either is a NaN.
pub fn float_order(a: u64, b: u64) -> (r: Option<Comparison>)
    ensures
        r == float_compare(a, b),
{
    if float_is_nan(a) || float_is_nan(b) {
        return None;
    }
    let ka = order_key_of(a);
    let kb = order_key_of(b);
    if ka < kb {
        Some(Comparison::Less)
    } else if ka == kb {
        Some(Comparison::Equal)
    } else {
        Some(Comparison::Greater)
    }
}

proof fn lemma_high_bit(m: nat, e: nat)
    requires
        pow2(e) <= m < pow2(e + 1),
    ensures
        high_bit(m) == e,
    decreases e,
{
    lemma_pow2_pos(e);
    lemma_pow2_unfold(e + 1);
    if e == 0 {
        lemma2_to64();
    } else {
        lemma_pow2_unfold(e);
        assert(pow2((e - 1) as nat) <= m / 2 < pow2(e));
        lemma_high_bit(m / 2, (e - 1) as nat);
    }
}

/// The binary64 nearest to an integer (ties to even), as `v as f64` rounds.
pub fn int_to_float(v: i64) -> (bits: u64)
    ensures
        bits == int_to_float_bits(v as int),
{
    if v == 0 {
        return 0;
    }
    let sign: u64 = if v < 0 {
        SIGN_BIT
    } else {
        0
    };
    let m: u64 = if v == i64::MIN {
        0x8000_0000_0000_0000
    } else if v < 0 {
        (-v) as u64
    } else {
        v as u64
    };
    proof {
        lemma2_to64();
    }
    let mut e: u64 = 0;
    let mut p: u64 = 1;
    while p <= m / 2
        invariant
            p == pow2(e as nat),
            1 <= p <= m,
            e < 64,
            m >= 1,
        decreases m - p,
    {
        proof {
            lemma_pow2_unfold((e + 1) as nat);
            if e + 1 >= 64 {
                vstd::arithmetic::power2::lemma_pow2_strictly_increases(63, (e + 1) as nat);
                lemma2_to64();
                assert(pow2(63) == 0x8000_0000_0000_0000) by {
                    vstd::arithmetic::power2::lemma2_to64_rest();
                }
            }
        }
        p = p * 2;
        e = e + 1;
    }
    proof {
        lemma_pow2_unfold((e + 1) as nat);
        lemma_high_bit(m as nat, e as nat);
        lemma2_to64();
        vstd::arithmetic::power2::lemma2_to64_rest();
    }
    let two52: u64 = 0x10_0000_0000_0000;
    if e <= 52 {
        let mut mant: u64 = m;
        let mut k: u64 = e;
        assert(m as int * pow2(0nat) == m as int) by (nonlinear_arith)
            requires
                pow2(0nat) == 1,
        ;
        while k < 52
            invariant
                e <= k <= 52,
                pow2(53) == 0x20_0000_0000_0000,
                mant == m * pow2((k - e) as nat),
                mant < pow2((k + 1) as nat),
                p == pow2(e as nat),
                p <= m < 2 * p,
                two52 == pow2(52),
            decreases 52 - k,
        {
            proof {
                lemma_pow2_unfold((k + 1 - e) as nat);
                lemma_pow2_unfold((k + 2) as nat);
                assert(mant * 2 == m * pow2((k + 1 - e) as nat)) by (nonlinear_arith)
                    requires
                        mant == m * pow2((k - e) as nat),
                        pow2((k + 1 - e) as nat) == 2 * pow2((k - e) as nat),
                ;
                assert(pow2((k + 1) as nat) <= pow2(53)) by {
                    if k + 1 < 53 {
                        vstd::arithmetic::power2::lemma_pow2_strictly_increases((k + 1) as nat, 53);
                    }
                }
            }
            mant = mant * 2;
            k = k + 1;
        }
        proof {
            lemma_pow2_adds((52 - e) as nat, e as nat);
            assert(mant >= two52) by (nonlinear_arith)
                requires
                    mant == m * pow2((52 - e) as nat),
                    p <= m,
                    p == pow2(e as nat),
                    pow2(52) == pow2((52 - e) as nat) * pow2(e as nat),
                    two52 == pow2(52),
            ;
        }
        sign + (e + 1023) * two52 + (mant - two52)
    } else {
        let d: u64 = p / two52;
        proof {
            vstd::arithmetic::power2::lemma_pow2_subtracts(52, e as nat);
            lemma_pow2_adds((e - 52) as nat, 52);
            lemma_pow2_pos((e - 52) as nat);
        }
        let q: u64 = m / d;
        let r: u64 = m % d;
        proof {
            assert(q >= two52 && q < 2 * two52) by (nonlinear_arith)
                requires
                    p == d * two52,
                    p <= m,
                    m < 2 * p,
                    q == m / d,
                    d > 0,
            ;
        }
        let up = r > d - r || (r == d - r && q % 2 == 1);
        let q2: u64 = if up {
            q + 1
        } else {
            q
        };
        if q2 == 2 * two52 {
            sign + (e + 1024) * two52
        } else {
            sign + (e + 1023) * two52 + (q2 - two52)
        }
    }
}

/// The highest set bit of a positive number lies at `high_bit`.
proof fn lemma_high_bit_bounds(m: nat)
    requires
        m >= 1,
    ensures
        pow2(high_bit(m)) <= m < pow2(high_bit(m) + 1),
    decreases m,
{
    lemma2_to64();
    if m >= 2 {
        lemma_high_bit_bounds(m / 2);
        let h = high_bit(m / 2);
        lemma_pow2_unfold(h + 1);
        lemma_pow2_unfold(h + 2);
    }
}

/// The magnitude bits of a positive integer below 2^53 as a binary64: the
/// biased exponent of its highest bit, then the bits below it.
pub open spec fn small_magnitude(m: nat) -> int {
    let e = high_bit(m);
    (e + 1023) * pow2(52) + m * pow2((52 - e) as nat) - pow2(52)
}

/// A positive integer below 2^53, scaled so that its highest bit lands at
/// bit 52, lies in `[2^52, 2^53)`; its magnitude bits are below those of
/// infinity and are what the conversion writes.
proof fn lemma_small_magnitude(m: nat)
    requires
        1 <= m < 0x20_0000_0000_0000,
    ensures
        high_bit(m) <= 52,
        pow2(52) <= m * pow2((52 - high_bit(m)) as nat) < pow2(53),
        1023 * pow2(52) <= small_magnitude(m) < 1076 * pow2(52),
        small_magnitude(m) < (high_bit(m) + 1024) * pow2(52),
        (high_bit(m) + 1023) * pow2(52) <= small_magnitude(m),
        int_to_float_bits(m as int) == small_magnitude(m),
        int_to_float_bits(-(m as int)) == SIGN_BIT + small_magnitude(m),
{
    let e = high_bit(m);
    lemma_high_bit_bounds(m);
    lemma2_to64();
    assert(pow2(53) == 0x20_0000_0000_0000) by {
        lemma_pow2_unfold(53);
        lemma_pow2_unfold(52);
        lemma_pow2_adds(32, 20);
        lemma_pow2_adds(20, 12);
        lemma_pow2_adds(12, 8);
        lemma_pow2_adds(32, 21);
    }
    if e > 52 {
        vstd::arithmetic::power2::lemma_pow2_strictly_increases(53, e);
    }
    let s = m * pow2((52 - e) as nat);
    lemma_pow2_adds(e, (52 - e) as nat);
    lemma_pow2_adds(e + 1, (52 - e) as nat);
    lemma_pow2_pos((52 - e) as nat);
    assert(pow2(52) <= s < pow2(53)) by (nonlinear_arith)
        requires
            pow2(e) <= m < pow2(e + 1),
            pow2(e) * pow2((52 - e) as nat) == pow2(52),
            pow2(e + 1) * pow2((52 - e) as nat) == pow2(53),
            pow2((52 - e) as nat) > 0,
            s == m * pow2((52 - e) as nat),
    ;
    assert(pow2(53) == 2 * pow2(52)) by {
        lemma_pow2_unfold(53);
    }
    assert(SIGN_BIT == 2048 * pow2(52));
    assert((e + 1024) * pow2(52) <= 1076 * pow2(52) && (e + 1023) * pow2(52) >= 1023 * pow2(52))
        by (nonlinear_arith)
        requires
            e <= 52,
            pow2(52) > 0,
    ;
    assert((e + 1023) * pow2(52) + pow2(52) == (e + 1024) * pow2(52)) by (nonlinear_arith);
}

/// An integer below 2^53 in magnitude becomes a binary64 that is not a NaN
/// and whose order key is its sign times its magnitude bits.
proof fn lemma_small_int_key(v: int)
    requires
        -0x20_0000_0000_0000 < v < 0x20_0000_0000_0000,
    ensures
        !is_nan(int_to_float_bits(v)),
        order_key(int_to_float_bits(v)) == if v > 0 {
            small_magnitude(v as nat)
        } else if v < 0 {
            -small_magnitude((-v) as nat)
        } else {
            0
        },
{
    lemma2_to64();
    assert(pow2(52) == 0x10_0000_0000_0000) by {
        lemma_pow2_adds(32, 20);
        lemma_pow2_adds(20, 12);
        lemma_pow2_adds(12, 8);
    }
    if v > 0 {
        lemma_small_magnitude(v as nat);
    } else if v < 0 {
        lemma_small_magnitude((-v) as nat);
    }
}

/// Magnitude bits grow with the integer.
proof fn lemma_small_magnitude_increases(m1: nat, m2: nat)
    requires
        1 <= m1 < m2 < 0x20_0000_0000_0000,
    ensures
        small_magnitude(m1) < small_magnitude(m2),
{
    lemma_small_magnitude(m1);
    lemma_small_magnitude(m2);
    lemma_high_bit_bounds(m1);
    lemma_high_bit_bounds(m2);
    let e1 = high_bit(m1);
    let e2 = high_bit(m2);
    if e1 > e2 {
        vstd::arithmetic::power2::lemma_pow2_strictly_increases(e2, e1);
        assert(pow2(e2 + 1) <= pow2(e1)) by {
            if e2 + 1 < e1 {
                vstd::arithmetic::power2::lemma_pow2_strictly_increases(e2 + 1, e1);
            }
        }
    } else if e1 == e2 {
        let p = pow2((52 - e1) as nat);
        lemma_pow2_pos((52 - e1) as nat);
        assert(m1 * p < m2 * p) by (nonlinear_arith)
            requires
                m1 < m2,
                p > 0,
        ;
    } else {
        assert((e1 + 1024) * pow2(52) <= (e2 + 1023) * pow2(52)) by (nonlinear_arith)
            requires
                e1 < e2,
                pow2(52) > 0,
        ;
    }
}

/// A nonzero integer of at most 2^63 in magnitude does not become a zero.
pub proof fn lemma_int_to_float_nonzero(v: int)
    requires
        v != 0,
        -0x8000_0000_0000_0000 <= v <= 0x8000_0000_0000_0000,
    ensures
        !is_zero(int_to_float_bits(v)),
{
    let m: nat = if v < 0 {
        (-v) as nat
    } else {
        v as nat
    };
    let e = high_bit(m);
    lemma_high_bit_bounds(m);
    lemma2_to64();
    let p52 = pow2(52);
    assert(p52 == 0x10_0000_0000_0000) by {
        lemma_pow2_adds(32, 20);
        lemma_pow2_adds(20, 12);
        lemma_pow2_adds(12, 8);
    }
    if e <= 52 {
        assert(m < 0x20_0000_0000_0000) by {
            if e < 52 {
                vstd::arithmetic::power2::lemma_pow2_strictly_increases(e + 1, 53);
            }
            lemma_pow2_unfold(53);
        }
        lemma_small_magnitude(m);
        assert(SIGN_BIT == 2048 * p52);
    } else {
        assert(e <= 63) by {
            if e >= 64 {
                lemma_pow2_adds(32, 32);
                if e > 64 {
                    vstd::arithmetic::power2::lemma_pow2_strictly_increases(64, e);
                }
            }
        }
        let d = pow2((e - 52) as nat);
        lemma_pow2_pos((e - 52) as nat);
        lemma_pow2_adds((e - 52) as nat, 52);
        lemma_pow2_unfold(e + 1);
        assert(pow2(e) == d * p52);
        let q = m / d;
        assert(p52 <= q < 2 * p52) by (nonlinear_arith)
            requires
                d * p52 <= m < 2 * (d * p52),
                q == m / d,
                d > 0,
                p52 > 0,
        ;
        assert((e + 1024) * p52 <= 1088 * p52 && (e + 1023) * p52 >= 1076 * p52)
            by (nonlinear_arith)
            requires
                53 <= e <= 63,
                p52 > 0,
        ;
        assert((e + 1023) * p52 + p52 == (e + 1024) * p52) by (nonlinear_arith);
        assert(pow2(53) == 2 * p52) by {
            lemma_pow2_unfold(53);
        }
        assert(SIGN_BIT == 2048 * p52);
    }
}

/// Integers below 2^53 in magnitude become binary64 values exactly and in
/// order: neither is a NaN, and the comparison of the two binary64 values is
/// the comparison of the integers.
pub proof fn lemma_small_ints_compare(a: int, b: int)
    requires
        -0x20_0000_0000_0000 < a < 0x20_0000_0000_0000,
        -0x20_0000_0000_0000 < b < 0x20_0000_0000_0000,
    ensures
        float_compare(int_to_float_bits(a), int_to_float_bits(b)) == Some(
            if a < b {
                Comparison::Less
            } else if a == b {
                Comparison::Equal
            } else {
                Comparison::Greater
            },
        ),
        float_eq(int_to_float_bits(a), int_to_float_bits(b)) == (a == b),
{
    lemma_small_int_key(a);
    lemma_small_int_key(b);
    if a > 0 {
        lemma_small_magnitude(a as nat);
    }
    if a < 0 {
        lemma_small_magnitude((-a) as nat);
    }
    if b > 0 {
        lemma_small_magnitude(b as nat);
    }
    if b < 0 {
        lemma_small_magnitude((-b) as nat);
    }
    lemma_pow2_pos(52);
    if 0 < a < b {
        lemma_small_magnitude_increases(a as nat, b as nat);
    } else if 0 < b < a {
        lemma_small_magnitude_increases(b as nat, a as nat);
    } else if a < b < 0 {
        lemma_small_magnitude_increases((-b) as nat, (-a) as nat);
    } else if b < a < 0 {
        lemma_small_magnitude_increases((-a) as nat, (-b) as nat);
    }
}

/// Flipping the sign twice gives the value back.
pub proof fn lemma_negate_twice(bits: u64)
    ensures
        negate_bits(negate_bits(bits)) == bits,
{
}

} // verus!
