//! Integer arithmetic of the VM, with Python's floor division and the
//! overflow and shift checks of a 64-bit integer VM.
use crate::bytecode::{Instruction, spec_raw};
use crate::error::{VmError, VmFault, fault_view};
use crate::value::{Value, VmValue, python_type_of, vm_view};
use vstd::arithmetic::div_mod::{lemma_fundamental_div_mod, lemma_fundamental_div_mod_converse};
use vstd::arithmetic::power::pow;
use vstd::prelude::*;

verus! {

broadcast use vstd::string::to_string_from_display_ensures_for_str;

/// The operator a `BINARY_OP` selector stands for (the in-place selectors
/// are reduced modulo 13 before this is asked).
pub open spec fn operation_name(op: u32) -> Seq<char> {
    if op == 0 {
        "+"@
    } else if op == 1 {
        "&"@
    } else if op == 2 {
        "//"@
    } else if op == 3 {
        "<<"@
    } else if op == 4 {
        "@"@
    } else if op == 5 {
        "*"@
    } else if op == 6 {
        "%"@
    } else if op == 7 {
        "|"@
    } else if op == 8 {
        "**"@
    } else if op == 9 {
        ">>"@
    } else if op == 10 {
        "-"@
    } else if op == 11 {
        "/"@
    } else if op == 12 {
        "^"@
    } else {
        "unknown binary operation"@
    }
}

/// The operator a `BINARY_OP` selector stands for.
pub fn binary_operation_name(op: u32) -> (r: &'static str)
    ensures
        r@ == operation_name(op),
{
    match op {
        0 => "+",
        1 => "&",
        2 => "//",
        3 => "<<",
        4 => "@",
        5 => "*",
        6 => "%",
        7 => "|",
        8 => "**",
        9 => ">>",
        10 => "-",
        11 => "/",
        12 => "^",
        _ => "unknown binary operation",
    }
}

/// The error for an operation on values of types it does not accept.
pub open spec fn type_fault(ins: Instruction, op: Seq<char>, left: Value, right: Option<Value>) -> VmFault {
    VmFault::TypeError {
        offset: ins.offset,
        operation: op,
        left: python_type_of(left),
        right: match right {
            Some(r) => Some(python_type_of(r)),
            None => None,
        },
    }
}

/// The error for an operation on values of types it does not accept.
pub fn type_error(ins: Instruction, op: &str, left: &VmValue, right: Option<&VmValue>) -> (e: VmError)
    ensures
        fault_view(e) == type_fault(
            ins,
            op@,
            vm_view(*left),
            match right {
                Some(r) => Some(vm_view(*r)),
                None => None,
            },
        ),
{
    VmError::TypeError {
        offset: ins.offset,
        operation: op.to_string(),
        left: left.python_type_name().to_string(),
        right: match right {
            Some(r) => Some(r.python_type_name().to_string()),
            None => None,
        },
    }
}

/// The error for an instruction whose argument cannot be carried out.
pub open spec fn argument_fault(ins: Instruction, reason: Seq<char>) -> VmFault {
    VmFault::InvalidArgument {
        offset: ins.offset,
        opcode: spec_raw(ins.opcode),
        argument: ins.arg,
        reason,
    }
}

/// The error for an instruction whose argument cannot be carried out.
pub fn invalid_argument(ins: Instruction, reason: String) -> (e: VmError)
    ensures
        fault_view(e) == argument_fault(ins, reason@),
{
    VmError::InvalidArgument {
        offset: ins.offset,
        opcode: ins.raw_opcode(),
        argument: ins.arg,
        reason,
    }
}

/// The error for an integer result outside the `i64` range.
pub open spec fn overflow_fault(ins: Instruction, op: Seq<char>) -> VmFault {
    VmFault::IntegerOverflow { offset: ins.offset, operation: op }
}

/// The error for an integer result outside the `i64` range.
pub fn overflow_error(ins: Instruction, op: &str) -> (e: VmError)
    ensures
        fault_view(e) == overflow_fault(ins, op@),
{
    VmError::IntegerOverflow { offset: ins.offset, operation: op.to_string() }
}

/// The value fits in an `i64`.
pub open spec fn fits_i64(v: int) -> bool {
    i64::MIN <= v <= i64::MAX
}

/// Python's floor division: the quotient rounded towards negative infinity.
pub open spec fn floor_div(l: int, r: int) -> int {
    if r > 0 {
        l / r
    } else {
        (-l) / (-r)
    }
}

/// The quotient of a negated dividend by a positive divisor.
proof fn lemma_negated_quotient(a: int, b: int)
    requires
        a >= 0,
        b > 0,
    ensures
        (-a) / b == if a % b == 0 {
            -(a / b)
        } else {
            -(a / b) - 1
        },
{
    lemma_fundamental_div_mod(a, b);
    let q = a / b;
    let m = a % b;
    assert(a == b * q + m);
    if m == 0 {
        assert(-a == (-q) * b + 0) by (nonlinear_arith)
            requires
                a == b * q + m,
                m == 0,
        ;
        lemma_fundamental_div_mod_converse(-a, b, -q, 0);
    } else {
        assert(0 <= m < b);
        assert(-a == (-q - 1) * b + (b - m)) by (nonlinear_arith)
            requires
                a == b * q + m,
        ;
        lemma_fundamental_div_mod_converse(-a, b, -q - 1, b - m);
    }
}

/// Python's floor division of two integers; zero as divisor is an error.
/// (`i64::MIN // -1` is left out: the quotient 2^63 does not fit.)
pub fn floor_div_int(left: i64, right: i64, ins: Instruction) -> (r: Result<i64, VmError>)
    requires
        !(left == i64::MIN && right == -1),
    ensures
        right == 0 ==> (r matches Err(e) && fault_view(e) == (VmFault::ZeroDivision { offset: ins.offset })),
        right != 0 ==> r == Ok::<i64, VmError>(floor_div(left as int, right as int) as i64)
            && fits_i64(floor_div(left as int, right as int)),
{
    if right == 0 {
        return Err(VmError::ZeroDivision { offset: ins.offset });
    }
    let a: u64 = if left == i64::MIN {
        0x8000_0000_0000_0000
    } else if left < 0 {
        (-left) as u64
    } else {
        left as u64
    };
    let b: u64 = if right == i64::MIN {
        0x8000_0000_0000_0000
    } else if right < 0 {
        (-right) as u64
    } else {
        right as u64
    };
    let q = a / b;
    let m = a % b;
    proof {
        lemma_fundamental_div_mod(a as int, b as int);
        lemma_negated_quotient(a as int, b as int);
        assert(q <= a) by (nonlinear_arith)
            requires
                a == b * q + m,
                b >= 1,
                m >= 0,
                q >= 0,
        ;
        assert(b >= 2 ==> q < 0x8000_0000_0000_0000) by (nonlinear_arith)
            requires
                a == b * q + m,
                m >= 0,
                a <= 0x8000_0000_0000_0000,
                q >= 0,
        ;
    }
    if (left < 0) == (right < 0) {
        // Same signs: the quotient of the magnitudes.
        proof {
            if right > 0 {
                assert(left as int == a as int);
                assert(floor_div(left as int, right as int) == a as int / b as int);
            } else {
                assert(-(left as int) == a as int);
                assert(floor_div(left as int, right as int) == a as int / b as int);
            }
        }
        Ok(q as i64)
    } else {
        // Opposite signs: the negated quotient, one lower when inexact.
        proof {
            if right > 0 {
                assert(left as int == -(a as int));
            } else {
                assert(left as int == a as int);
                assert(-(right as int) == b as int);
            }
        }
        let negated: i64 = if q == 0x8000_0000_0000_0000 {
            i64::MIN
        } else {
            -(q as i64)
        };
        if m != 0 {
            Ok(negated - 1)
        } else {
            Ok(negated)
        }
    }
}

/// Floor division leaves a remainder `l - (l // r) * r` that lies between
/// zero and the divisor: it takes the divisor's sign and is smaller than it
/// in magnitude.
pub proof fn lemma_floor_remainder(l: int, r: int)
    requires
        r != 0,
    ensures
        r > 0 ==> 0 <= l - floor_div(l, r) * r < r,
        r < 0 ==> r < l - floor_div(l, r) * r <= 0,
{
    if r > 0 {
        lemma_fundamental_div_mod(l, r);
        vstd::arithmetic::div_mod::lemma_mod_bound(l, r);
        assert(l - (l / r) * r == l % r) by (nonlinear_arith)
            requires
                l == r * (l / r) + l % r,
        ;
    } else {
        lemma_fundamental_div_mod(-l, -r);
        vstd::arithmetic::div_mod::lemma_mod_bound(-l, -r);
        let q = (-l) / (-r);
        assert(l - q * r == -((-l) % (-r))) by (nonlinear_arith)
            requires
                -l == (-r) * q + (-l) % (-r),
        ;
    }
}

/// Python's `%` on integers: `left - (left // right) * right`, which takes the
/// sign of the divisor; zero as divisor is an error, and so is a product
/// `(left // right) * right` outside the `i64` range.
pub open spec fn remainder_spec(ins: Instruction, left: i64, right: i64) -> Result<i64, VmFault> {
    if right == 0 {
        Err(VmFault::ZeroDivision { offset: ins.offset })
    } else {
        let q = floor_div(left as int, right as int);
        if !fits_i64(q * right) {
            Err(overflow_fault(ins, "%"@))
        } else {
            Ok((left - q * right) as i64)
        }
    }
}

/// Python's `%` on integers.
pub fn remainder_int(left: i64, right: i64, ins: Instruction) -> (r: Result<i64, VmError>)
    requires
        !(left == i64::MIN && right == -1),
    ensures
        match remainder_spec(ins, left, right) {
            Ok(v) => r == Ok::<i64, VmError>(v),
            Err(f) => r matches Err(e) && fault_view(e) == f,
        },
{
    let quotient = match floor_div_int(left, right, ins) {
        Ok(q) => q,
        Err(e) => return Err(e),
    };
    proof {
        lemma_floor_remainder(left as int, right as int);
    }
    let product = match quotient.checked_mul(right) {
        Some(p) => p,
        None => return Err(overflow_error(ins, "%")),
    };
    match left.checked_sub(product) {
        Some(v) => Ok(v),
        None => Err(overflow_error(ins, "%")),
    }
}

/// A shift of an integer: the count must lie in `0..64`; a left shift keeps
/// the low 64 bits, a right shift is arithmetic.
pub open spec fn shift_spec(ins: Instruction, left: i64, right: i64, left_shift: bool) -> Result<
    i64,
    VmFault,
> {
    if !(0 <= right < 64) {
        Err(VmFault::ValueError { offset: ins.offset, operation: "shift count"@ })
    } else if left_shift {
        Ok(left << (right as u32))
    } else {
        Ok(left >> (right as u32))
    }
}

/// A shift of an integer.
pub fn checked_shift(ins: Instruction, left: i64, right: i64, left_shift: bool) -> (r: Result<
    i64,
    VmError,
>)
    ensures
        match shift_spec(ins, left, right, left_shift) {
            Ok(v) => r == Ok::<i64, VmError>(v),
            Err(f) => r matches Err(e) && fault_view(e) == f,
        },
{
    if !(0 <= right && right < 64) {
        return Err(VmError::ValueError { offset: ins.offset, operation: "shift count".to_string() });
    }
    let shift = right as u32;
    if left_shift {
        Ok(left << shift)
    } else {
        Ok(left >> shift)
    }
}

/// Powers of -1, 0 and 1.
proof fn lemma_pow_small(b: int, e: nat)
    requires
        -1 <= b <= 1,
    ensures
        pow(b, e) == if e == 0 {
            1
        } else if b == 0 {
            0
        } else if b == 1 || e % 2 == 0 {
            1
        } else {
            -1
        },
    decreases e,
{
    reveal(pow);
    if e > 0 {
        lemma_pow_small(b, (e - 1) as nat);
        let p = pow(b, (e - 1) as nat);
        assert(pow(b, e) == b * p);
        if b == -1 {
            assert(b * p == -p);
        } else if b == 0 {
            assert(b * p == 0);
        } else {
            assert(b * p == p);
        }
    }
}

/// Powers of a base of magnitude at least 2 grow in magnitude.
proof fn lemma_pow_grows(b: int, e: nat)
    requires
        b >= 2 || b <= -2,
    ensures
        (if pow(b, e + 1) < 0 { -pow(b, e + 1) } else { pow(b, e + 1) }) >= 2 * (if pow(b, e) < 0 {
            -pow(b, e)
        } else {
            pow(b, e)
        }),
{
    let p = pow(b, e);
    reveal(pow);
    assert(pow(b, e + 1) == b * p);
    assert((if b * p < 0 { -(b * p) } else { b * p }) >= 2 * (if p < 0 { -p } else { p })) by (nonlinear_arith)
        requires
            b >= 2 || b <= -2,
    ;
}

/// The magnitude of a power, once at least 2^63, stays at least 2^63.
proof fn lemma_pow_stays_large(b: int, e: nat, f: nat)
    requires
        b >= 2 || b <= -2,
        e <= f,
        (if pow(b, e) < 0 { -pow(b, e) } else { pow(b, e) }) >= 0x8000_0000_0000_0000,
    ensures
        (if pow(b, f) < 0 { -pow(b, f) } else { pow(b, f) }) >= 0x8000_0000_0000_0000,
        e < f ==> (if pow(b, f) < 0 { -pow(b, f) } else { pow(b, f) }) >= 0x1_0000_0000_0000_0000,
    decreases f - e,
{
    if e < f {
        lemma_pow_grows(b, e);
        if e + 1 < f {
            lemma_pow_stays_large(b, e + 1, f);
        }
    }
}

/// `base` to the power `exp`, if it fits in an `i64`.
pub fn checked_pow(base: i64, exp: u32) -> (r: Option<i64>)
    ensures
        fits_i64(pow(base as int, exp as nat)) ==> r == Some(pow(base as int, exp as nat) as i64),
        !fits_i64(pow(base as int, exp as nat)) ==> r is None,
{
    if -1 <= base && base <= 1 {
        proof {
            lemma_pow_small(base as int, exp as nat);
        }
        if exp == 0 {
            return Some(1);
        } else if base == 0 {
            return Some(0);
        } else if base == 1 || exp % 2 == 0 {
            return Some(1);
        } else {
            return Some(-1);
        }
    }
    let mut acc: i64 = 1;
    let mut k: u32 = 0;
    proof {
        reveal(pow);
    }
    while k < exp
        invariant
            k <= exp,
            base >= 2 || base <= -2,
            acc as int == pow(base as int, k as nat),
        decreases exp - k,
    {
        proof {
            reveal(pow);
            assert(pow(base as int, (k + 1) as nat) == base * pow(base as int, k as nat));
        }
        proof {
            assert(acc * base == base * acc) by (nonlinear_arith);
        }
        match acc.checked_mul(base) {
            Some(next) => {
                acc = next;
                k += 1;
            },
            None => {
                proof {
                    assert(!fits_i64(pow(base as int, (k + 1) as nat)));
                    lemma_pow_stays_large(base as int, (k + 1) as nat, exp as nat);
                }
                return None;
            },
        }
    }
    Some(acc)
}

} // verus!
