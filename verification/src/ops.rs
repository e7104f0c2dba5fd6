//! What the VM's operators compute: unary and binary operators,
//! comparisons and subscripts, on the mathematical content of values.
use crate::arith::{
    argument_fault, fits_i64, floor_div, lemma_floor_remainder, operation_name, overflow_fault,
    remainder_spec, shift_spec, type_fault,
};
use crate::bytecode::Instruction;
use crate::decimal::decimal;
use crate::error::VmFault;
use crate::ieee::{
    Comparison, float_compare, is_zero, lemma_int_to_float_nonzero, lemma_small_ints_compare,
    negate_bits,
};
use crate::value::{
    Numeric, Value, float_bits_of, index_of_value, numeric_of, python_eq, unique_values,
};
use vstd::arithmetic::power::pow;
use vstd::prelude::*;

verus! {

/// A floating-point operation the VM leaves to its host: the operands are
/// binary64 bits, integers already rounded to binary64.
#[derive(Debug, Clone, Copy, PartialEq, Eq, Structural)]
pub enum FloatOperation {
    /// `left + right`
    Add,
    /// `left - right`
    Subtract,
    /// `left * right`
    Multiply,
    /// `left / right`
    TrueDivide,
    /// `(left / right).floor()`
    FloorDivide,
    /// `left - (left / right).floor() * right`
    Remainder,
    /// `left.powf(right)`
    Power,
}

/// A floating-point operation for the host to carry out; the VM pushes the
/// result it is handed back.
#[derive(Debug, Clone, Copy, PartialEq, Eq, Structural)]
pub struct FloatRequest {
    pub operation: FloatOperation,
    pub left: u64,
    pub right: u64,
}

/// What an operator produced: a value, or a floating-point operation whose
/// result the host supplies.
pub enum Produced {
    Value(Value),
    Float(FloatRequest),
}

/// The sequence repeated `n` times.
pub open spec fn repeat_seq<T>(s: Seq<T>, n: nat) -> Seq<T>
    decreases n,
{
    if n == 0 {
        Seq::empty()
    } else {
        repeat_seq(s, (n - 1) as nat) + s
    }
}

/// `sequence * count` for a string, bytes, list or tuple and an integer or
/// boolean count (a count below one gives the empty sequence); `None` when
/// the operands are not of that kind or the count exceeds `usize`.
pub open spec fn repeat_spec(sequence: Value, count: Value) -> Option<Value> {
    match index_of_value(count) {
        None => None,
        Some(c) => {
            let n: int = if c <= 0 {
                0
            } else {
                c as int
            };
            if n > usize::MAX {
                None
            } else {
                match sequence {
                    Value::String(s) => Some(Value::String(repeat_seq(s, n as nat))),
                    Value::Bytes(b) => Some(Value::Bytes(repeat_seq(b, n as nat))),
                    Value::List(v) => Some(Value::List(repeat_seq(v, n as nat))),
                    Value::Tuple(v) => Some(Value::Tuple(repeat_seq(v, n as nat))),
                    _ => None,
                }
            }
        },
    }
}

/// `left + right` for two strings, two bytes, two lists or two tuples.
pub open spec fn concat_spec(left: Value, right: Value) -> Option<Value> {
    match (left, right) {
        (Value::String(a), Value::String(b)) => Some(Value::String(a + b)),
        (Value::Bytes(a), Value::Bytes(b)) => Some(Value::Bytes(a + b)),
        (Value::List(a), Value::List(b)) => Some(Value::List(a + b)),
        (Value::Tuple(a), Value::Tuple(b)) => Some(Value::Tuple(a + b)),
        _ => None,
    }
}

/// An integer result, or the overflow error of the operator.
pub open spec fn int_result(ins: Instruction, op: u32, v: int) -> Result<Produced, VmFault> {
    if fits_i64(v) {
        Ok(Produced::Value(Value::Int(v as i64)))
    } else {
        Err(overflow_fault(ins, operation_name(op)))
    }
}

/// The floating-point operation for an arithmetic selector.
pub open spec fn float_operation(op: u32) -> FloatOperation {
    if op == 0 {
        FloatOperation::Add
    } else if op == 2 {
        FloatOperation::FloorDivide
    } else if op == 5 {
        FloatOperation::Multiply
    } else if op == 6 {
        FloatOperation::Remainder
    } else {
        FloatOperation::Subtract
    }
}

/// A binary operator on two numbers (`op` is the selector modulo 13).
/// Bitwise operators and shifts take integers only; `//` and `%` by zero and
/// `/` by zero are errors; `**` of integers with an exponent `>= 0` stays an
/// integer while the power fits; otherwise a float takes part and the host
/// computes the result; integer arithmetic reports overflow.
pub open spec fn numeric_binary_spec(ins: Instruction, op: u32, l: Numeric, r: Numeric) -> Result<
    Produced,
    VmFault,
> {
    if op == 1 || op == 3 || op == 7 || op == 9 || op == 12 {
        match (l, r) {
            (Numeric::Int(a), Numeric::Int(b)) => if op == 1 {
                Ok(Produced::Value(Value::Int(a & b)))
            } else if op == 7 {
                Ok(Produced::Value(Value::Int(a | b)))
            } else if op == 12 {
                Ok(Produced::Value(Value::Int(a ^ b)))
            } else {
                match shift_spec(ins, a, b, op == 3) {
                    Ok(v) => Ok(Produced::Value(Value::Int(v))),
                    Err(e) => Err(e),
                }
            },
            _ => Err(
                VmFault::TypeError {
                    offset: ins.offset,
                    operation: operation_name(op),
                    left: "float"@,
                    right: Some("float"@),
                },
            ),
        }
    } else if (op == 2 || op == 6) && is_zero(float_bits_of(r)) {
        Err(VmFault::ZeroDivision { offset: ins.offset })
    } else if op == 11 {
        if is_zero(float_bits_of(r)) {
            Err(VmFault::ZeroDivision { offset: ins.offset })
        } else {
            Ok(
                Produced::Float(
                    FloatRequest {
                        operation: FloatOperation::TrueDivide,
                        left: float_bits_of(l),
                        right: float_bits_of(r),
                    },
                ),
            )
        }
    } else if op == 8 {
        let float = Produced::Float(
            FloatRequest {
                operation: FloatOperation::Power,
                left: float_bits_of(l),
                right: float_bits_of(r),
            },
        );
        match (l, r) {
            (Numeric::Int(a), Numeric::Int(b)) => if b < 0 {
                Ok(float)
            } else if b > u32::MAX {
                Err(overflow_fault(ins, "**"@))
            } else if fits_i64(pow(a as int, b as nat)) {
                Ok(Produced::Value(Value::Int(pow(a as int, b as nat) as i64)))
            } else {
                Ok(float)
            },
            _ => Ok(float),
        }
    } else if l is Float || r is Float {
        if op == 0 || op == 2 || op == 5 || op == 6 || op == 10 {
            Ok(
                Produced::Float(
                    FloatRequest {
                        operation: float_operation(op),
                        left: float_bits_of(l),
                        right: float_bits_of(r),
                    },
                ),
            )
        } else {
            Err(VmFault::UnsupportedOperation { offset: ins.offset, operation: operation_name(op) })
        }
    } else {
        let a = l->Int_0;
        let b = r->Int_0;
        if op == 0 {
            int_result(ins, op, a + b)
        } else if op == 2 {
            Ok(Produced::Value(Value::Int(floor_div(a as int, b as int) as i64)))
        } else if op == 5 {
            int_result(ins, op, a * b)
        } else if op == 6 {
            match remainder_spec(ins, a, b) {
                Ok(v) => Ok(Produced::Value(Value::Int(v))),
                Err(e) => Err(e),
            }
        } else if op == 10 {
            int_result(ins, op, a - b)
        } else {
            Err(VmFault::UnsupportedOperation { offset: ins.offset, operation: operation_name(op) })
        }
    }
}

/// `BINARY_OP`: the selector is the argument modulo 13 (the in-place forms
/// share their operator's meaning). `+` joins two strings, bytes, lists or
/// tuples; `*` repeats a sequence by an integer on either side; otherwise
/// both operands must be numbers.
pub open spec fn binary_spec(ins: Instruction, left: Value, right: Value) -> Result<
    Produced,
    VmFault,
> {
    let op = ins.arg % 13;
    if op == 0 && concat_spec(left, right) is Some {
        Ok(Produced::Value(concat_spec(left, right)->Some_0))
    } else if op == 5 && repeat_spec(left, right) is Some {
        Ok(Produced::Value(repeat_spec(left, right)->Some_0))
    } else if op == 5 && repeat_spec(right, left) is Some {
        Ok(Produced::Value(repeat_spec(right, left)->Some_0))
    } else {
        match (numeric_of(left), numeric_of(right)) {
            (Some(l), Some(r)) => numeric_binary_spec(ins, op, l, r),
            _ => Err(type_fault(ins, operation_name(op), left, Some(right))),
        }
    }
}

/// The operands of a `BINARY_OP` on which the integer division itself would
/// overflow: `i64::MIN // -1` and `i64::MIN % -1`.
pub open spec fn binary_overflows_division(ins: Instruction, left: Value, right: Value) -> bool {
    let op = ins.arg % 13;
    (op == 2 || op == 6) && left == Value::Int(i64::MIN) && right == Value::Int(-1i64)
}

/// `UNARY_NEGATIVE`.
pub open spec fn negative_spec(ins: Instruction, v: Value) -> Result<Value, VmFault> {
    match v {
        Value::Int(i) => if i == i64::MIN {
            Err(overflow_fault(ins, "unary -"@))
        } else {
            Ok(Value::Int((-i) as i64))
        },
        Value::Float(f) => Ok(Value::Float(negate_bits(f))),
        Value::Bool(b) => Ok(Value::Int(if b { -1i64 } else { 0i64 })),
        _ => Err(type_fault(ins, "unary -"@, v, None)),
    }
}

/// Unary plus, as `CALL_INTRINSIC_1` with `INTRINSIC_UNARY_POSITIVE` computes it: numbers stay, a boolean
/// becomes 0 or 1.
pub open spec fn positive_spec(ins: Instruction, v: Value) -> Result<Value, VmFault> {
    match v {
        Value::Int(i) => Ok(Value::Int(i)),
        Value::Float(f) => Ok(Value::Float(f)),
        Value::Bool(b) => Ok(Value::Int(if b { 1i64 } else { 0i64 })),
        _ => Err(type_fault(ins, "unary +"@, v, None)),
    }
}

/// `UNARY_INVERT`: the bitwise complement `-v - 1` of an integer or boolean.
pub open spec fn invert_spec(ins: Instruction, v: Value) -> Result<Value, VmFault> {
    match v {
        Value::Int(i) => Ok(Value::Int((-1 - i) as i64)),
        Value::Bool(b) => Ok(Value::Int(if b { -2i64 } else { -1i64 })),
        _ => Err(type_fault(ins, "unary ~"@, v, None)),
    }
}

/// The lexicographic order of two sequences of numbers.
pub open spec fn lex_compare(a: Seq<int>, b: Seq<int>) -> Comparison
    decreases a.len(),
{
    if a.len() == 0 {
        if b.len() == 0 {
            Comparison::Equal
        } else {
            Comparison::Less
        }
    } else if b.len() == 0 {
        Comparison::Greater
    } else if a[0] < b[0] {
        Comparison::Less
    } else if a[0] > b[0] {
        Comparison::Greater
    } else {
        lex_compare(a.drop_first(), b.drop_first())
    }
}

/// The code points of a text.
pub open spec fn code_points(s: Seq<char>) -> Seq<int> {
    Seq::new(s.len(), |i: int| (s[i] as u32) as int)
}

/// The numbers of a byte sequence.
pub open spec fn byte_values(s: Seq<u8>) -> Seq<int> {
    Seq::new(s.len(), |i: int| s[i] as int)
}

/// How two values order: numbers as binary64 values (a NaN is an error),
/// strings by code points, bytes by value.
pub open spec fn order_spec(ins: Instruction, left: Value, right: Value) -> Result<Comparison, VmFault> {
    match (numeric_of(left), numeric_of(right)) {
        (Some(x), Some(y)) => match float_compare(float_bits_of(x), float_bits_of(y)) {
            Some(o) => Ok(o),
            None => Err(VmFault::ValueError { offset: ins.offset, operation: "comparison with NaN"@ }),
        },
        _ => match (left, right) {
            (Value::String(a), Value::String(b)) => Ok(lex_compare(code_points(a), code_points(b))),
            (Value::Bytes(a), Value::Bytes(b)) => Ok(lex_compare(byte_values(a), byte_values(b))),
            _ => Err(type_fault(ins, "comparison"@, left, Some(right))),
        },
    }
}

/// `COMPARE_OP`: the selector is the argument shifted right by four:
/// 0 `<`, 1 `<=`, 2 `==`, 3 `!=`, 4 `>`, 5 `>=`.
pub open spec fn compare_spec(ins: Instruction, left: Value, right: Value) -> Result<bool, VmFault> {
    let c = ins.arg >> 4u32;
    if c > 5 {
        Err(argument_fault(ins, "unknown COMPARE_OP selector "@ + decimal(ins.arg as nat)))
    } else if c == 2 {
        Ok(python_eq(left, right))
    } else if c == 3 {
        Ok(!python_eq(left, right))
    } else {
        match order_spec(ins, left, right) {
            Err(e) => Err(e),
            Ok(o) => Ok(
                if c == 0 {
                    o == Comparison::Less
                } else if c == 1 {
                    o != Comparison::Greater
                } else if c == 4 {
                    o == Comparison::Greater
                } else {
                    o != Comparison::Less
                },
            ),
        }
    }
}

/// The position an index value selects in a sequence of length `len`: an
/// integer or boolean, counted from the end when negative.
pub open spec fn sequence_index_spec(ins: Instruction, len: int, index: Value) -> Result<int, VmFault> {
    match index_of_value(index) {
        None => Err(type_fault(ins, "sequence index"@, index, None)),
        Some(i) => {
            let n: int = if i < 0 {
                (len as i64) + i
            } else {
                i as int
            };
            if !fits_i64(n) || n < 0 || n >= (len as i64) {
                Err(VmFault::IndexError { offset: ins.offset, index: i })
            } else {
                Ok(n)
            }
        },
    }
}

/// The first position whose key is Python-equal to `key`.
pub open spec fn first_key(entries: Seq<(Value, Value)>, key: Value) -> Option<int> {
    if exists|k: int|
        0 <= k < entries.len() && python_eq(#[trigger] entries[k].0, key) && forall|j: int|
            0 <= j < k ==> !python_eq(#[trigger] entries[j].0, key) {
        Some(
            choose|k: int|
                0 <= k < entries.len() && python_eq(#[trigger] entries[k].0, key) && forall|j: int|
                    0 <= j < k ==> !python_eq(#[trigger] entries[j].0, key),
        )
    } else {
        None
    }
}

/// `BINARY_SUBSCR`: an item of a list or tuple, a one-character string, a
/// byte as an integer, or the value of the first Python-equal key of a dict.
pub open spec fn load_subscript_spec(ins: Instruction, container: Value, index: Value) -> Result<
    Value,
    VmFault,
> {
    match container {
        Value::List(items) => match sequence_index_spec(ins, items.len() as int, index) {
            Ok(i) => Ok(items[i]),
            Err(e) => Err(e),
        },
        Value::Tuple(items) => match sequence_index_spec(ins, items.len() as int, index) {
            Ok(i) => Ok(items[i]),
            Err(e) => Err(e),
        },
        Value::String(s) => match sequence_index_spec(ins, s.len() as int, index) {
            Ok(i) => Ok(Value::String(seq![s[i]])),
            Err(e) => Err(e),
        },
        Value::Bytes(b) => match sequence_index_spec(ins, b.len() as int, index) {
            Ok(i) => Ok(Value::Int(b[i] as i64)),
            Err(e) => Err(e),
        },
        Value::Dict(entries) => match first_key(entries, index) {
            Some(k) => Ok(entries[k].1),
            None => Err(VmFault::KeyError { offset: ins.offset }),
        },
        _ => Err(type_fault(ins, "subscription"@, container, Some(index))),
    }
}

/// `STORE_SUBSCR`: the container after `container[index] = value`: a list
/// item is replaced; in a dict the first Python-equal key keeps its place
/// and takes the value, or the pair is added at the end.
pub open spec fn store_subscript_spec(ins: Instruction, container: Value, index: Value, value: Value) -> Result<
    Value,
    VmFault,
> {
    match container {
        Value::List(items) => match sequence_index_spec(ins, items.len() as int, index) {
            Ok(i) => Ok(Value::List(items.update(i, value))),
            Err(e) => Err(e),
        },
        Value::Dict(entries) => match first_key(entries, index) {
            Some(k) => Ok(Value::Dict(entries.update(k, (entries[k].0, value)))),
            None => Ok(Value::Dict(entries.push((index, value)))),
        },
        _ => Err(type_fault(ins, "item assignment"@, container, Some(index))),
    }
}

/// `LIST_EXTEND` and `SET_UPDATE` on their target: a list takes all items;
/// a set takes the items with Python-equal repeats among them dropped.
pub open spec fn extend_spec(ins: Instruction, target: Value, items: Seq<Value>, is_set: bool) -> Result<
    Value,
    VmFault,
> {
    match target {
        Value::List(t) if !is_set => Ok(Value::List(t + items)),
        Value::PySet(t) if is_set => Ok(Value::PySet(t + unique_values(items))),
        _ => Err(
            type_fault(
                ins,
                if is_set {
                    "set update"@
                } else {
                    "list extend"@
                },
                target,
                None,
            ),
        ),
    }
}

/// An in-place operator (`+=`, `//=`, ...: the selector plus 13) computes
/// the same value, or fails with the same error, as its binary form, and
/// overflows its integer division on the same operands.
pub proof fn lemma_in_place_binary(ins: Instruction, left: Value, right: Value)
    requires
        ins.arg < 13,
    ensures
        binary_spec(Instruction { arg: (ins.arg + 13) as u32, ..ins }, left, right) == binary_spec(
            ins,
            left,
            right,
        ),
        binary_overflows_division(Instruction { arg: (ins.arg + 13) as u32, ..ins }, left, right)
            == binary_overflows_division(ins, left, right),
{
    let in_place = Instruction { arg: (ins.arg + 13) as u32, ..ins };
    assert(in_place.arg % 13 == ins.arg % 13);
    assert(in_place.offset == ins.offset);
}

/// `COMPARE_OP` on two integers below 2^53 in magnitude compares them as
/// integers: selectors 0 to 5 are `<`, `<=`, `==`, `!=`, `>` and `>=`.
pub proof fn lemma_compare_small_ints(ins: Instruction, a: i64, b: i64)
    requires
        ins.arg >> 4u32 <= 5,
        -0x20_0000_0000_0000 < a < 0x20_0000_0000_0000,
        -0x20_0000_0000_0000 < b < 0x20_0000_0000_0000,
    ensures
        compare_spec(ins, Value::Int(a), Value::Int(b)) == Ok::<bool, VmFault>(
            if ins.arg >> 4u32 == 0 {
                a < b
            } else if ins.arg >> 4u32 == 1 {
                a <= b
            } else if ins.arg >> 4u32 == 2 {
                a == b
            } else if ins.arg >> 4u32 == 3 {
                a != b
            } else if ins.arg >> 4u32 == 4 {
                a > b
            } else {
                a >= b
            },
        ),
{
    lemma_small_ints_compare(a as int, b as int);
}

/// The six comparisons of one pair of operands agree with each other: `>=`
/// is the negation of `<`, `<=` of `>`, `!=` of `==`, and `>` is `<` with
/// the operands swapped; each pair either answers both or fails alike.
pub proof fn lemma_compare_selectors(
    lt: Instruction,
    le: Instruction,
    eq: Instruction,
    ne: Instruction,
    gt: Instruction,
    ge: Instruction,
    left: Value,
    right: Value,
)
    requires
        lt.arg >> 4u32 == 0,
        le.arg >> 4u32 == 1,
        eq.arg >> 4u32 == 2,
        ne.arg >> 4u32 == 3,
        gt.arg >> 4u32 == 4,
        ge.arg >> 4u32 == 5,
        lt.offset == le.offset && le.offset == gt.offset && gt.offset == ge.offset,
    ensures
        compare_spec(lt, left, right) is Ok <==> compare_spec(ge, left, right) is Ok,
        compare_spec(lt, left, right) matches Ok(x) ==> compare_spec(ge, left, right) == Ok::<
            bool,
            VmFault,
        >(!x),
        compare_spec(gt, left, right) is Ok <==> compare_spec(le, left, right) is Ok,
        compare_spec(gt, left, right) matches Ok(x) ==> compare_spec(le, left, right) == Ok::<
            bool,
            VmFault,
        >(!x),
        compare_spec(eq, left, right) matches Ok(x) && compare_spec(ne, left, right) == Ok::<
            bool,
            VmFault,
        >(!x),
        compare_spec(gt, left, right) matches Ok(x) ==> compare_spec(lt, right, left) == Ok::<
            bool,
            VmFault,
        >(x),
        compare_spec(gt, left, right) is Ok <==> compare_spec(lt, right, left) is Ok,
{
    match (numeric_of(left), numeric_of(right)) {
        (Some(x), Some(y)) => {},
        _ => match (left, right) {
            (Value::String(a), Value::String(b)) => {
                lemma_lex_antisymmetric(code_points(a), code_points(b));
                lemma_lex_antisymmetric(code_points(b), code_points(a));
            },
            (Value::Bytes(a), Value::Bytes(b)) => {
                lemma_lex_antisymmetric(byte_values(a), byte_values(b));
                lemma_lex_antisymmetric(byte_values(b), byte_values(a));
            },
            _ => {},
        },
    }
}

/// When a float takes part, `+`, `-`, `*`, `/`, `//`, `%` and `**` hand the
/// host the request for that very operation on the two numbers as binary64
/// values, left operand first: `//` asks for the floor of the quotient and
/// `/` for the quotient itself. `/`, `//` and `%` by a zero fail with
/// `ZeroDivision` instead.
pub proof fn lemma_float_arithmetic(ins: Instruction, op: u32, l: Numeric, r: Numeric)
    requires
        l is Float || r is Float,
        op == 0 || op == 2 || op == 5 || op == 6 || op == 8 || op == 10 || op == 11,
    ensures
        numeric_binary_spec(ins, op, l, r) == if (op == 2 || op == 6 || op == 11) && is_zero(
            float_bits_of(r),
        ) {
            Err::<Produced, VmFault>(VmFault::ZeroDivision { offset: ins.offset })
        } else {
            Ok(
                Produced::Float(
                    FloatRequest {
                        operation: match op {
                            0u32 => FloatOperation::Add,
                            10u32 => FloatOperation::Subtract,
                            5u32 => FloatOperation::Multiply,
                            11u32 => FloatOperation::TrueDivide,
                            2u32 => FloatOperation::FloorDivide,
                            6u32 => FloatOperation::Remainder,
                            _ => FloatOperation::Power,
                        },
                        left: float_bits_of(l),
                        right: float_bits_of(r),
                    },
                ),
            )
        },
{
}

/// On two integers, `+`, `-` and `*` give the exact sum, difference and
/// product when it fits in 64 bits and fail with `IntegerOverflow` when it
/// does not. `//` gives the quotient rounded toward minus infinity and `%`
/// the remainder that goes with it, which lies between zero and the divisor
/// (on the divisor's side); both fail with `ZeroDivision` on a zero divisor.
pub proof fn lemma_int_arithmetic(ins: Instruction, a: i64, b: i64)
    requires
        !(a == i64::MIN && b == -1),
    ensures
        numeric_binary_spec(ins, 0, Numeric::Int(a), Numeric::Int(b)) == if fits_i64(a + b) {
            Ok::<Produced, VmFault>(Produced::Value(Value::Int((a + b) as i64)))
        } else {
            Err(VmFault::IntegerOverflow { offset: ins.offset, operation: "+"@ })
        },
        numeric_binary_spec(ins, 10, Numeric::Int(a), Numeric::Int(b)) == if fits_i64(a - b) {
            Ok::<Produced, VmFault>(Produced::Value(Value::Int((a - b) as i64)))
        } else {
            Err(VmFault::IntegerOverflow { offset: ins.offset, operation: "-"@ })
        },
        numeric_binary_spec(ins, 5, Numeric::Int(a), Numeric::Int(b)) == if fits_i64(a * b) {
            Ok::<Produced, VmFault>(Produced::Value(Value::Int((a * b) as i64)))
        } else {
            Err(VmFault::IntegerOverflow { offset: ins.offset, operation: "*"@ })
        },
        b == 0 ==> numeric_binary_spec(ins, 2, Numeric::Int(a), Numeric::Int(b)) == Err::<
            Produced,
            VmFault,
        >(VmFault::ZeroDivision { offset: ins.offset }),
        b == 0 ==> numeric_binary_spec(ins, 6, Numeric::Int(a), Numeric::Int(b)) == Err::<
            Produced,
            VmFault,
        >(VmFault::ZeroDivision { offset: ins.offset }),
        b > 0 ==> (numeric_binary_spec(ins, 2, Numeric::Int(a), Numeric::Int(b)) matches Ok(
            Produced::Value(Value::Int(q)),
        ) && q * b <= a < q * b + b),
        b < 0 ==> (numeric_binary_spec(ins, 2, Numeric::Int(a), Numeric::Int(b)) matches Ok(
            Produced::Value(Value::Int(q)),
        ) && q * b + b < a <= q * b),
        numeric_binary_spec(ins, 2, Numeric::Int(a), Numeric::Int(b)) matches Ok(
            Produced::Value(Value::Int(q)),
        ) ==> numeric_binary_spec(ins, 6, Numeric::Int(a), Numeric::Int(b)) == if fits_i64(
            q * b,
        ) {
            Ok::<Produced, VmFault>(Produced::Value(Value::Int((a - q * b) as i64)))
        } else {
            Err(VmFault::IntegerOverflow { offset: ins.offset, operation: "%"@ })
        },
{
    if b != 0 {
        lemma_int_to_float_nonzero(b as int);
        let q = floor_div(a as int, b as int);
        lemma_floor_remainder(a as int, b as int);
        let m = a - q * b;
        assert(fits_i64(q)) by (nonlinear_arith)
            requires
                b > 0 ==> 0 <= a - q * b < b,
                b < 0 ==> b < a - q * b <= 0,
                b != 0,
                i64::MIN <= a <= i64::MAX,
                i64::MIN <= b <= i64::MAX,
                !(a == i64::MIN && b == -1),
        {
            if b > 0 {
                assert(q * b <= a);
                assert(a < q * b + b);
                if q > i64::MAX {
                    assert(q * b >= q);
                }
                if q < i64::MIN {
                    assert((q + 1) * b <= (i64::MIN as int) * 1);
                }
            } else {
                if q > i64::MAX {
                    assert(q * b <= -q);
                }
                if q < i64::MIN {
                    assert(q * b >= -q);
                }
            }
        }
        assert((q as i64) as int == q);
    }
}

/// Where an index lands does not depend on the instruction asking.
pub proof fn lemma_sequence_index_same(a: Instruction, b: Instruction, len: int, index: Value)
    requires
        sequence_index_spec(a, len, index) is Ok,
    ensures
        sequence_index_spec(b, len, index) == sequence_index_spec(a, len, index),
{
}

/// Storing an item into a list and then loading the same index gives the
/// stored item back.
pub proof fn lemma_list_store_then_load(
    store: Instruction,
    load: Instruction,
    items: Seq<Value>,
    index: Value,
    v: Value,
)
    requires
        sequence_index_spec(store, items.len() as int, index) is Ok,
    ensures
        store_subscript_spec(store, Value::List(items), index, v) matches Ok(updated)
            && load_subscript_spec(load, updated, index) == Ok::<Value, VmFault>(v),
{
    let i = sequence_index_spec(store, items.len() as int, index)->Ok_0;
    lemma_sequence_index_same(store, load, items.len() as int, index);
    assert(items.update(i, v).len() == items.len());
}

/// Storing a value under a key of a dict and then loading that key gives the
/// stored value back, provided the key is Python-equal to itself (a NaN key
/// is not, and is never found again).
pub proof fn lemma_dict_store_then_load(
    store: Instruction,
    load: Instruction,
    entries: Seq<(Value, Value)>,
    key: Value,
    v: Value,
)
    requires
        python_eq(key, key),
    ensures
        store_subscript_spec(store, Value::Dict(entries), key, v) matches Ok(updated)
            && load_subscript_spec(load, updated, key) == Ok::<Value, VmFault>(v),
{
    match first_key(entries, key) {
        Some(k) => {
            let after = entries.update(k, (entries[k].0, v));
            assert forall|j: int| 0 <= j < after.len() implies #[trigger] after[j].0 == entries[j].0 by {
            }
            assert(0 <= k < after.len() && python_eq(after[k].0, key) && forall|j: int|
                0 <= j < k ==> !python_eq(#[trigger] after[j].0, key));
            let c = first_key(after, key)->Some_0;
            if c < k {
                assert(!python_eq(entries[c].0, key));
            } else if c > k {
                assert(!python_eq(after[k].0, key));
            }
        },
        None => {
            let after = entries.push((key, v));
            let k = entries.len() as int;
            assert forall|j: int| 0 <= j < k implies !python_eq(#[trigger] after[j].0, key) by {
                assert(after[j] == entries[j]);
                if python_eq(entries[j].0, key) {
                    lemma_first_match_exists(entries, key, j);
                }
            }
            assert(0 <= k < after.len() && python_eq(after[k].0, key) && forall|j: int|
                0 <= j < k ==> !python_eq(#[trigger] after[j].0, key));
            let c = first_key(after, key)->Some_0;
            if c < k {
                assert(!python_eq(after[c].0, key));
            }
        },
    }
}

/// A key that some position matches has a first matching position.
pub proof fn lemma_first_match_exists(entries: Seq<(Value, Value)>, key: Value, j: int)
    requires
        0 <= j < entries.len(),
        python_eq(entries[j].0, key),
    ensures
        first_key(entries, key) is Some,
    decreases j,
{
    if exists|i: int| 0 <= i < j && python_eq(#[trigger] entries[i].0, key) {
        let i = choose|i: int| 0 <= i < j && python_eq(#[trigger] entries[i].0, key);
        lemma_first_match_exists(entries, key, i);
    } else {
        assert(0 <= j < entries.len() && python_eq(entries[j].0, key) && forall|m: int|
            0 <= m < j ==> !python_eq(#[trigger] entries[m].0, key));
    }
}

/// Every sequence orders equal to itself.
pub proof fn lemma_lex_reflexive(a: Seq<int>)
    ensures
        lex_compare(a, a) == Comparison::Equal,
    decreases a.len(),
{
    if a.len() > 0 {
        lemma_lex_reflexive(a.drop_first());
    }
}

/// The order is antisymmetric, and only equal sequences order equal.
pub proof fn lemma_lex_antisymmetric(a: Seq<int>, b: Seq<int>)
    ensures
        (lex_compare(a, b) == Comparison::Less) == (lex_compare(b, a) == Comparison::Greater),
        lex_compare(a, b) == Comparison::Equal ==> a == b,
    decreases a.len(),
{
    if a.len() > 0 && b.len() > 0 && a[0] == b[0] {
        lemma_lex_antisymmetric(a.drop_first(), b.drop_first());
        if lex_compare(a, b) == Comparison::Equal {
            assert(a =~= seq![a[0]] + a.drop_first());
            assert(b =~= seq![b[0]] + b.drop_first());
        }
    }
}

/// The order is transitive.
pub proof fn lemma_lex_transitive(a: Seq<int>, b: Seq<int>, c: Seq<int>)
    requires
        lex_compare(a, b) == Comparison::Less,
        lex_compare(b, c) == Comparison::Less,
    ensures
        lex_compare(a, c) == Comparison::Less,
    decreases a.len(),
{
    if a.len() > 0 && b.len() > 0 && c.len() > 0 && a[0] == b[0] && b[0] == c[0] {
        lemma_lex_transitive(a.drop_first(), b.drop_first(), c.drop_first());
    }
}

/// Texts with the same code points are the same text.
pub proof fn lemma_code_points_injective(a: Seq<char>, b: Seq<char>)
    requires
        code_points(a) == code_points(b),
    ensures
        a == b,
{
    assert(a.len() == code_points(a).len() == code_points(b).len() == b.len());
    assert forall|i: int| 0 <= i < a.len() implies a[i] == b[i] by {
        let x = a[i] as u32;
        let y = b[i] as u32;
        assert(code_points(a)[i] == x as int);
        assert(code_points(b)[i] == y as int);
        vstd::utf8::char_u32_cast(a[i], x);
        vstd::utf8::char_u32_cast(b[i], y);
    }
    assert(a =~= b);
}

} // verus!
