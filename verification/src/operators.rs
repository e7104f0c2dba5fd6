//! The VM's operators on values: unary and binary operators, comparisons
//! and subscripts.
use crate::arith::{
    binary_operation_name, checked_pow, checked_shift, floor_div_int, invalid_argument,
    operation_name, overflow_error, remainder_int, type_error,
};
use crate::bytecode::Instruction;
use crate::decimal::decimal_text;
use crate::error::{VmError, VmFault, fault_view};
use crate::ieee::{Comparison, float_is_zero, float_negate, float_order};
use crate::ops::{
    FloatOperation, FloatRequest, Produced, binary_overflows_division, binary_spec, byte_values,
    code_points, compare_spec, concat_spec, extend_spec, first_key, invert_spec, lex_compare,
    load_subscript_spec, negative_spec, numeric_binary_spec, positive_spec, repeat_seq, repeat_spec,
    sequence_index_spec, store_subscript_spec,
};
use crate::value::{
    Numeric, Value, VmValue, clone_vm, clone_vm_values, lemma_vm_entries_view, lemma_vm_values_view,
    lemma_vm_values_view_push, numeric, python_eq, python_equal, unique, value_result_is,
    vm_entries_view, vm_values_view, vm_view,
};
use vstd::prelude::*;
use vstd::string::{StrSliceExecFns, StringExecFns};

verus! {

broadcast use vstd::string::to_string_from_display_ensures_for_str;

/// What an operator produced: a value, or a floating-point operation whose
/// result the host supplies.
pub enum Computed {
    Value(VmValue),
    Float(FloatRequest),
}

/// A computed result and the mathematical result it stands for agree.
pub open spec fn computed_is(r: Result<Computed, VmError>, s: Result<Produced, VmFault>) -> bool {
    match s {
        Ok(Produced::Value(v)) => r matches Ok(Computed::Value(x)) && vm_view(x) == v,
        Ok(Produced::Float(req)) => r == Ok::<Computed, VmError>(Computed::Float(req)),
        Err(f) => r matches Err(e) && fault_view(e) == f,
    }
}

/// `UNARY_NEGATIVE`.
pub fn unary_negative(ins: Instruction, value: VmValue) -> (r: Result<VmValue, VmError>)
    ensures
        value_result_is(r, negative_spec(ins, vm_view(value))),
{
    match value {
        VmValue::Int(i) => if i == i64::MIN {
            Err(overflow_error(ins, "unary -"))
        } else {
            Ok(VmValue::Int(-i))
        },
        VmValue::Float(f) => Ok(VmValue::Float(float_negate(f))),
        VmValue::Bool(b) => Ok(VmValue::Int(if b { -1 } else { 0 })),
        other => Err(type_error(ins, "unary -", &other, None)),
    }
}

/// Unary plus, as `CALL_INTRINSIC_1` with `INTRINSIC_UNARY_POSITIVE` computes it.
pub fn unary_positive(ins: Instruction, value: VmValue) -> (r: Result<VmValue, VmError>)
    ensures
        value_result_is(r, positive_spec(ins, vm_view(value))),
{
    match value {
        VmValue::Int(i) => Ok(VmValue::Int(i)),
        VmValue::Float(f) => Ok(VmValue::Float(f)),
        VmValue::Bool(b) => Ok(VmValue::Int(if b { 1 } else { 0 })),
        other => Err(type_error(ins, "unary +", &other, None)),
    }
}

/// `UNARY_INVERT`.
pub fn unary_invert(ins: Instruction, value: VmValue) -> (r: Result<VmValue, VmError>)
    ensures
        value_result_is(r, invert_spec(ins, vm_view(value))),
{
    match value {
        VmValue::Int(i) => Ok(VmValue::Int(-1 - i)),
        VmValue::Bool(b) => Ok(VmValue::Int(if b { -2 } else { -1 })),
        other => Err(type_error(ins, "unary ~", &other, None)),
    }
}

/// Appends copies of values.
fn append_values(out: &mut Vec<VmValue>, items: &[VmValue])
    ensures
        vm_values_view(final(out)@) == vm_values_view(old(out)@) + vm_values_view(items@),
{
    let ghost start = out@;
    let mut i: usize = 0;
    while i < items.len()
        invariant
            i <= items@.len(),
            vm_values_view(out@) == vm_values_view(start) + vm_values_view(items@.take(i as int)),
        decreases items@.len() - i,
    {
        let v = clone_vm(&items[i]);
        proof {
            lemma_vm_values_view_push(out@, v);
            assert(items@.take(i + 1) =~= items@.take(i as int).push(items@[i as int]));
            lemma_vm_values_view_push(items@.take(i as int), items@[i as int]);
            assert(vm_values_view(start) + vm_values_view(items@.take(i + 1)) =~= (vm_values_view(
                start,
            ) + vm_values_view(items@.take(i as int))).push(vm_view(v)));
        }
        out.push(v);
        i += 1;
    }
    assert(items@.take(i as int) =~= items@);
}

/// Appends bytes.
fn append_bytes(out: &mut Vec<u8>, items: &[u8])
    ensures
        final(out)@ == old(out)@ + items@,
{
    let ghost start = out@;
    let mut i: usize = 0;
    while i < items.len()
        invariant
            i <= items@.len(),
            out@ == start + items@.take(i as int),
        decreases items@.len() - i,
    {
        out.push(items[i]);
        i += 1;
        assert(out@ =~= start + items@.take(i as int));
    }
    assert(items@.take(i as int) =~= items@);
}

/// `left + right` for two strings, bytes, lists or tuples.
fn concat(left: &VmValue, right: &VmValue) -> (r: Option<VmValue>)
    ensures
        match concat_spec(vm_view(*left), vm_view(*right)) {
            Some(v) => r matches Some(x) && vm_view(x) == v,
            None => r is None,
        },
{
    match (left, right) {
        (VmValue::String(a), VmValue::String(b)) => {
            let mut s = a.clone();
            s.append(b.as_str());
            Some(VmValue::String(s))
        },
        (VmValue::Bytes(a), VmValue::Bytes(b)) => {
            let mut v = vstd::slice::slice_to_vec(a.as_slice());
            append_bytes(&mut v, b.as_slice());
            Some(VmValue::Bytes(v))
        },
        (VmValue::List(a), VmValue::List(b)) => {
            let mut v = clone_vm_values(a.as_slice());
            append_values(&mut v, b.as_slice());
            Some(VmValue::List(v))
        },
        (VmValue::Tuple(a), VmValue::Tuple(b)) => {
            let mut v = clone_vm_values(a.as_slice());
            append_values(&mut v, b.as_slice());
            Some(VmValue::Tuple(v))
        },
        _ => None,
    }
}

/// Values repeated `count` times.
fn repeat_values(items: &[VmValue], count: usize) -> (r: Vec<VmValue>)
    ensures
        vm_values_view(r@) == repeat_seq(vm_values_view(items@), count as nat),
{
    let mut out: Vec<VmValue> = Vec::new();
    let mut k: usize = 0;
    while k < count
        invariant
            k <= count,
            vm_values_view(out@) == repeat_seq(vm_values_view(items@), k as nat),
        decreases count - k,
    {
        append_values(&mut out, items);
        k += 1;
    }
    out
}

/// Bytes repeated `count` times.
fn repeat_bytes(items: &[u8], count: usize) -> (r: Vec<u8>)
    ensures
        r@ == repeat_seq(items@, count as nat),
{
    let mut out: Vec<u8> = Vec::new();
    let mut k: usize = 0;
    while k < count
        invariant
            k <= count,
            out@ == repeat_seq(items@, k as nat),
        decreases count - k,
    {
        append_bytes(&mut out, items);
        k += 1;
    }
    out
}

/// A text repeated `count` times.
fn repeat_text(text: &String, count: usize) -> (r: String)
    ensures
        r@ == repeat_seq(text@, count as nat),
{
    let mut out = String::new();
    let mut k: usize = 0;
    while k < count
        invariant
            k <= count,
            out@ == repeat_seq(text@, k as nat),
        decreases count - k,
    {
        out.append(text.as_str());
        k += 1;
    }
    out
}

/// `sequence * count` for a string, bytes, list or tuple and an integer count.
fn repeat_sequence(sequence: &VmValue, count: &VmValue) -> (r: Option<VmValue>)
    ensures
        match repeat_spec(vm_view(*sequence), vm_view(*count)) {
            Some(v) => r matches Some(x) && vm_view(x) == v,
            None => r is None,
        },
{
    let c = match count.as_index() {
        Some(c) => c,
        None => return None,
    };
    let n: usize = if c <= 0 {
        0
    } else if c as u64 > usize::MAX as u64 {
        return None;
    } else {
        c as usize
    };
    match sequence {
        VmValue::String(s) => Some(VmValue::String(repeat_text(s, n))),
        VmValue::Bytes(b) => Some(VmValue::Bytes(repeat_bytes(b.as_slice(), n))),
        VmValue::List(v) => Some(VmValue::List(repeat_values(v.as_slice(), n))),
        VmValue::Tuple(v) => Some(VmValue::Tuple(repeat_values(v.as_slice(), n))),
        _ => None,
    }
}

/// An integer result, or the overflow error of the operator.
fn int_value(ins: Instruction, op: u32, v: Option<i64>) -> (r: Result<Computed, VmError>)
    ensures
        v matches Some(x) ==> (r matches Ok(Computed::Value(VmValue::Int(y))) && y == x),
        v is None ==> (r matches Err(e) && fault_view(e) == crate::arith::overflow_fault(
            ins,
            operation_name(op),
        )),
{
    match v {
        Some(x) => Ok(Computed::Value(VmValue::Int(x))),
        None => Err(overflow_error(ins, binary_operation_name(op))),
    }
}

/// A floating-point request for the host.
fn float_request(operation: FloatOperation, l: Numeric, r: Numeric) -> (c: Computed)
    ensures
        c == Computed::Float(
            FloatRequest {
                operation,
                left: crate::value::float_bits_of(l),
                right: crate::value::float_bits_of(r),
            },
        ),
{
    Computed::Float(FloatRequest { operation, left: l.as_f64_bits(), right: r.as_f64_bits() })
}

/// A binary operator on two numbers.
pub fn numeric_binary(ins: Instruction, op: u32, l: Numeric, r: Numeric) -> (res: Result<
    Computed,
    VmError,
>)
    requires
        op < 13,
        !((op == 2 || op == 6) && l == Numeric::Int(i64::MIN) && r == Numeric::Int(-1i64)),
    ensures
        computed_is(res, numeric_binary_spec(ins, op, l, r)),
{
    if op == 1 || op == 3 || op == 7 || op == 9 || op == 12 {
        let (a, b) = match (l, r) {
            (Numeric::Int(a), Numeric::Int(b)) => (a, b),
            _ => {
                return Err(
                    VmError::TypeError {
                        offset: ins.offset,
                        operation: binary_operation_name(op).to_string(),
                        left: "float".to_string(),
                        right: Some("float".to_string()),
                    },
                );
            },
        };
        let value = if op == 1 {
            a & b
        } else if op == 7 {
            a | b
        } else if op == 12 {
            a ^ b
        } else {
            match checked_shift(ins, a, b, op == 3) {
                Ok(v) => v,
                Err(e) => return Err(e),
            }
        };
        return Ok(Computed::Value(VmValue::Int(value)));
    }
    if (op == 2 || op == 6) && float_is_zero(r.as_f64_bits()) {
        return Err(VmError::ZeroDivision { offset: ins.offset });
    }
    if op == 11 {
        if float_is_zero(r.as_f64_bits()) {
            return Err(VmError::ZeroDivision { offset: ins.offset });
        }
        return Ok(float_request(FloatOperation::TrueDivide, l, r));
    }
    if op == 8 {
        if let (Numeric::Int(a), Numeric::Int(b)) = (l, r) {
            if b >= 0 {
                if b > 0xffff_ffff {
                    return Err(overflow_error(ins, "**"));
                }
                if let Some(v) = checked_pow(a, b as u32) {
                    return Ok(Computed::Value(VmValue::Int(v)));
                }
            }
        }
        return Ok(float_request(FloatOperation::Power, l, r));
    }
    match (l, r) {
        (Numeric::Int(a), Numeric::Int(b)) => {
            if op == 0 {
                int_value(ins, op, a.checked_add(b))
            } else if op == 2 {
                match floor_div_int(a, b, ins) {
                    Ok(q) => Ok(Computed::Value(VmValue::Int(q))),
                    Err(e) => Err(e),
                }
            } else if op == 5 {
                int_value(ins, op, a.checked_mul(b))
            } else if op == 6 {
                match remainder_int(a, b, ins) {
                    Ok(v) => Ok(Computed::Value(VmValue::Int(v))),
                    Err(e) => Err(e),
                }
            } else if op == 10 {
                int_value(ins, op, a.checked_sub(b))
            } else {
                Err(
                    VmError::UnsupportedOperation {
                        offset: ins.offset,
                        operation: binary_operation_name(op).to_string(),
                    },
                )
            }
        },
        _ => {
            let operation = if op == 0 {
                FloatOperation::Add
            } else if op == 2 {
                FloatOperation::FloorDivide
            } else if op == 5 {
                FloatOperation::Multiply
            } else if op == 6 {
                FloatOperation::Remainder
            } else if op == 10 {
                FloatOperation::Subtract
            } else {
                return Err(
                    VmError::UnsupportedOperation {
                        offset: ins.offset,
                        operation: binary_operation_name(op).to_string(),
                    },
                );
            };
            Ok(float_request(operation, l, r))
        },
    }
}

/// `BINARY_OP`.
pub fn binary_op(ins: Instruction, left: &VmValue, right: &VmValue) -> (res: Result<Computed, VmError>)
    requires
        !binary_overflows_division(ins, vm_view(*left), vm_view(*right)),
    ensures
        computed_is(res, binary_spec(ins, vm_view(*left), vm_view(*right))),
{
    let op = ins.arg % 13;
    if op == 0 {
        if let Some(v) = concat(left, right) {
            return Ok(Computed::Value(v));
        }
    }
    if op == 5 {
        if let Some(v) = repeat_sequence(left, right) {
            return Ok(Computed::Value(v));
        }
        if let Some(v) = repeat_sequence(right, left) {
            return Ok(Computed::Value(v));
        }
    }
    match (numeric(left), numeric(right)) {
        (Some(l), Some(r)) => numeric_binary(ins, op, l, r),
        _ => Err(type_error(ins, binary_operation_name(op), left, Some(right))),
    }
}

/// Sequences that agree on a prefix order as what follows the prefix does.
pub proof fn lemma_lex_skip(a: Seq<int>, b: Seq<int>, i: int)
    requires
        0 <= i <= a.len(),
        i <= b.len(),
        forall|j: int| 0 <= j < i ==> a[j] == b[j],
    ensures
        lex_compare(a, b) == lex_compare(a.skip(i), b.skip(i)),
    decreases i,
{
    if i == 0 {
        assert(a.skip(0) =~= a);
        assert(b.skip(0) =~= b);
    } else {
        assert(a[0] == b[0]);
        lemma_lex_skip(a.drop_first(), b.drop_first(), i - 1);
        assert(a.drop_first().skip(i - 1) =~= a.skip(i));
        assert(b.drop_first().skip(i - 1) =~= b.skip(i));
    }
}

/// The lexicographic order of two texts by code point.
pub(crate) fn compare_text(a: &String, b: &String) -> (r: Comparison)
    ensures
        r == lex_compare(code_points(a@), code_points(b@)),
{
    let la = a.as_str().unicode_len();
    let lb = b.as_str().unicode_len();
    let ghost ca = code_points(a@);
    let ghost cb = code_points(b@);
    let mut i: usize = 0;
    while i < la && i < lb
        invariant
            la == a@.len(),
            lb == b@.len(),
            ca == code_points(a@),
            cb == code_points(b@),
            i <= la,
            i <= lb,
            forall|j: int| 0 <= j < i ==> ca[j] == cb[j],
        decreases la - i,
    {
        let x = a.as_str().get_char(i) as u32;
        let y = b.as_str().get_char(i) as u32;
        if x != y {
            proof {
                lemma_lex_skip(ca, cb, i as int);
                assert(ca.skip(i as int)[0] == x);
                assert(cb.skip(i as int)[0] == y);
            }
            if x < y {
                return Comparison::Less;
            } else {
                return Comparison::Greater;
            }
        }
        i += 1;
    }
    proof {
        lemma_lex_skip(ca, cb, i as int);
    }
    if i == la {
        if i == lb {
            Comparison::Equal
        } else {
            Comparison::Less
        }
    } else {
        Comparison::Greater
    }
}

/// The lexicographic order of two byte sequences.
fn compare_bytes(a: &[u8], b: &[u8]) -> (r: Comparison)
    ensures
        r == lex_compare(byte_values(a@), byte_values(b@)),
{
    let ghost ca = byte_values(a@);
    let ghost cb = byte_values(b@);
    let mut i: usize = 0;
    while i < a.len() && i < b.len()
        invariant
            ca == byte_values(a@),
            cb == byte_values(b@),
            i <= a@.len(),
            i <= b@.len(),
            forall|j: int| 0 <= j < i ==> ca[j] == cb[j],
        decreases a@.len() - i,
    {
        if a[i] != b[i] {
            proof {
                lemma_lex_skip(ca, cb, i as int);
                assert(ca.skip(i as int)[0] == a@[i as int]);
                assert(cb.skip(i as int)[0] == b@[i as int]);
            }
            if a[i] < b[i] {
                return Comparison::Less;
            } else {
                return Comparison::Greater;
            }
        }
        i += 1;
    }
    proof {
        lemma_lex_skip(ca, cb, i as int);
    }
    if i == a.len() {
        if i == b.len() {
            Comparison::Equal
        } else {
            Comparison::Less
        }
    } else {
        Comparison::Greater
    }
}

/// `COMPARE_OP`.
pub fn compare_op(ins: Instruction, left: &VmValue, right: &VmValue) -> (r: Result<bool, VmError>)
    ensures
        match compare_spec(ins, vm_view(*left), vm_view(*right)) {
            Ok(b) => r == Ok::<bool, VmError>(b),
            Err(f) => r matches Err(e) && fault_view(e) == f,
        },
{
    let c = ins.arg >> 4;
    if c > 5 {
        let mut reason = "unknown COMPARE_OP selector ".to_string();
        reason.append(decimal_text(ins.arg as u64).as_str());
        return Err(invalid_argument(ins, reason));
    }
    if c == 2 {
        return Ok(python_equal(left, right));
    }
    if c == 3 {
        return Ok(!python_equal(left, right));
    }
    let ordering = match (numeric(left), numeric(right)) {
        (Some(x), Some(y)) => match float_order(x.as_f64_bits(), y.as_f64_bits()) {
            Some(o) => o,
            None => {
                return Err(
                    VmError::ValueError {
                        offset: ins.offset,
                        operation: "comparison with NaN".to_string(),
                    },
                );
            },
        },
        _ => match (left, right) {
            (VmValue::String(a), VmValue::String(b)) => compare_text(a, b),
            (VmValue::Bytes(a), VmValue::Bytes(b)) => compare_bytes(a.as_slice(), b.as_slice()),
            _ => return Err(type_error(ins, "comparison", left, Some(right))),
        },
    };
    Ok(
        if c == 0 {
            ordering == Comparison::Less
        } else if c == 1 {
            ordering != Comparison::Greater
        } else if c == 4 {
            ordering == Comparison::Greater
        } else {
            ordering != Comparison::Less
        },
    )
}

/// The position an index value selects in a sequence of length `length`.
pub fn sequence_index(ins: Instruction, length: usize, index: &VmValue) -> (r: Result<usize, VmError>)
    ensures
        match sequence_index_spec(ins, length as int, vm_view(*index)) {
            Ok(n) => r == Ok::<usize, VmError>(n as usize) && 0 <= n < length,
            Err(f) => r matches Err(e) && fault_view(e) == f,
        },
{
    let i = match index.as_index() {
        Some(i) => i,
        None => return Err(type_error(ins, "sequence index", index, None)),
    };
    let count = length as i64;
    let normalized = if i < 0 {
        count.checked_add(i)
    } else {
        Some(i)
    };
    let n = match normalized {
        Some(n) => n,
        None => return Err(VmError::IndexError { offset: ins.offset, index: i }),
    };
    if n < 0 || n >= count {
        return Err(VmError::IndexError { offset: ins.offset, index: i });
    }
    Ok(n as usize)
}

/// The first position whose key is Python-equal to `key`.
fn find_key(entries: &Vec<(VmValue, VmValue)>, key: &VmValue) -> (r: Option<usize>)
    ensures
        match first_key(vm_entries_view(entries@), vm_view(*key)) {
            Some(k) => r matches Some(i) && i as int == k && 0 <= k < entries@.len(),
            None => r is None,
        },
{
    let ghost es = vm_entries_view(entries@);
    proof {
        lemma_vm_entries_view(entries@);
    }
    let mut i: usize = 0;
    while i < entries.len()
        invariant
            es == vm_entries_view(entries@),
            es.len() == entries@.len(),
            forall|j: int| 0 <= j < entries@.len() ==> #[trigger] es[j] == (vm_view(entries@[j].0), vm_view(entries@[j].1)),
            i <= entries@.len(),
            forall|j: int| 0 <= j < i ==> !python_eq(#[trigger] es[j].0, vm_view(*key)),
        decreases entries@.len() - i,
    {
        let equal = python_equal(&entries[i].0, key);
        assert(es[i as int].0 == vm_view(entries@[i as int].0));
        if equal {
            proof {
                let k = i as int;
                assert(0 <= k < es.len() && python_eq(es[k].0, vm_view(*key)) && forall|j: int|
                    0 <= j < k ==> !python_eq(#[trigger] es[j].0, vm_view(*key)));
                let c = choose|c: int|
                    0 <= c < es.len() && python_eq(#[trigger] es[c].0, vm_view(*key)) && forall|j: int|
                        0 <= j < c ==> !python_eq(#[trigger] es[j].0, vm_view(*key));
                if c < k {
                    assert(!python_eq(es[c].0, vm_view(*key)));
                } else if c > k {
                    assert(!python_eq(es[k].0, vm_view(*key)));
                }
            }
            return Some(i);
        }
        i += 1;
    }
    None
}

/// `BINARY_SUBSCR`.
pub fn load_subscript(ins: Instruction, container: &VmValue, index: &VmValue) -> (r: Result<
    VmValue,
    VmError,
>)
    ensures
        value_result_is(r, load_subscript_spec(ins, vm_view(*container), vm_view(*index))),
{
    match container {
        VmValue::List(values) => {
            proof {
                lemma_vm_values_view(values@);
            }
            match sequence_index(ins, values.len(), index) {
                Ok(i) => Ok(clone_vm(&values[i])),
                Err(e) => Err(e),
            }
        },
        VmValue::Tuple(values) => {
            proof {
                lemma_vm_values_view(values@);
            }
            match sequence_index(ins, values.len(), index) {
                Ok(i) => Ok(clone_vm(&values[i])),
                Err(e) => Err(e),
            }
        },
        VmValue::String(text) => {
            let count = text.as_str().unicode_len();
            match sequence_index(ins, count, index) {
                Ok(i) => {
                    let piece = text.as_str().substring_char(i, i + 1);
                    assert(piece@ =~= seq![text@[i as int]]);
                    Ok(VmValue::String(piece.to_string()))
                },
                Err(e) => Err(e),
            }
        },
        VmValue::Bytes(bytes) => match sequence_index(ins, bytes.len(), index) {
            Ok(i) => Ok(VmValue::Int(bytes[i] as i64)),
            Err(e) => Err(e),
        },
        VmValue::Dict(entries) => {
            proof {
                lemma_vm_entries_view(entries@);
            }
            match find_key(entries, index) {
                Some(k) => Ok(clone_vm(&entries[k].1)),
                None => Err(VmError::KeyError { offset: ins.offset }),
            }
        },
        _ => Err(type_error(ins, "subscription", container, Some(index))),
    }
}

/// Replacing one item replaces its content.
pub proof fn lemma_vm_values_view_update(s: Seq<VmValue>, i: int, v: VmValue)
    requires
        0 <= i < s.len(),
    ensures
        vm_values_view(s.update(i, v)) == vm_values_view(s).update(i, vm_view(v)),
{
    lemma_vm_values_view(s);
    lemma_vm_values_view(s.update(i, v));
    assert(vm_values_view(s.update(i, v)) =~= vm_values_view(s).update(i, vm_view(v)));
}

/// Replacing one pair replaces its content.
pub proof fn lemma_vm_entries_view_update(s: Seq<(VmValue, VmValue)>, i: int, e: (VmValue, VmValue))
    requires
        0 <= i < s.len(),
    ensures
        vm_entries_view(s.update(i, e)) == vm_entries_view(s).update(i, (vm_view(e.0), vm_view(e.1))),
{
    lemma_vm_entries_view(s);
    lemma_vm_entries_view(s.update(i, e));
    assert(vm_entries_view(s.update(i, e)) =~= vm_entries_view(s).update(
        i,
        (vm_view(e.0), vm_view(e.1)),
    ));
}

/// `STORE_SUBSCR`: the container after `container[index] = value`.
pub fn store_subscript(ins: Instruction, container: VmValue, index: VmValue, value: VmValue) -> (r: Result<
    VmValue,
    VmError,
>)
    ensures
        value_result_is(
            r,
            store_subscript_spec(ins, vm_view(container), vm_view(index), vm_view(value)),
        ),
{
    match container {
        VmValue::List(values) => {
            proof {
                lemma_vm_values_view(values@);
            }
            match sequence_index(ins, values.len(), &index) {
                Ok(i) => {
                    let mut values = values;
                    proof {
                        lemma_vm_values_view_update(values@, i as int, value);
                    }
                    values.set(i, value);
                    Ok(VmValue::List(values))
                },
                Err(e) => Err(e),
            }
        },
        VmValue::Dict(entries) => {
            proof {
                lemma_vm_entries_view(entries@);
            }
            let mut entries = entries;
            match find_key(&entries, &index) {
                Some(k) => {
                    let key = clone_vm(&entries[k].0);
                    proof {
                        lemma_vm_entries_view_update(entries@, k as int, (key, value));
                    }
                    entries.set(k, (key, value));
                    Ok(VmValue::Dict(entries))
                },
                None => {
                    proof {
                        crate::value::lemma_vm_entries_view_push(entries@, (index, value));
                    }
                    entries.push((index, value));
                    Ok(VmValue::Dict(entries))
                },
            }
        },
        other => Err(type_error(ins, "item assignment", &other, Some(&index))),
    }
}

/// `LIST_EXTEND` and `SET_UPDATE` on their target.
pub fn extend_target(ins: Instruction, target: VmValue, items: &[VmValue], is_set: bool) -> (r: Result<
    VmValue,
    VmError,
>)
    ensures
        value_result_is(r, extend_spec(ins, vm_view(target), vm_values_view(items@), is_set)),
{
    match target {
        VmValue::List(values) if !is_set => {
            let mut values = values;
            append_values(&mut values, items);
            Ok(VmValue::List(values))
        },
        VmValue::PySet(values) if is_set => {
            let mut values = values;
            let fresh = unique(items);
            append_values(&mut values, fresh.as_slice());
            Ok(VmValue::PySet(values))
        },
        other => Err(
            type_error(
                ins,
                if is_set {
                    "set update"
                } else {
                    "list extend"
                },
                &other,
                None,
            ),
        ),
    }
}

} // verus!
