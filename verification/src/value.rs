//! The owned values the bootstrap VM computes with.
use crate::code::{CodeObject, SpecCode, clone_code, code_view};
use crate::equality::{value_eq, value_equal};
use crate::ieee::{float_eq, float_equal, float_is_zero, int_to_float, int_to_float_bits, is_zero};
use crate::error::{VmError, VmFault, fault_view};
use crate::equality::lemma_entries_view_index;
use crate::marshal::{
    MarshalFloat, MarshalLong, MarshalValue, SpecFloat, SpecValue, entries_view,
    lemma_entries_view_push, lemma_values_view_index, lemma_values_view_push, value_view, values_view,
};
use vstd::prelude::*;

verus! {

broadcast use vstd::string::to_string_from_display_ensures_for_str;

/// A value on the VM's stack, in a local slot or in the globals.
/// Floating-point numbers are held as their IEEE 754 bits.
#[derive(Debug, PartialEq, Eq)]
pub enum VmValue {
    PyNone,
    Bool(bool),
    Int(i64),
    Float(u64),
    String(String),
    Bytes(Vec<u8>),
    Tuple(Vec<VmValue>),
    List(Vec<VmValue>),
    PySet(Vec<VmValue>),
    FrozenSet(Vec<VmValue>),
    Dict(Vec<(VmValue, VmValue)>),
    Code(Box<CodeObject>),
    BuiltinPrint,
}

/// The mathematical content of a VM value.
pub enum Value {
    PyNone,
    Bool(bool),
    Int(i64),
    Float(u64),
    String(Seq<char>),
    Bytes(Seq<u8>),
    Tuple(Seq<Value>),
    List(Seq<Value>),
    PySet(Seq<Value>),
    FrozenSet(Seq<Value>),
    Dict(Seq<(Value, Value)>),
    Code(SpecCode),
    BuiltinPrint,
}

/// The mathematical content of a VM value.
pub open spec fn vm_view(v: VmValue) -> Value
    decreases v, 1nat,
{
    match v {
        VmValue::PyNone => Value::PyNone,
        VmValue::Bool(b) => Value::Bool(b),
        VmValue::Int(i) => Value::Int(i),
        VmValue::Float(f) => Value::Float(f),
        VmValue::String(s) => Value::String(s@),
        VmValue::Bytes(b) => Value::Bytes(b@),
        VmValue::Tuple(items) => Value::Tuple(vm_values_view(items@)),
        VmValue::List(items) => Value::List(vm_values_view(items@)),
        VmValue::PySet(items) => Value::PySet(vm_values_view(items@)),
        VmValue::FrozenSet(items) => Value::FrozenSet(vm_values_view(items@)),
        VmValue::Dict(entries) => Value::Dict(vm_entries_view(entries@)),
        VmValue::Code(code) => Value::Code(code_view(*code)),
        VmValue::BuiltinPrint => Value::BuiltinPrint,
    }
}

/// The mathematical content of each value in a sequence.
pub open spec fn vm_values_view(s: Seq<VmValue>) -> Seq<Value>
    decreases s, 0nat,
{
    if s.len() == 0 {
        Seq::empty()
    } else {
        vm_values_view(s.drop_last()).push(vm_view(s.last()))
    }
}

/// The mathematical content of each key/value pair in a sequence.
pub open spec fn vm_entries_view(s: Seq<(VmValue, VmValue)>) -> Seq<(Value, Value)>
    decreases s, 0nat,
{
    if s.len() == 0 {
        Seq::empty()
    } else {
        vm_entries_view(s.drop_last()).push((vm_view(s.last().0), vm_view(s.last().1)))
    }
}

/// The content of a sequence of values, element by element.
pub proof fn lemma_vm_values_view(s: Seq<VmValue>)
    ensures
        vm_values_view(s).len() == s.len(),
        forall|i: int| 0 <= i < s.len() ==> #[trigger] vm_values_view(s)[i] == vm_view(s[i]),
    decreases s.len(),
{
    if s.len() > 0 {
        lemma_vm_values_view(s.drop_last());
    }
}

/// The content of a sequence of pairs, element by element.
pub proof fn lemma_vm_entries_view(s: Seq<(VmValue, VmValue)>)
    ensures
        vm_entries_view(s).len() == s.len(),
        forall|i: int|
            0 <= i < s.len() ==> #[trigger] vm_entries_view(s)[i] == (vm_view(s[i].0), vm_view(
                s[i].1,
            )),
    decreases s.len(),
{
    if s.len() > 0 {
        lemma_vm_entries_view(s.drop_last());
    }
}

/// Sequences with the same elements have the same content.
pub proof fn lemma_vm_values_view_ext(a: Seq<VmValue>, b: Seq<Value>)
    requires
        a.len() == b.len(),
        forall|i: int| 0 <= i < a.len() ==> #[trigger] vm_view(a[i]) == b[i],
    ensures
        vm_values_view(a) == b,
{
    lemma_vm_values_view(a);
    assert(vm_values_view(a) =~= b);
}

/// Pair sequences with the same elements have the same content.
pub proof fn lemma_vm_entries_view_ext(a: Seq<(VmValue, VmValue)>, b: Seq<(Value, Value)>)
    requires
        a.len() == b.len(),
        forall|i: int| 0 <= i < a.len() ==> (vm_view(#[trigger] a[i].0), vm_view(a[i].1)) == b[i],
    ensures
        vm_entries_view(a) == b,
{
    lemma_vm_entries_view(a);
    assert(vm_entries_view(a) =~= b);
}

/// A value with the same content, built anew.
pub fn clone_vm(v: &VmValue) -> (r: VmValue)
    ensures
        vm_view(r) == vm_view(*v),
    decreases *v, 1nat,
{
    match v {
        VmValue::PyNone => VmValue::PyNone,
        VmValue::Bool(b) => VmValue::Bool(*b),
        VmValue::Int(i) => VmValue::Int(*i),
        VmValue::Float(f) => VmValue::Float(*f),
        VmValue::String(s) => VmValue::String(s.clone()),
        VmValue::Bytes(b) => VmValue::Bytes(vstd::slice::slice_to_vec(b.as_slice())),
        VmValue::Tuple(items) => VmValue::Tuple(clone_vm_values(items.as_slice())),
        VmValue::List(items) => VmValue::List(clone_vm_values(items.as_slice())),
        VmValue::PySet(items) => VmValue::PySet(clone_vm_values(items.as_slice())),
        VmValue::FrozenSet(items) => VmValue::FrozenSet(clone_vm_values(items.as_slice())),
        VmValue::Dict(entries) => VmValue::Dict(clone_vm_entries(entries)),
        VmValue::Code(code) => VmValue::Code(Box::new(clone_code(code))),
        VmValue::BuiltinPrint => VmValue::BuiltinPrint,
    }
}

/// Values with the same content, built anew.
pub fn clone_vm_values(items: &[VmValue]) -> (r: Vec<VmValue>)
    ensures
        vm_values_view(r@) == vm_values_view(items@),
    decreases items@, 0nat,
{
    let mut out: Vec<VmValue> = Vec::new();
    let mut i: usize = 0;
    while i < items.len()
        invariant
            i <= items@.len(),
            out@.len() == i,
            forall|j: int| 0 <= j < i ==> #[trigger] vm_view(out@[j]) == vm_view(items@[j]),
        decreases items@.len() - i,
    {
        proof {
            assert(decreases_to!(items@ => items@[i as int]));
        }
        let v = clone_vm(&items[i]);
        out.push(v);
        i += 1;
    }
    proof {
        lemma_vm_values_view(items@);
        lemma_vm_values_view_ext(out@, vm_values_view(items@));
    }
    out
}

/// Key/value pairs with the same content, built anew.
pub fn clone_vm_entries(entries: &Vec<(VmValue, VmValue)>) -> (r: Vec<(VmValue, VmValue)>)
    ensures
        vm_entries_view(r@) == vm_entries_view(entries@),
    decreases *entries, 0nat,
{
    let mut out: Vec<(VmValue, VmValue)> = Vec::new();
    let mut i: usize = 0;
    while i < entries.len()
        invariant
            i <= entries@.len(),
            out@.len() == i,
            forall|j: int|
                0 <= j < i ==> (vm_view(#[trigger] out@[j].0), vm_view(out@[j].1)) == (vm_view(
                    entries@[j].0,
                ), vm_view(entries@[j].1)),
        decreases entries@.len() - i,
    {
        let key = clone_vm(&entries[i].0);
        let value = clone_vm(&entries[i].1);
        out.push((key, value));
        i += 1;
    }
    proof {
        lemma_vm_entries_view(entries@);
        lemma_vm_entries_view_ext(out@, vm_entries_view(entries@));
    }
    out
}

/// The name of a value's Python type.
pub open spec fn python_type_of(v: Value) -> Seq<char> {
    match v {
        Value::PyNone => "NoneType"@,
        Value::Bool(_) => "bool"@,
        Value::Int(_) => "int"@,
        Value::Float(_) => "float"@,
        Value::String(_) => "str"@,
        Value::Bytes(_) => "bytes"@,
        Value::Tuple(_) => "tuple"@,
        Value::List(_) => "list"@,
        Value::PySet(_) => "set"@,
        Value::FrozenSet(_) => "frozenset"@,
        Value::Dict(_) => "dict"@,
        Value::Code(_) => "code"@,
        Value::BuiltinPrint => "builtin_function_or_method"@,
    }
}

/// Python truthiness: `None`, `False`, zero, and empty strings, bytes and
/// containers are false; everything else (a NaN too) is true.
pub open spec fn truthy(v: Value) -> bool {
    match v {
        Value::PyNone => false,
        Value::Bool(b) => b,
        Value::Int(i) => i != 0,
        Value::Float(f) => !is_zero(f),
        Value::String(s) => s.len() > 0,
        Value::Bytes(b) => b.len() > 0,
        Value::Tuple(s) => s.len() > 0,
        Value::List(s) => s.len() > 0,
        Value::PySet(s) => s.len() > 0,
        Value::FrozenSet(s) => s.len() > 0,
        Value::Dict(s) => s.len() > 0,
        Value::Code(_) => true,
        Value::BuiltinPrint => true,
    }
}

/// The integer a value stands for as an index: an `int`, or a `bool` as 0 or 1.
pub open spec fn index_of_value(v: Value) -> Option<i64> {
    match v {
        Value::Int(i) => Some(i),
        Value::Bool(b) => Some(if b { 1i64 } else { 0i64 }),
        _ => None,
    }
}

/// The items of a tuple, list, set or frozenset.
pub open spec fn items_of(v: Value) -> Option<Seq<Value>> {
    match v {
        Value::Tuple(s) => Some(s),
        Value::List(s) => Some(s),
        Value::PySet(s) => Some(s),
        Value::FrozenSet(s) => Some(s),
        _ => None,
    }
}

/// A number taking part in arithmetic: booleans count as the integers 0 and 1.
#[derive(Debug, Clone, Copy, PartialEq, Eq, Structural)]
pub enum Numeric {
    Int(i64),
    Float(u64),
}

/// The number a value stands for, if it is a `bool`, an `int` or a `float`.
pub open spec fn numeric_of(v: Value) -> Option<Numeric> {
    match v {
        Value::Bool(b) => Some(Numeric::Int(if b { 1i64 } else { 0i64 })),
        Value::Int(i) => Some(Numeric::Int(i)),
        Value::Float(f) => Some(Numeric::Float(f)),
        _ => None,
    }
}

/// The binary64 bits of a number: integers are rounded to the nearest
/// binary64, as an `as f64` conversion does.
pub open spec fn float_bits_of(n: Numeric) -> u64 {
    match n {
        Numeric::Int(i) => int_to_float_bits(i as int),
        Numeric::Float(f) => f,
    }
}

/// Python `==` as the VM computes it: two numbers compare as binary64
/// values; anything else compares structurally.
pub open spec fn python_eq(a: Value, b: Value) -> bool {
    match (numeric_of(a), numeric_of(b)) {
        (Some(x), Some(y)) => float_eq(float_bits_of(x), float_bits_of(y)),
        _ => value_eq(a, b),
    }
}

/// Python `==` as the VM computes it is symmetric.
pub proof fn lemma_python_eq_symmetric(a: Value, b: Value)
    ensures
        python_eq(a, b) == python_eq(b, a),
{
    crate::equality::lemma_value_eq_symmetric(a, b);
}

impl VmValue {
    /// The name of the value's Python type.
    pub fn python_type_name(&self) -> (r: &'static str)
        ensures
            r@ == python_type_of(vm_view(*self)),
    {
        match self {
            VmValue::PyNone => "NoneType",
            VmValue::Bool(_) => "bool",
            VmValue::Int(_) => "int",
            VmValue::Float(_) => "float",
            VmValue::String(_) => "str",
            VmValue::Bytes(_) => "bytes",
            VmValue::Tuple(_) => "tuple",
            VmValue::List(_) => "list",
            VmValue::PySet(_) => "set",
            VmValue::FrozenSet(_) => "frozenset",
            VmValue::Dict(_) => "dict",
            VmValue::Code(_) => "code",
            VmValue::BuiltinPrint => "builtin_function_or_method",
        }
    }

    /// Python truthiness of the value.
    pub fn is_truthy(&self) -> (r: bool)
        ensures
            r == truthy(vm_view(*self)),
    {
        proof {
            lemma_vm_view_lengths(*self);
        }
        match self {
            VmValue::PyNone => false,
            VmValue::Bool(b) => *b,
            VmValue::Int(i) => *i != 0,
            VmValue::Float(f) => !float_is_zero(*f),
            VmValue::String(s) => !s.as_str().is_empty(),
            VmValue::Bytes(b) => b.len() != 0,
            VmValue::Tuple(items) => items.len() != 0,
            VmValue::List(items) => items.len() != 0,
            VmValue::PySet(items) => items.len() != 0,
            VmValue::FrozenSet(items) => items.len() != 0,
            VmValue::Dict(entries) => entries.len() != 0,
            VmValue::Code(_) => true,
            VmValue::BuiltinPrint => true,
        }
    }

    /// The value as a sequence index: an `int`, or a `bool` as 0 or 1.
    pub fn as_index(&self) -> (r: Option<i64>)
        ensures
            r == index_of_value(vm_view(*self)),
    {
        match self {
            VmValue::Int(i) => Some(*i),
            VmValue::Bool(b) => Some(if *b { 1 } else { 0 }),
            _ => None,
        }
    }

    /// The items of a tuple, list, set or frozenset.
    pub fn iterable(&self) -> (r: Option<&[VmValue]>)
        ensures
            match items_of(vm_view(*self)) {
                Some(s) => r matches Some(items) && vm_values_view(items@) == s,
                None => r is None,
            },
    {
        match self {
            VmValue::Tuple(items) => Some(items.as_slice()),
            VmValue::List(items) => Some(items.as_slice()),
            VmValue::PySet(items) => Some(items.as_slice()),
            VmValue::FrozenSet(items) => Some(items.as_slice()),
            _ => None,
        }
    }
}

/// The lengths of a value's contents are those of its view.
pub proof fn lemma_vm_view_lengths(v: VmValue)
    ensures
        match v {
            VmValue::Tuple(items) => vm_values_view(items@).len() == items@.len(),
            VmValue::List(items) => vm_values_view(items@).len() == items@.len(),
            VmValue::PySet(items) => vm_values_view(items@).len() == items@.len(),
            VmValue::FrozenSet(items) => vm_values_view(items@).len() == items@.len(),
            VmValue::Dict(entries) => vm_entries_view(entries@).len() == entries@.len(),
            _ => true,
        },
{
    match v {
        VmValue::Tuple(items) => lemma_vm_values_view(items@),
        VmValue::List(items) => lemma_vm_values_view(items@),
        VmValue::PySet(items) => lemma_vm_values_view(items@),
        VmValue::FrozenSet(items) => lemma_vm_values_view(items@),
        VmValue::Dict(entries) => lemma_vm_entries_view(entries@),
        _ => {},
    }
}

/// The number a value stands for, if it is a `bool`, an `int` or a `float`.
pub fn numeric(v: &VmValue) -> (r: Option<Numeric>)
    ensures
        r == numeric_of(vm_view(*v)),
{
    match v {
        VmValue::Bool(b) => Some(Numeric::Int(if *b { 1 } else { 0 })),
        VmValue::Int(i) => Some(Numeric::Int(*i)),
        VmValue::Float(f) => Some(Numeric::Float(*f)),
        _ => None,
    }
}

impl Numeric {
    /// The number as binary64 bits (an integer rounded as `as f64` rounds).
    pub fn as_f64_bits(self) -> (bits: u64)
        ensures
            bits == float_bits_of(self),
    {
        match self {
            Numeric::Int(i) => int_to_float(i),
            Numeric::Float(f) => f,
        }
    }
}

/// Python `==` as the VM computes it.
pub fn python_equal(left: &VmValue, right: &VmValue) -> (r: bool)
    ensures
        r == python_eq(vm_view(*left), vm_view(*right)),
{
    match (numeric(left), numeric(right)) {
        (Some(x), Some(y)) => float_equal(x.as_f64_bits(), y.as_f64_bits()),
        _ => value_equal(left, right),
    }
}

/// The values of `s` with each value dropped that is Python-equal to one
/// kept before it; the first of equal values stays, order is kept.
pub open spec fn unique_values(s: Seq<Value>) -> Seq<Value>
    decreases s.len(),
{
    if s.len() == 0 {
        Seq::empty()
    } else {
        let kept = unique_values(s.drop_last());
        if exists|k: int| 0 <= k < kept.len() && python_eq(#[trigger] kept[k], s.last()) {
            kept
        } else {
            kept.push(s.last())
        }
    }
}

/// Appending one value appends its content.
pub proof fn lemma_vm_values_view_push(s: Seq<VmValue>, v: VmValue)
    ensures
        vm_values_view(s.push(v)) == vm_values_view(s).push(vm_view(v)),
{
    assert(s.push(v).drop_last() =~= s);
}

/// Appending one pair appends its content.
pub proof fn lemma_vm_entries_view_push(s: Seq<(VmValue, VmValue)>, e: (VmValue, VmValue))
    ensures
        vm_entries_view(s.push(e)) == vm_entries_view(s).push((vm_view(e.0), vm_view(e.1))),
{
    assert(s.push(e).drop_last() =~= s);
}

/// No two values that `unique_values` keeps are Python-equal, and every
/// value it keeps comes from its input.
pub proof fn lemma_unique_values(s: Seq<Value>)
    ensures
        forall|i: int, j: int|
            0 <= i < j < unique_values(s).len() ==> !python_eq(
                #[trigger] unique_values(s)[i],
                #[trigger] unique_values(s)[j],
            ),
        forall|i: int| 0 <= i < unique_values(s).len() ==> s.contains(#[trigger] unique_values(s)[i]),
        unique_values(s).len() <= s.len(),
    decreases s.len(),
{
    if s.len() > 0 {
        lemma_unique_values(s.drop_last());
        let kept = unique_values(s.drop_last());
        assert forall|i: int| 0 <= i < unique_values(s).len() implies s.contains(
            #[trigger] unique_values(s)[i],
        ) by {
            if i < kept.len() {
                let k = choose|k: int| 0 <= k < s.drop_last().len() && s.drop_last()[k] == kept[i];
                assert(s[k] == kept[i]);
            } else {
                assert(s[s.len() - 1] == s.last());
            }
        }
    }
}

/// The values with every value dropped that is Python-equal to one kept
/// before it (the first of equal values stays; order is kept).
pub fn unique(values: &[VmValue]) -> (r: Vec<VmValue>)
    ensures
        vm_values_view(r@) == unique_values(vm_values_view(values@)),
{
    let mut out: Vec<VmValue> = Vec::new();
    let mut i: usize = 0;
    while i < values.len()
        invariant
            i <= values@.len(),
            vm_values_view(out@) == unique_values(vm_values_view(values@.take(i as int))),
        decreases values@.len() - i,
    {
        proof {
            assert(values@.take(i + 1) =~= values@.take(i as int).push(values@[i as int]));
            lemma_vm_values_view_push(values@.take(i as int), values@[i as int]);
            assert(vm_values_view(values@.take(i + 1)).drop_last() =~= vm_values_view(
                values@.take(i as int),
            ));
            lemma_vm_values_view(out@);
        }
        let mut found = false;
        let mut j: usize = 0;
        while j < out.len()
            invariant
                i < values@.len(),
                j <= out@.len(),
                vm_values_view(out@).len() == out@.len(),
                forall|k: int| 0 <= k < out@.len() ==> #[trigger] vm_values_view(out@)[k] == vm_view(out@[k]),
                found == exists|k: int|
                    0 <= k < j && python_eq(#[trigger] vm_values_view(out@)[k], vm_view(values@[i as int])),
            decreases out@.len() - j,
        {
            let equal = python_equal(&out[j], &values[i]);
            assert(vm_values_view(out@)[j as int] == vm_view(out@[j as int]));
            if equal {
                found = true;
            }
            j += 1;
        }
        if !found {
            let v = clone_vm(&values[i]);
            proof {
                lemma_vm_values_view_push(out@, v);
            }
            out.push(v);
        }
        i += 1;
    }
    assert(values@.take(i as int) =~= values@);
    out
}

/// The magnitude of base-2^15 digits, least significant first.
pub open spec fn digits_magnitude(d: Seq<u16>) -> nat
    decreases d.len(),
{
    if d.len() == 0 {
        0
    } else {
        d[0] as nat + 32768 * digits_magnitude(d.subrange(1, d.len() as int))
    }
}

/// A number's magnitude is at least that of its higher digits.
pub proof fn lemma_digits_magnitude_suffix(d: Seq<u16>, k: int)
    requires
        0 <= k <= d.len(),
    ensures
        digits_magnitude(d.subrange(k, d.len() as int)) <= digits_magnitude(d),
    decreases k,
{
    if k == 0 {
        assert(d.subrange(0, d.len() as int) =~= d);
    } else {
        let rest = d.subrange(1, d.len() as int);
        lemma_digits_magnitude_suffix(rest, k - 1);
        assert(rest.subrange(k - 1, rest.len() as int) =~= d.subrange(k, d.len() as int));
    }
}

/// The `i64` an arbitrary-precision integer stands for, or why it has none.
pub open spec fn long_to_i64_spec(negative: bool, digits: Seq<u16>) -> Result<i64, Seq<char>> {
    let m = digits_magnitude(digits);
    if m > u128::MAX {
        Err("integer larger than int64"@)
    } else if negative {
        if m > 0x8000_0000_0000_0000 {
            Err("integer smaller than int64"@)
        } else {
            Ok((-m) as i64)
        }
    } else if m > i64::MAX {
        Err("integer larger than int64"@)
    } else {
        Ok(m as i64)
    }
}

/// Converts an arbitrary-precision integer to an `i64`; when it does not
/// fit, the error names the side on which it falls out of range.
pub fn long_to_i64(value: &MarshalLong) -> (r: Result<i64, VmError>)
    ensures
        match long_to_i64_spec(value.negative, value.digits@) {
            Ok(i) => r == Ok::<i64, VmError>(i),
            Err(text) => r matches Err(e) && fault_view(e) == (VmFault::UnsupportedConstant {
                description: text,
            }),
        },
{
    let ghost d = value.digits@;
    let len = value.digits.len();
    let mut magnitude: u128 = 0;
    let mut i: usize = len;
    while i > 0
        invariant
            i <= len == d.len(),
            value.digits@ == d,
            magnitude == digits_magnitude(d.subrange(i as int, len as int)),
        decreases i,
    {
        let ghost before = magnitude;
        i -= 1;
        let digit = value.digits[i];
        proof {
            let s = d.subrange(i as int, len as int);
            assert(s.subrange(1, s.len() as int) =~= d.subrange(i + 1, len as int));
            assert(digits_magnitude(s) == digit as nat + 32768 * before);
            lemma_digits_magnitude_suffix(d, i as int);
        }
        match magnitude.checked_mul(32768) {
            Some(shifted) => match shifted.checked_add(digit as u128) {
                Some(next) => {
                    magnitude = next;
                },
                None => {
                    return Err(
                        VmError::UnsupportedConstant {
                            description: "integer larger than int64".to_string(),
                        },
                    );
                },
            },
            None => {
                return Err(
                    VmError::UnsupportedConstant { description: "integer larger than int64".to_string() },
                );
            },
        }
    }
    assert(d.subrange(0, len as int) =~= d);
    if value.negative {
        if magnitude > 0x8000_0000_0000_0000 {
            return Err(
                VmError::UnsupportedConstant { description: "integer smaller than int64".to_string() },
            );
        }
        if magnitude == 0x8000_0000_0000_0000 {
            Ok(i64::MIN)
        } else {
            Ok(-(magnitude as i64))
        }
    } else {
        if magnitude > 0x7fff_ffff_ffff_ffff {
            return Err(
                VmError::UnsupportedConstant { description: "integer larger than int64".to_string() },
            );
        }
        Ok(magnitude as i64)
    }
}

/// What loading a constant gives: the VM value it stands for, or the
/// error for a constant the VM does not support.
pub open spec fn convert_constant(v: SpecValue) -> Result<Value, VmFault>
    decreases v, 1nat,
{
    match v {
        SpecValue::PyNone => Ok(Value::PyNone),
        SpecValue::Bool(b) => Ok(Value::Bool(b)),
        SpecValue::StopIteration => Err(VmFault::UnsupportedConstant { description: "StopIteration"@ }),
        SpecValue::Ellipsis => Err(VmFault::UnsupportedConstant { description: "Ellipsis"@ }),
        SpecValue::Int(i) => Ok(Value::Int(i)),
        SpecValue::Long { negative, digits } => match long_to_i64_spec(negative, digits) {
            Ok(i) => Ok(Value::Int(i)),
            Err(text) => Err(VmFault::UnsupportedConstant { description: text }),
        },
        SpecValue::Float(SpecFloat::Binary(bits)) => Ok(Value::Float(bits)),
        SpecValue::Float(SpecFloat::Decimal(_)) => Err(
            VmFault::UnsupportedConstant { description: "decimal float text"@ },
        ),
        SpecValue::Complex { .. } => Err(VmFault::UnsupportedConstant { description: "complex"@ }),
        SpecValue::Bytes(b) => Ok(Value::Bytes(b)),
        SpecValue::String(text) => Ok(Value::String(text)),
        SpecValue::Tuple(items) => match convert_constants(items) {
            Ok(values) => Ok(Value::Tuple(values)),
            Err(e) => Err(e),
        },
        SpecValue::List(items) => match convert_constants(items) {
            Ok(values) => Ok(Value::List(values)),
            Err(e) => Err(e),
        },
        SpecValue::PySet(items) => match convert_constants(items) {
            Ok(values) => Ok(Value::PySet(values)),
            Err(e) => Err(e),
        },
        SpecValue::FrozenSet(items) => match convert_constants(items) {
            Ok(values) => Ok(Value::FrozenSet(values)),
            Err(e) => Err(e),
        },
        SpecValue::Dict(entries) => match convert_entries(entries) {
            Ok(pairs) => Ok(Value::Dict(pairs)),
            Err(e) => Err(e),
        },
        SpecValue::Code(code) => Ok(Value::Code(code)),
    }
}

/// Converts constants in order; the first error wins.
pub open spec fn convert_constants(s: Seq<SpecValue>) -> Result<Seq<Value>, VmFault>
    decreases s, 0nat,
{
    if s.len() == 0 {
        Ok(Seq::empty())
    } else {
        match convert_constants(s.drop_last()) {
            Err(e) => Err(e),
            Ok(prefix) => match convert_constant(s.last()) {
                Err(e) => Err(e),
                Ok(v) => Ok(prefix.push(v)),
            },
        }
    }
}

/// Converts key/value constants in order, key before value; the first error wins.
pub open spec fn convert_entries(s: Seq<(SpecValue, SpecValue)>) -> Result<Seq<(Value, Value)>, VmFault>
    decreases s, 0nat,
{
    if s.len() == 0 {
        Ok(Seq::empty())
    } else {
        match convert_entries(s.drop_last()) {
            Err(e) => Err(e),
            Ok(prefix) => match convert_constant(s.last().0) {
                Err(e) => Err(e),
                Ok(k) => match convert_constant(s.last().1) {
                    Err(e) => Err(e),
                    Ok(v) => Ok(prefix.push((k, v))),
                },
            },
        }
    }
}

/// A result of the VM and the mathematical result it stands for agree.
pub open spec fn value_result_is(r: Result<VmValue, VmError>, s: Result<Value, VmFault>) -> bool {
    match s {
        Ok(v) => r matches Ok(x) && vm_view(x) == v,
        Err(f) => r matches Err(e) && fault_view(e) == f,
    }
}

/// Converting constants keeps them one for one, in order: the conversion
/// succeeds exactly when every item converts, and then the `i`-th value is
/// the `i`-th item converted (nothing dropped, merged or reordered).
pub proof fn lemma_convert_constants_itemwise(s: Seq<SpecValue>)
    ensures
        convert_constants(s) is Ok <==> forall|i: int|
            0 <= i < s.len() ==> #[trigger] convert_constant(s[i]) is Ok,
        convert_constants(s) matches Ok(vs) ==> (vs.len() == s.len() && forall|i: int|
            0 <= i < s.len() ==> #[trigger] convert_constant(s[i]) == Ok::<Value, VmFault>(vs[i])),
    decreases s.len(),
{
    if s.len() > 0 {
        let init = s.drop_last();
        lemma_convert_constants_itemwise(init);
        assert forall|i: int| 0 <= i < init.len() implies init[i] == s[i] by {}
        if !(convert_constants(s) is Ok) {
            if convert_constants(init) is Ok {
                assert(convert_constant(s[s.len() - 1]) is Err);
            } else {
                let j = choose|j: int| 0 <= j < init.len() && !(convert_constant(init[j]) is Ok);
                assert(convert_constant(s[j]) is Err);
            }
        }
        if let Ok(vs) = convert_constants(s) {
            let prefix = convert_constants(init)->Ok_0;
            assert forall|i: int| 0 <= i < s.len() implies #[trigger] convert_constant(s[i])
                == Ok::<Value, VmFault>(vs[i]) by {
                if i < init.len() {
                    assert(vs[i] == prefix[i]);
                }
            }
        }
    }
}

/// Converting dictionary constants keeps the entries one for one, in order:
/// the conversion succeeds exactly when every key and value converts, and
/// then the `i`-th pair is the `i`-th entry's key and value converted.
pub proof fn lemma_convert_entries_itemwise(s: Seq<(SpecValue, SpecValue)>)
    ensures
        convert_entries(s) is Ok <==> forall|i: int|
            0 <= i < s.len() ==> #[trigger] convert_constant(s[i].0) is Ok && convert_constant(
                s[i].1,
            ) is Ok,
        convert_entries(s) matches Ok(ps) ==> (ps.len() == s.len() && forall|i: int|
            0 <= i < s.len() ==> #[trigger] convert_constant(s[i].0) == Ok::<Value, VmFault>(ps[i].0)
                && convert_constant(s[i].1) == Ok::<Value, VmFault>(ps[i].1)),
    decreases s.len(),
{
    if s.len() > 0 {
        let init = s.drop_last();
        lemma_convert_entries_itemwise(init);
        assert forall|i: int| 0 <= i < init.len() implies init[i] == s[i] by {}
        if !(convert_entries(s) is Ok) {
            if convert_entries(init) is Ok {
                let last = s[s.len() - 1];
                assert(convert_constant(last.0) is Err || convert_constant(last.1) is Err);
            } else {
                let j = choose|j: int|
                    0 <= j < init.len() && !(convert_constant(init[j].0) is Ok && convert_constant(
                        init[j].1,
                    ) is Ok);
                assert(!(convert_constant(s[j].0) is Ok && convert_constant(s[j].1) is Ok));
            }
        }
        if let Ok(ps) = convert_entries(s) {
            let prefix = convert_entries(init)->Ok_0;
            assert forall|i: int| 0 <= i < s.len() implies #[trigger] convert_constant(s[i].0)
                == Ok::<Value, VmFault>(ps[i].0) && convert_constant(s[i].1) == Ok::<Value, VmFault>(
                ps[i].1,
            ) by {
                if i < init.len() {
                    assert(ps[i] == prefix[i]);
                }
            }
        }
    }
}

/// An error in a prefix is the error of the whole sequence.
pub proof fn lemma_convert_constants_prefix(s: Seq<SpecValue>, k: int)
    requires
        0 <= k <= s.len(),
        convert_constants(s.take(k)) is Err,
    ensures
        convert_constants(s) == convert_constants(s.take(k)),
    decreases s.len(),
{
    if k == s.len() {
        assert(s.take(k) =~= s);
    } else {
        assert(s.drop_last().take(k) =~= s.take(k));
        lemma_convert_constants_prefix(s.drop_last(), k);
    }
}

/// An error in a prefix is the error of the whole sequence.
pub proof fn lemma_convert_entries_prefix(s: Seq<(SpecValue, SpecValue)>, k: int)
    requires
        0 <= k <= s.len(),
        convert_entries(s.take(k)) is Err,
    ensures
        convert_entries(s) == convert_entries(s.take(k)),
    decreases s.len(),
{
    if k == s.len() {
        assert(s.take(k) =~= s);
    } else {
        assert(s.drop_last().take(k) =~= s.take(k));
        lemma_convert_entries_prefix(s.drop_last(), k);
    }
}

impl VmValue {
    /// The VM value a constant stands for. `StopIteration`, `Ellipsis`,
    /// complex numbers, floats still in decimal text and integers outside the
    /// `i64` range are refused with `UnsupportedConstant`; in a container the
    /// first refused item, in order, decides the error.
    pub fn from_marshal(value: &MarshalValue) -> (r: Result<VmValue, VmError>)
        ensures
            value_result_is(r, convert_constant(value_view(*value))),
        decreases *value, 1nat,
    {
        match value {
            MarshalValue::PyNone => Ok(VmValue::PyNone),
            MarshalValue::Bool(b) => Ok(VmValue::Bool(*b)),
            MarshalValue::StopIteration => Err(
                VmError::UnsupportedConstant { description: "StopIteration".to_string() },
            ),
            MarshalValue::Ellipsis => Err(
                VmError::UnsupportedConstant { description: "Ellipsis".to_string() },
            ),
            MarshalValue::Int(i) => Ok(VmValue::Int(*i)),
            MarshalValue::Long(l) => match long_to_i64(l) {
                Ok(i) => Ok(VmValue::Int(i)),
                Err(e) => Err(e),
            },
            MarshalValue::Float(MarshalFloat::Binary(bits)) => Ok(VmValue::Float(*bits)),
            MarshalValue::Float(MarshalFloat::Decimal(_)) => Err(
                VmError::UnsupportedConstant { description: "decimal float text".to_string() },
            ),
            MarshalValue::Complex { .. } => Err(
                VmError::UnsupportedConstant { description: "complex".to_string() },
            ),
            MarshalValue::Bytes(b) => Ok(VmValue::Bytes(vstd::slice::slice_to_vec(b.as_slice()))),
            MarshalValue::String(text) => Ok(VmValue::String(text.clone())),
            MarshalValue::Tuple(items) => match convert_items(items) {
                Ok(values) => Ok(VmValue::Tuple(values)),
                Err(e) => Err(e),
            },
            MarshalValue::List(items) => match convert_items(items) {
                Ok(values) => Ok(VmValue::List(values)),
                Err(e) => Err(e),
            },
            MarshalValue::PySet(items) => match convert_items(items) {
                Ok(values) => Ok(VmValue::PySet(values)),
                Err(e) => Err(e),
            },
            MarshalValue::FrozenSet(items) => match convert_items(items) {
                Ok(values) => Ok(VmValue::FrozenSet(values)),
                Err(e) => Err(e),
            },
            MarshalValue::Dict(entries) => match convert_pairs(entries) {
                Ok(pairs) => Ok(VmValue::Dict(pairs)),
                Err(e) => Err(e),
            },
            MarshalValue::Code(code) => Ok(VmValue::Code(Box::new(clone_code(code)))),
        }
    }
}

/// Converts constants in order; the first error wins.
fn convert_items(items: &Vec<MarshalValue>) -> (r: Result<Vec<VmValue>, VmError>)
    ensures
        match convert_constants(values_view(items@)) {
            Ok(vs) => r matches Ok(out) && vm_values_view(out@) == vs,
            Err(f) => r matches Err(e) && fault_view(e) == f,
        },
    decreases *items, 0nat,
{
    let mut out: Vec<VmValue> = Vec::new();
    let mut i: usize = 0;
    while i < items.len()
        invariant
            i <= items@.len(),
            convert_constants(values_view(items@.take(i as int))) == Ok::<Seq<Value>, VmFault>(
                vm_values_view(out@),
            ),
        decreases items@.len() - i,
    {
        proof {
            assert(items@.take(i + 1) =~= items@.take(i as int).push(items@[i as int]));
            lemma_values_view_push(items@.take(i as int), items@[i as int]);
            assert(values_view(items@.take(i + 1)).drop_last() =~= values_view(items@.take(i as int)));
        }
        match VmValue::from_marshal(&items[i]) {
            Ok(v) => {
                proof {
                    lemma_vm_values_view_push(out@, v);
                }
                out.push(v);
            },
            Err(e) => {
                proof {
                    lemma_values_view_take(items@, i + 1);
                    lemma_values_view_index(items@);
                    lemma_convert_constants_prefix(values_view(items@), i + 1);
                }
                return Err(e);
            },
        }
        i += 1;
    }
    assert(items@.take(i as int) =~= items@);
    Ok(out)
}

/// Converts key/value constants in order, key before value; the first error wins.
fn convert_pairs(entries: &Vec<(MarshalValue, MarshalValue)>) -> (r: Result<
    Vec<(VmValue, VmValue)>,
    VmError,
>)
    ensures
        match convert_entries(entries_view(entries@)) {
            Ok(vs) => r matches Ok(out) && vm_entries_view(out@) == vs,
            Err(f) => r matches Err(e) && fault_view(e) == f,
        },
    decreases *entries, 0nat,
{
    let mut out: Vec<(VmValue, VmValue)> = Vec::new();
    let mut i: usize = 0;
    while i < entries.len()
        invariant
            i <= entries@.len(),
            convert_entries(entries_view(entries@.take(i as int))) == Ok::<Seq<(Value, Value)>, VmFault>(
                vm_entries_view(out@),
            ),
        decreases entries@.len() - i,
    {
        proof {
            assert(entries@.take(i + 1) =~= entries@.take(i as int).push(entries@[i as int]));
            lemma_entries_view_push(entries@.take(i as int), entries@[i as int]);
            assert(entries_view(entries@.take(i + 1)).drop_last() =~= entries_view(
                entries@.take(i as int),
            ));
        }
        let key = match VmValue::from_marshal(&entries[i].0) {
            Ok(k) => k,
            Err(e) => {
                proof {
                    lemma_entries_view_take(entries@, i + 1);
                    lemma_entries_view_index(entries@);
                    lemma_convert_entries_prefix(entries_view(entries@), i + 1);
                }
                return Err(e);
            },
        };
        let value = match VmValue::from_marshal(&entries[i].1) {
            Ok(v) => v,
            Err(e) => {
                proof {
                    lemma_entries_view_take(entries@, i + 1);
                    lemma_entries_view_index(entries@);
                    lemma_convert_entries_prefix(entries_view(entries@), i + 1);
                }
                return Err(e);
            },
        };
        proof {
            lemma_vm_entries_view_push(out@, (key, value));
        }
        out.push((key, value));
        i += 1;
    }
    assert(entries@.take(i as int) =~= entries@);
    Ok(out)
}

/// The content of a prefix is the prefix of the content.
pub proof fn lemma_values_view_take(s: Seq<MarshalValue>, k: int)
    requires
        0 <= k <= s.len(),
    ensures
        values_view(s).take(k) == values_view(s.take(k)),
    decreases s.len(),
{
    lemma_values_view_index(s);
    lemma_values_view_index(s.take(k));
    assert(values_view(s).take(k) =~= values_view(s.take(k)));
}

/// The content of a prefix is the prefix of the content.
pub proof fn lemma_entries_view_take(s: Seq<(MarshalValue, MarshalValue)>, k: int)
    requires
        0 <= k <= s.len(),
    ensures
        entries_view(s).take(k) == entries_view(s.take(k)),
{
    lemma_entries_view_index(s);
    lemma_entries_view_index(s.take(k));
    assert(entries_view(s).take(k) =~= entries_view(s.take(k)));
}

} // verus!
