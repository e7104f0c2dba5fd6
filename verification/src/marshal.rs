//! Values of the CPython 3.12 `marshal` format and their mathematical content.
use crate::code::{CodeObject, SpecCode, code_view};
use vstd::prelude::*;

verus! {

/// An arbitrary-precision integer: a sign and base-2^15 digits, least significant first.
#[derive(Debug, Clone, PartialEq, Eq)]
pub struct MarshalLong {
    pub negative: bool,
    pub digits: Vec<u16>,
}

/// A floating-point constant: the IEEE 754 bits of a binary float, or the
/// text of a decimal float as the stream spells it.
#[derive(Debug, Clone, PartialEq, Eq)]
pub enum MarshalFloat {
    Binary(u64),
    Decimal(String),
}

/// A value decoded from a marshal stream.
#[derive(Debug, PartialEq, Eq)]
pub enum MarshalValue {
    PyNone,
    Bool(bool),
    StopIteration,
    Ellipsis,
    Int(i64),
    Long(MarshalLong),
    Float(MarshalFloat),
    Complex { real: MarshalFloat, imaginary: MarshalFloat },
    Bytes(Vec<u8>),
    String(String),
    Tuple(Vec<MarshalValue>),
    List(Vec<MarshalValue>),
    Dict(Vec<(MarshalValue, MarshalValue)>),
    PySet(Vec<MarshalValue>),
    FrozenSet(Vec<MarshalValue>),
    Code(Box<CodeObject>),
}

/// The mathematical content of a floating-point constant.
pub enum SpecFloat {
    Binary(u64),
    Decimal(Seq<char>),
}

/// The mathematical content of a marshal value.
pub enum SpecValue {
    PyNone,
    Bool(bool),
    StopIteration,
    Ellipsis,
    Int(i64),
    Long { negative: bool, digits: Seq<u16> },
    Float(SpecFloat),
    Complex { real: SpecFloat, imaginary: SpecFloat },
    Bytes(Seq<u8>),
    String(Seq<char>),
    Tuple(Seq<SpecValue>),
    List(Seq<SpecValue>),
    Dict(Seq<(SpecValue, SpecValue)>),
    PySet(Seq<SpecValue>),
    FrozenSet(Seq<SpecValue>),
    Code(SpecCode),
}

/// The mathematical content of a floating-point constant.
pub open spec fn float_view(f: MarshalFloat) -> SpecFloat {
    match f {
        MarshalFloat::Binary(bits) => SpecFloat::Binary(bits),
        MarshalFloat::Decimal(text) => SpecFloat::Decimal(text@),
    }
}

/// The mathematical content of a marshal value.
pub open spec fn value_view(v: MarshalValue) -> SpecValue
    decreases v, 1nat,
{
    match v {
        MarshalValue::PyNone => SpecValue::PyNone,
        MarshalValue::Bool(b) => SpecValue::Bool(b),
        MarshalValue::StopIteration => SpecValue::StopIteration,
        MarshalValue::Ellipsis => SpecValue::Ellipsis,
        MarshalValue::Int(i) => SpecValue::Int(i),
        MarshalValue::Long(l) => SpecValue::Long { negative: l.negative, digits: l.digits@ },
        MarshalValue::Float(f) => SpecValue::Float(float_view(f)),
        MarshalValue::Complex { real: re, imaginary: im } => SpecValue::Complex {
            real: float_view(re),
            imaginary: float_view(im),
        },
        MarshalValue::Bytes(b) => SpecValue::Bytes(b@),
        MarshalValue::String(s) => SpecValue::String(s@),
        MarshalValue::Tuple(items) => SpecValue::Tuple(values_view(items@)),
        MarshalValue::List(items) => SpecValue::List(values_view(items@)),
        MarshalValue::Dict(entries) => SpecValue::Dict(entries_view(entries@)),
        MarshalValue::PySet(items) => SpecValue::PySet(values_view(items@)),
        MarshalValue::FrozenSet(items) => SpecValue::FrozenSet(values_view(items@)),
        MarshalValue::Code(code) => SpecValue::Code(code_view(*code)),
    }
}

/// The mathematical content of each value in a sequence.
pub open spec fn values_view(s: Seq<MarshalValue>) -> Seq<SpecValue>
    decreases s, 0nat,
{
    if s.len() == 0 {
        Seq::empty()
    } else {
        values_view(s.drop_last()).push(value_view(s.last()))
    }
}

/// The mathematical content of each key/value pair in a sequence.
pub open spec fn entries_view(s: Seq<(MarshalValue, MarshalValue)>) -> Seq<(SpecValue, SpecValue)>
    decreases s, 0nat,
{
    if s.len() == 0 {
        Seq::empty()
    } else {
        entries_view(s.drop_last()).push((value_view(s.last().0), value_view(s.last().1)))
    }
}

} // verus!

verus! {

/// Appending one value appends its content.
pub proof fn lemma_values_view_push(s: Seq<MarshalValue>, v: MarshalValue)
    ensures
        values_view(s.push(v)) == values_view(s).push(value_view(v)),
{
    assert(s.push(v).drop_last() =~= s);
}

/// The content of a sequence of values, element by element.
pub proof fn lemma_values_view_index(s: Seq<MarshalValue>)
    ensures
        values_view(s).len() == s.len(),
        forall|i: int| 0 <= i < s.len() ==> #[trigger] values_view(s)[i] == value_view(s[i]),
    decreases s.len(),
{
    if s.len() > 0 {
        lemma_values_view_index(s.drop_last());
    }
}

/// Appending one pair appends its content.
pub proof fn lemma_entries_view_push(s: Seq<(MarshalValue, MarshalValue)>, e: (MarshalValue, MarshalValue))
    ensures
        entries_view(s.push(e)) == entries_view(s).push((value_view(e.0), value_view(e.1))),
{
    assert(s.push(e).drop_last() =~= s);
}

/// A value with the same content, built anew.
pub fn clone_value(v: &MarshalValue) -> (r: MarshalValue)
    ensures
        value_view(r) == value_view(*v),
    decreases *v, 1nat,
{
    match v {
        MarshalValue::PyNone => MarshalValue::PyNone,
        MarshalValue::Bool(b) => MarshalValue::Bool(*b),
        MarshalValue::StopIteration => MarshalValue::StopIteration,
        MarshalValue::Ellipsis => MarshalValue::Ellipsis,
        MarshalValue::Int(i) => MarshalValue::Int(*i),
        MarshalValue::Long(l) => MarshalValue::Long(
            MarshalLong { negative: l.negative, digits: vstd::slice::slice_to_vec(l.digits.as_slice()) },
        ),
        MarshalValue::Float(f) => MarshalValue::Float(clone_float(f)),
        MarshalValue::Complex { real: re, imaginary: im } => MarshalValue::Complex {
            real: clone_float(re),
            imaginary: clone_float(im),
        },
        MarshalValue::Bytes(b) => MarshalValue::Bytes(vstd::slice::slice_to_vec(b.as_slice())),
        MarshalValue::String(s) => MarshalValue::String(s.clone()),
        MarshalValue::Tuple(items) => MarshalValue::Tuple(clone_values(items)),
        MarshalValue::List(items) => MarshalValue::List(clone_values(items)),
        MarshalValue::Dict(entries) => MarshalValue::Dict(clone_entries(entries)),
        MarshalValue::PySet(items) => MarshalValue::PySet(clone_values(items)),
        MarshalValue::FrozenSet(items) => MarshalValue::FrozenSet(clone_values(items)),
        MarshalValue::Code(code) => MarshalValue::Code(Box::new(crate::code::clone_code(code))),
    }
}

/// A floating-point constant with the same content, built anew.
pub fn clone_float(f: &MarshalFloat) -> (r: MarshalFloat)
    ensures
        float_view(r) == float_view(*f),
{
    match f {
        MarshalFloat::Binary(bits) => MarshalFloat::Binary(*bits),
        MarshalFloat::Decimal(text) => MarshalFloat::Decimal(text.clone()),
    }
}

/// Values with the same content, built anew.
pub fn clone_values(items: &Vec<MarshalValue>) -> (r: Vec<MarshalValue>)
    ensures
        values_view(r@) == values_view(items@),
    decreases *items, 0nat,
{
    let mut out: Vec<MarshalValue> = Vec::new();
    let mut i: usize = 0;
    while i < items.len()
        invariant
            i <= items@.len(),
            values_view(out@) == values_view(items@.take(i as int)),
        decreases items@.len() - i,
    {
        let v = clone_value(&items[i]);
        proof {
            lemma_values_view_push(out@, v);
            lemma_values_view_push(items@.take(i as int), items@[i as int]);
            assert(items@.take(i as int).push(items@[i as int]) =~= items@.take(i + 1));
        }
        out.push(v);
        i += 1;
    }
    assert(items@.take(i as int) =~= items@);
    out
}

/// Key/value pairs with the same content, built anew.
pub fn clone_entries(entries: &Vec<(MarshalValue, MarshalValue)>) -> (r: Vec<
    (MarshalValue, MarshalValue),
>)
    ensures
        entries_view(r@) == entries_view(entries@),
    decreases *entries, 0nat,
{
    let mut out: Vec<(MarshalValue, MarshalValue)> = Vec::new();
    let mut i: usize = 0;
    while i < entries.len()
        invariant
            i <= entries@.len(),
            entries_view(out@) == entries_view(entries@.take(i as int)),
        decreases entries@.len() - i,
    {
        let key = clone_value(&entries[i].0);
        let value = clone_value(&entries[i].1);
        proof {
            lemma_entries_view_push(out@, (key, value));
            lemma_entries_view_push(entries@.take(i as int), entries@[i as int]);
            assert(entries@.take(i as int).push(entries@[i as int]) =~= entries@.take(i + 1));
        }
        out.push((key, value));
        i += 1;
    }
    assert(entries@.take(i as int) =~= entries@);
    out
}

} // verus!
