//! Structural equality of constants, code objects and VM values, with
//! floating-point numbers compared as IEEE 754 numbers (a NaN equals
//! nothing, the two zeros are equal).
use crate::code::{CodeObject, SpecCode, code_view, strings_view};
use crate::ieee::{float_eq, float_equal};
use crate::marshal::{
    MarshalFloat, MarshalValue, SpecFloat, SpecValue, entries_view, float_view, lemma_values_view_index,
    value_view, values_view,
};
use crate::value::{
    Value, VmValue, lemma_vm_entries_view, lemma_vm_values_view, vm_entries_view, vm_values_view,
    vm_view,
};
use vstd::prelude::*;

verus! {

/// Equality of two floating-point constants: binary floats compare as IEEE
/// numbers, decimal texts compare as texts.
pub open spec fn sfloat_eq(a: SpecFloat, b: SpecFloat) -> bool {
    match (a, b) {
        (SpecFloat::Binary(x), SpecFloat::Binary(y)) => float_eq(x, y),
        (SpecFloat::Decimal(x), SpecFloat::Decimal(y)) => x == y,
        _ => false,
    }
}

/// Structural equality of two constants.
pub open spec fn svalue_eq(a: SpecValue, b: SpecValue) -> bool
    decreases a, 2nat,
{
    match a {
        SpecValue::PyNone => b is PyNone,
        SpecValue::Bool(x) => b matches SpecValue::Bool(y) && x == y,
        SpecValue::StopIteration => b is StopIteration,
        SpecValue::Ellipsis => b is Ellipsis,
        SpecValue::Int(x) => b matches SpecValue::Int(y) && x == y,
        SpecValue::Long { negative, digits } => b matches SpecValue::Long {
            negative: n2,
            digits: d2,
        } && negative == n2 && digits == d2,
        SpecValue::Float(x) => b matches SpecValue::Float(y) && sfloat_eq(x, y),
        SpecValue::Complex { real: re, imaginary: im } => b matches SpecValue::Complex {
            real: r2,
            imaginary: i2,
        } && sfloat_eq(re, r2) && sfloat_eq(im, i2),
        SpecValue::Bytes(x) => b matches SpecValue::Bytes(y) && x == y,
        SpecValue::String(x) => b matches SpecValue::String(y) && x == y,
        SpecValue::Tuple(x) => b matches SpecValue::Tuple(y) && svalues_eq(x, y),
        SpecValue::List(x) => b matches SpecValue::List(y) && svalues_eq(x, y),
        SpecValue::Dict(x) => b matches SpecValue::Dict(y) && sentries_eq(x, y),
        SpecValue::PySet(x) => b matches SpecValue::PySet(y) && svalues_eq(x, y),
        SpecValue::FrozenSet(x) => b matches SpecValue::FrozenSet(y) && svalues_eq(x, y),
        SpecValue::Code(x) => b matches SpecValue::Code(y) && scode_eq(x, y),
    }
}

/// Element-wise equality of two sequences of constants.
pub open spec fn svalues_eq(a: Seq<SpecValue>, b: Seq<SpecValue>) -> bool
    decreases a, 1nat,
{
    a.len() == b.len() && (a.len() == 0 || (svalues_eq(a.drop_last(), b.drop_last())
        && svalue_eq(a.last(), b.last())))
}

/// Pair-wise equality of two sequences of key/value constants.
pub open spec fn sentries_eq(a: Seq<(SpecValue, SpecValue)>, b: Seq<(SpecValue, SpecValue)>) -> bool
    decreases a, 1nat,
{
    a.len() == b.len() && (a.len() == 0 || (sentries_eq(a.drop_last(), b.drop_last())
        && svalue_eq(a.last().0, b.last().0) && svalue_eq(a.last().1, b.last().1)))
}

/// Field-wise equality of two code objects.
pub open spec fn scode_eq(a: SpecCode, b: SpecCode) -> bool
    decreases a, 3nat,
{
    &&& a.arg_count == b.arg_count
    &&& a.positional_only_arg_count == b.positional_only_arg_count
    &&& a.keyword_only_arg_count == b.keyword_only_arg_count
    &&& a.stack_size == b.stack_size
    &&& a.flags == b.flags
    &&& a.bytecode == b.bytecode
    &&& svalues_eq(a.constants, b.constants)
    &&& a.names == b.names
    &&& a.localsplus_names == b.localsplus_names
    &&& a.localsplus_kinds == b.localsplus_kinds
    &&& a.filename == b.filename
    &&& a.name == b.name
    &&& a.qualified_name == b.qualified_name
    &&& a.first_line_number == b.first_line_number
    &&& a.line_table == b.line_table
    &&& a.exception_table == b.exception_table
}

/// Structural equality of two VM values.
pub open spec fn value_eq(a: Value, b: Value) -> bool
    decreases a, 2nat,
{
    match a {
        Value::PyNone => b is PyNone,
        Value::Bool(x) => b matches Value::Bool(y) && x == y,
        Value::Int(x) => b matches Value::Int(y) && x == y,
        Value::Float(x) => b matches Value::Float(y) && float_eq(x, y),
        Value::String(x) => b matches Value::String(y) && x == y,
        Value::Bytes(x) => b matches Value::Bytes(y) && x == y,
        Value::Tuple(x) => b matches Value::Tuple(y) && values_eq(x, y),
        Value::List(x) => b matches Value::List(y) && values_eq(x, y),
        Value::PySet(x) => b matches Value::PySet(y) && values_eq(x, y),
        Value::FrozenSet(x) => b matches Value::FrozenSet(y) && values_eq(x, y),
        Value::Dict(x) => b matches Value::Dict(y) && entries_eq(x, y),
        Value::Code(x) => b matches Value::Code(y) && scode_eq(x, y),
        Value::BuiltinPrint => b is BuiltinPrint,
    }
}

/// Element-wise equality of two sequences of VM values.
pub open spec fn values_eq(a: Seq<Value>, b: Seq<Value>) -> bool
    decreases a, 1nat,
{
    a.len() == b.len() && (a.len() == 0 || (values_eq(a.drop_last(), b.drop_last())
        && value_eq(a.last(), b.last())))
}

/// Pair-wise equality of two sequences of key/value pairs.
pub open spec fn entries_eq(a: Seq<(Value, Value)>, b: Seq<(Value, Value)>) -> bool
    decreases a, 1nat,
{
    a.len() == b.len() && (a.len() == 0 || (entries_eq(a.drop_last(), b.drop_last())
        && value_eq(a.last().0, b.last().0) && value_eq(a.last().1, b.last().1)))
}

/// Equality of floating-point constants is symmetric.
pub proof fn lemma_sfloat_eq_symmetric(a: SpecFloat, b: SpecFloat)
    ensures
        sfloat_eq(a, b) == sfloat_eq(b, a),
{
}

/// Structural equality of constants is symmetric.
pub proof fn lemma_svalue_eq_symmetric(a: SpecValue, b: SpecValue)
    ensures
        svalue_eq(a, b) == svalue_eq(b, a),
    decreases a, 2nat,
{
    match (a, b) {
        (SpecValue::Float(x), SpecValue::Float(y)) => lemma_sfloat_eq_symmetric(x, y),
        (SpecValue::Complex { real: r1, imaginary: i1 }, SpecValue::Complex { real: r2, imaginary: i2 }) => {
            lemma_sfloat_eq_symmetric(r1, r2);
            lemma_sfloat_eq_symmetric(i1, i2);
        },
        (SpecValue::Tuple(x), SpecValue::Tuple(y)) => lemma_svalues_eq_symmetric(x, y),
        (SpecValue::List(x), SpecValue::List(y)) => lemma_svalues_eq_symmetric(x, y),
        (SpecValue::PySet(x), SpecValue::PySet(y)) => lemma_svalues_eq_symmetric(x, y),
        (SpecValue::FrozenSet(x), SpecValue::FrozenSet(y)) => lemma_svalues_eq_symmetric(x, y),
        (SpecValue::Dict(x), SpecValue::Dict(y)) => lemma_sentries_eq_symmetric(x, y),
        (SpecValue::Code(x), SpecValue::Code(y)) => lemma_scode_eq_symmetric(x, y),
        _ => {},
    }
}

/// Element-wise equality of constants is symmetric.
pub proof fn lemma_svalues_eq_symmetric(a: Seq<SpecValue>, b: Seq<SpecValue>)
    ensures
        svalues_eq(a, b) == svalues_eq(b, a),
    decreases a, 1nat,
{
    if a.len() == b.len() && a.len() > 0 {
        lemma_svalues_eq_symmetric(a.drop_last(), b.drop_last());
        lemma_svalue_eq_symmetric(a.last(), b.last());
    }
}

/// Pair-wise equality of key/value constants is symmetric.
pub proof fn lemma_sentries_eq_symmetric(a: Seq<(SpecValue, SpecValue)>, b: Seq<(SpecValue, SpecValue)>)
    ensures
        sentries_eq(a, b) == sentries_eq(b, a),
    decreases a, 1nat,
{
    if a.len() == b.len() && a.len() > 0 {
        lemma_sentries_eq_symmetric(a.drop_last(), b.drop_last());
        lemma_svalue_eq_symmetric(a.last().0, b.last().0);
        lemma_svalue_eq_symmetric(a.last().1, b.last().1);
    }
}

/// Field-wise equality of code objects is symmetric.
pub proof fn lemma_scode_eq_symmetric(a: SpecCode, b: SpecCode)
    ensures
        scode_eq(a, b) == scode_eq(b, a),
    decreases a, 3nat,
{
    lemma_svalues_eq_symmetric(a.constants, b.constants);
}

/// Structural equality of VM values is symmetric.
pub proof fn lemma_value_eq_symmetric(a: Value, b: Value)
    ensures
        value_eq(a, b) == value_eq(b, a),
    decreases a, 2nat,
{
    match (a, b) {
        (Value::Tuple(x), Value::Tuple(y)) => lemma_values_eq_symmetric(x, y),
        (Value::List(x), Value::List(y)) => lemma_values_eq_symmetric(x, y),
        (Value::PySet(x), Value::PySet(y)) => lemma_values_eq_symmetric(x, y),
        (Value::FrozenSet(x), Value::FrozenSet(y)) => lemma_values_eq_symmetric(x, y),
        (Value::Dict(x), Value::Dict(y)) => lemma_entries_eq_symmetric(x, y),
        (Value::Code(x), Value::Code(y)) => lemma_scode_eq_symmetric(x, y),
        _ => {},
    }
}

/// Element-wise equality of VM values is symmetric.
pub proof fn lemma_values_eq_symmetric(a: Seq<Value>, b: Seq<Value>)
    ensures
        values_eq(a, b) == values_eq(b, a),
    decreases a, 1nat,
{
    if a.len() == b.len() && a.len() > 0 {
        lemma_values_eq_symmetric(a.drop_last(), b.drop_last());
        lemma_value_eq_symmetric(a.last(), b.last());
    }
}

/// Pair-wise equality of key/value pairs is symmetric.
pub proof fn lemma_entries_eq_symmetric(a: Seq<(Value, Value)>, b: Seq<(Value, Value)>)
    ensures
        entries_eq(a, b) == entries_eq(b, a),
    decreases a, 1nat,
{
    if a.len() == b.len() && a.len() > 0 {
        lemma_entries_eq_symmetric(a.drop_last(), b.drop_last());
        lemma_value_eq_symmetric(a.last().0, b.last().0);
        lemma_value_eq_symmetric(a.last().1, b.last().1);
    }
}

/// Element-wise equality of constants, index by index.
pub proof fn lemma_svalues_eq(a: Seq<SpecValue>, b: Seq<SpecValue>)
    ensures
        svalues_eq(a, b) <==> (a.len() == b.len() && forall|i: int|
            0 <= i < a.len() ==> #[trigger] svalue_eq(a[i], b[i])),
    decreases a.len(),
{
    if a.len() > 0 && a.len() == b.len() {
        lemma_svalues_eq(a.drop_last(), b.drop_last());
        if svalues_eq(a, b) {
            assert forall|i: int| 0 <= i < a.len() implies #[trigger] svalue_eq(a[i], b[i]) by {
                if i < a.len() - 1 {
                    assert(a.drop_last()[i] == a[i]);
                    assert(b.drop_last()[i] == b[i]);
                }
            }
        }
        if forall|i: int| 0 <= i < a.len() ==> #[trigger] svalue_eq(a[i], b[i]) {
            assert forall|i: int| 0 <= i < a.drop_last().len() implies #[trigger] svalue_eq(
                a.drop_last()[i],
                b.drop_last()[i],
            ) by {
                assert(svalue_eq(a[i], b[i]));
            }
            assert(svalue_eq(a[a.len() - 1], b[b.len() - 1]));
        }
    }
}

/// Pair-wise equality of key/value constants, index by index.
pub proof fn lemma_sentries_eq(a: Seq<(SpecValue, SpecValue)>, b: Seq<(SpecValue, SpecValue)>)
    ensures
        sentries_eq(a, b) <==> (a.len() == b.len() && forall|i: int|
            0 <= i < a.len() ==> #[trigger] svalue_eq(a[i].0, b[i].0) && svalue_eq(a[i].1, b[i].1)),
    decreases a.len(),
{
    if a.len() > 0 && a.len() == b.len() {
        lemma_sentries_eq(a.drop_last(), b.drop_last());
        if sentries_eq(a, b) {
            assert forall|i: int| 0 <= i < a.len() implies #[trigger] svalue_eq(a[i].0, b[i].0)
                && svalue_eq(a[i].1, b[i].1) by {
                if i < a.len() - 1 {
                    assert(a.drop_last()[i] == a[i]);
                    assert(b.drop_last()[i] == b[i]);
                    assert(svalue_eq(a.drop_last()[i].0, b.drop_last()[i].0));
                }
            }
        }
        if forall|i: int|
            0 <= i < a.len() ==> #[trigger] svalue_eq(a[i].0, b[i].0) && svalue_eq(a[i].1, b[i].1) {
            assert forall|i: int| 0 <= i < a.drop_last().len() implies #[trigger] svalue_eq(
                a.drop_last()[i].0,
                b.drop_last()[i].0,
            ) && svalue_eq(a.drop_last()[i].1, b.drop_last()[i].1) by {
                assert(svalue_eq(a[i].0, b[i].0));
            }
            assert(svalue_eq(a[a.len() - 1].0, b[b.len() - 1].0));
        }
    }
}

/// Element-wise equality of VM values, index by index.
pub proof fn lemma_values_eq(a: Seq<Value>, b: Seq<Value>)
    ensures
        values_eq(a, b) <==> (a.len() == b.len() && forall|i: int|
            0 <= i < a.len() ==> #[trigger] value_eq(a[i], b[i])),
    decreases a.len(),
{
    if a.len() > 0 && a.len() == b.len() {
        lemma_values_eq(a.drop_last(), b.drop_last());
        if values_eq(a, b) {
            assert forall|i: int| 0 <= i < a.len() implies #[trigger] value_eq(a[i], b[i]) by {
                if i < a.len() - 1 {
                    assert(a.drop_last()[i] == a[i]);
                    assert(b.drop_last()[i] == b[i]);
                }
            }
        }
        if forall|i: int| 0 <= i < a.len() ==> #[trigger] value_eq(a[i], b[i]) {
            assert forall|i: int| 0 <= i < a.drop_last().len() implies #[trigger] value_eq(
                a.drop_last()[i],
                b.drop_last()[i],
            ) by {
                assert(value_eq(a[i], b[i]));
            }
            assert(value_eq(a[a.len() - 1], b[b.len() - 1]));
        }
    }
}

/// Pair-wise equality of key/value pairs, index by index.
pub proof fn lemma_entries_eq(a: Seq<(Value, Value)>, b: Seq<(Value, Value)>)
    ensures
        entries_eq(a, b) <==> (a.len() == b.len() && forall|i: int|
            0 <= i < a.len() ==> #[trigger] value_eq(a[i].0, b[i].0) && value_eq(a[i].1, b[i].1)),
    decreases a.len(),
{
    if a.len() > 0 && a.len() == b.len() {
        lemma_entries_eq(a.drop_last(), b.drop_last());
        if entries_eq(a, b) {
            assert forall|i: int| 0 <= i < a.len() implies #[trigger] value_eq(a[i].0, b[i].0)
                && value_eq(a[i].1, b[i].1) by {
                if i < a.len() - 1 {
                    assert(a.drop_last()[i] == a[i]);
                    assert(b.drop_last()[i] == b[i]);
                    assert(value_eq(a.drop_last()[i].0, b.drop_last()[i].0));
                }
            }
        }
        if forall|i: int|
            0 <= i < a.len() ==> #[trigger] value_eq(a[i].0, b[i].0) && value_eq(a[i].1, b[i].1) {
            assert forall|i: int| 0 <= i < a.drop_last().len() implies #[trigger] value_eq(
                a.drop_last()[i].0,
                b.drop_last()[i].0,
            ) && value_eq(a.drop_last()[i].1, b.drop_last()[i].1) by {
                assert(value_eq(a[i].0, b[i].0));
            }
            assert(value_eq(a[a.len() - 1].0, b[b.len() - 1].0));
        }
    }
}

/// The content of a sequence of key/value constants, pair by pair.
pub proof fn lemma_entries_view_index(s: Seq<(MarshalValue, MarshalValue)>)
    ensures
        entries_view(s).len() == s.len(),
        forall|i: int|
            0 <= i < s.len() ==> #[trigger] entries_view(s)[i] == (value_view(s[i].0), value_view(
                s[i].1,
            )),
    decreases s.len(),
{
    if s.len() > 0 {
        lemma_entries_view_index(s.drop_last());
    }
}

/// Whether two byte sequences are equal.
pub fn bytes_equal(a: &[u8], b: &[u8]) -> (r: bool)
    ensures
        r == (a@ == b@),
{
    if a.len() != b.len() {
        return false;
    }
    let mut i: usize = 0;
    while i < a.len()
        invariant
            a@.len() == b@.len(),
            i <= a@.len(),
            forall|j: int| 0 <= j < i ==> a@[j] == b@[j],
        decreases a@.len() - i,
    {
        if a[i] != b[i] {
            return false;
        }
        i += 1;
    }
    assert(a@ =~= b@);
    true
}

/// Whether two digit sequences are equal.
pub fn digits_equal(a: &[u16], b: &[u16]) -> (r: bool)
    ensures
        r == (a@ == b@),
{
    if a.len() != b.len() {
        return false;
    }
    let mut i: usize = 0;
    while i < a.len()
        invariant
            a@.len() == b@.len(),
            i <= a@.len(),
            forall|j: int| 0 <= j < i ==> a@[j] == b@[j],
        decreases a@.len() - i,
    {
        if a[i] != b[i] {
            return false;
        }
        i += 1;
    }
    assert(a@ =~= b@);
    true
}

/// Whether two lists of strings hold the same texts.
pub fn strings_equal(a: &Vec<String>, b: &Vec<String>) -> (r: bool)
    ensures
        r == (strings_view(a@) == strings_view(b@)),
{
    if a.len() != b.len() {
        assert(strings_view(a@).len() != strings_view(b@).len());
        return false;
    }
    let mut i: usize = 0;
    while i < a.len()
        invariant
            a@.len() == b@.len(),
            i <= a@.len(),
            forall|j: int| 0 <= j < i ==> #[trigger] a@[j]@ == b@[j]@,
        decreases a@.len() - i,
    {
        if a[i] != b[i] {
            assert(strings_view(a@)[i as int] != strings_view(b@)[i as int]);
            return false;
        }
        i += 1;
    }
    assert(strings_view(a@) =~= strings_view(b@));
    true
}

/// Whether two floating-point constants are equal.
pub fn float_constant_equal(a: &MarshalFloat, b: &MarshalFloat) -> (r: bool)
    ensures
        r == sfloat_eq(float_view(*a), float_view(*b)),
{
    match (a, b) {
        (MarshalFloat::Binary(x), MarshalFloat::Binary(y)) => float_equal(*x, *y),
        (MarshalFloat::Decimal(x), MarshalFloat::Decimal(y)) => *x == *y,
        _ => false,
    }
}

/// Whether two constants are structurally equal.
pub fn constant_equal(a: &MarshalValue, b: &MarshalValue) -> (r: bool)
    ensures
        r == svalue_eq(value_view(*a), value_view(*b)),
    decreases *a, 1nat,
{
    match (a, b) {
        (MarshalValue::PyNone, MarshalValue::PyNone) => true,
        (MarshalValue::Bool(x), MarshalValue::Bool(y)) => *x == *y,
        (MarshalValue::StopIteration, MarshalValue::StopIteration) => true,
        (MarshalValue::Ellipsis, MarshalValue::Ellipsis) => true,
        (MarshalValue::Int(x), MarshalValue::Int(y)) => *x == *y,
        (MarshalValue::Long(x), MarshalValue::Long(y)) => x.negative == y.negative && digits_equal(
            x.digits.as_slice(),
            y.digits.as_slice(),
        ),
        (MarshalValue::Float(x), MarshalValue::Float(y)) => float_constant_equal(x, y),
        (
            MarshalValue::Complex { real: r1, imaginary: i1 },
            MarshalValue::Complex { real: r2, imaginary: i2 },
        ) => float_constant_equal(r1, r2) && float_constant_equal(i1, i2),
        (MarshalValue::Bytes(x), MarshalValue::Bytes(y)) => bytes_equal(x.as_slice(), y.as_slice()),
        (MarshalValue::String(x), MarshalValue::String(y)) => *x == *y,
        (MarshalValue::Tuple(x), MarshalValue::Tuple(y)) => constants_equal(x, y),
        (MarshalValue::List(x), MarshalValue::List(y)) => constants_equal(x, y),
        (MarshalValue::Dict(x), MarshalValue::Dict(y)) => constant_entries_equal(x, y),
        (MarshalValue::PySet(x), MarshalValue::PySet(y)) => constants_equal(x, y),
        (MarshalValue::FrozenSet(x), MarshalValue::FrozenSet(y)) => constants_equal(x, y),
        (MarshalValue::Code(x), MarshalValue::Code(y)) => code_equal(x, y),
        _ => false,
    }
}

/// Whether two sequences of constants are element-wise equal.
pub fn constants_equal(a: &Vec<MarshalValue>, b: &Vec<MarshalValue>) -> (r: bool)
    ensures
        r == svalues_eq(values_view(a@), values_view(b@)),
    decreases *a, 0nat,
{
    proof {
        lemma_values_view_index(a@);
        lemma_values_view_index(b@);
        lemma_svalues_eq(values_view(a@), values_view(b@));
    }
    if a.len() != b.len() {
        return false;
    }
    let mut i: usize = 0;
    while i < a.len()
        invariant
            a@.len() == b@.len(),
            i <= a@.len(),
            forall|j: int| 0 <= j < i ==> #[trigger] svalue_eq(value_view(a@[j]), value_view(b@[j])),
        decreases a@.len() - i,
    {
        if !constant_equal(&a[i], &b[i]) {
            proof {
                lemma_values_view_index(a@);
                lemma_values_view_index(b@);
                lemma_svalues_eq(values_view(a@), values_view(b@));
                assert(!svalue_eq(values_view(a@)[i as int], values_view(b@)[i as int]));
            }
            return false;
        }
        i += 1;
    }
    proof {
        lemma_values_view_index(a@);
        lemma_values_view_index(b@);
        lemma_svalues_eq(values_view(a@), values_view(b@));
        assert forall|j: int| 0 <= j < a@.len() implies #[trigger] svalue_eq(
            values_view(a@)[j],
            values_view(b@)[j],
        ) by {
            assert(svalue_eq(value_view(a@[j]), value_view(b@[j])));
        }
    }
    true
}

/// Whether two sequences of key/value constants are pair-wise equal.
pub fn constant_entries_equal(
    a: &Vec<(MarshalValue, MarshalValue)>,
    b: &Vec<(MarshalValue, MarshalValue)>,
) -> (r: bool)
    ensures
        r == sentries_eq(entries_view(a@), entries_view(b@)),
    decreases *a, 0nat,
{
    proof {
        lemma_entries_view_index(a@);
        lemma_entries_view_index(b@);
        lemma_sentries_eq(entries_view(a@), entries_view(b@));
    }
    if a.len() != b.len() {
        return false;
    }
    let mut i: usize = 0;
    while i < a.len()
        invariant
            a@.len() == b@.len(),
            i <= a@.len(),
            forall|j: int|
                0 <= j < i ==> #[trigger] svalue_eq(value_view(a@[j].0), value_view(b@[j].0)),
            forall|j: int|
                0 <= j < i ==> #[trigger] svalue_eq(value_view(a@[j].1), value_view(b@[j].1)),
        decreases a@.len() - i,
    {
        let key_equal = constant_equal(&a[i].0, &b[i].0);
        let value_equal = constant_equal(&a[i].1, &b[i].1);
        if !(key_equal && value_equal) {
            proof {
                lemma_entries_view_index(a@);
                lemma_entries_view_index(b@);
                lemma_sentries_eq(entries_view(a@), entries_view(b@));
                assert(entries_view(a@)[i as int].0 == value_view(a@[i as int].0));
                assert(entries_view(b@)[i as int].0 == value_view(b@[i as int].0));
            }
            return false;
        }
        assert(svalue_eq(value_view(a@[i as int].0), value_view(b@[i as int].0)));
        assert(svalue_eq(value_view(a@[i as int].1), value_view(b@[i as int].1)));
        i += 1;
    }
    proof {
        lemma_entries_view_index(a@);
        lemma_entries_view_index(b@);
        lemma_sentries_eq(entries_view(a@), entries_view(b@));
        assert forall|j: int| 0 <= j < a@.len() implies #[trigger] svalue_eq(
            entries_view(a@)[j].0,
            entries_view(b@)[j].0,
        ) && svalue_eq(entries_view(a@)[j].1, entries_view(b@)[j].1) by {
            assert(svalue_eq(value_view(a@[j].0), value_view(b@[j].0)));
            assert(svalue_eq(value_view(a@[j].1), value_view(b@[j].1)));
        }
    }
    true
}

/// Whether two code objects are field-wise equal.
pub fn code_equal(a: &CodeObject, b: &CodeObject) -> (r: bool)
    ensures
        r == scode_eq(code_view(*a), code_view(*b)),
    decreases *a, 2nat,
{
    a.arg_count == b.arg_count && a.positional_only_arg_count == b.positional_only_arg_count
        && a.keyword_only_arg_count == b.keyword_only_arg_count && a.stack_size == b.stack_size
        && a.flags == b.flags && bytes_equal(a.bytecode.as_slice(), b.bytecode.as_slice())
        && constants_equal(&a.constants, &b.constants) && strings_equal(&a.names, &b.names)
        && strings_equal(&a.localsplus_names, &b.localsplus_names) && bytes_equal(
        a.localsplus_kinds.as_slice(),
        b.localsplus_kinds.as_slice(),
    ) && a.filename == b.filename && a.name == b.name && a.qualified_name == b.qualified_name
        && a.first_line_number == b.first_line_number && bytes_equal(
        a.line_table.as_slice(),
        b.line_table.as_slice(),
    ) && bytes_equal(a.exception_table.as_slice(), b.exception_table.as_slice())
}

/// Whether two VM values are structurally equal (floats compared as IEEE
/// numbers, code objects field by field).
pub fn value_equal(a: &VmValue, b: &VmValue) -> (r: bool)
    ensures
        r == value_eq(vm_view(*a), vm_view(*b)),
    decreases *a, 1nat,
{
    match (a, b) {
        (VmValue::PyNone, VmValue::PyNone) => true,
        (VmValue::Bool(x), VmValue::Bool(y)) => *x == *y,
        (VmValue::Int(x), VmValue::Int(y)) => *x == *y,
        (VmValue::Float(x), VmValue::Float(y)) => float_equal(*x, *y),
        (VmValue::String(x), VmValue::String(y)) => *x == *y,
        (VmValue::Bytes(x), VmValue::Bytes(y)) => bytes_equal(x.as_slice(), y.as_slice()),
        (VmValue::Tuple(x), VmValue::Tuple(y)) => values_equal(x, y),
        (VmValue::List(x), VmValue::List(y)) => values_equal(x, y),
        (VmValue::PySet(x), VmValue::PySet(y)) => values_equal(x, y),
        (VmValue::FrozenSet(x), VmValue::FrozenSet(y)) => values_equal(x, y),
        (VmValue::Dict(x), VmValue::Dict(y)) => entries_equal(x, y),
        (VmValue::Code(x), VmValue::Code(y)) => code_equal(x, y),
        (VmValue::BuiltinPrint, VmValue::BuiltinPrint) => true,
        _ => false,
    }
}

/// Whether two sequences of VM values are element-wise equal.
pub fn values_equal(a: &Vec<VmValue>, b: &Vec<VmValue>) -> (r: bool)
    ensures
        r == values_eq(vm_values_view(a@), vm_values_view(b@)),
    decreases *a, 0nat,
{
    proof {
        lemma_vm_values_view(a@);
        lemma_vm_values_view(b@);
        lemma_values_eq(vm_values_view(a@), vm_values_view(b@));
    }
    if a.len() != b.len() {
        return false;
    }
    let mut i: usize = 0;
    while i < a.len()
        invariant
            a@.len() == b@.len(),
            i <= a@.len(),
            forall|j: int| 0 <= j < i ==> #[trigger] value_eq(vm_view(a@[j]), vm_view(b@[j])),
        decreases a@.len() - i,
    {
        if !value_equal(&a[i], &b[i]) {
            proof {
                lemma_vm_values_view(a@);
                lemma_vm_values_view(b@);
                lemma_values_eq(vm_values_view(a@), vm_values_view(b@));
                assert(!value_eq(vm_values_view(a@)[i as int], vm_values_view(b@)[i as int]));
            }
            return false;
        }
        i += 1;
    }
    proof {
        lemma_vm_values_view(a@);
        lemma_vm_values_view(b@);
        lemma_values_eq(vm_values_view(a@), vm_values_view(b@));
        assert forall|j: int| 0 <= j < a@.len() implies #[trigger] value_eq(
            vm_values_view(a@)[j],
            vm_values_view(b@)[j],
        ) by {
            assert(value_eq(vm_view(a@[j]), vm_view(b@[j])));
        }
    }
    true
}

/// Whether two sequences of key/value pairs are pair-wise equal.
pub fn entries_equal(a: &Vec<(VmValue, VmValue)>, b: &Vec<(VmValue, VmValue)>) -> (r: bool)
    ensures
        r == entries_eq(vm_entries_view(a@), vm_entries_view(b@)),
    decreases *a, 0nat,
{
    proof {
        lemma_vm_entries_view(a@);
        lemma_vm_entries_view(b@);
        lemma_entries_eq(vm_entries_view(a@), vm_entries_view(b@));
    }
    if a.len() != b.len() {
        return false;
    }
    let mut i: usize = 0;
    while i < a.len()
        invariant
            a@.len() == b@.len(),
            i <= a@.len(),
            forall|j: int| 0 <= j < i ==> #[trigger] value_eq(vm_view(a@[j].0), vm_view(b@[j].0)),
            forall|j: int| 0 <= j < i ==> #[trigger] value_eq(vm_view(a@[j].1), vm_view(b@[j].1)),
        decreases a@.len() - i,
    {
        let key_equal = value_equal(&a[i].0, &b[i].0);
        let value_equal = value_equal(&a[i].1, &b[i].1);
        if !(key_equal && value_equal) {
            proof {
                lemma_vm_entries_view(a@);
                lemma_vm_entries_view(b@);
                lemma_entries_eq(vm_entries_view(a@), vm_entries_view(b@));
                assert(vm_entries_view(a@)[i as int].0 == vm_view(a@[i as int].0));
                assert(vm_entries_view(b@)[i as int].0 == vm_view(b@[i as int].0));
            }
            return false;
        }
        i += 1;
    }
    proof {
        lemma_vm_entries_view(a@);
        lemma_vm_entries_view(b@);
        lemma_entries_eq(vm_entries_view(a@), vm_entries_view(b@));
        assert forall|j: int| 0 <= j < a@.len() implies #[trigger] value_eq(
            vm_entries_view(a@)[j].0,
            vm_entries_view(b@)[j].0,
        ) && value_eq(vm_entries_view(a@)[j].1, vm_entries_view(b@)[j].1) by {
            assert(value_eq(vm_view(a@[j].0), vm_view(b@[j].0)));
            assert(value_eq(vm_view(a@[j].1), vm_view(b@[j].1)));
        }
    }
    true
}

} // verus!
