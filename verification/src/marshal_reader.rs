//! Reading a CPython 3.12 `marshal` stream into owned values.
use crate::code::{CodeObject, SpecCode, code_view, strings_view};
use crate::error::ParseError;
use crate::float_text::check_float_text;
use crate::marshal::{
    MarshalFloat, MarshalLong, MarshalValue, SpecFloat, SpecValue, clone_value, entries_view,
    float_view, lemma_entries_view_push, lemma_values_view_index, lemma_values_view_push,
    value_view, values_view,
};
use crate::marshal_format::{
    FLAG_REF, MarshalLimits, Parsed, Read, SpecRefs, TYPE_ASCII, TYPE_ASCII_INTERNED,
    TYPE_BINARY_COMPLEX, TYPE_BINARY_FLOAT, TYPE_CODE, TYPE_COMPLEX, TYPE_DICT, TYPE_ELLIPSIS,
    TYPE_FALSE, TYPE_FLOAT, TYPE_FROZENSET, TYPE_INT, TYPE_INT64, TYPE_INTERNED, TYPE_LIST,
    TYPE_LONG, TYPE_NONE, TYPE_NULL, TYPE_REF, TYPE_SET, TYPE_SHORT_ASCII,
    TYPE_SHORT_ASCII_INTERNED, TYPE_SMALL_TUPLE, TYPE_STOP_ITERATOR, TYPE_STRING, TYPE_TRUE,
    TYPE_TUPLE, TYPE_UNICODE, check_length, le_u64, read_byte,
    read_bytes, read_i16, read_i32, read_i64,
};
use crate::pyc::le_u32;
use crate::text::{decode_text, is_ascii_bytes, lemma_ascii_is_utf8};
use vstd::prelude::*;

verus! {

/// A cursor over the input bytes.
struct ByteReader<'a> {
    input: &'a [u8],
    offset: usize,
}

impl<'a> ByteReader<'a> {
    spec fn wf(&self) -> bool {
        self.offset <= self.input@.len()
    }

    fn new(input: &'a [u8]) -> (r: Self)
        ensures
            r.input == input,
            r.offset == 0,
    {
        ByteReader { input, offset: 0 }
    }

    fn offset(&self) -> (r: usize)
        ensures
            r == self.offset,
    {
        self.offset
    }

    fn remaining(&self) -> (r: usize)
        requires
            self.wf(),
        ensures
            r == self.input@.len() - self.offset,
    {
        self.input.len() - self.offset
    }

    fn peek_u8(&self) -> (r: Option<u8>)
        ensures
            self.offset < self.input@.len() ==> r == Some(self.input@[self.offset as int]),
            self.offset >= self.input@.len() ==> r is None,
    {
        if self.offset < self.input.len() {
            Some(self.input[self.offset])
        } else {
            None
        }
    }

    fn read_u8(&mut self) -> (r: Result<u8, ParseError>)
        requires
            old(self).wf(),
        ensures
            final(self).wf(),
            final(self).input == old(self).input,
            final(self).offset >= old(self).offset,
            match read_byte(old(self).input@, old(self).offset as int) {
                Ok((b, p)) => r == Ok::<u8, ParseError>(b) && final(self).offset == p,
                Err(e) => r == Err::<u8, ParseError>(e),
            },
    {
        if self.offset < self.input.len() {
            let value = self.input[self.offset];
            self.offset += 1;
            Ok(value)
        } else {
            Err(ParseError::UnexpectedEof { offset: self.offset, needed: 1, remaining: 0 })
        }
    }

    fn read_exact(&mut self, length: usize) -> (r: Result<&'a [u8], ParseError>)
        requires
            old(self).wf(),
        ensures
            final(self).wf(),
            final(self).input == old(self).input,
            final(self).offset >= old(self).offset,
            match read_bytes(old(self).input@, old(self).offset as int, length as int) {
                Ok((bytes, p)) => r matches Ok(s) && s@ == bytes && final(self).offset == p,
                Err(e) => r == Err::<&'a [u8], ParseError>(e),
            },
    {
        let remaining = self.input.len() - self.offset;
        if remaining < length {
            return Err(ParseError::UnexpectedEof { offset: self.offset, needed: length, remaining });
        }
        let start = self.offset;
        self.offset = start + length;
        Ok(vstd::slice::slice_subrange(self.input, start, self.offset))
    }

    fn read_le_u32_at(bytes: &[u8], at: usize) -> (v: u32)
        requires
            at + 4 <= bytes@.len(),
        ensures
            v == le_u32(bytes@, at as int),
    {
        bytes[at] as u32 + bytes[at + 1] as u32 * 0x100 + bytes[at + 2] as u32 * 0x1_0000
            + bytes[at + 3] as u32 * 0x100_0000
    }

    fn read_i32(&mut self) -> (r: Result<i32, ParseError>)
        requires
            old(self).wf(),
        ensures
            final(self).wf(),
            final(self).input == old(self).input,
            final(self).offset >= old(self).offset,
            match read_i32(old(self).input@, old(self).offset as int) {
                Ok((v, p)) => r == Ok::<i32, ParseError>(v) && final(self).offset == p,
                Err(e) => r == Err::<i32, ParseError>(e),
            },
    {
        let start = self.offset;
        match self.read_exact(4) {
            Ok(_) => {
                let u = Self::read_le_u32_at(self.input, start);
                if u >= 0x8000_0000 {
                    Ok((u as i64 - 0x1_0000_0000) as i32)
                } else {
                    Ok(u as i32)
                }
            },
            Err(e) => Err(e),
        }
    }

    fn read_u64(&mut self) -> (r: Result<u64, ParseError>)
        requires
            old(self).wf(),
        ensures
            final(self).wf(),
            final(self).input == old(self).input,
            final(self).offset >= old(self).offset,
            match read_bytes(old(self).input@, old(self).offset as int, 8) {
                Ok((_, p)) => r == Ok::<u64, ParseError>(le_u64(old(self).input@, old(self).offset as int))
                    && final(self).offset == p,
                Err(e) => r == Err::<u64, ParseError>(e),
            },
    {
        let start = self.offset;
        match self.read_exact(8) {
            Ok(_) => {
                let low = Self::read_le_u32_at(self.input, start);
                let high = Self::read_le_u32_at(self.input, start + 4);
                Ok(low as u64 + high as u64 * 0x1_0000_0000)
            },
            Err(e) => Err(e),
        }
    }

    fn read_i64(&mut self) -> (r: Result<i64, ParseError>)
        requires
            old(self).wf(),
        ensures
            final(self).wf(),
            final(self).input == old(self).input,
            final(self).offset >= old(self).offset,
            match read_i64(old(self).input@, old(self).offset as int) {
                Ok((v, p)) => r == Ok::<i64, ParseError>(v) && final(self).offset == p,
                Err(e) => r == Err::<i64, ParseError>(e),
            },
    {
        match self.read_u64() {
            Ok(u) => {
                if u >= 0x8000_0000_0000_0000 {
                    Ok((u - 0x8000_0000_0000_0000) as i64 + i64::MIN)
                } else {
                    Ok(u as i64)
                }
            },
            Err(e) => Err(e),
        }
    }

    fn read_i16(&mut self) -> (r: Result<i16, ParseError>)
        requires
            old(self).wf(),
        ensures
            final(self).wf(),
            final(self).input == old(self).input,
            final(self).offset >= old(self).offset,
            match read_i16(old(self).input@, old(self).offset as int) {
                Ok((v, p)) => r == Ok::<i16, ParseError>(v) && final(self).offset == p,
                Err(e) => r == Err::<i16, ParseError>(e),
            },
    {
        let start = self.offset;
        match self.read_exact(2) {
            Ok(_) => {
                let u: u16 = self.input[start] as u16 + self.input[start + 1] as u16 * 0x100;
                if u >= 0x8000 {
                    Ok((u as i32 - 0x1_0000) as i16)
                } else {
                    Ok(u as i16)
                }
            },
            Err(e) => Err(e),
        }
    }
}

} // verus!

verus! {

/// The content of one slot of the reference table.
pub open spec fn slot_view(slot: Option<MarshalValue>) -> Option<SpecValue> {
    match slot {
        Some(v) => Some(value_view(v)),
        None => None,
    }
}

/// The content of the reference table.
pub open spec fn refs_view(refs: Seq<Option<MarshalValue>>) -> SpecRefs {
    Seq::new(refs.len(), |i: int| slot_view(refs[i]))
}

proof fn lemma_refs_view_push(refs: Seq<Option<MarshalValue>>, slot: Option<MarshalValue>)
    ensures
        refs_view(refs.push(slot)) == refs_view(refs).push(slot_view(slot)),
{
    assert(refs_view(refs.push(slot)) =~= refs_view(refs).push(slot_view(slot)));
}

proof fn lemma_refs_view_update(refs: Seq<Option<MarshalValue>>, i: int, slot: Option<MarshalValue>)
    requires
        0 <= i < refs.len(),
    ensures
        refs_view(refs.update(i, slot)) == refs_view(refs).update(i, slot_view(slot)),
{
    assert(refs_view(refs.update(i, slot)) =~= refs_view(refs).update(i, slot_view(slot)));
}

/// Reads one marshal stream, keeping the table of values that later
/// references may name.
struct MarshalReader<'a> {
    reader: ByteReader<'a>,
    limits: MarshalLimits,
    references: Vec<Option<MarshalValue>>,
}

/// `new` reads the same input under the same limits as `old`, from no
/// earlier position and with no smaller reference table.
spec fn advanced(old: MarshalReader, new: MarshalReader) -> bool {
    &&& new.reader.input == old.reader.input
    &&& new.limits == old.limits
    &&& new.reader.wf()
    &&& old.reader.offset <= new.reader.offset
    &&& old.references@.len() <= new.references@.len()
}

/// The reader's position and table after a read that gave `expected`.
spec fn reached<T>(new: MarshalReader, expected: Parsed<T>) -> bool {
    match expected {
        Ok((_, p, r)) => new.reader.offset == p && refs_view(new.references@) == r,
        Err(_) => true,
    }
}

/// A byte-level read that gave `expected` and left the table alone.
spec fn read_done<T>(old: MarshalReader, new: MarshalReader, expected: Read<T>) -> bool {
    &&& advanced(old, new)
    &&& new.references == old.references
    &&& match expected {
        Ok((_, p)) => new.reader.offset == p,
        Err(_) => true,
    }
}

/// The result of a read, compared with what the grammar expects.
spec fn agrees<T, V>(res: Result<T, ParseError>, view: spec_fn(T) -> V, expected: Result<V, ParseError>) -> bool {
    match expected {
        Ok(v) => res matches Ok(x) && view(x) == v,
        Err(e) => res == Err::<T, ParseError>(e),
    }
}

/// A read that gave `expected`: the reader advanced to where the grammar
/// says and the result agrees with it.
spec fn parse_done<T, V>(
    old: MarshalReader,
    new: MarshalReader,
    res: Result<T, ParseError>,
    view: spec_fn(T) -> V,
    expected: Parsed<V>,
) -> bool {
    &&& advanced(old, new)
    &&& reached(new, expected)
    &&& agrees(res, view, parsed_value(expected))
}

spec fn value_of<T>(r: Read<T>) -> Result<T, ParseError> {
    match r {
        Ok((v, _)) => Ok(v),
        Err(e) => Err(e),
    }
}

spec fn parsed_value<T>(r: Parsed<T>) -> Result<T, ParseError> {
    match r {
        Ok((v, _, _)) => Ok(v),
        Err(e) => Err(e),
    }
}

spec fn ident<T>() -> spec_fn(T) -> T {
    |x: T| x
}

spec fn bytes_view() -> spec_fn(Vec<u8>) -> Seq<u8> {
    |v: Vec<u8>| v@
}

spec fn string_view() -> spec_fn(String) -> Seq<char> {
    |s: String| s@
}

spec fn marshal_view() -> spec_fn(MarshalValue) -> SpecValue {
    |v: MarshalValue| value_view(v)
}

spec fn float_value_view() -> spec_fn(MarshalFloat) -> SpecFloat {
    |f: MarshalFloat| float_view(f)
}

impl<'a> MarshalReader<'a> {
    spec fn wf(&self) -> bool {
        self.reader.wf()
    }

    spec fn input(&self) -> Seq<u8> {
        self.reader.input@
    }

    spec fn pos(&self) -> int {
        self.reader.offset as int
    }

    spec fn refs(&self) -> SpecRefs {
        refs_view(self.references@)
    }

    fn new(input: &'a [u8], limits: MarshalLimits) -> (r: Self)
        ensures
            r.wf(),
            r.input() == input@,
            r.pos() == 0,
            r.refs() == Seq::<Option<SpecValue>>::empty(),
            r.limits == limits,
    {
        let r = MarshalReader { reader: ByteReader::new(input), limits, references: Vec::new() };
        assert(r.refs() =~= Seq::<Option<SpecValue>>::empty());
        r
    }

    fn offset(&self) -> (r: usize)
        ensures
            r == self.pos(),
    {
        self.reader.offset()
    }

    fn remaining(&self) -> (r: usize)
        requires
            self.wf(),
        ensures
            r == self.input().len() - self.pos(),
    {
        self.reader.remaining()
    }

    /// Reads a length, checking it against the limits.
    fn validate_length(&self, offset: usize, length: i64) -> (r: Result<usize, ParseError>)
        ensures
            match check_length(self.limits, offset as int, length as int) {
                Ok(n) => r == Ok::<usize, ParseError>(n as usize),
                Err(e) => r == Err::<usize, ParseError>(e),
            },
    {
        if length < 0 {
            return Err(ParseError::InvalidLength { offset, length });
        }
        if length as u64 > self.limits.max_container_length as u64 {
            return Err(
                ParseError::ResourceLimit {
                    offset,
                    what: "container length",
                    limit: self.limits.max_container_length,
                },
            );
        }
        Ok(length as usize)
    }

    fn read_length(&mut self) -> (r: Result<usize, ParseError>)
        requires
            old(self).wf(),
        ensures
            read_done(*old(self), *final(self), crate::marshal_format::read_length(old(self).input(), old(self).limits, old(self).pos())),
            agrees(r, |n: usize| n as int, value_of(crate::marshal_format::read_length(old(self).input(), old(self).limits, old(self).pos()))),
    {
        let offset = self.reader.offset();
        match self.reader.read_i32() {
            Ok(length) => self.validate_length(offset, length as i64),
            Err(e) => Err(e),
        }
    }

    fn read_short_length(&mut self) -> (r: Result<usize, ParseError>)
        requires
            old(self).wf(),
        ensures
            read_done(*old(self), *final(self), crate::marshal_format::read_short_length(old(self).input(), old(self).limits, old(self).pos())),
            agrees(r, |n: usize| n as int, value_of(crate::marshal_format::read_short_length(old(self).input(), old(self).limits, old(self).pos()))),
    {
        let offset = self.reader.offset();
        match self.reader.read_u8() {
            Ok(length) => self.validate_length(offset, length as i64),
            Err(e) => Err(e),
        }
    }

    fn read_length_prefixed_bytes(&mut self) -> (r: Result<Vec<u8>, ParseError>)
        requires
            old(self).wf(),
        ensures
            read_done(*old(self), *final(self), crate::marshal_format::read_counted_bytes(old(self).input(), old(self).limits, old(self).pos())),
            agrees(r, bytes_view(), value_of(crate::marshal_format::read_counted_bytes(old(self).input(), old(self).limits, old(self).pos()))),
    {
        match self.read_length() {
            Ok(length) => match self.reader.read_exact(length) {
                Ok(bytes) => Ok(vstd::slice::slice_to_vec(bytes)),
                Err(e) => Err(e),
            },
            Err(e) => Err(e),
        }
    }

    fn read_length_prefixed_string(&mut self) -> (r: Result<String, ParseError>)
        requires
            old(self).wf(),
        ensures
            read_done(*old(self), *final(self), crate::marshal_format::read_counted_text(old(self).input(), old(self).limits, old(self).pos())),
            agrees(r, string_view(), value_of(crate::marshal_format::read_counted_text(old(self).input(), old(self).limits, old(self).pos()))),
    {
        let offset = self.offset();
        match self.read_length_prefixed_bytes() {
            Ok(bytes) => match decode_text(bytes.as_slice()) {
                Some(text) => Ok(text),
                None => Err(ParseError::InvalidUtf8 { offset }),
            },
            Err(e) => Err(e),
        }
    }

    fn read_ascii_string(&mut self, length: usize) -> (r: Result<String, ParseError>)
        requires
            old(self).wf(),
        ensures
            read_done(*old(self), *final(self), crate::marshal_format::read_ascii_text(old(self).input(), old(self).pos(), length as int)),
            agrees(r, string_view(), value_of(crate::marshal_format::read_ascii_text(old(self).input(), old(self).pos(), length as int))),
    {
        let offset = self.offset();
        match self.reader.read_exact(length) {
            Ok(bytes) => {
                if !is_ascii_bytes(bytes) {
                    return Err(ParseError::InvalidUtf8 { offset });
                }
                proof {
                    lemma_ascii_is_utf8(bytes@);
                }
                match decode_text(bytes) {
                    Some(text) => Ok(text),
                    None => Err(ParseError::InvalidUtf8 { offset }),
                }
            },
            Err(e) => Err(e),
        }
    }

    fn read_decimal_float_value(&mut self) -> (r: Result<MarshalFloat, ParseError>)
        requires
            old(self).wf(),
        ensures
            read_done(*old(self), *final(self), crate::marshal_format::read_decimal_float(old(self).input(), old(self).limits, old(self).pos())),
            agrees(r, float_value_view(), value_of(crate::marshal_format::read_decimal_float(old(self).input(), old(self).limits, old(self).pos()))),
    {
        let offset = self.offset();
        let length = match self.reader.read_u8() {
            Ok(length) => length,
            Err(e) => return Err(e),
        };
        if length as usize > self.limits.max_container_length {
            return Err(
                ParseError::ResourceLimit {
                    offset,
                    what: "float string length",
                    limit: self.limits.max_container_length,
                },
            );
        }
        match self.reader.read_exact(length as usize) {
            Ok(bytes) => match decode_text(bytes) {
                None => Err(ParseError::InvalidUtf8 { offset }),
                Some(text) => {
                    if check_float_text(bytes) {
                        Ok(MarshalFloat::Decimal(text))
                    } else {
                        Err(ParseError::InvalidFloat { offset })
                    }
                },
            },
            Err(e) => Err(e),
        }
    }

    fn read_binary_float_value(&mut self) -> (r: Result<MarshalFloat, ParseError>)
        requires
            old(self).wf(),
        ensures
            read_done(*old(self), *final(self), crate::marshal_format::read_binary_float(old(self).input(), old(self).pos())),
            agrees(r, float_value_view(), value_of(crate::marshal_format::read_binary_float(old(self).input(), old(self).pos()))),
    {
        match self.reader.read_u64() {
            Ok(bits) => Ok(MarshalFloat::Binary(bits)),
            Err(e) => Err(e),
        }
    }

    fn read_long(&mut self) -> (r: Result<MarshalValue, ParseError>)
        requires
            old(self).wf(),
        ensures
            read_done(*old(self), *final(self), crate::marshal_format::read_long(old(self).input(), old(self).limits, old(self).pos())),
            agrees(r, marshal_view(), value_of(crate::marshal_format::read_long(old(self).input(), old(self).limits, old(self).pos()))),
    {
        let offset = self.offset();
        let raw_count: i32 = match self.reader.read_i32() {
            Ok(v) => v,
            Err(e) => return Err(e),
        };
        let negative = raw_count < 0;
        let count: u64 = if raw_count < 0 {
            (-(raw_count as i64)) as u64
        } else {
            raw_count as u64
        };
        if count > self.limits.max_container_length as u64 {
            return Err(
                ParseError::ResourceLimit {
                    offset,
                    what: "long integer digit count",
                    limit: self.limits.max_container_length,
                },
            );
        }
        let ghost start = self.pos();
        let ghost total = count as nat;
        let mut digits: Vec<u16> = Vec::new();
        let mut i: u64 = 0;
        proof {
            assert forall|rest: Seq<u16>| #[trigger] (digits@ + rest) == rest by {
                assert(digits@ + rest =~= rest);
            }
        }
        while i < count
            invariant
                i <= count,
                total == count,
                crate::marshal_format::read_long(old(self).input(), old(self).limits, old(self).pos()) == match crate::marshal_format::read_digits(self.input(), start, total) {
                    Ok((d, end)) => Ok::<(SpecValue, int), ParseError>((SpecValue::Long { negative, digits: d }, end)),
                    Err(e) => Err(e),
                },
                self.wf(),
                advanced(*old(self), *self),
                self.references == old(self).references,
                self.input() == old(self).input(),
                crate::marshal_format::read_digits(self.input(), start, total) == match crate::marshal_format::read_digits(self.input(), self.pos(), (total - i) as nat) {
                    Ok((rest, end)) => Ok::<(Seq<u16>, int), ParseError>((digits@ + rest, end)),
                    Err(e) => Err(e),
                },
            decreases count - i,
        {
            let ghost before = self.pos();
            let digit = match self.reader.read_i16() {
                Ok(d) => d,
                Err(e) => return Err(e),
            };
            if digit < 0 {
                return Err(
                    ParseError::InvalidCodeObject(
                        "marshal long digit is outside the base-2^15 range",
                    ),
                );
            }
            proof {
                let ghost prev = digits@;
                assert forall|rest: Seq<u16>| #[trigger] (prev + (seq![digit as u16] + rest)) == prev.push(digit as u16) + rest by {
                    assert(prev + (seq![digit as u16] + rest) =~= prev.push(digit as u16) + rest);
                }
                assert((total - i - 1) as nat == ((total - i) as nat - 1) as nat);
            }
            digits.push(digit as u16);
            i += 1;
        }
        proof {
            assert(digits@ + Seq::<u16>::empty() =~= digits@);
        }
        Ok(MarshalValue::Long(MarshalLong { negative, digits }))
    }

    fn read_reference(&mut self) -> (r: Result<MarshalValue, ParseError>)
        requires
            old(self).wf(),
        ensures
            parse_done(*old(self), *final(self), r, marshal_view(), crate::marshal_format::read_reference(old(self).input(), old(self).pos(), old(self).refs())),
            final(self).references == old(self).references,
    {
        let offset = self.offset();
        let index = match self.reader.read_i32() {
            Ok(i) => i,
            Err(e) => return Err(e),
        };
        if index < 0 || index as usize >= self.references.len() {
            return Err(
                ParseError::InvalidReference { offset, index, count: self.references.len() },
            );
        }
        let slot = index as usize;
        assert(self.refs()[slot as int] == slot_view(self.references@[slot as int]));
        match &self.references[slot] {
            Some(value) => Ok(clone_value(value)),
            None => Err(ParseError::RecursiveReference { offset, index }),
        }
    }

    fn read_code_u32(&mut self, field: &'static str) -> (r: Result<u32, ParseError>)
        requires
            old(self).wf(),
        ensures
            read_done(*old(self), *final(self), crate::marshal_format::read_code_u32(old(self).input(), old(self).pos(), field)),
            agrees(r, ident(), value_of(crate::marshal_format::read_code_u32(old(self).input(), old(self).pos(), field))),
    {
        match self.reader.read_i32() {
            Ok(value) => if value < 0 {
                Err(ParseError::InvalidCodeObject(field))
            } else {
                Ok(value as u32)
            },
            Err(e) => Err(e),
        }
    }

    fn expect_bytes(value: MarshalValue, field: &'static str) -> (r: Result<Vec<u8>, ParseError>)
        ensures
            agrees(r, bytes_view(), crate::marshal_format::expect_bytes(value_view(value), field)),
    {
        match value {
            MarshalValue::Bytes(bytes) => Ok(bytes),
            _ => Err(ParseError::InvalidCodeField { field, expected: "bytes" }),
        }
    }

    fn expect_string(value: MarshalValue, field: &'static str) -> (r: Result<String, ParseError>)
        ensures
            agrees(r, string_view(), crate::marshal_format::expect_string(value_view(value), field)),
    {
        match value {
            MarshalValue::String(text) => Ok(text),
            _ => Err(ParseError::InvalidCodeField { field, expected: "string" }),
        }
    }

    fn expect_tuple(value: MarshalValue, field: &'static str) -> (r: Result<Vec<MarshalValue>, ParseError>)
        ensures
            agrees(r, |v: Vec<MarshalValue>| values_view(v@), crate::marshal_format::expect_tuple(value_view(value), field)),
    {
        match value {
            MarshalValue::Tuple(values) => Ok(values),
            _ => Err(ParseError::InvalidCodeField { field, expected: "tuple" }),
        }
    }

    fn expect_string_tuple(value: MarshalValue, field: &'static str) -> (r: Result<Vec<String>, ParseError>)
        ensures
            agrees(r, |v: Vec<String>| strings_view(v@), crate::marshal_format::expect_string_tuple(value_view(value), field)),
    {
        let ghost whole = value_view(value);
        let values = match Self::expect_tuple(value, field) {
            Ok(values) => values,
            Err(e) => return Err(e),
        };
        let ghost items = values_view(values@);
        assert(crate::marshal_format::expect_tuple(whole, field) == Ok::<Seq<SpecValue>, ParseError>(items));
        proof {
            lemma_values_view_index(values@);
        }
        let mut texts: Vec<String> = Vec::new();
        let mut i: usize = 0;
        while i < values.len()
            invariant
                i <= values@.len(),
                items == values_view(values@),
                whole == value_view(value),
                crate::marshal_format::expect_tuple(whole, field) == Ok::<Seq<SpecValue>, ParseError>(items),
                items.len() == values@.len(),
                forall|j: int| 0 <= j < values@.len() ==> #[trigger] items[j] == value_view(values@[j]),
                texts@.len() == i,
                forall|j: int| 0 <= j < i ==> #[trigger] items[j] is String,
                forall|j: int| 0 <= j < i ==> #[trigger] texts@[j]@ == items[j]->String_0,
            decreases values@.len() - i,
        {
            match &values[i] {
                MarshalValue::String(text) => {
                    texts.push(text.clone());
                },
                _ => {
                    assert(!(items[i as int] is String));
                    return Err(ParseError::InvalidCodeField { field, expected: "string" });
                },
            }
            i += 1;
        }
        assert(strings_view(texts@) =~= crate::marshal_format::texts(items));
        Ok(texts)
    }

    fn read_object(&mut self, depth: usize) -> (r: Result<MarshalValue, ParseError>)
        requires
            old(self).wf(),
            depth <= old(self).pos(),
        ensures
            parse_done(*old(self), *final(self), r, marshal_view(), crate::marshal_format::read_object(old(self).input(), old(self).limits, old(self).pos(), old(self).refs(), depth as int)),
        decreases old(self).limits.max_depth + 1 - depth, 0int, 0int,
    {
        if depth > self.limits.max_depth {
            return Err(
                ParseError::ResourceLimit {
                    offset: self.offset(),
                    what: "nesting depth",
                    limit: self.limits.max_depth,
                },
            );
        }
        let tag_offset = self.offset();
        let raw_tag = match self.reader.read_u8() {
            Ok(b) => b,
            Err(e) => return Err(e),
        };
        let has_reference = raw_tag >= FLAG_REF;
        let tag = raw_tag % 0x80;
        if tag == TYPE_REF {
            if has_reference {
                return Err(ParseError::UnsupportedMarshalType { offset: tag_offset, tag: raw_tag });
            }
            return self.read_reference();
        }
        if tag == TYPE_NULL {
            return Err(ParseError::UnsupportedMarshalType { offset: tag_offset, tag: raw_tag });
        }
        if has_reference {
            let index = self.references.len();
            let ghost before = self.references@;
            self.references.push(None);
            proof {
                lemma_refs_view_push(before, None);
            }
            let value = match self.read_object_body(tag, depth + 1) {
                Ok(v) => v,
                Err(e) => return Err(e),
            };
            let copy = clone_value(&value);
            let ghost filled = self.references@;
            self.references.set(index, Some(copy));
            proof {
                lemma_refs_view_update(filled, index as int, Some(copy));
            }
            Ok(value)
        } else {
            self.read_object_body(tag, depth + 1)
        }
    }

    fn read_object_body(&mut self, tag: u8, depth: usize) -> (r: Result<MarshalValue, ParseError>)
        requires
            old(self).wf(),
            depth <= old(self).pos(),
            old(self).pos() >= 1,
        ensures
            parse_done(*old(self), *final(self), r, marshal_view(), crate::marshal_format::read_body(old(self).input(), old(self).limits, tag, old(self).pos(), old(self).refs(), depth as int)),
        decreases old(self).limits.max_depth + 1 - depth, 3int, 0int,
    {
        if tag == TYPE_NONE {
            Ok(MarshalValue::PyNone)
        } else if tag == TYPE_FALSE {
            Ok(MarshalValue::Bool(false))
        } else if tag == TYPE_TRUE {
            Ok(MarshalValue::Bool(true))
        } else if tag == TYPE_STOP_ITERATOR {
            Ok(MarshalValue::StopIteration)
        } else if tag == TYPE_ELLIPSIS {
            Ok(MarshalValue::Ellipsis)
        } else if tag == TYPE_INT {
            match self.reader.read_i32() {
                Ok(v) => Ok(MarshalValue::Int(v as i64)),
                Err(e) => Err(e),
            }
        } else if tag == TYPE_INT64 {
            match self.reader.read_i64() {
                Ok(v) => Ok(MarshalValue::Int(v)),
                Err(e) => Err(e),
            }
        } else if tag == TYPE_LONG {
            self.read_long()
        } else if tag == TYPE_FLOAT {
            match self.read_decimal_float_value() {
                Ok(f) => Ok(MarshalValue::Float(f)),
                Err(e) => Err(e),
            }
        } else if tag == TYPE_BINARY_FLOAT {
            match self.read_binary_float_value() {
                Ok(f) => Ok(MarshalValue::Float(f)),
                Err(e) => Err(e),
            }
        } else if tag == TYPE_COMPLEX {
            let re = match self.read_decimal_float_value() {
                Ok(f) => f,
                Err(e) => return Err(e),
            };
            match self.read_decimal_float_value() {
                Ok(im) => Ok(MarshalValue::Complex { real: re, imaginary: im }),
                Err(e) => Err(e),
            }
        } else if tag == TYPE_BINARY_COMPLEX {
            let re = match self.read_binary_float_value() {
                Ok(f) => f,
                Err(e) => return Err(e),
            };
            match self.read_binary_float_value() {
                Ok(im) => Ok(MarshalValue::Complex { real: re, imaginary: im }),
                Err(e) => Err(e),
            }
        } else if tag == TYPE_STRING {
            match self.read_length_prefixed_bytes() {
                Ok(b) => Ok(MarshalValue::Bytes(b)),
                Err(e) => Err(e),
            }
        } else if tag == TYPE_INTERNED || tag == TYPE_UNICODE {
            match self.read_length_prefixed_string() {
                Ok(text) => Ok(MarshalValue::String(text)),
                Err(e) => Err(e),
            }
        } else if tag == TYPE_ASCII || tag == TYPE_ASCII_INTERNED {
            let length = match self.read_length() {
                Ok(n) => n,
                Err(e) => return Err(e),
            };
            match self.read_ascii_string(length) {
                Ok(text) => Ok(MarshalValue::String(text)),
                Err(e) => Err(e),
            }
        } else if tag == TYPE_SHORT_ASCII || tag == TYPE_SHORT_ASCII_INTERNED {
            let length = match self.read_short_length() {
                Ok(n) => n,
                Err(e) => return Err(e),
            };
            match self.read_ascii_string(length) {
                Ok(text) => Ok(MarshalValue::String(text)),
                Err(e) => Err(e),
            }
        } else if tag == TYPE_TUPLE || tag == TYPE_LIST || tag == TYPE_SET || tag
            == TYPE_FROZENSET || tag == TYPE_SMALL_TUPLE {
            let length = if tag == TYPE_SMALL_TUPLE {
                self.read_short_length()
            } else {
                self.read_length()
            };
            let length = match length {
                Ok(n) => n,
                Err(e) => return Err(e),
            };
            let values = match self.read_sequence(depth, length) {
                Ok(values) => values,
                Err(e) => return Err(e),
            };
            if tag == TYPE_LIST {
                Ok(MarshalValue::List(values))
            } else if tag == TYPE_SET {
                Ok(MarshalValue::PySet(values))
            } else if tag == TYPE_FROZENSET {
                Ok(MarshalValue::FrozenSet(values))
            } else {
                Ok(MarshalValue::Tuple(values))
            }
        } else if tag == TYPE_DICT {
            match self.read_dict(depth) {
                Ok(entries) => Ok(MarshalValue::Dict(entries)),
                Err(e) => Err(e),
            }
        } else if tag == TYPE_CODE {
            match self.read_code(depth) {
                Ok(code) => Ok(MarshalValue::Code(Box::new(code))),
                Err(e) => Err(e),
            }
        } else {
            Err(ParseError::UnsupportedMarshalType { offset: self.offset() - 1, tag })
        }
    }

    fn read_sequence(&mut self, depth: usize, length: usize) -> (r: Result<Vec<MarshalValue>, ParseError>)
        requires
            old(self).wf(),
            depth <= old(self).pos(),
        ensures
            parse_done(*old(self), *final(self), r, |v: Vec<MarshalValue>| values_view(v@), crate::marshal_format::read_items(old(self).input(), old(self).limits, old(self).pos(), old(self).refs(), depth as int, length as nat)),
        decreases old(self).limits.max_depth + 1 - depth, 2int, length,
    {
        let ghost start_pos = self.pos();
        let ghost start_refs = self.refs();
        let ghost lim = self.limits;
        let mut values: Vec<MarshalValue> = Vec::new();
        let mut i: usize = 0;
        proof {
            assert forall|rest: Seq<SpecValue>| #[trigger] (values_view(values@) + rest) == rest by {
                assert(values_view(values@) + rest =~= rest);
            }
        }
        while i < length
            invariant
                i <= length,
                self.wf(),
                advanced(*old(self), *self),
                depth <= self.pos(),
                lim == self.limits,
                start_pos == old(self).pos(),
                start_refs == old(self).refs(),
                crate::marshal_format::read_items(self.input(), lim, start_pos, start_refs, depth as int, length as nat) == match crate::marshal_format::read_items(self.input(), lim, self.pos(), self.refs(), depth as int, (length - i) as nat) {
                    Ok((rest, end, refs)) => Ok::<(Seq<SpecValue>, int, SpecRefs), ParseError>((values_view(values@) + rest, end, refs)),
                    Err(e) => Err(e),
                },
            decreases length - i,
        {
            let ghost prev = values_view(values@);
            let value = match self.read_object(depth) {
                Ok(v) => v,
                Err(e) => return Err(e),
            };
            proof {
                lemma_values_view_push(values@, value);
                let ghost v = value_view(value);
                assert forall|rest: Seq<SpecValue>| #[trigger] (prev + (seq![v] + rest)) == prev.push(v) + rest by {
                    assert(prev + (seq![v] + rest) =~= prev.push(v) + rest);
                }
                assert((length - i - 1) as nat == ((length - i) as nat - 1) as nat);
            }
            values.push(value);
            i += 1;
        }
        proof {
            assert(values_view(values@) + Seq::<SpecValue>::empty() =~= values_view(values@));
        }
        Ok(values)
    }

    fn read_dict(&mut self, depth: usize) -> (r: Result<Vec<(MarshalValue, MarshalValue)>, ParseError>)
        requires
            old(self).wf(),
            depth <= old(self).pos(),
        ensures
            parse_done(*old(self), *final(self), r, |v: Vec<(MarshalValue, MarshalValue)>| entries_view(v@), crate::marshal_format::read_entries(old(self).input(), old(self).limits, old(self).pos(), old(self).refs(), depth as int, 0)),
        decreases old(self).limits.max_depth + 1 - depth, 2int, old(self).limits.max_container_length,
    {
        let ghost start_pos = self.pos();
        let ghost start_refs = self.refs();
        let ghost lim = self.limits;
        let mut entries: Vec<(MarshalValue, MarshalValue)> = Vec::new();
        proof {
            assert forall|rest: Seq<(SpecValue, SpecValue)>| #[trigger] (entries_view(entries@) + rest) == rest by {
                assert(entries_view(entries@) + rest =~= rest);
            }
        }
        loop
            invariant
                self.wf(),
                advanced(*old(self), *self),
                depth <= self.pos(),
                lim == self.limits,
                start_pos == old(self).pos(),
                start_refs == old(self).refs(),
                entries@.len() <= lim.max_container_length,
                crate::marshal_format::read_entries(self.input(), lim, start_pos, start_refs, depth as int, 0) == match crate::marshal_format::read_entries(self.input(), lim, self.pos(), self.refs(), depth as int, entries@.len() as int) {
                    Ok((rest, end, refs)) => Ok::<(Seq<(SpecValue, SpecValue)>, int, SpecRefs), ParseError>((entries_view(entries@) + rest, end, refs)),
                    Err(e) => Err(e),
                },
            decreases lim.max_container_length - entries@.len(),
        {
            if self.reader.peek_u8() == Some(TYPE_NULL) {
                match self.reader.read_u8() {
                    Ok(_) => {},
                    Err(e) => return Err(e),
                }
                proof {
                    assert(entries_view(entries@) + Seq::<(SpecValue, SpecValue)>::empty() =~= entries_view(entries@));
                }
                return Ok(entries);
            }
            if entries.len() >= self.limits.max_container_length {
                return Err(
                    ParseError::ResourceLimit {
                        offset: self.offset(),
                        what: "dictionary length",
                        limit: self.limits.max_container_length,
                    },
                );
            }
            let key = match self.read_object(depth) {
                Ok(v) => v,
                Err(e) => return Err(e),
            };
            let value = match self.read_object(depth) {
                Ok(v) => v,
                Err(e) => return Err(e),
            };
            proof {
                let ghost prev = entries_view(entries@);
                lemma_entries_view_push(entries@, (key, value));
                let ghost kv = (value_view(key), value_view(value));
                assert forall|rest: Seq<(SpecValue, SpecValue)>| #[trigger] (prev + (seq![kv] + rest)) == prev.push(kv) + rest by {
                    assert(prev + (seq![kv] + rest) =~= prev.push(kv) + rest);
                }
            }
            entries.push((key, value));
        }
    }

    fn read_code_header(&mut self) -> (r: Result<(u32, u32, u32, u32, u32), ParseError>)
        requires
            old(self).wf(),
        ensures
            read_done(*old(self), *final(self), crate::marshal_format::read_code_header(old(self).input(), old(self).pos())),
            agrees(r, ident(), value_of(crate::marshal_format::read_code_header(old(self).input(), old(self).pos()))),
    {
        let a = match self.read_code_u32("arg_count") {
            Ok(v) => v,
            Err(e) => return Err(e),
        };
        let b = match self.read_code_u32("positional_only_arg_count") {
            Ok(v) => v,
            Err(e) => return Err(e),
        };
        let c = match self.read_code_u32("keyword_only_arg_count") {
            Ok(v) => v,
            Err(e) => return Err(e),
        };
        let d = match self.read_code_u32("stack_size") {
            Ok(v) => v,
            Err(e) => return Err(e),
        };
        let f = match self.read_code_u32("flags") {
            Ok(v) => v,
            Err(e) => return Err(e),
        };
        Ok((a, b, c, d, f))
    }

    fn read_code(&mut self, depth: usize) -> (r: Result<CodeObject, ParseError>)
        requires
            old(self).wf(),
            depth <= old(self).pos(),
        ensures
            parse_done(*old(self), *final(self), r, |c: CodeObject| code_view(c), crate::marshal_format::read_code(old(self).input(), old(self).limits, old(self).pos(), old(self).refs(), depth as int)),
        decreases old(self).limits.max_depth + 1 - depth, 2int, 0int,
    {
        let counts = match self.read_code_header() {
            Ok(c) => c,
            Err(e) => return Err(e),
        };
        let value = match self.read_object(depth) {
            Ok(v) => v,
            Err(e) => return Err(e),
        };
        let bytecode = match Self::expect_bytes(value, "bytecode") {
            Ok(b) => b,
            Err(e) => return Err(e),
        };
        let value = match self.read_object(depth) {
            Ok(v) => v,
            Err(e) => return Err(e),
        };
        let constants = match Self::expect_tuple(value, "constants") {
            Ok(c) => c,
            Err(e) => return Err(e),
        };
        let value = match self.read_object(depth) {
            Ok(v) => v,
            Err(e) => return Err(e),
        };
        let names = match Self::expect_string_tuple(value, "names") {
            Ok(n) => n,
            Err(e) => return Err(e),
        };
        self.read_code_tail(depth, counts, bytecode, constants, names)
    }

    fn read_code_tail(
        &mut self,
        depth: usize,
        counts: (u32, u32, u32, u32, u32),
        bytecode: Vec<u8>,
        constants: Vec<MarshalValue>,
        names: Vec<String>,
    ) -> (r: Result<CodeObject, ParseError>)
        requires
            old(self).wf(),
            depth <= old(self).pos(),
        ensures
            parse_done(*old(self), *final(self), r, |c: CodeObject| code_view(c), crate::marshal_format::read_code_tail(old(self).input(), old(self).limits, old(self).pos(), old(self).refs(), depth as int, counts, bytecode@, values_view(constants@), strings_view(names@))),
        decreases old(self).limits.max_depth + 1 - depth, 1int, 0int,
    {
        let value = match self.read_object(depth) {
            Ok(v) => v,
            Err(e) => return Err(e),
        };
        let localsplus_names = match Self::expect_string_tuple(value, "localsplus_names") {
            Ok(n) => n,
            Err(e) => return Err(e),
        };
        let value = match self.read_object(depth) {
            Ok(v) => v,
            Err(e) => return Err(e),
        };
        let localsplus_kinds = match Self::expect_bytes(value, "localsplus_kinds") {
            Ok(b) => b,
            Err(e) => return Err(e),
        };
        let value = match self.read_object(depth) {
            Ok(v) => v,
            Err(e) => return Err(e),
        };
        let filename = match Self::expect_string(value, "filename") {
            Ok(s) => s,
            Err(e) => return Err(e),
        };
        let value = match self.read_object(depth) {
            Ok(v) => v,
            Err(e) => return Err(e),
        };
        let name = match Self::expect_string(value, "name") {
            Ok(s) => s,
            Err(e) => return Err(e),
        };
        let value = match self.read_object(depth) {
            Ok(v) => v,
            Err(e) => return Err(e),
        };
        let qualified_name = match Self::expect_string(value, "qualified_name") {
            Ok(s) => s,
            Err(e) => return Err(e),
        };
        let first_line_number = match self.read_code_u32("first_line_number") {
            Ok(v) => v,
            Err(e) => return Err(e),
        };
        let value = match self.read_object(depth) {
            Ok(v) => v,
            Err(e) => return Err(e),
        };
        let line_table = match Self::expect_bytes(value, "line_table") {
            Ok(b) => b,
            Err(e) => return Err(e),
        };
        let value = match self.read_object(depth) {
            Ok(v) => v,
            Err(e) => return Err(e),
        };
        let exception_table = match Self::expect_bytes(value, "exception_table") {
            Ok(b) => b,
            Err(e) => return Err(e),
        };
        if localsplus_names.len() != localsplus_kinds.len() {
            return Err(
                ParseError::InvalidCodeObject(
                    "localsplus_names and localsplus_kinds have different lengths",
                ),
            );
        }
        Ok(
            CodeObject {
                arg_count: counts.0,
                positional_only_arg_count: counts.1,
                keyword_only_arg_count: counts.2,
                stack_size: counts.3,
                flags: counts.4,
                bytecode,
                constants,
                names,
                localsplus_names,
                localsplus_kinds,
                filename,
                name,
                qualified_name,
                first_line_number,
                line_table,
                exception_table,
            },
        )
    }
}

} // verus!

verus! {

/// The limits `parse_marshal` reads under: nesting depth 256, 16 Mi items
/// per container and 64 MiB of input.
pub open spec fn default_limits() -> MarshalLimits {
    MarshalLimits {
        max_depth: 256,
        max_container_length: 0x100_0000,
        max_input_bytes: 0x400_0000,
    }
}

impl Default for MarshalLimits {
    fn default() -> (r: Self)
        ensures
            r == default_limits(),
    {
        MarshalLimits {
            max_depth: 256,
            max_container_length: 16 * 1024 * 1024,
            max_input_bytes: 64 * 1024 * 1024,
        }
    }
}

/// A parse of a whole stream compared with the grammar's answer.
pub open spec fn parse_agrees(res: Result<MarshalValue, ParseError>, expected: Result<SpecValue, ParseError>) -> bool {
    match expected {
        Ok(v) => res matches Ok(x) && value_view(x) == v,
        Err(e) => res == Err::<MarshalValue, ParseError>(e),
    }
}

/// Reads a whole marshal stream under the given limits: exactly one value,
/// with nothing after it.
pub fn parse_marshal_with_limits(input: &[u8], limits: MarshalLimits) -> (res: Result<
    MarshalValue,
    ParseError,
>)
    ensures
        parse_agrees(res, crate::marshal_format::spec_parse_marshal(input@, limits)),
{
    if input.len() > limits.max_input_bytes {
        return Err(
            ParseError::ResourceLimit {
                offset: 0,
                what: "input size",
                limit: limits.max_input_bytes,
            },
        );
    }
    let mut reader = MarshalReader::new(input, limits);
    let value = match reader.read_object(0) {
        Ok(v) => v,
        Err(e) => return Err(e),
    };
    if reader.remaining() != 0 {
        return Err(
            ParseError::TrailingBytes { offset: reader.offset(), remaining: reader.remaining() },
        );
    }
    Ok(value)
}

/// Reads a whole marshal stream under the default limits.
pub fn parse_marshal(input: &[u8]) -> (res: Result<MarshalValue, ParseError>)
    ensures
        parse_agrees(res, crate::marshal_format::spec_parse_marshal(input@, default_limits())),
{
    parse_marshal_with_limits(input, MarshalLimits::default())
}

/// The code object a whole marshal stream holds.
pub open spec fn spec_parse_code_object(input: Seq<u8>, lim: MarshalLimits) -> Result<SpecCode, ParseError> {
    match crate::marshal_format::spec_parse_marshal(input, lim) {
        Ok(SpecValue::Code(c)) => Ok(c),
        Ok(_) => Err(ParseError::RootIsNotCodeObject),
        Err(e) => Err(e),
    }
}

/// A code object read compared with the grammar's answer.
pub open spec fn code_agrees(res: Result<CodeObject, ParseError>, expected: Result<SpecCode, ParseError>) -> bool {
    match expected {
        Ok(c) => res matches Ok(code) && code_view(code) == c,
        Err(e) => res == Err::<CodeObject, ParseError>(e),
    }
}

/// Reads a whole marshal stream, under the given limits, whose value must be a code object.
pub fn parse_code_from(input: &[u8], limits: MarshalLimits) -> (res: Result<CodeObject, ParseError>)
    ensures
        code_agrees(res, spec_parse_code_object(input@, limits)),
{
    match parse_marshal_with_limits(input, limits) {
        Ok(MarshalValue::Code(code)) => Ok(*code),
        Ok(_) => Err(ParseError::RootIsNotCodeObject),
        Err(e) => Err(e),
    }
}

/// Reads a whole marshal stream whose value must be a code object.
pub fn parse_code_object(input: &[u8]) -> (res: Result<CodeObject, ParseError>)
    ensures
        code_agrees(res, spec_parse_code_object(input@, default_limits())),
{
    match parse_marshal(input) {
        Ok(MarshalValue::Code(code)) => Ok(*code),
        Ok(_) => Err(ParseError::RootIsNotCodeObject),
        Err(e) => Err(e),
    }
}

} // verus!
