//! The CPython 3.12 `marshal` grammar, stated over byte sequences.
//!
//! Each reader takes the input, the position to read at and the reference
//! table built so far, and gives the value read with the position after it
//! and the updated table, or the error the stream is rejected with.
use crate::code::SpecCode;
use crate::error::ParseError;
use crate::float_text::is_float_text;
use crate::marshal::{SpecFloat, SpecValue};
use crate::pyc::le_u32;
use vstd::prelude::*;
use vstd::utf8::{decode_utf8, valid_utf8};

verus! {

pub const TYPE_NULL: u8 = 0x30;
pub const TYPE_NONE: u8 = 0x4e;
pub const TYPE_FALSE: u8 = 0x46;
pub const TYPE_TRUE: u8 = 0x54;
pub const TYPE_STOP_ITERATOR: u8 = 0x53;
pub const TYPE_ELLIPSIS: u8 = 0x2e;
pub const TYPE_INT: u8 = 0x69;
pub const TYPE_INT64: u8 = 0x49;
pub const TYPE_FLOAT: u8 = 0x66;
pub const TYPE_BINARY_FLOAT: u8 = 0x67;
pub const TYPE_COMPLEX: u8 = 0x78;
pub const TYPE_BINARY_COMPLEX: u8 = 0x79;
pub const TYPE_LONG: u8 = 0x6c;
pub const TYPE_STRING: u8 = 0x73;
pub const TYPE_INTERNED: u8 = 0x74;
pub const TYPE_REF: u8 = 0x72;
pub const TYPE_TUPLE: u8 = 0x28;
pub const TYPE_LIST: u8 = 0x5b;
pub const TYPE_DICT: u8 = 0x7b;
pub const TYPE_CODE: u8 = 0x63;
pub const TYPE_UNICODE: u8 = 0x75;
pub const TYPE_SET: u8 = 0x3c;
pub const TYPE_FROZENSET: u8 = 0x3e;
pub const TYPE_ASCII: u8 = 0x61;
pub const TYPE_ASCII_INTERNED: u8 = 0x41;
pub const TYPE_SMALL_TUPLE: u8 = 0x29;
pub const TYPE_SHORT_ASCII: u8 = 0x7a;
pub const TYPE_SHORT_ASCII_INTERNED: u8 = 0x5a;

/// The bit of a type tag that asks for the value to enter the reference table.
pub const FLAG_REF: u8 = 0x80;

/// Bounds on the resources one marshal stream may use.
#[derive(Debug, Clone, Copy)]
pub struct MarshalLimits {
    pub max_depth: usize,
    pub max_container_length: usize,
    pub max_input_bytes: usize,
}

/// The reference table: one slot per value whose tag carried `FLAG_REF`,
/// empty while that value is still being read.
pub type SpecRefs = Seq<Option<SpecValue>>;

/// The result of reading a value: the value, the position after it and the
/// reference table after it.
pub type Parsed<T> = Result<(T, int, SpecRefs), ParseError>;

/// The result of reading bytes that do not touch the reference table.
pub type Read<T> = Result<(T, int), ParseError>;

/// The little-endian unsigned 16-bit integer at `input[at..at + 2]`.
pub open spec fn le_u16(input: Seq<u8>, at: int) -> u16 {
    (input[at] + input[at + 1] * 0x100) as u16
}

/// The little-endian signed 16-bit integer at `input[at..at + 2]`.
pub open spec fn le_i16(input: Seq<u8>, at: int) -> i16 {
    let u = le_u16(input, at);
    if u >= 0x8000 {
        (u - 0x1_0000) as i16
    } else {
        u as i16
    }
}

/// The little-endian signed 32-bit integer at `input[at..at + 4]`.
pub open spec fn le_i32(input: Seq<u8>, at: int) -> i32 {
    let u = le_u32(input, at);
    if u >= 0x8000_0000 {
        (u - 0x1_0000_0000) as i32
    } else {
        u as i32
    }
}

/// The little-endian unsigned 64-bit integer at `input[at..at + 8]`.
pub open spec fn le_u64(input: Seq<u8>, at: int) -> u64 {
    (le_u32(input, at) + le_u32(input, at + 4) * 0x1_0000_0000) as u64
}

/// The little-endian signed 64-bit integer at `input[at..at + 8]`.
pub open spec fn le_i64(input: Seq<u8>, at: int) -> i64 {
    let u = le_u64(input, at);
    if u >= 0x8000_0000_0000_0000 {
        (u - 0x1_0000_0000_0000_0000) as i64
    } else {
        u as i64
    }
}

/// Reads `needed` bytes at `pos`.
pub open spec fn read_bytes(input: Seq<u8>, pos: int, needed: int) -> Read<Seq<u8>> {
    if input.len() - pos < needed {
        Err(
            ParseError::UnexpectedEof {
                offset: pos as usize,
                needed: needed as usize,
                remaining: (input.len() - pos) as usize,
            },
        )
    } else {
        Ok((input.subrange(pos, pos + needed), pos + needed))
    }
}

/// Reads one byte at `pos`.
pub open spec fn read_byte(input: Seq<u8>, pos: int) -> Read<u8> {
    if pos < input.len() {
        Ok((input[pos], pos + 1))
    } else {
        Err(ParseError::UnexpectedEof { offset: pos as usize, needed: 1, remaining: 0 })
    }
}

/// Reads a little-endian signed 16-bit integer at `pos`.
pub open spec fn read_i16(input: Seq<u8>, pos: int) -> Read<i16> {
    match read_bytes(input, pos, 2) {
        Ok((_, end)) => Ok((le_i16(input, pos), end)),
        Err(e) => Err(e),
    }
}

/// Reads a little-endian signed 32-bit integer at `pos`.
pub open spec fn read_i32(input: Seq<u8>, pos: int) -> Read<i32> {
    match read_bytes(input, pos, 4) {
        Ok((_, end)) => Ok((le_i32(input, pos), end)),
        Err(e) => Err(e),
    }
}

/// Reads a little-endian signed 64-bit integer at `pos`.
pub open spec fn read_i64(input: Seq<u8>, pos: int) -> Read<i64> {
    match read_bytes(input, pos, 8) {
        Ok((_, end)) => Ok((le_i64(input, pos), end)),
        Err(e) => Err(e),
    }
}

/// Reads the IEEE 754 bits of a binary float at `pos`.
pub open spec fn read_binary_float(input: Seq<u8>, pos: int) -> Read<SpecFloat> {
    match read_bytes(input, pos, 8) {
        Ok((_, end)) => Ok((SpecFloat::Binary(le_u64(input, pos)), end)),
        Err(e) => Err(e),
    }
}

/// Checks a length read at `offset` against the limits.
pub open spec fn check_length(lim: MarshalLimits, offset: int, length: int) -> Result<
    int,
    ParseError,
> {
    if length < 0 {
        Err(ParseError::InvalidLength { offset: offset as usize, length: length as i64 })
    } else if length > lim.max_container_length {
        Err(
            ParseError::ResourceLimit {
                offset: offset as usize,
                what: "container length",
                limit: lim.max_container_length,
            },
        )
    } else {
        Ok(length)
    }
}

/// Reads a 32-bit length.
pub open spec fn read_length(input: Seq<u8>, lim: MarshalLimits, pos: int) -> Read<int> {
    match read_i32(input, pos) {
        Ok((length, end)) => match check_length(lim, pos, length as int) {
            Ok(n) => Ok((n, end)),
            Err(e) => Err(e),
        },
        Err(e) => Err(e),
    }
}

/// Reads a one-byte length.
pub open spec fn read_short_length(input: Seq<u8>, lim: MarshalLimits, pos: int) -> Read<int> {
    match read_byte(input, pos) {
        Ok((length, end)) => match check_length(lim, pos, length as int) {
            Ok(n) => Ok((n, end)),
            Err(e) => Err(e),
        },
        Err(e) => Err(e),
    }
}

/// Reads a 32-bit length and that many bytes.
pub open spec fn read_counted_bytes(input: Seq<u8>, lim: MarshalLimits, pos: int) -> Read<
    Seq<u8>,
> {
    match read_length(input, lim, pos) {
        Ok((n, p)) => read_bytes(input, p, n),
        Err(e) => Err(e),
    }
}

/// Reads a 32-bit length and that many bytes of UTF-8 text.
pub open spec fn read_counted_text(input: Seq<u8>, lim: MarshalLimits, pos: int) -> Read<
    Seq<char>,
> {
    match read_counted_bytes(input, lim, pos) {
        Ok((bytes, p)) => if valid_utf8(bytes) {
            Ok((decode_utf8(bytes), p))
        } else {
            Err(ParseError::InvalidUtf8 { offset: pos as usize })
        },
        Err(e) => Err(e),
    }
}

/// Every byte is below 0x80.
pub open spec fn all_ascii(bytes: Seq<u8>) -> bool {
    forall|i: int| 0 <= i < bytes.len() ==> #[trigger] bytes[i] < 0x80
}

/// Reads `length` bytes of ASCII text.
pub open spec fn read_ascii_text(input: Seq<u8>, pos: int, length: int) -> Read<Seq<char>> {
    match read_bytes(input, pos, length) {
        Ok((bytes, p)) => if all_ascii(bytes) {
            Ok((decode_utf8(bytes), p))
        } else {
            Err(ParseError::InvalidUtf8 { offset: pos as usize })
        },
        Err(e) => Err(e),
    }
}

/// Reads the one-byte-length text of a decimal float.
pub open spec fn read_decimal_float(input: Seq<u8>, lim: MarshalLimits, pos: int) -> Read<
    SpecFloat,
> {
    match read_byte(input, pos) {
        Ok((length, p)) => if length > lim.max_container_length {
            Err(
                ParseError::ResourceLimit {
                    offset: pos as usize,
                    what: "float string length",
                    limit: lim.max_container_length,
                },
            )
        } else {
            match read_bytes(input, p, length as int) {
                Ok((bytes, end)) => if !valid_utf8(bytes) {
                    Err(ParseError::InvalidUtf8 { offset: pos as usize })
                } else if !is_float_text(bytes) {
                    Err(ParseError::InvalidFloat { offset: pos as usize })
                } else {
                    Ok((SpecFloat::Decimal(decode_utf8(bytes)), end))
                },
                Err(e) => Err(e),
            }
        },
        Err(e) => Err(e),
    }
}

/// Reads `count` base-2^15 digits.
pub open spec fn read_digits(input: Seq<u8>, pos: int, count: nat) -> Read<Seq<u16>>
    decreases count,
{
    if count == 0 {
        Ok((Seq::empty(), pos))
    } else {
        match read_i16(input, pos) {
            Ok((digit, p)) => if digit < 0 {
                Err(
                    ParseError::InvalidCodeObject(
                        "marshal long digit is outside the base-2^15 range",
                    ),
                )
            } else {
                match read_digits(input, p, (count - 1) as nat) {
                    Ok((rest, end)) => Ok((seq![digit as u16] + rest, end)),
                    Err(e) => Err(e),
                }
            },
            Err(e) => Err(e),
        }
    }
}

/// Reads an arbitrary-precision integer: a signed digit count and the digits.
pub open spec fn read_long(input: Seq<u8>, lim: MarshalLimits, pos: int) -> Read<SpecValue> {
    match read_i32(input, pos) {
        Ok((raw, p)) => {
            let count = if raw < 0 {
                -(raw as int)
            } else {
                raw as int
            };
            if count > lim.max_container_length {
                Err(
                    ParseError::ResourceLimit {
                        offset: pos as usize,
                        what: "long integer digit count",
                        limit: lim.max_container_length,
                    },
                )
            } else {
                match read_digits(input, p, count as nat) {
                    Ok((digits, end)) => Ok((SpecValue::Long { negative: raw < 0, digits }, end)),
                    Err(e) => Err(e),
                }
            }
        },
        Err(e) => Err(e),
    }
}

/// Reads a reference: a table index, resolved to the value stored there.
pub open spec fn read_reference(input: Seq<u8>, pos: int, refs: SpecRefs) -> Parsed<SpecValue> {
    match read_i32(input, pos) {
        Ok((index, end)) => if index < 0 || index >= refs.len() {
            Err(
                ParseError::InvalidReference {
                    offset: pos as usize,
                    index,
                    count: refs.len() as usize,
                },
            )
        } else {
            match refs[index as int] {
                Some(v) => Ok((v, end, refs)),
                None => Err(ParseError::RecursiveReference { offset: pos as usize, index }),
            }
        },
        Err(e) => Err(e),
    }
}

/// Lifts a byte-level read into a read that leaves the table unchanged.
pub open spec fn keep_refs<T>(r: Read<T>, refs: SpecRefs) -> Parsed<T> {
    match r {
        Ok((v, p)) => Ok((v, p, refs)),
        Err(e) => Err(e),
    }
}

/// Maps the value of a successful read.
pub open spec fn map_read<T, U>(r: Read<T>, f: spec_fn(T) -> U) -> Read<U> {
    match r {
        Ok((v, p)) => Ok((f(v), p)),
        Err(e) => Err(e),
    }
}

/// Maps the value of a successful parse.
pub open spec fn map_parsed<T, U>(r: Parsed<T>, f: spec_fn(T) -> U) -> Parsed<U> {
    match r {
        Ok((v, p, refs)) => Ok((f(v), p, refs)),
        Err(e) => Err(e),
    }
}

/// The values a sequence tag builds.
pub enum SequenceKind {
    Tuple,
    List,
    PySet,
    FrozenSet,
}

/// The container value of the given kind holding `items`.
pub open spec fn sequence_value(kind: SequenceKind, items: Seq<SpecValue>) -> SpecValue {
    match kind {
        SequenceKind::Tuple => SpecValue::Tuple(items),
        SequenceKind::List => SpecValue::List(items),
        SequenceKind::PySet => SpecValue::PySet(items),
        SequenceKind::FrozenSet => SpecValue::FrozenSet(items),
    }
}

/// The content of a code-object field that must be a bytes value.
pub open spec fn expect_bytes(v: SpecValue, field: &'static str) -> Result<Seq<u8>, ParseError> {
    match v {
        SpecValue::Bytes(b) => Ok(b),
        _ => Err(ParseError::InvalidCodeField { field, expected: "bytes" }),
    }
}

/// The content of a code-object field that must be a string.
pub open spec fn expect_string(v: SpecValue, field: &'static str) -> Result<
    Seq<char>,
    ParseError,
> {
    match v {
        SpecValue::String(s) => Ok(s),
        _ => Err(ParseError::InvalidCodeField { field, expected: "string" }),
    }
}

/// The items of a code-object field that must be a tuple.
pub open spec fn expect_tuple(v: SpecValue, field: &'static str) -> Result<
    Seq<SpecValue>,
    ParseError,
> {
    match v {
        SpecValue::Tuple(items) => Ok(items),
        _ => Err(ParseError::InvalidCodeField { field, expected: "tuple" }),
    }
}

/// The first item of `items` that is not a string, if any.
pub open spec fn all_strings(items: Seq<SpecValue>) -> bool {
    forall|i: int| 0 <= i < items.len() ==> #[trigger] items[i] is String
}

/// The text of every item of a tuple whose items are all strings.
pub open spec fn texts(items: Seq<SpecValue>) -> Seq<Seq<char>> {
    Seq::new(items.len(), |i: int| items[i]->String_0)
}

/// The texts of a code-object field that must be a tuple of strings.
pub open spec fn expect_string_tuple(v: SpecValue, field: &'static str) -> Result<
    Seq<Seq<char>>,
    ParseError,
> {
    match expect_tuple(v, field) {
        Ok(items) => if all_strings(items) {
            Ok(texts(items))
        } else {
            Err(ParseError::InvalidCodeField { field, expected: "string" })
        },
        Err(e) => Err(e),
    }
}

/// Reads a non-negative 32-bit code-object field.
pub open spec fn read_code_u32(input: Seq<u8>, pos: int, field: &'static str) -> Read<u32> {
    match read_i32(input, pos) {
        Ok((v, p)) => if v < 0 {
            Err(ParseError::InvalidCodeObject(field))
        } else {
            Ok((v as u32, p))
        },
        Err(e) => Err(e),
    }
}

/// The measure that bounds the recursion of the readers below: nesting depth
/// first, then which reader, then the items left to read.
pub open spec fn measure_depth(lim: MarshalLimits, depth: int) -> int {
    lim.max_depth + 1 - depth
}

/// Reads one value at `pos`, `depth` containers deep.
pub open spec fn read_object(
    input: Seq<u8>,
    lim: MarshalLimits,
    pos: int,
    refs: SpecRefs,
    depth: int,
) -> Parsed<SpecValue>
    decreases measure_depth(lim, depth), 0int, 0int,
{
    if depth > lim.max_depth {
        Err(
            ParseError::ResourceLimit {
                offset: pos as usize,
                what: "nesting depth",
                limit: lim.max_depth,
            },
        )
    } else {
        match read_byte(input, pos) {
            Ok((raw, p)) => {
                let has_reference = raw >= FLAG_REF;
                let tag = (raw % 0x80) as u8;
                if tag == TYPE_REF {
                    if has_reference {
                        Err(ParseError::UnsupportedMarshalType { offset: pos as usize, tag: raw })
                    } else {
                        read_reference(input, p, refs)
                    }
                } else if tag == TYPE_NULL {
                    Err(ParseError::UnsupportedMarshalType { offset: pos as usize, tag: raw })
                } else if has_reference {
                    let index = refs.len() as int;
                    match read_body(input, lim, tag, p, refs.push(None), depth + 1) {
                        Ok((v, end, refs2)) => Ok((v, end, refs2.update(index, Some(v)))),
                        Err(e) => Err(e),
                    }
                } else {
                    read_body(input, lim, tag, p, refs, depth + 1)
                }
            },
            Err(e) => Err(e),
        }
    }
}

/// Reads the body of a value whose tag (without `FLAG_REF`) was read just before `pos`.
pub open spec fn read_body(
    input: Seq<u8>,
    lim: MarshalLimits,
    tag: u8,
    pos: int,
    refs: SpecRefs,
    depth: int,
) -> Parsed<SpecValue>
    decreases measure_depth(lim, depth), 3int, 0int,
{
    if tag == TYPE_NONE {
        Ok((SpecValue::PyNone, pos, refs))
    } else if tag == TYPE_FALSE {
        Ok((SpecValue::Bool(false), pos, refs))
    } else if tag == TYPE_TRUE {
        Ok((SpecValue::Bool(true), pos, refs))
    } else if tag == TYPE_STOP_ITERATOR {
        Ok((SpecValue::StopIteration, pos, refs))
    } else if tag == TYPE_ELLIPSIS {
        Ok((SpecValue::Ellipsis, pos, refs))
    } else if tag == TYPE_INT {
        keep_refs(map_read(read_i32(input, pos), |v: i32| SpecValue::Int(v as i64)), refs)
    } else if tag == TYPE_INT64 {
        keep_refs(map_read(read_i64(input, pos), |v: i64| SpecValue::Int(v)), refs)
    } else if tag == TYPE_LONG {
        keep_refs(read_long(input, lim, pos), refs)
    } else if tag == TYPE_FLOAT {
        keep_refs(
            map_read(read_decimal_float(input, lim, pos), |f: SpecFloat| SpecValue::Float(f)),
            refs,
        )
    } else if tag == TYPE_BINARY_FLOAT {
        keep_refs(
            map_read(read_binary_float(input, pos), |f: SpecFloat| SpecValue::Float(f)),
            refs,
        )
    } else if tag == TYPE_COMPLEX {
        match read_decimal_float(input, lim, pos) {
            Ok((re, p)) => match read_decimal_float(input, lim, p) {
                Ok((im, end)) => Ok((SpecValue::Complex { real: re, imaginary: im }, end, refs)),
                Err(e) => Err(e),
            },
            Err(e) => Err(e),
        }
    } else if tag == TYPE_BINARY_COMPLEX {
        match read_binary_float(input, pos) {
            Ok((re, p)) => match read_binary_float(input, p) {
                Ok((im, end)) => Ok((SpecValue::Complex { real: re, imaginary: im }, end, refs)),
                Err(e) => Err(e),
            },
            Err(e) => Err(e),
        }
    } else if tag == TYPE_STRING {
        keep_refs(
            map_read(read_counted_bytes(input, lim, pos), |b: Seq<u8>| SpecValue::Bytes(b)),
            refs,
        )
    } else if tag == TYPE_INTERNED || tag == TYPE_UNICODE {
        keep_refs(
            map_read(read_counted_text(input, lim, pos), |s: Seq<char>| SpecValue::String(s)),
            refs,
        )
    } else if tag == TYPE_ASCII || tag == TYPE_ASCII_INTERNED {
        match read_length(input, lim, pos) {
            Ok((n, p)) => keep_refs(
                map_read(read_ascii_text(input, p, n), |s: Seq<char>| SpecValue::String(s)),
                refs,
            ),
            Err(e) => Err(e),
        }
    } else if tag == TYPE_SHORT_ASCII || tag == TYPE_SHORT_ASCII_INTERNED {
        match read_short_length(input, lim, pos) {
            Ok((n, p)) => keep_refs(
                map_read(read_ascii_text(input, p, n), |s: Seq<char>| SpecValue::String(s)),
                refs,
            ),
            Err(e) => Err(e),
        }
    } else if tag == TYPE_TUPLE || tag == TYPE_LIST || tag == TYPE_SET || tag == TYPE_FROZENSET
        || tag == TYPE_SMALL_TUPLE {
        let kind = if tag == TYPE_LIST {
            SequenceKind::List
        } else if tag == TYPE_SET {
            SequenceKind::PySet
        } else if tag == TYPE_FROZENSET {
            SequenceKind::FrozenSet
        } else {
            SequenceKind::Tuple
        };
        let length = if tag == TYPE_SMALL_TUPLE {
            read_short_length(input, lim, pos)
        } else {
            read_length(input, lim, pos)
        };
        match length {
            Ok((n, p)) => map_parsed(
                read_items(input, lim, p, refs, depth, n as nat),
                |items: Seq<SpecValue>| sequence_value(kind, items),
            ),
            Err(e) => Err(e),
        }
    } else if tag == TYPE_DICT {
        map_parsed(
            read_entries(input, lim, pos, refs, depth, 0),
            |entries: Seq<(SpecValue, SpecValue)>| SpecValue::Dict(entries),
        )
    } else if tag == TYPE_CODE {
        map_parsed(read_code(input, lim, pos, refs, depth), |c: SpecCode| SpecValue::Code(c))
    } else {
        Err(ParseError::UnsupportedMarshalType { offset: (pos - 1) as usize, tag })
    }
}

/// Reads `count` values one after the other.
pub open spec fn read_items(
    input: Seq<u8>,
    lim: MarshalLimits,
    pos: int,
    refs: SpecRefs,
    depth: int,
    count: nat,
) -> Parsed<Seq<SpecValue>>
    decreases measure_depth(lim, depth), 2int, count,
{
    if count == 0 {
        Ok((Seq::empty(), pos, refs))
    } else {
        match read_object(input, lim, pos, refs, depth) {
            Ok((v, p, r)) => match read_items(input, lim, p, r, depth, (count - 1) as nat) {
                Ok((rest, end, r2)) => Ok((seq![v] + rest, end, r2)),
                Err(e) => Err(e),
            },
            Err(e) => Err(e),
        }
    }
}

/// Reads key/value pairs until the `TYPE_NULL` byte that closes a dictionary;
/// `count` pairs have been read already.
pub open spec fn read_entries(
    input: Seq<u8>,
    lim: MarshalLimits,
    pos: int,
    refs: SpecRefs,
    depth: int,
    count: int,
) -> Parsed<Seq<(SpecValue, SpecValue)>>
    decreases measure_depth(lim, depth), 2int, lim.max_container_length - count,
{
    if 0 <= pos < input.len() && input[pos] == TYPE_NULL {
        Ok((Seq::empty(), pos + 1, refs))
    } else if count >= lim.max_container_length {
        Err(
            ParseError::ResourceLimit {
                offset: pos as usize,
                what: "dictionary length",
                limit: lim.max_container_length,
            },
        )
    } else {
        match read_object(input, lim, pos, refs, depth) {
            Ok((key, p1, r1)) => match read_object(input, lim, p1, r1, depth) {
                Ok((value, p2, r2)) => match read_entries(input, lim, p2, r2, depth, count + 1) {
                    Ok((rest, end, r3)) => Ok((seq![(key, value)] + rest, end, r3)),
                    Err(e) => Err(e),
                },
                Err(e) => Err(e),
            },
            Err(e) => Err(e),
        }
    }
}

/// Reads the fields of a code object.
pub open spec fn read_code(
    input: Seq<u8>,
    lim: MarshalLimits,
    pos: int,
    refs: SpecRefs,
    depth: int,
) -> Parsed<SpecCode>
    decreases measure_depth(lim, depth), 2int, 0int,
{
    match read_code_header(input, pos) {
        Err(e) => Err(e),
        Ok((counts, p0)) => match read_object(input, lim, p0, refs, depth) {
            Err(e) => Err(e),
            Ok((v1, p1, r1)) => match expect_bytes(v1, "bytecode") {
                Err(e) => Err(e),
                Ok(bytecode) => match read_object(input, lim, p1, r1, depth) {
                    Err(e) => Err(e),
                    Ok((v2, p2, r2)) => match expect_tuple(v2, "constants") {
                        Err(e) => Err(e),
                        Ok(constants) => match read_object(input, lim, p2, r2, depth) {
                            Err(e) => Err(e),
                            Ok((v3, p3, r3)) => match expect_string_tuple(v3, "names") {
                                Err(e) => Err(e),
                                Ok(names) => read_code_tail(
                                    input,
                                    lim,
                                    p3,
                                    r3,
                                    depth,
                                    counts,
                                    bytecode,
                                    constants,
                                    names,
                                ),
                            },
                        },
                    },
                },
            },
        },
    }
}

/// The five counts at the start of a code object.
pub open spec fn read_code_header(input: Seq<u8>, pos: int) -> Read<(u32, u32, u32, u32, u32)> {
    match read_code_u32(input, pos, "arg_count") {
        Err(e) => Err(e),
        Ok((a, p1)) => match read_code_u32(input, p1, "positional_only_arg_count") {
            Err(e) => Err(e),
            Ok((b, p2)) => match read_code_u32(input, p2, "keyword_only_arg_count") {
                Err(e) => Err(e),
                Ok((c, p3)) => match read_code_u32(input, p3, "stack_size") {
                    Err(e) => Err(e),
                    Ok((d, p4)) => match read_code_u32(input, p4, "flags") {
                        Err(e) => Err(e),
                        Ok((f, p5)) => Ok(((a, b, c, d, f), p5)),
                    },
                },
            },
        },
    }
}

/// Reads the fields of a code object after its names.
pub open spec fn read_code_tail(
    input: Seq<u8>,
    lim: MarshalLimits,
    pos: int,
    refs: SpecRefs,
    depth: int,
    counts: (u32, u32, u32, u32, u32),
    bytecode: Seq<u8>,
    constants: Seq<SpecValue>,
    names: Seq<Seq<char>>,
) -> Parsed<SpecCode>
    decreases measure_depth(lim, depth), 1int, 0int,
{
    match read_object(input, lim, pos, refs, depth) {
        Err(e) => Err(e),
        Ok((v4, p4, r4)) => match expect_string_tuple(v4, "localsplus_names") {
            Err(e) => Err(e),
            Ok(localsplus_names) => match read_object(input, lim, p4, r4, depth) {
                Err(e) => Err(e),
                Ok((v5, p5, r5)) => match expect_bytes(v5, "localsplus_kinds") {
                    Err(e) => Err(e),
                    Ok(localsplus_kinds) => match read_object(input, lim, p5, r5, depth) {
                        Err(e) => Err(e),
                        Ok((v6, p6, r6)) => match expect_string(v6, "filename") {
                            Err(e) => Err(e),
                            Ok(filename) => match read_object(input, lim, p6, r6, depth) {
                                Err(e) => Err(e),
                                Ok((v7, p7, r7)) => match expect_string(v7, "name") {
                                    Err(e) => Err(e),
                                    Ok(name) => match read_object(input, lim, p7, r7, depth) {
                                        Err(e) => Err(e),
                                        Ok((v8, p8, r8)) => match expect_string(
                                            v8,
                                            "qualified_name",
                                        ) {
                                            Err(e) => Err(e),
                                            Ok(qualified_name) => match read_code_u32(
                                                input,
                                                p8,
                                                "first_line_number",
                                            ) {
                                                Err(e) => Err(e),
                                                Ok((first_line_number, p9)) => match read_object(
                                                    input,
                                                    lim,
                                                    p9,
                                                    r8,
                                                    depth,
                                                ) {
                                                    Err(e) => Err(e),
                                                    Ok((v10, p10, r10)) => match expect_bytes(
                                                        v10,
                                                        "line_table",
                                                    ) {
                                                        Err(e) => Err(e),
                                                        Ok(line_table) => match read_object(
                                                            input,
                                                            lim,
                                                            p10,
                                                            r10,
                                                            depth,
                                                        ) {
                                                            Err(e) => Err(e),
                                                            Ok((v11, p11, r11)) => match expect_bytes(
                                                                v11,
                                                                "exception_table",
                                                            ) {
                                                                Err(e) => Err(e),
                                                                Ok(exception_table) => if localsplus_names.len()
                                                                    != localsplus_kinds.len() {
                                                                    Err(
                                                                        ParseError::InvalidCodeObject(
                                                                            "localsplus_names and localsplus_kinds have different lengths",
                                                                        ),
                                                                    )
                                                                } else {
                                                                    Ok(
                                                                        (
                                                                            SpecCode {
                                                                                arg_count: counts.0,
                                                                                positional_only_arg_count: counts.1,
                                                                                keyword_only_arg_count: counts.2,
                                                                                stack_size: counts.3,
                                                                                flags: counts.4,
                                                                                bytecode,
                                                                                constants,
                                                                                names,
                                                                                localsplus_names,
                                                                                localsplus_kinds,
                                                                                filename,
                                                                                name,
                                                                                qualified_name,
                                                                                first_line_number,
                                                                                line_table,
                                                                                exception_table,
                                                                            },
                                                                            p11,
                                                                            r11,
                                                                        ),
                                                                    )
                                                                },
                                                            },
                                                        },
                                                    },
                                                },
                                            },
                                        },
                                    },
                                },
                            },
                        },
                    },
                },
            },
        },
    }
}

/// The value a whole marshal stream holds, under the given limits.
pub open spec fn spec_parse_marshal(input: Seq<u8>, lim: MarshalLimits) -> Result<
    SpecValue,
    ParseError,
> {
    if input.len() > lim.max_input_bytes {
        Err(
            ParseError::ResourceLimit {
                offset: 0,
                what: "input size",
                limit: lim.max_input_bytes,
            },
        )
    } else {
        match read_object(input, lim, 0, Seq::empty(), 0) {
            Ok((v, end, _)) => if end != input.len() {
                Err(
                    ParseError::TrailingBytes {
                        offset: end as usize,
                        remaining: (input.len() - end) as usize,
                    },
                )
            } else {
                Ok(v)
            },
            Err(e) => Err(e),
        }
    }
}

} // verus!

verus! {

/// `T` reads as True, `F` as False and `N` as None, wherever they stand: the
/// read takes the one tag byte, and the table gains the value only when the
/// tag carries `FLAG_REF`. A stream that is just such a byte holds that value.
pub proof fn lemma_singleton_tags(
    input: Seq<u8>,
    lim: MarshalLimits,
    pos: int,
    refs: SpecRefs,
    depth: int,
)
    requires
        depth <= lim.max_depth,
        0 <= pos < input.len(),
        input[pos] % 0x80 == TYPE_TRUE || input[pos] % 0x80 == TYPE_FALSE || input[pos] % 0x80
            == TYPE_NONE,
    ensures
        ({
            let tag = (input[pos] % 0x80) as u8;
            let v = if tag == TYPE_TRUE {
                SpecValue::Bool(true)
            } else if tag == TYPE_FALSE {
                SpecValue::Bool(false)
            } else {
                SpecValue::PyNone
            };
            &&& read_object(input, lim, pos, refs, depth) == Ok::<(SpecValue, int, SpecRefs), ParseError>(
                (
                    v,
                    pos + 1,
                    if input[pos] >= FLAG_REF {
                        refs.push(Some(v))
                    } else {
                        refs
                    },
                ),
            )
            &&& (input.len() == 1 && lim.max_input_bytes >= 1) ==> spec_parse_marshal(input, lim)
                == Ok::<SpecValue, ParseError>(v)
        }),
{
    if input[pos] >= FLAG_REF {
        assert(refs.push(None).update(refs.len() as int, Some(
            if (input[pos] % 0x80) as u8 == TYPE_TRUE {
                SpecValue::Bool(true)
            } else if (input[pos] % 0x80) as u8 == TYPE_FALSE {
                SpecValue::Bool(false)
            } else {
                SpecValue::PyNone
            },
        )) =~= refs.push(Some(
            if (input[pos] % 0x80) as u8 == TYPE_TRUE {
                SpecValue::Bool(true)
            } else if (input[pos] % 0x80) as u8 == TYPE_FALSE {
                SpecValue::Bool(false)
            } else {
                SpecValue::PyNone
            },
        )));
    }
    if input.len() == 1 && lim.max_input_bytes >= 1 {
        assert(pos == 0);
    }
}

} // verus!
