//! What `FLAG_REF` on a tag does to decoding: it enters the value in the
//! reference table and changes nothing else about a stream that holds no
//! reference objects.
//!
//! The proof relates two readings of the grammar: one of an input with one
//! table, one of an input that agrees with it from some position on, with
//! another table. Where no `TYPE_REF` object is read, both give the same
//! value, end and error, and their tables gain the same slots.
use crate::code::SpecCode;
use crate::error::ParseError;
use crate::marshal::SpecValue;
use crate::marshal_format::{
    expect_bytes, expect_string, expect_string_tuple, expect_tuple, measure_depth,
    read_ascii_text, read_binary_float, read_body, read_byte, read_bytes, read_code,
    read_code_header, read_code_tail, read_code_u32, read_counted_bytes, read_counted_text,
    read_decimal_float, read_digits, read_entries, read_i16, read_i32, read_i64, read_items,
    read_length, read_long, read_object, read_short_length, spec_parse_marshal, MarshalLimits,
    Parsed, Read, SpecRefs, FLAG_REF, TYPE_CODE, TYPE_DICT, TYPE_FROZENSET, TYPE_LIST, TYPE_NULL,
    TYPE_REF, TYPE_SET, TYPE_SMALL_TUPLE, TYPE_TUPLE,
};
use vstd::prelude::*;

verus! {

/// Two inputs of one length that hold the same bytes from `from` on.
spec fn agree_from(a: Seq<u8>, b: Seq<u8>, from: int) -> bool {
    &&& a.len() == b.len()
    &&& forall|i: int| from <= i < a.len() ==> #[trigger] a[i] == b[i]
}

/// A byte-level read that succeeds ends at or after `pos`.
spec fn read_ends_after<T>(r: Read<T>, pos: int) -> bool {
    match r {
        Ok((_, end)) => end >= pos,
        Err(_) => true,
    }
}

/// Reading `n >= 0` bytes, or `n` bytes of ASCII text, from `pos` gives the
/// same answer on two inputs that agree from `from <= pos` on.
proof fn lemma_bytes_frame(a: Seq<u8>, b: Seq<u8>, from: int, pos: int, n: int)
    requires
        agree_from(a, b, from),
        0 <= from <= pos,
        n >= 0,
    ensures
        read_bytes(a, pos, n) == read_bytes(b, pos, n),
        read_ascii_text(a, pos, n) == read_ascii_text(b, pos, n),
        read_ends_after(read_bytes(a, pos, n), pos),
{
    if a.len() - pos >= n {
        assert(a.subrange(pos, pos + n) =~= b.subrange(pos, pos + n));
    }
}

/// The fixed-width readers at `pos` agree on two inputs that agree from
/// `from <= pos` on.
proof fn lemma_fixed_frame(a: Seq<u8>, b: Seq<u8>, from: int, pos: int)
    requires
        agree_from(a, b, from),
        0 <= from <= pos,
    ensures
        read_byte(a, pos) == read_byte(b, pos),
        read_i16(a, pos) == read_i16(b, pos),
        read_i32(a, pos) == read_i32(b, pos),
        read_i64(a, pos) == read_i64(b, pos),
        read_binary_float(a, pos) == read_binary_float(b, pos),
        read_ends_after(read_byte(a, pos), pos),
        read_ends_after(read_i16(a, pos), pos),
        read_ends_after(read_i32(a, pos), pos),
        read_ends_after(read_i64(a, pos), pos),
        read_ends_after(read_binary_float(a, pos), pos),
{
    lemma_bytes_frame(a, b, from, pos, 2);
    lemma_bytes_frame(a, b, from, pos, 4);
    lemma_bytes_frame(a, b, from, pos, 8);
    if pos + 8 <= a.len() {
        assert(a[pos + 4] == b[pos + 4] && a[pos + 5] == b[pos + 5]);
        assert(a[pos + 6] == b[pos + 6] && a[pos + 7] == b[pos + 7]);
    }
    if pos + 4 <= a.len() {
        assert(a[pos] == b[pos] && a[pos + 1] == b[pos + 1]);
        assert(a[pos + 2] == b[pos + 2] && a[pos + 3] == b[pos + 3]);
    }
    if pos + 2 <= a.len() {
        assert(a[pos] == b[pos] && a[pos + 1] == b[pos + 1]);
    }
    if pos < a.len() {
        assert(a[pos] == b[pos]);
    }
}

/// Reading base-2^15 digits agrees on two inputs that agree from `from <= pos` on.
proof fn lemma_digits_frame(a: Seq<u8>, b: Seq<u8>, from: int, pos: int, count: nat)
    requires
        agree_from(a, b, from),
        0 <= from <= pos,
    ensures
        read_digits(a, pos, count) == read_digits(b, pos, count),
        read_ends_after(read_digits(a, pos, count), pos),
    decreases count,
{
    if count > 0 {
        lemma_fixed_frame(a, b, from, pos);
        if let Ok((_, p)) = read_i16(a, pos) {
            lemma_digits_frame(a, b, from, p, (count - 1) as nat);
        }
    }
}

/// Reading a long integer agrees on two inputs that agree from `from <= pos` on.
proof fn lemma_long_frame(a: Seq<u8>, b: Seq<u8>, from: int, lim: MarshalLimits, pos: int)
    requires
        agree_from(a, b, from),
        0 <= from <= pos,
    ensures
        read_long(a, lim, pos) == read_long(b, lim, pos),
        read_ends_after(read_long(a, lim, pos), pos),
{
    lemma_fixed_frame(a, b, from, pos);
    if let Ok((raw, p)) = read_i32(a, pos) {
        let count = if raw < 0 {
            -(raw as int)
        } else {
            raw as int
        };
        lemma_digits_frame(a, b, from, p, count as nat);
    }
}

/// Reading a decimal float agrees on two inputs that agree from `from <= pos` on.
proof fn lemma_decimal_frame(a: Seq<u8>, b: Seq<u8>, from: int, lim: MarshalLimits, pos: int)
    requires
        agree_from(a, b, from),
        0 <= from <= pos,
    ensures
        read_decimal_float(a, lim, pos) == read_decimal_float(b, lim, pos),
        read_ends_after(read_decimal_float(a, lim, pos), pos),
{
    lemma_fixed_frame(a, b, from, pos);
    if pos < a.len() {
        lemma_bytes_frame(a, b, from, pos + 1, a[pos] as int);
    }
}

/// Reading a 32-bit length and what it counts agrees on two inputs that
/// agree from `from <= pos` on.
proof fn lemma_counted_frame(a: Seq<u8>, b: Seq<u8>, from: int, lim: MarshalLimits, pos: int)
    requires
        agree_from(a, b, from),
        0 <= from <= pos,
    ensures
        read_length(a, lim, pos) == read_length(b, lim, pos),
        read_counted_bytes(a, lim, pos) == read_counted_bytes(b, lim, pos),
        read_counted_text(a, lim, pos) == read_counted_text(b, lim, pos),
        read_ends_after(read_length(a, lim, pos), pos),
        read_ends_after(read_counted_bytes(a, lim, pos), pos),
        read_ends_after(read_counted_text(a, lim, pos), pos),
        match read_length(a, lim, pos) {
            Ok((n, p)) => read_ascii_text(a, p, n) == read_ascii_text(b, p, n) && read_ends_after(
                read_ascii_text(a, p, n),
                pos,
            ),
            Err(_) => true,
        },
{
    lemma_fixed_frame(a, b, from, pos);
    if let Ok((n, p)) = read_length(a, lim, pos) {
        lemma_bytes_frame(a, b, from, p, n);
    }
}

/// Reading a one-byte length and the ASCII text it counts agrees on two
/// inputs that agree from `from <= pos` on.
proof fn lemma_short_frame(a: Seq<u8>, b: Seq<u8>, from: int, lim: MarshalLimits, pos: int)
    requires
        agree_from(a, b, from),
        0 <= from <= pos,
    ensures
        read_short_length(a, lim, pos) == read_short_length(b, lim, pos),
        read_ends_after(read_short_length(a, lim, pos), pos),
        match read_short_length(a, lim, pos) {
            Ok((n, p)) => read_ascii_text(a, p, n) == read_ascii_text(b, p, n) && read_ends_after(
                read_ascii_text(a, p, n),
                pos,
            ),
            Err(_) => true,
        },
{
    lemma_fixed_frame(a, b, from, pos);
    if let Ok((n, p)) = read_short_length(a, lim, pos) {
        lemma_bytes_frame(a, b, from, p, n);
    }
}

/// Reading the counts of a code object agrees on two inputs that agree from
/// `from <= pos` on.
proof fn lemma_header_frame(a: Seq<u8>, b: Seq<u8>, from: int, pos: int)
    requires
        agree_from(a, b, from),
        0 <= from <= pos,
    ensures
        read_code_header(a, pos) == read_code_header(b, pos),
        read_ends_after(read_code_header(a, pos), pos),
{
    lemma_fixed_frame(a, b, from, pos);
    lemma_fixed_frame(a, b, from, pos + 4);
    lemma_fixed_frame(a, b, from, pos + 8);
    lemma_fixed_frame(a, b, from, pos + 12);
    lemma_fixed_frame(a, b, from, pos + 16);
}

/// The first table only gained slots, and the second gained the same slots
/// after its own.
#[verifier::opaque]
spec fn gains_same(ra: SpecRefs, rb: SpecRefs, out_a: SpecRefs, out_b: SpecRefs) -> bool {
    &&& out_a.len() >= ra.len()
    &&& out_a.take(ra.len() as int) == ra
    &&& out_b == rb + out_a.skip(ra.len() as int)
}

/// Two readings agree: the same value and end, and tables that gained the
/// same slots; or the same error.
spec fn same_reading<T>(a: Parsed<T>, b: Parsed<T>, ra: SpecRefs, rb: SpecRefs) -> bool {
    match (a, b) {
        (Ok((va, pa, out_a)), Ok((vb, pb, out_b))) => va == vb && pa == pb && gains_same(
            ra,
            rb,
            out_a,
            out_b,
        ),
        (Err(ea), Err(eb)) => ea == eb,
        _ => false,
    }
}

/// A reading that succeeds ends at or after `pos`.
spec fn ends_after<T>(r: Parsed<T>, pos: int) -> bool {
    match r {
        Ok((_, end, _)) => end >= pos,
        Err(_) => true,
    }
}

/// Reading the value at `pos` reads no `TYPE_REF` object.
pub open spec fn no_reference_object(
    input: Seq<u8>,
    lim: MarshalLimits,
    pos: int,
    refs: SpecRefs,
    depth: int,
) -> bool
    decreases measure_depth(lim, depth), 0int, 0int,
{
    if depth > lim.max_depth {
        true
    } else {
        match read_byte(input, pos) {
            Ok((raw, p)) => {
                let tag = (raw % 0x80) as u8;
                if tag == TYPE_REF {
                    false
                } else if tag == TYPE_NULL {
                    true
                } else if raw >= FLAG_REF {
                    no_reference_body(input, lim, tag, p, refs.push(None), depth + 1)
                } else {
                    no_reference_body(input, lim, tag, p, refs, depth + 1)
                }
            },
            Err(_) => true,
        }
    }
}

/// Reading the body of a value with tag `tag` reads no `TYPE_REF` object.
pub open spec fn no_reference_body(
    input: Seq<u8>,
    lim: MarshalLimits,
    tag: u8,
    pos: int,
    refs: SpecRefs,
    depth: int,
) -> bool
    decreases measure_depth(lim, depth), 3int, 0int,
{
    if tag == TYPE_TUPLE || tag == TYPE_LIST || tag == TYPE_SET || tag == TYPE_FROZENSET || tag
        == TYPE_SMALL_TUPLE {
        let length = if tag == TYPE_SMALL_TUPLE {
            read_short_length(input, lim, pos)
        } else {
            read_length(input, lim, pos)
        };
        match length {
            Ok((n, p)) => no_reference_items(input, lim, p, refs, depth, n as nat),
            Err(_) => true,
        }
    } else if tag == TYPE_DICT {
        no_reference_entries(input, lim, pos, refs, depth, 0)
    } else if tag == TYPE_CODE {
        no_reference_code(input, lim, pos, refs, depth)
    } else {
        true
    }
}

/// Reading `count` values from `pos` reads no `TYPE_REF` object.
pub open spec fn no_reference_items(
    input: Seq<u8>,
    lim: MarshalLimits,
    pos: int,
    refs: SpecRefs,
    depth: int,
    count: nat,
) -> bool
    decreases measure_depth(lim, depth), 2int, count,
{
    if count == 0 {
        true
    } else {
        no_reference_object(input, lim, pos, refs, depth) && match read_object(
            input,
            lim,
            pos,
            refs,
            depth,
        ) {
            Ok((_, p, r)) => no_reference_items(input, lim, p, r, depth, (count - 1) as nat),
            Err(_) => true,
        }
    }
}

/// Reading dictionary entries from `pos` reads no `TYPE_REF` object.
pub open spec fn no_reference_entries(
    input: Seq<u8>,
    lim: MarshalLimits,
    pos: int,
    refs: SpecRefs,
    depth: int,
    count: int,
) -> bool
    decreases measure_depth(lim, depth), 2int, lim.max_container_length - count,
{
    if 0 <= pos < input.len() && input[pos] == TYPE_NULL {
        true
    } else if count >= lim.max_container_length {
        true
    } else {
        no_reference_object(input, lim, pos, refs, depth) && match read_object(
            input,
            lim,
            pos,
            refs,
            depth,
        ) {
            Ok((_, p1, r1)) => no_reference_object(input, lim, p1, r1, depth) && match read_object(
                input,
                lim,
                p1,
                r1,
                depth,
            ) {
                Ok((_, p2, r2)) => no_reference_entries(input, lim, p2, r2, depth, count + 1),
                Err(_) => true,
            },
            Err(_) => true,
        }
    }
}

/// Reading a code object from `pos` reads no `TYPE_REF` object.
pub open spec fn no_reference_code(
    input: Seq<u8>,
    lim: MarshalLimits,
    pos: int,
    refs: SpecRefs,
    depth: int,
) -> bool
    decreases measure_depth(lim, depth), 2int, 0int,
{
    match read_code_header(input, pos) {
        Err(_) => true,
        Ok((_, p0)) => no_reference_object(input, lim, p0, refs, depth) && match read_object(
            input,
            lim,
            p0,
            refs,
            depth,
        ) {
            Err(_) => true,
            Ok((v1, p1, r1)) => expect_bytes(v1, "bytecode") is Ok ==> (no_reference_object(
                input,
                lim,
                p1,
                r1,
                depth,
            ) && match read_object(input, lim, p1, r1, depth) {
                Err(_) => true,
                Ok((v2, p2, r2)) => expect_tuple(v2, "constants") is Ok ==> (no_reference_object(
                    input,
                    lim,
                    p2,
                    r2,
                    depth,
                ) && match read_object(input, lim, p2, r2, depth) {
                    Err(_) => true,
                    Ok((v3, p3, r3)) => expect_string_tuple(v3, "names") is Ok
                        ==> no_reference_code_tail(input, lim, p3, r3, depth),
                }),
            }),
        },
    }
}

/// Reading the fields of a code object after its names, from `pos`, reads no
/// `TYPE_REF` object.
pub open spec fn no_reference_code_tail(
    input: Seq<u8>,
    lim: MarshalLimits,
    pos: int,
    refs: SpecRefs,
    depth: int,
) -> bool
    decreases measure_depth(lim, depth), 1int, 2int,
{
    no_reference_object(input, lim, pos, refs, depth) && match read_object(
        input,
        lim,
        pos,
        refs,
        depth,
    ) {
        Err(_) => true,
        Ok((v4, p4, r4)) => expect_string_tuple(v4, "localsplus_names") is Ok ==> (
        no_reference_object(input, lim, p4, r4, depth) && match read_object(
            input,
            lim,
            p4,
            r4,
            depth,
        ) {
            Err(_) => true,
            Ok((v5, p5, r5)) => expect_bytes(v5, "localsplus_kinds") is Ok
                ==> no_reference_from_filename(input, lim, p5, r5, depth),
        }),
    }
}

/// Reading the fields of a code object from its file name on, from `pos`,
/// reads no `TYPE_REF` object.
pub open spec fn no_reference_from_filename(
    input: Seq<u8>,
    lim: MarshalLimits,
    pos: int,
    refs: SpecRefs,
    depth: int,
) -> bool
    decreases measure_depth(lim, depth), 1int, 1int,
{
    no_reference_object(input, lim, pos, refs, depth) && match read_object(
        input,
        lim,
        pos,
        refs,
        depth,
    ) {
        Err(_) => true,
        Ok((v6, p6, r6)) => expect_string(v6, "filename") is Ok ==> (no_reference_object(
            input,
            lim,
            p6,
            r6,
            depth,
        ) && match read_object(input, lim, p6, r6, depth) {
            Err(_) => true,
            Ok((v7, p7, r7)) => expect_string(v7, "name") is Ok ==> (no_reference_object(
                input,
                lim,
                p7,
                r7,
                depth,
            ) && match read_object(input, lim, p7, r7, depth) {
                Err(_) => true,
                Ok((v8, p8, r8)) => expect_string(v8, "qualified_name") is Ok
                    ==> no_reference_from_first_line(input, lim, p8, r8, depth),
            }),
        }),
    }
}

/// Reading the fields of a code object from its first line number on, from
/// `pos`, reads no `TYPE_REF` object.
pub open spec fn no_reference_from_first_line(
    input: Seq<u8>,
    lim: MarshalLimits,
    pos: int,
    refs: SpecRefs,
    depth: int,
) -> bool
    decreases measure_depth(lim, depth), 1int, 0int,
{
    match read_i32(input, pos) {
        Err(_) => true,
        Ok((first_line, p9)) => first_line >= 0 ==> (no_reference_object(
            input,
            lim,
            p9,
            refs,
            depth,
        ) && match read_object(input, lim, p9, refs, depth) {
            Err(_) => true,
            Ok((v10, p10, r10)) => expect_bytes(v10, "line_table") is Ok ==> no_reference_object(
                input,
                lim,
                p10,
                r10,
                depth,
            ),
        }),
    }
}

/// The fields of a code object from its file name on, read at `pos`: what
/// `read_code_tail` reads after the local names and kinds.
spec fn code_from_filename(
    input: Seq<u8>,
    lim: MarshalLimits,
    pos: int,
    refs: SpecRefs,
    depth: int,
    counts: (u32, u32, u32, u32, u32),
    bytecode: Seq<u8>,
    constants: Seq<SpecValue>,
    names: Seq<Seq<char>>,
    localsplus_names: Seq<Seq<char>>,
    localsplus_kinds: Seq<u8>,
) -> Parsed<SpecCode> {
    match read_object(input, lim, pos, refs, depth) {
        Err(e) => Err(e),
        Ok((v6, p6, r6)) => match expect_string(v6, "filename") {
            Err(e) => Err(e),
            Ok(filename) => match read_object(input, lim, p6, r6, depth) {
                Err(e) => Err(e),
                Ok((v7, p7, r7)) => match expect_string(v7, "name") {
                    Err(e) => Err(e),
                    Ok(name) => match read_object(input, lim, p7, r7, depth) {
                        Err(e) => Err(e),
                        Ok((v8, p8, r8)) => match expect_string(v8, "qualified_name") {
                            Err(e) => Err(e),
                            Ok(qualified_name) => code_from_first_line(
                                input,
                                lim,
                                p8,
                                r8,
                                depth,
                                counts,
                                bytecode,
                                constants,
                                names,
                                localsplus_names,
                                localsplus_kinds,
                                filename,
                                name,
                                qualified_name,
                            ),
                        },
                    },
                },
            },
        },
    }
}

/// The fields of a code object from its first line number on, read at `pos`.
spec fn code_from_first_line(
    input: Seq<u8>,
    lim: MarshalLimits,
    pos: int,
    refs: SpecRefs,
    depth: int,
    counts: (u32, u32, u32, u32, u32),
    bytecode: Seq<u8>,
    constants: Seq<SpecValue>,
    names: Seq<Seq<char>>,
    localsplus_names: Seq<Seq<char>>,
    localsplus_kinds: Seq<u8>,
    filename: Seq<char>,
    name: Seq<char>,
    qualified_name: Seq<char>,
) -> Parsed<SpecCode> {
    match read_code_u32(input, pos, "first_line_number") {
        Err(e) => Err(e),
        Ok((first_line_number, p9)) => match read_object(input, lim, p9, refs, depth) {
            Err(e) => Err(e),
            Ok((v10, p10, r10)) => match expect_bytes(v10, "line_table") {
                Err(e) => Err(e),
                Ok(line_table) => match read_object(input, lim, p10, r10, depth) {
                    Err(e) => Err(e),
                    Ok((v11, p11, r11)) => match expect_bytes(v11, "exception_table") {
                        Err(e) => Err(e),
                        Ok(exception_table) => if localsplus_names.len() != localsplus_kinds.len() {
                            Err(
                                ParseError::InvalidCodeObject(
                                    "localsplus_names and localsplus_kinds have different lengths",
                                ),
                            )
                        } else {
                            Ok(
                                (
                                    SpecCode {
                                        arg_count: counts.0,
                                        positional_only_arg_count: counts.1,
                                        keyword_only_arg_count: counts.2,
                                        stack_size: counts.3,
                                        flags: counts.4,
                                        bytecode,
                                        constants,
                                        names,
                                        localsplus_names,
                                        localsplus_kinds,
                                        filename,
                                        name,
                                        qualified_name,
                                        first_line_number,
                                        line_table,
                                        exception_table,
                                    },
                                    p11,
                                    r11,
                                ),
                            )
                        },
                    },
                },
            },
        },
    }
}

/// `read_code_tail` reads the local names and kinds, then the rest as
/// `code_from_filename` does.
proof fn lemma_tail_split(
    input: Seq<u8>,
    lim: MarshalLimits,
    pos: int,
    refs: SpecRefs,
    depth: int,
    counts: (u32, u32, u32, u32, u32),
    bytecode: Seq<u8>,
    constants: Seq<SpecValue>,
    names: Seq<Seq<char>>,
)
    ensures
        read_code_tail(input, lim, pos, refs, depth, counts, bytecode, constants, names) == match read_object(
            input,
            lim,
            pos,
            refs,
            depth,
        ) {
            Err(e) => Err(e),
            Ok((v4, p4, r4)) => match expect_string_tuple(v4, "localsplus_names") {
                Err(e) => Err(e),
                Ok(localsplus_names) => match read_object(input, lim, p4, r4, depth) {
                    Err(e) => Err(e),
                    Ok((v5, p5, r5)) => match expect_bytes(v5, "localsplus_kinds") {
                        Err(e) => Err(e),
                        Ok(localsplus_kinds) => code_from_filename(
                            input,
                            lim,
                            p5,
                            r5,
                            depth,
                            counts,
                            bytecode,
                            constants,
                            names,
                            localsplus_names,
                            localsplus_kinds,
                        ),
                    },
                },
            },
        },
{
}

/// A table that gains no slots relates to any other table so.
proof fn lemma_keep(ra: SpecRefs, rb: SpecRefs)
    ensures
        gains_same(ra, rb, ra, rb),
{
    reveal(gains_same);
    assert(ra.take(ra.len() as int) =~= ra);
    assert(rb + ra.skip(ra.len() as int) =~= rb);
}

/// The slots gained over two readings are those of the first followed by
/// those of the second.
proof fn lemma_chain(
    ra: SpecRefs,
    rb: SpecRefs,
    r: SpecRefs,
    r_b: SpecRefs,
    f: SpecRefs,
    f_b: SpecRefs,
)
    requires
        gains_same(ra, rb, r, r_b),
        gains_same(r, r_b, f, f_b),
    ensures
        gains_same(ra, rb, f, f_b),
{
    reveal(gains_same);
    assert forall|i: int| 0 <= i < r.len() implies f[i] == r[i] by {
        assert(f.take(r.len() as int)[i] == f[i]);
    }
    assert forall|i: int| 0 <= i < ra.len() implies r[i] == ra[i] by {
        assert(r.take(ra.len() as int)[i] == r[i]);
    }
    assert(f.take(ra.len() as int) =~= ra);
    assert((rb + r.skip(ra.len() as int)) + f.skip(r.len() as int) =~= rb + f.skip(
        ra.len() as int,
    ));
}

/// A slot that was pushed empty and is then filled with `v`, in both tables.
proof fn lemma_fill(ra: SpecRefs, rb: SpecRefs, out: SpecRefs, out_b: SpecRefs, v: SpecValue)
    requires
        gains_same(ra.push(None), rb.push(None), out, out_b),
    ensures
        gains_same(ra, rb, out.update(ra.len() as int, Some(v)), out_b.update(rb.len() as int, Some(v))),
{
    reveal(gains_same);
    let k = ra.len() as int;
    let filled = out.update(k, Some(v));
    assert forall|i: int| 0 <= i < k implies out[i] == ra[i] by {
        assert(out.take(k + 1)[i] == out[i]);
        assert(ra.push(None)[i] == ra[i]);
    }
    assert(filled.take(k) =~= ra);
    assert((rb.push(None) + out.skip(k + 1)).update(rb.len() as int, Some(v)) =~= rb + filled.skip(k));
}

/// Reading a value that holds no reference object agrees on two inputs that
/// agree from `from <= pos` on, whatever the two tables.
proof fn lemma_object_agrees(
    a: Seq<u8>,
    b: Seq<u8>,
    from: int,
    lim: MarshalLimits,
    pos: int,
    ra: SpecRefs,
    rb: SpecRefs,
    depth: int,
)
    requires
        agree_from(a, b, from),
        0 <= from <= pos,
        no_reference_object(a, lim, pos, ra, depth),
    ensures
        same_reading(read_object(a, lim, pos, ra, depth), read_object(b, lim, pos, rb, depth), ra, rb),
        ends_after(read_object(a, lim, pos, ra, depth), pos),
    decreases measure_depth(lim, depth), 0int, 0int,
{
    lemma_fixed_frame(a, b, from, pos);
    if depth <= lim.max_depth {
        if let Ok((raw, p)) = read_byte(a, pos) {
            let tag = (raw % 0x80) as u8;
            if tag != TYPE_REF && tag != TYPE_NULL {
                if raw >= FLAG_REF {
                    lemma_body_agrees(a, b, from, lim, tag, p, ra.push(None), rb.push(None), depth + 1);
                    if let Ok((v, _, out)) = read_body(a, lim, tag, p, ra.push(None), depth + 1) {
                        let out_b = (read_body(b, lim, tag, p, rb.push(None), depth + 1)->Ok_0).2;
                        lemma_fill(ra, rb, out, out_b, v);
                    }
                } else {
                    lemma_body_agrees(a, b, from, lim, tag, p, ra, rb, depth + 1);
                }
            }
        }
    }
}

/// Reading a body that holds no reference object agrees on two inputs that
/// agree from `from <= pos` on, whatever the two tables.
proof fn lemma_body_agrees(
    a: Seq<u8>,
    b: Seq<u8>,
    from: int,
    lim: MarshalLimits,
    tag: u8,
    pos: int,
    ra: SpecRefs,
    rb: SpecRefs,
    depth: int,
)
    requires
        agree_from(a, b, from),
        0 <= from <= pos,
        no_reference_body(a, lim, tag, pos, ra, depth),
    ensures
        same_reading(read_body(a, lim, tag, pos, ra, depth), read_body(b, lim, tag, pos, rb, depth), ra, rb),
        ends_after(read_body(a, lim, tag, pos, ra, depth), pos),
    decreases measure_depth(lim, depth), 3int, 0int,
{
    lemma_keep(ra, rb);
    lemma_fixed_frame(a, b, from, pos);
    lemma_long_frame(a, b, from, lim, pos);
    lemma_decimal_frame(a, b, from, lim, pos);
    if let Ok((_, p)) = read_decimal_float(a, lim, pos) {
        lemma_decimal_frame(a, b, from, lim, p);
    }
    if let Ok((_, p)) = read_binary_float(a, pos) {
        lemma_fixed_frame(a, b, from, p);
    }
    lemma_counted_frame(a, b, from, lim, pos);
    lemma_short_frame(a, b, from, lim, pos);
    if tag == TYPE_TUPLE || tag == TYPE_LIST || tag == TYPE_SET || tag == TYPE_FROZENSET || tag
        == TYPE_SMALL_TUPLE {
        let length = if tag == TYPE_SMALL_TUPLE {
            read_short_length(a, lim, pos)
        } else {
            read_length(a, lim, pos)
        };
        if let Ok((n, p)) = length {
            lemma_items_agrees(a, b, from, lim, p, ra, rb, depth, n as nat);
        }
    } else if tag == TYPE_DICT {
        lemma_entries_agrees(a, b, from, lim, pos, ra, rb, depth, 0);
    } else if tag == TYPE_CODE {
        lemma_code_agrees(a, b, from, lim, pos, ra, rb, depth);
    }
}

/// Reading `count` values that hold no reference object agrees on two inputs
/// that agree from `from <= pos` on, whatever the two tables.
proof fn lemma_items_agrees(
    a: Seq<u8>,
    b: Seq<u8>,
    from: int,
    lim: MarshalLimits,
    pos: int,
    ra: SpecRefs,
    rb: SpecRefs,
    depth: int,
    count: nat,
)
    requires
        agree_from(a, b, from),
        0 <= from <= pos,
        no_reference_items(a, lim, pos, ra, depth, count),
    ensures
        same_reading(
            read_items(a, lim, pos, ra, depth, count),
            read_items(b, lim, pos, rb, depth, count),
            ra,
            rb,
        ),
        ends_after(read_items(a, lim, pos, ra, depth, count), pos),
    decreases measure_depth(lim, depth), 2int, count,
{
    lemma_keep(ra, rb);
    if count > 0 {
        lemma_object_agrees(a, b, from, lim, pos, ra, rb, depth);
        if let Ok((_, p, r)) = read_object(a, lim, pos, ra, depth) {
            let r_b = (read_object(b, lim, pos, rb, depth)->Ok_0).2;
            lemma_items_agrees(a, b, from, lim, p, r, r_b, depth, (count - 1) as nat);
            if let Ok((_, _, f)) = read_items(a, lim, p, r, depth, (count - 1) as nat) {
                let f_b = (read_items(b, lim, p, r_b, depth, (count - 1) as nat)->Ok_0).2;
                lemma_chain(ra, rb, r, r_b, f, f_b);
            }
        }
    }
}

/// Reading dictionary entries that hold no reference object agrees on two
/// inputs that agree from `from <= pos` on, whatever the two tables.
proof fn lemma_entries_agrees(
    a: Seq<u8>,
    b: Seq<u8>,
    from: int,
    lim: MarshalLimits,
    pos: int,
    ra: SpecRefs,
    rb: SpecRefs,
    depth: int,
    count: int,
)
    requires
        agree_from(a, b, from),
        0 <= from <= pos,
        no_reference_entries(a, lim, pos, ra, depth, count),
    ensures
        same_reading(
            read_entries(a, lim, pos, ra, depth, count),
            read_entries(b, lim, pos, rb, depth, count),
            ra,
            rb,
        ),
        ends_after(read_entries(a, lim, pos, ra, depth, count), pos),
    decreases measure_depth(lim, depth), 2int, lim.max_container_length - count,
{
    lemma_keep(ra, rb);
    if pos < a.len() {
        assert(a[pos] == b[pos]);
    }
    if !(0 <= pos < a.len() && a[pos] == TYPE_NULL) && count < lim.max_container_length {
        lemma_object_agrees(a, b, from, lim, pos, ra, rb, depth);
        if let Ok((_, p1, r1)) = read_object(a, lim, pos, ra, depth) {
            let r1_b = (read_object(b, lim, pos, rb, depth)->Ok_0).2;
            lemma_object_agrees(a, b, from, lim, p1, r1, r1_b, depth);
            if let Ok((_, p2, r2)) = read_object(a, lim, p1, r1, depth) {
                let r2_b = (read_object(b, lim, p1, r1_b, depth)->Ok_0).2;
                lemma_chain(ra, rb, r1, r1_b, r2, r2_b);
                lemma_entries_agrees(a, b, from, lim, p2, r2, r2_b, depth, count + 1);
                if let Ok((_, _, f)) = read_entries(a, lim, p2, r2, depth, count + 1) {
                    let f_b = (read_entries(b, lim, p2, r2_b, depth, count + 1)->Ok_0).2;
                    lemma_chain(ra, rb, r2, r2_b, f, f_b);
                }
            }
        }
    }
}

/// Reading a code object that holds no reference object agrees on two inputs
/// that agree from `from <= pos` on, whatever the two tables.
proof fn lemma_code_agrees(
    a: Seq<u8>,
    b: Seq<u8>,
    from: int,
    lim: MarshalLimits,
    pos: int,
    ra: SpecRefs,
    rb: SpecRefs,
    depth: int,
)
    requires
        agree_from(a, b, from),
        0 <= from <= pos,
        no_reference_code(a, lim, pos, ra, depth),
    ensures
        same_reading(read_code(a, lim, pos, ra, depth), read_code(b, lim, pos, rb, depth), ra, rb),
        ends_after(read_code(a, lim, pos, ra, depth), pos),
    decreases measure_depth(lim, depth), 2int, 0int,
{
    lemma_header_frame(a, b, from, pos);
    if let Ok((counts, p0)) = read_code_header(a, pos) {
        lemma_object_agrees(a, b, from, lim, p0, ra, rb, depth);
        if let Ok((v1, p1, r1)) = read_object(a, lim, p0, ra, depth) {
            let r1_b = (read_object(b, lim, p0, rb, depth)->Ok_0).2;
            if expect_bytes(v1, "bytecode") is Ok {
                lemma_object_agrees(a, b, from, lim, p1, r1, r1_b, depth);
                if let Ok((v2, p2, r2)) = read_object(a, lim, p1, r1, depth) {
                    let r2_b = (read_object(b, lim, p1, r1_b, depth)->Ok_0).2;
                    lemma_chain(ra, rb, r1, r1_b, r2, r2_b);
                    if expect_tuple(v2, "constants") is Ok {
                        lemma_object_agrees(a, b, from, lim, p2, r2, r2_b, depth);
                        if let Ok((v3, p3, r3)) = read_object(a, lim, p2, r2, depth) {
                            let r3_b = (read_object(b, lim, p2, r2_b, depth)->Ok_0).2;
                            lemma_chain(ra, rb, r2, r2_b, r3, r3_b);
                            if expect_string_tuple(v3, "names") is Ok {
                                let bytecode = expect_bytes(v1, "bytecode")->Ok_0;
                                let constants = expect_tuple(v2, "constants")->Ok_0;
                                let names = expect_string_tuple(v3, "names")->Ok_0;
                                lemma_code_tail_agrees(
                                    a,
                                    b,
                                    from,
                                    lim,
                                    p3,
                                    r3,
                                    r3_b,
                                    depth,
                                    counts,
                                    bytecode,
                                    constants,
                                    names,
                                );
                                if let Ok((_, _, f)) = read_code_tail(
                                    a,
                                    lim,
                                    p3,
                                    r3,
                                    depth,
                                    counts,
                                    bytecode,
                                    constants,
                                    names,
                                ) {
                                    let f_b = (read_code_tail(
                                        b,
                                        lim,
                                        p3,
                                        r3_b,
                                        depth,
                                        counts,
                                        bytecode,
                                        constants,
                                        names,
                                    )->Ok_0).2;
                                    lemma_chain(ra, rb, r3, r3_b, f, f_b);
                                }
                            }
                        }
                    }
                }
            }
        }
    }
}

/// Reading the fields of a code object after its names, holding no reference
/// object, agrees on two inputs that agree from `from <= pos` on, whatever
/// the two tables.
proof fn lemma_code_tail_agrees(
    a: Seq<u8>,
    b: Seq<u8>,
    from: int,
    lim: MarshalLimits,
    pos: int,
    ra: SpecRefs,
    rb: SpecRefs,
    depth: int,
    counts: (u32, u32, u32, u32, u32),
    bytecode: Seq<u8>,
    constants: Seq<SpecValue>,
    names: Seq<Seq<char>>,
)
    requires
        agree_from(a, b, from),
        0 <= from <= pos,
        no_reference_code_tail(a, lim, pos, ra, depth),
    ensures
        same_reading(
            read_code_tail(a, lim, pos, ra, depth, counts, bytecode, constants, names),
            read_code_tail(b, lim, pos, rb, depth, counts, bytecode, constants, names),
            ra,
            rb,
        ),
        ends_after(read_code_tail(a, lim, pos, ra, depth, counts, bytecode, constants, names), pos),
    decreases measure_depth(lim, depth), 1int, 2int,
{
    lemma_tail_split(a, lim, pos, ra, depth, counts, bytecode, constants, names);
    lemma_tail_split(b, lim, pos, rb, depth, counts, bytecode, constants, names);
    lemma_object_agrees(a, b, from, lim, pos, ra, rb, depth);
    if let Ok((v4, p4, r4)) = read_object(a, lim, pos, ra, depth) {
        let r4_b = (read_object(b, lim, pos, rb, depth)->Ok_0).2;
        if expect_string_tuple(v4, "localsplus_names") is Ok {
            lemma_object_agrees(a, b, from, lim, p4, r4, r4_b, depth);
            if let Ok((v5, p5, r5)) = read_object(a, lim, p4, r4, depth) {
                let r5_b = (read_object(b, lim, p4, r4_b, depth)->Ok_0).2;
                lemma_chain(ra, rb, r4, r4_b, r5, r5_b);
                if expect_bytes(v5, "localsplus_kinds") is Ok {
                    let localsplus_names = expect_string_tuple(v4, "localsplus_names")->Ok_0;
                    let localsplus_kinds = expect_bytes(v5, "localsplus_kinds")->Ok_0;
                    lemma_from_filename_agrees(
                        a,
                        b,
                        from,
                        lim,
                        p5,
                        r5,
                        r5_b,
                        depth,
                        counts,
                        bytecode,
                        constants,
                        names,
                        localsplus_names,
                        localsplus_kinds,
                    );
                    let fa = code_from_filename(
                        a,
                        lim,
                        p5,
                        r5,
                        depth,
                        counts,
                        bytecode,
                        constants,
                        names,
                        localsplus_names,
                        localsplus_kinds,
                    );
                    let fb = code_from_filename(
                        b,
                        lim,
                        p5,
                        r5_b,
                        depth,
                        counts,
                        bytecode,
                        constants,
                        names,
                        localsplus_names,
                        localsplus_kinds,
                    );
                    if let Ok((_, _, f)) = fa {
                        lemma_chain(ra, rb, r5, r5_b, f, (fb->Ok_0).2);
                    }
                }
            }
        }
    }
}

/// Reading the fields of a code object from its file name on, holding no
/// reference object, agrees on two inputs that agree from `from <= pos` on,
/// whatever the two tables.
proof fn lemma_from_filename_agrees(
    a: Seq<u8>,
    b: Seq<u8>,
    from: int,
    lim: MarshalLimits,
    pos: int,
    ra: SpecRefs,
    rb: SpecRefs,
    depth: int,
    counts: (u32, u32, u32, u32, u32),
    bytecode: Seq<u8>,
    constants: Seq<SpecValue>,
    names: Seq<Seq<char>>,
    localsplus_names: Seq<Seq<char>>,
    localsplus_kinds: Seq<u8>,
)
    requires
        agree_from(a, b, from),
        0 <= from <= pos,
        no_reference_from_filename(a, lim, pos, ra, depth),
    ensures
        same_reading(
            code_from_filename(
                a,
                lim,
                pos,
                ra,
                depth,
                counts,
                bytecode,
                constants,
                names,
                localsplus_names,
                localsplus_kinds,
            ),
            code_from_filename(
                b,
                lim,
                pos,
                rb,
                depth,
                counts,
                bytecode,
                constants,
                names,
                localsplus_names,
                localsplus_kinds,
            ),
            ra,
            rb,
        ),
        ends_after(
            code_from_filename(
                a,
                lim,
                pos,
                ra,
                depth,
                counts,
                bytecode,
                constants,
                names,
                localsplus_names,
                localsplus_kinds,
            ),
            pos,
        ),
    decreases measure_depth(lim, depth), 1int, 1int,
{
    lemma_object_agrees(a, b, from, lim, pos, ra, rb, depth);
    if let Ok((v6, p6, r6)) = read_object(a, lim, pos, ra, depth) {
        let r6_b = (read_object(b, lim, pos, rb, depth)->Ok_0).2;
        if expect_string(v6, "filename") is Ok {
            lemma_object_agrees(a, b, from, lim, p6, r6, r6_b, depth);
            if let Ok((v7, p7, r7)) = read_object(a, lim, p6, r6, depth) {
                let r7_b = (read_object(b, lim, p6, r6_b, depth)->Ok_0).2;
                lemma_chain(ra, rb, r6, r6_b, r7, r7_b);
                if expect_string(v7, "name") is Ok {
                    lemma_object_agrees(a, b, from, lim, p7, r7, r7_b, depth);
                    if let Ok((v8, p8, r8)) = read_object(a, lim, p7, r7, depth) {
                        let r8_b = (read_object(b, lim, p7, r7_b, depth)->Ok_0).2;
                        lemma_chain(ra, rb, r7, r7_b, r8, r8_b);
                        if expect_string(v8, "qualified_name") is Ok {
                            let filename = expect_string(v6, "filename")->Ok_0;
                            let name = expect_string(v7, "name")->Ok_0;
                            let qualified_name = expect_string(v8, "qualified_name")->Ok_0;
                            lemma_from_first_line_agrees(
                                a,
                                b,
                                from,
                                lim,
                                p8,
                                r8,
                                r8_b,
                                depth,
                                counts,
                                bytecode,
                                constants,
                                names,
                                localsplus_names,
                                localsplus_kinds,
                                filename,
                                name,
                                qualified_name,
                            );
                            let fa = code_from_first_line(
                                a,
                                lim,
                                p8,
                                r8,
                                depth,
                                counts,
                                bytecode,
                                constants,
                                names,
                                localsplus_names,
                                localsplus_kinds,
                                filename,
                                name,
                                qualified_name,
                            );
                            let fb = code_from_first_line(
                                b,
                                lim,
                                p8,
                                r8_b,
                                depth,
                                counts,
                                bytecode,
                                constants,
                                names,
                                localsplus_names,
                                localsplus_kinds,
                                filename,
                                name,
                                qualified_name,
                            );
                            if let Ok((_, _, f)) = fa {
                                lemma_chain(ra, rb, r8, r8_b, f, (fb->Ok_0).2);
                            }
                        }
                    }
                }
            }
        }
    }
}

/// Reading the fields of a code object from its first line number on,
/// holding no reference object, agrees on two inputs that agree from
/// `from <= pos` on, whatever the two tables.
proof fn lemma_from_first_line_agrees(
    a: Seq<u8>,
    b: Seq<u8>,
    from: int,
    lim: MarshalLimits,
    pos: int,
    ra: SpecRefs,
    rb: SpecRefs,
    depth: int,
    counts: (u32, u32, u32, u32, u32),
    bytecode: Seq<u8>,
    constants: Seq<SpecValue>,
    names: Seq<Seq<char>>,
    localsplus_names: Seq<Seq<char>>,
    localsplus_kinds: Seq<u8>,
    filename: Seq<char>,
    name: Seq<char>,
    qualified_name: Seq<char>,
)
    requires
        agree_from(a, b, from),
        0 <= from <= pos,
        no_reference_from_first_line(a, lim, pos, ra, depth),
    ensures
        same_reading(
            code_from_first_line(
                a,
                lim,
                pos,
                ra,
                depth,
                counts,
                bytecode,
                constants,
                names,
                localsplus_names,
                localsplus_kinds,
                filename,
                name,
                qualified_name,
            ),
            code_from_first_line(
                b,
                lim,
                pos,
                rb,
                depth,
                counts,
                bytecode,
                constants,
                names,
                localsplus_names,
                localsplus_kinds,
                filename,
                name,
                qualified_name,
            ),
            ra,
            rb,
        ),
        ends_after(
            code_from_first_line(
                a,
                lim,
                pos,
                ra,
                depth,
                counts,
                bytecode,
                constants,
                names,
                localsplus_names,
                localsplus_kinds,
                filename,
                name,
                qualified_name,
            ),
            pos,
        ),
    decreases measure_depth(lim, depth), 1int, 0int,
{
    lemma_fixed_frame(a, b, from, pos);
    if let Ok((first_line, p9)) = read_i32(a, pos) {
        if first_line >= 0 {
            lemma_object_agrees(a, b, from, lim, p9, ra, rb, depth);
            if let Ok((v10, p10, r10)) = read_object(a, lim, p9, ra, depth) {
                let r10_b = (read_object(b, lim, p9, rb, depth)->Ok_0).2;
                if expect_bytes(v10, "line_table") is Ok {
                    lemma_object_agrees(a, b, from, lim, p10, r10, r10_b, depth);
                    if let Ok((_, _, r11)) = read_object(a, lim, p10, r10, depth) {
                        let r11_b = (read_object(b, lim, p10, r10_b, depth)->Ok_0).2;
                        lemma_chain(ra, rb, r10, r10_b, r11, r11_b);
                    }
                }
            }
        }
    }
}

/// Reading the root value of a stream with an empty table is reading its
/// body under the tag without `FLAG_REF`; when the flag is set, with one
/// empty slot pushed first and then filled with the value.
proof fn lemma_root_read(input: Seq<u8>, lim: MarshalLimits)
    requires
        input.len() > 0,
        (input[0] % 0x80) as u8 != TYPE_REF,
        (input[0] % 0x80) as u8 != TYPE_NULL,
    ensures
        input[0] >= FLAG_REF ==> read_object(input, lim, 0, Seq::empty(), 0) == match read_body(
            input,
            lim,
            (input[0] % 0x80) as u8,
            1,
            Seq::empty().push(None),
            1,
        ) {
            Ok((v, end, out)) => Ok((v, end, out.update(0, Some(v)))),
            Err(e) => Err(e),
        },
        input[0] < FLAG_REF ==> read_object(input, lim, 0, Seq::empty(), 0) == read_body(
            input,
            lim,
            (input[0] % 0x80) as u8,
            1,
            Seq::empty(),
            1,
        ),
{
    assert(Seq::<Option<SpecValue>>::empty().len() == 0);
}

/// Setting `FLAG_REF` on the tag of a stream's root value, which enters the
/// root in the reference table, changes neither the value decoded nor the
/// error the stream is refused with, provided the stream holds no reference
/// object (`TYPE_REF`). The root's tag must not be `TYPE_NULL`, which is
/// refused with the tag byte as written.
pub proof fn lemma_flag_ref_keeps_value(input: Seq<u8>, lim: MarshalLimits)
    requires
        input.len() > 0,
        input[0] < FLAG_REF,
        input[0] != TYPE_NULL,
        no_reference_object(input, lim, 0, Seq::empty(), 0),
    ensures
        spec_parse_marshal(input.update(0, (input[0] + FLAG_REF) as u8), lim) == spec_parse_marshal(
            input,
            lim,
        ),
{
    let flagged = input.update(0, (input[0] + FLAG_REF) as u8);
    let tag = input[0];
    assert(agree_from(input, flagged, 1));
    assert(((flagged[0] % 0x80) as u8) == tag);
    assert(((input[0] % 0x80) as u8) == tag);
    assert(tag != TYPE_REF);
    lemma_root_read(input, lim);
    lemma_root_read(flagged, lim);
    lemma_body_agrees(input, flagged, 1, lim, tag, 1, Seq::empty(), Seq::empty().push(None), 1);
}

} // verus!
