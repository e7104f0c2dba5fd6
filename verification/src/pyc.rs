//! The `.pyc` file header of CPython 3.12 and loading a whole file.
use crate::code::{CodeObject, SpecCode, code_view};
use crate::error::ParseError;
use crate::marshal_format::MarshalLimits;
use crate::marshal_reader::{default_limits, parse_code_from, spec_parse_code_object};
use vstd::prelude::*;

verus! {

/// The magic number that opens every CPython 3.12 `.pyc` file.
pub const PYTHON_3_12_MAGIC: [u8; 4] = [0xcb, 0x0d, 0x0d, 0x0a];

/// The size of the header in front of the marshal payload.
pub const PYC_HEADER_SIZE: usize = 16;

/// How the interpreter decides whether a cached `.pyc` is stale.
#[derive(Debug, Clone, PartialEq, Eq)]
pub enum PycValidation {
    Timestamp { timestamp: u32, source_size: u32 },
    Hash { hash: [u8; 8], check_source: bool },
}

/// A decoded `.pyc` header.
#[derive(Debug, Clone, PartialEq, Eq)]
pub struct PycHeader {
    pub magic: [u8; 4],
    pub flags: u32,
    pub validation: PycValidation,
}

/// The little-endian unsigned 32-bit integer stored at `input[at..at + 4]`.
pub open spec fn le_u32(input: Seq<u8>, at: int) -> u32 {
    (input[at] + input[at + 1] * 0x100 + input[at + 2] * 0x1_0000 + input[at + 3]
        * 0x100_0000) as u32
}

/// The bytes `input[at..at + 4]` as an array.
pub open spec fn array4(input: Seq<u8>, at: int) -> [u8; 4] {
    [input[at], input[at + 1], input[at + 2], input[at + 3]]
}

/// The bytes `input[at..at + 8]` as an array.
pub open spec fn array8(input: Seq<u8>, at: int) -> [u8; 8] {
    [
        input[at],
        input[at + 1],
        input[at + 2],
        input[at + 3],
        input[at + 4],
        input[at + 5],
        input[at + 6],
        input[at + 7],
    ]
}

/// The header at the start of `input` and the offset of the payload after it.
pub open spec fn spec_parse_header(input: Seq<u8>) -> Result<(PycHeader, usize), ParseError> {
    if input.len() < 16 {
        Err(
            ParseError::UnexpectedEof {
                offset: input.len() as usize,
                needed: (16 - input.len()) as usize,
                remaining: 0,
            },
        )
    } else if array4(input, 0) != PYTHON_3_12_MAGIC {
        Err(ParseError::InvalidMagic { expected: PYTHON_3_12_MAGIC, actual: array4(input, 0) })
    } else if le_u32(input, 4) > 3 {
        Err(ParseError::InvalidHeaderFlags(le_u32(input, 4)))
    } else {
        let flags = le_u32(input, 4);
        let validation = if flags % 2 == 0 {
            PycValidation::Timestamp { timestamp: le_u32(input, 8), source_size: le_u32(input, 12) }
        } else {
            PycValidation::Hash { hash: array8(input, 8), check_source: flags >= 2 }
        };
        Ok((PycHeader { magic: array4(input, 0), flags, validation }, 16))
    }
}

/// Reads the little-endian unsigned 32-bit integer at `input[at..at + 4]`.
fn read_le_u32(input: &[u8], at: usize) -> (value: u32)
    requires
        at + 4 <= input@.len(),
    ensures
        value == le_u32(input@, at as int),
{
    input[at] as u32 + input[at + 1] as u32 * 0x100 + input[at + 2] as u32 * 0x1_0000
        + input[at + 3] as u32 * 0x100_0000
}

/// Validates the 16-byte header of a CPython 3.12 `.pyc` file and returns it
/// with the offset at which the marshal payload starts.
pub fn parse_header(input: &[u8]) -> (res: Result<(PycHeader, usize), ParseError>)
    ensures
        res == spec_parse_header(input@),
{
    let length = input.len();
    if length < PYC_HEADER_SIZE {
        return Err(
            ParseError::UnexpectedEof {
                offset: length,
                needed: PYC_HEADER_SIZE - length,
                remaining: 0,
            },
        );
    }
    let actual: [u8; 4] = [input[0], input[1], input[2], input[3]];
    assert(actual == array4(input@, 0));
    if !(actual[0] == PYTHON_3_12_MAGIC[0] && actual[1] == PYTHON_3_12_MAGIC[1] && actual[2]
        == PYTHON_3_12_MAGIC[2] && actual[3] == PYTHON_3_12_MAGIC[3]) {
        proof {
            assert(actual != PYTHON_3_12_MAGIC) by {
                if actual == PYTHON_3_12_MAGIC {
                    assert(actual@ == PYTHON_3_12_MAGIC@);
                }
            }
        }
        return Err(ParseError::InvalidMagic { expected: PYTHON_3_12_MAGIC, actual });
    }
    proof {
        assert(actual@ =~= PYTHON_3_12_MAGIC@);
    }
    let flags = read_le_u32(input, 4);
    if flags > 3 {
        return Err(ParseError::InvalidHeaderFlags(flags));
    }
    let validation = if flags % 2 == 0 {
        PycValidation::Timestamp {
            timestamp: read_le_u32(input, 8),
            source_size: read_le_u32(input, 12),
        }
    } else {
        PycValidation::Hash {
            hash: [
                input[8],
                input[9],
                input[10],
                input[11],
                input[12],
                input[13],
                input[14],
                input[15],
            ],
            check_source: flags >= 2,
        }
    };
    Ok((PycHeader { magic: actual, flags, validation }, PYC_HEADER_SIZE))
}


/// A `.pyc` file: its header and the module's code object.
#[derive(Debug, PartialEq, Eq)]
pub struct PycFile {
    pub header: PycHeader,
    pub code: CodeObject,
}

/// The header and code object of a whole `.pyc` file.
pub open spec fn spec_parse_pyc(input: Seq<u8>, lim: MarshalLimits) -> Result<(PycHeader, SpecCode), ParseError> {
    match spec_parse_header(input) {
        Err(e) => Err(e),
        Ok((header, offset)) => match spec_parse_code_object(input.skip(offset as int), lim) {
            Ok(code) => Ok((header, code)),
            Err(e) => Err(e),
        },
    }
}

/// A parse of a whole `.pyc` file compared with the grammar's answer.
pub open spec fn pyc_agrees(res: Result<PycFile, ParseError>, expected: Result<(PycHeader, SpecCode), ParseError>) -> bool {
    match expected {
        Ok((header, code)) => res matches Ok(file) && file.header == header && code_view(file.code) == code,
        Err(e) => res == Err::<PycFile, ParseError>(e),
    }
}

/// Reads a whole `.pyc` file under the given marshal limits.
pub fn parse_pyc_with_limits(input: &[u8], limits: MarshalLimits) -> (res: Result<PycFile, ParseError>)
    ensures
        pyc_agrees(res, spec_parse_pyc(input@, limits)),
{
    let (header, payload_offset) = match parse_header(input) {
        Ok(h) => h,
        Err(e) => return Err(e),
    };
    let payload = vstd::slice::slice_subrange(input, payload_offset, input.len());
    assert(payload@ == input@.skip(payload_offset as int));
    match parse_code_from(payload, limits) {
        Ok(code) => Ok(PycFile { header, code }),
        Err(e) => Err(e),
    }
}

/// Reads a whole `.pyc` file: a CPython 3.12 header followed by a marshal
/// stream that holds the module's code object and nothing after it.
pub fn parse_pyc(input: &[u8]) -> (res: Result<PycFile, ParseError>)
    ensures
        pyc_agrees(res, spec_parse_pyc(input@, default_limits())),
{
    parse_pyc_with_limits(input, MarshalLimits::default())
}

} // verus!
