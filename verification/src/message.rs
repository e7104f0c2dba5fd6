//! The human-readable text of each error.
use crate::decimal::{
    decimal, decimal_text, hex, hex_text, signed_decimal, signed_decimal_text, zero_padded,
};
use crate::error::{BytecodeError, ParseError, VmError, VmFault, fault_view};
use vstd::prelude::*;
use vstd::string::StringExecFns;

verus! {

broadcast use vstd::string::to_string_from_display_ensures_for_str;

/// What Rust's `{:?}` makes of a text: the text in double quotes, with
/// quotes, backslashes and unprintable characters escaped.
pub uninterp spec fn debug_text(text: Seq<char>) -> Seq<char>;

/// `format!("{:?}", text)`, Rust's `Debug` rendering of a string. The
/// contract names the result and claims only that it depends on the
/// characters of the text alone; the escaping rules are left unsaid.
#[verifier::external_body]
pub(crate) fn debug_quoted(text: &str) -> (r: String)
    ensures
        r@ == debug_text(text@),
{
    format!("{:?}", text)
}

/// Two lowercase hexadecimal digits.
pub open spec fn hex2(n: nat) -> Seq<char> {
    zero_padded(hex(n), 2)
}

/// Four bytes as `{:02x?}` shows them: `[cb, 0d, 0d, 0a]`.
pub open spec fn bytes_hex(b: Seq<u8>) -> Seq<char> {
    "["@ + hex2(b[0] as nat) + ", "@ + hex2(b[1] as nat) + ", "@ + hex2(b[2] as nat) + ", "@ + hex2(
        b[3] as nat,
    ) + "]"@
}

/// The text of a wordcode error.
pub open spec fn bytecode_message(e: BytecodeError) -> Seq<char> {
    match e {
        BytecodeError::OddLength { length } => "Python 3.12 bytecode has odd length "@ + decimal(
            length as nat,
        ),
        BytecodeError::TruncatedInstruction { offset } => "truncated bytecode instruction at offset "@
            + decimal(offset as nat),
        BytecodeError::DanglingExtendedArg { offset } => "EXTENDED_ARG at offset "@ + decimal(
            offset as nat,
        ) + " has no following instruction"@,
        BytecodeError::ExtendedArgOverflow { offset } => "EXTENDED_ARG sequence overflows at offset "@
            + decimal(offset as nat),
    }
}

/// The text of a loader error.
pub open spec fn parse_message(e: ParseError) -> Seq<char> {
    match e {
        ParseError::UnexpectedEof { offset, needed, remaining } => "unexpected end of input at offset "@
            + decimal(offset as nat) + ": needed "@ + decimal(needed as nat) + " bytes, found "@
            + decimal(remaining as nat),
        ParseError::InvalidMagic { expected, actual } => "invalid .pyc magic: expected "@ + bytes_hex(
            expected@,
        ) + ", got "@ + bytes_hex(actual@),
        ParseError::InvalidHeaderFlags(flags) => "invalid .pyc header flags: 0x"@ + zero_padded(
            hex(flags as nat),
            8,
        ),
        ParseError::UnsupportedMarshalType { offset, tag } => "unsupported marshal type 0x"@ + hex2(
            tag as nat,
        ) + " at offset "@ + decimal(offset as nat),
        ParseError::InvalidReference { offset, index, count } => "invalid marshal reference "@
            + signed_decimal(index as int) + " at offset "@ + decimal(offset as nat)
            + "; reference table has "@ + decimal(count as nat) + " entries"@,
        ParseError::RecursiveReference { offset, index } => "recursive marshal reference "@
            + signed_decimal(index as int) + " at offset "@ + decimal(offset as nat)
            + " is not supported by the owned parser representation"@,
        ParseError::InvalidUtf8 { offset } => "invalid UTF-8 string at offset "@ + decimal(
            offset as nat,
        ),
        ParseError::InvalidFloat { offset } => "invalid floating-point value at offset "@ + decimal(
            offset as nat,
        ),
        ParseError::InvalidLength { offset, length } => "invalid length "@ + signed_decimal(
            length as int,
        ) + " at offset "@ + decimal(offset as nat),
        ParseError::ResourceLimit { offset, what, limit } => "marshal "@ + what@ + " exceeds the limit "@
            + decimal(limit as nat) + " at offset "@ + decimal(offset as nat),
        ParseError::InvalidCodeField { field, expected } => "invalid code object field "@ + field@
            + "; expected "@ + expected@,
        ParseError::InvalidCodeObject(reason) => "invalid code object: "@ + reason@,
        ParseError::RootIsNotCodeObject => "marshal root is not a code object"@,
        ParseError::TrailingBytes { offset, remaining } => "trailing bytes after marshal root at offset "@
            + decimal(offset as nat) + ": "@ + decimal(remaining as nat) + " bytes"@,
    }
}

/// An opcode in hexadecimal and the offset of its instruction.
pub open spec fn opcode_at_text(opcode: u8, offset: usize) -> Seq<char> {
    "0x"@ + hex2(opcode as nat) + " at offset "@ + decimal(offset as nat)
}

/// The text of a VM error.
pub open spec fn fault_message(f: VmFault) -> Seq<char> {
    match f {
        VmFault::Bytecode(e) => bytecode_message(e),
        VmFault::UnsupportedOpcode { offset, opcode, filename } => "unsupported opcode "@
            + opcode_at_text(opcode, offset) + " in "@ + filename,
        VmFault::UnsupportedOperation { offset, operation } => "unsupported operation "@ + operation
            + " at offset "@ + decimal(offset as nat),
        VmFault::InvalidArgument { offset, opcode, argument, reason } => "invalid argument "@ + decimal(
            argument as nat,
        ) + " for opcode "@ + opcode_at_text(opcode, offset) + ": "@ + reason,
        VmFault::StackUnderflow { offset, opcode } => "stack underflow for opcode "@ + opcode_at_text(
            opcode,
            offset,
        ),
        VmFault::MissingReturn { code_name } => "code object "@ + debug_text(code_name)
            + " reached end without returning"@,
        VmFault::ConstantIndexOutOfBounds { offset, index } => "constant index "@ + decimal(
            index as nat,
        ) + " is out of bounds at offset "@ + decimal(offset as nat),
        VmFault::NameIndexOutOfBounds { offset, index } => "name index "@ + decimal(index as nat)
            + " is out of bounds at offset "@ + decimal(offset as nat),
        VmFault::LocalIndexOutOfBounds { offset, index } => "local index "@ + decimal(index as nat)
            + " is out of bounds at offset "@ + decimal(offset as nat),
        VmFault::UnknownName { offset, name } => "name "@ + debug_text(name) + " is not defined at offset "@
            + decimal(offset as nat),
        VmFault::UnboundLocal { offset, name } => "local "@ + debug_text(name) + " is unbound at offset "@
            + decimal(offset as nat),
        VmFault::UnsupportedConstant { description } => "unsupported Python constant: "@ + description,
        VmFault::TypeError { offset, operation, left, right } => match right {
            Some(r) => "unsupported operand types for "@ + operation + ": "@ + left + " and "@ + r
                + " at offset "@ + decimal(offset as nat),
            None => "unsupported operand type for "@ + operation + ": "@ + left + " at offset "@
                + decimal(offset as nat),
        },
        VmFault::ValueError { offset, operation } => "invalid value for "@ + operation + " at offset "@
            + decimal(offset as nat),
        VmFault::ZeroDivision { offset } => "division by zero at offset "@ + decimal(offset as nat),
        VmFault::IntegerOverflow { offset, operation } => "integer overflow during "@ + operation
            + " at offset "@ + decimal(offset as nat),
        VmFault::IndexError { offset, index } => "index "@ + signed_decimal(index as int)
            + " is out of range at offset "@ + decimal(offset as nat),
        VmFault::KeyError { offset } => "key was not found at offset "@ + decimal(offset as nat),
        VmFault::InvalidJumpTarget { offset, target } => "invalid jump target "@ + decimal(
            target as nat,
        ) + " from offset "@ + decimal(offset as nat),
    }
}

/// Four bytes as `{:02x?}` shows them.
fn bytes_hex_text(b: &[u8; 4]) -> (s: String)
    ensures
        s@ == bytes_hex(b@),
{
    let mut s = "[".to_string();
    s.append(hex_text(b[0] as u64, 2).as_str());
    s.append(", ");
    s.append(hex_text(b[1] as u64, 2).as_str());
    s.append(", ");
    s.append(hex_text(b[2] as u64, 2).as_str());
    s.append(", ");
    s.append(hex_text(b[3] as u64, 2).as_str());
    s.append("]");
    s
}

/// Two texts, one after the other.
fn joined(prefix: &str, rest: &str) -> (s: String)
    ensures
        s@ == prefix@ + rest@,
{
    let mut s = prefix.to_string();
    s.append(rest);
    s
}

/// Three texts, one after the other.
fn around(prefix: &str, middle: &str, suffix: &str) -> (s: String)
    ensures
        s@ == prefix@ + middle@ + suffix@,
{
    let mut s = prefix.to_string();
    s.append(middle);
    s.append(suffix);
    s
}

impl BytecodeError {
    /// The error's text.
    pub fn message(&self) -> (s: String)
        ensures
            s@ == bytecode_message(*self),
    {
        match self {
            BytecodeError::OddLength { length } => joined(
                "Python 3.12 bytecode has odd length ",
                decimal_text(*length as u64).as_str(),
            ),
            BytecodeError::TruncatedInstruction { offset } => joined(
                "truncated bytecode instruction at offset ",
                decimal_text(*offset as u64).as_str(),
            ),
            BytecodeError::DanglingExtendedArg { offset } => around(
                "EXTENDED_ARG at offset ",
                decimal_text(*offset as u64).as_str(),
                " has no following instruction",
            ),
            BytecodeError::ExtendedArgOverflow { offset } => joined(
                "EXTENDED_ARG sequence overflows at offset ",
                decimal_text(*offset as u64).as_str(),
            ),
        }
    }
}

impl ParseError {
    /// The error's text.
    pub fn message(&self) -> (s: String)
        ensures
            s@ == parse_message(*self),
    {
        match self {
            ParseError::UnexpectedEof { offset, needed, remaining } => {
                let mut s = "unexpected end of input at offset ".to_string();
                s.append(decimal_text(*offset as u64).as_str());
                s.append(": needed ");
                s.append(decimal_text(*needed as u64).as_str());
                s.append(" bytes, found ");
                s.append(decimal_text(*remaining as u64).as_str());
                s
            },
            ParseError::InvalidMagic { expected, actual } => {
                let mut s = "invalid .pyc magic: expected ".to_string();
                s.append(bytes_hex_text(expected).as_str());
                s.append(", got ");
                s.append(bytes_hex_text(actual).as_str());
                s
            },
            ParseError::InvalidHeaderFlags(flags) => joined(
                "invalid .pyc header flags: 0x",
                hex_text(*flags as u64, 8).as_str(),
            ),
            ParseError::UnsupportedMarshalType { offset, tag } => {
                let mut s = "unsupported marshal type 0x".to_string();
                s.append(hex_text(*tag as u64, 2).as_str());
                s.append(" at offset ");
                s.append(decimal_text(*offset as u64).as_str());
                s
            },
            ParseError::InvalidReference { offset, index, count } => {
                let mut s = "invalid marshal reference ".to_string();
                s.append(signed_decimal_text(*index as i64).as_str());
                s.append(" at offset ");
                s.append(decimal_text(*offset as u64).as_str());
                s.append("; reference table has ");
                s.append(decimal_text(*count as u64).as_str());
                s.append(" entries");
                s
            },
            ParseError::RecursiveReference { offset, index } => {
                let mut s = "recursive marshal reference ".to_string();
                s.append(signed_decimal_text(*index as i64).as_str());
                s.append(" at offset ");
                s.append(decimal_text(*offset as u64).as_str());
                s.append(" is not supported by the owned parser representation");
                s
            },
            ParseError::InvalidUtf8 { offset } => joined(
                "invalid UTF-8 string at offset ",
                decimal_text(*offset as u64).as_str(),
            ),
            ParseError::InvalidFloat { offset } => joined(
                "invalid floating-point value at offset ",
                decimal_text(*offset as u64).as_str(),
            ),
            ParseError::InvalidLength { offset, length } => {
                let mut s = "invalid length ".to_string();
                s.append(signed_decimal_text(*length).as_str());
                s.append(" at offset ");
                s.append(decimal_text(*offset as u64).as_str());
                s
            },
            ParseError::ResourceLimit { offset, what, limit } => {
                let mut s = "marshal ".to_string();
                s.append(what);
                s.append(" exceeds the limit ");
                s.append(decimal_text(*limit as u64).as_str());
                s.append(" at offset ");
                s.append(decimal_text(*offset as u64).as_str());
                s
            },
            ParseError::InvalidCodeField { field, expected } => {
                let mut s = "invalid code object field ".to_string();
                s.append(field);
                s.append("; expected ");
                s.append(expected);
                s
            },
            ParseError::InvalidCodeObject(reason) => joined("invalid code object: ", reason),
            ParseError::RootIsNotCodeObject => "marshal root is not a code object".to_string(),
            ParseError::TrailingBytes { offset, remaining } => {
                let mut s = "trailing bytes after marshal root at offset ".to_string();
                s.append(decimal_text(*offset as u64).as_str());
                s.append(": ");
                s.append(decimal_text(*remaining as u64).as_str());
                s.append(" bytes");
                s
            },
        }
    }
}

/// `0x` and two hexadecimal digits of an opcode, then ` at offset ` and the offset.
fn opcode_at(opcode: u8, offset: usize) -> (s: String)
    ensures
        s@ == opcode_at_text(opcode, offset),
{
    let mut s = "0x".to_string();
    s.append(hex_text(opcode as u64, 2).as_str());
    s.append(" at offset ");
    s.append(decimal_text(offset as u64).as_str());
    s
}

impl VmError {
    /// The error's text.
    pub fn message(&self) -> (s: String)
        ensures
            s@ == fault_message(fault_view(*self)),
    {
        match self {
            VmError::Bytecode(e) => e.message(),
            VmError::UnsupportedOpcode { offset, opcode, filename } => around(
                "unsupported opcode ",
                opcode_at(*opcode, *offset).as_str(),
                joined(" in ", filename.as_str()).as_str(),
            ),
            VmError::UnsupportedOperation { offset, operation } => {
                let mut s = "unsupported operation ".to_string();
                s.append(operation.as_str());
                s.append(" at offset ");
                s.append(decimal_text(*offset as u64).as_str());
                s
            },
            VmError::InvalidArgument { offset, opcode, argument, reason } => {
                let mut s = "invalid argument ".to_string();
                s.append(decimal_text(*argument as u64).as_str());
                s.append(" for opcode ");
                s.append(opcode_at(*opcode, *offset).as_str());
                s.append(": ");
                s.append(reason.as_str());
                s
            },
            VmError::StackUnderflow { offset, opcode } => joined(
                "stack underflow for opcode ",
                opcode_at(*opcode, *offset).as_str(),
            ),
            VmError::MissingReturn { code_name } => around(
                "code object ",
                debug_quoted(code_name.as_str()).as_str(),
                " reached end without returning",
            ),
            VmError::ConstantIndexOutOfBounds { offset, index } => {
                let mut s = "constant index ".to_string();
                s.append(decimal_text(*index as u64).as_str());
                s.append(" is out of bounds at offset ");
                s.append(decimal_text(*offset as u64).as_str());
                s
            },
            VmError::NameIndexOutOfBounds { offset, index } => {
                let mut s = "name index ".to_string();
                s.append(decimal_text(*index as u64).as_str());
                s.append(" is out of bounds at offset ");
                s.append(decimal_text(*offset as u64).as_str());
                s
            },
            VmError::LocalIndexOutOfBounds { offset, index } => {
                let mut s = "local index ".to_string();
                s.append(decimal_text(*index as u64).as_str());
                s.append(" is out of bounds at offset ");
                s.append(decimal_text(*offset as u64).as_str());
                s
            },
            VmError::UnknownName { offset, name } => {
                let mut s = "name ".to_string();
                s.append(debug_quoted(name.as_str()).as_str());
                s.append(" is not defined at offset ");
                s.append(decimal_text(*offset as u64).as_str());
                s
            },
            VmError::UnboundLocal { offset, name } => {
                let mut s = "local ".to_string();
                s.append(debug_quoted(name.as_str()).as_str());
                s.append(" is unbound at offset ");
                s.append(decimal_text(*offset as u64).as_str());
                s
            },
            VmError::UnsupportedConstant { description } => joined(
                "unsupported Python constant: ",
                description.as_str(),
            ),
            VmError::TypeError { offset, operation, left, right } => {
                let mut s = match right {
                    Some(_) => "unsupported operand types for ".to_string(),
                    None => "unsupported operand type for ".to_string(),
                };
                s.append(operation.as_str());
                s.append(": ");
                s.append(left.as_str());
                match right {
                    Some(r) => {
                        s.append(" and ");
                        s.append(r.as_str());
                    },
                    None => {},
                }
                s.append(" at offset ");
                s.append(decimal_text(*offset as u64).as_str());
                s
            },
            VmError::ValueError { offset, operation } => {
                let mut s = "invalid value for ".to_string();
                s.append(operation.as_str());
                s.append(" at offset ");
                s.append(decimal_text(*offset as u64).as_str());
                s
            },
            VmError::ZeroDivision { offset } => joined(
                "division by zero at offset ",
                decimal_text(*offset as u64).as_str(),
            ),
            VmError::IntegerOverflow { offset, operation } => {
                let mut s = "integer overflow during ".to_string();
                s.append(operation.as_str());
                s.append(" at offset ");
                s.append(decimal_text(*offset as u64).as_str());
                s
            },
            VmError::IndexError { offset, index } => {
                let mut s = "index ".to_string();
                s.append(signed_decimal_text(*index).as_str());
                s.append(" is out of range at offset ");
                s.append(decimal_text(*offset as u64).as_str());
                s
            },
            VmError::KeyError { offset } => joined(
                "key was not found at offset ",
                decimal_text(*offset as u64).as_str(),
            ),
            VmError::InvalidJumpTarget { offset, target } => {
                let mut s = "invalid jump target ".to_string();
                s.append(decimal_text(*target as u64).as_str());
                s.append(" from offset ");
                s.append(decimal_text(*offset as u64).as_str());
                s
            },
        }
    }
}

} // verus!
