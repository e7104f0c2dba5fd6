//! Error values reported by the loader, the wordcode decoder and the VM.
use vstd::prelude::*;

verus! {

/// Why a `.pyc` file or a marshal stream was rejected.
#[derive(Debug, Clone, PartialEq, Eq)]
pub enum ParseError {
    UnexpectedEof { offset: usize, needed: usize, remaining: usize },
    InvalidMagic { expected: [u8; 4], actual: [u8; 4] },
    InvalidHeaderFlags(u32),
    UnsupportedMarshalType { offset: usize, tag: u8 },
    InvalidReference { offset: usize, index: i32, count: usize },
    RecursiveReference { offset: usize, index: i32 },
    InvalidUtf8 { offset: usize },
    InvalidFloat { offset: usize },
    InvalidLength { offset: usize, length: i64 },
    ResourceLimit { offset: usize, what: &'static str, limit: usize },
    InvalidCodeField { field: &'static str, expected: &'static str },
    InvalidCodeObject(&'static str),
    RootIsNotCodeObject,
    TrailingBytes { offset: usize, remaining: usize },
}

/// The result of decoding wordcode.
pub type BytecodeResult<T> = core::result::Result<T, BytecodeError>;

/// Why a wordcode stream could not be decoded.
#[derive(Debug, Clone, Copy, PartialEq, Eq)]
pub enum BytecodeError {
    OddLength { length: usize },
    TruncatedInstruction { offset: usize },
    DanglingExtendedArg { offset: usize },
    ExtendedArgOverflow { offset: usize },
}

} // verus!

verus! {

/// The result of running VM code.
pub type VmResult<T> = core::result::Result<T, VmError>;

/// Why the VM stopped without a result.
#[derive(Debug, Clone, PartialEq, Eq)]
pub enum VmError {
    Bytecode(BytecodeError),
    UnsupportedOpcode { offset: usize, opcode: u8, filename: String },
    UnsupportedOperation { offset: usize, operation: String },
    InvalidArgument { offset: usize, opcode: u8, argument: u32, reason: String },
    StackUnderflow { offset: usize, opcode: u8 },
    MissingReturn { code_name: String },
    ConstantIndexOutOfBounds { offset: usize, index: u32 },
    NameIndexOutOfBounds { offset: usize, index: u32 },
    LocalIndexOutOfBounds { offset: usize, index: u32 },
    UnknownName { offset: usize, name: String },
    UnboundLocal { offset: usize, name: String },
    UnsupportedConstant { description: String },
    TypeError { offset: usize, operation: String, left: String, right: Option<String> },
    ValueError { offset: usize, operation: String },
    ZeroDivision { offset: usize },
    IntegerOverflow { offset: usize, operation: String },
    IndexError { offset: usize, index: i64 },
    KeyError { offset: usize },
    InvalidJumpTarget { offset: usize, target: usize },
}

/// The mathematical content of a VM error: its texts as character sequences.
pub enum VmFault {
    Bytecode(BytecodeError),
    UnsupportedOpcode { offset: usize, opcode: u8, filename: Seq<char> },
    UnsupportedOperation { offset: usize, operation: Seq<char> },
    InvalidArgument { offset: usize, opcode: u8, argument: u32, reason: Seq<char> },
    StackUnderflow { offset: usize, opcode: u8 },
    MissingReturn { code_name: Seq<char> },
    ConstantIndexOutOfBounds { offset: usize, index: u32 },
    NameIndexOutOfBounds { offset: usize, index: u32 },
    LocalIndexOutOfBounds { offset: usize, index: u32 },
    UnknownName { offset: usize, name: Seq<char> },
    UnboundLocal { offset: usize, name: Seq<char> },
    UnsupportedConstant { description: Seq<char> },
    TypeError { offset: usize, operation: Seq<char>, left: Seq<char>, right: Option<Seq<char>> },
    ValueError { offset: usize, operation: Seq<char> },
    ZeroDivision { offset: usize },
    IntegerOverflow { offset: usize, operation: Seq<char> },
    IndexError { offset: usize, index: i64 },
    KeyError { offset: usize },
    InvalidJumpTarget { offset: usize, target: usize },
}

/// The mathematical content of a VM error.
pub open spec fn fault_view(e: VmError) -> VmFault {
    match e {
        VmError::Bytecode(b) => VmFault::Bytecode(b),
        VmError::UnsupportedOpcode { offset, opcode, filename } => VmFault::UnsupportedOpcode {
            offset,
            opcode,
            filename: filename@,
        },
        VmError::UnsupportedOperation { offset, operation } => VmFault::UnsupportedOperation {
            offset,
            operation: operation@,
        },
        VmError::InvalidArgument { offset, opcode, argument, reason } => VmFault::InvalidArgument {
            offset,
            opcode,
            argument,
            reason: reason@,
        },
        VmError::StackUnderflow { offset, opcode } => VmFault::StackUnderflow { offset, opcode },
        VmError::MissingReturn { code_name } => VmFault::MissingReturn { code_name: code_name@ },
        VmError::ConstantIndexOutOfBounds { offset, index } => VmFault::ConstantIndexOutOfBounds {
            offset,
            index,
        },
        VmError::NameIndexOutOfBounds { offset, index } => VmFault::NameIndexOutOfBounds {
            offset,
            index,
        },
        VmError::LocalIndexOutOfBounds { offset, index } => VmFault::LocalIndexOutOfBounds {
            offset,
            index,
        },
        VmError::UnknownName { offset, name } => VmFault::UnknownName { offset, name: name@ },
        VmError::UnboundLocal { offset, name } => VmFault::UnboundLocal { offset, name: name@ },
        VmError::UnsupportedConstant { description } => VmFault::UnsupportedConstant {
            description: description@,
        },
        VmError::TypeError { offset, operation, left, right } => VmFault::TypeError {
            offset,
            operation: operation@,
            left: left@,
            right: match right {
                Some(r) => Some(r@),
                None => None,
            },
        },
        VmError::ValueError { offset, operation } => VmFault::ValueError {
            offset,
            operation: operation@,
        },
        VmError::ZeroDivision { offset } => VmFault::ZeroDivision { offset },
        VmError::IntegerOverflow { offset, operation } => VmFault::IntegerOverflow {
            offset,
            operation: operation@,
        },
        VmError::IndexError { offset, index } => VmFault::IndexError { offset, index },
        VmError::KeyError { offset } => VmFault::KeyError { offset },
        VmError::InvalidJumpTarget { offset, target } => VmFault::InvalidJumpTarget {
            offset,
            target,
        },
    }
}

impl From<BytecodeError> for VmError {
    fn from(error: BytecodeError) -> (r: Self)
        ensures
            r == VmError::Bytecode(error),
    {
        VmError::Bytecode(error)
    }
}

impl vstd::std_specs::convert::FromSpecImpl<BytecodeError> for VmError {
    open spec fn obeys_from_spec() -> bool {
        true
    }

    open spec fn from_spec(error: BytecodeError) -> Self {
        VmError::Bytecode(error)
    }
}

} // verus!
