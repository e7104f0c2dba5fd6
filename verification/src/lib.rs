//! A loader and bootstrap virtual machine for CPython 3.12 bytecode files.
//!
//! The crate reads `.pyc` headers, decodes the version-specific `marshal`
//! payload into an owned value tree, decodes the wordcode instruction
//! stream, and executes a small subset of CPython bytecode.
mod arith;
mod bytecode;
mod code;
mod decimal;
mod equality;
mod error;
mod float_text;
mod frame;
mod ieee;
mod marshal;
mod marshal_flag;
mod marshal_format;
mod marshal_reader;
mod message;
mod operators;
mod ops;
mod pyc;
mod render;
mod step;
mod text;
mod value;
mod vm;

pub use bytecode::{decode, decode_code, Instruction, Opcode, WORD_SIZE};
pub use code::CodeObject;
pub use error::{BytecodeError, BytecodeResult, ParseError, VmError, VmResult};
pub use float_text::check_float_text;
pub use frame::{Frame, Step};
pub use marshal::{MarshalFloat, MarshalLong, MarshalValue};
pub use marshal_format::MarshalLimits;
pub use marshal_reader::{parse_code_object, parse_marshal, parse_marshal_with_limits};
pub use ops::{FloatOperation, FloatRequest};
pub use pyc::{
    parse_header, parse_pyc, parse_pyc_with_limits, PycFile, PycHeader, PycValidation,
    PYTHON_3_12_MAGIC,
};
pub use render::{display_value, print_line_pieces, Piece};
pub use value::VmValue;
pub use vm::Vm;
