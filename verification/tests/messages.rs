use rython::{BytecodeError, ParseError, VmError, PYTHON_3_12_MAGIC};

#[test]
fn parse_errors_read_as_sentences() {
    assert_eq!(
        ParseError::UnexpectedEof {
            offset: 16,
            needed: 4,
            remaining: 1
        }
        .message(),
        "unexpected end of input at offset 16: needed 4 bytes, found 1"
    );
    assert_eq!(
        ParseError::InvalidMagic {
            expected: PYTHON_3_12_MAGIC,
            actual: [0, 1, 0xab, 255]
        }
        .message(),
        "invalid .pyc magic: expected [cb, 0d, 0d, 0a], got [00, 01, ab, ff]"
    );
    assert_eq!(
        ParseError::InvalidHeaderFlags(3).message(),
        "invalid .pyc header flags: 0x00000003"
    );
    assert_eq!(
        ParseError::UnsupportedMarshalType { offset: 7, tag: 0x3f }.message(),
        "unsupported marshal type 0x3f at offset 7"
    );
    assert_eq!(
        ParseError::InvalidReference {
            offset: 2,
            index: -1,
            count: 0
        }
        .message(),
        "invalid marshal reference -1 at offset 2; reference table has 0 entries"
    );
    assert_eq!(
        ParseError::InvalidLength {
            offset: 1,
            length: -5
        }
        .message(),
        "invalid length -5 at offset 1"
    );
    assert_eq!(
        ParseError::ResourceLimit {
            offset: 0,
            what: "nesting depth",
            limit: 256
        }
        .message(),
        "marshal nesting depth exceeds the limit 256 at offset 0"
    );
    assert_eq!(
        ParseError::RootIsNotCodeObject.message(),
        "marshal root is not a code object"
    );
    assert_eq!(
        ParseError::TrailingBytes {
            offset: 9,
            remaining: 2
        }
        .message(),
        "trailing bytes after marshal root at offset 9: 2 bytes"
    );
}

#[test]
fn bytecode_errors_read_as_sentences() {
    assert_eq!(
        BytecodeError::OddLength { length: 3 }.message(),
        "Python 3.12 bytecode has odd length 3"
    );
    assert_eq!(
        BytecodeError::DanglingExtendedArg { offset: 10 }.message(),
        "EXTENDED_ARG at offset 10 has no following instruction"
    );
    assert_eq!(
        VmError::Bytecode(BytecodeError::OddLength { length: 1 }).message(),
        "Python 3.12 bytecode has odd length 1"
    );
}

#[test]
fn vm_errors_read_as_sentences() {
    assert_eq!(
        VmError::UnsupportedOpcode {
            offset: 4,
            opcode: 0x84,
            filename: "<stdin>".to_string()
        }
        .message(),
        "unsupported opcode 0x84 at offset 4 in <stdin>"
    );
    assert_eq!(
        VmError::InvalidArgument {
            offset: 6,
            opcode: 0x9c,
            argument: 2,
            reason: "expected 2 dictionary keys, got 1".to_string()
        }
        .message(),
        "invalid argument 2 for opcode 0x9c at offset 6: expected 2 dictionary keys, got 1"
    );
    assert_eq!(
        VmError::StackUnderflow {
            offset: 0,
            opcode: 1
        }
        .message(),
        "stack underflow for opcode 0x01 at offset 0"
    );
    assert_eq!(
        VmError::MissingReturn {
            code_name: "<module>".to_string()
        }
        .message(),
        "code object \"<module>\" reached end without returning"
    );
    assert_eq!(
        VmError::UnknownName {
            offset: 2,
            name: "x\ty".to_string()
        }
        .message(),
        "name \"x\\ty\" is not defined at offset 2"
    );
    assert_eq!(
        VmError::TypeError {
            offset: 8,
            operation: "+".to_string(),
            left: "str".to_string(),
            right: Some("int".to_string())
        }
        .message(),
        "unsupported operand types for +: str and int at offset 8"
    );
    assert_eq!(
        VmError::TypeError {
            offset: 8,
            operation: "unary -".to_string(),
            left: "str".to_string(),
            right: None
        }
        .message(),
        "unsupported operand type for unary -: str at offset 8"
    );
    assert_eq!(
        VmError::IndexError {
            offset: 3,
            index: i64::MIN
        }
        .message(),
        "index -9223372036854775808 is out of range at offset 3"
    );
    assert_eq!(
        VmError::InvalidJumpTarget {
            offset: 0,
            target: 20
        }
        .message(),
        "invalid jump target 20 from offset 0"
    );
    assert_eq!(
        VmError::UnsupportedConstant {
            description: "complex".to_string()
        }
        .message(),
        "unsupported Python constant: complex"
    );
}
