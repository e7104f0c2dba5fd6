//! CPython 3.12 opcodes and the wordcode decoder.
use crate::code::CodeObject;
use crate::error::BytecodeError;
use vstd::prelude::*;

verus! {

/// Every CPython 3.12 instruction is one opcode byte followed by one argument byte.
pub const WORD_SIZE: usize = 2;

/// The opcode byte of `EXTENDED_ARG`, whose argument prefixes the next instruction's.
pub const EXTENDED_ARG: u8 = 144;

/// The opcodes this crate knows by name; any other byte is kept as `Unknown`.
#[derive(Debug, Clone, Copy, PartialEq, Eq, Structural)]
pub enum Opcode {
    Cache,
    PopTop,
    PushNull,
    Nop,
    UnaryNegative,
    UnaryNot,
    UnaryInvert,
    BinarySubscr,
    StoreSubscr,
    ForIter,
    ReturnValue,
    StoreName,
    Swap,
    LoadConst,
    LoadName,
    BuildTuple,
    BuildList,
    BuildSet,
    BuildMap,
    CompareOp,
    JumpForward,
    PopJumpIfFalse,
    PopJumpIfTrue,
    LoadGlobal,
    Copy,
    ReturnConst,
    BinaryOp,
    LoadFast,
    StoreFast,
    JumpBackwardNoInterrupt,
    JumpBackward,
    ExtendedArg,
    Resume,
    BuildConstKeyMap,
    ListExtend,
    SetUpdate,
    Call,
    CallIntrinsic1,
    MakeFunction,
    Unknown(u8),
}

/// The CPython 3.12 opcode table: the named opcode for a byte, if it has one.
#[verifier::opaque]
pub open spec fn named_opcode(byte: u8) -> Option<Opcode> {
    match byte {
        0 => Some(Opcode::Cache),
        1 => Some(Opcode::PopTop),
        2 => Some(Opcode::PushNull),
        9 => Some(Opcode::Nop),
        11 => Some(Opcode::UnaryNegative),
        12 => Some(Opcode::UnaryNot),
        15 => Some(Opcode::UnaryInvert),
        25 => Some(Opcode::BinarySubscr),
        60 => Some(Opcode::StoreSubscr),
        93 => Some(Opcode::ForIter),
        83 => Some(Opcode::ReturnValue),
        90 => Some(Opcode::StoreName),
        99 => Some(Opcode::Swap),
        100 => Some(Opcode::LoadConst),
        101 => Some(Opcode::LoadName),
        102 => Some(Opcode::BuildTuple),
        103 => Some(Opcode::BuildList),
        104 => Some(Opcode::BuildSet),
        105 => Some(Opcode::BuildMap),
        107 => Some(Opcode::CompareOp),
        110 => Some(Opcode::JumpForward),
        114 => Some(Opcode::PopJumpIfFalse),
        115 => Some(Opcode::PopJumpIfTrue),
        116 => Some(Opcode::LoadGlobal),
        120 => Some(Opcode::Copy),
        121 => Some(Opcode::ReturnConst),
        122 => Some(Opcode::BinaryOp),
        124 => Some(Opcode::LoadFast),
        125 => Some(Opcode::StoreFast),
        134 => Some(Opcode::JumpBackwardNoInterrupt),
        140 => Some(Opcode::JumpBackward),
        144 => Some(Opcode::ExtendedArg),
        151 => Some(Opcode::Resume),
        156 => Some(Opcode::BuildConstKeyMap),
        162 => Some(Opcode::ListExtend),
        163 => Some(Opcode::SetUpdate),
        171 => Some(Opcode::Call),
        173 => Some(Opcode::CallIntrinsic1),
        132 => Some(Opcode::MakeFunction),
        _ => None,
    }
}

/// The opcode that a byte denotes: its named opcode, or `Unknown` holding the byte.
pub open spec fn spec_from_byte(byte: u8) -> Opcode {
    match named_opcode(byte) {
        Some(op) => op,
        None => Opcode::Unknown(byte),
    }
}

/// The byte that an opcode is written as.
pub open spec fn spec_raw(op: Opcode) -> u8 {
    match op {
        Opcode::Cache => 0,
        Opcode::PopTop => 1,
        Opcode::PushNull => 2,
        Opcode::Nop => 9,
        Opcode::UnaryNegative => 11,
        Opcode::UnaryNot => 12,
        Opcode::UnaryInvert => 15,
        Opcode::BinarySubscr => 25,
        Opcode::StoreSubscr => 60,
        Opcode::ForIter => 93,
        Opcode::ReturnValue => 83,
        Opcode::StoreName => 90,
        Opcode::Swap => 99,
        Opcode::LoadConst => 100,
        Opcode::LoadName => 101,
        Opcode::BuildTuple => 102,
        Opcode::BuildList => 103,
        Opcode::BuildSet => 104,
        Opcode::BuildMap => 105,
        Opcode::CompareOp => 107,
        Opcode::JumpForward => 110,
        Opcode::PopJumpIfFalse => 114,
        Opcode::PopJumpIfTrue => 115,
        Opcode::LoadGlobal => 116,
        Opcode::Copy => 120,
        Opcode::ReturnConst => 121,
        Opcode::BinaryOp => 122,
        Opcode::LoadFast => 124,
        Opcode::StoreFast => 125,
        Opcode::JumpBackwardNoInterrupt => 134,
        Opcode::JumpBackward => 140,
        Opcode::ExtendedArg => 144,
        Opcode::Resume => 151,
        Opcode::BuildConstKeyMap => 156,
        Opcode::ListExtend => 162,
        Opcode::SetUpdate => 163,
        Opcode::Call => 171,
        Opcode::CallIntrinsic1 => 173,
        Opcode::MakeFunction => 132,
        Opcode::Unknown(byte) => byte,
    }
}

impl Opcode {
    /// Decodes an opcode byte.
    pub fn from_byte(opcode: u8) -> (op: Self)
        ensures
            op == spec_from_byte(opcode),
    {
        proof {
            reveal(named_opcode);
        }
        match opcode {
            0 => Self::Cache,
            1 => Self::PopTop,
            2 => Self::PushNull,
            9 => Self::Nop,
            11 => Self::UnaryNegative,
            12 => Self::UnaryNot,
            15 => Self::UnaryInvert,
            25 => Self::BinarySubscr,
            60 => Self::StoreSubscr,
            93 => Self::ForIter,
            83 => Self::ReturnValue,
            90 => Self::StoreName,
            99 => Self::Swap,
            100 => Self::LoadConst,
            101 => Self::LoadName,
            102 => Self::BuildTuple,
            103 => Self::BuildList,
            104 => Self::BuildSet,
            105 => Self::BuildMap,
            107 => Self::CompareOp,
            110 => Self::JumpForward,
            114 => Self::PopJumpIfFalse,
            115 => Self::PopJumpIfTrue,
            116 => Self::LoadGlobal,
            120 => Self::Copy,
            121 => Self::ReturnConst,
            122 => Self::BinaryOp,
            124 => Self::LoadFast,
            125 => Self::StoreFast,
            134 => Self::JumpBackwardNoInterrupt,
            140 => Self::JumpBackward,
            144 => Self::ExtendedArg,
            151 => Self::Resume,
            156 => Self::BuildConstKeyMap,
            162 => Self::ListExtend,
            163 => Self::SetUpdate,
            171 => Self::Call,
            173 => Self::CallIntrinsic1,
            132 => Self::MakeFunction,
            _ => Self::Unknown(opcode),
        }
    }

    /// The byte this opcode is written as.
    pub fn raw(self) -> (byte: u8)
        ensures
            byte == spec_raw(self),
    {
        match self {
            Self::Cache => 0,
            Self::PopTop => 1,
            Self::PushNull => 2,
            Self::Nop => 9,
            Self::UnaryNegative => 11,
            Self::UnaryNot => 12,
            Self::UnaryInvert => 15,
            Self::BinarySubscr => 25,
            Self::StoreSubscr => 60,
            Self::ForIter => 93,
            Self::ReturnValue => 83,
            Self::StoreName => 90,
            Self::Swap => 99,
            Self::LoadConst => 100,
            Self::LoadName => 101,
            Self::BuildTuple => 102,
            Self::BuildList => 103,
            Self::BuildSet => 104,
            Self::BuildMap => 105,
            Self::CompareOp => 107,
            Self::JumpForward => 110,
            Self::PopJumpIfFalse => 114,
            Self::PopJumpIfTrue => 115,
            Self::LoadGlobal => 116,
            Self::Copy => 120,
            Self::ReturnConst => 121,
            Self::BinaryOp => 122,
            Self::LoadFast => 124,
            Self::StoreFast => 125,
            Self::JumpBackwardNoInterrupt => 134,
            Self::JumpBackward => 140,
            Self::ExtendedArg => 144,
            Self::Resume => 151,
            Self::BuildConstKeyMap => 156,
            Self::ListExtend => 162,
            Self::SetUpdate => 163,
            Self::Call => 171,
            Self::CallIntrinsic1 => 173,
            Self::MakeFunction => 132,
            Self::Unknown(opcode) => opcode,
        }
    }
}

/// Decoding a byte and writing the opcode back gives the same byte.
pub proof fn lemma_raw_from_byte(byte: u8)
    ensures
        spec_raw(spec_from_byte(byte)) == byte,
{
    reveal(named_opcode);
}

/// Only the `EXTENDED_ARG` byte decodes to the `ExtendedArg` opcode.
pub proof fn lemma_extended_arg_byte(byte: u8)
    ensures
        (spec_from_byte(byte) == Opcode::ExtendedArg) <==> byte == EXTENDED_ARG,
{
    reveal(named_opcode);
}

/// Writing a named opcode and decoding the byte gives the same opcode; an
/// `Unknown` opcode comes back unchanged exactly when its byte has no name.
pub proof fn lemma_from_byte_raw(op: Opcode)
    ensures
        !(op is Unknown) ==> spec_from_byte(spec_raw(op)) == op,
        op is Unknown ==> (spec_from_byte(spec_raw(op)) == op <==> named_opcode(
            spec_raw(op),
        ) is None),
{
    reveal(named_opcode);
}

/// One decoded instruction: where it starts (including any `EXTENDED_ARG`
/// prefixes), its opcode, its full argument and how many bytes it spans.
#[derive(Debug, Clone, Copy, PartialEq, Eq, Structural)]
pub struct Instruction {
    pub offset: usize,
    pub opcode: Opcode,
    pub arg: u32,
    pub size: usize,
}

impl Instruction {
    /// The opcode byte of this instruction.
    pub fn raw_opcode(self) -> (byte: u8)
        ensures
            byte == spec_raw(self.opcode),
    {
        self.opcode.raw()
    }
}

/// The argument after folding one more argument byte behind the pending
/// `EXTENDED_ARG` prefix: the prefix moves up one byte, and bits shifted out
/// of the 32-bit argument are dropped.
pub open spec fn fold_arg(prefix: u32, byte: u8) -> u32 {
    ((prefix % 0x100_0000) * 0x100 + byte) as u32
}

/// The instructions of `bytes[pos..]`, where `prefix` is the argument built by
/// the `EXTENDED_ARG` words since `start` (`None` when there are none).
pub open spec fn decode_from(bytes: Seq<u8>, pos: int, prefix: u32, start: Option<int>) -> Result<
    Seq<Instruction>,
    BytecodeError,
>
    decreases bytes.len() - pos,
{
    if pos < 0 || pos + 2 > bytes.len() {
        match start {
            Some(s) => Err(BytecodeError::DanglingExtendedArg { offset: s as usize }),
            None => Ok(Seq::empty()),
        }
    } else {
        let opcode = bytes[pos];
        let arg = fold_arg(prefix, bytes[pos + 1]);
        let first = match start {
            Some(s) => s,
            None => pos,
        };
        if opcode == EXTENDED_ARG {
            decode_from(bytes, pos + 2, arg, Some(first))
        } else {
            match decode_from(bytes, pos + 2, 0, None) {
                Ok(rest) => Ok(
                    seq![
                        Instruction {
                            offset: first as usize,
                            opcode: spec_from_byte(opcode),
                            arg,
                            size: (pos + 2 - first) as usize,
                        },
                    ] + rest,
                ),
                Err(e) => Err(e),
            }
        }
    }
}

/// The instructions of a CPython 3.12 wordcode stream.
pub open spec fn spec_decode(bytes: Seq<u8>) -> Result<Seq<Instruction>, BytecodeError> {
    if bytes.len() % 2 != 0 {
        Err(BytecodeError::OddLength { length: bytes.len() as usize })
    } else {
        decode_from(bytes, 0, 0, None)
    }
}

/// Decodes a CPython 3.12 wordcode stream, folding `EXTENDED_ARG` prefixes
/// into the instruction that follows them.
pub fn decode(bytecode: &[u8]) -> (res: Result<Vec<Instruction>, BytecodeError>)
    ensures
        match res {
            Ok(instructions) => spec_decode(bytecode@) == Ok::<
                Seq<Instruction>,
                BytecodeError,
            >(instructions@),
            Err(e) => spec_decode(bytecode@) == Err::<Seq<Instruction>, BytecodeError>(e),
        },
{
    let length = bytecode.len();
    if length % WORD_SIZE != 0 {
        return Err(BytecodeError::OddLength { length });
    }
    let mut instructions: Vec<Instruction> = Vec::new();
    let mut offset: usize = 0;
    let mut extended_arg: u32 = 0;
    let mut extended_offset: Option<usize> = None;

    while offset < length
        invariant
            length == bytecode@.len(),
            length % 2 == 0,
            offset % 2 == 0,
            offset <= length,
            extended_offset matches Some(s) ==> s < offset,
            extended_offset is None ==> extended_arg == 0,
            decode_from(bytecode@, 0, 0, None) == match decode_from(
                bytecode@,
                offset as int,
                extended_arg,
                match extended_offset {
                    Some(s) => Some(s as int),
                    None => None,
                },
            ) {
                Ok(rest) => Ok(instructions@ + rest),
                Err(e) => Err(e),
            },
        decreases length - offset,
    {
        let instruction_offset = offset;
        let opcode = bytecode[offset];
        let argument = bytecode[offset + 1];
        offset += WORD_SIZE;
        let full_argument: u32 = (extended_arg % 0x100_0000) * 0x100 + argument as u32;
        let start = match extended_offset {
            Some(s) => s,
            None => instruction_offset,
        };
        if opcode == EXTENDED_ARG {
            extended_arg = full_argument;
            extended_offset = Some(start);
        } else {
            let instruction = Instruction {
                offset: start,
                opcode: Opcode::from_byte(opcode),
                arg: full_argument,
                size: offset - start,
            };
            let ghost before = instructions@;
            instructions.push(instruction);
            assert(instructions@ == before + seq![instruction]);
            proof {
                assert forall|rest: Seq<Instruction>|
                    #![auto]
                    before + (seq![instruction] + rest) == instructions@ + rest by {
                    assert(before + (seq![instruction] + rest) =~= (before + seq![instruction])
                        + rest);
                }
            }
            extended_arg = 0;
            extended_offset = None;
        }
    }

    if let Some(start) = extended_offset {
        return Err(BytecodeError::DanglingExtendedArg { offset: start });
    }
    proof {
        assert(instructions@ + Seq::<Instruction>::empty() =~= instructions@);
    }
    Ok(instructions)
}


/// Decodes the wordcode of a code object.
pub fn decode_code(code: &CodeObject) -> (res: Result<Vec<Instruction>, BytecodeError>)
    ensures
        match res {
            Ok(instructions) => spec_decode(code.bytecode@) == Ok::<
                Seq<Instruction>,
                BytecodeError,
            >(instructions@),
            Err(e) => spec_decode(code.bytecode@) == Err::<Seq<Instruction>, BytecodeError>(e),
        },
{
    decode(code.bytecode.as_slice())
}

/// Every byte of `bytes[from..to)` at an even distance from `from` is the
/// `EXTENDED_ARG` opcode.
pub open spec fn prefix_words(bytes: Seq<u8>, from: int, to: int) -> bool {
    forall|k: int| from <= k < to && (k - from) % 2 == 0 ==> #[trigger] bytes[k] == EXTENDED_ARG
}

/// The shape of a decoded stream: the instructions cover `bytes[from..]`
/// back to back, each spanning whole words that end with its own opcode and
/// argument byte and begin with its `EXTENDED_ARG` prefixes.
#[verifier::opaque]
pub open spec fn well_laid_out(bytes: Seq<u8>, ins: Seq<Instruction>, from: int) -> bool {
    &&& ins.len() == 0 ==> from == bytes.len()
    &&& ins.len() > 0 ==> ins[0].offset == from && ins.last().offset + ins.last().size
        == bytes.len()
    &&& forall|i: int|
        0 < i < ins.len() ==> #[trigger] ins[i].offset == ins[i - 1].offset + ins[i - 1].size
    &&& forall|i: int|
        0 <= i < ins.len() ==> {
            let inst = #[trigger] ins[i];
            &&& inst.size >= 2
            &&& inst.size % 2 == 0
            &&& inst.offset + inst.size <= bytes.len()
            &&& inst.opcode == spec_from_byte(bytes[inst.offset + inst.size - 2])
            &&& inst.opcode != Opcode::ExtendedArg
            &&& prefix_words(bytes, inst.offset as int, inst.offset + inst.size - 2)
            &&& inst.size == 2 ==> inst.arg == bytes[inst.offset + 1]
        }
}

proof fn lemma_decode_from_layout(bytes: Seq<u8>, pos: int, prefix: u32, start: Option<int>)
    requires
        0 <= pos <= bytes.len(),
        bytes.len() % 2 == 0,
        bytes.len() <= usize::MAX,
        pos % 2 == 0,
        start matches Some(s) ==> 0 <= s < pos && s % 2 == 0 && prefix_words(bytes, s, pos),
        start is None ==> prefix == 0,
    ensures
        decode_from(bytes, pos, prefix, start) matches Ok(ins) ==> well_laid_out(
            bytes,
            ins,
            match start {
                Some(s) => s,
                None => pos,
            },
        ),
    decreases bytes.len() - pos,
{
    if pos + 2 > bytes.len() {
        reveal(well_laid_out);
    } else {
        let opcode = bytes[pos];
        let arg = fold_arg(prefix, bytes[pos + 1]);
        let first = match start {
            Some(s) => s,
            None => pos,
        };
        if opcode == EXTENDED_ARG {
            assert(prefix_words(bytes, first, pos + 2)) by {
                assert forall|k: int|
                    first <= k < pos + 2 && (k - first) % 2 == 0 implies #[trigger] bytes[k]
                    == EXTENDED_ARG by {
                    if k < pos {
                        assert(start is Some);
                    }
                }
            }
            lemma_decode_from_layout(bytes, pos + 2, arg, Some(first));
        } else {
            lemma_decode_from_layout(bytes, pos + 2, 0, None);
            if let Ok(rest) = decode_from(bytes, pos + 2, 0, None) {
                let head = Instruction {
                    offset: first as usize,
                    opcode: spec_from_byte(opcode),
                    arg,
                    size: (pos + 2 - first) as usize,
                };
                lemma_extended_arg_byte(opcode);
                assert(head.size == 2 ==> head.arg == bytes[pos + 1]) by {
                    if head.size == 2 {
                        assert(start is None);
                    }
                }
                lemma_layout_cons(bytes, head, rest);
            }
        }
    }
}

proof fn lemma_layout_cons(bytes: Seq<u8>, head: Instruction, rest: Seq<Instruction>)
    requires
        well_laid_out(bytes, rest, head.offset + head.size),
        head.size >= 2,
        head.size % 2 == 0,
        head.offset + head.size <= bytes.len(),
        head.opcode == spec_from_byte(bytes[head.offset + head.size - 2]),
        head.opcode != Opcode::ExtendedArg,
        prefix_words(bytes, head.offset as int, head.offset + head.size - 2),
        head.size == 2 ==> head.arg == bytes[head.offset + 1],
    ensures
        well_laid_out(bytes, seq![head] + rest, head.offset as int),
{
    reveal(well_laid_out);
    let ins = seq![head] + rest;
    assert(ins[0] == head);
    assert forall|i: int| 0 < i < ins.len() implies #[trigger] ins[i] == rest[i - 1] by {}
    assert forall|i: int| 0 < i < ins.len() implies #[trigger] ins[i].offset == ins[i - 1].offset
        + ins[i - 1].size by {
        assert(ins[i] == rest[i - 1]);
        if i > 1 {
            assert(ins[i - 1] == rest[i - 2]);
        }
    }
    if rest.len() > 0 {
        assert(ins.last() == rest.last());
    }
}

/// The layout law of the decoder: a decoded stream covers the whole input
/// back to back from offset 0, each instruction spans whole words ending with
/// its own opcode and argument byte, `EXTENDED_ARG` words are folded into the
/// instruction after them and never appear on their own, and an instruction
/// without prefixes carries its argument byte unchanged.
pub proof fn lemma_decode_layout(bytes: Seq<u8>)
    requires
        bytes.len() <= usize::MAX,
    ensures
        spec_decode(bytes) matches Ok(ins) ==> well_laid_out(bytes, ins, 0),
        spec_decode(bytes) is Err <==> bytes.len() % 2 != 0 || spec_decode(bytes) matches Err(
            BytecodeError::DanglingExtendedArg { .. },
        ),
{
    if bytes.len() % 2 == 0 {
        lemma_decode_from_layout(bytes, 0, 0, None);
        lemma_decode_from_errors(bytes, 0, 0, None);
    }
}

proof fn lemma_decode_from_errors(bytes: Seq<u8>, pos: int, prefix: u32, start: Option<int>)
    ensures
        decode_from(bytes, pos, prefix, start) is Err ==> decode_from(
            bytes,
            pos,
            prefix,
            start,
        ) matches Err(BytecodeError::DanglingExtendedArg { .. }),
    decreases bytes.len() - pos,
{
    if pos >= 0 && pos + 2 <= bytes.len() {
        let arg = fold_arg(prefix, bytes[pos + 1]);
        let first = match start {
            Some(s) => s,
            None => pos,
        };
        lemma_decode_from_errors(bytes, pos + 2, arg, Some(first));
        lemma_decode_from_errors(bytes, pos + 2, 0, None);
    }
}

} // verus!
