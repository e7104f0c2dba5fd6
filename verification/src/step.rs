//! What one instruction does to a frame and to the global namespace.
use crate::arith::{argument_fault, type_fault};
use crate::bytecode::{Instruction, Opcode, spec_raw};
use crate::code::SpecCode;
use crate::decimal::decimal;
use crate::error::VmFault;
use crate::ops::{
    FloatRequest, Produced, binary_overflows_division, binary_spec, compare_spec, extend_spec,
    invert_spec, load_subscript_spec, negative_spec, positive_spec, store_subscript_spec,
};
use crate::value::{Value, convert_constant, items_of, truthy, unique_values};
use crate::vm::{Globals, assign, lemma_assign_lookup, lookup, names_sorted, replace_equal};
use vstd::prelude::*;

verus! {

/// The mutable part of a frame: its value stack (top last), its local
/// slots, and the position of the next instruction in the decoded stream.
#[verifier::ext_equal]
pub struct FrameState {
    pub stack: Seq<Value>,
    pub locals: Seq<Option<Value>>,
    pub ip: int,
}

/// What a step asks of the host besides going on.
pub enum Event {
    Nothing,
    /// `print` was called with these arguments; the host writes them out.
    Print(Seq<Value>),
    /// The host computes this floating-point operation and pushes its result.
    Float(FloatRequest),
}

/// The result of one step.
pub enum Outcome {
    Next { frame: FrameState, globals: Globals, event: Event },
    Return(Value),
    Fail(VmFault),
}

/// The error for popping from a stack that holds too few values.
pub open spec fn underflow(ins: Instruction) -> VmFault {
    VmFault::StackUnderflow { offset: ins.offset, opcode: spec_raw(ins.opcode) }
}

/// The constant an instruction's argument selects, converted to a VM value.
pub open spec fn constant_spec(code: SpecCode, ins: Instruction) -> Result<Value, VmFault> {
    if ins.arg < code.constants.len() {
        convert_constant(code.constants[ins.arg as int])
    } else {
        Err(VmFault::ConstantIndexOutOfBounds { offset: ins.offset, index: ins.arg })
    }
}

/// The name at a position of the code object's name table.
pub open spec fn name_spec(code: SpecCode, ins: Instruction, index: u32) -> Result<Seq<char>, VmFault> {
    if index < code.names.len() {
        Ok(code.names[index as int])
    } else {
        Err(VmFault::NameIndexOutOfBounds { offset: ins.offset, index })
    }
}

/// The first position of an instruction that starts at `offset`.
pub open spec fn instruction_at(instructions: Seq<Instruction>, offset: int) -> Option<int> {
    if exists|i: int|
        0 <= i < instructions.len() && #[trigger] instructions[i].offset == offset && forall|j: int|
            0 <= j < i ==> #[trigger] instructions[j].offset != offset {
        Some(
            choose|i: int|
                0 <= i < instructions.len() && #[trigger] instructions[i].offset == offset
                    && forall|j: int| 0 <= j < i ==> #[trigger] instructions[j].offset != offset,
        )
    } else {
        None
    }
}

/// Where a jump lands: `2 * arg` bytes after (or before) the end of the
/// jumping instruction, which must be the start of an instruction.
pub open spec fn jump_spec(instructions: Seq<Instruction>, ins: Instruction, forward: bool) -> Result<
    int,
    VmFault,
> {
    let distance = 2 * ins.arg;
    let base = ins.offset + ins.size;
    if distance > usize::MAX {
        Err(argument_fault(ins, "jump distance overflow"@))
    } else if base > usize::MAX {
        Err(argument_fault(ins, "jump base overflow"@))
    } else {
        let target = if forward {
            base + distance
        } else {
            base - distance
        };
        if target < 0 || target > usize::MAX {
            Err(VmFault::InvalidJumpTarget { offset: ins.offset, target: usize::MAX })
        } else {
            match instruction_at(instructions, target) {
                Some(i) => Ok(i),
                None => Err(VmFault::InvalidJumpTarget { offset: ins.offset, target: target as usize }),
            }
        }
    }
}

/// The pairs of a `BUILD_MAP` from keys and values alternating on the stack.
pub open spec fn pairs_of(s: Seq<Value>, count: nat) -> Seq<(Value, Value)> {
    Seq::new(count, |i: int| (s[2 * i], s[2 * i + 1]))
}

/// Keys and values paired position by position.
pub open spec fn zip_values(keys: Seq<Value>, values: Seq<Value>) -> Seq<(Value, Value)> {
    Seq::new(keys.len(), |i: int| (keys[i], values[i]))
}

/// The frame moved on to the next instruction with a new stack.
pub open spec fn advance(f: FrameState, stack: Seq<Value>) -> FrameState {
    FrameState { stack, locals: f.locals, ip: f.ip + 1 }
}

/// Going on with a new stack and unchanged globals.
pub open spec fn go_on(f: FrameState, g: Globals, stack: Seq<Value>) -> Outcome {
    Outcome::Next { frame: advance(f, stack), globals: g, event: Event::Nothing }
}

/// Pushing the result of a value computation, or failing with its error.
pub open spec fn push_result(f: FrameState, g: Globals, rest: Seq<Value>, r: Result<Value, VmFault>) -> Outcome {
    match r {
        Ok(v) => go_on(f, g, rest.push(v)),
        Err(e) => Outcome::Fail(e),
    }
}

/// A unary operator on the top of the stack.
pub open spec fn unary_step(ins: Instruction, f: FrameState, g: Globals, op: spec_fn(Value) -> Result<
    Value,
    VmFault,
>) -> Outcome {
    let st = f.stack;
    if st.len() == 0 {
        Outcome::Fail(underflow(ins))
    } else {
        push_result(f, g, st.drop_last(), op(st.last()))
    }
}

/// The step of `BINARY_OP`.
pub open spec fn binary_step(ins: Instruction, f: FrameState, g: Globals) -> Outcome {
    let st = f.stack;
    let n = st.len();
    if n < 2 {
        Outcome::Fail(underflow(ins))
    } else {
        match binary_spec(ins, st[n - 2], st[n - 1]) {
            Ok(Produced::Value(v)) => go_on(f, g, st.take(n - 2).push(v)),
            Ok(Produced::Float(req)) => Outcome::Next {
                frame: advance(f, st.take(n - 2)),
                globals: g,
                event: Event::Float(req),
            },
            Err(e) => Outcome::Fail(e),
        }
    }
}

/// The step of `BUILD_TUPLE`, `BUILD_LIST` and `BUILD_SET`.
pub open spec fn build_step(ins: Instruction, f: FrameState, g: Globals) -> Outcome {
    let st = f.stack;
    let n = st.len();
    let k = ins.arg as int;
    if n < k {
        Outcome::Fail(underflow(ins))
    } else {
        let items = st.skip(n - k);
        let built = match ins.opcode {
            Opcode::BuildTuple => Value::Tuple(items),
            Opcode::BuildList => Value::List(items),
            _ => Value::PySet(unique_values(items)),
        };
        go_on(f, g, st.take(n - k).push(built))
    }
}

/// The step of `BUILD_MAP`: `arg` key/value pairs from the stack, in order.
pub open spec fn build_map_step(ins: Instruction, f: FrameState, g: Globals) -> Outcome {
    let st = f.stack;
    let n = st.len();
    let k = ins.arg as int;
    if n < 2 * k {
        Outcome::Fail(underflow(ins))
    } else {
        go_on(f, g, st.take(n - 2 * k).push(Value::Dict(pairs_of(st.skip(n - 2 * k), k as nat))))
    }
}

/// The step of `BUILD_CONST_KEY_MAP`: a tuple of `arg` keys on top of `arg` values.
pub open spec fn const_key_map_step(ins: Instruction, f: FrameState, g: Globals) -> Outcome {
    let st = f.stack;
    let k = ins.arg as int;
    if st.len() == 0 {
        Outcome::Fail(underflow(ins))
    } else {
        match st.last() {
            Value::Tuple(keys) => if keys.len() != k {
                Outcome::Fail(
                    argument_fault(
                        ins,
                        "expected "@ + decimal(k as nat) + " dictionary keys, got "@ + decimal(
                            keys.len(),
                        ),
                    ),
                )
            } else {
                let rest = st.drop_last();
                if rest.len() < k {
                    Outcome::Fail(underflow(ins))
                } else {
                    go_on(
                        f,
                        g,
                        rest.take(rest.len() - k).push(
                            Value::Dict(zip_values(keys, rest.skip(rest.len() - k))),
                        ),
                    )
                }
            },
            other => Outcome::Fail(type_fault(ins, "BUILD_CONST_KEY_MAP"@, other, None)),
        }
    }
}

/// The step of `LIST_EXTEND` and `SET_UPDATE`: the items of the top value
/// extend the list or set `arg` positions down.
pub open spec fn extend_step(ins: Instruction, f: FrameState, g: Globals, is_set: bool) -> Outcome {
    let st = f.stack;
    if st.len() == 0 {
        Outcome::Fail(underflow(ins))
    } else {
        let iterable = st.last();
        let rest = st.drop_last();
        match items_of(iterable) {
            None => Outcome::Fail(type_fault(ins, "iteration"@, iterable, None)),
            Some(items) => if ins.arg > rest.len() || ins.arg == 0 {
                Outcome::Fail(underflow(ins))
            } else {
                let position = rest.len() - ins.arg;
                match extend_spec(ins, rest[position], items, is_set) {
                    Ok(t) => go_on(f, g, rest.update(position, t)),
                    Err(e) => Outcome::Fail(e),
                }
            },
        }
    }
}

/// The step of `STORE_SUBSCR`: `container[index] = value` with the three
/// on the stack (value lowest); every global structurally equal to the
/// container before the store is replaced by the updated container.
pub open spec fn store_subscript_step(ins: Instruction, f: FrameState, g: Globals) -> Outcome {
    let st = f.stack;
    let n = st.len();
    if n < 3 {
        Outcome::Fail(underflow(ins))
    } else {
        let container = st[n - 2];
        match store_subscript_spec(ins, container, st[n - 1], st[n - 3]) {
            Ok(updated) => Outcome::Next {
                frame: advance(f, st.take(n - 3)),
                globals: replace_equal(g, container, updated),
                event: Event::Nothing,
            },
            Err(e) => Outcome::Fail(e),
        }
    }
}

/// A jump, or failing with its error.
pub open spec fn jump_step(instructions: Seq<Instruction>, ins: Instruction, f: FrameState, g: Globals, stack: Seq<Value>, forward: bool) -> Outcome {
    match jump_spec(instructions, ins, forward) {
        Ok(target) => Outcome::Next {
            frame: FrameState { stack, locals: f.locals, ip: target },
            globals: g,
            event: Event::Nothing,
        },
        Err(e) => Outcome::Fail(e),
    }
}

/// The step of `POP_JUMP_IF_FALSE` (`jump_if` false) and `POP_JUMP_IF_TRUE`.
pub open spec fn conditional_jump_step(instructions: Seq<Instruction>, ins: Instruction, f: FrameState, g: Globals, jump_if: bool) -> Outcome {
    let st = f.stack;
    if st.len() == 0 {
        Outcome::Fail(underflow(ins))
    } else if truthy(st.last()) == jump_if {
        jump_step(instructions, ins, f, g, st.drop_last(), true)
    } else {
        go_on(f, g, st.drop_last())
    }
}

/// The stack position `arg` places below the top, counting the top as 1.
pub open spec fn stack_position(ins: Instruction, n: int) -> Result<int, VmFault> {
    if ins.arg == 0 || ins.arg > n {
        Err(argument_fault(ins, "stack position is out of bounds"@))
    } else {
        Ok(n - ins.arg)
    }
}

/// The step of `CALL`: the arguments are the top `arg` values, the callable
/// lies below them, and a `None` below the callable is dropped too; only
/// `print` can be called, which prints its arguments and returns `None`.
pub open spec fn call_step(ins: Instruction, f: FrameState, g: Globals) -> Outcome {
    let st = f.stack;
    let n = st.len();
    let k = ins.arg as int;
    if n < k + 1 {
        Outcome::Fail(underflow(ins))
    } else {
        let args = st.skip(n - k);
        let callable = st[n - k - 1];
        let below = st.take(n - k - 1);
        let rest = if below.len() > 0 && below.last() is PyNone {
            below.drop_last()
        } else {
            below
        };
        match callable {
            Value::BuiltinPrint => Outcome::Next {
                frame: advance(f, rest.push(Value::PyNone)),
                globals: g,
                event: Event::Print(args),
            },
            other => Outcome::Fail(type_fault(ins, "call"@, other, None)),
        }
    }
}

/// What executing the instruction at `f.ip` does.
#[verifier::opaque]
pub open spec fn step_spec(code: SpecCode, instructions: Seq<Instruction>, f: FrameState, g: Globals) -> Outcome {
    if !(0 <= f.ip < instructions.len()) {
        Outcome::Fail(VmFault::MissingReturn { code_name: code.name })
    } else {
        let ins = instructions[f.ip];
        let st = f.stack;
        let n = st.len();
        match ins.opcode {
            Opcode::Cache | Opcode::Nop | Opcode::Resume | Opcode::ExtendedArg => go_on(f, g, st),
            Opcode::PushNull => go_on(f, g, st.push(Value::PyNone)),
            Opcode::PopTop => if n == 0 {
                Outcome::Fail(underflow(ins))
            } else {
                go_on(f, g, st.drop_last())
            },
            Opcode::LoadConst => push_result(f, g, st, constant_spec(code, ins)),
            Opcode::StoreName => match name_spec(code, ins, ins.arg) {
                Err(e) => Outcome::Fail(e),
                Ok(name) => if n == 0 {
                    Outcome::Fail(underflow(ins))
                } else {
                    Outcome::Next {
                        frame: advance(f, st.drop_last()),
                        globals: assign(g, name, st.last()),
                        event: Event::Nothing,
                    }
                },
            },
            Opcode::LoadName | Opcode::LoadGlobal => {
                let index = if ins.opcode is LoadName {
                    ins.arg
                } else {
                    ins.arg >> 1u32
                };
                match name_spec(code, ins, index) {
                    Err(e) => Outcome::Fail(e),
                    Ok(name) => match lookup(g, name) {
                        Some(v) => go_on(f, g, st.push(v)),
                        None => Outcome::Fail(VmFault::UnknownName { offset: ins.offset, name }),
                    },
                }
            },
            Opcode::StoreFast => if ins.arg >= code.localsplus_names.len() {
                Outcome::Fail(VmFault::LocalIndexOutOfBounds { offset: ins.offset, index: ins.arg })
            } else if n == 0 {
                Outcome::Fail(underflow(ins))
            } else {
                Outcome::Next {
                    frame: FrameState {
                        stack: st.drop_last(),
                        locals: f.locals.update(ins.arg as int, Some(st.last())),
                        ip: f.ip + 1,
                    },
                    globals: g,
                    event: Event::Nothing,
                }
            },
            Opcode::LoadFast => if ins.arg >= code.localsplus_names.len() {
                Outcome::Fail(VmFault::LocalIndexOutOfBounds { offset: ins.offset, index: ins.arg })
            } else {
                match f.locals[ins.arg as int] {
                    Some(v) => go_on(f, g, st.push(v)),
                    None => Outcome::Fail(
                        VmFault::UnboundLocal {
                            offset: ins.offset,
                            name: code.localsplus_names[ins.arg as int],
                        },
                    ),
                }
            },
            Opcode::UnaryNegative => unary_step(ins, f, g, |v: Value| negative_spec(ins, v)),
            Opcode::UnaryNot => unary_step(
                ins,
                f,
                g,
                |v: Value| Ok::<Value, VmFault>(Value::Bool(!truthy(v))),
            ),
            Opcode::UnaryInvert => unary_step(ins, f, g, |v: Value| invert_spec(ins, v)),
            Opcode::BinaryOp => binary_step(ins, f, g),
            Opcode::CompareOp => if n < 2 {
                Outcome::Fail(underflow(ins))
            } else {
                match compare_spec(ins, st[n - 2], st[n - 1]) {
                    Ok(b) => go_on(f, g, st.take(n - 2).push(Value::Bool(b))),
                    Err(e) => Outcome::Fail(e),
                }
            },
            Opcode::BuildTuple | Opcode::BuildList | Opcode::BuildSet => build_step(ins, f, g),
            Opcode::BuildMap => build_map_step(ins, f, g),
            Opcode::BuildConstKeyMap => const_key_map_step(ins, f, g),
            Opcode::ListExtend => extend_step(ins, f, g, false),
            Opcode::SetUpdate => extend_step(ins, f, g, true),
            Opcode::BinarySubscr => if n < 2 {
                Outcome::Fail(underflow(ins))
            } else {
                push_result(f, g, st.take(n - 2), load_subscript_spec(ins, st[n - 2], st[n - 1]))
            },
            Opcode::StoreSubscr => store_subscript_step(ins, f, g),
            Opcode::JumpForward => jump_step(instructions, ins, f, g, st, true),
            Opcode::JumpBackward | Opcode::JumpBackwardNoInterrupt => jump_step(
                instructions,
                ins,
                f,
                g,
                st,
                false,
            ),
            Opcode::PopJumpIfFalse => conditional_jump_step(instructions, ins, f, g, false),
            Opcode::PopJumpIfTrue => conditional_jump_step(instructions, ins, f, g, true),
            Opcode::ReturnConst => match constant_spec(code, ins) {
                Ok(v) => Outcome::Return(v),
                Err(e) => Outcome::Fail(e),
            },
            Opcode::ReturnValue => if n == 0 {
                Outcome::Fail(underflow(ins))
            } else {
                Outcome::Return(st.last())
            },
            Opcode::Copy => match stack_position(ins, n as int) {
                Ok(i) => go_on(f, g, st.push(st[i])),
                Err(e) => Outcome::Fail(e),
            },
            Opcode::Swap => match stack_position(ins, n as int) {
                Ok(i) => go_on(f, g, st.update(i, st[n - 1]).update(n - 1, st[i])),
                Err(e) => Outcome::Fail(e),
            },
            Opcode::CallIntrinsic1 => if ins.arg != 5 {
                Outcome::Fail(argument_fault(ins, "only INTRINSIC_UNARY_POSITIVE is supported"@))
            } else {
                unary_step(ins, f, g, |v: Value| positive_spec(ins, v))
            },
            Opcode::Call => call_step(ins, f, g),
            Opcode::ForIter | Opcode::MakeFunction => Outcome::Fail(
                VmFault::UnsupportedOpcode {
                    offset: ins.offset,
                    opcode: spec_raw(ins.opcode),
                    filename: code.filename,
                },
            ),
            Opcode::Unknown(byte) => Outcome::Fail(
                VmFault::UnsupportedOpcode { offset: ins.offset, opcode: byte, filename: code.filename },
            ),
        }
    }
}

/// The next instruction is a `BINARY_OP` whose integer division would
/// overflow (`i64::MIN // -1` or `i64::MIN % -1`): the one input on which
/// stepping does not return.
pub open spec fn step_panics(instructions: Seq<Instruction>, f: FrameState) -> bool {
    &&& 0 <= f.ip < instructions.len()
    &&& instructions[f.ip].opcode is BinaryOp
    &&& f.stack.len() >= 2
    &&& binary_overflows_division(
        instructions[f.ip],
        f.stack[f.stack.len() - 2],
        f.stack[f.stack.len() - 1],
    )
}

/// `STORE_NAME n` followed by `LOAD_NAME n`: the first binds the name to the
/// value on top of the stack, the second pushes that value back, so the
/// stack ends as it began and the name holds the value.
pub proof fn lemma_store_name_then_load_name(
    code: SpecCode,
    instructions: Seq<Instruction>,
    f: FrameState,
    g: Globals,
)
    requires
        0 <= f.ip,
        f.ip + 1 < instructions.len(),
        instructions[f.ip].opcode is StoreName,
        instructions[f.ip + 1].opcode is LoadName,
        instructions[f.ip + 1].arg == instructions[f.ip].arg,
        instructions[f.ip].arg < code.names.len(),
        f.stack.len() > 0,
        names_sorted(g),
    ensures
        ({
            let first = step_spec(code, instructions, f, g);
            let second = step_spec(code, instructions, first->frame, first->globals);
            &&& first is Next && first->event is Nothing
            &&& lookup(first->globals, code.names[instructions[f.ip].arg as int]) == Some(f.stack.last())
            &&& second is Next && second->event is Nothing
            &&& second->frame.stack == f.stack
            &&& second->frame.ip == f.ip + 2
            &&& second->globals == first->globals
        }),
{
    reveal(step_spec);
    let name = code.names[instructions[f.ip].arg as int];
    lemma_assign_lookup(g, name, f.stack.last(), name);
    let f1 = advance(f, f.stack.drop_last());
    assert(f1.stack.push(f.stack.last()) =~= f.stack);
}

/// `STORE_FAST n` followed by `LOAD_FAST n`: the first moves the value on
/// top of the stack into local slot `n`, the second pushes it back, so the
/// stack ends as it began and the slot holds the value.
pub proof fn lemma_store_fast_then_load_fast(
    code: SpecCode,
    instructions: Seq<Instruction>,
    f: FrameState,
    g: Globals,
)
    requires
        0 <= f.ip,
        f.ip + 1 < instructions.len(),
        instructions[f.ip].opcode is StoreFast,
        instructions[f.ip + 1].opcode is LoadFast,
        instructions[f.ip + 1].arg == instructions[f.ip].arg,
        instructions[f.ip].arg < code.localsplus_names.len(),
        f.locals.len() == code.localsplus_names.len(),
        f.stack.len() > 0,
    ensures
        ({
            let first = step_spec(code, instructions, f, g);
            let second = step_spec(code, instructions, first->frame, first->globals);
            &&& first is Next && first->event is Nothing
            &&& first->frame.locals[instructions[f.ip].arg as int] == Some(f.stack.last())
            &&& first->globals == g
            &&& second is Next && second->event is Nothing
            &&& second->frame.stack == f.stack
            &&& second->frame.ip == f.ip + 2
            &&& second->globals == g
        }),
{
    reveal(step_spec);
    let f1 = FrameState {
        stack: f.stack.drop_last(),
        locals: f.locals.update(instructions[f.ip].arg as int, Some(f.stack.last())),
        ip: f.ip + 1,
    };
    assert(f1.stack.push(f.stack.last()) =~= f.stack);
}

} // verus!

verus! {

/// `POP_JUMP_IF_TRUE` and `POP_JUMP_IF_FALSE` pop the top of the stack and
/// jump exactly when its truth is the one the opcode names. A jump goes to
/// the instruction that starts `2 * arg` bytes after the end of the jumping
/// instruction, and happens whenever such an instruction exists; otherwise
/// execution goes on with the next instruction. Locals and globals stay as
/// they were.
pub proof fn lemma_conditional_jump(
    code: SpecCode,
    instructions: Seq<Instruction>,
    f: FrameState,
    g: Globals,
)
    requires
        0 <= f.ip < instructions.len(),
        instructions[f.ip].opcode is PopJumpIfTrue || instructions[f.ip].opcode is PopJumpIfFalse,
        f.stack.len() > 0,
    ensures
        ({
            let ins = instructions[f.ip];
            let jumps = truthy(f.stack.last()) == (ins.opcode is PopJumpIfTrue);
            let target = ins.offset + ins.size + 2 * ins.arg;
            &&& !jumps ==> step_spec(code, instructions, f, g) == (Outcome::Next {
                frame: FrameState { stack: f.stack.drop_last(), locals: f.locals, ip: f.ip + 1 },
                globals: g,
                event: Event::Nothing,
            })
            &&& jumps ==> (step_spec(code, instructions, f, g) matches Outcome::Next {
                frame,
                globals,
                event,
            } ==> {
                &&& 0 <= frame.ip < instructions.len()
                &&& instructions[frame.ip].offset == target
                &&& frame.stack == f.stack.drop_last()
                &&& frame.locals == f.locals
                &&& globals == g
                &&& event == Event::Nothing
            })
            &&& (jumps && exists|i: int|
                0 <= i < instructions.len() && #[trigger] instructions[i].offset == target)
                ==> step_spec(code, instructions, f, g) is Next
        }),
{
    reveal(step_spec);
    let ins = instructions[f.ip];
    let target = ins.offset + ins.size + 2 * ins.arg;
    if exists|i: int| 0 <= i < instructions.len() && #[trigger] instructions[i].offset == target {
        let i = choose|i: int| 0 <= i < instructions.len() && #[trigger] instructions[i].offset == target;
        lemma_first_instruction_at(instructions, target, i);
    }
}

/// An offset that some instruction starts at is found by `instruction_at`.
proof fn lemma_first_instruction_at(instructions: Seq<Instruction>, offset: int, i: int)
    requires
        0 <= i < instructions.len(),
        instructions[i].offset == offset,
    ensures
        instruction_at(instructions, offset) is Some,
    decreases i,
{
    if exists|j: int| 0 <= j < i && #[trigger] instructions[j].offset == offset {
        let j = choose|j: int| 0 <= j < i && #[trigger] instructions[j].offset == offset;
        lemma_first_instruction_at(instructions, offset, j);
    }
}

} // verus!
