//! A running code object: its decoded instructions, value stack and local
//! slots, stepped one instruction at a time.
use crate::arith::{invalid_argument, type_error};
use crate::bytecode::{Instruction, Opcode, decode_code, spec_decode};
use crate::code::{CodeObject, SpecCode, code_view};
use crate::decimal::{decimal, decimal_text};
use crate::error::{VmError, VmFault, fault_view};
use crate::operators::{
    Computed, binary_op, compare_op, extend_target, load_subscript, store_subscript, unary_invert,
    unary_negative, unary_positive,
};
use crate::ops::FloatRequest;
use crate::step::{
    Event, FrameState, Outcome, advance, constant_spec, instruction_at, jump_spec, name_spec,
    pairs_of, step_panics, step_spec, underflow, zip_values,
};
use crate::value::{
    Value, VmValue, clone_vm, lemma_vm_values_view, lemma_vm_values_view_push, unique,
    value_result_is, vm_values_view, vm_view,
};
use crate::vm::{Globals, Vm};
use vstd::prelude::*;
use vstd::string::StringExecFns;

verus! {

broadcast use vstd::string::to_string_from_display_ensures_for_str;

/// What a step asks of the host.
pub enum Step {
    /// Nothing: step again.
    Continue,
    /// The code object returned this value.
    Return(VmValue),
    /// `print` was called with these arguments: write them out, then step again.
    Print(Vec<VmValue>),
    /// Compute this floating-point operation, hand its result to
    /// `push_float`, then step again.
    Float(FloatRequest),
}

/// A step's answer and the event it stands for agree.
pub open spec fn event_is(s: Step, e: Event) -> bool {
    match e {
        Event::Nothing => s is Continue,
        Event::Print(vs) => s matches Step::Print(args) && vm_values_view(args@) == vs,
        Event::Float(q) => s matches Step::Float(q2) && q2 == q,
    }
}

/// A step's result, the frame and globals after it, and the outcome it
/// stands for agree. On a return or an error the globals are unchanged.
pub open spec fn step_result_is(
    r: Result<Step, VmError>,
    o: Outcome,
    after: FrameState,
    before_globals: Globals,
    after_globals: Globals,
) -> bool {
    match o {
        Outcome::Next { frame, globals, event } => r matches Ok(s) && after == frame && after_globals
            == globals && event_is(s, event),
        Outcome::Return(v) => r matches Ok(Step::Return(x)) && vm_view(x) == v && after_globals
            == before_globals,
        Outcome::Fail(f) => r matches Err(e) && fault_view(e) == f && after_globals == before_globals,
    }
}

/// The content of local slots.
pub open spec fn locals_view(s: Seq<Option<VmValue>>) -> Seq<Option<Value>> {
    Seq::new(
        s.len(),
        |i: int|
            match s[i] {
                Some(v) => Some(vm_view(v)),
                None => None,
            },
    )
}

/// The content of the stack after a pop.
pub proof fn lemma_stack_pop(s: Seq<VmValue>)
    requires
        s.len() > 0,
    ensures
        vm_values_view(s.drop_last()) == vm_values_view(s).drop_last(),
        vm_values_view(s).last() == vm_view(s.last()),
        vm_values_view(s).len() == s.len(),
{
    lemma_vm_values_view(s);
    assert(vm_values_view(s).drop_last() =~= vm_values_view(s.drop_last()));
}

/// The content of a slice of the stack.
pub proof fn lemma_stack_slice(s: Seq<VmValue>, lo: int, hi: int)
    requires
        0 <= lo <= hi <= s.len(),
    ensures
        vm_values_view(s.subrange(lo, hi)) == vm_values_view(s).subrange(lo, hi),
        vm_values_view(s).len() == s.len(),
{
    lemma_vm_values_view(s);
    lemma_vm_values_view(s.subrange(lo, hi));
    assert(vm_values_view(s.subrange(lo, hi)) =~= vm_values_view(s).subrange(lo, hi));
}

/// A code object being run.
pub struct Frame<'a> {
    code: &'a CodeObject,
    instructions: Vec<Instruction>,
    stack: Vec<VmValue>,
    locals: Vec<Option<VmValue>>,
    ip: usize,
}

impl<'a> Frame<'a> {
    /// The frame's stack, local slots and next instruction.
    pub closed spec fn state(&self) -> FrameState {
        FrameState {
            stack: vm_values_view(self.stack@),
            locals: locals_view(self.locals@),
            ip: self.ip as int,
        }
    }

    /// The decoded instructions being run.
    pub closed spec fn instructions(&self) -> Seq<Instruction> {
        self.instructions@
    }

    /// The code object being run.
    pub closed spec fn code(&self) -> SpecCode {
        code_view(*self.code)
    }

    /// There is one local slot per local name.
    pub closed spec fn wf(&self) -> bool {
        self.locals@.len() == self.code.localsplus_names@.len()
    }

    /// Both frames run the same instructions of the same code object.
    pub closed spec fn same_program(&self, other: &Frame) -> bool {
        &&& self.code == other.code
        &&& self.instructions@ == other.instructions@
    }

    /// Pops the top of the stack.
    fn pop(&mut self, ins: Instruction) -> (r: Result<VmValue, VmError>)
        ensures
            final(self).same_program(old(self)),
            final(self).locals@ == old(self).locals@,
            final(self).ip == old(self).ip,
            old(self).state().stack.len() == 0 ==> (r matches Err(e) && fault_view(e) == underflow(ins)),
            old(self).state().stack.len() > 0 ==> (r matches Ok(v) && vm_view(v) == old(self).state().stack.last()
                && final(self).state().stack == old(self).state().stack.drop_last()),
    {
        proof {
            lemma_vm_values_view(self.stack@);
        }
        match self.stack.pop() {
            Some(v) => {
                proof {
                    lemma_stack_pop(old(self).stack@);
                }
                Ok(v)
            },
            None => Err(VmError::StackUnderflow { offset: ins.offset, opcode: ins.raw_opcode() }),
        }
    }

    /// Pops the top `count` values, lowest first.
    fn pop_many(&mut self, ins: Instruction, count: usize) -> (r: Result<Vec<VmValue>, VmError>)
        ensures
            final(self).same_program(old(self)),
            final(self).locals@ == old(self).locals@,
            final(self).ip == old(self).ip,
            old(self).state().stack.len() < count ==> (r matches Err(e) && fault_view(e) == underflow(
                ins,
            )),
            old(self).state().stack.len() >= count ==> (r matches Ok(v) && v@.len() == count
                && vm_values_view(v@) == old(self).state().stack.skip(
                old(self).state().stack.len() - count,
            ) && final(self).state().stack == old(self).state().stack.take(
                old(self).state().stack.len() - count,
            )),
    {
        proof {
            lemma_vm_values_view(self.stack@);
        }
        if self.stack.len() < count {
            return Err(VmError::StackUnderflow { offset: ins.offset, opcode: ins.raw_opcode() });
        }
        let start = self.stack.len() - count;
        let items = self.stack.split_off(start);
        proof {
            let s = old(self).stack@;
            lemma_stack_slice(s, start as int, s.len() as int);
            lemma_stack_slice(s, 0, start as int);
            assert(s.skip(start as int) =~= s.subrange(start as int, s.len() as int));
            assert(vm_values_view(s).skip(start as int) =~= vm_values_view(s).subrange(
                start as int,
                s.len() as int,
            ));
            assert(s.take(start as int) =~= s.subrange(0, start as int));
            assert(vm_values_view(s).take(start as int) =~= vm_values_view(s).subrange(0, start as int));
        }
        Ok(items)
    }

    /// The stack's content has one value per stack entry.
    proof fn lemma_stack_len(&self)
        ensures
            self.state().stack.len() == self.stack@.len(),
    {
        lemma_vm_values_view(self.stack@);
    }

    /// Pushes a value.
    fn push(&mut self, v: VmValue)
        ensures
            final(self).same_program(old(self)),
            final(self).locals@ == old(self).locals@,
            final(self).ip == old(self).ip,
            final(self).state().stack == old(self).state().stack.push(vm_view(v)),
    {
        proof {
            lemma_vm_values_view_push(self.stack@, v);
        }
        self.stack.push(v);
    }
}

/// The content of local slots after one slot is set.
pub proof fn lemma_locals_update(s: Seq<Option<VmValue>>, i: int, v: VmValue)
    requires
        0 <= i < s.len(),
    ensures
        locals_view(s.update(i, Some(v))) == locals_view(s).update(i, Some(vm_view(v))),
{
    assert(locals_view(s.update(i, Some(v))) =~= locals_view(s).update(i, Some(vm_view(v))));
}

/// The constant an instruction's argument selects, converted to a VM value.
fn load_constant(code: &CodeObject, ins: Instruction) -> (r: Result<VmValue, VmError>)
    ensures
        value_result_is(r, constant_spec(code_view(*code), ins)),
{
    proof {
        crate::marshal::lemma_values_view_index(code.constants@);
    }
    if (ins.arg as usize) < code.constants.len() {
        VmValue::from_marshal(&code.constants[ins.arg as usize])
    } else {
        Err(VmError::ConstantIndexOutOfBounds { offset: ins.offset, index: ins.arg })
    }
}

/// The name at a position of the code object's name table.
fn name_at(code: &CodeObject, ins: Instruction, index: u32) -> (r: Result<&String, VmError>)
    ensures
        match name_spec(code_view(*code), ins, index) {
            Ok(n) => r matches Ok(s) && s@ == n,
            Err(f) => r matches Err(e) && fault_view(e) == f,
        },
{
    if (index as usize) < code.names.len() {
        Ok(&code.names[index as usize])
    } else {
        Err(VmError::NameIndexOutOfBounds { offset: ins.offset, index })
    }
}

impl<'a> Frame<'a> {
    /// The frame is well formed and about to run `ins`.
    pub closed spec fn about_to_run(&self, ins: Instruction) -> bool {
        &&& self.wf()
        &&& 0 <= self.ip < self.instructions@.len()
        &&& ins == self.instructions@[self.ip as int]
    }

    /// Moves on to the next instruction.
    fn advance_ip(&mut self)
        requires
            old(self).ip < old(self).instructions@.len(),
        ensures
            final(self).same_program(old(self)),
            final(self).stack@ == old(self).stack@,
            final(self).locals@ == old(self).locals@,
            final(self).ip == old(self).ip + 1,
    {
        assert(self.instructions.len() == self.instructions@.len());
        self.ip = self.ip + 1;
    }

    /// Instructions that only move on, `PUSH_NULL` and `POP_TOP`.
    fn exec_simple(&mut self, vm: &Vm, ins: Instruction) -> (r: Result<Step, VmError>)
        requires
            old(self).about_to_run(ins),
            ins.opcode is Cache || ins.opcode is Nop || ins.opcode is Resume || ins.opcode is ExtendedArg
                || ins.opcode is PushNull || ins.opcode is PopTop,
        ensures
            final(self).wf(),
            final(self).same_program(old(self)),
            step_result_is(
                r,
                step_spec(old(self).code(), old(self).instructions(), old(self).state(), vm@),
                final(self).state(),
                vm@,
                vm@,
            ),
    {
        proof {
            reveal(step_spec);
        }
        match ins.opcode {
            Opcode::PushNull => {
                self.push(VmValue::PyNone);
            },
            Opcode::PopTop => {
                match self.pop(ins) {
                    Ok(_) => {},
                    Err(e) => return Err(e),
                }
            },
            _ => {},
        }
        self.advance_ip();
        Ok(Step::Continue)
    }

    /// `LOAD_CONST`, `LOAD_NAME`, `LOAD_GLOBAL` and `LOAD_FAST`.
    fn exec_load(&mut self, vm: &Vm, ins: Instruction) -> (r: Result<Step, VmError>)
        requires
            old(self).about_to_run(ins),
            ins.opcode is LoadConst || ins.opcode is LoadName || ins.opcode is LoadGlobal
                || ins.opcode is LoadFast,
        ensures
            final(self).wf(),
            final(self).same_program(old(self)),
            step_result_is(
                r,
                step_spec(old(self).code(), old(self).instructions(), old(self).state(), vm@),
                final(self).state(),
                vm@,
                vm@,
            ),
    {
        proof {
            reveal(step_spec);
        }
        let value = match ins.opcode {
            Opcode::LoadConst => match load_constant(self.code, ins) {
                Ok(v) => v,
                Err(e) => return Err(e),
            },
            Opcode::LoadFast => {
                if ins.arg as usize >= self.code.localsplus_names.len() {
                    return Err(VmError::LocalIndexOutOfBounds { offset: ins.offset, index: ins.arg });
                }
                match &self.locals[ins.arg as usize] {
                    Some(v) => clone_vm(v),
                    None => {
                        return Err(
                            VmError::UnboundLocal {
                                offset: ins.offset,
                                name: self.code.localsplus_names[ins.arg as usize].clone(),
                            },
                        );
                    },
                }
            },
            _ => {
                let index = if matches!(ins.opcode, Opcode::LoadName) {
                    ins.arg
                } else {
                    ins.arg >> 1
                };
                let name = match name_at(self.code, ins, index) {
                    Ok(n) => n,
                    Err(e) => return Err(e),
                };
                match vm.load(name) {
                    Some(v) => v,
                    None => return Err(VmError::UnknownName { offset: ins.offset, name: name.clone() }),
                }
            },
        };
        self.push(value);
        self.advance_ip();
        proof {
            assert(self.state() =~= advance(old(self).state(), old(self).state().stack.push(vm_view(value))));
        }
        Ok(Step::Continue)
    }

    /// `STORE_NAME`.
    fn exec_store_name(&mut self, vm: &mut Vm, ins: Instruction) -> (r: Result<Step, VmError>)
        requires
            old(self).about_to_run(ins),
            ins.opcode is StoreName,
        ensures
            final(self).wf(),
            final(self).same_program(old(self)),
            final(vm).printed() == old(vm).printed(),
            step_result_is(
                r,
                step_spec(old(self).code(), old(self).instructions(), old(self).state(), old(vm)@),
                final(self).state(),
                old(vm)@,
                final(vm)@,
            ),
    {
        proof {
            reveal(step_spec);
        }
        let name = match name_at(self.code, ins, ins.arg) {
            Ok(n) => n,
            Err(e) => return Err(e),
        };
        let value = match self.pop(ins) {
            Ok(v) => v,
            Err(e) => return Err(e),
        };
        vm.store(name, value);
        self.advance_ip();
        proof {
            assert(self.state() =~= advance(old(self).state(), old(self).state().stack.drop_last()));
        }
        Ok(Step::Continue)
    }

    /// `STORE_FAST`.
    fn exec_store_fast(&mut self, vm: &Vm, ins: Instruction) -> (r: Result<Step, VmError>)
        requires
            old(self).about_to_run(ins),
            ins.opcode is StoreFast,
        ensures
            final(self).wf(),
            final(self).same_program(old(self)),
            step_result_is(
                r,
                step_spec(old(self).code(), old(self).instructions(), old(self).state(), vm@),
                final(self).state(),
                vm@,
                vm@,
            ),
    {
        proof {
            reveal(step_spec);
        }
        if ins.arg as usize >= self.code.localsplus_names.len() {
            return Err(VmError::LocalIndexOutOfBounds { offset: ins.offset, index: ins.arg });
        }
        let value = match self.pop(ins) {
            Ok(v) => v,
            Err(e) => return Err(e),
        };
        proof {
            lemma_locals_update(self.locals@, ins.arg as int, value);
        }
        self.locals.set(ins.arg as usize, Some(value));
        self.advance_ip();
        proof {
            assert(self.state() =~= FrameState {
                stack: old(self).state().stack.drop_last(),
                locals: old(self).state().locals.update(ins.arg as int, Some(vm_view(value))),
                ip: old(self).ip + 1,
            });
        }
        Ok(Step::Continue)
    }

    /// The unary operators and the unary-plus intrinsic.
    fn exec_unary(&mut self, vm: &Vm, ins: Instruction) -> (r: Result<Step, VmError>)
        requires
            old(self).about_to_run(ins),
            ins.opcode is UnaryNegative || ins.opcode is UnaryNot || ins.opcode is UnaryInvert
                || ins.opcode is CallIntrinsic1,
        ensures
            final(self).wf(),
            final(self).same_program(old(self)),
            step_result_is(
                r,
                step_spec(old(self).code(), old(self).instructions(), old(self).state(), vm@),
                final(self).state(),
                vm@,
                vm@,
            ),
    {
        proof {
            reveal(step_spec);
        }
        if matches!(ins.opcode, Opcode::CallIntrinsic1) && ins.arg != 5 {
            return Err(
                invalid_argument(ins, "only INTRINSIC_UNARY_POSITIVE is supported".to_string()),
            );
        }
        let value = match self.pop(ins) {
            Ok(v) => v,
            Err(e) => return Err(e),
        };
        let result = match ins.opcode {
            Opcode::UnaryNegative => unary_negative(ins, value),
            Opcode::UnaryNot => Ok(VmValue::Bool(!value.is_truthy())),
            Opcode::UnaryInvert => unary_invert(ins, value),
            _ => unary_positive(ins, value),
        };
        match result {
            Ok(v) => {
                self.push(v);
                self.advance_ip();
                proof {
                    assert(self.state() =~= advance(
                        old(self).state(),
                        old(self).state().stack.drop_last().push(vm_view(v)),
                    ));
                }
                Ok(Step::Continue)
            },
            Err(e) => Err(e),
        }
    }
}

impl<'a> Frame<'a> {
    /// `BINARY_OP`, `COMPARE_OP` and `BINARY_SUBSCR`: two operands, one result.
    fn exec_binary(&mut self, vm: &Vm, ins: Instruction) -> (r: Result<Step, VmError>)
        requires
            old(self).about_to_run(ins),
            ins.opcode is BinaryOp || ins.opcode is CompareOp || ins.opcode is BinarySubscr,
            !step_panics(old(self).instructions(), old(self).state()),
        ensures
            final(self).wf(),
            final(self).same_program(old(self)),
            step_result_is(
                r,
                step_spec(old(self).code(), old(self).instructions(), old(self).state(), vm@),
                final(self).state(),
                vm@,
                vm@,
            ),
    {
        proof {
            reveal(step_spec);
        }
        let ghost st = old(self).state().stack;
        let right = match self.pop(ins) {
            Ok(v) => v,
            Err(e) => return Err(e),
        };
        let left = match self.pop(ins) {
            Ok(v) => v,
            Err(e) => return Err(e),
        };
        assert(st.drop_last().drop_last() =~= st.take(st.len() - 2));
        assert(st.drop_last().last() == st[st.len() - 2]);
        let value = match ins.opcode {
            Opcode::BinaryOp => match binary_op(ins, &left, &right) {
                Ok(Computed::Value(v)) => v,
                Ok(Computed::Float(req)) => {
                    self.advance_ip();
                    assert(self.state() =~= advance(old(self).state(), st.take(st.len() - 2)));
                    return Ok(Step::Float(req));
                },
                Err(e) => return Err(e),
            },
            Opcode::CompareOp => match compare_op(ins, &left, &right) {
                Ok(b) => VmValue::Bool(b),
                Err(e) => return Err(e),
            },
            _ => match load_subscript(ins, &left, &right) {
                Ok(v) => v,
                Err(e) => return Err(e),
            },
        };
        self.push(value);
        self.advance_ip();
        assert(self.state() =~= advance(old(self).state(), st.take(st.len() - 2).push(vm_view(value))));
        Ok(Step::Continue)
    }

    /// `BUILD_TUPLE`, `BUILD_LIST` and `BUILD_SET`.
    fn exec_build(&mut self, vm: &Vm, ins: Instruction) -> (r: Result<Step, VmError>)
        requires
            old(self).about_to_run(ins),
            ins.opcode is BuildTuple || ins.opcode is BuildList || ins.opcode is BuildSet,
        ensures
            final(self).wf(),
            final(self).same_program(old(self)),
            step_result_is(
                r,
                step_spec(old(self).code(), old(self).instructions(), old(self).state(), vm@),
                final(self).state(),
                vm@,
                vm@,
            ),
    {
        proof {
            reveal(step_spec);
        }
        let items = match self.pop_many(ins, ins.arg as usize) {
            Ok(v) => v,
            Err(e) => return Err(e),
        };
        let built = match ins.opcode {
            Opcode::BuildTuple => VmValue::Tuple(items),
            Opcode::BuildList => VmValue::List(items),
            _ => VmValue::PySet(unique(items.as_slice())),
        };
        self.push(built);
        self.advance_ip();
        proof {
            let st = old(self).state().stack;
            let n = st.len();
            assert(self.state() =~= advance(
                old(self).state(),
                st.take(n - ins.arg as int).push(vm_view(built)),
            ));
        }
        Ok(Step::Continue)
    }

    /// `BUILD_MAP`.
    fn exec_build_map(&mut self, vm: &Vm, ins: Instruction) -> (r: Result<Step, VmError>)
        requires
            old(self).about_to_run(ins),
            ins.opcode is BuildMap,
        ensures
            final(self).wf(),
            final(self).same_program(old(self)),
            step_result_is(
                r,
                step_spec(old(self).code(), old(self).instructions(), old(self).state(), vm@),
                final(self).state(),
                vm@,
                vm@,
            ),
    {
        proof {
            reveal(step_spec);
        }
        let count = ins.arg as usize;
        proof {
            self.lemma_stack_len();
        }
        if count > self.stack.len() / 2 {
            return Err(VmError::StackUnderflow { offset: ins.offset, opcode: ins.raw_opcode() });
        }
        let items = match self.pop_many(ins, 2 * count) {
            Ok(v) => v,
            Err(e) => return Err(e),
        };
        let ghost flat = vm_values_view(items@);
        proof {
            lemma_vm_values_view(items@);
        }
        let mut pairs: Vec<(VmValue, VmValue)> = Vec::new();
        let mut i: usize = 0;
        while i < count
            invariant
                i <= count,
                items@.len() == 2 * count,
                flat == vm_values_view(items@),
                flat.len() == items@.len(),
                forall|j: int| 0 <= j < items@.len() ==> #[trigger] flat[j] == vm_view(items@[j]),
                crate::value::vm_entries_view(pairs@) == pairs_of(flat, i as nat),
            decreases count - i,
        {
            let key = clone_vm(&items[2 * i]);
            let value = clone_vm(&items[2 * i + 1]);
            proof {
                crate::value::lemma_vm_entries_view_push(pairs@, (key, value));
                assert(pairs_of(flat, (i + 1) as nat) =~= pairs_of(flat, i as nat).push(
                    (vm_view(key), vm_view(value)),
                ));
            }
            pairs.push((key, value));
            i += 1;
        }
        let built = VmValue::Dict(pairs);
        self.push(built);
        self.advance_ip();
        proof {
            let st = old(self).state().stack;
            let n = st.len();
            assert(self.state() =~= advance(
                old(self).state(),
                st.take(n - 2 * count).push(Value::Dict(pairs_of(st.skip(n - 2 * count), count as nat))),
            ));
        }
        Ok(Step::Continue)
    }

    /// `BUILD_CONST_KEY_MAP`.
    fn exec_const_key_map(&mut self, vm: &Vm, ins: Instruction) -> (r: Result<Step, VmError>)
        requires
            old(self).about_to_run(ins),
            ins.opcode is BuildConstKeyMap,
        ensures
            final(self).wf(),
            final(self).same_program(old(self)),
            step_result_is(
                r,
                step_spec(old(self).code(), old(self).instructions(), old(self).state(), vm@),
                final(self).state(),
                vm@,
                vm@,
            ),
    {
        proof {
            reveal(step_spec);
        }
        let count = ins.arg as usize;
        let keys = match self.pop(ins) {
            Ok(VmValue::Tuple(keys)) => keys,
            Ok(other) => return Err(type_error(ins, "BUILD_CONST_KEY_MAP", &other, None)),
            Err(e) => return Err(e),
        };
        proof {
            lemma_vm_values_view(keys@);
        }
        if keys.len() != count {
            let mut reason = "expected ".to_string();
            reason.append(decimal_text(count as u64).as_str());
            reason.append(" dictionary keys, got ");
            reason.append(decimal_text(keys.len() as u64).as_str());
            return Err(invalid_argument(ins, reason));
        }
        let values = match self.pop_many(ins, count) {
            Ok(v) => v,
            Err(e) => return Err(e),
        };
        proof {
            lemma_vm_values_view(values@);
        }
        let mut pairs: Vec<(VmValue, VmValue)> = Vec::new();
        let mut i: usize = 0;
        while i < count
            invariant
                i <= count,
                keys@.len() == count,
                values@.len() == count,
                vm_values_view(keys@).len() == count,
                vm_values_view(values@).len() == count,
                forall|j: int| 0 <= j < count ==> #[trigger] vm_values_view(keys@)[j] == vm_view(keys@[j]),
                forall|j: int| 0 <= j < count ==> #[trigger] vm_values_view(values@)[j] == vm_view(values@[j]),
                crate::value::vm_entries_view(pairs@) == zip_values(
                    vm_values_view(keys@).take(i as int),
                    vm_values_view(values@).take(i as int),
                ),
            decreases count - i,
        {
            let key = clone_vm(&keys[i]);
            let value = clone_vm(&values[i]);
            proof {
                crate::value::lemma_vm_entries_view_push(pairs@, (key, value));
                assert(vm_values_view(keys@)[i as int] == vm_view(keys@[i as int]));
                assert(vm_values_view(values@)[i as int] == vm_view(values@[i as int]));
                assert(zip_values(
                    vm_values_view(keys@).take(i + 1),
                    vm_values_view(values@).take(i + 1),
                ) =~= zip_values(
                    vm_values_view(keys@).take(i as int),
                    vm_values_view(values@).take(i as int),
                ).push((vm_view(key), vm_view(value))));
            }
            pairs.push((key, value));
            i += 1;
        }
        let built = VmValue::Dict(pairs);
        self.push(built);
        self.advance_ip();
        proof {
            let st = old(self).state().stack;
            let rest = st.drop_last();
            assert(vm_values_view(keys@).take(count as int) =~= vm_values_view(keys@));
            assert(vm_values_view(values@).take(count as int) =~= vm_values_view(values@));
            assert(self.state() =~= advance(
                old(self).state(),
                rest.take(rest.len() - count).push(
                    Value::Dict(zip_values(vm_values_view(keys@), rest.skip(rest.len() - count))),
                ),
            ));
        }
        Ok(Step::Continue)
    }
}

impl<'a> Frame<'a> {
    /// `LIST_EXTEND` and `SET_UPDATE`.
    fn exec_extend(&mut self, vm: &Vm, ins: Instruction) -> (r: Result<Step, VmError>)
        requires
            old(self).about_to_run(ins),
            ins.opcode is ListExtend || ins.opcode is SetUpdate,
        ensures
            final(self).wf(),
            final(self).same_program(old(self)),
            step_result_is(
                r,
                step_spec(old(self).code(), old(self).instructions(), old(self).state(), vm@),
                final(self).state(),
                vm@,
                vm@,
            ),
    {
        proof {
            reveal(step_spec);
        }
        let is_set = matches!(ins.opcode, Opcode::SetUpdate);
        let iterable = match self.pop(ins) {
            Ok(v) => v,
            Err(e) => return Err(e),
        };
        let items = match iterable.iterable() {
            Some(items) => items,
            None => return Err(type_error(ins, "iteration", &iterable, None)),
        };
        proof {
            self.lemma_stack_len();
        }
        if ins.arg as usize > self.stack.len() || ins.arg == 0 {
            return Err(VmError::StackUnderflow { offset: ins.offset, opcode: ins.raw_opcode() });
        }
        let position = self.stack.len() - ins.arg as usize;
        let ghost rest = self.state().stack;
        let ghost before = self.stack@;
        proof {
            lemma_vm_values_view(self.stack@);
        }
        let mut target = VmValue::PyNone;
        self.stack.set_and_swap(position, &mut target);
        match extend_target(ins, target, items, is_set) {
            Ok(t) => {
                self.stack.set(position, t);
                self.advance_ip();
                proof {
                    assert(self.stack@ =~= before.update(position as int, t));
                    crate::operators::lemma_vm_values_view_update(before, position as int, t);
                    assert(self.state() =~= advance(
                        old(self).state(),
                        rest.update(position as int, vm_view(t)),
                    ));
                }
                Ok(Step::Continue)
            },
            Err(e) => Err(e),
        }
    }

    /// `STORE_SUBSCR`.
    fn exec_store_subscript(&mut self, vm: &mut Vm, ins: Instruction) -> (r: Result<Step, VmError>)
        requires
            old(self).about_to_run(ins),
            ins.opcode is StoreSubscr,
        ensures
            final(self).wf(),
            final(self).same_program(old(self)),
            final(vm).printed() == old(vm).printed(),
            step_result_is(
                r,
                step_spec(old(self).code(), old(self).instructions(), old(self).state(), old(vm)@),
                final(self).state(),
                old(vm)@,
                final(vm)@,
            ),
    {
        proof {
            reveal(step_spec);
        }
        let ghost st = old(self).state().stack;
        let index = match self.pop(ins) {
            Ok(v) => v,
            Err(e) => return Err(e),
        };
        let container = match self.pop(ins) {
            Ok(v) => v,
            Err(e) => return Err(e),
        };
        let value = match self.pop(ins) {
            Ok(v) => v,
            Err(e) => return Err(e),
        };
        assert(st.drop_last().last() == st[st.len() - 2]);
        assert(st.drop_last().drop_last().last() == st[st.len() - 3]);
        assert(st.drop_last().drop_last().drop_last() =~= st.take(st.len() - 3));
        let previous = clone_vm(&container);
        let updated = match store_subscript(ins, container, index, value) {
            Ok(v) => v,
            Err(e) => return Err(e),
        };
        vm.replace_equal(&previous, &updated);
        self.advance_ip();
        assert(self.state() =~= advance(old(self).state(), st.take(st.len() - 3)));
        Ok(Step::Continue)
    }

    /// Where a jump lands.
    fn jump_target(&self, ins: Instruction, forward: bool) -> (r: Result<usize, VmError>)
        ensures
            match jump_spec(self.instructions@, ins, forward) {
                Ok(t) => r matches Ok(u) && u as int == t && 0 <= t < self.instructions@.len(),
                Err(f) => r matches Err(e) && fault_view(e) == f,
            },
    {
        let distance = match (ins.arg as usize).checked_mul(2) {
            Some(d) => d,
            None => return Err(invalid_argument(ins, "jump distance overflow".to_string())),
        };
        let base = match ins.offset.checked_add(ins.size) {
            Some(b) => b,
            None => return Err(invalid_argument(ins, "jump base overflow".to_string())),
        };
        let target = match if forward {
            base.checked_add(distance)
        } else {
            base.checked_sub(distance)
        } {
            Some(t) => t,
            None => return Err(VmError::InvalidJumpTarget { offset: ins.offset, target: usize::MAX }),
        };
        assert(2 * ins.arg == distance as int);
        assert(ins.offset + ins.size == base as int);
        assert((if forward {
            base + distance
        } else {
            base - distance
        }) == target as int);
        let mut i: usize = 0;
        while i < self.instructions.len()
            invariant
                i <= self.instructions@.len(),
                forall|j: int| 0 <= j < i ==> #[trigger] self.instructions@[j].offset != target,
                2 * ins.arg == distance as int,
                ins.offset + ins.size == base as int,
                (if forward {
                    base + distance
                } else {
                    base - distance
                }) == target as int,
            decreases self.instructions@.len() - i,
        {
            if self.instructions[i].offset == target {
                proof {
                    let instructions = self.instructions@;
                    let k = i as int;
                    assert(0 <= k < instructions.len() && instructions[k].offset == target && forall|
                        j: int,
                    | 0 <= j < k ==> #[trigger] instructions[j].offset != target);
                    let c = choose|c: int|
                        0 <= c < instructions.len() && #[trigger] instructions[c].offset == target
                            && forall|j: int|
                            0 <= j < c ==> #[trigger] instructions[j].offset != target;
                    if c < k {
                        assert(instructions[c].offset != target);
                    } else if c > k {
                        assert(instructions[k].offset != target);
                    }
                    assert(instruction_at(instructions, target as int) == Some(k));
                }
                return Ok(i);
            }
            i += 1;
        }
        Err(VmError::InvalidJumpTarget { offset: ins.offset, target })
    }

    /// The jumps and the conditional jumps.
    fn exec_jump(&mut self, vm: &Vm, ins: Instruction) -> (r: Result<Step, VmError>)
        requires
            old(self).about_to_run(ins),
            ins.opcode is JumpForward || ins.opcode is JumpBackward
                || ins.opcode is JumpBackwardNoInterrupt || ins.opcode is PopJumpIfFalse
                || ins.opcode is PopJumpIfTrue,
        ensures
            final(self).wf(),
            final(self).same_program(old(self)),
            step_result_is(
                r,
                step_spec(old(self).code(), old(self).instructions(), old(self).state(), vm@),
                final(self).state(),
                vm@,
                vm@,
            ),
    {
        proof {
            reveal(step_spec);
        }
        let conditional = matches!(ins.opcode, Opcode::PopJumpIfFalse) || matches!(
            ins.opcode,
            Opcode::PopJumpIfTrue,
        );
        if conditional {
            let condition = match self.pop(ins) {
                Ok(v) => v,
                Err(e) => return Err(e),
            };
            let jump_if = matches!(ins.opcode, Opcode::PopJumpIfTrue);
            if condition.is_truthy() != jump_if {
                self.advance_ip();
                assert(self.state() =~= advance(
                    old(self).state(),
                    old(self).state().stack.drop_last(),
                ));
                return Ok(Step::Continue);
            }
        }
        let forward = !(matches!(ins.opcode, Opcode::JumpBackward) || matches!(
            ins.opcode,
            Opcode::JumpBackwardNoInterrupt,
        ));
        let ghost stack = self.state().stack;
        match self.jump_target(ins, forward) {
            Ok(t) => {
                self.ip = t;
                assert(self.state() =~= FrameState {
                    stack,
                    locals: old(self).state().locals,
                    ip: t as int,
                });
                Ok(Step::Continue)
            },
            Err(e) => Err(e),
        }
    }
}

impl<'a> Frame<'a> {
    /// `RETURN_CONST` and `RETURN_VALUE`.
    fn exec_return(&mut self, vm: &Vm, ins: Instruction) -> (r: Result<Step, VmError>)
        requires
            old(self).about_to_run(ins),
            ins.opcode is ReturnConst || ins.opcode is ReturnValue,
        ensures
            final(self).wf(),
            final(self).same_program(old(self)),
            step_result_is(
                r,
                step_spec(old(self).code(), old(self).instructions(), old(self).state(), vm@),
                final(self).state(),
                vm@,
                vm@,
            ),
    {
        proof {
            reveal(step_spec);
        }
        let value = if matches!(ins.opcode, Opcode::ReturnConst) {
            load_constant(self.code, ins)
        } else {
            self.pop(ins)
        };
        match value {
            Ok(v) => Ok(Step::Return(v)),
            Err(e) => Err(e),
        }
    }

    /// `COPY` and `SWAP`.
    fn exec_copy_swap(&mut self, vm: &Vm, ins: Instruction) -> (r: Result<Step, VmError>)
        requires
            old(self).about_to_run(ins),
            ins.opcode is Copy || ins.opcode is Swap,
        ensures
            final(self).wf(),
            final(self).same_program(old(self)),
            step_result_is(
                r,
                step_spec(old(self).code(), old(self).instructions(), old(self).state(), vm@),
                final(self).state(),
                vm@,
                vm@,
            ),
    {
        proof {
            reveal(step_spec);
        }
        proof {
            self.lemma_stack_len();
            lemma_vm_values_view(self.stack@);
        }
        if ins.arg == 0 || ins.arg as usize > self.stack.len() {
            return Err(invalid_argument(ins, "stack position is out of bounds".to_string()));
        }
        let index = self.stack.len() - ins.arg as usize;
        let ghost st = old(self).state().stack;
        if matches!(ins.opcode, Opcode::Copy) {
            let value = clone_vm(&self.stack[index]);
            self.push(value);
            self.advance_ip();
            assert(self.state() =~= advance(old(self).state(), st.push(st[index as int])));
        } else {
            let top = self.stack.len() - 1;
            let ghost before = self.stack@;
            if index != top {
                let mut held = VmValue::PyNone;
                self.stack.set_and_swap(top, &mut held);
                self.stack.set_and_swap(index, &mut held);
                self.stack.set_and_swap(top, &mut held);
            }
            proof {
                assert(self.stack@ =~= before.update(index as int, before[top as int]).update(
                    top as int,
                    before[index as int],
                ));
                crate::operators::lemma_vm_values_view_update(before, index as int, before[top as int]);
                crate::operators::lemma_vm_values_view_update(
                    before.update(index as int, before[top as int]),
                    top as int,
                    before[index as int],
                );
            }
            self.advance_ip();
            assert(self.state() =~= advance(
                old(self).state(),
                st.update(index as int, st[st.len() - 1]).update(st.len() - 1, st[index as int]),
            ));
        }
        Ok(Step::Continue)
    }

    /// `CALL`.
    fn exec_call(&mut self, vm: &Vm, ins: Instruction) -> (r: Result<Step, VmError>)
        requires
            old(self).about_to_run(ins),
            ins.opcode is Call,
        ensures
            final(self).wf(),
            final(self).same_program(old(self)),
            step_result_is(
                r,
                step_spec(old(self).code(), old(self).instructions(), old(self).state(), vm@),
                final(self).state(),
                vm@,
                vm@,
            ),
    {
        proof {
            reveal(step_spec);
        }
        let ghost st = old(self).state().stack;
        let count = ins.arg as usize;
        let arguments = match self.pop_many(ins, count) {
            Ok(v) => v,
            Err(e) => return Err(e),
        };
        let callable = match self.pop(ins) {
            Ok(v) => v,
            Err(e) => return Err(e),
        };
        let ghost below = self.state().stack;
        assert(below =~= st.take(st.len() - count - 1));
        proof {
            self.lemma_stack_len();
            lemma_vm_values_view(self.stack@);
        }
        if self.stack.len() > 0 && matches!(self.stack[self.stack.len() - 1], VmValue::PyNone) {
            let _ = self.pop(ins);
        }
        match callable {
            VmValue::BuiltinPrint => {
                self.push(VmValue::PyNone);
                self.advance_ip();
                proof {
                    let rest = if below.len() > 0 && below.last() is PyNone {
                        below.drop_last()
                    } else {
                        below
                    };
                    assert(self.state() =~= advance(old(self).state(), rest.push(Value::PyNone)));
                }
                Ok(Step::Print(arguments))
            },
            other => Err(type_error(ins, "call", &other, None)),
        }
    }
}

/// The local slots of a new frame: the given values first, then unbound slots.
pub open spec fn initial_locals(given: Seq<Value>, slots: nat) -> Seq<Option<Value>> {
    Seq::new(slots, |i: int| if i < given.len() { Some(given[i]) } else { None })
}

/// Why a frame cannot start with these locals, if it cannot: more values than slots.
pub open spec fn locals_fault(given: nat, slots: nat) -> Option<VmFault> {
    if given > slots {
        Some(
            VmFault::InvalidArgument {
                offset: 0,
                opcode: 0,
                argument: given as u32,
                reason: "received "@ + decimal(given) + " locals, but code object has "@ + decimal(
                    slots,
                ) + " slots"@,
            },
        )
    } else {
        None
    }
}

impl<'a> Frame<'a> {
    /// A frame that runs `code` from its first instruction with an empty
    /// stack and the given values in its first local slots. Fails when the
    /// wordcode does not decode, or when there are more values than slots.
    pub fn start(code: &'a CodeObject, locals: Vec<VmValue>) -> (r: Result<Frame<'a>, VmError>)
        ensures
            match spec_decode(code.bytecode@) {
                Err(b) => r matches Err(e) && e == VmError::Bytecode(b),
                Ok(instructions) => match locals_fault(
                    locals@.len(),
                    code.localsplus_names@.len(),
                ) {
                    Some(f) => r matches Err(e) && fault_view(e) == f,
                    None => r matches Ok(frame) && frame.wf() && frame.instructions() == instructions
                        && frame.code() == code_view(*code) && frame.state() == (FrameState {
                        stack: Seq::empty(),
                        locals: initial_locals(
                            crate::value::vm_values_view(locals@),
                            code.localsplus_names@.len(),
                        ),
                        ip: 0,
                    }),
                },
            },
    {
        let instructions = match decode_code(code) {
            Ok(i) => i,
            Err(b) => return Err(VmError::Bytecode(b)),
        };
        let slots = code.localsplus_names.len();
        if locals.len() > slots {
            let mut reason = "received ".to_string();
            reason.append(decimal_text(locals.len() as u64).as_str());
            reason.append(" locals, but code object has ");
            reason.append(decimal_text(slots as u64).as_str());
            reason.append(" slots");
            return Err(
                VmError::InvalidArgument {
                    offset: 0,
                    opcode: 0,
                    argument: locals.len() as u32,
                    reason,
                },
            );
        }
        let ghost given = vm_values_view(locals@);
        proof {
            lemma_vm_values_view(locals@);
        }
        let mut values: Vec<Option<VmValue>> = Vec::new();
        let mut i: usize = 0;
        while i < slots
            invariant
                i <= slots == code.localsplus_names@.len(),
                slots >= locals@.len(),
                given == vm_values_view(locals@),
                given.len() == locals@.len(),
                forall|j: int| 0 <= j < locals@.len() ==> #[trigger] given[j] == vm_view(locals@[j]),
                values@.len() == i,
                locals_view(values@) =~= initial_locals(given, slots as nat).take(i as int),
            decreases slots - i,
        {
            let slot = if i < locals.len() {
                Some(clone_vm(&locals[i]))
            } else {
                None
            };
            let ghost previous = values@;
            values.push(slot);
            proof {
                assert(values@[i as int] == slot);
                assert(i < locals@.len() ==> given[i as int] == vm_view(locals@[i as int]));
                assert forall|j: int| 0 <= j < i implies #[trigger] locals_view(values@)[j] == locals_view(
                    previous,
                )[j] by {
                    assert(values@[j] == previous[j]);
                }
            }
            i += 1;
        }
        let frame = Frame { code, instructions, stack: Vec::new(), locals: values, ip: 0 };
        proof {
            assert(initial_locals(given, slots as nat).take(slots as int) =~= initial_locals(
                given,
                slots as nat,
            ));
            assert(frame.state() =~= FrameState {
                stack: Seq::empty(),
                locals: initial_locals(given, slots as nat),
                ip: 0,
            });
        }
        Ok(frame)
    }

    /// Whether the next instruction is a `BINARY_OP` whose integer division
    /// would overflow (`i64::MIN // -1` or `i64::MIN % -1`).
    pub fn would_panic(&self) -> (r: bool)
        ensures
            r == step_panics(self.instructions(), self.state()),
    {
        proof {
            self.lemma_stack_len();
            lemma_vm_values_view(self.stack@);
        }
        if self.ip >= self.instructions.len() || !matches!(
            self.instructions[self.ip].opcode,
            Opcode::BinaryOp,
        ) || self.stack.len() < 2 {
            return false;
        }
        let op = self.instructions[self.ip].arg % 13;
        let n = self.stack.len();
        let left_is_min = match &self.stack[n - 2] {
            VmValue::Int(v) => *v == i64::MIN,
            _ => false,
        };
        let right_is_minus_one = match &self.stack[n - 1] {
            VmValue::Int(v) => *v == -1,
            _ => false,
        };
        (op == 2 || op == 6) && left_is_min && right_is_minus_one
    }

    /// Pushes the result of a floating-point operation the host carried out.
    pub fn push_float(&mut self, bits: u64)
        ensures
            final(self).wf() == old(self).wf(),
            final(self).same_program(old(self)),
            final(self).state() == (FrameState {
                stack: old(self).state().stack.push(Value::Float(bits)),
                ..old(self).state()
            }),
    {
        self.push(VmValue::Float(bits));
        assert(self.state() =~= FrameState {
            stack: old(self).state().stack.push(Value::Float(bits)),
            ..old(self).state()
        });
    }

    /// Runs the next instruction: the frame and the globals change as
    /// `step_spec` says, and the answer tells the host what, if anything, it
    /// must do before the next step. After an error the globals are as they
    /// were and the frame is not meant to be stepped again.
    pub fn step(&mut self, vm: &mut Vm) -> (r: Result<Step, VmError>)
        requires
            old(self).wf(),
            !step_panics(old(self).instructions(), old(self).state()),
        ensures
            final(self).wf(),
            final(self).same_program(old(self)),
            final(self).instructions() == old(self).instructions(),
            final(self).code() == old(self).code(),
            final(vm).printed() == old(vm).printed(),
            step_result_is(
                r,
                step_spec(old(self).code(), old(self).instructions(), old(self).state(), old(vm)@),
                final(self).state(),
                old(vm)@,
                final(vm)@,
            ),
    {
        proof {
            reveal(step_spec);
        }
        if self.ip >= self.instructions.len() {
            return Err(VmError::MissingReturn { code_name: self.code.name.clone() });
        }
        let ins = self.instructions[self.ip];
        match ins.opcode {
            Opcode::Cache
            | Opcode::Nop
            | Opcode::Resume
            | Opcode::ExtendedArg
            | Opcode::PushNull
            | Opcode::PopTop => self.exec_simple(vm, ins),
            Opcode::LoadConst | Opcode::LoadName | Opcode::LoadGlobal | Opcode::LoadFast => self.exec_load(
                vm,
                ins,
            ),
            Opcode::StoreName => self.exec_store_name(vm, ins),
            Opcode::StoreFast => self.exec_store_fast(vm, ins),
            Opcode::UnaryNegative
            | Opcode::UnaryNot
            | Opcode::UnaryInvert
            | Opcode::CallIntrinsic1 => self.exec_unary(vm, ins),
            Opcode::BinaryOp | Opcode::CompareOp | Opcode::BinarySubscr => self.exec_binary(vm, ins),
            Opcode::BuildTuple | Opcode::BuildList | Opcode::BuildSet => self.exec_build(vm, ins),
            Opcode::BuildMap => self.exec_build_map(vm, ins),
            Opcode::BuildConstKeyMap => self.exec_const_key_map(vm, ins),
            Opcode::ListExtend | Opcode::SetUpdate => self.exec_extend(vm, ins),
            Opcode::StoreSubscr => self.exec_store_subscript(vm, ins),
            Opcode::JumpForward
            | Opcode::JumpBackward
            | Opcode::JumpBackwardNoInterrupt
            | Opcode::PopJumpIfFalse
            | Opcode::PopJumpIfTrue => self.exec_jump(vm, ins),
            Opcode::ReturnConst | Opcode::ReturnValue => self.exec_return(vm, ins),
            Opcode::Copy | Opcode::Swap => self.exec_copy_swap(vm, ins),
            Opcode::Call => self.exec_call(vm, ins),
            Opcode::ForIter | Opcode::MakeFunction => Err(
                VmError::UnsupportedOpcode {
                    offset: ins.offset,
                    opcode: ins.raw_opcode(),
                    filename: self.code.filename.clone(),
                },
            ),
            Opcode::Unknown(byte) => Err(
                VmError::UnsupportedOpcode {
                    offset: ins.offset,
                    opcode: byte,
                    filename: self.code.filename.clone(),
                },
            ),
        }
    }
}

/// Where running with a budget of steps ends.
pub enum RunOutcome {
    /// A step asked the host for something (or, with `Event::Nothing`, the
    /// budget ran out or the next instruction's integer division would overflow).
    Paused { frame: FrameState, globals: Globals, event: Event },
    /// The code object returned.
    Returned { value: Value, globals: Globals },
    /// A step failed.
    Failed { fault: VmFault, globals: Globals },
}

/// Steps while nothing is asked of the host, at most `fuel` times, and not
/// into an instruction whose integer division would overflow.
pub open spec fn run_spec(code: SpecCode, instructions: Seq<Instruction>, f: FrameState, g: Globals, fuel: nat) -> RunOutcome
    decreases fuel,
{
    if fuel == 0 || step_panics(instructions, f) {
        RunOutcome::Paused { frame: f, globals: g, event: Event::Nothing }
    } else {
        match step_spec(code, instructions, f, g) {
            Outcome::Next { frame, globals, event } => match event {
                Event::Nothing => run_spec(code, instructions, frame, globals, (fuel - 1) as nat),
                _ => RunOutcome::Paused { frame, globals, event },
            },
            Outcome::Return(value) => RunOutcome::Returned { value, globals: g },
            Outcome::Fail(fault) => RunOutcome::Failed { fault, globals: g },
        }
    }
}

impl<'a> Frame<'a> {
    /// Steps until a step asks something of the host, returns or fails;
    /// at most `fuel` steps, and never into an instruction whose integer
    /// division would overflow (then, as when the fuel runs out, the answer
    /// is `Step::Continue` and the frame waits at that instruction).
    pub fn run(&mut self, vm: &mut Vm, fuel: u64) -> (r: Result<Step, VmError>)
        requires
            old(self).wf(),
        ensures
            final(self).wf(),
            final(self).same_program(old(self)),
            final(self).instructions() == old(self).instructions(),
            final(self).code() == old(self).code(),
            final(vm).printed() == old(vm).printed(),
            match run_spec(old(self).code(), old(self).instructions(), old(self).state(), old(vm)@, fuel as nat) {
                RunOutcome::Paused { frame, globals, event } => r matches Ok(s) && event_is(s, event)
                    && final(self).state() == frame && final(vm)@ == globals,
                RunOutcome::Returned { value, globals } => r matches Ok(Step::Return(x)) && vm_view(x)
                    == value && final(vm)@ == globals,
                RunOutcome::Failed { fault, globals } => r matches Err(e) && fault_view(e) == fault
                    && final(vm)@ == globals,
            },
    {
        let ghost code = self.code();
        let ghost instructions = self.instructions();
        let ghost goal = run_spec(code, instructions, self.state(), vm@, fuel as nat);
        let mut remaining = fuel;
        while remaining > 0
            invariant
                self.wf(),
                self.same_program(old(self)),
                self.code() == code,
                self.instructions() == instructions,
                vm.printed() == old(vm).printed(),
                run_spec(code, instructions, self.state(), vm@, remaining as nat) == goal,
                code == old(self).code(),
                instructions == old(self).instructions(),
                goal == run_spec(
                    old(self).code(),
                    old(self).instructions(),
                    old(self).state(),
                    old(vm)@,
                    fuel as nat,
                ),
            decreases remaining,
        {
            if self.would_panic() {
                assert(run_spec(code, instructions, self.state(), vm@, remaining as nat) == (
                RunOutcome::Paused { frame: self.state(), globals: vm@, event: Event::Nothing }));
                return Ok(Step::Continue);
            }
            let ghost before = self.state();
            let ghost globals = vm@;
            let result = self.step(vm);
            proof {
                let o = step_spec(code, instructions, before, globals);
                assert(run_spec(code, instructions, before, globals, remaining as nat) == match o {
                    Outcome::Next { frame, globals, event } => match event {
                        Event::Nothing => run_spec(
                            code,
                            instructions,
                            frame,
                            globals,
                            (remaining - 1) as nat,
                        ),
                        _ => RunOutcome::Paused { frame, globals, event },
                    },
                    Outcome::Return(value) => RunOutcome::Returned { value, globals },
                    Outcome::Fail(fault) => RunOutcome::Failed { fault, globals },
                });
            }
            match result {
                Ok(Step::Continue) => {},
                other => {
                    return other;
                },
            }
            remaining = remaining - 1;
        }
        Ok(Step::Continue)
    }
}

} // verus!
