use rython::{
    decode, print_line_pieces, BytecodeError, CodeObject, FloatOperation, FloatRequest, Frame,
    Instruction, MarshalLong, MarshalValue, Opcode, Piece, Step, Vm, VmError, VmValue,
};

// CPython 3.12 opcode bytes used by the hand-assembled programs below.
const CACHE: u8 = 0;
const POP_TOP: u8 = 1;
const PUSH_NULL: u8 = 2;
const UNARY_NEGATIVE: u8 = 11;
const UNARY_NOT: u8 = 12;
const UNARY_INVERT: u8 = 15;
const BINARY_SUBSCR: u8 = 25;
const STORE_SUBSCR: u8 = 60;
const RETURN_VALUE: u8 = 83;
const STORE_NAME: u8 = 90;
const SWAP: u8 = 99;
const LOAD_CONST: u8 = 100;
const LOAD_NAME: u8 = 101;
const BUILD_TUPLE: u8 = 102;
const BUILD_LIST: u8 = 103;
const BUILD_SET: u8 = 104;
const BUILD_MAP: u8 = 105;
const COMPARE_OP: u8 = 107;
const JUMP_FORWARD: u8 = 110;
const POP_JUMP_IF_FALSE: u8 = 114;
const LOAD_GLOBAL: u8 = 116;
const COPY: u8 = 120;
const RETURN_CONST: u8 = 121;
const BINARY_OP: u8 = 122;
const LOAD_FAST: u8 = 124;
const STORE_FAST: u8 = 125;
const JUMP_BACKWARD: u8 = 140;
const RESUME: u8 = 151;
const BUILD_CONST_KEY_MAP: u8 = 156;
const LIST_EXTEND: u8 = 162;
const SET_UPDATE: u8 = 163;
const CALL: u8 = 171;
const CALL_INTRINSIC_1: u8 = 173;
const MAKE_FUNCTION: u8 = 132;

/// Wordcode: each instruction as (opcode, argument, number of CACHE entries after it).
fn assemble(program: &[(u8, u8, usize)]) -> Vec<u8> {
    let mut bytes = Vec::new();
    for &(opcode, arg, caches) in program {
        bytes.push(opcode);
        bytes.push(arg);
        for _ in 0..caches {
            bytes.push(CACHE);
            bytes.push(0);
        }
    }
    bytes
}

fn code_object(
    bytecode: Vec<u8>,
    constants: Vec<MarshalValue>,
    names: &[&str],
    locals: &[&str],
) -> CodeObject {
    CodeObject {
        arg_count: locals.len() as u32,
        positional_only_arg_count: 0,
        keyword_only_arg_count: 0,
        stack_size: 8,
        flags: 0,
        bytecode,
        constants,
        names: names.iter().map(|name| name.to_string()).collect(),
        localsplus_names: locals.iter().map(|name| name.to_string()).collect(),
        localsplus_kinds: vec![0; locals.len()],
        filename: "<test>".to_string(),
        name: "<module>".to_string(),
        qualified_name: "<module>".to_string(),
        first_line_number: 1,
        line_table: Vec::new(),
        exception_table: Vec::new(),
    }
}

fn small(value: i64) -> MarshalValue {
    MarshalValue::Int(value)
}

fn text(value: &str) -> MarshalValue {
    MarshalValue::String(value.to_string())
}

fn float_bits(value: f64) -> u64 {
    value.to_bits()
}

fn float_result(request: FloatRequest) -> u64 {
    let left = f64::from_bits(request.left);
    let right = f64::from_bits(request.right);
    let value = match request.operation {
        FloatOperation::Add => left + right,
        FloatOperation::Subtract => left - right,
        FloatOperation::Multiply => left * right,
        FloatOperation::TrueDivide => left / right,
        FloatOperation::FloorDivide => (left / right).floor(),
        FloatOperation::Remainder => left - (left / right).floor() * right,
        FloatOperation::Power => left.powf(right),
    };
    value.to_bits()
}

fn text_of(pieces: Vec<Piece>) -> String {
    let mut text = String::new();
    for piece in pieces {
        match piece {
            Piece::Text(part) => text.push_str(&part),
            Piece::Float(bits) => text.push_str(&format!("{}", f64::from_bits(bits))),
        }
    }
    text
}

/// Runs a code object to its end, carrying out floating-point operations
/// and printing as a host does.
fn run_with_locals(vm: &mut Vm, code: &CodeObject, locals: Vec<VmValue>) -> Result<VmValue, VmError> {
    let mut frame = Frame::start(code, locals)?;
    loop {
        match frame.run(vm, 10_000)? {
            Step::Return(value) => return Ok(value),
            Step::Print(arguments) => vm.append_output(&text_of(print_line_pieces(&arguments))),
            Step::Float(request) => frame.push_float(float_result(request)),
            Step::Continue => {
                assert!(!frame.would_panic(), "integer division overflow");
            }
        }
    }
}

fn run(vm: &mut Vm, code: &CodeObject) -> Result<VmValue, VmError> {
    run_with_locals(vm, code, Vec::new())
}

#[test]
fn decodes_python_312_wordcode_and_extended_args() {
    let instructions = decode(&[
        151, 0, // RESUME 0
        144, 1, // EXTENDED_ARG 1
        100, 2, // LOAD_CONST 0x102
        0, 0, // CACHE
    ])
    .expect("valid wordcode");

    assert_eq!(
        instructions,
        vec![
            Instruction {
                offset: 0,
                opcode: Opcode::Resume,
                arg: 0,
                size: 2,
            },
            Instruction {
                offset: 2,
                opcode: Opcode::LoadConst,
                arg: 0x102,
                size: 4,
            },
            Instruction {
                offset: 6,
                opcode: Opcode::Cache,
                arg: 0,
                size: 2,
            },
        ]
    );
}

#[test]
fn rejects_malformed_wordcode() {
    assert_eq!(
        decode(&[151]).expect_err("odd-length bytecode must fail"),
        BytecodeError::OddLength { length: 1 }
    );
    assert_eq!(
        decode(&[144, 1]).expect_err("dangling EXTENDED_ARG must fail"),
        BytecodeError::DanglingExtendedArg { offset: 0 }
    );
}

/// The wordcode CPython 3.12 emits for a module of assignments
/// `name = left <op> right`, each operand a name or a constant.
#[test]
fn executes_integer_float_string_and_comparison_operations() {
    // names: 0 a, 1 b, then the results
    let names = [
        "a", "b", "add", "sub", "mul", "floor", "remainder", "true_div", "power", "left_shift",
        "bit_and", "bit_or", "bit_xor", "negative", "positive", "less", "equal", "not_equal",
        "text", "mixed",
    ];
    let constants = vec![
        small(10),                          // 0
        small(3),                           // 1
        small(2),                           // 2
        text("a"),                        // 3
        text("b"),                        // 4
        MarshalValue::Float(rython::MarshalFloat::Binary(float_bits(1.5))), // 5
        MarshalValue::PyNone,             // 6
    ];
    let mut program = vec![
        (RESUME, 0, 0),
        (LOAD_CONST, 0, 0),
        (STORE_NAME, 0, 0),
        (LOAD_CONST, 1, 0),
        (STORE_NAME, 1, 0),
    ];
    // a <op> b for + - * // % /
    for (operation, target) in [(0u8, 2u8), (10, 3), (5, 4), (2, 5), (6, 6), (11, 7)] {
        program.extend([
            (LOAD_NAME, 0, 0),
            (LOAD_NAME, 1, 0),
            (BINARY_OP, operation, 1),
            (STORE_NAME, target, 0),
        ]);
    }
    // b ** 2, b << 2
    for (operation, target) in [(8u8, 8u8), (3, 9)] {
        program.extend([
            (LOAD_NAME, 1, 0),
            (LOAD_CONST, 2, 0),
            (BINARY_OP, operation, 1),
            (STORE_NAME, target, 0),
        ]);
    }
    // a & b, a | b, a ^ b
    for (operation, target) in [(1u8, 10u8), (7, 11), (12, 12)] {
        program.extend([
            (LOAD_NAME, 0, 0),
            (LOAD_NAME, 1, 0),
            (BINARY_OP, operation, 1),
            (STORE_NAME, target, 0),
        ]);
    }
    program.extend([
        (LOAD_NAME, 1, 0),
        (UNARY_NEGATIVE, 0, 0),
        (STORE_NAME, 13, 0),
        (LOAD_NAME, 1, 0),
        (CALL_INTRINSIC_1, 5, 0),
        (STORE_NAME, 14, 0),
        // a < b
        (LOAD_NAME, 0, 0),
        (LOAD_NAME, 1, 0),
        (COMPARE_OP, 2, 1),
        (STORE_NAME, 15, 0),
        // a == 10
        (LOAD_NAME, 0, 0),
        (LOAD_CONST, 0, 0),
        (COMPARE_OP, 40, 1),
        (STORE_NAME, 16, 0),
        // a != b
        (LOAD_NAME, 0, 0),
        (LOAD_NAME, 1, 0),
        (COMPARE_OP, 55, 1),
        (STORE_NAME, 17, 0),
        // "a" + "b"
        (LOAD_CONST, 3, 0),
        (LOAD_CONST, 4, 0),
        (BINARY_OP, 0, 1),
        (STORE_NAME, 18, 0),
        // 1.5 + 2
        (LOAD_CONST, 5, 0),
        (LOAD_CONST, 2, 0),
        (BINARY_OP, 0, 1),
        (STORE_NAME, 19, 0),
        (RETURN_CONST, 6, 0),
    ]);
    let code = code_object(assemble(&program), constants, &names, &[]);

    let mut vm = Vm::new();
    assert_eq!(run(&mut vm, &code).expect("execute arithmetic"), VmValue::PyNone);
    assert_eq!(vm.global("add"), Some(&VmValue::Int(13)));
    assert_eq!(vm.global("sub"), Some(&VmValue::Int(7)));
    assert_eq!(vm.global("mul"), Some(&VmValue::Int(30)));
    assert_eq!(vm.global("floor"), Some(&VmValue::Int(3)));
    assert_eq!(vm.global("remainder"), Some(&VmValue::Int(1)));
    assert_eq!(vm.global("true_div"), Some(&VmValue::Float(float_bits(10.0 / 3.0))));
    assert_eq!(vm.global("power"), Some(&VmValue::Int(9)));
    assert_eq!(vm.global("left_shift"), Some(&VmValue::Int(12)));
    assert_eq!(vm.global("bit_and"), Some(&VmValue::Int(2)));
    assert_eq!(vm.global("bit_or"), Some(&VmValue::Int(11)));
    assert_eq!(vm.global("bit_xor"), Some(&VmValue::Int(9)));
    assert_eq!(vm.global("negative"), Some(&VmValue::Int(-3)));
    assert_eq!(vm.global("positive"), Some(&VmValue::Int(3)));
    assert_eq!(vm.global("less"), Some(&VmValue::Bool(false)));
    assert_eq!(vm.global("equal"), Some(&VmValue::Bool(true)));
    assert_eq!(vm.global("not_equal"), Some(&VmValue::Bool(true)));
    assert_eq!(vm.global("text"), Some(&VmValue::String("ab".to_string())));
    assert_eq!(vm.global("mixed"), Some(&VmValue::Float(float_bits(3.5))));
}

#[test]
fn executes_containers_subscripts_and_assignment() {
    let names = [
        "a", "b", "values", "second", "pair", "first", "mapping", "mapped", "items", "combined",
    ];
    let constants = vec![
        small(1),         // 0
        small(2),         // 1
        small(3),         // 2
        small(9),         // 3
        small(0),         // 4
        text("a"),      // 5
        text("b"),      // 6
        text("x"),      // 7
        MarshalValue::PyNone, // 8
    ];
    let program = [
        (RESUME, 0, 0),
        (LOAD_CONST, 0, 0),
        (STORE_NAME, 0, 0),
        (LOAD_CONST, 1, 0),
        (STORE_NAME, 1, 0),
        // values = [a, b, 3]
        (LOAD_NAME, 0, 0),
        (LOAD_NAME, 1, 0),
        (LOAD_CONST, 2, 0),
        (BUILD_LIST, 3, 0),
        (STORE_NAME, 2, 0),
        // second = values[1]
        (LOAD_NAME, 2, 0),
        (LOAD_CONST, 0, 0),
        (BINARY_SUBSCR, 0, 1),
        (STORE_NAME, 3, 0),
        // values[1] = 9
        (LOAD_CONST, 3, 0),
        (LOAD_NAME, 2, 0),
        (LOAD_CONST, 0, 0),
        (STORE_SUBSCR, 0, 1),
        // pair = (a, b)
        (LOAD_NAME, 0, 0),
        (LOAD_NAME, 1, 0),
        (BUILD_TUPLE, 2, 0),
        (STORE_NAME, 4, 0),
        // first = pair[0]
        (LOAD_NAME, 4, 0),
        (LOAD_CONST, 4, 0),
        (BINARY_SUBSCR, 0, 1),
        (STORE_NAME, 5, 0),
        // mapping = {"a": a}
        (LOAD_CONST, 5, 0),
        (LOAD_NAME, 0, 0),
        (BUILD_MAP, 1, 0),
        (STORE_NAME, 6, 0),
        // mapped = mapping["a"]
        (LOAD_NAME, 6, 0),
        (LOAD_CONST, 5, 0),
        (BINARY_SUBSCR, 0, 1),
        (STORE_NAME, 7, 0),
        // mapping["b"] = b
        (LOAD_NAME, 1, 0),
        (LOAD_NAME, 6, 0),
        (LOAD_CONST, 6, 0),
        (STORE_SUBSCR, 0, 1),
        // items = {a, b, a}
        (LOAD_NAME, 0, 0),
        (LOAD_NAME, 1, 0),
        (LOAD_NAME, 0, 0),
        (BUILD_SET, 3, 0),
        (STORE_NAME, 8, 0),
        // combined = "x" * 3
        (LOAD_CONST, 7, 0),
        (LOAD_CONST, 2, 0),
        (BINARY_OP, 5, 1),
        (STORE_NAME, 9, 0),
        (RETURN_CONST, 8, 0),
    ];
    let code = code_object(assemble(&program), constants, &names, &[]);

    let mut vm = Vm::new();
    run(&mut vm, &code).expect("execute containers");

    assert_eq!(
        vm.global("values"),
        Some(&VmValue::List(vec![
            VmValue::Int(1),
            VmValue::Int(9),
            VmValue::Int(3),
        ]))
    );
    assert_eq!(vm.global("second"), Some(&VmValue::Int(2)));
    assert_eq!(
        vm.global("pair"),
        Some(&VmValue::Tuple(vec![VmValue::Int(1), VmValue::Int(2)]))
    );
    assert_eq!(vm.global("first"), Some(&VmValue::Int(1)));
    assert_eq!(vm.global("mapped"), Some(&VmValue::Int(1)));
    assert_eq!(
        vm.global("mapping"),
        Some(&VmValue::Dict(vec![
            (VmValue::String("a".to_string()), VmValue::Int(1)),
            (VmValue::String("b".to_string()), VmValue::Int(2)),
        ]))
    );
    assert_eq!(
        vm.global("items"),
        Some(&VmValue::PySet(vec![VmValue::Int(1), VmValue::Int(2)]))
    );
    assert_eq!(
        vm.global("combined"),
        Some(&VmValue::String("xxx".to_string()))
    );
}

/// `if x < limit: result = "yes" else: result = "no"` as CPython 3.12 lays it out.
fn branch_program(x: i64) -> CodeObject {
    let constants = vec![small(x), small(2), text("yes"), MarshalValue::PyNone, text("no")];
    let program = [
        (RESUME, 0, 0),            // 0
        (LOAD_CONST, 0, 0),        // 2
        (STORE_NAME, 0, 0),        // 4
        (LOAD_CONST, 1, 0),        // 6
        (STORE_NAME, 1, 0),        // 8
        (LOAD_NAME, 0, 0),         // 10
        (LOAD_NAME, 1, 0),         // 12
        (COMPARE_OP, 2, 1),        // 14, cache at 16
        (POP_JUMP_IF_FALSE, 3, 0), // 18 -> 20 + 6 = 26
        (LOAD_CONST, 2, 0),        // 20
        (STORE_NAME, 2, 0),        // 22
        (RETURN_CONST, 3, 0),      // 24
        (LOAD_CONST, 4, 0),        // 26
        (STORE_NAME, 2, 0),        // 28
        (RETURN_CONST, 3, 0),      // 30
    ];
    code_object(assemble(&program), constants, &["x", "limit", "result"], &[])
}

#[test]
fn executes_conditional_jumps() {
    let code = branch_program(1);
    let mut vm = Vm::new();
    run(&mut vm, &code).expect("execute branch");
    assert_eq!(
        vm.global("result"),
        Some(&VmValue::String("yes".to_string()))
    );
}

/// `def add(a, b): value = a + b; return value` inside a module.
#[test]
fn executes_local_load_and_store_in_a_nested_code_object() {
    let add_program = [
        (RESUME, 0, 0),
        (LOAD_FAST, 0, 0),
        (LOAD_FAST, 1, 0),
        (BINARY_OP, 0, 1),
        (STORE_FAST, 2, 0),
        (LOAD_FAST, 2, 0),
        (RETURN_VALUE, 0, 0),
    ];
    let mut add = code_object(assemble(&add_program), vec![MarshalValue::PyNone], &[], &[
        "a", "b", "value",
    ]);
    add.arg_count = 2;
    add.name = "add".to_string();
    let module_program = [
        (RESUME, 0, 0),
        (LOAD_CONST, 0, 0),
        (MAKE_FUNCTION, 0, 0),
        (STORE_NAME, 0, 0),
        (RETURN_CONST, 1, 0),
    ];
    let module = code_object(
        assemble(&module_program),
        vec![MarshalValue::Code(Box::new(add)), MarshalValue::PyNone],
        &["add"],
        &[],
    );

    let nested = module.nested_code_objects();
    let code = nested.into_iter().next().expect("add code");
    let mut vm = Vm::new();
    assert_eq!(
        run_with_locals(&mut vm, code, vec![VmValue::Int(4), VmValue::Int(5)])
            .expect("execute local function body"),
        VmValue::Int(9)
    );
}

#[test]
fn runs_real_cpython_function_body() {
    // `def add(a, b): return a + b`, as CPython 3.12 compiles the body.
    let body = [0x97, 0x00, 0x7c, 0x00, 0x7c, 0x01, 0x7a, 0x00, 0x00, 0x00, 0x53, 0x00];
    let code = code_object(body.to_vec(), vec![MarshalValue::PyNone], &[], &["a", "b"]);
    let mut vm = Vm::new();
    assert_eq!(
        run_with_locals(&mut vm, &code, vec![VmValue::Int(40), VmValue::Int(2)]),
        Ok(VmValue::Int(42))
    );
    assert_eq!(
        run_with_locals(
            &mut vm,
            &code,
            vec![
                VmValue::String("py".to_string()),
                VmValue::String("thon".to_string())
            ]
        ),
        Ok(VmValue::String("python".to_string()))
    );
}

#[test]
fn takes_the_else_branch() {
    let code = branch_program(3);
    let mut vm = Vm::new();
    run(&mut vm, &code).expect("execute branch");
    assert_eq!(vm.global("result"), Some(&VmValue::String("no".to_string())));
}

#[test]
fn new_vm_binds_only_print() {
    let vm = Vm::default();
    assert_eq!(vm.globals().len(), 1);
    let vm = Vm::new();
    assert_eq!(vm.globals().len(), 1);
    assert_eq!(vm.globals()[0].0, "print");
    assert_eq!(vm.global("print"), Some(&VmValue::BuiltinPrint));
    assert_eq!(vm.global("missing"), None);
    assert_eq!(vm.output(), "");
}

#[test]
fn print_calls_reach_the_host_and_return_none() {
    // print("value:", 3); print(True, None)
    let constants = vec![
        text("value:"),
        small(3),
        MarshalValue::Bool(true),
        MarshalValue::PyNone,
    ];
    let program = [
        (RESUME, 0, 0),
        (PUSH_NULL, 0, 0),
        (LOAD_NAME, 0, 0),
        (LOAD_CONST, 0, 0),
        (LOAD_CONST, 1, 0),
        (CALL, 2, 3),
        (POP_TOP, 0, 0),
        (PUSH_NULL, 0, 0),
        (LOAD_NAME, 0, 0),
        (LOAD_CONST, 2, 0),
        (LOAD_CONST, 3, 0),
        (CALL, 2, 3),
        (RETURN_VALUE, 0, 0),
    ];
    let code = code_object(assemble(&program), constants, &["print"], &[]);
    let mut vm = Vm::new();
    assert_eq!(run(&mut vm, &code), Ok(VmValue::PyNone));
    assert_eq!(vm.output(), "value: 3\nTrue None\n");
    assert_eq!(vm.take_output(), "value: 3\nTrue None\n");
    assert_eq!(vm.output(), "");
}

#[test]
fn step_reports_print_arguments_in_order() {
    let constants = vec![small(1), small(2)];
    let program = [
        (PUSH_NULL, 0, 0),
        (LOAD_NAME, 0, 0),
        (LOAD_CONST, 0, 0),
        (LOAD_CONST, 1, 0),
        (CALL, 2, 0),
    ];
    let code = code_object(assemble(&program), constants, &["print"], &[]);
    let mut vm = Vm::new();
    let mut frame = Frame::start(&code, Vec::new()).expect("frame");
    for _ in 0..4 {
        assert!(matches!(frame.step(&mut vm), Ok(Step::Continue)));
    }
    match frame.step(&mut vm) {
        Ok(Step::Print(arguments)) => {
            assert_eq!(arguments, vec![VmValue::Int(1), VmValue::Int(2)]);
        }
        _ => panic!("expected a print request"),
    }
    // Nothing follows the call.
    assert!(matches!(
        frame.step(&mut vm),
        Err(VmError::MissingReturn { code_name }) if code_name == "<module>"
    ));
}

/// One binary operation on two constants, returned.
fn binary(left: MarshalValue, operation: u8, right: MarshalValue) -> Result<VmValue, VmError> {
    let program = [
        (LOAD_CONST, 0, 0),
        (LOAD_CONST, 1, 0),
        (BINARY_OP, operation, 1),
        (RETURN_VALUE, 0, 0),
    ];
    let code = code_object(assemble(&program), vec![left, right], &[], &[]);
    run(&mut Vm::new(), &code)
}

fn compare(left: MarshalValue, selector: u8, right: MarshalValue) -> Result<VmValue, VmError> {
    let program = [
        (LOAD_CONST, 0, 0),
        (LOAD_CONST, 1, 0),
        (COMPARE_OP, selector, 1),
        (RETURN_VALUE, 0, 0),
    ];
    let code = code_object(assemble(&program), vec![left, right], &[], &[]);
    run(&mut Vm::new(), &code)
}

#[test]
fn floor_division_and_remainder_follow_python() {
    assert_eq!(binary(small(-7), 2, small(2)), Ok(VmValue::Int(-4)));
    assert_eq!(binary(small(-7), 6, small(2)), Ok(VmValue::Int(1)));
    assert_eq!(binary(small(7), 2, small(-2)), Ok(VmValue::Int(-4)));
    assert_eq!(binary(small(7), 6, small(-2)), Ok(VmValue::Int(-1)));
    assert_eq!(binary(small(-8), 2, small(-3)), Ok(VmValue::Int(2)));
    assert_eq!(binary(small(-8), 6, small(-3)), Ok(VmValue::Int(-2)));
    assert_eq!(binary(small(i64::MIN), 2, small(1)), Ok(VmValue::Int(i64::MIN)));
    assert_eq!(binary(small(i64::MIN), 2, small(2)), Ok(VmValue::Int(i64::MIN / 2)));
    // The in-place selector (13 + n) means the same operator.
    assert_eq!(binary(small(-7), 15, small(2)), Ok(VmValue::Int(-4)));
}

#[test]
fn remainder_whose_product_overflows_is_an_error() {
    // (MIN // 3) * 3 lies below i64::MIN.
    assert_eq!(
        binary(small(i64::MIN), 6, small(3)),
        Err(VmError::IntegerOverflow {
            offset: 4,
            operation: "%".to_string()
        })
    );
}

#[test]
fn division_by_zero_is_an_error() {
    for operation in [2u8, 6, 11] {
        assert_eq!(
            binary(small(1), operation, small(0)),
            Err(VmError::ZeroDivision { offset: 4 })
        );
    }
    assert_eq!(
        binary(
            MarshalValue::Float(rython::MarshalFloat::Binary(float_bits(1.0))),
            11,
            MarshalValue::Float(rython::MarshalFloat::Binary(float_bits(-0.0)))
        ),
        Err(VmError::ZeroDivision { offset: 4 })
    );
}

#[test]
fn integer_overflow_is_reported() {
    assert_eq!(
        binary(small(i64::MAX), 0, small(1)),
        Err(VmError::IntegerOverflow {
            offset: 4,
            operation: "+".to_string()
        })
    );
    assert_eq!(
        binary(small(i64::MIN), 10, small(1)),
        Err(VmError::IntegerOverflow {
            offset: 4,
            operation: "-".to_string()
        })
    );
    assert_eq!(
        binary(small(1 << 40), 5, small(1 << 40)),
        Err(VmError::IntegerOverflow {
            offset: 4,
            operation: "*".to_string()
        })
    );
}

#[test]
fn powers_stay_integers_while_they_fit() {
    assert_eq!(binary(small(-2), 8, small(63)), Ok(VmValue::Int(i64::MIN)));
    assert_eq!(binary(small(-1), 8, small(4_000_000_001)), Ok(VmValue::Int(-1)));
    assert_eq!(binary(small(0), 8, small(0)), Ok(VmValue::Int(1)));
    assert_eq!(
        binary(small(2), 8, small(64)),
        Ok(VmValue::Float(float_bits(2f64.powf(64.0))))
    );
    assert_eq!(binary(small(2), 8, small(-1)), Ok(VmValue::Float(float_bits(0.5))));
    assert_eq!(
        binary(small(2), 8, small(1 << 33)),
        Err(VmError::IntegerOverflow {
            offset: 4,
            operation: "**".to_string()
        })
    );
}

#[test]
fn shifts_check_their_count() {
    assert_eq!(binary(small(1), 3, small(63)), Ok(VmValue::Int(i64::MIN)));
    assert_eq!(binary(small(-16), 9, small(2)), Ok(VmValue::Int(-4)));
    assert_eq!(
        binary(small(1), 3, small(64)),
        Err(VmError::ValueError {
            offset: 4,
            operation: "shift count".to_string()
        })
    );
    assert_eq!(
        binary(small(1), 9, small(-1)),
        Err(VmError::ValueError {
            offset: 4,
            operation: "shift count".to_string()
        })
    );
}

#[test]
fn bitwise_operators_refuse_floats() {
    assert_eq!(
        binary(
            MarshalValue::Float(rython::MarshalFloat::Binary(float_bits(1.0))),
            1,
            small(1)
        ),
        Err(VmError::TypeError {
            offset: 4,
            operation: "&".to_string(),
            left: "float".to_string(),
            right: Some("float".to_string())
        })
    );
}

#[test]
fn mixed_float_arithmetic_goes_to_the_host() {
    let one_and_half = MarshalValue::Float(rython::MarshalFloat::Binary(float_bits(1.5)));
    let program = [
        (LOAD_CONST, 0, 0),
        (LOAD_CONST, 1, 0),
        (BINARY_OP, 5, 1),
        (RETURN_VALUE, 0, 0),
    ];
    let code = code_object(assemble(&program), vec![one_and_half, small(3)], &[], &[]);
    let mut vm = Vm::new();
    let mut frame = Frame::start(&code, Vec::new()).expect("frame");
    match frame.run(&mut vm, 100) {
        Ok(Step::Float(request)) => {
            assert_eq!(
                request,
                FloatRequest {
                    operation: FloatOperation::Multiply,
                    left: float_bits(1.5),
                    right: float_bits(3.0)
                }
            );
            frame.push_float(float_result(request));
        }
        _ => panic!("expected a float request"),
    }
    match frame.run(&mut vm, 100) {
        Ok(Step::Return(value)) => assert_eq!(value, VmValue::Float(float_bits(4.5))),
        _ => panic!("expected the result"),
    }
}

#[test]
fn integers_convert_to_the_nearest_float() {
    // 2^53 + 1 is not a binary64: it rounds to even, 2^53.
    let big = 9_007_199_254_740_993i64;
    let one = MarshalValue::Float(rython::MarshalFloat::Binary(float_bits(1.0)));
    assert_eq!(
        binary(small(big), 5, one),
        Ok(VmValue::Float(float_bits(big as f64)))
    );
    assert_eq!(
        compare(small(big), 40, small(big - 1)),
        Ok(VmValue::Bool(true))
    );
}

#[test]
fn comparisons_cover_numbers_text_and_bytes() {
    assert_eq!(compare(small(1), 2, small(2)), Ok(VmValue::Bool(true)));
    assert_eq!(compare(small(2), 18, small(2)), Ok(VmValue::Bool(true)));
    assert_eq!(compare(small(3), 66, small(2)), Ok(VmValue::Bool(true)));
    assert_eq!(compare(small(2), 82, small(3)), Ok(VmValue::Bool(false)));
    assert_eq!(
        compare(MarshalValue::Bool(true), 40, small(1)),
        Ok(VmValue::Bool(true))
    );
    assert_eq!(compare(text("abc"), 2, text("abd")), Ok(VmValue::Bool(true)));
    assert_eq!(compare(text("ab"), 2, text("abc")), Ok(VmValue::Bool(true)));
    assert_eq!(compare(text("é"), 66, text("z")), Ok(VmValue::Bool(true)));
    assert_eq!(
        compare(
            MarshalValue::Bytes(vec![1, 2]),
            82,
            MarshalValue::Bytes(vec![1, 2])
        ),
        Ok(VmValue::Bool(true))
    );
    assert_eq!(
        compare(text("a"), 2, small(1)),
        Err(VmError::TypeError {
            offset: 4,
            operation: "comparison".to_string(),
            left: "str".to_string(),
            right: Some("int".to_string())
        })
    );
    assert_eq!(
        compare(small(1), 96, small(1)),
        Err(VmError::InvalidArgument {
            offset: 4,
            opcode: COMPARE_OP,
            argument: 96,
            reason: "unknown COMPARE_OP selector 96".to_string()
        })
    );
}

#[test]
fn comparing_with_nan_orders_nothing() {
    let nan = MarshalValue::Float(rython::MarshalFloat::Binary(f64::NAN.to_bits()));
    let nan_again = MarshalValue::Float(rython::MarshalFloat::Binary(f64::NAN.to_bits()));
    assert_eq!(
        compare(nan, 2, small(1)),
        Err(VmError::ValueError {
            offset: 4,
            operation: "comparison with NaN".to_string()
        })
    );
    let nan = MarshalValue::Float(rython::MarshalFloat::Binary(f64::NAN.to_bits()));
    assert_eq!(compare(nan, 40, nan_again), Ok(VmValue::Bool(false)));
}

#[test]
fn unary_operators() {
    let run_unary = |opcode: u8, value: MarshalValue| {
        let program = [(LOAD_CONST, 0, 0), (opcode, 0, 0), (RETURN_VALUE, 0, 0)];
        let code = code_object(assemble(&program), vec![value], &[], &[]);
        run(&mut Vm::new(), &code)
    };
    assert_eq!(run_unary(UNARY_NEGATIVE, small(5)), Ok(VmValue::Int(-5)));
    assert_eq!(
        run_unary(UNARY_NEGATIVE, small(i64::MIN)),
        Err(VmError::IntegerOverflow {
            offset: 2,
            operation: "unary -".to_string()
        })
    );
    assert_eq!(
        run_unary(
            UNARY_NEGATIVE,
            MarshalValue::Float(rython::MarshalFloat::Binary(float_bits(2.5)))
        ),
        Ok(VmValue::Float(float_bits(-2.5)))
    );
    assert_eq!(run_unary(UNARY_NEGATIVE, MarshalValue::Bool(true)), Ok(VmValue::Int(-1)));
    assert_eq!(run_unary(UNARY_INVERT, small(5)), Ok(VmValue::Int(-6)));
    assert_eq!(run_unary(UNARY_INVERT, MarshalValue::Bool(true)), Ok(VmValue::Int(-2)));
    assert_eq!(run_unary(UNARY_NOT, text("")), Ok(VmValue::Bool(true)));
    assert_eq!(run_unary(UNARY_NOT, small(7)), Ok(VmValue::Bool(false)));
    assert_eq!(
        run_unary(UNARY_NOT, MarshalValue::Float(rython::MarshalFloat::Binary(f64::NAN.to_bits()))),
        Ok(VmValue::Bool(false))
    );
    assert_eq!(
        run_unary(UNARY_INVERT, text("x")),
        Err(VmError::TypeError {
            offset: 2,
            operation: "unary ~".to_string(),
            left: "str".to_string(),
            right: None
        })
    );
}

#[test]
fn sequences_concatenate_and_repeat() {
    assert_eq!(
        binary(
            MarshalValue::Bytes(vec![1]),
            0,
            MarshalValue::Bytes(vec![2, 3])
        ),
        Ok(VmValue::Bytes(vec![1, 2, 3]))
    );
    assert_eq!(
        binary(small(2), 5, MarshalValue::Tuple(vec![small(7)])),
        Ok(VmValue::Tuple(vec![VmValue::Int(7), VmValue::Int(7)]))
    );
    assert_eq!(
        binary(MarshalValue::List(vec![small(1)]), 5, small(-3)),
        Ok(VmValue::List(vec![]))
    );
    assert_eq!(
        binary(text("ab"), 5, MarshalValue::Bool(true)),
        Ok(VmValue::String("ab".to_string()))
    );
    assert_eq!(
        binary(text("a"), 0, small(1)),
        Err(VmError::TypeError {
            offset: 4,
            operation: "+".to_string(),
            left: "str".to_string(),
            right: Some("int".to_string())
        })
    );
}

#[test]
fn subscripts_count_from_the_end_and_report_misses() {
    let load = |container: MarshalValue, index: MarshalValue| {
        let program = [
            (LOAD_CONST, 0, 0),
            (LOAD_CONST, 1, 0),
            (BINARY_SUBSCR, 0, 1),
            (RETURN_VALUE, 0, 0),
        ];
        let code = code_object(assemble(&program), vec![container, index], &[], &[]);
        run(&mut Vm::new(), &code)
    };
    assert_eq!(
        load(MarshalValue::Tuple(vec![small(1), small(2), small(3)]), small(-1)),
        Ok(VmValue::Int(3))
    );
    assert_eq!(load(text("héllo"), small(1)), Ok(VmValue::String("é".to_string())));
    assert_eq!(load(MarshalValue::Bytes(vec![9, 8]), small(1)), Ok(VmValue::Int(8)));
    assert_eq!(
        load(MarshalValue::List(vec![small(1)]), small(1)),
        Err(VmError::IndexError { offset: 4, index: 1 })
    );
    assert_eq!(
        load(MarshalValue::List(vec![small(1)]), small(-2)),
        Err(VmError::IndexError { offset: 4, index: -2 })
    );
    assert_eq!(
        load(
            MarshalValue::Dict(vec![(small(1), text("one"))]),
            MarshalValue::Bool(true)
        ),
        Ok(VmValue::String("one".to_string()))
    );
    assert_eq!(
        load(MarshalValue::Dict(vec![(small(1), text("one"))]), small(2)),
        Err(VmError::KeyError { offset: 4 })
    );
    assert_eq!(
        load(small(1), small(0)),
        Err(VmError::TypeError {
            offset: 4,
            operation: "subscription".to_string(),
            left: "int".to_string(),
            right: Some("int".to_string())
        })
    );
}

#[test]
fn stack_and_name_errors() {
    let program = [(POP_TOP, 0, 0)];
    let code = code_object(assemble(&program), vec![], &[], &[]);
    assert_eq!(
        run(&mut Vm::new(), &code),
        Err(VmError::StackUnderflow {
            offset: 0,
            opcode: POP_TOP
        })
    );

    let program = [(LOAD_NAME, 0, 0)];
    let code = code_object(assemble(&program), vec![], &["nothing"], &[]);
    assert_eq!(
        run(&mut Vm::new(), &code),
        Err(VmError::UnknownName {
            offset: 0,
            name: "nothing".to_string()
        })
    );

    let program = [(LOAD_NAME, 3, 0)];
    let code = code_object(assemble(&program), vec![], &["nothing"], &[]);
    assert_eq!(
        run(&mut Vm::new(), &code),
        Err(VmError::NameIndexOutOfBounds { offset: 0, index: 3 })
    );

    let program = [(LOAD_CONST, 0, 0)];
    let code = code_object(assemble(&program), vec![], &[], &[]);
    assert_eq!(
        run(&mut Vm::new(), &code),
        Err(VmError::ConstantIndexOutOfBounds { offset: 0, index: 0 })
    );

    let program = [(LOAD_FAST, 0, 0)];
    let code = code_object(assemble(&program), vec![], &[], &["a"]);
    assert_eq!(
        run(&mut Vm::new(), &code),
        Err(VmError::UnboundLocal {
            offset: 0,
            name: "a".to_string()
        })
    );

    let program = [(STORE_FAST, 1, 0)];
    let code = code_object(assemble(&program), vec![], &[], &["a"]);
    assert_eq!(
        run(&mut Vm::new(), &code),
        Err(VmError::LocalIndexOutOfBounds { offset: 0, index: 1 })
    );

    // LOAD_GLOBAL takes its name index from the argument shifted right by one.
    let program = [(LOAD_GLOBAL, 1, 4), (RETURN_VALUE, 0, 0)];
    let code = code_object(assemble(&program), vec![], &["print"], &[]);
    assert_eq!(run(&mut Vm::new(), &code), Ok(VmValue::BuiltinPrint));
}

#[test]
fn running_off_the_end_and_unsupported_opcodes_fail() {
    let code = code_object(assemble(&[(RESUME, 0, 0)]), vec![], &[], &[]);
    assert_eq!(
        run(&mut Vm::new(), &code),
        Err(VmError::MissingReturn {
            code_name: "<module>".to_string()
        })
    );
    let code = code_object(assemble(&[(MAKE_FUNCTION, 0, 0)]), vec![], &[], &[]);
    assert_eq!(
        run(&mut Vm::new(), &code),
        Err(VmError::UnsupportedOpcode {
            offset: 0,
            opcode: MAKE_FUNCTION,
            filename: "<test>".to_string()
        })
    );
    let code = code_object(vec![200, 0], vec![], &[], &[]);
    assert_eq!(
        run(&mut Vm::new(), &code),
        Err(VmError::UnsupportedOpcode {
            offset: 0,
            opcode: 200,
            filename: "<test>".to_string()
        })
    );
    let code = code_object(vec![151], vec![], &[], &[]);
    assert_eq!(
        run(&mut Vm::new(), &code),
        Err(VmError::Bytecode(BytecodeError::OddLength { length: 1 }))
    );
}

#[test]
fn unsupported_opcode_names_file_and_offset() {
    let mut code = code_object(vec![RESUME, 0, 3, 0], vec![], &[], &[]);
    code.filename = "m.py".to_string();
    let result = run(&mut Vm::new(), &code);
    assert_eq!(
        result,
        Err(VmError::UnsupportedOpcode {
            offset: 2,
            opcode: 3,
            filename: "m.py".to_string()
        })
    );
    assert_eq!(
        result.unwrap_err().message(),
        "unsupported opcode 0x03 at offset 2 in m.py"
    );
}

#[test]
fn byte_ten_is_not_a_python_312_opcode() {
    assert_eq!(Opcode::from_byte(10), Opcode::Unknown(10));
    assert_eq!(Opcode::Unknown(10).raw(), 10);
    let instructions = decode(&[10, 0]).expect("valid wordcode");
    assert_eq!(instructions[0].opcode, Opcode::Unknown(10));
    let code = code_object(
        vec![LOAD_CONST, 0, 10, 0, RETURN_VALUE, 0],
        vec![small(3)],
        &[],
        &[],
    );
    assert_eq!(
        run(&mut Vm::new(), &code),
        Err(VmError::UnsupportedOpcode {
            offset: 2,
            opcode: 10,
            filename: "<test>".to_string()
        })
    );
}

#[test]
fn jumps_must_land_on_an_instruction() {
    let code = code_object(
        assemble(&[(JUMP_FORWARD, 9, 0)]),
        vec![],
        &[],
        &[],
    );
    assert_eq!(
        run(&mut Vm::new(), &code),
        Err(VmError::InvalidJumpTarget {
            offset: 0,
            target: 20
        })
    );
    let code = code_object(assemble(&[(JUMP_BACKWARD, 5, 0)]), vec![], &[], &[]);
    assert_eq!(
        run(&mut Vm::new(), &code),
        Err(VmError::InvalidJumpTarget {
            offset: 0,
            target: usize::MAX
        })
    );
}

#[test]
fn loops_run_until_their_condition_fails() {
    // i = 0; while i < 5: i = i + 1
    let constants = vec![small(0), small(5), small(1), MarshalValue::PyNone];
    let program = [
        (LOAD_CONST, 0, 0),        // 0
        (STORE_NAME, 0, 0),        // 2
        (LOAD_NAME, 0, 0),         // 4
        (LOAD_CONST, 1, 0),        // 6
        (COMPARE_OP, 2, 1),        // 8, cache 10
        (POP_JUMP_IF_FALSE, 6, 0), // 12 -> 14 + 12 = 26
        (LOAD_NAME, 0, 0),         // 14
        (LOAD_CONST, 2, 0),        // 16
        (BINARY_OP, 0, 1),         // 18, cache 20
        (STORE_NAME, 0, 0),        // 22
        (JUMP_BACKWARD, 11, 0),    // 24 -> 26 - 22 = 4
        (RETURN_CONST, 3, 0),      // 26
    ];
    let code = code_object(assemble(&program), constants, &["i"], &[]);
    let mut vm = Vm::new();
    assert_eq!(run(&mut vm, &code), Ok(VmValue::PyNone));
    assert_eq!(vm.global("i"), Some(&VmValue::Int(5)));
}

#[test]
fn copy_swap_and_container_updates() {
    let constants = vec![small(1), small(2), MarshalValue::List(vec![small(0)]), MarshalValue::Tuple(vec![small(3), small(3)])];
    let program = [
        (LOAD_CONST, 0, 0),
        (LOAD_CONST, 1, 0),
        (SWAP, 2, 0),
        (COPY, 1, 0),
        (BUILD_TUPLE, 3, 0),
        (STORE_NAME, 0, 0),
        (LOAD_CONST, 2, 0),
        (LOAD_CONST, 3, 0),
        (LIST_EXTEND, 1, 0),
        (STORE_NAME, 1, 0),
        (BUILD_SET, 0, 0),
        (LOAD_CONST, 3, 0),
        (SET_UPDATE, 1, 0),
        (STORE_NAME, 2, 0),
        (LOAD_CONST, 1, 0),
        (LOAD_CONST, 0, 0),
        (LOAD_CONST, 3, 0),
        (BUILD_CONST_KEY_MAP, 2, 0),
        (RETURN_VALUE, 0, 0),
    ];
    let code = code_object(assemble(&program), constants, &["swapped", "extended", "updated"], &[]);
    let mut vm = Vm::new();
    assert_eq!(
        run(&mut vm, &code),
        Ok(VmValue::Dict(vec![
            (VmValue::Int(3), VmValue::Int(2)),
            (VmValue::Int(3), VmValue::Int(1)),
        ]))
    );
    assert_eq!(
        vm.global("swapped"),
        Some(&VmValue::Tuple(vec![VmValue::Int(2), VmValue::Int(1), VmValue::Int(1)]))
    );
    assert_eq!(
        vm.global("extended"),
        Some(&VmValue::List(vec![VmValue::Int(0), VmValue::Int(3), VmValue::Int(3)]))
    );
    assert_eq!(vm.global("updated"), Some(&VmValue::PySet(vec![VmValue::Int(3)])));
}

#[test]
fn const_key_map_checks_its_key_count() {
    let constants = vec![small(1), MarshalValue::Tuple(vec![small(3)])];
    let program = [
        (LOAD_CONST, 0, 0),
        (LOAD_CONST, 0, 0),
        (LOAD_CONST, 1, 0),
        (BUILD_CONST_KEY_MAP, 2, 0),
    ];
    let code = code_object(assemble(&program), constants, &[], &[]);
    assert_eq!(
        run(&mut Vm::new(), &code),
        Err(VmError::InvalidArgument {
            offset: 6,
            opcode: BUILD_CONST_KEY_MAP,
            argument: 2,
            reason: "expected 2 dictionary keys, got 1".to_string()
        })
    );
}

#[test]
fn copy_checks_the_stack_position() {
    let code = code_object(assemble(&[(COPY, 1, 0)]), vec![], &[], &[]);
    assert_eq!(
        run(&mut Vm::new(), &code),
        Err(VmError::InvalidArgument {
            offset: 0,
            opcode: COPY,
            argument: 1,
            reason: "stack position is out of bounds".to_string()
        })
    );
}

#[test]
fn only_the_unary_plus_intrinsic_is_supported() {
    let code = code_object(
        assemble(&[(LOAD_CONST, 0, 0), (CALL_INTRINSIC_1, 3, 0)]),
        vec![small(1)],
        &[],
        &[],
    );
    assert_eq!(
        run(&mut Vm::new(), &code),
        Err(VmError::InvalidArgument {
            offset: 2,
            opcode: CALL_INTRINSIC_1,
            argument: 3,
            reason: "only INTRINSIC_UNARY_POSITIVE is supported".to_string()
        })
    );
}

#[test]
fn calling_a_non_callable_is_a_type_error() {
    let code = code_object(
        assemble(&[(LOAD_CONST, 0, 0), (CALL, 0, 0)]),
        vec![small(1)],
        &[],
        &[],
    );
    assert_eq!(
        run(&mut Vm::new(), &code),
        Err(VmError::TypeError {
            offset: 2,
            operation: "call".to_string(),
            left: "int".to_string(),
            right: None
        })
    );
}

#[test]
fn too_many_locals_are_refused() {
    let code = code_object(assemble(&[(RETURN_VALUE, 0, 0)]), vec![], &[], &["a", "b"]);
    assert_eq!(
        Frame::start(&code, vec![VmValue::Int(1), VmValue::Int(2), VmValue::Int(3)]).err(),
        Some(VmError::InvalidArgument {
            offset: 0,
            opcode: 0,
            argument: 3,
            reason: "received 3 locals, but code object has 2 slots".to_string()
        })
    );
}

#[test]
fn division_overflow_is_detected_before_the_step() {
    let code = code_object(
        assemble(&[(LOAD_CONST, 0, 0), (LOAD_CONST, 1, 0), (BINARY_OP, 2, 1)]),
        vec![small(i64::MIN), small(-1)],
        &[],
        &[],
    );
    let mut vm = Vm::new();
    let mut frame = Frame::start(&code, Vec::new()).expect("frame");
    assert!(matches!(frame.run(&mut vm, 100), Ok(Step::Continue)));
    assert!(frame.would_panic());
}

#[test]
fn store_subscript_updates_every_equal_global() {
    // a = [1]; b = [1]; a[0] = 5  (the copy of `a` equals `b` too)
    let constants = vec![MarshalValue::List(vec![small(1)]), small(0), small(5), MarshalValue::PyNone];
    let program = [
        (LOAD_CONST, 0, 0),
        (STORE_NAME, 0, 0),
        (LOAD_CONST, 0, 0),
        (STORE_NAME, 1, 0),
        (LOAD_CONST, 2, 0),
        (LOAD_NAME, 0, 0),
        (LOAD_CONST, 1, 0),
        (STORE_SUBSCR, 0, 1),
        (RETURN_CONST, 3, 0),
    ];
    let code = code_object(assemble(&program), constants, &["a", "b"], &[]);
    let mut vm = Vm::new();
    run(&mut vm, &code).expect("store");
    assert_eq!(vm.global("a"), Some(&VmValue::List(vec![VmValue::Int(5)])));
    assert_eq!(vm.global("b"), Some(&VmValue::List(vec![VmValue::Int(5)])));
}

#[test]
fn constants_convert_to_vm_values() {
    assert_eq!(
        VmValue::from_marshal(&MarshalValue::Long(MarshalLong {
            negative: true,
            digits: vec![0, 0, 0, 0, 8]
        })),
        Ok(VmValue::Int(i64::MIN))
    );
    assert_eq!(
        VmValue::from_marshal(&MarshalValue::Long(MarshalLong {
            negative: false,
            digits: vec![0, 0, 0, 0, 8]
        })),
        Err(VmError::UnsupportedConstant {
            description: "integer larger than int64".to_string()
        })
    );
    assert_eq!(
        VmValue::from_marshal(&MarshalValue::Long(MarshalLong {
            negative: true,
            digits: vec![1, 0, 0, 0, 8]
        })),
        Err(VmError::UnsupportedConstant {
            description: "integer smaller than int64".to_string()
        })
    );
    assert_eq!(
        VmValue::from_marshal(&MarshalValue::Long(MarshalLong {
            negative: true,
            digits: vec![1; 12]
        })),
        Err(VmError::UnsupportedConstant {
            description: "integer larger than int64".to_string()
        })
    );
    assert_eq!(
        VmValue::from_marshal(&MarshalValue::Tuple(vec![small(1), MarshalValue::Ellipsis])),
        Err(VmError::UnsupportedConstant {
            description: "Ellipsis".to_string()
        })
    );
    assert_eq!(
        VmValue::from_marshal(&MarshalValue::Dict(vec![(
            MarshalValue::StopIteration,
            MarshalValue::Ellipsis
        )])),
        Err(VmError::UnsupportedConstant {
            description: "StopIteration".to_string()
        })
    );
    assert_eq!(
        VmValue::from_marshal(&MarshalValue::Complex {
            real: rython::MarshalFloat::Binary(0),
            imaginary: rython::MarshalFloat::Binary(0)
        }),
        Err(VmError::UnsupportedConstant {
            description: "complex".to_string()
        })
    );
    assert_eq!(
        VmValue::from_marshal(&MarshalValue::FrozenSet(vec![text("a")])),
        Ok(VmValue::FrozenSet(vec![VmValue::String("a".to_string())]))
    );
}

#[test]
fn converted_constants_mirror_their_marshal_values() {
    let list = MarshalValue::List(vec![small(2), small(2), text("x"), MarshalValue::Bool(true)]);
    assert_eq!(
        VmValue::from_marshal(&list),
        Ok(VmValue::List(vec![
            VmValue::Int(2),
            VmValue::Int(2),
            VmValue::String("x".to_string()),
            VmValue::Bool(true)
        ]))
    );
    let dict = MarshalValue::Dict(vec![
        (text("b"), small(1)),
        (text("a"), MarshalValue::Tuple(vec![MarshalValue::PyNone, small(3)])),
    ]);
    assert_eq!(
        VmValue::from_marshal(&dict),
        Ok(VmValue::Dict(vec![
            (VmValue::String("b".to_string()), VmValue::Int(1)),
            (
                VmValue::String("a".to_string()),
                VmValue::Tuple(vec![VmValue::PyNone, VmValue::Int(3)])
            ),
        ]))
    );
    assert_eq!(
        VmValue::from_marshal(&MarshalValue::PySet(vec![small(5), small(5)])),
        Ok(VmValue::PySet(vec![VmValue::Int(5), VmValue::Int(5)]))
    );
}

#[test]
fn values_know_their_type_truth_and_index() {
    assert_eq!(VmValue::PyNone.python_type_name(), "NoneType");
    assert_eq!(VmValue::BuiltinPrint.python_type_name(), "builtin_function_or_method");
    assert_eq!(VmValue::FrozenSet(vec![]).python_type_name(), "frozenset");
    assert!(!VmValue::Dict(vec![]).is_truthy());
    assert!(VmValue::Float(f64::NAN.to_bits()).is_truthy());
    assert!(!VmValue::Float((-0.0f64).to_bits()).is_truthy());
    assert_eq!(VmValue::Bool(true).as_index(), Some(1));
    assert_eq!(VmValue::String("1".to_string()).as_index(), None);
    assert_eq!(
        VmValue::List(vec![VmValue::Int(1)]).iterable(),
        Some(&[VmValue::Int(1)][..])
    );
    assert_eq!(VmValue::Dict(vec![]).iterable(), None);
}

#[test]
fn globals_are_listed_in_name_order() {
    // zeta = 1; alpha = 2; Zed = 3; zeta = 4
    let constants = vec![small(1), small(2), small(3), small(4), MarshalValue::PyNone];
    let program = [
        (LOAD_CONST, 0, 0),
        (STORE_NAME, 0, 0),
        (LOAD_CONST, 1, 0),
        (STORE_NAME, 1, 0),
        (LOAD_CONST, 2, 0),
        (STORE_NAME, 2, 0),
        (LOAD_CONST, 3, 0),
        (STORE_NAME, 0, 0),
        (RETURN_CONST, 4, 0),
    ];
    let code = code_object(assemble(&program), constants, &["zeta", "alpha", "Zed"], &[]);
    let mut vm = Vm::new();
    run(&mut vm, &code).expect("stores");
    let names: Vec<&str> = vm.globals().iter().map(|(name, _)| name.as_str()).collect();
    assert_eq!(names, vec!["Zed", "alpha", "print", "zeta"]);
    assert_eq!(vm.global("zeta"), Some(&VmValue::Int(4)));
    assert_eq!(vm.global("alpha"), Some(&VmValue::Int(2)));
}
