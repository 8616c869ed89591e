//! End-to-end scenarios: compiling a syntax tree, serializing the object
//! artifact, reloading it, and executing it on the engine, with the tests
//! acting as the engine's float unit.

use babyduck::ast::{
    Program, VarDeclaration, FunctionDeclaration, Parameter, Statement, Assignment, Condition,
    Cycle, FunctionCall, PrintStatement, Expression, Operator, Type,
};
use babyduck::function_directory::FunctionDirectory;
use babyduck::generator::QuadrupleGenerator;
use babyduck::objcode::{build_object, serialize_object, parse_object};
use babyduck::quadruples::OpCode;
use babyduck::vm::{
    VM, Value, PrintItem, FloatRequest, RunOutcome, StepOutcome, RuntimeError, eval_int_arith,
};
use babyduck::numtext::{parse_i32, parse_u64};

fn ident(name: &str) -> Expression {
    Expression::Identifier(name.to_string())
}

fn intlit(v: i32) -> Expression {
    Expression::IntegerLiteral(v)
}

fn floatlit(v: f64) -> Expression {
    Expression::FloatLiteral(v.to_bits())
}

fn binop(left: Expression, op: Operator, right: Expression) -> Expression {
    Expression::BinaryOp { left: Box::new(left), operator: op, right: Box::new(right) }
}

fn assign(id: &str, e: Expression) -> Statement {
    Statement::Assignment(Assignment { id: id.to_string(), expression: e })
}

fn var(id: &str, t: Type) -> VarDeclaration {
    VarDeclaration { id: id.to_string(), var_type: t }
}

fn param(id: &str, t: Type) -> Parameter {
    Parameter { id: id.to_string(), param_type: t }
}

fn print_str(s: &str) -> Statement {
    Statement::Print(PrintStatement::StringLiteral(s.to_string()))
}

fn compile(program: &Program) -> QuadrupleGenerator {
    let dir = FunctionDirectory::from_program(program).expect("directory");
    let mut quad_gen = QuadrupleGenerator::new();
    quad_gen.set_function_directory(dir);
    quad_gen.generate_for_program(program).expect("generation");
    quad_gen
}

/// Loads a compiled program into a fresh engine through the serialized
/// object artifact.
fn load_vm(program: &Program) -> VM {
    let quad_gen = compile(program);
    let obj = build_object(&quad_gen, &program.id);
    let lines = serialize_object(&obj);
    let mut vm = VM::new();
    vm.load_obj_file(&lines).expect("load");
    vm
}

fn as_f64(v: Value) -> f64 {
    match v {
        Value::Int(i) => i as f64,
        Value::Float(bits) => f64::from_bits(bits),
        Value::Bool(b) => {
            if b {
                1.0
            } else {
                0.0
            }
        },
    }
}

/// Answers one float request: the test is the engine's float unit.
fn respond(vm: &mut VM, req: FloatRequest) -> StepOutcome {
    match req {
        FloatRequest::Convert { value } => vm.resume_float_bits((value as f64).to_bits()),
        FloatRequest::Arith { op, left, right } => {
            let a = as_f64(left);
            let b = as_f64(right);
            let r = if op == OpCode::ADD {
                a + b
            } else if op == OpCode::SUB {
                a - b
            } else if op == OpCode::MULT {
                a * b
            } else {
                a / b
            };
            vm.resume_float_bits(r.to_bits())
        },
        FloatRequest::Cmp { op, left, right } => {
            let a = as_f64(left);
            let b = as_f64(right);
            let c = if op == OpCode::GT {
                a > b
            } else if op == OpCode::LT {
                a < b
            } else if op == OpCode::EQ {
                a == b
            } else {
                a != b
            };
            vm.resume_cmp(c)
        },
    }
}

/// Runs to completion, answering float requests along the way.
fn run_to_end(vm: &mut VM) -> RunOutcome {
    let mut outcome = vm.run(1_000_000);
    loop {
        match outcome {
            RunOutcome::Paused(req) => match respond(vm, req) {
                StepOutcome::Ready => {
                    outcome = vm.run(1_000_000);
                },
                StepOutcome::Paused(req2) => {
                    outcome = RunOutcome::Paused(req2);
                },
                StepOutcome::Failed(e) => {
                    return RunOutcome::Failed(e);
                },
            },
            other => {
                return other;
            },
        }
    }
}

#[test]
fn scenario_straight_line_assignments() {
    // x = 10; y = 20.5; compiles to two ASSIGN quadruples and leaves the
    // variables' addresses holding 10 and 20.5.
    let program = Program {
        id: "s1".to_string(),
        vars: vec![var("x", Type::Int), var("y", Type::Float)],
        funcs: vec![],
        main_body: vec![assign("x", intlit(10)), assign("y", floatlit(20.5))],
    };
    let quad_gen = compile(&program);
    let quads = quad_gen.get_quadruples();
    let assigns = quads.iter().filter(|q| q.operation == OpCode::ASSIGN).count();
    assert_eq!(assigns, 2, "exactly two ASSIGN quadruples");
    assert_eq!(quads.len(), 4, "GOTO, two ASSIGNs, HALT");

    let mut vm = load_vm(&program);
    match run_to_end(&mut vm) {
        RunOutcome::Finished => {},
        other => panic!("expected normal termination, got {:?}", other),
    }
    assert_eq!(vm.get_value(1000), Ok(Value::Int(10)), "x holds 10");
    assert_eq!(vm.get_value(2000), Ok(Value::Float(20.5f64.to_bits())), "y holds 20.5");
}

#[test]
fn scenario_uninitialized_read_fails_before_either_branch() {
    // if (x > 5) print("...") else print("..."), with x never assigned:
    // the run fails with an uninitialized read before reaching a branch.
    let program = Program {
        id: "s2".to_string(),
        vars: vec![var("x", Type::Int)],
        funcs: vec![],
        main_body: vec![Statement::Condition(Condition {
            condition: binop(ident("x"), Operator::GreaterThan, intlit(5)),
            if_body: vec![print_str("x is greater than 5")],
            else_body: Some(vec![print_str("x is not greater than 5")]),
        })],
    };
    let mut vm = load_vm(&program);
    match run_to_end(&mut vm) {
        RunOutcome::Failed(RuntimeError::UninitializedRead(addr)) => {
            assert_eq!(addr, 1000, "the read of x itself fails");
        },
        other => panic!("expected an uninitialized read, got {:?}", other),
    }
    assert!(vm.outputs.is_empty(), "neither branch printed");
}

#[test]
fn scenario_while_loop_counts_to_five() {
    // counter = 0; while (counter < 5) do { counter = counter + 1; };
    let program = Program {
        id: "s3".to_string(),
        vars: vec![var("counter", Type::Int)],
        funcs: vec![],
        main_body: vec![
            assign("counter", intlit(0)),
            Statement::Cycle(Cycle {
                condition: binop(ident("counter"), Operator::LessThan, intlit(5)),
                body: vec![assign("counter", binop(ident("counter"), Operator::Plus, intlit(1)))],
            }),
        ],
    };
    let quad_gen = compile(&program);
    let quads = quad_gen.get_quadruples();
    assert_eq!(quads.iter().filter(|q| q.operation == OpCode::GOTOF).count(), 1);
    // One back-edge GOTO besides the reserved GOTO main.
    assert_eq!(quads.iter().filter(|q| q.operation == OpCode::GOTO).count(), 2);
    assert_eq!(quads.iter().filter(|q| q.operation == OpCode::ADD).count(), 1);
    // One ASSIGN outside the loop, one inside.
    assert_eq!(quads.iter().filter(|q| q.operation == OpCode::ASSIGN).count(), 2);

    let mut vm = load_vm(&program);
    match run_to_end(&mut vm) {
        RunOutcome::Finished => {},
        other => panic!("expected normal termination, got {:?}", other),
    }
    assert_eq!(vm.get_value(1000), Ok(Value::Int(5)), "counter holds 5");
}

#[test]
fn scenario_two_calls_of_a_two_parameter_procedure() {
    // Calling store(a, b) twice: per call ERA, PARAM 0, PARAM 1, GOSUB,
    // and afterwards the parameter addresses hold the argument values.
    let program = Program {
        id: "s4".to_string(),
        vars: vec![var("g", Type::Int)],
        funcs: vec![FunctionDeclaration {
            id: "store".to_string(),
            parameters: vec![param("p", Type::Int), param("q", Type::Int)],
            vars: vec![],
            body: vec![assign("g", binop(ident("p"), Operator::Plus, ident("q")))],
        }],
        main_body: vec![
            Statement::FunctionCall(FunctionCall {
                id: "store".to_string(),
                arguments: vec![intlit(3), intlit(4)],
            }),
            Statement::FunctionCall(FunctionCall {
                id: "store".to_string(),
                arguments: vec![intlit(40), intlit(2)],
            }),
        ],
    };
    let quad_gen = compile(&program);
    let quads = quad_gen.get_quadruples();
    let main_start = quads[0].result as usize;
    for call in 0..2 {
        let base = main_start + call * 4;
        assert_eq!(quads[base].operation, OpCode::ERA);
        assert_eq!(quads[base + 1].operation, OpCode::PARAM);
        assert_eq!(quads[base + 1].result, 0);
        assert_eq!(quads[base + 2].operation, OpCode::PARAM);
        assert_eq!(quads[base + 2].result, 1);
        assert_eq!(quads[base + 3].operation, OpCode::GOSUB);
    }

    let mut vm = load_vm(&program);
    match run_to_end(&mut vm) {
        RunOutcome::Finished => {},
        other => panic!("expected normal termination, got {:?}", other),
    }
    // The second call leaves its arguments in the fixed parameter slots.
    assert_eq!(vm.get_value(1001), Ok(Value::Int(40)), "p holds the last first argument");
    assert_eq!(vm.get_value(1002), Ok(Value::Int(2)), "q holds the last second argument");
    assert_eq!(vm.get_value(1000), Ok(Value::Int(42)), "g holds the last sum");
}

#[test]
fn division_by_zero_int_is_a_runtime_error() {
    let program = Program {
        id: "divzero".to_string(),
        vars: vec![var("a", Type::Int), var("r", Type::Int)],
        funcs: vec![],
        main_body: vec![
            assign("a", intlit(0)),
            assign("r", binop(intlit(1), Operator::Divide, ident("a"))),
        ],
    };
    let mut vm = load_vm(&program);
    match run_to_end(&mut vm) {
        RunOutcome::Failed(RuntimeError::DivisionByZero) => {},
        other => panic!("expected DivisionByZero, got {:?}", other),
    }
}

#[test]
fn division_by_zero_float_is_a_runtime_error() {
    let program = Program {
        id: "divzerof".to_string(),
        vars: vec![var("a", Type::Float), var("r", Type::Float)],
        funcs: vec![],
        main_body: vec![
            assign("a", floatlit(0.0)),
            assign("r", binop(floatlit(1.5), Operator::Divide, ident("a"))),
        ],
    };
    let mut vm = load_vm(&program);
    match run_to_end(&mut vm) {
        RunOutcome::Failed(RuntimeError::DivisionByZero) => {},
        other => panic!("expected DivisionByZero, never a silent infinity, got {:?}", other),
    }
}

#[test]
fn float_arithmetic_flows_through_the_float_unit() {
    // r = y + 2.25 where y = 20.5: the engine pauses, the test computes,
    // and the sum lands in r.
    let program = Program {
        id: "floats".to_string(),
        vars: vec![var("y", Type::Float), var("r", Type::Float)],
        funcs: vec![],
        main_body: vec![
            assign("y", floatlit(20.5)),
            assign("r", binop(ident("y"), Operator::Plus, floatlit(2.25))),
            Statement::Print(PrintStatement::Expression(ident("r"))),
        ],
    };
    let mut vm = load_vm(&program);
    match run_to_end(&mut vm) {
        RunOutcome::Finished => {},
        other => panic!("expected normal termination, got {:?}", other),
    }
    assert_eq!(vm.get_value(2001), Ok(Value::Float(22.75f64.to_bits())));
    assert_eq!(vm.outputs, vec![PrintItem::Float(22.75f64.to_bits())]);
}

#[test]
fn booleans_print_as_booleans() {
    // flag = 3 > 2; print(flag);
    let program = Program {
        id: "boolprint".to_string(),
        vars: vec![var("flag", Type::Bool)],
        funcs: vec![],
        main_body: vec![
            assign("flag", binop(intlit(3), Operator::GreaterThan, intlit(2))),
            Statement::Print(PrintStatement::Expression(ident("flag"))),
        ],
    };
    let mut vm = load_vm(&program);
    match run_to_end(&mut vm) {
        RunOutcome::Finished => {},
        other => panic!("expected normal termination, got {:?}", other),
    }
    assert_eq!(vm.outputs, vec![PrintItem::Bool(true)]);
}

#[test]
fn boolean_literal_assignment_round_trips() {
    // x = true; if (x == true) { g = 1; } else { g = 2; }
    let program = Program {
        id: "boollit".to_string(),
        vars: vec![var("x", Type::Bool), var("g", Type::Int)],
        funcs: vec![],
        main_body: vec![
            assign("x", Expression::BooleanLiteral(true)),
            Statement::Condition(Condition {
                condition: binop(ident("x"), Operator::Equal, Expression::BooleanLiteral(true)),
                if_body: vec![assign("g", intlit(1))],
                else_body: Some(vec![assign("g", intlit(2))]),
            }),
        ],
    };
    let mut vm = load_vm(&program);
    match run_to_end(&mut vm) {
        RunOutcome::Finished => {},
        other => panic!("expected normal termination, got {:?}", other),
    }
    assert_eq!(vm.get_value(1000), Ok(Value::Int(1)), "the then branch ran");
}

#[test]
fn artifact_round_trip_preserves_the_instruction_stream() {
    // Serializing through the object artifact and reloading yields the
    // same quadruples, field for field.
    let program = Program {
        id: "roundtrip".to_string(),
        vars: vec![var("x", Type::Int), var("y", Type::Float)],
        funcs: vec![FunctionDeclaration {
            id: "bump".to_string(),
            parameters: vec![param("d", Type::Int)],
            vars: vec![],
            body: vec![assign("x", binop(ident("x"), Operator::Plus, ident("d")))],
        }],
        main_body: vec![
            assign("x", intlit(1)),
            assign("y", floatlit(2.5)),
            Statement::FunctionCall(FunctionCall {
                id: "bump".to_string(),
                arguments: vec![intlit(41)],
            }),
            Statement::Print(PrintStatement::Expression(ident("x"))),
        ],
    };
    let quad_gen = compile(&program);
    let obj = build_object(&quad_gen, &program.id);
    let lines = serialize_object(&obj);
    let reloaded = parse_object(&lines).expect("reload");
    assert_eq!(reloaded.quadruples.len(), obj.quadruples.len());
    for (a, b) in obj.quadruples.iter().zip(reloaded.quadruples.iter()) {
        assert_eq!(a.operation, b.operation);
        assert_eq!(a.arg1, b.arg1);
        assert_eq!(a.arg2, b.arg2);
        assert_eq!(a.result, b.result);
    }
    assert_eq!(reloaded.int_constants, obj.int_constants);
    assert_eq!(reloaded.float_constants, obj.float_constants);
    assert_eq!(reloaded.functions.len(), obj.functions.len());

    // A fresh engine loads the reloaded artifact and runs it.
    let mut vm = VM::new();
    vm.load_obj_file(&lines).expect("load");
    match run_to_end(&mut vm) {
        RunOutcome::Finished => {},
        other => panic!("expected normal termination, got {:?}", other),
    }
    assert_eq!(vm.get_value(1000), Ok(Value::Int(42)));
    assert_eq!(vm.outputs, vec![PrintItem::Int(42)]);
}

#[test]
fn comment_and_blank_lines_are_tolerated() {
    let program = Program {
        id: "tolerant".to_string(),
        vars: vec![var("x", Type::Int)],
        funcs: vec![],
        main_body: vec![assign("x", intlit(7))],
    };
    let quad_gen = compile(&program);
    let obj = build_object(&quad_gen, &program.id);
    let mut lines = serialize_object(&obj);
    lines.insert(0, b"// produced for the engine".to_vec());
    lines.insert(1, Vec::new());
    let reloaded = parse_object(&lines).expect("reload with comments");
    assert_eq!(reloaded.quadruples.len(), obj.quadruples.len());
}

#[test]
fn constant_at_foreign_address_rejects_the_artifact() {
    // An integer constant declared at a float-segment address cannot be
    // installed: loading fails rather than misfiling the value.
    let lines: Vec<Vec<u8>> = vec![
        b"CONSTANTS_INT:".to_vec(),
        b"7,2000".to_vec(),
        b"END_CONSTANTS_INT".to_vec(),
        b"QUADRUPLES:".to_vec(),
        b"50,-1,-1,-1".to_vec(),
        b"END_QUADRUPLES".to_vec(),
    ];
    let mut vm = VM::new();
    assert!(vm.load_obj_file(&lines).is_err());
}

#[test]
fn typed_diagnostic_names_both_types_and_the_operator() {
    let gen = QuadrupleGenerator::new();
    match gen.semantics(&Type::Bool, &Type::Int, &Operator::Plus) {
        Err(msg) => assert_eq!(msg, "type mismatch: bool + int"),
        Ok(t) => panic!("expected a mismatch, got {:?}", t),
    }
}

#[test]
fn malformed_numeric_field_rejects_the_artifact() {
    let lines: Vec<Vec<u8>> = vec![
        b"QUADRUPLES:".to_vec(),
        b"50,-1,xy,-1".to_vec(),
        b"END_QUADRUPLES".to_vec(),
    ];
    assert!(parse_object(&lines).is_err());
}

#[test]
fn function_line_arity_mismatch_rejects_the_artifact() {
    let lines: Vec<Vec<u8>> = vec![
        b"FUNCTIONS:".to_vec(),
        b"f,1,2,0,1001".to_vec(),
        b"END_FUNCTIONS".to_vec(),
    ];
    assert!(parse_object(&lines).is_err(), "two parameters declared but one address given");
}

#[test]
fn integer_arithmetic_is_exact() {
    assert_eq!(eval_int_arith(OpCode::ADD, 2, 3), Ok(5));
    assert_eq!(eval_int_arith(OpCode::SUB, 2, 3), Ok(-1));
    assert_eq!(eval_int_arith(OpCode::MULT, -4, 3), Ok(-12));
    assert_eq!(eval_int_arith(OpCode::DIV, 7, 2), Ok(3));
    assert_eq!(eval_int_arith(OpCode::DIV, -7, 2), Ok(-3), "quotients truncate toward zero");
    assert_eq!(eval_int_arith(OpCode::DIV, 7, 0), Err(RuntimeError::DivisionByZero));
    assert_eq!(eval_int_arith(OpCode::ADD, i32::MAX, 1), Ok(i32::MIN), "wrap-around addition");
}

#[test]
fn endfunc_with_empty_call_stack_terminates_normally() {
    let lines: Vec<Vec<u8>> = vec![
        b"QUADRUPLES:".to_vec(),
        b"43,-1,-1,-1".to_vec(),
        b"END_QUADRUPLES".to_vec(),
    ];
    let mut vm = VM::new();
    vm.load_obj_file(&lines).expect("load");
    match vm.run(10) {
        RunOutcome::Finished => {},
        other => panic!("expected normal termination, got {:?}", other),
    }
}

#[test]
fn invalid_jump_target_is_a_runtime_error() {
    let lines: Vec<Vec<u8>> = vec![
        b"QUADRUPLES:".to_vec(),
        b"30,-1,-1,99".to_vec(),
        b"END_QUADRUPLES".to_vec(),
    ];
    let mut vm = VM::new();
    vm.load_obj_file(&lines).expect("load");
    match vm.run(10) {
        RunOutcome::Failed(RuntimeError::InvalidJump(99)) => {},
        other => panic!("expected InvalidJump, got {:?}", other),
    }
}

#[test]
fn print_at_string_literal_address_is_unmapped() {
    // String-literal addresses name table slots, not engine memory, so a
    // read there fails rather than landing in a typed segment.
    let lines: Vec<Vec<u8>> = vec![
        b"QUADRUPLES:".to_vec(),
        b"20,9000,-1,-1".to_vec(),
        b"END_QUADRUPLES".to_vec(),
    ];
    let mut vm = VM::new();
    vm.load_obj_file(&lines).expect("load");
    match vm.run(10) {
        RunOutcome::Failed(RuntimeError::UnmappedAddress(9000)) => {},
        other => panic!("expected UnmappedAddress, got {:?}", other),
    }
}

#[test]
fn unknown_opcode_is_a_runtime_error() {
    let lines: Vec<Vec<u8>> = vec![
        b"QUADRUPLES:".to_vec(),
        b"99,-1,-1,-1".to_vec(),
        b"END_QUADRUPLES".to_vec(),
    ];
    let mut vm = VM::new();
    vm.load_obj_file(&lines).expect("load");
    match vm.run(10) {
        RunOutcome::Failed(RuntimeError::UnknownOpcode(99)) => {},
        other => panic!("expected UnknownOpcode, got {:?}", other),
    }
}

#[test]
fn decimal_text_round_trips() {
    assert_eq!(parse_i32(b"-2147483648"), Some(i32::MIN));
    assert_eq!(parse_i32(b"2147483647"), Some(i32::MAX));
    assert_eq!(parse_i32(b"2147483648"), None, "out of range");
    assert_eq!(parse_i32(b""), None);
    assert_eq!(parse_i32(b"1x"), None);
    assert_eq!(parse_u64(b"18446744073709551615"), Some(u64::MAX));
    assert_eq!(parse_u64(b"18446744073709551616"), None, "overflow");
}
