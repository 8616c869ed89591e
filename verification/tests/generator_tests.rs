//! Quadruple generation: precedence, counts, control flow backpatching,
//! constant pooling, and the procedure-call protocol.

use babyduck::ast::{
    Program, VarDeclaration, FunctionDeclaration, Parameter, Statement, Assignment, Condition,
    Cycle, FunctionCall, PrintStatement, Expression, Operator, Type,
};
use babyduck::function_directory::FunctionDirectory;
use babyduck::generator::QuadrupleGenerator;
use babyduck::quadruples::OpCode;

fn ident(name: &str) -> Expression {
    Expression::Identifier(name.to_string())
}

fn intlit(v: i32) -> Expression {
    Expression::IntegerLiteral(v)
}

fn binop(left: Expression, op: Operator, right: Expression) -> Expression {
    Expression::BinaryOp { left: Box::new(left), operator: op, right: Box::new(right) }
}

fn assign(id: &str, e: Expression) -> Statement {
    Statement::Assignment(Assignment { id: id.to_string(), expression: e })
}

fn var(id: &str, t: Type) -> VarDeclaration {
    VarDeclaration { id: id.to_string(), var_type: t }
}

fn param(id: &str, t: Type) -> Parameter {
    Parameter { id: id.to_string(), param_type: t }
}

fn print_expr(e: Expression) -> Statement {
    Statement::Print(PrintStatement::Expression(e))
}

fn while_do(cond: Expression, body: Vec<Statement>) -> Statement {
    Statement::Cycle(Cycle { condition: cond, body })
}

fn if_else(cond: Expression, then: Vec<Statement>, els: Option<Vec<Statement>>) -> Statement {
    Statement::Condition(Condition { condition: cond, if_body: then, else_body: els })
}

fn compile(program: &Program) -> QuadrupleGenerator {
    let dir = FunctionDirectory::from_program(program).expect("directory");
    let mut quad_gen = QuadrupleGenerator::new();
    quad_gen.set_function_directory(dir);
    let gen_result = quad_gen.generate_for_program(program);
    assert!(gen_result.is_ok(), "Quadruple generation failed: {:?}", gen_result.err());
    quad_gen
}

#[test]
fn test_quadruple_generation() {
    // R = ((A + B) * C + D * E * F + K / H * J) + G * L + H + J > (A - C * D) / F;
    // print(R);
    let names = ["A", "B", "C", "D", "E", "F", "G", "H", "I", "J", "K", "L", "R"];
    let vars: Vec<VarDeclaration> = names.iter().map(|n| var(n, Type::Int)).collect();
    let lhs = binop(
        binop(
            binop(
                binop(
                    binop(binop(ident("A"), Operator::Plus, ident("B")), Operator::Multiply,
                        ident("C")),
                    Operator::Plus,
                    binop(binop(ident("D"), Operator::Multiply, ident("E")), Operator::Multiply,
                        ident("F")),
                ),
                Operator::Plus,
                binop(binop(ident("K"), Operator::Divide, ident("H")), Operator::Multiply,
                    ident("J")),
            ),
            Operator::Plus,
            binop(ident("G"), Operator::Multiply, ident("L")),
        ),
        Operator::Plus,
        binop(ident("H"), Operator::Plus, ident("J")),
    );
    let rhs = binop(
        binop(ident("A"), Operator::Minus, binop(ident("C"), Operator::Multiply, ident("D"))),
        Operator::Divide,
        ident("F"),
    );
    let expr = binop(lhs, Operator::GreaterThan, rhs);
    let program = Program {
        id: "example".to_string(),
        vars,
        funcs: vec![],
        main_body: vec![assign("R", expr), print_expr(ident("R"))],
    };
    let quad_gen = compile(&program);
    let quadruples_raw = quad_gen.get_quadruples();

    assert!(!quadruples_raw.is_empty(), "No quadruples were generated");
    assert_eq!(quadruples_raw[0].operation, OpCode::GOTO, "First quad should be GOTO main");
    assert_eq!(
        quadruples_raw.last().unwrap().operation,
        OpCode::HALT,
        "Last quad should be HALT"
    );
    assert!(
        quadruples_raw.len() >= 17,
        "Expected at least 17 quadruples for this complex expression, got {}",
        quadruples_raw.len()
    );
    let has_comparison = quadruples_raw.iter().any(|q| q.operation == OpCode::GT);
    assert!(has_comparison, "No '>' comparison quadruple found");
    println!("\nQuadruple generation test passed");
}

#[test]
fn test_control_flow_quadruple_generation() {
    let program = Program {
        id: "control_flow_test".to_string(),
        vars: vec![
            var("x", Type::Int),
            var("y", Type::Int),
            var("result", Type::Int),
            var("counter", Type::Int),
            var("flag", Type::Bool),
        ],
        funcs: vec![],
        main_body: vec![
            if_else(
                binop(ident("x"), Operator::GreaterThan, ident("y")),
                vec![assign("result", ident("x"))],
                Some(vec![assign("result", ident("y"))]),
            ),
            if_else(
                binop(ident("x"), Operator::Equal, intlit(5)),
                vec![if_else(
                    binop(ident("y"), Operator::Equal, intlit(10)),
                    vec![assign("result", intlit(15))],
                    Some(vec![assign("result", intlit(5))]),
                )],
                Some(vec![assign("result", intlit(0))]),
            ),
            assign("counter", intlit(0)),
            while_do(
                binop(ident("counter"), Operator::LessThan, intlit(5)),
                vec![assign("counter", binop(ident("counter"), Operator::Plus, intlit(1)))],
            ),
            assign("counter", intlit(0)),
            while_do(
                binop(ident("counter"), Operator::LessThan, intlit(10)),
                vec![
                    assign("counter", binop(ident("counter"), Operator::Plus, intlit(1))),
                    if_else(
                        binop(ident("counter"), Operator::Equal, intlit(5)),
                        vec![assign("result", intlit(100))],
                        None,
                    ),
                ],
            ),
            assign("flag", binop(ident("x"), Operator::GreaterThan, ident("y"))),
            if_else(
                ident("flag"),
                vec![assign("result", intlit(1))],
                Some(vec![assign("result", intlit(0))]),
            ),
        ],
    };
    let quad_gen = compile(&program);
    let quadruples_raw = quad_gen.get_quadruples();
    assert_eq!(quadruples_raw[0].operation, OpCode::GOTO);
    assert_eq!(quadruples_raw.last().unwrap().operation, OpCode::HALT);
    let goto_count = quadruples_raw.iter().filter(|q| q.operation == OpCode::GOTO).count();
    let gotof_count = quadruples_raw.iter().filter(|q| q.operation == OpCode::GOTOF).count();
    assert!(goto_count >= 4 + 1);
    assert!(gotof_count >= 5);
    let comparison_ops = quadruples_raw
        .iter()
        .filter(|q| {
            q.operation == OpCode::GT || q.operation == OpCode::LT || q.operation == OpCode::EQ
        })
        .count();
    assert!(comparison_ops >= 5);
    let assign_ops = quadruples_raw.iter().filter(|q| q.operation == OpCode::ASSIGN).count();
    assert!(assign_ops >= 8);
    let add_ops = quadruples_raw.iter().filter(|q| q.operation == OpCode::ADD).count();
    assert!(add_ops >= 2);
    println!("\nControl flow quadruple generation test passed successfully!");
}

#[test]
fn test_function_call_quadruple_generation() {
    let program = Program {
        id: "function_test".to_string(),
        vars: vec![var("global_res", Type::Int)],
        funcs: vec![FunctionDeclaration {
            id: "multiply".to_string(),
            parameters: vec![param("param_a", Type::Int), param("param_b", Type::Int)],
            vars: vec![var("local_prod", Type::Int)],
            body: vec![
                assign(
                    "local_prod",
                    binop(ident("param_a"), Operator::Multiply, ident("param_b")),
                ),
                assign("global_res", ident("local_prod")),
                print_expr(ident("global_res")),
            ],
        }],
        main_body: vec![
            assign("global_res", intlit(0)),
            Statement::FunctionCall(FunctionCall {
                id: "multiply".to_string(),
                arguments: vec![intlit(5), intlit(10)],
            }),
            Statement::FunctionCall(FunctionCall {
                id: "multiply".to_string(),
                arguments: vec![ident("global_res"), intlit(2)],
            }),
        ],
    };
    let quad_gen = compile(&program);
    let quads_raw = quad_gen.get_quadruples();

    assert_eq!(quads_raw[0].operation, OpCode::GOTO, "Quad 0 should be GOTO main");
    let main_code_start_idx = quads_raw[0].result as usize;

    let multiply_func_info =
        quad_gen.function_directory.as_ref().unwrap().get_function("multiply").unwrap();
    let multiply_start_idx = multiply_func_info.start_quad_idx.unwrap() as usize;

    let mut func_body_quad_idx = multiply_start_idx;
    assert_eq!(quads_raw[func_body_quad_idx].operation, OpCode::MULT, "Multiply op in function");
    func_body_quad_idx += 1;
    assert_eq!(quads_raw[func_body_quad_idx].operation, OpCode::ASSIGN, "Assign to local_prod");
    func_body_quad_idx += 1;
    assert_eq!(quads_raw[func_body_quad_idx].operation, OpCode::ASSIGN, "Assign to global_res");
    func_body_quad_idx += 1;
    assert_eq!(quads_raw[func_body_quad_idx].operation, OpCode::PRINT, "Print global_res");
    func_body_quad_idx += 1;
    assert_eq!(quads_raw[func_body_quad_idx].operation, OpCode::ENDFUNC, "ENDFUNC for multiply");
    let end_of_multiply_body_idx = func_body_quad_idx;

    assert!(
        main_code_start_idx > end_of_multiply_body_idx,
        "Main code should start after function definitions"
    );

    let mut current_quad_idx = main_code_start_idx;
    assert_eq!(quads_raw[current_quad_idx].operation, OpCode::ASSIGN, "Main: assign global_res = 0");
    current_quad_idx += 1;

    assert_eq!(quads_raw[current_quad_idx].operation, OpCode::ERA, "Main: ERA for multiply (call 1)");
    assert_eq!(
        quads_raw[current_quad_idx].arg1,
        multiply_start_idx as i32,
        "ERA arg1 should be func start index"
    );
    current_quad_idx += 1;
    assert_eq!(quads_raw[current_quad_idx].operation, OpCode::PARAM, "Main: PARAM 1 (5)");
    assert_eq!(quads_raw[current_quad_idx].result, 0, "PARAM result should be param index 0");
    current_quad_idx += 1;
    assert_eq!(quads_raw[current_quad_idx].operation, OpCode::PARAM, "Main: PARAM 2 (10)");
    assert_eq!(quads_raw[current_quad_idx].result, 1, "PARAM result should be param index 1");
    current_quad_idx += 1;
    assert_eq!(quads_raw[current_quad_idx].operation, OpCode::GOSUB, "Main: GOSUB multiply (call 1)");
    assert_eq!(
        quads_raw[current_quad_idx].arg1,
        multiply_start_idx as i32,
        "GOSUB arg1 should be func start index"
    );
    current_quad_idx += 1;

    assert_eq!(quads_raw[current_quad_idx].operation, OpCode::ERA, "Main: ERA for multiply (call 2)");
    assert_eq!(quads_raw[current_quad_idx].arg1, multiply_start_idx as i32);
    current_quad_idx += 1;
    assert_eq!(quads_raw[current_quad_idx].operation, OpCode::PARAM, "Main: PARAM 1 (global_res)");
    assert_eq!(quads_raw[current_quad_idx].result, 0);
    current_quad_idx += 1;
    assert_eq!(quads_raw[current_quad_idx].operation, OpCode::PARAM, "Main: PARAM 2 (2)");
    assert_eq!(quads_raw[current_quad_idx].result, 1);
    current_quad_idx += 1;
    assert_eq!(quads_raw[current_quad_idx].operation, OpCode::GOSUB, "Main: GOSUB multiply (call 2)");
    assert_eq!(quads_raw[current_quad_idx].arg1, multiply_start_idx as i32);
    current_quad_idx += 1;

    assert_eq!(quads_raw[current_quad_idx].operation, OpCode::HALT, "Main: HALT at end of program");
    assert_eq!(current_quad_idx, quads_raw.len() - 1, "HALT should be the last quadruple");

    println!("\nFunction call quadruple generation test passed successfully!");
}

#[test]
fn straight_line_quad_count_matches_operators_plus_statements() {
    // Straight-line arithmetic: the emitted quadruples are one per binary
    // operator plus one per assignment or print, plus the reserved GOTO
    // and the trailing HALT.
    let program = Program {
        id: "counting".to_string(),
        vars: vec![var("a", Type::Int), var("b", Type::Int), var("c", Type::Int)],
        funcs: vec![],
        main_body: vec![
            assign("a", intlit(1)),
            assign(
                "b",
                binop(
                    binop(ident("a"), Operator::Plus, intlit(2)),
                    Operator::Multiply,
                    intlit(3),
                ),
            ),
            assign(
                "c",
                binop(ident("a"), Operator::Plus, binop(ident("b"), Operator::Multiply, ident("a"))),
            ),
            print_expr(binop(ident("c"), Operator::Minus, ident("b"))),
        ],
    };
    let quad_gen = compile(&program);
    // Binary operators: 0 + 2 + 2 + 1 = 5; assignments and prints: 4.
    // Plus GOTO main and HALT: 5 + 4 + 2 = 11.
    assert_eq!(quad_gen.get_quadruples().len(), 11);
    assert!(quad_gen.get_errors().is_empty());
}

#[test]
fn integer_constants_are_pooled_once() {
    // The same literal twice yields exactly one slot, both uses resolving
    // to the same address; a distinct value gets a distinct address.
    let program = Program {
        id: "pooling".to_string(),
        vars: vec![var("a", Type::Int), var("b", Type::Int)],
        funcs: vec![],
        main_body: vec![
            assign("a", binop(intlit(7), Operator::Plus, intlit(7))),
            assign("b", binop(intlit(7), Operator::Plus, intlit(9))),
        ],
    };
    let quad_gen = compile(&program);
    let pool = quad_gen.get_int_constants();
    assert_eq!(pool.len(), 2);
    assert_eq!(pool[0], (7, 4000));
    assert_eq!(pool[1], (9, 4001));
    let quads = quad_gen.get_quadruples();
    // First ADD reads the same slot twice.
    assert_eq!(quads[1].operation, OpCode::ADD);
    assert_eq!(quads[1].arg1, 4000);
    assert_eq!(quads[1].arg2, 4000);
    // Second ADD reads the two distinct slots.
    assert_eq!(quads[3].operation, OpCode::ADD);
    assert_eq!(quads[3].arg1, 4000);
    assert_eq!(quads[3].arg2, 4001);
}

#[test]
fn precedence_orders_multiplication_before_addition() {
    // a + b * c evaluates the product first, then the sum.
    let program = Program {
        id: "precedence".to_string(),
        vars: vec![var("a", Type::Int), var("b", Type::Int), var("c", Type::Int),
            var("r", Type::Int)],
        funcs: vec![],
        main_body: vec![assign(
            "r",
            binop(ident("a"), Operator::Plus, binop(ident("b"), Operator::Multiply, ident("c"))),
        )],
    };
    let quad_gen = compile(&program);
    let quads = quad_gen.get_quadruples();
    assert_eq!(quads[1].operation, OpCode::MULT);
    assert_eq!(quads[2].operation, OpCode::ADD);
    assert_eq!(quads[2].arg2, quads[1].result, "the sum consumes the product's temporary");
    assert_eq!(quads[3].operation, OpCode::ASSIGN);
}

#[test]
fn backpatching_lands_on_block_boundaries() {
    // if (a > b) { r = 1; } else { r = 2; }  then  while (a < b) do { a = a + 1; };
    let program = Program {
        id: "patch".to_string(),
        vars: vec![var("a", Type::Int), var("b", Type::Int), var("r", Type::Int)],
        funcs: vec![],
        main_body: vec![
            if_else(
                binop(ident("a"), Operator::GreaterThan, ident("b")),
                vec![assign("r", intlit(1))],
                Some(vec![assign("r", intlit(2))]),
            ),
            while_do(
                binop(ident("a"), Operator::LessThan, ident("b")),
                vec![assign("a", binop(ident("a"), Operator::Plus, intlit(1)))],
            ),
        ],
    };
    let quad_gen = compile(&program);
    let quads = quad_gen.get_quadruples();
    // Layout: 0 GOTO main; 1 GT; 2 GOTOF -> 4 (start of else); 3 ASSIGN r=1
    // (then); wait: with an else, a GOTO is emitted after the then body.
    assert_eq!(quads[1].operation, OpCode::GT);
    assert_eq!(quads[2].operation, OpCode::GOTOF);
    assert_eq!(quads[3].operation, OpCode::ASSIGN);
    assert_eq!(quads[4].operation, OpCode::GOTO);
    assert_eq!(quads[2].result, 5, "GOTOF lands at the first instruction of the else body");
    assert_eq!(quads[5].operation, OpCode::ASSIGN);
    assert_eq!(quads[4].result, 6, "the GOTO after the then body lands after the else body");
    // Loop: 6 LT; 7 GOTOF -> 11; 8 ADD; 9 ASSIGN; 10 GOTO -> 6 (head).
    assert_eq!(quads[6].operation, OpCode::LT);
    assert_eq!(quads[7].operation, OpCode::GOTOF);
    assert_eq!(quads[10].operation, OpCode::GOTO);
    assert_eq!(quads[10].result, 6, "the back edge returns to the loop head");
    assert_eq!(quads[7].result, 11, "the GOTOF lands right after the back edge");
}

#[test]
fn type_mismatch_is_recorded_and_recovered() {
    // Ordering comparison on booleans is invalid; the generator records a
    // diagnostic and continues with a placeholder.
    let program = Program {
        id: "mismatch".to_string(),
        vars: vec![var("p", Type::Bool), var("q", Type::Bool), var("r", Type::Int)],
        funcs: vec![],
        main_body: vec![assign("r", binop(ident("p"), Operator::GreaterThan, ident("q")))],
    };
    let quad_gen = compile(&program);
    assert!(!quad_gen.get_errors().is_empty(), "a type mismatch must be recorded");
}

#[test]
fn call_arity_mismatch_is_recorded() {
    let program = Program {
        id: "arity".to_string(),
        vars: vec![],
        funcs: vec![FunctionDeclaration {
            id: "f".to_string(),
            parameters: vec![param("x", Type::Int)],
            vars: vec![],
            body: vec![],
        }],
        main_body: vec![Statement::FunctionCall(FunctionCall {
            id: "f".to_string(),
            arguments: vec![intlit(1), intlit(2)],
        })],
    };
    let quad_gen = compile(&program);
    assert!(!quad_gen.get_errors().is_empty(), "an arity mismatch must be recorded");
    // Nothing of the call protocol was emitted: only GOTO, ENDFUNC, HALT.
    assert_eq!(quad_gen.get_quadruples().len(), 3);
}

#[test]
fn quadruple_to_string_renders_readably() {
    let q = babyduck::quadruples::Quadruple::new(OpCode::ADD, 1000, 4000, 5000);
    assert_eq!(q.to_string(), "(+, 1000, 4000, 5000)");
    let h = babyduck::quadruples::Quadruple::new(OpCode::HALT, -1, -1, -1);
    assert_eq!(h.to_string(), "(HALT, -1, -1, -1)");
}
