//! Directory construction: scopes, lookups, address assignment, and
//! duplicate detection.

use babyduck::ast::{
    Program, VarDeclaration, FunctionDeclaration, Parameter, Statement, Assignment, Expression,
    Operator, Type,
};
use babyduck::function_directory::{FunctionDirectory, FunctionDirError};

fn ident(name: &str) -> Expression {
    Expression::Identifier(name.to_string())
}

fn binop(left: Expression, op: Operator, right: Expression) -> Expression {
    Expression::BinaryOp { left: Box::new(left), operator: op, right: Box::new(right) }
}

fn assign(id: &str, e: Expression) -> Statement {
    Statement::Assignment(Assignment { id: id.to_string(), expression: e })
}

fn var(id: &str, t: Type) -> VarDeclaration {
    VarDeclaration { id: id.to_string(), var_type: t }
}

fn param(id: &str, t: Type) -> Parameter {
    Parameter { id: id.to_string(), param_type: t }
}

/// The syntax tree of: program example with globals `global_x: int`,
/// `global_y: float`, a procedure `add(a: int, b: int)` with local
/// `result: int` whose body is `result = a + b;`, and a main body that
/// assigns both globals.
fn directory_program() -> Program {
    Program {
        id: "example".to_string(),
        vars: vec![var("global_x", Type::Int), var("global_y", Type::Float)],
        funcs: vec![FunctionDeclaration {
            id: "add".to_string(),
            parameters: vec![param("a", Type::Int), param("b", Type::Int)],
            vars: vec![var("result", Type::Int)],
            body: vec![assign("result", binop(ident("a"), Operator::Plus, ident("b")))],
        }],
        main_body: vec![
            assign("global_x", Expression::IntegerLiteral(10)),
            assign("global_y", Expression::FloatLiteral(20.5f64.to_bits())),
        ],
    }
}

#[test]
fn create_function_directory() {
    let ast = directory_program();
    let function_directory_result = FunctionDirectory::from_program(&ast);
    assert!(
        function_directory_result.is_ok(),
        "Failed to create function directory: {:?}",
        function_directory_result.err()
    );

    let function_directory = function_directory_result.unwrap();

    assert!(function_directory.function_exists("global"));
    assert!(function_directory.function_exists("main"));
    assert!(function_directory.function_exists("add"));

    match function_directory.get_variable_type("global", "global_x") {
        Some(Type::Int) => println!("global_x is an int as expected"),
        _ => panic!("global_x should be an int"),
    }

    match function_directory.get_variable_type("global", "global_y") {
        Some(Type::Float) => println!("global_y is a float as expected"),
        _ => panic!("global_y should be a float"),
    }

    let add_func = function_directory.get_function("add").unwrap();
    assert_eq!(add_func.parameters.len(), 2);
    assert_eq!(add_func.parameters[0].0, "a");
    assert_eq!(add_func.parameters[1].0, "b");

    assert!(add_func.parameters[0].2 >= 1000);
    assert!(add_func.parameters[1].2 > add_func.parameters[0].2);

    println!("Function directory test passed");
}

#[test]
fn test_duplicate_variable_error() {
    let program_with_duplicate = Program {
        id: "example".to_string(),
        vars: vec![var("global_x", Type::Int)],
        funcs: vec![FunctionDeclaration {
            id: "add".to_string(),
            parameters: vec![param("a", Type::Int), param("b", Type::Int)],
            vars: vec![var("result", Type::Int), var("result", Type::Int)],
            body: vec![assign("result", binop(ident("a"), Operator::Plus, ident("b")))],
        }],
        main_body: vec![assign("global_x", Expression::IntegerLiteral(10))],
    };

    let function_directory_result = FunctionDirectory::from_program(&program_with_duplicate);
    assert!(
        function_directory_result.is_err(),
        "Expected error for duplicate local variable, got: {:?}",
        function_directory_result.ok()
    );

    if let Err(FunctionDirError::DuplicateVariable(var_name, scope)) = function_directory_result {
        println!("Correctly detected duplicate variable '{}' in scope '{}'", var_name, scope);
        assert_eq!(var_name, "result");
        assert_eq!(scope, "add");
    } else {
        panic!(
            "Expected DuplicateVariable error for local variable, got: {:?}",
            function_directory_result
        );
    }
}

#[test]
fn duplicate_function_is_rejected() {
    let program = Program {
        id: "example".to_string(),
        vars: vec![],
        funcs: vec![
            FunctionDeclaration {
                id: "twice".to_string(),
                parameters: vec![],
                vars: vec![],
                body: vec![],
            },
            FunctionDeclaration {
                id: "twice".to_string(),
                parameters: vec![],
                vars: vec![],
                body: vec![],
            },
        ],
        main_body: vec![],
    };
    match FunctionDirectory::from_program(&program) {
        Err(FunctionDirError::DuplicateFunction(name)) => assert_eq!(name, "twice"),
        other => panic!("Expected DuplicateFunction, got: {:?}", other),
    }
}

#[test]
fn parameter_local_collision_is_rejected() {
    let program = Program {
        id: "example".to_string(),
        vars: vec![],
        funcs: vec![FunctionDeclaration {
            id: "f".to_string(),
            parameters: vec![param("x", Type::Int)],
            vars: vec![var("x", Type::Float)],
            body: vec![],
        }],
        main_body: vec![],
    };
    match FunctionDirectory::from_program(&program) {
        Err(FunctionDirError::DuplicateVariable(name, _)) => assert_eq!(name, "x"),
        other => panic!("Expected DuplicateVariable, got: {:?}", other),
    }
}

#[test]
fn addresses_are_unique_and_sequential_per_type() {
    let ast = directory_program();
    let dir = FunctionDirectory::from_program(&ast).unwrap();
    let gx = dir.get_variable_address("global", "global_x").unwrap();
    let gy = dir.get_variable_address("global", "global_y").unwrap();
    let a = dir.get_variable_address("add", "a").unwrap();
    let b = dir.get_variable_address("add", "b").unwrap();
    let result = dir.get_variable_address("add", "result").unwrap();
    // Int segment from 1000: global_x, then parameters a and b, then the
    // local; float segment from 2000: global_y.
    assert_eq!(gx, 1000);
    assert_eq!(gy, 2000);
    assert_eq!(a, 1001);
    assert_eq!(b, 1002);
    assert_eq!(result, 1003);
    let mut all = vec![gx, gy, a, b, result];
    all.sort();
    all.dedup();
    assert_eq!(all.len(), 5, "no two declarations share an address");
}

#[test]
fn lookup_falls_back_to_global_not_siblings() {
    let ast = directory_program();
    let dir = FunctionDirectory::from_program(&ast).unwrap();
    // From the add scope, global_x resolves through the global fallback.
    assert_eq!(dir.get_variable_address("add", "global_x"), Some(1000));
    // A local of add is invisible from main.
    assert_eq!(dir.get_variable_address("main", "result"), None);
    assert!(!dir.is_program_entry("add"));
    assert!(dir.is_program_entry("example"));
}

#[test]
fn assignment_compatibility_rules() {
    let dir = FunctionDirectory::new();
    assert!(dir.is_valid_assignment(&Type::Int, &Type::Int));
    assert!(dir.is_valid_assignment(&Type::Float, &Type::Float));
    assert!(dir.is_valid_assignment(&Type::Float, &Type::Int));
    assert!(dir.is_valid_assignment(&Type::Bool, &Type::Bool));
    assert!(!dir.is_valid_assignment(&Type::Bool, &Type::Int));
    assert!(!dir.is_valid_assignment(&Type::Bool, &Type::Float));
    assert!(!dir.is_valid_assignment(&Type::Int, &Type::Float));
    assert!(!dir.is_valid_assignment(&Type::Int, &Type::Bool));
    assert!(!dir.is_valid_assignment(&Type::Float, &Type::Bool));
}
