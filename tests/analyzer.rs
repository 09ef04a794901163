use mini_compiler::ast::{
    BinaryOp, Condition, Declaration, Expression, Program, Statement, Variable,
};
use mini_compiler::semantic_analyzer::{ErrorKind, SemanticAnalyzer, SemanticError};
use mini_compiler::symbol_table::{DataType, EntityType, Value};

fn lit(n: i32) -> Expression {
    Expression::Integer(n)
}

fn float(x: f32) -> Expression {
    Expression::Float(x.to_bits())
}

fn var(name: &str) -> Expression {
    Expression::Var(Variable::Simple(name.to_string()))
}

fn bin(l: Expression, op: BinaryOp, r: Expression) -> Expression {
    Expression::Binary { left: Box::new(l), op, right: Box::new(r) }
}

fn decl(names: &[&str], ty: &str) -> Declaration {
    Declaration::VariableDecl {
        names: names.iter().map(|n| n.to_string()).collect(),
        type_spec: Expression::Type(ty.to_string()),
    }
}

fn array_decl(name: &str, ty: &str, size: i32) -> Declaration {
    Declaration::VariableDecl {
        names: vec![name.to_string()],
        type_spec: Expression::ArrayType { ty_name: ty.to_string(), size },
    }
}

fn const_decl(name: &str, ty: &str, value: Expression) -> Declaration {
    Declaration::ConstDecl { name: name.to_string(), ty_name: ty.to_string(), value }
}

fn assign(name: &str, value: Expression) -> Statement {
    Statement::Assignment { target: Variable::Simple(name.to_string()), value }
}

fn assign_at(name: &str, index: Expression, value: Expression) -> Statement {
    Statement::Assignment {
        target: Variable::Array { name: name.to_string(), index: Box::new(index) },
        value,
    }
}

fn program(declarations: Vec<Declaration>, statements: Vec<Statement>) -> Program {
    Program { name: "Test".to_string(), declarations, statements }
}

fn positions(pairs: &[(&str, usize, usize)]) -> Vec<(String, (usize, usize))> {
    pairs.iter().map(|(n, l, c)| (n.to_string(), (*l, *c))).collect()
}

fn run(p: &Program, map: Vec<(String, (usize, usize))>) -> (SemanticAnalyzer, Vec<SemanticError>) {
    let mut a = SemanticAnalyzer::new();
    let errors = match a.analyze(p, map) {
        Ok(()) => Vec::new(),
        Err(es) => es,
    };
    (a, errors)
}

fn value_of(a: &SemanticAnalyzer, name: &str) -> String {
    format!("{:?}", a.symbol_table.lookup(name).expect("declared").value)
}

fn kinds(errors: &[SemanticError]) -> Vec<ErrorKind> {
    errors.iter().map(|e| e.kind).collect()
}

#[test]
fn constant_folding_integers() {
    let p = program(
        vec![const_decl("C", "Int", bin(lit(2), BinaryOp::Add, bin(lit(3), BinaryOp::Multiply, lit(4))))],
        vec![],
    );
    let (a, errors) = run(&p, positions(&[]));
    assert!(errors.is_empty());
    let e = a.symbol_table.lookup("C").unwrap();
    assert_eq!(e.entity_type, EntityType::Constant);
    assert_eq!(e.data_type, DataType::Int);
    assert_eq!(value_of(&a, "C"), format!("{:?}", Value::Int(14)));
}

#[test]
fn constant_folding_floats() {
    let p = program(vec![const_decl("F", "Float", bin(float(1.5), BinaryOp::Add, float(2.5)))], vec![]);
    let (a, errors) = run(&p, positions(&[]));
    assert!(errors.is_empty());
    assert_eq!(value_of(&a, "F"), format!("{:?}", Value::Float(4.0f32.to_bits())));
}

#[test]
fn constant_folding_all_integer_operators() {
    let p = program(
        vec![
            const_decl("A", "Int", bin(lit(7), BinaryOp::Subtract, lit(10))),
            const_decl("B", "Int", bin(lit(-7), BinaryOp::Divide, lit(2))),
            const_decl("C", "Int", bin(var("A"), BinaryOp::Multiply, var("B"))),
        ],
        vec![],
    );
    let (a, errors) = run(&p, positions(&[]));
    assert!(errors.is_empty());
    assert_eq!(value_of(&a, "A"), format!("{:?}", Value::Int(-3)));
    assert_eq!(value_of(&a, "B"), format!("{:?}", Value::Int(-3)));
    assert_eq!(value_of(&a, "C"), format!("{:?}", Value::Int(9)));
}

#[test]
fn constant_float_quotient_and_difference() {
    let p = program(
        vec![
            const_decl("Q", "Float", bin(float(7.0), BinaryOp::Divide, float(2.0))),
            const_decl("D", "Float", bin(float(1.0), BinaryOp::Subtract, float(0.25))),
            const_decl("M", "Float", bin(float(1.5), BinaryOp::Multiply, float(3.0))),
        ],
        vec![],
    );
    let (a, errors) = run(&p, positions(&[]));
    assert!(errors.is_empty());
    assert_eq!(value_of(&a, "Q"), format!("{:?}", Value::Float(3.5f32.to_bits())));
    assert_eq!(value_of(&a, "D"), format!("{:?}", Value::Float(0.75f32.to_bits())));
    assert_eq!(value_of(&a, "M"), format!("{:?}", Value::Float(4.5f32.to_bits())));
}

#[test]
fn double_declaration_reported_once_at_second_position() {
    let p = program(vec![decl(&["x"], "Int"), decl(&["x"], "Float")], vec![]);
    let (a, errors) = run(&p, positions(&[("x", 3, 5)]));
    assert_eq!(kinds(&errors), vec![ErrorKind::DoubleDeclaration]);
    assert_eq!((errors[0].line, errors[0].column), (3, 5));
    assert_eq!(
        errors[0].message,
        "Semantic Error: Double declaration of 'x' at line 3, column 5 (first declared at line 3, column 5)"
    );
    assert_eq!(a.symbol_table.lookup("x").unwrap().data_type, DataType::Int);
}

#[test]
fn undeclared_assignment_does_not_stop_analysis() {
    let p = program(vec![decl(&["x"], "Int")], vec![assign("y", lit(1)), assign("x", lit(2))]);
    let (a, errors) = run(&p, positions(&[("y", 7, 1)]));
    assert_eq!(kinds(&errors), vec![ErrorKind::UndeclaredIdentifier]);
    assert_eq!(errors[0].message, "Undeclared identifier: 'y'");
    assert_eq!((errors[0].line, errors[0].column), (7, 1));
    assert_eq!(value_of(&a, "x"), format!("{:?}", Value::Int(2)));
}

#[test]
fn constant_write_protection() {
    let p = program(vec![const_decl("PI", "Float", float(3.14))], vec![assign("PI", lit(3))]);
    let (a, errors) = run(&p, positions(&[("PI", 2, 15)]));
    assert_eq!(kinds(&errors), vec![ErrorKind::ConstAssignment]);
    assert_eq!(errors[0].message, "Cannot modify constant: 'PI'");
    let e = a.symbol_table.lookup("PI").unwrap();
    assert_eq!(e.entity_type, EntityType::Constant);
    assert_eq!((e.line, e.column), (2, 15));
    assert_eq!(value_of(&a, "PI"), format!("{:?}", Value::Float(3.14f32.to_bits())));
}

#[test]
fn array_bounds_on_assignment() {
    let p = program(
        vec![array_decl("a", "Int", 10)],
        vec![assign_at("a", lit(10), lit(1)), assign_at("a", lit(-1), lit(1)), assign_at("a", lit(9), lit(5))],
    );
    let (a, errors) = run(&p, positions(&[]));
    assert_eq!(kinds(&errors), vec![ErrorKind::ArrayIndexOutOfBounds, ErrorKind::ArrayIndexOutOfBounds]);
    assert_eq!(errors[0].message, "Array index out of bounds: 'a[10]', size is 10");
    assert_eq!(errors[1].message, "Array index out of bounds: 'a[-1]', size is 10");
    match &a.symbol_table.lookup("a").unwrap().value {
        Value::Array(es) => {
            assert_eq!(es.len(), 10);
            assert_eq!(format!("{:?}", es[9]), format!("{:?}", Value::Int(5)));
            assert_eq!(format!("{:?}", es[0]), format!("{:?}", Value::Undefined));
        }
        other => panic!("not an array: {:?}", other),
    }
}

#[test]
fn array_read_out_of_bounds_is_reported() {
    let read = Expression::Var(Variable::Array { name: "a".to_string(), index: Box::new(lit(12)) });
    let p = program(vec![array_decl("a", "Int", 3), decl(&["x"], "Int")], vec![assign("x", read)]);
    let (_, errors) = run(&p, positions(&[]));
    assert_eq!(kinds(&errors), vec![ErrorKind::ArrayIndexOutOfBounds]);
    assert_eq!(errors[0].message, "Array index out of bounds: 'a[12]', size is 3");
}

#[test]
fn division_by_literal_zero() {
    let p = program(vec![decl(&["x"], "Int")], vec![assign("x", bin(lit(5), BinaryOp::Divide, lit(0)))]);
    let (a, errors) = run(&p, positions(&[]));
    assert_eq!(kinds(&errors), vec![ErrorKind::DivisionByZero]);
    assert_eq!(errors[0].message, "Division by zero");
    assert_eq!((errors[0].line, errors[0].column), (0, 0));
    assert_eq!(value_of(&a, "x"), format!("{:?}", Value::Undefined));
}

#[test]
fn division_by_tracked_zero() {
    let p = program(
        vec![decl(&["x", "y"], "Int")],
        vec![assign("y", lit(0)), assign("x", bin(lit(5), BinaryOp::Divide, var("y")))],
    );
    let (_, errors) = run(&p, positions(&[("y", 4, 9)]));
    assert_eq!(kinds(&errors), vec![ErrorKind::DivisionByZero]);
    assert_eq!((errors[0].line, errors[0].column), (4, 9));
}

#[test]
fn division_by_float_zero() {
    let p = program(vec![decl(&["x"], "Float")], vec![assign("x", bin(float(5.0), BinaryOp::Divide, float(-0.0)))]);
    let (_, errors) = run(&p, positions(&[]));
    assert_eq!(kinds(&errors), vec![ErrorKind::DivisionByZero]);
}

#[test]
fn mixed_arithmetic_promotes_to_float() {
    let p = program(vec![decl(&["x", "y"], "Float")], vec![
        assign("x", bin(lit(3), BinaryOp::Add, float(1.5))),
        assign("y", bin(float(1.5), BinaryOp::Multiply, lit(2))),
    ]);
    let (a, errors) = run(&p, positions(&[]));
    assert!(errors.is_empty());
    assert_eq!(value_of(&a, "x"), format!("{:?}", Value::Float(4.5f32.to_bits())));
    assert_eq!(value_of(&a, "y"), format!("{:?}", Value::Float(3.0f32.to_bits())));
}

#[test]
fn constant_evaluation_rejects_mixed_operands() {
    let p = program(vec![const_decl("C", "Float", bin(lit(3), BinaryOp::Add, float(1.5)))], vec![]);
    let (a, errors) = run(&p, positions(&[("C", 1, 1)]));
    assert_eq!(kinds(&errors), vec![ErrorKind::CouldNotEvaluateConstant]);
    assert_eq!(errors[0].message, "Could not evaluate constant value for 'C'");
    assert!(a.symbol_table.lookup("C").is_none());
}

#[test]
fn constant_type_must_match_exactly() {
    let p = program(vec![const_decl("I", "Int", float(1.5))], vec![]);
    let (_, errors) = run(&p, positions(&[]));
    assert_eq!(kinds(&errors), vec![ErrorKind::TypeMismatch]);
    assert_eq!(errors[0].message, "Type mismatch for constant 'I': expected Int, got Float");
}

#[test]
fn constant_of_unknown_type() {
    let p = program(vec![const_decl("S", "Str", lit(1))], vec![]);
    let (_, errors) = run(&p, positions(&[]));
    assert_eq!(kinds(&errors), vec![ErrorKind::UnknownType]);
    assert_eq!(errors[0].message, "Unknown type: Str");
}

#[test]
fn string_assigned_to_variable() {
    let p = program(vec![decl(&["x"], "Int")], vec![assign("x", Expression::String("hi".to_string()))]);
    let (_, errors) = run(&p, positions(&[]));
    assert_eq!(kinds(&errors), vec![ErrorKind::TypeMismatch]);
    assert_eq!(errors[0].message, "Cannot assign string 'hi' to variable 'x' of type Int");
}

#[test]
fn indexing_a_scalar_is_not_an_array() {
    let p = program(vec![decl(&["x"], "Int")], vec![assign_at("x", lit(1), lit(2))]);
    let (_, errors) = run(&p, positions(&[]));
    assert_eq!(kinds(&errors), vec![ErrorKind::NotAnArray]);
    assert_eq!(errors[0].message, "'x' is not an array");
}

#[test]
fn whole_array_assignment_is_refused() {
    let p = program(vec![array_decl("a", "Int", 4)], vec![assign("a", lit(5)), assign_at("a", lit(1), lit(2))]);
    let (a, errors) = run(&p, positions(&[("a", 2, 5)]));
    assert_eq!(kinds(&errors), vec![ErrorKind::TypeMismatch]);
    assert_eq!(errors[0].message, "Cannot assign to array 'a' as a whole");
    assert_eq!((errors[0].line, errors[0].column), (2, 5));
    match &a.symbol_table.lookup("a").unwrap().value {
        Value::Array(es) => {
            assert_eq!(es.len(), 4);
            assert_eq!(format!("{:?}", es[1]), format!("{:?}", Value::Int(2)));
        }
        other => panic!("not an array: {:?}", other),
    }
}

#[test]
fn input_into_a_constant_is_refused() {
    let p = program(vec![const_decl("C", "Int", lit(1))], vec![Statement::Input { var: "C".to_string() }]);
    let (a, errors) = run(&p, positions(&[("C", 1, 9)]));
    assert_eq!(kinds(&errors), vec![ErrorKind::ConstAssignment]);
    assert_eq!(errors[0].message, "Cannot modify constant: 'C'");
    assert_eq!(value_of(&a, "C"), format!("{:?}", Value::Int(1)));
}

#[test]
fn loop_over_a_constant_or_an_array_is_refused() {
    let p = program(vec![const_decl("C", "Int", lit(1)), array_decl("a", "Int", 2)], vec![
        Statement::For { var: "C".to_string(), start: lit(5), end: lit(9), step: lit(1), body: vec![] },
        Statement::For { var: "a".to_string(), start: lit(5), end: lit(9), step: lit(1), body: vec![] },
        Statement::Input { var: "a".to_string() },
    ]);
    let (a, errors) = run(&p, positions(&[]));
    assert_eq!(kinds(&errors), vec![ErrorKind::ConstAssignment, ErrorKind::TypeMismatch, ErrorKind::TypeMismatch]);
    assert_eq!(value_of(&a, "C"), format!("{:?}", Value::Int(1)));
    assert_eq!(
        value_of(&a, "a"),
        format!("{:?}", Value::Array(vec![Value::Undefined, Value::Undefined]))
    );
}

#[test]
fn bare_array_name_evaluates_to_its_elements() {
    let p = program(vec![array_decl("a", "Int", 2), decl(&["x"], "Int")], vec![
        assign_at("a", lit(0), lit(7)),
        assign("x", var("a")),
    ]);
    let (a, errors) = run(&p, positions(&[]));
    assert!(errors.is_empty());
    assert_eq!(
        value_of(&a, "x"),
        format!("{:?}", Value::Array(vec![Value::Int(7), Value::Undefined]))
    );
}

#[test]
fn value_tracking_follows_statement_order() {
    let p = program(vec![decl(&["a", "b", "r"], "Int")], vec![
        assign("a", lit(10)),
        assign("b", lit(2)),
        assign("r", bin(var("a"), BinaryOp::Divide, var("b"))),
        Statement::Input { var: "b".to_string() },
        assign("a", bin(var("a"), BinaryOp::Add, var("b"))),
    ]);
    let (a, errors) = run(&p, positions(&[]));
    assert!(errors.is_empty());
    assert_eq!(value_of(&a, "r"), format!("{:?}", Value::Int(5)));
    assert_eq!(value_of(&a, "b"), format!("{:?}", Value::Undefined));
    assert_eq!(value_of(&a, "a"), format!("{:?}", Value::Undefined));
}

#[test]
fn integer_overflow_is_not_evaluable() {
    let p = program(vec![decl(&["x"], "Int")], vec![assign("x", bin(lit(i32::MAX), BinaryOp::Add, lit(1)))]);
    let (a, errors) = run(&p, positions(&[]));
    assert!(errors.is_empty());
    assert_eq!(value_of(&a, "x"), format!("{:?}", Value::Undefined));
}

#[test]
fn negation_maps_zero_to_one() {
    let p = program(vec![decl(&["x", "y"], "Int")], vec![
        assign("x", Expression::Not(Box::new(lit(0)))),
        assign("y", Expression::Not(Box::new(float(2.5)))),
    ]);
    let (a, errors) = run(&p, positions(&[]));
    assert!(errors.is_empty());
    assert_eq!(value_of(&a, "x"), format!("{:?}", Value::Int(1)));
    assert_eq!(value_of(&a, "y"), format!("{:?}", Value::Int(0)));
}

#[test]
fn both_branches_and_loops_are_analyzed() {
    let cond = Condition::Expr(bin(var("x"), BinaryOp::LessThan, lit(3)));
    let p = program(vec![decl(&["x", "i"], "Int")], vec![
        Statement::IfElse { condition: cond, if_branch: vec![assign("u", lit(1))], else_branch: vec![assign("v", lit(1))] },
        Statement::DoWhile { condition: Condition::Expr(var("w")), body: vec![] },
        Statement::For { var: "i".to_string(), start: lit(1), end: lit(10), step: lit(1), body: vec![] },
        Statement::For { var: "k".to_string(), start: lit(1), end: lit(10), step: lit(1), body: vec![] },
        Statement::Output { expressions: vec![var("z"), Expression::String("s".to_string())] },
    ]);
    let (a, errors) = run(&p, positions(&[]));
    let messages: Vec<String> = errors.iter().map(|e| e.message.clone()).collect();
    assert_eq!(messages, vec![
        "Undeclared identifier: 'u'",
        "Undeclared identifier: 'v'",
        "Undeclared identifier: 'w'",
        "Undeclared identifier: 'k'",
        "Undeclared identifier: 'z'",
    ]);
    assert_eq!(value_of(&a, "i"), format!("{:?}", Value::Int(1)));
}

#[test]
fn analysis_succeeds_on_a_clean_program() {
    let p = program(vec![decl(&["a", "b", "c"], "Int"), const_decl("PI", "Float", float(3.14)), decl(&["result"], "Int")], vec![
        assign("a", lit(10)),
        assign("c", lit(20)),
        assign("b", lit(2)),
        assign("result", bin(var("a"), BinaryOp::Divide, var("b"))),
        Statement::Output { expressions: vec![Expression::String("The result is:".to_string()), var("result")] },
    ]);
    let mut a = SemanticAnalyzer::new();
    assert!(a.analyze(&p, positions(&[])).is_ok());
    assert!(a.errors.is_empty());
    assert_eq!(value_of(&a, "result"), format!("{:?}", Value::Int(5)));
}
