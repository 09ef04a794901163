use mini_compiler::ast::{BinaryOp, Condition, Expression, Program, Statement, Variable};
use mini_compiler::quadruple::{Operand, Operator, QuadrupleGenerator};

fn lit(n: i32) -> Expression {
    Expression::Integer(n)
}

fn var(name: &str) -> Expression {
    Expression::Var(Variable::Simple(name.to_string()))
}

fn bin(l: Expression, op: BinaryOp, r: Expression) -> Expression {
    Expression::Binary { left: Box::new(l), op, right: Box::new(r) }
}

fn assign(name: &str, value: Expression) -> Statement {
    Statement::Assignment { target: Variable::Simple(name.to_string()), value }
}

fn generate(statements: Vec<Statement>) -> QuadrupleGenerator {
    let p = Program { name: "P".to_string(), declarations: vec![], statements };
    let mut g = QuadrupleGenerator::new();
    g.generate_from_program(&p);
    g
}

fn ops(g: &QuadrupleGenerator) -> Vec<Operator> {
    g.quads.iter().map(|q| q.operator).collect()
}

fn show(o: &Option<Operand>) -> String {
    format!("{:?}", o)
}

#[test]
fn counters_hand_out_fresh_ids() {
    let mut g = QuadrupleGenerator::new();
    assert_eq!(format!("{:?}", g.new_temp()), "Temp(0)");
    assert_eq!(format!("{:?}", g.new_temp()), "Temp(1)");
    assert_eq!(format!("{:?}", g.new_label()), "Label(0)");
    assert_eq!(format!("{:?}", g.new_label()), "Label(1)");
    assert_eq!((g.temp_count, g.label_count), (2, 2));
    g.emit(Operator::Goto, None, None, Some(Operand::Label(1)));
    assert_eq!(g.quads.len(), 1);
}

#[test]
fn assignment_of_nested_arithmetic() {
    let g = generate(vec![assign("x", bin(lit(2), BinaryOp::Add, bin(lit(3), BinaryOp::Multiply, lit(4))))]);
    assert_eq!(ops(&g), vec![Operator::Multiply, Operator::Add, Operator::Assign]);
    assert_eq!(show(&g.quads[0].arg1), show(&Some(Operand::Constant("3".to_string()))));
    assert_eq!(show(&g.quads[0].result), show(&Some(Operand::Temp(0))));
    assert_eq!(show(&g.quads[1].arg2), show(&Some(Operand::Temp(0))));
    assert_eq!(show(&g.quads[2].arg1), show(&Some(Operand::Temp(1))));
    assert_eq!(show(&g.quads[2].result), show(&Some(Operand::Variable("x".to_string()))));
    assert_eq!(g.temp_count, 2);
}

#[test]
fn literal_text_of_operands() {
    let g = generate(vec![Statement::Output {
        expressions: vec![lit(-7), Expression::Float(1.5f32.to_bits()), Expression::String("hi".to_string())],
    }]);
    assert_eq!(ops(&g), vec![Operator::Output, Operator::Output, Operator::Output]);
    assert_eq!(show(&g.quads[0].arg1), show(&Some(Operand::Constant("-7".to_string()))));
    assert_eq!(show(&g.quads[1].arg1), show(&Some(Operand::Constant("1.5".to_string()))));
    assert_eq!(show(&g.quads[2].arg1), show(&Some(Operand::StringLiteral("hi".to_string()))));
}

#[test]
fn array_element_target() {
    let g = generate(vec![Statement::Assignment {
        target: Variable::Array { name: "a".to_string(), index: Box::new(bin(var("i"), BinaryOp::Add, lit(1))) },
        value: lit(5),
    }]);
    assert_eq!(ops(&g), vec![Operator::Add, Operator::Assign]);
    assert_eq!(
        show(&g.quads[1].result),
        show(&Some(Operand::ArrayElement("a".to_string(), Box::new(Operand::Temp(0)))))
    );
}

#[test]
fn if_else_lowering_shape() {
    let g = generate(vec![Statement::IfElse {
        condition: Condition::Expr(bin(var("x"), BinaryOp::LessThan, lit(3))),
        if_branch: vec![assign("y", lit(1)), assign("z", lit(2))],
        else_branch: vec![assign("y", lit(0))],
    }]);
    assert_eq!(ops(&g), vec![
        Operator::LessThan,
        Operator::IfFalse,
        Operator::Assign,
        Operator::Assign,
        Operator::Goto,
        Operator::Label,
        Operator::Assign,
        Operator::Label,
    ]);
    assert_eq!(show(&g.quads[1].result), show(&Some(Operand::Label(0))));
    assert_eq!(show(&g.quads[4].result), show(&Some(Operand::Label(1))));
    assert_eq!(show(&g.quads[5].result), show(&Some(Operand::Label(0))));
    assert_eq!(show(&g.quads[7].result), show(&Some(Operand::Label(1))));
    assert_eq!(g.label_count, 2);
}

#[test]
fn if_else_with_empty_branches_keeps_both_labels() {
    let g = generate(vec![Statement::IfElse {
        condition: Condition::Expr(var("c")),
        if_branch: vec![],
        else_branch: vec![],
    }]);
    assert_eq!(ops(&g), vec![Operator::IfFalse, Operator::Goto, Operator::Label, Operator::Label]);
}

#[test]
fn for_loop_lowering_shape() {
    let g = generate(vec![Statement::For {
        var: "i".to_string(),
        start: lit(1),
        end: lit(10),
        step: lit(2),
        body: vec![Statement::Output { expressions: vec![var("i")] }],
    }]);
    assert_eq!(ops(&g), vec![
        Operator::Assign,
        Operator::Label,
        Operator::GreaterThan,
        Operator::IfTrue,
        Operator::Output,
        Operator::Add,
        Operator::Assign,
        Operator::Goto,
        Operator::Label,
    ]);
    assert_eq!(show(&g.quads[0].arg1), show(&Some(Operand::Constant("1".to_string()))));
    assert_eq!(show(&g.quads[2].arg2), show(&Some(Operand::Constant("10".to_string()))));
    assert_eq!(show(&g.quads[2].result), show(&Some(Operand::Temp(0))));
    assert_eq!(show(&g.quads[3].result), show(&Some(Operand::Label(1))));
    assert_eq!(show(&g.quads[5].arg2), show(&Some(Operand::Constant("2".to_string()))));
    assert_eq!(show(&g.quads[5].result), show(&Some(Operand::Temp(1))));
    assert_eq!(show(&g.quads[7].result), show(&Some(Operand::Label(0))));
    assert_eq!(show(&g.quads[8].result), show(&Some(Operand::Label(1))));
}

#[test]
fn do_while_lowering_shape() {
    let g = generate(vec![Statement::DoWhile {
        condition: Condition::Expr(bin(var("n"), BinaryOp::GreaterThan, lit(0))),
        body: vec![Statement::Input { var: "n".to_string() }],
    }]);
    assert_eq!(ops(&g), vec![Operator::Label, Operator::Input, Operator::GreaterThan, Operator::IfTrue]);
    assert_eq!(show(&g.quads[3].arg1), show(&Some(Operand::Temp(0))));
    assert_eq!(show(&g.quads[3].result), show(&Some(Operand::Label(0))));
    assert_eq!(g.label_count, 1);
}

#[test]
fn negation_and_type_names() {
    let g = generate(vec![
        assign("x", Expression::Not(Box::new(var("y")))),
        assign("x", Expression::Type("Int".to_string())),
    ]);
    assert_eq!(ops(&g), vec![Operator::Not, Operator::Assign, Operator::Assign]);
    assert_eq!(show(&g.quads[2].arg1), show(&None));
}
