//! Lowering of the program into three-address instructions (quadruples).
use vstd::prelude::*;
use crate::ast::{BinaryOp, Condition, Declaration, Expression, Program, Statement, Variable};
use crate::float::{float_text, float_to_text};
use crate::text::{i32_text, int_text};

verus! {

#[derive(Clone, Copy, Debug, PartialEq, Eq, Structural)]
pub enum Operator {
    Add,
    Subtract,
    Multiply,
    Divide,
    Assign,
    LessThan,
    GreaterThan,
    LessEqual,
    GreaterEqual,
    Equal,
    NotEqual,
    And,
    Or,
    Not,
    Goto,
    IfTrue,
    IfFalse,
    Label,
    Input,
    Output,
}

/// Where a value lives, or a jump target.
#[derive(Debug)]
pub enum Operand {
    Variable(String),
    /// A literal, as text.
    Constant(String),
    ArrayElement(String, Box<Operand>),
    Temp(usize),
    Label(usize),
    StringLiteral(String),
}

pub enum OperandView {
    Variable(Seq<char>),
    Constant(Seq<char>),
    ArrayElement(Seq<char>, Box<OperandView>),
    Temp(nat),
    Label(nat),
    StringLiteral(Seq<char>),
}

pub open spec fn operand_view(o: Operand) -> OperandView
    decreases o,
{
    match o {
        Operand::Variable(n) => OperandView::Variable(n@),
        Operand::Constant(c) => OperandView::Constant(c@),
        Operand::ArrayElement(n, i) => OperandView::ArrayElement(n@, Box::new(operand_view(*i))),
        Operand::Temp(t) => OperandView::Temp(t as nat),
        Operand::Label(l) => OperandView::Label(l as nat),
        Operand::StringLiteral(s) => OperandView::StringLiteral(s@),
    }
}

pub open spec fn opt_view(o: Option<Operand>) -> Option<OperandView> {
    match o {
        Some(x) => Some(operand_view(x)),
        None => None,
    }
}

#[derive(Debug)]
pub struct Quadruple {
    pub operator: Operator,
    pub arg1: Option<Operand>,
    pub arg2: Option<Operand>,
    pub result: Option<Operand>,
}

pub struct QuadView {
    pub operator: Operator,
    pub arg1: Option<OperandView>,
    pub arg2: Option<OperandView>,
    pub result: Option<OperandView>,
}

impl View for Quadruple {
    type V = QuadView;

    open spec fn view(&self) -> QuadView {
        QuadView {
            operator: self.operator,
            arg1: opt_view(self.arg1),
            arg2: opt_view(self.arg2),
            result: opt_view(self.result),
        }
    }
}

pub open spec fn quad(
    operator: Operator,
    arg1: Option<OperandView>,
    arg2: Option<OperandView>,
    result: Option<OperandView>,
) -> QuadView {
    QuadView { operator, arg1, arg2, result }
}

pub open spec fn label_quad(l: nat) -> QuadView {
    quad(Operator::Label, None, None, Some(OperandView::Label(l)))
}

pub open spec fn binary_operator(op: BinaryOp) -> Operator {
    match op {
        BinaryOp::Add => Operator::Add,
        BinaryOp::Subtract => Operator::Subtract,
        BinaryOp::Multiply => Operator::Multiply,
        BinaryOp::Divide => Operator::Divide,
        BinaryOp::LessThan => Operator::LessThan,
        BinaryOp::GreaterThan => Operator::GreaterThan,
        BinaryOp::LessEqual => Operator::LessEqual,
        BinaryOp::GreaterEqual => Operator::GreaterEqual,
        BinaryOp::Equal => Operator::Equal,
        BinaryOp::NotEqual => Operator::NotEqual,
        BinaryOp::And => Operator::And,
        BinaryOp::Or => Operator::Or,
    }
}

/// Whether an expression lowers to an operand (type names do not).
pub open spec fn lowers(e: Expression) -> bool
    decreases e,
{
    match e {
        Expression::Var(Variable::Simple(_)) => true,
        Expression::Var(Variable::Array { index, .. }) => lowers(*index),
        Expression::Integer(_) => true,
        Expression::Float(_) => true,
        Expression::String(_) => true,
        Expression::Literal(inner) => lowers(*inner),
        Expression::Binary { left, right, .. } => lowers(*left) && lowers(*right),
        Expression::Not(inner) => lowers(*inner),
        _ => false,
    }
}

/// Number of temporaries that lowering `e` allocates.
pub open spec fn expr_temps(e: Expression) -> nat
    decreases e,
{
    match e {
        Expression::Var(Variable::Array { index, .. }) => expr_temps(*index),
        Expression::Literal(inner) => expr_temps(*inner),
        Expression::Binary { left, right, .. } => expr_temps(*left) + expr_temps(*right) + if lowers(*left)
            && lowers(*right) {
            1nat
        } else {
            0nat
        },
        Expression::Not(inner) => expr_temps(*inner) + if lowers(*inner) {
            1nat
        } else {
            0nat
        },
        _ => 0,
    }
}

pub open spec fn element_operand(name: Seq<char>, index: Option<OperandView>) -> Option<OperandView> {
    match index {
        Some(i) => Some(OperandView::ArrayElement(name, Box::new(i))),
        None => None,
    }
}

/// The instructions that lowering `e` emits, with temporaries numbered from
/// `t`, and the operand that holds its value.
pub open spec fn lower_expr(e: Expression, t: nat) -> (Seq<QuadView>, Option<OperandView>)
    decreases e,
{
    match e {
        Expression::Var(Variable::Simple(n)) => (seq![], Some(OperandView::Variable(n@))),
        Expression::Var(Variable::Array { name, index }) => {
            let i = lower_expr(*index, t);
            (i.0, element_operand(name@, i.1))
        },
        Expression::Integer(n) => (seq![], Some(OperandView::Constant(int_text(n as int)))),
        Expression::Float(b) => (seq![], Some(OperandView::Constant(float_text(b)))),
        Expression::String(s) => (seq![], Some(OperandView::StringLiteral(s@))),
        Expression::Literal(inner) => lower_expr(*inner, t),
        Expression::Binary { left, op, right } => {
            let l = lower_expr(*left, t);
            let r = lower_expr(*right, t + expr_temps(*left));
            let tmp = t + expr_temps(*left) + expr_temps(*right);
            match (l.1, r.1) {
                (Some(a), Some(b)) => (
                    l.0 + r.0 + seq![quad(binary_operator(op), Some(a), Some(b), Some(OperandView::Temp(tmp)))],
                    Some(OperandView::Temp(tmp)),
                ),
                _ => (l.0 + r.0, None),
            }
        },
        Expression::Not(inner) => {
            let i = lower_expr(*inner, t);
            let tmp = t + expr_temps(*inner);
            match i.1 {
                Some(a) => (
                    i.0.push(quad(Operator::Not, Some(a), None, Some(OperandView::Temp(tmp)))),
                    Some(OperandView::Temp(tmp)),
                ),
                None => (i.0, None),
            }
        },
        _ => (seq![], None),
    }
}

pub open spec fn cond_expr(c: Condition) -> Expression {
    match c {
        Condition::Expr(e) => e,
    }
}

pub open spec fn target_temps(target: Variable) -> nat {
    match target {
        Variable::Simple(_) => 0,
        Variable::Array { index, .. } => expr_temps(*index),
    }
}

pub open spec fn lower_target(target: Variable, t: nat) -> (Seq<QuadView>, Option<OperandView>) {
    match target {
        Variable::Simple(n) => (seq![], Some(OperandView::Variable(n@))),
        Variable::Array { name, index } => {
            let i = lower_expr(*index, t);
            (i.0, element_operand(name@, i.1))
        },
    }
}

pub open spec fn list_temps(es: Seq<Expression>) -> nat
    decreases es.len(),
{
    if es.len() == 0 {
        0
    } else {
        list_temps(es.drop_last()) + expr_temps(es.last())
    }
}

/// One `Output` per expression, each after the instructions computing it.
pub open spec fn lower_outputs(es: Seq<Expression>, t: nat) -> Seq<QuadView>
    decreases es.len(),
{
    if es.len() == 0 {
        seq![]
    } else {
        let e = lower_expr(es.last(), t + list_temps(es.drop_last()));
        lower_outputs(es.drop_last(), t) + e.0 + seq![quad(Operator::Output, e.1, None, None)]
    }
}

pub open spec fn stmt_temps(s: Statement) -> nat
    decreases s, 0nat,
{
    match s {
        Statement::Assignment { target, value } => expr_temps(value) + target_temps(target),
        Statement::IfElse { condition, if_branch, else_branch } => expr_temps(cond_expr(condition))
            + block_temps(if_branch, if_branch@.len()) + block_temps(else_branch, else_branch@.len()),
        Statement::DoWhile { condition, body } => block_temps(body, body@.len()) + expr_temps(
            cond_expr(condition),
        ),
        Statement::For { start, end, step, body, .. } => expr_temps(start) + expr_temps(end)
            + expr_temps(step) + 1 + block_temps(body, body@.len()) + 1,
        Statement::Input { .. } => 0,
        Statement::Output { expressions } => list_temps(expressions@),
    }
}

pub open spec fn block_temps(body: Vec<Statement>, n: nat) -> nat
    decreases body, n,
{
    if n == 0 || n > body@.len() {
        0
    } else {
        block_temps(body, (n - 1) as nat) + stmt_temps(body[n - 1])
    }
}

pub open spec fn stmt_labels(s: Statement) -> nat
    decreases s, 0nat,
{
    match s {
        Statement::IfElse { if_branch, else_branch, .. } => 2 + block_labels(if_branch, if_branch@.len())
            + block_labels(else_branch, else_branch@.len()),
        Statement::DoWhile { body, .. } => 1 + block_labels(body, body@.len()),
        Statement::For { body, .. } => 2 + block_labels(body, body@.len()),
        _ => 0,
    }
}

pub open spec fn block_labels(body: Vec<Statement>, n: nat) -> nat
    decreases body, n,
{
    if n == 0 || n > body@.len() {
        0
    } else {
        block_labels(body, (n - 1) as nat) + stmt_labels(body[n - 1])
    }
}

/// The instructions for statement `s`, with temporaries numbered from `t`
/// and labels from `l`.
pub open spec fn lower_stmt(s: Statement, t: nat, l: nat) -> Seq<QuadView>
    decreases s, 0nat,
{
    match s {
        Statement::Assignment { target, value } => {
            let v = lower_expr(value, t);
            let d = lower_target(target, t + expr_temps(value));
            v.0 + d.0 + seq![quad(Operator::Assign, v.1, None, d.1)]
        },
        Statement::IfElse { condition, if_branch, else_branch } => {
            let c = lower_expr(cond_expr(condition), t);
            let t1 = t + expr_temps(cond_expr(condition));
            let qi = lower_block(if_branch, if_branch@.len(), t1, l + 2);
            let t2 = t1 + block_temps(if_branch, if_branch@.len());
            let l2 = l + 2 + block_labels(if_branch, if_branch@.len());
            let qe = lower_block(else_branch, else_branch@.len(), t2, l2);
            c.0 + seq![quad(Operator::IfFalse, c.1, None, Some(OperandView::Label(l)))] + qi + seq![
                quad(Operator::Goto, None, None, Some(OperandView::Label(l + 1))),
                label_quad(l),
            ] + qe + seq![label_quad(l + 1)]
        },
        Statement::DoWhile { condition, body } => {
            let qb = lower_block(body, body@.len(), t, l + 1);
            let c = lower_expr(cond_expr(condition), t + block_temps(body, body@.len()));
            seq![label_quad(l)] + qb + c.0 + seq![quad(Operator::IfTrue, c.1, None, Some(OperandView::Label(l)))]
        },
        Statement::For { var, start, end, step, body } => {
            let s1 = lower_expr(start, t);
            let t1 = t + expr_temps(start);
            let s2 = lower_expr(end, t1);
            let t2 = t1 + expr_temps(end);
            let s3 = lower_expr(step, t2);
            let t3 = t2 + expr_temps(step);
            let qb = lower_block(body, body@.len(), t3 + 1, l + 2);
            let t4 = t3 + 1 + block_temps(body, body@.len());
            let v = OperandView::Variable(var@);
            s1.0 + s2.0 + s3.0 + seq![
                quad(Operator::Assign, s1.1, None, Some(v)),
                label_quad(l),
                quad(Operator::GreaterThan, Some(v), s2.1, Some(OperandView::Temp(t3))),
                quad(Operator::IfTrue, Some(OperandView::Temp(t3)), None, Some(OperandView::Label(l + 1))),
            ] + qb + seq![
                quad(Operator::Add, Some(v), s3.1, Some(OperandView::Temp(t4))),
                quad(Operator::Assign, Some(OperandView::Temp(t4)), None, Some(v)),
                quad(Operator::Goto, None, None, Some(OperandView::Label(l))),
                label_quad(l + 1),
            ]
        },
        Statement::Input { var } => seq![quad(Operator::Input, None, None, Some(OperandView::Variable(var@)))],
        Statement::Output { expressions } => lower_outputs(expressions@, t),
    }
}

/// The instructions for the first `n` statements of `body`.
pub open spec fn lower_block(body: Vec<Statement>, n: nat, t: nat, l: nat) -> Seq<QuadView>
    decreases body, n,
{
    if n == 0 || n > body@.len() {
        seq![]
    } else {
        let pn = (n - 1) as nat;
        lower_block(body, pn, t, l) + lower_stmt(
            body[n - 1],
            t + block_temps(body, pn),
            l + block_labels(body, pn),
        )
    }
}

/// Lowering an if/else emits the condition, one `IfFalse`, the if-branch,
/// one `Goto` and one `Label`, the else-branch, and one closing `Label`:
/// two labels and two jumps of its own whatever the branches hold.
pub proof fn lemma_if_else_shape(
    condition: Condition,
    if_branch: Vec<Statement>,
    else_branch: Vec<Statement>,
    t: nat,
    l: nat,
)
    ensures
        ({
            let q = lower_stmt(Statement::IfElse { condition, if_branch, else_branch }, t, l);
            let c = lower_expr(cond_expr(condition), t);
            let t1 = t + expr_temps(cond_expr(condition));
            let qi = lower_block(if_branch, if_branch@.len(), t1, l + 2);
            let qe = lower_block(
                else_branch,
                else_branch@.len(),
                t1 + block_temps(if_branch, if_branch@.len()),
                l + 2 + block_labels(if_branch, if_branch@.len()),
            );
            let a = c.0.len() as int;
            let b = a + 1 + qi.len();
            &&& q.len() == c.0.len() + qi.len() + qe.len() + 4
            &&& q.subrange(0, a as int) == c.0
            &&& q[a as int] == quad(Operator::IfFalse, c.1, None, Some(OperandView::Label(l)))
            &&& q.subrange(a + 1, b as int) == qi
            &&& q[b as int] == quad(Operator::Goto, None, None, Some(OperandView::Label(l + 1)))
            &&& q[b + 1] == label_quad(l)
            &&& q.subrange(b + 2, q.len() - 1) == qe
            &&& q[q.len() - 1] == label_quad(l + 1)
        }),
{
    let q = lower_stmt(Statement::IfElse { condition, if_branch, else_branch }, t, l);
    let c = lower_expr(cond_expr(condition), t);
    let t1 = t + expr_temps(cond_expr(condition));
    let qi = lower_block(if_branch, if_branch@.len(), t1, l + 2);
    let qe = lower_block(
        else_branch,
        else_branch@.len(),
        t1 + block_temps(if_branch, if_branch@.len()),
        l + 2 + block_labels(if_branch, if_branch@.len()),
    );
    let a = c.0.len() as int;
    let b = a + 1 + qi.len();
    assert(q.subrange(0, a as int) =~= c.0);
    assert(q.subrange(a + 1, b as int) =~= qi);
    assert(q.subrange(b + 2, q.len() - 1) =~= qe);
}

/// Lowering a counted loop emits its three bounds, one initialising
/// `Assign`, the start label, one `GreaterThan` test and one `IfTrue` exit,
/// the body once, the `Add` and `Assign` of the increment, a `Goto` back and
/// the end label.
pub proof fn lemma_for_shape(
    var: String,
    start: Expression,
    end: Expression,
    step: Expression,
    body: Vec<Statement>,
    t: nat,
    l: nat,
)
    ensures
        ({
            let q = lower_stmt(Statement::For { var, start, end, step, body }, t, l);
            let s1 = lower_expr(start, t);
            let s2 = lower_expr(end, t + expr_temps(start));
            let s3 = lower_expr(step, t + expr_temps(start) + expr_temps(end));
            let t3 = t + expr_temps(start) + expr_temps(end) + expr_temps(step);
            let qb = lower_block(body, body@.len(), t3 + 1, l + 2);
            let t4 = t3 + 1 + block_temps(body, body@.len());
            let v = OperandView::Variable(var@);
            let a = (s1.0.len() + s2.0.len() + s3.0.len()) as int;
            let b = a + 4 + qb.len();
            &&& q.len() == b + 4
            &&& q.subrange(0, a as int) == s1.0 + s2.0 + s3.0
            &&& q[a as int] == quad(Operator::Assign, s1.1, None, Some(v))
            &&& q[a + 1] == label_quad(l)
            &&& q[a + 2] == quad(Operator::GreaterThan, Some(v), s2.1, Some(OperandView::Temp(t3)))
            &&& q[a + 3] == quad(Operator::IfTrue, Some(OperandView::Temp(t3)), None, Some(OperandView::Label(l + 1)))
            &&& q.subrange(a + 4, b as int) == qb
            &&& q[b as int] == quad(Operator::Add, Some(v), s3.1, Some(OperandView::Temp(t4)))
            &&& q[b + 1] == quad(Operator::Assign, Some(OperandView::Temp(t4)), None, Some(v))
            &&& q[b + 2] == quad(Operator::Goto, None, None, Some(OperandView::Label(l)))
            &&& q[b + 3] == label_quad(l + 1)
        }),
{
    let q = lower_stmt(Statement::For { var, start, end, step, body }, t, l);
    let s1 = lower_expr(start, t);
    let s2 = lower_expr(end, t + expr_temps(start));
    let s3 = lower_expr(step, t + expr_temps(start) + expr_temps(end));
    let t3 = t + expr_temps(start) + expr_temps(end) + expr_temps(step);
    let qb = lower_block(body, body@.len(), t3 + 1, l + 2);
    let a = (s1.0.len() + s2.0.len() + s3.0.len()) as int;
    let b = a + 4 + qb.len();
    assert(q.subrange(0, a as int) =~= s1.0 + s2.0 + s3.0);
    assert(q.subrange(a + 4, b as int) =~= qb);
}

proof fn lemma_lowers(e: Expression, t: nat)
    ensures
        lower_expr(e, t).1 is Some <==> lowers(e),
    decreases e,
{
    match e {
        Expression::Var(Variable::Array { index, .. }) => lemma_lowers(*index, t),
        Expression::Literal(inner) => lemma_lowers(*inner, t),
        Expression::Binary { left, right, .. } => {
            lemma_lowers(*left, t);
            lemma_lowers(*right, t + expr_temps(*left));
        },
        Expression::Not(inner) => lemma_lowers(*inner, t),
        _ => {},
    }
}

proof fn lemma_list_temps_prefix(es: Seq<Expression>, i: int)
    requires
        0 <= i <= es.len(),
    ensures
        list_temps(es.subrange(0, i)) <= list_temps(es),
    decreases es.len(),
{
    if i < es.len() {
        lemma_list_temps_prefix(es.drop_last(), i);
        assert(es.drop_last().subrange(0, i) =~= es.subrange(0, i));
    } else {
        assert(es.subrange(0, i) =~= es);
    }
}

proof fn lemma_block_counts_prefix(body: Vec<Statement>, i: nat, n: nat)
    requires
        i <= n <= body@.len(),
    ensures
        block_temps(body, i) <= block_temps(body, n),
        block_labels(body, i) <= block_labels(body, n),
    decreases n,
{
    if i < n {
        lemma_block_counts_prefix(body, i, (n - 1) as nat);
    }
}

fn operator_of(op: BinaryOp) -> (r: Operator)
    ensures
        r == binary_operator(op),
{
    match op {
        BinaryOp::Add => Operator::Add,
        BinaryOp::Subtract => Operator::Subtract,
        BinaryOp::Multiply => Operator::Multiply,
        BinaryOp::Divide => Operator::Divide,
        BinaryOp::LessThan => Operator::LessThan,
        BinaryOp::GreaterThan => Operator::GreaterThan,
        BinaryOp::LessEqual => Operator::LessEqual,
        BinaryOp::GreaterEqual => Operator::GreaterEqual,
        BinaryOp::Equal => Operator::Equal,
        BinaryOp::NotEqual => Operator::NotEqual,
        BinaryOp::And => Operator::And,
        BinaryOp::Or => Operator::Or,
    }
}

/// Emits instructions in order, numbering temporaries and labels from 0.
pub struct QuadrupleGenerator {
    pub quads: Vec<Quadruple>,
    pub temp_count: usize,
    pub label_count: usize,
}

impl QuadrupleGenerator {
    /// The instructions emitted so far.
    pub open spec fn emitted(&self) -> Seq<QuadView> {
        self.quads@.map_values(|q: Quadruple| q@)
    }

    pub fn new() -> (r: QuadrupleGenerator)
        ensures
            r.emitted() == Seq::<QuadView>::empty(),
            r.temp_count == 0,
            r.label_count == 0,
    {
        let r = QuadrupleGenerator { quads: Vec::new(), temp_count: 0, label_count: 0 };
        assert(r.emitted() =~= Seq::<QuadView>::empty());
        r
    }

    /// A temporary never handed out before.
    pub fn new_temp(&mut self) -> (r: Operand)
        requires
            old(self).temp_count < usize::MAX,
        ensures
            r == Operand::Temp(old(self).temp_count),
            final(self).temp_count == old(self).temp_count + 1,
            final(self).label_count == old(self).label_count,
            final(self).quads == old(self).quads,
    {
        let temp = Operand::Temp(self.temp_count);
        self.temp_count = self.temp_count + 1;
        temp
    }

    /// A label never handed out before.
    pub fn new_label(&mut self) -> (r: Operand)
        requires
            old(self).label_count < usize::MAX,
        ensures
            r == Operand::Label(old(self).label_count),
            final(self).label_count == old(self).label_count + 1,
            final(self).temp_count == old(self).temp_count,
            final(self).quads == old(self).quads,
    {
        let label = Operand::Label(self.label_count);
        self.label_count = self.label_count + 1;
        label
    }

    /// Appends one instruction.
    pub fn emit(
        &mut self,
        operator: Operator,
        arg1: Option<Operand>,
        arg2: Option<Operand>,
        result: Option<Operand>,
    )
        ensures
            final(self).emitted() == old(self).emitted().push(
                quad(operator, opt_view(arg1), opt_view(arg2), opt_view(result)),
            ),
            final(self).temp_count == old(self).temp_count,
            final(self).label_count == old(self).label_count,
    {
        let ghost before = self.emitted();
        let q = Quadruple { operator, arg1, arg2, result };
        self.quads.push(q);
        assert(self.emitted() =~= before.push(q@));
    }

    /// Lowers the statements of a program (its declarations emit nothing).
    pub fn generate_from_program(&mut self, program: &Program)
        requires
            old(self).temp_count + block_temps(program.statements, program.statements@.len()) <= usize::MAX,
            old(self).label_count + block_labels(program.statements, program.statements@.len())
                <= usize::MAX,
        ensures
            final(self).emitted() == old(self).emitted() + lower_block(
                program.statements,
                program.statements@.len(),
                old(self).temp_count as nat,
                old(self).label_count as nat,
            ),
            final(self).temp_count == old(self).temp_count + block_temps(
                program.statements,
                program.statements@.len(),
            ),
            final(self).label_count == old(self).label_count + block_labels(
                program.statements,
                program.statements@.len(),
            ),
    {
        let mut i: usize = 0;
        while i < program.declarations.len()
            invariant
                i <= program.declarations@.len(),
                *self == *old(self),
            decreases program.declarations@.len() - i,
        {
            self.generate_from_declaration(&program.declarations[i]);
            i = i + 1;
        }
        self.generate_from_block(&program.statements);
    }

    /// Declarations need no instructions.
    fn generate_from_declaration(&mut self, decl: &Declaration)
        ensures
            *final(self) == *old(self),
    {
    }

    fn generate_from_block(&mut self, body: &Vec<Statement>)
        requires
            old(self).temp_count + block_temps(*body, body@.len()) <= usize::MAX,
            old(self).label_count + block_labels(*body, body@.len()) <= usize::MAX,
        ensures
            final(self).emitted() == old(self).emitted() + lower_block(
                *body,
                body@.len(),
                old(self).temp_count as nat,
                old(self).label_count as nat,
            ),
            final(self).temp_count == old(self).temp_count + block_temps(*body, body@.len()),
            final(self).label_count == old(self).label_count + block_labels(*body, body@.len()),
        decreases body, 1nat, 0nat,
    {
        let ghost e0 = self.emitted();
        let ghost t0 = self.temp_count as nat;
        let ghost l0 = self.label_count as nat;
        let mut i: usize = 0;
        assert(e0 + lower_block(*body, 0, t0, l0) =~= e0);
        while i < body.len()
            invariant
                i <= body@.len(),
                t0 + block_temps(*body, body@.len()) <= usize::MAX,
                l0 + block_labels(*body, body@.len()) <= usize::MAX,
                self.emitted() == e0 + lower_block(*body, i as nat, t0, l0),
                self.temp_count == t0 + block_temps(*body, i as nat),
                self.label_count == l0 + block_labels(*body, i as nat),
            decreases body@.len() - i,
        {
            proof {
                lemma_block_counts_prefix(*body, (i + 1) as nat, body@.len());
            }
            self.generate_from_statement(&body[i]);
            i = i + 1;
            assert(self.emitted() =~= e0 + lower_block(*body, i as nat, t0, l0));
        }
    }

    fn generate_from_statement(&mut self, stmt: &Statement)
        requires
            old(self).temp_count + stmt_temps(*stmt) <= usize::MAX,
            old(self).label_count + stmt_labels(*stmt) <= usize::MAX,
        ensures
            final(self).emitted() == old(self).emitted() + lower_stmt(
                *stmt,
                old(self).temp_count as nat,
                old(self).label_count as nat,
            ),
            final(self).temp_count == old(self).temp_count + stmt_temps(*stmt),
            final(self).label_count == old(self).label_count + stmt_labels(*stmt),
        decreases stmt, 0nat, 1nat,
    {
        let ghost e0 = self.emitted();
        let ghost t0 = self.temp_count as nat;
        let ghost l0 = self.label_count as nat;
        match stmt {
            Statement::Assignment { target, value } => {
                let v = self.generate_from_expression(value);
                let d = match target {
                    Variable::Simple(name) => Some(Operand::Variable(name.clone())),
                    Variable::Array { name, index } => {
                        match self.generate_from_expression(index) {
                            Some(i) => Some(Operand::ArrayElement(name.clone(), Box::new(i))),
                            None => None,
                        }
                    },
                };
                self.emit(Operator::Assign, v, None, d);
                assert(self.emitted() =~= e0 + lower_stmt(*stmt, t0, l0));
            },
            Statement::IfElse { .. } => self.generate_from_if_else(stmt),
            Statement::DoWhile { condition, body } => {
                let start_n = self.label_count;
                let start_label = self.new_label();
                self.emit(Operator::Label, None, None, Some(start_label));
                self.generate_from_block(body);
                let c = self.generate_from_condition(condition);
                self.emit(Operator::IfTrue, c, None, Some(Operand::Label(start_n)));
                assert(self.emitted() =~= e0 + lower_stmt(*stmt, t0, l0));
            },
            Statement::For { .. } => self.generate_from_for(stmt),
            Statement::Input { var } => {
                self.emit(Operator::Input, None, None, Some(Operand::Variable(var.clone())));
                assert(self.emitted() =~= e0 + lower_stmt(*stmt, t0, l0));
            },
            Statement::Output { .. } => self.generate_from_output(stmt),
        }
    }

    fn generate_from_if_else(&mut self, stmt: &Statement)
        requires
            stmt is IfElse,
            old(self).temp_count + stmt_temps(*stmt) <= usize::MAX,
            old(self).label_count + stmt_labels(*stmt) <= usize::MAX,
        ensures
            final(self).emitted() == old(self).emitted() + lower_stmt(
                *stmt,
                old(self).temp_count as nat,
                old(self).label_count as nat,
            ),
            final(self).temp_count == old(self).temp_count + stmt_temps(*stmt),
            final(self).label_count == old(self).label_count + stmt_labels(*stmt),
        decreases stmt, 0nat, 0nat,
    {
        let ghost e0 = self.emitted();
        let ghost t0 = self.temp_count as nat;
        let ghost l0 = self.label_count as nat;
        match stmt {
            Statement::IfElse { condition, if_branch, else_branch } => {
                let c = self.generate_from_condition(condition);
                let else_n = self.label_count;
                let else_label = self.new_label();
                let end_n = self.label_count;
                let end_label = self.new_label();
                self.emit(Operator::IfFalse, c, None, Some(else_label));
                self.generate_from_block(if_branch);
                self.emit(Operator::Goto, None, None, Some(end_label));
                self.emit(Operator::Label, None, None, Some(Operand::Label(else_n)));
                self.generate_from_block(else_branch);
                self.emit(Operator::Label, None, None, Some(Operand::Label(end_n)));
                assert(self.emitted() =~= e0 + lower_stmt(*stmt, t0, l0));
            },
            _ => {},
        }
    }

    fn generate_from_for(&mut self, stmt: &Statement)
        requires
            stmt is For,
            old(self).temp_count + stmt_temps(*stmt) <= usize::MAX,
            old(self).label_count + stmt_labels(*stmt) <= usize::MAX,
        ensures
            final(self).emitted() == old(self).emitted() + lower_stmt(
                *stmt,
                old(self).temp_count as nat,
                old(self).label_count as nat,
            ),
            final(self).temp_count == old(self).temp_count + stmt_temps(*stmt),
            final(self).label_count == old(self).label_count + stmt_labels(*stmt),
        decreases stmt, 0nat, 0nat,
    {
        let ghost e0 = self.emitted();
        let ghost t0 = self.temp_count as nat;
        let ghost l0 = self.label_count as nat;
        match stmt {
            Statement::For { var, start, end, step, body } => {
                let s1 = self.generate_from_expression(start);
                let s2 = self.generate_from_expression(end);
                let s3 = self.generate_from_expression(step);
                let start_n = self.label_count;
                let loop_start = self.new_label();
                let end_n = self.label_count;
                let loop_end = self.new_label();
                self.emit(Operator::Assign, s1, None, Some(Operand::Variable(var.clone())));
                self.emit(Operator::Label, None, None, Some(loop_start));
                let cmp_n = self.temp_count;
                let cmp = self.new_temp();
                self.emit(Operator::GreaterThan, Some(Operand::Variable(var.clone())), s2, Some(cmp));
                self.emit(Operator::IfTrue, Some(Operand::Temp(cmp_n)), None, Some(loop_end));
                self.generate_from_block(body);
                let next_n = self.temp_count;
                let next = self.new_temp();
                self.emit(Operator::Add, Some(Operand::Variable(var.clone())), s3, Some(next));
                self.emit(
                    Operator::Assign,
                    Some(Operand::Temp(next_n)),
                    None,
                    Some(Operand::Variable(var.clone())),
                );
                self.emit(Operator::Goto, None, None, Some(Operand::Label(start_n)));
                self.emit(Operator::Label, None, None, Some(Operand::Label(end_n)));
                assert(self.emitted() =~= e0 + lower_stmt(*stmt, t0, l0));
            },
            _ => {},
        }
    }

    fn generate_from_output(&mut self, stmt: &Statement)
        requires
            stmt is Output,
            old(self).temp_count + stmt_temps(*stmt) <= usize::MAX,
            old(self).label_count + stmt_labels(*stmt) <= usize::MAX,
        ensures
            final(self).emitted() == old(self).emitted() + lower_stmt(
                *stmt,
                old(self).temp_count as nat,
                old(self).label_count as nat,
            ),
            final(self).temp_count == old(self).temp_count + stmt_temps(*stmt),
            final(self).label_count == old(self).label_count + stmt_labels(*stmt),
        decreases stmt, 0nat, 0nat,
    {
        let ghost e0 = self.emitted();
        let ghost t0 = self.temp_count as nat;
        let ghost l0 = self.label_count as nat;
        match stmt {
            Statement::Output { expressions } => {
                let mut i: usize = 0;
                assert(expressions@.subrange(0, 0) =~= Seq::<Expression>::empty());
                assert(e0 + lower_outputs(expressions@.subrange(0, 0), t0) =~= e0);
                while i < expressions.len()
                    invariant
                        i <= expressions@.len(),
                        t0 + list_temps(expressions@) <= usize::MAX,
                        self.emitted() == e0 + lower_outputs(expressions@.subrange(0, i as int), t0),
                        self.temp_count == t0 + list_temps(expressions@.subrange(0, i as int)),
                        self.label_count == l0,
                    decreases expressions@.len() - i,
                {
                    let ghost sub = expressions@.subrange(0, i + 1);
                    assert(sub.drop_last() =~= expressions@.subrange(0, i as int));
                    proof {
                        lemma_list_temps_prefix(expressions@, i + 1);
                    }
                    let r = self.generate_from_expression(&expressions[i]);
                    self.emit(Operator::Output, r, None, None);
                    i = i + 1;
                    assert(self.emitted() =~= e0 + lower_outputs(expressions@.subrange(0, i as int), t0));
                }
                assert(expressions@.subrange(0, i as int) =~= expressions@);
            },
            _ => {},
        }
    }

    fn generate_from_condition(&mut self, condition: &Condition) -> (r: Option<Operand>)
        requires
            old(self).temp_count + expr_temps(cond_expr(*condition)) <= usize::MAX,
        ensures
            final(self).emitted() == old(self).emitted() + lower_expr(
                cond_expr(*condition),
                old(self).temp_count as nat,
            ).0,
            opt_view(r) == lower_expr(cond_expr(*condition), old(self).temp_count as nat).1,
            final(self).temp_count == old(self).temp_count + expr_temps(cond_expr(*condition)),
            final(self).label_count == old(self).label_count,
    {
        match condition {
            Condition::Expr(e) => self.generate_from_expression(e),
        }
    }

    fn generate_from_expression(&mut self, e: &Expression) -> (r: Option<Operand>)
        requires
            old(self).temp_count + expr_temps(*e) <= usize::MAX,
        ensures
            final(self).emitted() == old(self).emitted() + lower_expr(*e, old(self).temp_count as nat).0,
            opt_view(r) == lower_expr(*e, old(self).temp_count as nat).1,
            final(self).temp_count == old(self).temp_count + expr_temps(*e),
            final(self).label_count == old(self).label_count,
        decreases e,
    {
        let ghost e0 = self.emitted();
        let ghost t0 = self.temp_count as nat;
        proof {
            lemma_lowers(*e, t0);
        }
        match e {
            Expression::Var(Variable::Simple(name)) => {
                assert(self.emitted() =~= e0 + lower_expr(*e, t0).0);
                Some(Operand::Variable(name.clone()))
            },
            Expression::Var(Variable::Array { name, index }) => {
                match self.generate_from_expression(index) {
                    Some(i) => Some(Operand::ArrayElement(name.clone(), Box::new(i))),
                    None => None,
                }
            },
            Expression::Integer(n) => {
                assert(self.emitted() =~= e0 + lower_expr(*e, t0).0);
                Some(Operand::Constant(i32_text(*n)))
            },
            Expression::Float(b) => {
                assert(self.emitted() =~= e0 + lower_expr(*e, t0).0);
                Some(Operand::Constant(float_to_text(*b)))
            },
            Expression::String(s) => {
                assert(self.emitted() =~= e0 + lower_expr(*e, t0).0);
                Some(Operand::StringLiteral(s.clone()))
            },
            Expression::Literal(inner) => self.generate_from_expression(inner),
            Expression::Binary { left, op, right } => {
                proof {
                    lemma_lowers(**left, t0);
                    lemma_lowers(**right, t0 + expr_temps(**left));
                }
                let l = self.generate_from_expression(left);
                let r = self.generate_from_expression(right);
                match (l, r) {
                    (Some(a), Some(b)) => {
                        let n = self.temp_count;
                        let result = self.new_temp();
                        self.emit(operator_of(*op), Some(a), Some(b), Some(result));
                        assert(self.emitted() =~= e0 + lower_expr(*e, t0).0);
                        Some(Operand::Temp(n))
                    },
                    _ => {
                        assert(self.emitted() =~= e0 + lower_expr(*e, t0).0);
                        None
                    },
                }
            },
            Expression::Not(inner) => {
                proof {
                    lemma_lowers(**inner, t0);
                }
                match self.generate_from_expression(inner) {
                    Some(a) => {
                        let n = self.temp_count;
                        let result = self.new_temp();
                        self.emit(Operator::Not, Some(a), None, Some(result));
                        assert(self.emitted() =~= e0 + lower_expr(*e, t0).0);
                        Some(Operand::Temp(n))
                    },
                    None => None,
                }
            },
            _ => {
                assert(self.emitted() =~= e0 + lower_expr(*e, t0).0);
                None
            },
        }
    }
}

} // verus!