//! The semantic analyzer: declares symbols, checks and folds expressions,
//! and collects every error it finds, with its position.
use vstd::prelude::*;
use vstd::string::StringExecFns;
use crate::ast::{BinaryOp, Condition, Declaration, Expression, Program, Statement, Variable};
use crate::float::{float_add, float_div, float_from_int, float_mul, float_sub, is_zero_float};
use crate::semantics::{
    bounds_errors, check_errors, condition_errors, const_assignment_text, const_eval, data_type_of,
    declare, declare_name, declare_names, element_count, eval, expr_pos, float_arith,
    index_out_of_bounds_text, int_arith, list_errors, mixed_arith, not_evaluable_text, position,
    report, run_block, run_declaration, run_declarations, run_program, run_statement,
    same_type_arith, seed_loop_var, string_assignment_text, type_mismatch_text, refuse_write,
    whole_array_text, plain_element, value_ok, entry_ok, entries_ok, lemma_insert_keeps_ok,
    lemma_update_keeps_ok, lemma_eval_ok,
    undeclared_text, unknown_type_text,
};
use crate::symbol_table::{
    DataType, EntityType, EntryView, SymbolEntry, SymbolTable, Value, ValueView, find_index,
    lemma_find_index_range, not_an_array_text, with_value,
};
use crate::text::{i32_text, same_name};

verus! {

#[derive(Clone, Copy, Debug, PartialEq, Eq, Structural)]
pub enum ErrorKind {
    DoubleDeclaration,
    UndeclaredIdentifier,
    ConstAssignment,
    NotAnArray,
    ArrayIndexOutOfBounds,
    UnknownType,
    TypeMismatch,
    CouldNotEvaluateConstant,
    DivisionByZero,
    UndefinedSymbol,
}

#[derive(Debug)]
pub struct SemanticError {
    pub kind: ErrorKind,
    pub message: String,
    pub line: usize,
    pub column: usize,
}

pub struct ErrorView {
    pub kind: ErrorKind,
    pub message: Seq<char>,
    pub line: usize,
    pub column: usize,
}

impl View for SemanticError {
    type V = ErrorView;

    open spec fn view(&self) -> ErrorView {
        ErrorView { kind: self.kind, message: self.message@, line: self.line, column: self.column }
    }
}


pub open spec fn error_views(v: Seq<SemanticError>) -> Seq<ErrorView> {
    v.map_values(|e: SemanticError| e@)
}

pub open spec fn value_views(r: Option<Value>) -> Option<ValueView> {
    match r {
        Some(v) => Some(v@),
        None => None,
    }
}

fn int_arithmetic(op: BinaryOp, a: i32, b: i32) -> (r: Option<i32>)
    ensures
        r == int_arith(op, a, b),
{
    match op {
        BinaryOp::Add => a.checked_add(b),
        BinaryOp::Subtract => a.checked_sub(b),
        BinaryOp::Multiply => a.checked_mul(b),
        BinaryOp::Divide => a.checked_div(b),
        _ => None,
    }
}

fn float_arithmetic(op: BinaryOp, x: u32, y: u32) -> (r: Option<Value>)
    ensures
        value_views(r) == crate::semantics::float_value(float_arith(op, x, y)),
{
    match op {
        BinaryOp::Add => Some(Value::Float(float_add(x, y))),
        BinaryOp::Subtract => Some(Value::Float(float_sub(x, y))),
        BinaryOp::Multiply => Some(Value::Float(float_mul(x, y))),
        BinaryOp::Divide => Some(Value::Float(float_div(x, y))),
        _ => None,
    }
}

fn same_type_arithmetic(op: BinaryOp, l: Value, r: Value) -> (res: Option<Value>)
    ensures
        value_views(res) == same_type_arith(op, l@, r@),
{
    match (l, r) {
        (Value::Int(a), Value::Int(b)) => match int_arithmetic(op, a, b) {
            Some(n) => Some(Value::Int(n)),
            None => None,
        },
        (Value::Float(x), Value::Float(y)) => {
            if op == BinaryOp::Divide && is_zero_float(y) {
                None
            } else {
                float_arithmetic(op, x, y)
            }
        },
        _ => None,
    }
}

fn mixed_arithmetic(op: BinaryOp, l: Value, r: Value) -> (res: Option<Value>)
    ensures
        value_views(res) == mixed_arith(op, l@, r@),
{
    match (l, r) {
        (Value::Int(a), Value::Float(y)) => {
            if op == BinaryOp::Divide && is_zero_float(y) {
                None
            } else {
                float_arithmetic(op, float_from_int(a), y)
            }
        },
        (Value::Float(x), Value::Int(b)) => {
            if op == BinaryOp::Divide && b == 0 {
                None
            } else {
                float_arithmetic(op, x, float_from_int(b))
            }
        },
        (l, r) => same_type_arithmetic(op, l, r),
    }
}

/// A copy of an element of an array value.
fn copy_plain(v: &Value) -> (r: Value)
    requires
        plain_element(*v),
    ensures
        r == *v,
{
    match v {
        Value::Int(n) => Value::Int(*n),
        Value::Float(b) => Value::Float(*b),
        _ => Value::Undefined,
    }
}

/// A copy of a value whose array elements are plain.
fn copy_value(v: &Value) -> (r: Value)
    requires
        value_ok(v@),
    ensures
        r@ == v@,
{
    match v {
        Value::Int(n) => Value::Int(*n),
        Value::Float(b) => Value::Float(*b),
        Value::Undefined => Value::Undefined,
        Value::Array(es) => {
            let mut w: Vec<Value> = Vec::new();
            let mut i: usize = 0;
            assert(v@ == ValueView::Array(es@));
            assert(value_ok(ValueView::Array(es@)));
            assert forall|j: int| 0 <= j < es@.len() implies plain_element(#[trigger] es@[j]) by {
                assert(value_ok(ValueView::Array(es@)));
            }
            while i < es.len()
                invariant
                    i <= es@.len(),
                    forall|j: int| 0 <= j < es@.len() ==> plain_element(#[trigger] es@[j]),
                    w@ == es@.subrange(0, i as int),
                decreases es@.len() - i,
            {
                assert(plain_element(es@[i as int]));
                w.push(copy_plain(&es[i]));
                i = i + 1;
                assert(w@ =~= es@.subrange(0, i as int));
            }
            assert(w@ =~= es@);
            Value::Array(w)
        },
    }
}

fn is_zero_value(v: &Option<Value>) -> (r: bool)
    ensures
        r == crate::semantics::is_zero_value(value_views(*v)),
{
    match v {
        Some(Value::Int(i)) => *i == 0,
        Some(Value::Float(b)) => is_zero_float(*b),
        _ => false,
    }
}

/// `a`, `b` and `c` one after the other.
fn join3(a: &str, b: &str, c: &str) -> (r: String)
    ensures
        r@ == a@ + b@ + c@,
{
    let mut r = String::from_str(a);
    r.append(b);
    r.append(c);
    r
}

fn undeclared_message(name: &str) -> (r: String)
    ensures
        r@ == undeclared_text(name@),
{
    join3("Undeclared identifier: '", name, "'")
}

fn const_assignment_message(name: &str) -> (r: String)
    ensures
        r@ == const_assignment_text(name@),
{
    join3("Cannot modify constant: '", name, "'")
}

fn not_an_array_message(name: &str) -> (r: String)
    ensures
        r@ == not_an_array_text(name@),
{
    join3("'", name, "' is not an array")
}

fn whole_array_message(name: &str) -> (r: String)
    ensures
        r@ == whole_array_text(name@),
{
    join3("Cannot assign to array '", name, "' as a whole")
}

fn not_evaluable_message(name: &str) -> (r: String)
    ensures
        r@ == not_evaluable_text(name@),
{
    join3("Could not evaluate constant value for '", name, "'")
}

fn unknown_type_message(ty: &str) -> (r: String)
    ensures
        r@ == unknown_type_text(ty@),
{
    let mut r = String::from_str("Unknown type: ");
    r.append(ty);
    r
}

fn data_type_name(d: DataType) -> (r: &'static str)
    ensures
        r@ == crate::symbol_table::data_type_text(d),
{
    match d {
        DataType::Int => "Int",
        DataType::Float => "Float",
    }
}

fn value_kind_name(v: &Value) -> (r: &'static str)
    ensures
        r@ == crate::semantics::value_kind_text(v@),
{
    match v {
        Value::Int(_) => "Int",
        Value::Float(_) => "Float",
        Value::Array(_) => "Array",
        Value::Undefined => "Undefined",
    }
}

fn index_out_of_bounds_message(name: &str, index: i32, size: i32) -> (r: String)
    ensures
        r@ == index_out_of_bounds_text(name@, index, size),
{
    let mut r = join3("Array index out of bounds: '", name, "[");
    r.append(i32_text(index).as_str());
    r.append("]', size is ");
    r.append(i32_text(size).as_str());
    assert(r@ =~= index_out_of_bounds_text(name@, index, size));
    r
}

fn string_assignment_message(text: &str, name: &str, d: DataType) -> (r: String)
    ensures
        r@ == string_assignment_text(text@, name@, d),
{
    let mut r = join3("Cannot assign string '", text, "' to variable '");
    r.append(name);
    r.append("' of type ");
    r.append(data_type_name(d));
    assert(r@ =~= string_assignment_text(text@, name@, d));
    r
}

fn type_mismatch_message(name: &str, d: DataType, v: &Value) -> (r: String)
    ensures
        r@ == type_mismatch_text(name@, d, v@),
{
    let mut r = join3("Type mismatch for constant '", name, "': expected ");
    r.append(data_type_name(d));
    r.append(", got ");
    r.append(value_kind_name(v));
    assert(r@ =~= type_mismatch_text(name@, d, v@));
    r
}

/// `size` undefined elements (none when `size` is negative).
fn undefined_elements(size: i32) -> (r: Vec<Value>)
    ensures
        r@ == Seq::new(element_count(size), |i: int| Value::Undefined),
{
    let mut r: Vec<Value> = Vec::new();
    if size > 0 {
        let n = size as usize;
        let mut i: usize = 0;
        while i < n
            invariant
                i <= n,
                n == element_count(size),
                r@ == Seq::new(i as nat, |k: int| Value::Undefined),
            decreases n - i,
        {
            r.push(Value::Undefined);
            i = i + 1;
            assert(r@ =~= Seq::new(i as nat, |k: int| Value::Undefined));
        }
    } else {
        assert(r@ =~= Seq::new(element_count(size), |k: int| Value::Undefined));
    }
    r
}

/// The data type named by a declaration's type (`Int` unless it names `Float`).
fn get_data_type(type_spec: &Expression) -> (r: DataType)
    ensures
        r == data_type_of(*type_spec),
{
    match type_spec {
        Expression::Type(n) => if same_name(n.as_str(), "Float") {
            DataType::Float
        } else {
            DataType::Int
        },
        Expression::ArrayType { ty_name, .. } => if same_name(ty_name.as_str(), "Float") {
            DataType::Float
        } else {
            DataType::Int
        },
        _ => DataType::Int,
    }
}

fn copy_errors(v: &Vec<SemanticError>) -> (r: Vec<SemanticError>)
    ensures
        error_views(r@) == error_views(v@),
{
    let mut r: Vec<SemanticError> = Vec::new();
    let mut i: usize = 0;
    while i < v.len()
        invariant
            i <= v@.len(),
            error_views(r@) == error_views(v@.subrange(0, i as int)),
        decreases v@.len() - i,
    {
        let e = &v[i];
        let ghost before = r@;
        let c = SemanticError { kind: e.kind, message: e.message.clone(), line: e.line, column: e.column };
        assert(c@ == v@[i as int]@);
        r.push(c);
        assert(error_views(r@) =~= error_views(before).push(c@));
        assert(v@.subrange(0, i + 1) =~= v@.subrange(0, i as int).push(v@[i as int]));
        i = i + 1;
        assert(error_views(r@) =~= error_views(v@.subrange(0, i as int)));
    }
    assert(v@.subrange(0, i as int) =~= v@);
    r
}

pub struct SemanticAnalyzer {
    pub symbol_table: SymbolTable,
    pub errors: Vec<SemanticError>,
    /// Identifier text to its source position; later pairs take precedence.
    pub source_map: Vec<(String, (usize, usize))>,
}

impl SemanticAnalyzer {
    /// The analysis state: the table and the errors so far.
    pub open spec fn state(&self) -> (Seq<EntryView>, Seq<ErrorView>) {
        (self.symbol_table@, error_views(self.errors@))
    }

    /// The table is sorted by name, and each entry agrees with its kind.
    pub open spec fn wf(&self) -> bool {
        self.symbol_table.wf() && entries_ok(self.symbol_table@)
    }

    pub fn new() -> (r: SemanticAnalyzer)
        ensures
            r.wf(),
            r.symbol_table@ == Seq::<EntryView>::empty(),
            r.errors@.len() == 0,
            r.source_map@.len() == 0,
    {
        SemanticAnalyzer { symbol_table: SymbolTable::new(), errors: Vec::new(), source_map: Vec::new() }
    }

    fn position_of(&self, name: &str) -> (r: (usize, usize))
        ensures
            r == position(self.source_map@, name@),
    {
        let ghost m = self.source_map@;
        let mut i = self.source_map.len();
        assert(m.subrange(0, i as int) =~= m);
        while i > 0
            invariant
                m == self.source_map@,
                i <= m.len(),
                position(m, name@) == position(m.subrange(0, i as int), name@),
            decreases i,
        {
            let ghost sub = m.subrange(0, i as int);
            assert(sub.last() == m[i - 1]);
            assert(sub.drop_last() =~= m.subrange(0, i - 1));
            if same_name(self.source_map[i - 1].0.as_str(), name) {
                return self.source_map[i - 1].1;
            }
            i = i - 1;
        }
        (0, 0)
    }

    fn report(&mut self, kind: ErrorKind, message: String, pos: (usize, usize))
        ensures
            final(self).state() == report(old(self).state(), kind, message@, pos),
            final(self).symbol_table == old(self).symbol_table,
            final(self).source_map == old(self).source_map,
    {
        let ghost before = self.errors@;
        let e = SemanticError { kind, message, line: pos.0, column: pos.1 };
        self.errors.push(e);
        assert(error_views(self.errors@) =~= error_views(before).push(
            crate::semantics::error_at(kind, message@, pos),
        ));
    }

    fn evaluate_constant(&self, e: &Expression) -> (r: Option<Value>)
        requires
            self.wf(),
        ensures
            value_views(r) == const_eval(self.symbol_table@, *e),
        decreases e,
    {
        match e {
            Expression::Integer(n) => Some(Value::Int(*n)),
            Expression::Float(b) => Some(Value::Float(*b)),
            Expression::Literal(inner) => self.evaluate_constant(inner),
            Expression::Binary { left, op, right } => {
                let l = self.evaluate_constant(left);
                let r = self.evaluate_constant(right);
                match (l, r) {
                    (Some(a), Some(b)) => same_type_arithmetic(*op, a, b),
                    _ => None,
                }
            },
            Expression::Var(Variable::Simple(name)) => {
                proof {
                    lemma_find_index_range(self.symbol_table@, name@);
                }
                match self.symbol_table.lookup(name.as_str()) {
                    Some(entry) => {
                        proof {
                            assert(entry_ok(self.symbol_table@[find_index(self.symbol_table@, name@)]));
                        }
                        if entry.entity_type == EntityType::Constant {
                            Some(copy_value(&entry.value))
                        } else {
                            None
                        }
                    },
                    None => None,
                }
            },
            _ => None,
        }
    }

    fn evaluate_expression(&self, e: &Expression) -> (r: Option<Value>)
        requires
            self.wf(),
        ensures
            value_views(r) == eval(self.symbol_table@, *e),
        decreases e,
    {
        match e {
            Expression::Integer(n) => Some(Value::Int(*n)),
            Expression::Float(b) => Some(Value::Float(*b)),
            Expression::Literal(inner) => self.evaluate_expression(inner),
            Expression::Binary { left, op, right } => {
                let l = self.evaluate_expression(left);
                let r = self.evaluate_expression(right);
                match (l, r) {
                    (Some(a), Some(b)) => mixed_arithmetic(*op, a, b),
                    _ => None,
                }
            },
            Expression::Not(inner) => {
                match self.evaluate_expression(inner) {
                    Some(Value::Int(i)) => Some(Value::Int(if i == 0 { 1 } else { 0 })),
                    Some(Value::Float(b)) => Some(Value::Int(if is_zero_float(b) { 1 } else { 0 })),
                    _ => None,
                }
            },
            Expression::Var(Variable::Simple(name)) => {
                proof {
                    lemma_find_index_range(self.symbol_table@, name@);
                }
                match self.symbol_table.lookup(name.as_str()) {
                    Some(entry) => {
                        proof {
                            assert(entry_ok(self.symbol_table@[find_index(self.symbol_table@, name@)]));
                        }
                        if let Value::Undefined = entry.value {
                            None
                        } else {
                            Some(copy_value(&entry.value))
                        }
                    },
                    None => None,
                }
            },
            _ => None,
        }
    }

    /// Where an error about `e` is reported.
    fn expr_position(&self, e: &Expression) -> (r: (usize, usize))
        ensures
            r == expr_pos(self.source_map@, *e),
    {
        match e {
            Expression::Var(Variable::Simple(name)) => self.position_of(name.as_str()),
            Expression::Var(Variable::Array { name, .. }) => self.position_of(name.as_str()),
            _ => (0, 0),
        }
    }
    fn check_expression(&mut self, e: &Expression)
        requires
            old(self).wf(),
        ensures
            final(self).symbol_table == old(self).symbol_table,
            final(self).source_map == old(self).source_map,
            error_views(final(self).errors@) == error_views(old(self).errors@) + check_errors(
                old(self).symbol_table@,
                old(self).source_map@,
                *e,
            ),
        decreases e,
    {
        let ghost before = error_views(self.errors@);
        let ghost t = self.symbol_table@;
        let ghost m = self.source_map@;
        match e {
            Expression::Var(Variable::Simple(name)) => {
                if self.symbol_table.lookup(name.as_str()).is_none() {
                    let pos = self.position_of(name.as_str());
                    self.report(ErrorKind::UndeclaredIdentifier, undeclared_message(name.as_str()), pos);
                    assert(error_views(self.errors@) =~= before + check_errors(t, m, *e));
                } else {
                    assert(error_views(self.errors@) =~= before + check_errors(t, m, *e));
                }
            },
            Expression::Var(Variable::Array { name, index }) => {
                let found = match self.symbol_table.lookup(name.as_str()) {
                    Some(entry) => Some(entry.entity_type),
                    None => None,
                };
                let pos = self.position_of(name.as_str());
                proof {
                    lemma_find_index_range(t, name@);
                }
                match found {
                    Some(EntityType::Array { size }) => {
                        match self.evaluate_constant(index) {
                            Some(Value::Int(idx)) => {
                                if idx < 0 || idx >= size {
                                    self.report(
                                        ErrorKind::ArrayIndexOutOfBounds,
                                        index_out_of_bounds_message(name.as_str(), idx, size),
                                        pos,
                                    );
                                }
                            },
                            _ => {},
                        }
                        assert(error_views(self.errors@) =~= before + bounds_errors(t, m, name@, **index, size));
                        self.check_expression(index);
                        assert(error_views(self.errors@) =~= before + check_errors(t, m, *e));
                    },
                    Some(_) => {
                        self.report(ErrorKind::NotAnArray, not_an_array_message(name.as_str()), pos);
                        assert(error_views(self.errors@) =~= before + check_errors(t, m, *e));
                    },
                    None => {
                        self.report(ErrorKind::UndeclaredIdentifier, undeclared_message(name.as_str()), pos);
                        assert(error_views(self.errors@) =~= before + check_errors(t, m, *e));
                    },
                }
            },
            Expression::Binary { left, op, right } => {
                self.check_expression(left);
                let ghost after_left = error_views(self.errors@);
                self.check_expression(right);
                let ghost after_right = error_views(self.errors@);
                if *op == BinaryOp::Divide {
                    let divisor = self.evaluate_expression(right);
                    if is_zero_value(&divisor) {
                        let pos = self.expr_position(right);
                        self.report(ErrorKind::DivisionByZero, String::from_str("Division by zero"), pos);
                    }
                }
                assert(error_views(self.errors@) =~= before + check_errors(t, m, *e));
            },
            Expression::Not(inner) => {
                self.check_expression(inner);
            },
            _ => {
                assert(error_views(self.errors@) =~= before + check_errors(t, m, *e));
            },
        }
    }
    /// Declares `entry`, or reports that its name is already taken.
    fn declare(&mut self, entry: SymbolEntry)
        requires
            old(self).wf(),
            entry_ok(entry@),
        ensures
            final(self).wf(),
            final(self).source_map == old(self).source_map,
            final(self).state() == declare(old(self).state(), entry@),
    {
        let line = entry.line;
        let column = entry.column;
        let ghost t = self.symbol_table@;
        let ghost ev = entry@;
        match self.symbol_table.insert(entry) {
            Ok(()) => {
                proof {
                    lemma_insert_keeps_ok(t, ev);
                }
            },
            Err(m) => {
                self.report(ErrorKind::DoubleDeclaration, m, (line, column));
            },
        }
    }

    fn declare_name(&mut self, name: &String, type_spec: &Expression)
        requires
            old(self).wf(),
        ensures
            final(self).wf(),
            final(self).source_map == old(self).source_map,
            final(self).state() == declare_name(old(self).state(), old(self).source_map@, name@, *type_spec),
    {
        let pos = self.position_of(name.as_str());
        match type_spec {
            Expression::Type(_) => {
                let entry = SymbolEntry {
                    name: name.clone(),
                    entity_type: EntityType::Variable,
                    data_type: get_data_type(type_spec),
                    value: Value::Undefined,
                    line: pos.0,
                    column: pos.1,
                };
                self.declare(entry);
            },
            Expression::ArrayType { size, .. } => {
                let entry = SymbolEntry {
                    name: name.clone(),
                    entity_type: EntityType::Array { size: *size },
                    data_type: get_data_type(type_spec),
                    value: Value::Array(undefined_elements(*size)),
                    line: pos.0,
                    column: pos.1,
                };
                self.declare(entry);
            },
            _ => {},
        }
    }

    fn process_declaration(&mut self, d: &Declaration)
        requires
            old(self).wf(),
        ensures
            final(self).wf(),
            final(self).source_map == old(self).source_map,
            final(self).state() == run_declaration(old(self).state(), old(self).source_map@, *d),
    {
        let ghost st0 = self.state();
        let ghost m = self.source_map@;
        let ghost sm = self.source_map;
        match d {
            Declaration::VariableDecl { names, type_spec } => {
                let mut i: usize = 0;
                assert(names@.subrange(0, 0) =~= Seq::<String>::empty());
                while i < names.len()
                    invariant
                        self.wf(),
                        self.source_map == sm,
                        sm@ == m,
                        i <= names@.len(),
                        self.state() == declare_names(st0, m, names@.subrange(0, i as int), *type_spec),
                    decreases names@.len() - i,
                {
                    self.declare_name(&names[i], type_spec);
                    assert(names@.subrange(0, i + 1).drop_last() =~= names@.subrange(0, i as int));
                    i = i + 1;
                }
                assert(names@.subrange(0, i as int) =~= names@);
            },
            Declaration::ConstDecl { name, ty_name, value } => {
                let pos = self.position_of(name.as_str());
                let is_int = same_name(ty_name.as_str(), "Int");
                let is_float = same_name(ty_name.as_str(), "Float");
                if !is_int && !is_float {
                    self.report(ErrorKind::UnknownType, unknown_type_message(ty_name.as_str()), pos);
                } else {
                    let d = if is_int { DataType::Int } else { DataType::Float };
                    match self.evaluate_constant(value) {
                        None => {
                            self.report(
                                ErrorKind::CouldNotEvaluateConstant,
                                not_evaluable_message(name.as_str()),
                                pos,
                            );
                        },
                        Some(v) => {
                            let fits = match (d, &v) {
                                (DataType::Int, Value::Int(_)) => true,
                                (DataType::Float, Value::Float(_)) => true,
                                _ => false,
                            };
                            if fits {
                                let entry = SymbolEntry {
                                    name: name.clone(),
                                    entity_type: EntityType::Constant,
                                    data_type: d,
                                    value: v,
                                    line: pos.0,
                                    column: pos.1,
                                };
                                self.declare(entry);
                            } else {
                                let msg = type_mismatch_message(name.as_str(), d, &v);
                                self.report(ErrorKind::TypeMismatch, msg, pos);
                            }
                        },
                    }
                }
            },
        }
    }
    /// Reports a write of a whole value into a constant or an array.
    fn refuse_write(&mut self, name: &str, et: EntityType)
        ensures
            final(self).state() == refuse_write(old(self).state(), old(self).source_map@, name@, et),
            final(self).symbol_table == old(self).symbol_table,
            final(self).source_map == old(self).source_map,
    {
        let pos = self.position_of(name);
        if et == EntityType::Constant {
            self.report(ErrorKind::ConstAssignment, const_assignment_message(name), pos);
        } else {
            self.report(ErrorKind::TypeMismatch, whole_array_message(name), pos);
        }
    }

    fn check_assignment(&mut self, target: &Variable, value: &Expression)
        requires
            old(self).wf(),
        ensures
            final(self).wf(),
            final(self).source_map == old(self).source_map,
            final(self).state() == crate::semantics::run_assignment(
                old(self).state(),
                old(self).source_map@,
                *target,
                *value,
            ),
    {
        let ghost st0 = self.state();
        let ghost m = self.source_map@;
        match target {
            Variable::Simple(name) => {
                let found = match self.symbol_table.lookup(name.as_str()) {
                    Some(entry) => Some((entry.entity_type, entry.data_type)),
                    None => None,
                };
                proof {
                    lemma_find_index_range(st0.0, name@);
                }
                let pos = self.position_of(name.as_str());
                match found {
                    None => {
                        self.report(ErrorKind::UndeclaredIdentifier, undeclared_message(name.as_str()), pos);
                    },
                    Some((et, dt)) => {
                        if et != EntityType::Variable {
                            self.refuse_write(name.as_str(), et);
                        } else if let Expression::String(text) = value {
                            let msg = string_assignment_message(text.as_str(), name.as_str(), dt);
                            self.report(ErrorKind::TypeMismatch, msg, pos);
                        } else {
                            self.check_expression(value);
                            let stored = match self.evaluate_expression(value) {
                                Some(v) => v,
                                None => Value::Undefined,
                            };
                            proof {
                                lemma_eval_ok(st0.0, *value);
                            }
                            let ghost t = self.symbol_table@;
                            let ghost k = find_index(t, name@);
                            let ghost sv = stored@;
                            match self.symbol_table.update_value(name.as_str(), stored) {
                                Ok(()) => {
                                    proof {
                                        lemma_update_keeps_ok(t, k, with_value(t[k], sv));
                                    }
                                },
                                Err(msg) => {
                                    self.report(ErrorKind::UndefinedSymbol, msg, pos);
                                },
                            }
                        }
                    },
                }
            },
            Variable::Array { name, index } => {
                let found = match self.symbol_table.lookup(name.as_str()) {
                    Some(entry) => Some(entry.entity_type),
                    None => None,
                };
                proof {
                    lemma_find_index_range(st0.0, name@);
                }
                let pos = self.position_of(name.as_str());
                match found {
                    None => {
                        self.report(ErrorKind::UndeclaredIdentifier, undeclared_message(name.as_str()), pos);
                    },
                    Some(et) => {
                        match et {
                            EntityType::Array { size } => {
                                match self.evaluate_constant(index) {
                                    Some(Value::Int(idx)) => {
                                        if idx < 0 || idx >= size {
                                            let msg = index_out_of_bounds_message(name.as_str(), idx, size);
                                            self.report(ErrorKind::ArrayIndexOutOfBounds, msg, pos);
                                        } else {
                                            let element = match self.evaluate_expression(value) {
                                                Some(Value::Int(n)) => Value::Int(n),
                                                Some(Value::Float(b)) => Value::Float(b),
                                                _ => Value::Undefined,
                                            };
                                            let ghost t = self.symbol_table@;
                                            let ghost k = find_index(t, name@);
                                            let ghost ev = element;
                                            proof {
                                                assert(entry_ok(t[k]));
                                            }
                                            match self.symbol_table.update_array_element(
                                                name.as_str(),
                                                idx as usize,
                                                element,
                                            ) {
                                                Ok(()) => {
                                                    proof {
                                                        if let ValueView::Array(es) = t[k].value {
                                                            let ne = with_value(
                                                                t[k],
                                                                ValueView::Array(es.update(idx as int, ev)),
                                                            );
                                                            assert(entry_ok(ne));
                                                            lemma_update_keeps_ok(t, k, ne);
                                                        }
                                                    }
                                                },
                                                Err(msg) => {
                                                    self.report(ErrorKind::UndefinedSymbol, msg, pos);
                                                },
                                            }
                                        }
                                    },
                                    _ => {
                                        self.check_expression(index);
                                    },
                                }
                            },
                            _ => {
                                self.report(ErrorKind::NotAnArray, not_an_array_message(name.as_str()), pos);
                            },
                        }
                        self.check_expression(value);
                    },
                }
            },
        }
    }

    fn check_condition(&mut self, c: &Condition)
        requires
            old(self).wf(),
        ensures
            final(self).symbol_table == old(self).symbol_table,
            final(self).source_map == old(self).source_map,
            error_views(final(self).errors@) == error_views(old(self).errors@) + condition_errors(
                old(self).symbol_table@,
                old(self).source_map@,
                *c,
            ),
    {
        match c {
            Condition::Expr(e) => self.check_expression(e),
        }
    }

    /// Processes the statements of `body` in order.
    fn process_block(&mut self, body: &Vec<Statement>)
        requires
            old(self).wf(),
        ensures
            final(self).wf(),
            final(self).source_map == old(self).source_map,
            final(self).state() == run_block(old(self).state(), old(self).source_map@, *body, body@.len()),
        decreases body, 1nat,
    {
        let ghost st0 = self.state();
        let ghost sm = self.source_map;
        let mut i: usize = 0;
        while i < body.len()
            invariant
                self.wf(),
                self.source_map == sm,
                i <= body@.len(),
                self.state() == run_block(st0, sm@, *body, i as nat),
            decreases body@.len() - i,
        {
            self.process_statement(&body[i]);
            i = i + 1;
        }
    }

    fn process_statement(&mut self, stmt: &Statement)
        requires
            old(self).wf(),
        ensures
            final(self).wf(),
            final(self).source_map == old(self).source_map,
            final(self).state() == run_statement(old(self).state(), old(self).source_map@, *stmt),
        decreases stmt, 0nat,
    {
        let ghost st0 = self.state();
        let ghost m = self.source_map@;
        match stmt {
            Statement::Assignment { target, value } => {
                self.check_assignment(target, value);
            },
            Statement::IfElse { condition, if_branch, else_branch } => {
                self.check_condition(condition);
                self.process_block(if_branch);
                self.process_block(else_branch);
            },
            Statement::DoWhile { condition, body } => {
                self.check_condition(condition);
                self.process_block(body);
            },
            Statement::For { var, start, end, step, body } => {
                proof {
                    lemma_find_index_range(st0.0, var@);
                }
                let found = match self.symbol_table.lookup(var.as_str()) {
                    Some(entry) => Some(entry.entity_type),
                    None => None,
                };
                if found.is_none() {
                    let pos = self.position_of(var.as_str());
                    self.report(ErrorKind::UndeclaredIdentifier, undeclared_message(var.as_str()), pos);
                } else if found.unwrap() != EntityType::Variable {
                    self.refuse_write(var.as_str(), found.unwrap());
                } else {
                    match self.evaluate_expression(start) {
                        Some(v) => {
                            proof {
                                lemma_eval_ok(st0.0, *start);
                            }
                            let ghost t = self.symbol_table@;
                            let ghost k = find_index(t, var@);
                            let ghost sv = v@;
                            match self.symbol_table.update_value(var.as_str(), v) {
                                Ok(()) => {
                                    proof {
                                        lemma_update_keeps_ok(t, k, with_value(t[k], sv));
                                    }
                                },
                                Err(msg) => {
                                    let pos = self.position_of(var.as_str());
                                    self.report(ErrorKind::UndefinedSymbol, msg, pos);
                                },
                            }
                        },
                        None => {},
                    }
                }
                assert(self.state() == seed_loop_var(st0, m, var@, *start));
                let ghost st1 = self.state();
                self.check_expression(start);
                self.check_expression(end);
                self.check_expression(step);
                assert(self.state() == (st1.0, st1.1 + check_errors(st1.0, m, *start) + check_errors(
                    st1.0,
                    m,
                    *end,
                ) + check_errors(st1.0, m, *step)));
                self.process_block(body);
            },
            Statement::Input { var } => {
                proof {
                    lemma_find_index_range(st0.0, var@);
                }
                let found = match self.symbol_table.lookup(var.as_str()) {
                    Some(entry) => Some(entry.entity_type),
                    None => None,
                };
                if found.is_none() {
                    let pos = self.position_of(var.as_str());
                    self.report(ErrorKind::UndeclaredIdentifier, undeclared_message(var.as_str()), pos);
                } else if found.unwrap() != EntityType::Variable {
                    self.refuse_write(var.as_str(), found.unwrap());
                } else {
                    let ghost t = self.symbol_table@;
                    let ghost k = find_index(t, var@);
                    match self.symbol_table.update_value(var.as_str(), Value::Undefined) {
                        Ok(()) => {
                            proof {
                                lemma_update_keeps_ok(t, k, with_value(t[k], ValueView::Undefined));
                            }
                        },
                        Err(msg) => {
                            let pos = self.position_of(var.as_str());
                            self.report(ErrorKind::UndefinedSymbol, msg, pos);
                        },
                    }
                }
            },
            Statement::Output { expressions } => {
                let ghost t = self.symbol_table@;
                let ghost before = error_views(self.errors@);
                let mut i: usize = 0;
                assert(expressions@.subrange(0, 0) =~= Seq::<Expression>::empty());
                assert(before + list_errors(t, m, expressions@.subrange(0, 0)) =~= before);
                while i < expressions.len()
                    invariant
                        self.wf(),
                        self.symbol_table@ == t,
                        self.source_map == old(self).source_map,
                        m == self.source_map@,
                        i <= expressions@.len(),
                        error_views(self.errors@) == before + list_errors(
                            t,
                            m,
                            expressions@.subrange(0, i as int),
                        ),
                    decreases expressions@.len() - i,
                {
                    self.check_expression(&expressions[i]);
                    assert(expressions@.subrange(0, i + 1).drop_last() =~= expressions@.subrange(
                        0,
                        i as int,
                    ));
                    i = i + 1;
                    assert(error_views(self.errors@) =~= before + list_errors(
                        t,
                        m,
                        expressions@.subrange(0, i as int),
                    ));
                }
                assert(expressions@.subrange(0, i as int) =~= expressions@);
            },
        }
    }

    /// Analyzes a whole program: declarations first, then statements. The
    /// result is `Ok` exactly when no error has been found.
    pub fn analyze(&mut self, program: &Program, source_map: Vec<(String, (usize, usize))>) -> (r:
        Result<(), Vec<SemanticError>>)
        requires
            old(self).wf(),
        ensures
            final(self).wf(),
            final(self).source_map == source_map,
            final(self).state() == run_program(old(self).state(), source_map@, *program),
            r is Ok <==> final(self).errors@.len() == 0,
            r matches Err(es) ==> error_views(es@) == error_views(final(self).errors@),
    {
        self.source_map = source_map;
        let ghost st0 = self.state();
        let ghost sm = self.source_map;
        let mut i: usize = 0;
        assert(program.declarations@.subrange(0, 0) =~= Seq::<Declaration>::empty());
        while i < program.declarations.len()
            invariant
                self.wf(),
                self.source_map == sm,
                i <= program.declarations@.len(),
                self.state() == run_declarations(st0, sm@, program.declarations@.subrange(0, i as int)),
            decreases program.declarations@.len() - i,
        {
            self.process_declaration(&program.declarations[i]);
            assert(program.declarations@.subrange(0, i + 1).drop_last() =~= program.declarations@.subrange(
                0,
                i as int,
            ));
            i = i + 1;
        }
        assert(program.declarations@.subrange(0, i as int) =~= program.declarations@);
        self.process_block(&program.statements);
        if self.errors.len() == 0 {
            Ok(())
        } else {
            Err(copy_errors(&self.errors))
        }
    }
}

} // verus!