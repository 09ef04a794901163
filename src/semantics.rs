//! What the semantic analyzer computes, stated as spec functions.
//!
//! The analysis state is the symbol table (as a name-sorted sequence of
//! entries) together with the errors found so far. Each rule below says how
//! one construct of the program changes that state.
use vstd::prelude::*;
use crate::ast::{BinaryOp, Condition, Declaration, Expression, Program, Statement, Variable};
use crate::float::{
    float_difference, float_is_zero, float_of_int, float_product, float_quotient, float_sum,
};
use crate::semantic_analyzer::{ErrorKind, ErrorView};
use crate::symbol_table::{
    DataType, EntityType, EntryView, Value, ValueView, data_type_text, double_declaration_text, element_out_of_bounds_text,
    find_index, insert_pos, lemma_find_index_range, lemma_find_index_update, lemma_insert_pos_range,
    lemma_lookup_after_insert,
    not_an_array_text, table_insert,
    with_element, with_value,
};
use crate::text::int_text;

verus! {

/// Position recorded for `name` in the identifier map; later pairs take
/// precedence, and an unknown name sits at (0, 0).
pub open spec fn position(m: Seq<(String, (usize, usize))>, name: Seq<char>) -> (usize, usize)
    decreases m.len(),
{
    if m.len() == 0 {
        (0, 0)
    } else if m.last().0@ == name {
        m.last().1
    } else {
        position(m.drop_last(), name)
    }
}

/// Integer arithmetic; `None` on overflow, on a zero divisor, and for
/// operators that are not arithmetic. Division truncates toward zero.
pub open spec fn int_arith(op: BinaryOp, a: i32, b: i32) -> Option<i32> {
    match op {
        BinaryOp::Add => a.checked_add(b),
        BinaryOp::Subtract => a.checked_sub(b),
        BinaryOp::Multiply => a.checked_mul(b),
        BinaryOp::Divide => a.checked_div(b),
        _ => None,
    }
}

/// Float arithmetic on bit patterns; `None` for operators that are not arithmetic.
pub open spec fn float_arith(op: BinaryOp, x: u32, y: u32) -> Option<u32> {
    match op {
        BinaryOp::Add => Some(float_sum(x, y)),
        BinaryOp::Subtract => Some(float_difference(x, y)),
        BinaryOp::Multiply => Some(float_product(x, y)),
        BinaryOp::Divide => Some(float_quotient(x, y)),
        _ => None,
    }
}

pub open spec fn float_value(r: Option<u32>) -> Option<ValueView> {
    match r {
        Some(b) => Some(ValueView::Float(b)),
        None => None,
    }
}

/// Two operands of one type: integers stay integers, floats stay floats.
pub open spec fn same_type_arith(op: BinaryOp, l: ValueView, r: ValueView) -> Option<ValueView> {
    match (l, r) {
        (ValueView::Int(a), ValueView::Int(b)) => match int_arith(op, a, b) {
            Some(n) => Some(ValueView::Int(n)),
            None => None,
        },
        (ValueView::Float(x), ValueView::Float(y)) => if op is Divide && float_is_zero(y) {
            None
        } else {
            float_value(float_arith(op, x, y))
        },
        _ => None,
    }
}

/// Arithmetic of the general evaluator: as `same_type_arith`, and an integer
/// meeting a float is first turned into a float.
pub open spec fn mixed_arith(op: BinaryOp, l: ValueView, r: ValueView) -> Option<ValueView> {
    match (l, r) {
        (ValueView::Int(a), ValueView::Float(y)) => if op is Divide && float_is_zero(y) {
            None
        } else {
            float_value(float_arith(op, float_of_int(a), y))
        },
        (ValueView::Float(x), ValueView::Int(b)) => if op is Divide && b == 0 {
            None
        } else {
            float_value(float_arith(op, x, float_of_int(b)))
        },
        _ => same_type_arith(op, l, r),
    }
}

/// Constant evaluation: literals, arithmetic on operands of one type, and
/// declared constants. Anything else is not evaluable.
pub open spec fn const_eval(t: Seq<EntryView>, e: Expression) -> Option<ValueView>
    decreases e,
{
    match e {
        Expression::Integer(n) => Some(ValueView::Int(n)),
        Expression::Float(b) => Some(ValueView::Float(b)),
        Expression::Literal(inner) => const_eval(t, *inner),
        Expression::Binary { left, op, right } => match (const_eval(t, *left), const_eval(t, *right)) {
            (Some(l), Some(r)) => same_type_arith(op, l, r),
            _ => None,
        },
        Expression::Var(Variable::Simple(name)) => {
            let k = find_index(t, name@);
            if k >= 0 && t[k].entity_type == EntityType::Constant {
                Some(t[k].value)
            } else {
                None
            }
        },
        _ => None,
    }
}

/// General evaluation: as constant evaluation, but reading the value that
/// any name currently holds (when it is known), mixing integers with floats,
/// and with logical negation. Strings and array elements are not evaluable.
pub open spec fn eval(t: Seq<EntryView>, e: Expression) -> Option<ValueView>
    decreases e,
{
    match e {
        Expression::Integer(n) => Some(ValueView::Int(n)),
        Expression::Float(b) => Some(ValueView::Float(b)),
        Expression::Literal(inner) => eval(t, *inner),
        Expression::Binary { left, op, right } => match (eval(t, *left), eval(t, *right)) {
            (Some(l), Some(r)) => mixed_arith(op, l, r),
            _ => None,
        },
        Expression::Not(inner) => match eval(t, *inner) {
            Some(ValueView::Int(i)) => Some(ValueView::Int(if i == 0 { 1 } else { 0 })),
            Some(ValueView::Float(b)) => Some(ValueView::Int(if float_is_zero(b) { 1 } else { 0 })),
            _ => None,
        },
        Expression::Var(Variable::Simple(name)) => {
            let k = find_index(t, name@);
            if k >= 0 && !(t[k].value is Undefined) {
                Some(t[k].value)
            } else {
                None
            }
        },
        _ => None,
    }
}

pub open spec fn is_zero_value(v: Option<ValueView>) -> bool {
    match v {
        Some(ValueView::Int(i)) => i == 0,
        Some(ValueView::Float(b)) => float_is_zero(b),
        _ => false,
    }
}

pub open spec fn error_at(kind: ErrorKind, message: Seq<char>, pos: (usize, usize)) -> ErrorView {
    ErrorView { kind, message, line: pos.0, column: pos.1 }
}

pub open spec fn undeclared_text(name: Seq<char>) -> Seq<char> {
    "Undeclared identifier: '"@ + name + "'"@
}

pub open spec fn const_assignment_text(name: Seq<char>) -> Seq<char> {
    "Cannot modify constant: '"@ + name + "'"@
}

pub open spec fn value_kind_text(v: ValueView) -> Seq<char> {
    match v {
        ValueView::Int(_) => "Int"@,
        ValueView::Float(_) => "Float"@,
        ValueView::Array(_) => "Array"@,
        ValueView::Undefined => "Undefined"@,
    }
}

pub open spec fn string_assignment_text(s: Seq<char>, name: Seq<char>, d: DataType) -> Seq<char> {
    "Cannot assign string '"@ + s + "' to variable '"@ + name + "' of type "@ + data_type_text(d)
}

pub open spec fn index_out_of_bounds_text(name: Seq<char>, index: i32, size: i32) -> Seq<char> {
    "Array index out of bounds: '"@ + name + "["@ + int_text(index as int) + "]', size is "@
        + int_text(size as int)
}

pub open spec fn whole_array_text(name: Seq<char>) -> Seq<char> {
    "Cannot assign to array '"@ + name + "' as a whole"@
}

pub open spec fn unknown_type_text(ty: Seq<char>) -> Seq<char> {
    "Unknown type: "@ + ty
}

pub open spec fn type_mismatch_text(name: Seq<char>, d: DataType, v: ValueView) -> Seq<char> {
    "Type mismatch for constant '"@ + name + "': expected "@ + data_type_text(d) + ", got "@
        + value_kind_text(v)
}

pub open spec fn not_evaluable_text(name: Seq<char>) -> Seq<char> {
    "Could not evaluate constant value for '"@ + name + "'"@
}

pub open spec fn division_by_zero_text() -> Seq<char> {
    "Division by zero"@
}

/// Where an error about expression `e` is reported: at the name it reads,
/// else at (0, 0).
pub open spec fn expr_pos(m: Seq<(String, (usize, usize))>, e: Expression) -> (usize, usize) {
    match e {
        Expression::Var(Variable::Simple(name)) => position(m, name@),
        Expression::Var(Variable::Array { name, .. }) => position(m, name@),
        _ => (0, 0),
    }
}

/// The bounds error for `name[index]`, when the index is a constant integer
/// outside `[0, size)`.
pub open spec fn bounds_errors(
    t: Seq<EntryView>,
    m: Seq<(String, (usize, usize))>,
    name: Seq<char>,
    index: Expression,
    size: i32,
) -> Seq<ErrorView> {
    match const_eval(t, index) {
        Some(ValueView::Int(i)) => if i < 0 || i >= size {
            seq![error_at(ErrorKind::ArrayIndexOutOfBounds, index_out_of_bounds_text(name, i, size), position(m, name))]
        } else {
            seq![]
        },
        _ => seq![],
    }
}

/// The errors that checking expression `e` reports, in order.
pub open spec fn check_errors(t: Seq<EntryView>, m: Seq<(String, (usize, usize))>, e: Expression) -> Seq<ErrorView>
    decreases e,
{
    match e {
        Expression::Var(Variable::Simple(name)) => if find_index(t, name@) == -1 {
            seq![error_at(ErrorKind::UndeclaredIdentifier, undeclared_text(name@), position(m, name@))]
        } else {
            seq![]
        },
        Expression::Var(Variable::Array { name, index }) => {
            let k = find_index(t, name@);
            if k == -1 {
                seq![error_at(ErrorKind::UndeclaredIdentifier, undeclared_text(name@), position(m, name@))]
            } else {
                match t[k].entity_type {
                    EntityType::Array { size } => bounds_errors(t, m, name@, *index, size) + check_errors(t, m, *index),
                    _ => seq![error_at(ErrorKind::NotAnArray, not_an_array_text(name@), position(m, name@))],
                }
            }
        },
        Expression::Binary { left, op, right } => check_errors(t, m, *left) + check_errors(t, m, *right) + if op
            is Divide && is_zero_value(eval(t, *right)) {
            seq![error_at(ErrorKind::DivisionByZero, division_by_zero_text(), expr_pos(m, *right))]
        } else {
            seq![]
        },
        Expression::Not(inner) => check_errors(t, m, *inner),
        _ => seq![],
    }
}

pub open spec fn condition_errors(t: Seq<EntryView>, m: Seq<(String, (usize, usize))>, c: Condition) -> Seq<ErrorView> {
    match c {
        Condition::Expr(e) => check_errors(t, m, e),
    }
}

/// The errors of checking each expression in turn.
pub open spec fn list_errors(t: Seq<EntryView>, m: Seq<(String, (usize, usize))>, es: Seq<Expression>) -> Seq<ErrorView>
    decreases es.len(),
{
    if es.len() == 0 {
        seq![]
    } else {
        list_errors(t, m, es.drop_last()) + check_errors(t, m, es.last())
    }
}

/// The state after appending one error.
pub open spec fn report(
    st: (Seq<EntryView>, Seq<ErrorView>),
    kind: ErrorKind,
    message: Seq<char>,
    pos: (usize, usize),
) -> (Seq<EntryView>, Seq<ErrorView>) {
    (st.0, st.1.push(error_at(kind, message, pos)))
}

/// The state after declaring entry `e`, or after reporting that its name is taken.
pub open spec fn declare(st: (Seq<EntryView>, Seq<ErrorView>), e: EntryView) -> (Seq<EntryView>, Seq<ErrorView>) {
    let k = find_index(st.0, e.name);
    if k == -1 {
        (table_insert(st.0, e), st.1)
    } else {
        report(
            st,
            ErrorKind::DoubleDeclaration,
            double_declaration_text(e.name, e.line, e.column, st.0[k].line, st.0[k].column),
            (e.line, e.column),
        )
    }
}

/// The data type that a type name stands for (`Int` unless it is `Float`).
pub open spec fn type_named(n: Seq<char>) -> DataType {
    if n == "Float"@ {
        DataType::Float
    } else {
        DataType::Int
    }
}

pub open spec fn data_type_of(type_spec: Expression) -> DataType {
    match type_spec {
        Expression::Type(n) => type_named(n@),
        Expression::ArrayType { ty_name, .. } => type_named(ty_name@),
        _ => DataType::Int,
    }
}

/// Number of elements of an array declared with `size` (none when negative).
pub open spec fn element_count(size: i32) -> nat {
    if size < 0 {
        0
    } else {
        size as nat
    }
}

/// Declaring one variable name with the given type.
pub open spec fn declare_name(
    st: (Seq<EntryView>, Seq<ErrorView>),
    m: Seq<(String, (usize, usize))>,
    name: Seq<char>,
    type_spec: Expression,
) -> (Seq<EntryView>, Seq<ErrorView>) {
    let pos = position(m, name);
    match type_spec {
        Expression::Type(_) => declare(
            st,
            EntryView {
                name,
                entity_type: EntityType::Variable,
                data_type: data_type_of(type_spec),
                value: ValueView::Undefined,
                line: pos.0,
                column: pos.1,
            },
        ),
        Expression::ArrayType { size, .. } => declare(
            st,
            EntryView {
                name,
                entity_type: EntityType::Array { size },
                data_type: data_type_of(type_spec),
                value: ValueView::Array(Seq::new(element_count(size), |i: int| Value::Undefined)),
                line: pos.0,
                column: pos.1,
            },
        ),
        _ => st,
    }
}

pub open spec fn declare_names(
    st: (Seq<EntryView>, Seq<ErrorView>),
    m: Seq<(String, (usize, usize))>,
    names: Seq<String>,
    type_spec: Expression,
) -> (Seq<EntryView>, Seq<ErrorView>)
    decreases names.len(),
{
    if names.len() == 0 {
        st
    } else {
        declare_name(declare_names(st, m, names.drop_last(), type_spec), m, names.last()@, type_spec)
    }
}

/// Whether a constant's value has exactly the declared type.
pub open spec fn has_type(d: DataType, v: ValueView) -> bool {
    match (d, v) {
        (DataType::Int, ValueView::Int(_)) => true,
        (DataType::Float, ValueView::Float(_)) => true,
        _ => false,
    }
}

pub open spec fn declare_const(
    st: (Seq<EntryView>, Seq<ErrorView>),
    m: Seq<(String, (usize, usize))>,
    name: Seq<char>,
    ty: Seq<char>,
    value: Expression,
) -> (Seq<EntryView>, Seq<ErrorView>) {
    let pos = position(m, name);
    if ty != "Int"@ && ty != "Float"@ {
        report(st, ErrorKind::UnknownType, unknown_type_text(ty), pos)
    } else {
        let d = if ty == "Int"@ { DataType::Int } else { DataType::Float };
        match const_eval(st.0, value) {
            None => report(st, ErrorKind::CouldNotEvaluateConstant, not_evaluable_text(name), pos),
            Some(v) => if has_type(d, v) {
                declare(
                    st,
                    EntryView {
                        name,
                        entity_type: EntityType::Constant,
                        data_type: d,
                        value: v,
                        line: pos.0,
                        column: pos.1,
                    },
                )
            } else {
                report(st, ErrorKind::TypeMismatch, type_mismatch_text(name, d, v), pos)
            },
        }
    }
}

pub open spec fn run_declaration(
    st: (Seq<EntryView>, Seq<ErrorView>),
    m: Seq<(String, (usize, usize))>,
    d: Declaration,
) -> (Seq<EntryView>, Seq<ErrorView>) {
    match d {
        Declaration::VariableDecl { names, type_spec } => declare_names(st, m, names@, type_spec),
        Declaration::ConstDecl { name, ty_name, value } => declare_const(st, m, name@, ty_name@, value),
    }
}

pub open spec fn run_declarations(
    st: (Seq<EntryView>, Seq<ErrorView>),
    m: Seq<(String, (usize, usize))>,
    ds: Seq<Declaration>,
) -> (Seq<EntryView>, Seq<ErrorView>)
    decreases ds.len(),
{
    if ds.len() == 0 {
        st
    } else {
        run_declaration(run_declarations(st, m, ds.drop_last()), m, ds.last())
    }
}

/// What an assignment stores: the evaluated value, or `Undefined`.
pub open spec fn stored(v: Option<ValueView>) -> ValueView {
    match v {
        Some(x) => x,
        None => ValueView::Undefined,
    }
}

/// The element written into an array for a stored value.
pub open spec fn element_of(v: ValueView) -> Value {
    match v {
        ValueView::Int(n) => Value::Int(n),
        ValueView::Float(b) => Value::Float(b),
        _ => Value::Undefined,
    }
}

/// Writing element `i` of the array held at `k`, or reporting the table's
/// refusal (which `entries_ok` rules out for an array entity).
pub open spec fn write_element(
    st: (Seq<EntryView>, Seq<ErrorView>),
    m: Seq<(String, (usize, usize))>,
    name: Seq<char>,
    k: int,
    i: usize,
    v: Value,
) -> (Seq<EntryView>, Seq<ErrorView>) {
    match st.0[k].value {
        ValueView::Array(elems) => if i < elems.len() {
            (with_element(st.0, k, i as int, v), st.1)
        } else {
            report(
                st,
                ErrorKind::UndefinedSymbol,
                element_out_of_bounds_text(i, name, elems.len()),
                position(m, name),
            )
        },
        _ => report(st, ErrorKind::UndefinedSymbol, not_an_array_text(name), position(m, name)),
    }
}

pub open spec fn assign_simple(
    st: (Seq<EntryView>, Seq<ErrorView>),
    m: Seq<(String, (usize, usize))>,
    name: Seq<char>,
    value: Expression,
) -> (Seq<EntryView>, Seq<ErrorView>) {
    let k = find_index(st.0, name);
    let pos = position(m, name);
    if k == -1 {
        report(st, ErrorKind::UndeclaredIdentifier, undeclared_text(name), pos)
    } else if !(st.0[k].entity_type is Variable) {
        refuse_write(st, m, name, st.0[k].entity_type)
    } else if let Expression::String(s) = value {
        report(st, ErrorKind::TypeMismatch, string_assignment_text(s@, name, st.0[k].data_type), pos)
    } else {
        (
            st.0.update(k, with_value(st.0[k], stored(eval(st.0, value)))),
            st.1 + check_errors(st.0, m, value),
        )
    }
}

/// Assignment to `name[index]` before the value expression is checked.
pub open spec fn assign_element(
    st: (Seq<EntryView>, Seq<ErrorView>),
    m: Seq<(String, (usize, usize))>,
    name: Seq<char>,
    k: int,
    size: i32,
    index: Expression,
    value: Expression,
) -> (Seq<EntryView>, Seq<ErrorView>) {
    match const_eval(st.0, index) {
        Some(ValueView::Int(i)) => if i < 0 || i >= size {
            report(
                st,
                ErrorKind::ArrayIndexOutOfBounds,
                index_out_of_bounds_text(name, i, size),
                position(m, name),
            )
        } else {
            write_element(st, m, name, k, i as usize, element_of(stored(eval(st.0, value))))
        },
        _ => (st.0, st.1 + check_errors(st.0, m, index)),
    }
}

pub open spec fn assign_array(
    st: (Seq<EntryView>, Seq<ErrorView>),
    m: Seq<(String, (usize, usize))>,
    name: Seq<char>,
    index: Expression,
    value: Expression,
) -> (Seq<EntryView>, Seq<ErrorView>) {
    let k = find_index(st.0, name);
    if k == -1 {
        report(st, ErrorKind::UndeclaredIdentifier, undeclared_text(name), position(m, name))
    } else {
        let st1 = match st.0[k].entity_type {
            EntityType::Array { size } => assign_element(st, m, name, k, size, index, value),
            _ => report(st, ErrorKind::NotAnArray, not_an_array_text(name), position(m, name)),
        };
        (st1.0, st1.1 + check_errors(st1.0, m, value))
    }
}

pub open spec fn run_assignment(
    st: (Seq<EntryView>, Seq<ErrorView>),
    m: Seq<(String, (usize, usize))>,
    target: Variable,
    value: Expression,
) -> (Seq<EntryView>, Seq<ErrorView>) {
    match target {
        Variable::Simple(name) => assign_simple(st, m, name@, value),
        Variable::Array { name, index } => assign_array(st, m, name@, *index, value),
    }
}

/// The loop variable seeded with the start value, when that is known.
/// Only a variable can be seeded.
pub open spec fn seed_loop_var(
    st: (Seq<EntryView>, Seq<ErrorView>),
    m: Seq<(String, (usize, usize))>,
    var: Seq<char>,
    start: Expression,
) -> (Seq<EntryView>, Seq<ErrorView>) {
    let k = find_index(st.0, var);
    if k == -1 {
        report(st, ErrorKind::UndeclaredIdentifier, undeclared_text(var), position(m, var))
    } else if !(st.0[k].entity_type is Variable) {
        refuse_write(st, m, var, st.0[k].entity_type)
    } else {
        match eval(st.0, start) {
            Some(v) => (st.0.update(k, with_value(st.0[k], v)), st.1),
            None => st,
        }
    }
}

/// The error for writing a whole value into a name that is not a variable:
/// a constant is never changed, and an array keeps its elements.
pub open spec fn refuse_write(
    st: (Seq<EntryView>, Seq<ErrorView>),
    m: Seq<(String, (usize, usize))>,
    name: Seq<char>,
    et: EntityType,
) -> (Seq<EntryView>, Seq<ErrorView>) {
    if et == EntityType::Constant {
        report(st, ErrorKind::ConstAssignment, const_assignment_text(name), position(m, name))
    } else {
        report(st, ErrorKind::TypeMismatch, whole_array_text(name), position(m, name))
    }
}

/// An element of an array value: anything but a nested array.
pub open spec fn plain_element(v: Value) -> bool {
    !(v is Array)
}

pub open spec fn all_plain(es: Seq<Value>) -> bool {
    forall|i: int| 0 <= i < es.len() ==> #[trigger] plain_element(es[i])
}

/// The elements of an array value are plain.
pub open spec fn value_ok(v: ValueView) -> bool {
    match v {
        ValueView::Array(es) => all_plain(es),
        _ => true,
    }
}

/// An entry agrees with its kind: a constant holds an integer or a float,
/// and an array holds exactly as many elements as it was declared with.
pub open spec fn entry_ok(e: EntryView) -> bool {
    &&& value_ok(e.value)
    &&& match e.entity_type {
        EntityType::Constant => e.value is Int || e.value is Float,
        EntityType::Array { size } => (e.value matches ValueView::Array(es) && es.len() == element_count(size)),
        EntityType::Variable => true,
    }
}

pub open spec fn entries_ok(t: Seq<EntryView>) -> bool {
    forall|i: int| 0 <= i < t.len() ==> entry_ok(#[trigger] t[i])
}

pub proof fn lemma_insert_keeps_ok(s: Seq<EntryView>, e: EntryView)
    requires
        entries_ok(s),
        entry_ok(e),
    ensures
        entries_ok(table_insert(s, e)),
{
    lemma_insert_pos_range(s, e.name);
    let p = insert_pos(s, e.name);
    let n = table_insert(s, e);
    assert forall|i: int| 0 <= i < n.len() implies entry_ok(#[trigger] n[i]) by {
        if i < p {
            assert(n[i] == s[i]);
        } else if i > p {
            assert(n[i] == s[i - 1]);
        }
    }
}

pub proof fn lemma_update_keeps_ok(s: Seq<EntryView>, k: int, e: EntryView)
    requires
        entries_ok(s),
        0 <= k < s.len(),
        entry_ok(e),
    ensures
        entries_ok(s.update(k, e)),
{
    assert forall|i: int| 0 <= i < s.len() implies entry_ok(#[trigger] s.update(k, e)[i]) by {
        if i != k {
            assert(s.update(k, e)[i] == s[i]);
        }
    }
}

/// What evaluation yields is a number, or the value of some entry.
pub proof fn lemma_eval_ok(t: Seq<EntryView>, e: Expression)
    requires
        entries_ok(t),
    ensures
        eval(t, e) matches Some(v) ==> value_ok(v),
    decreases e,
{
    match e {
        Expression::Literal(inner) => lemma_eval_ok(t, *inner),
        Expression::Var(Variable::Simple(name)) => {
            lemma_find_index_range(t, name@);
            let k = find_index(t, name@);
            if k >= 0 {
                assert(entry_ok(t[k]));
            }
        },
        _ => {},
    }
}

pub open spec fn run_statement(
    st: (Seq<EntryView>, Seq<ErrorView>),
    m: Seq<(String, (usize, usize))>,
    s: Statement,
) -> (Seq<EntryView>, Seq<ErrorView>)
    decreases s, 0nat,
{
    match s {
        Statement::Assignment { target, value } => run_assignment(st, m, target, value),
        Statement::IfElse { condition, if_branch, else_branch } => {
            let st1 = (st.0, st.1 + condition_errors(st.0, m, condition));
            let st2 = run_block(st1, m, if_branch, if_branch@.len());
            run_block(st2, m, else_branch, else_branch@.len())
        },
        Statement::DoWhile { condition, body } => {
            let st1 = (st.0, st.1 + condition_errors(st.0, m, condition));
            run_block(st1, m, body, body@.len())
        },
        Statement::For { var, start, end, step, body } => {
            let st1 = seed_loop_var(st, m, var@, start);
            let errs = st1.1 + check_errors(st1.0, m, start) + check_errors(st1.0, m, end)
                + check_errors(st1.0, m, step);
            run_block((st1.0, errs), m, body, body@.len())
        },
        Statement::Input { var } => {
            let k = find_index(st.0, var@);
            if k == -1 {
                report(st, ErrorKind::UndeclaredIdentifier, undeclared_text(var@), position(m, var@))
            } else if !(st.0[k].entity_type is Variable) {
                refuse_write(st, m, var@, st.0[k].entity_type)
            } else {
                (st.0.update(k, with_value(st.0[k], ValueView::Undefined)), st.1)
            }
        },
        Statement::Output { expressions } => (st.0, st.1 + list_errors(st.0, m, expressions@)),
    }
}

/// The first `n` statements of `body`, in order.
pub open spec fn run_block(
    st: (Seq<EntryView>, Seq<ErrorView>),
    m: Seq<(String, (usize, usize))>,
    body: Vec<Statement>,
    n: nat,
) -> (Seq<EntryView>, Seq<ErrorView>)
    decreases body, n,
{
    if n == 0 || n > body@.len() {
        st
    } else {
        run_statement(run_block(st, m, body, (n - 1) as nat), m, body[n - 1])
    }
}

/// The whole analysis of a program: its declarations, then its statements.
pub open spec fn run_program(
    st: (Seq<EntryView>, Seq<ErrorView>),
    m: Seq<(String, (usize, usize))>,
    p: Program,
) -> (Seq<EntryView>, Seq<ErrorView>) {
    run_block(run_declarations(st, m, p.declarations@), m, p.statements, p.statements@.len())
}

/// Assigning to a constant reports exactly one error and leaves the table as it was.
pub proof fn lemma_constant_write_protected(
    st: (Seq<EntryView>, Seq<ErrorView>),
    m: Seq<(String, (usize, usize))>,
    name: String,
    value: Expression,
)
    requires
        find_index(st.0, name@) >= 0,
        st.0[find_index(st.0, name@)].entity_type == EntityType::Constant,
    ensures
        run_statement(st, m, Statement::Assignment { target: Variable::Simple(name), value }) == (
            st.0,
            st.1.push(error_at(ErrorKind::ConstAssignment, const_assignment_text(name@), position(m, name@))),
        ),
{
}

/// Constant evaluation does not mix integers with floats.
pub proof fn lemma_const_eval_rejects_mixed(t: Seq<EntryView>, left: Expression, op: BinaryOp, right: Expression)
    requires
        (const_eval(t, left) matches Some(ValueView::Int(_)) && const_eval(t, right) matches Some(ValueView::Float(_)))
            || (const_eval(t, left) matches Some(ValueView::Float(_)) && const_eval(t, right) matches Some(ValueView::Int(_))),
    ensures
        const_eval(t, Expression::Binary { left: Box::new(left), op, right: Box::new(right) }) is None,
{
}

/// The general evaluator turns an integer operand into a float before
/// applying an arithmetic operator to it and a float.
pub proof fn lemma_eval_promotes_int(t: Seq<EntryView>, left: Expression, op: BinaryOp, right: Expression, a: i32, y: u32)
    requires
        eval(t, left) == Some(ValueView::Int(a)),
        eval(t, right) == Some(ValueView::Float(y)),
        op is Add || op is Subtract || op is Multiply || (op is Divide && !float_is_zero(y)),
    ensures
        eval(t, Expression::Binary { left: Box::new(left), op, right: Box::new(right) }) == Some(
            ValueView::Float(float_arith(op, float_of_int(a), y).unwrap()),
        ),
{
}

/// Once `y := 0` has been processed, a later `x := e / y` is reported as a
/// division by zero, positioned at `y`: the zero reaches the divisor through
/// the value recorded for `y`.
pub proof fn lemma_tracked_zero_divisor(
    st: (Seq<EntryView>, Seq<ErrorView>),
    m: Seq<(String, (usize, usize))>,
    x: String,
    y: String,
    e: Expression,
)
    requires
        find_index(st.0, y@) >= 0,
        st.0[find_index(st.0, y@)].entity_type == EntityType::Variable,
        find_index(st.0, x@) >= 0,
        st.0[find_index(st.0, x@)].entity_type == EntityType::Variable,
    ensures
        ({
            let st1 = run_statement(
                st,
                m,
                Statement::Assignment { target: Variable::Simple(y), value: Expression::Integer(0) },
            );
            let divisor = Expression::Var(Variable::Simple(y));
            let st2 = run_statement(
                st1,
                m,
                Statement::Assignment {
                    target: Variable::Simple(x),
                    value: Expression::Binary { left: Box::new(e), op: BinaryOp::Divide, right: Box::new(divisor) },
                },
            );
            st2.1.len() > st1.1.len() && st2.1.last() == error_at(
                ErrorKind::DivisionByZero,
                division_by_zero_text(),
                position(m, y@),
            )
        }),
{
    let ky = find_index(st.0, y@);
    let t1 = st.0.update(ky, with_value(st.0[ky], ValueView::Int(0)));
    lemma_find_index_range(st.0, y@);
    lemma_find_index_range(st.0, x@);
    lemma_find_index_update(st.0, ky, with_value(st.0[ky], ValueView::Int(0)), y@);
    lemma_find_index_update(st.0, ky, with_value(st.0[ky], ValueView::Int(0)), x@);
    let divisor = Expression::Var(Variable::Simple(y));
    let value = Expression::Binary { left: Box::new(e), op: BinaryOp::Divide, right: Box::new(divisor) };
    assert(eval(t1, divisor) == Some(ValueView::Int(0)));
    let c = check_errors(t1, m, value);
    assert(c.last() == error_at(ErrorKind::DivisionByZero, division_by_zero_text(), expr_pos(m, divisor)));
}

/// Declaring a fresh name twice, in two variable declarations, declares it
/// once and reports exactly one double declaration, at the name's position.
pub proof fn lemma_double_declaration(
    st: (Seq<EntryView>, Seq<ErrorView>),
    m: Seq<(String, (usize, usize))>,
    x: String,
    first: Declaration,
    second: Declaration,
)
    requires
        find_index(st.0, x@) == -1,
        first matches Declaration::VariableDecl { names, type_spec } && names@ == seq![x] && (
        type_spec is Type || type_spec is ArrayType),
        second matches Declaration::VariableDecl { names, type_spec } && names@ == seq![x] && (
        type_spec is Type || type_spec is ArrayType),
    ensures
        ({
            let pos = position(m, x@);
            let after_first = run_declarations(st, m, seq![first]);
            let after_both = run_declarations(st, m, seq![first, second]);
            &&& after_both.0 == after_first.0
            &&& find_index(after_both.0, x@) >= 0
            &&& after_both.1 == st.1.push(
                error_at(
                    ErrorKind::DoubleDeclaration,
                    double_declaration_text(x@, pos.0, pos.1, pos.0, pos.1),
                    pos,
                ),
            )
        }),
{
    let pos = position(m, x@);
    assert(seq![first, second].drop_last() =~= seq![first]);
    assert(seq![first].drop_last() =~= Seq::<Declaration>::empty());
    assert(seq![x].drop_last() =~= Seq::<String>::empty());
    let after_first = run_declarations(st, m, seq![first]);
    if let Declaration::VariableDecl { names, type_spec } = first {
        assert(names@.drop_last() =~= Seq::<String>::empty());
        let e = match type_spec {
            Expression::Type(_) => EntryView {
                name: x@,
                entity_type: EntityType::Variable,
                data_type: data_type_of(type_spec),
                value: ValueView::Undefined,
                line: pos.0,
                column: pos.1,
            },
            Expression::ArrayType { size, .. } => EntryView {
                name: x@,
                entity_type: EntityType::Array { size },
                data_type: data_type_of(type_spec),
                value: ValueView::Array(Seq::new(element_count(size), |i: int| Value::Undefined)),
                line: pos.0,
                column: pos.1,
            },
            _ => arbitrary(),
        };
        assert(run_declarations(st, m, Seq::<Declaration>::empty()) == st);
        assert(after_first == run_declaration(st, m, first));
        assert(declare_names(st, m, names@.drop_last(), type_spec) == st);
        assert(names@.last() == x);
        assert(after_first == declare_name(st, m, x@, type_spec));
        assert(after_first == (table_insert(st.0, e), st.1));
        lemma_lookup_after_insert(st.0, e);
        let k = find_index(after_first.0, x@);
        assert(after_first.0[k].line == pos.0 && after_first.0[k].column == pos.1);
        if let Declaration::VariableDecl { names: names2, type_spec: ts2 } = second {
            assert(names2@.drop_last() =~= Seq::<String>::empty());
            assert(declare_names(after_first, m, names2@.drop_last(), ts2) == after_first);
            assert(names2@.last() == x);
            let after_both = run_declarations(st, m, seq![first, second]);
            assert(after_both == run_declaration(after_first, m, second));
            assert(after_both == declare_name(after_first, m, x@, ts2));
        }
    }
}

/// Assigning to a name that was never declared reports exactly one error,
/// at the name, and leaves the table as it was.
pub proof fn lemma_undeclared_assignment(
    st: (Seq<EntryView>, Seq<ErrorView>),
    m: Seq<(String, (usize, usize))>,
    name: String,
    value: Expression,
)
    requires
        find_index(st.0, name@) == -1,
    ensures
        run_statement(st, m, Statement::Assignment { target: Variable::Simple(name), value }) == (
            st.0,
            st.1.push(error_at(ErrorKind::UndeclaredIdentifier, undeclared_text(name@), position(m, name@))),
        ),
{
}

/// Writing `name[i] := v` into an array declared with `size` elements: an
/// index outside `[0, size)` is reported once and changes nothing; an index
/// inside replaces exactly that element, and the array keeps its length.
pub proof fn lemma_array_bounds(
    st: (Seq<EntryView>, Seq<ErrorView>),
    m: Seq<(String, (usize, usize))>,
    name: String,
    size: i32,
    i: i32,
    v: i32,
)
    requires
        find_index(st.0, name@) >= 0,
        st.0[find_index(st.0, name@)].entity_type == (EntityType::Array { size }),
        entries_ok(st.0),
    ensures
        ({
            let k = find_index(st.0, name@);
            let r = run_statement(
                st,
                m,
                Statement::Assignment {
                    target: Variable::Array { name, index: Box::new(Expression::Integer(i)) },
                    value: Expression::Integer(v),
                },
            );
            &&& (i < 0 || i >= size) ==> r == report(
                st,
                ErrorKind::ArrayIndexOutOfBounds,
                index_out_of_bounds_text(name@, i, size),
                position(m, name@),
            )
            &&& (0 <= i < size) ==> {
                &&& r.1 == st.1
                &&& r.0 == with_element(st.0, k, i as int, Value::Int(v))
                &&& r.0[k].value matches ValueView::Array(es) && es.len() == size && es[i as int]
                    == Value::Int(v)
            }
        }),
{
    let k = find_index(st.0, name@);
    lemma_find_index_range(st.0, name@);
    assert(entry_ok(st.0[k]));
    let r = run_statement(
        st,
        m,
        Statement::Assignment {
            target: Variable::Array { name, index: Box::new(Expression::Integer(i)) },
            value: Expression::Integer(v),
        },
    );
    let st1 = assign_element(st, m, name@, k, size, Expression::Integer(i), Expression::Integer(v));
    assert(check_errors(st1.0, m, Expression::Integer(v)) =~= Seq::<ErrorView>::empty());
    assert(st1.1 + Seq::<ErrorView>::empty() =~= st1.1);
}

} // verus!