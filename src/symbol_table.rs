//! The flat symbol table: one entry per declared name, kept in name order.
use vstd::prelude::*;
use vstd::string::{StrSliceExecFns, StringExecFns};
use crate::float::{float_text, float_to_text};
use crate::text::{
    int_text, i32_text, usize_text, name_lt, name_less, lemma_name_lt_irreflexive, lemma_name_lt_total,
    lemma_name_lt_transitive, same_name,
};

verus! {

#[derive(Clone, Copy, Debug, PartialEq, Eq, Structural)]
pub enum EntityType {
    Variable,
    Constant,
    Array { size: i32 },
}

#[derive(Clone, Copy, Debug, PartialEq, Eq, Structural)]
pub enum DataType {
    Int,
    Float,
}

/// A compile-time value. `Float` holds the bit pattern of a single-precision float.
#[derive(Debug)]
pub enum Value {
    Int(i32),
    Float(u32),
    Array(Vec<Value>),
    Undefined,
}

/// What a `Value` denotes: an array is seen as the sequence of its elements.
pub enum ValueView {
    Int(i32),
    Float(u32),
    Array(Seq<Value>),
    Undefined,
}

impl View for Value {
    type V = ValueView;

    open spec fn view(&self) -> ValueView {
        match self {
            Value::Int(n) => ValueView::Int(*n),
            Value::Float(b) => ValueView::Float(*b),
            Value::Array(v) => ValueView::Array(v@),
            Value::Undefined => ValueView::Undefined,
        }
    }
}

#[derive(Debug)]
pub struct SymbolEntry {
    pub name: String,
    pub entity_type: EntityType,
    pub data_type: DataType,
    pub value: Value,
    pub line: usize,
    pub column: usize,
}

pub struct EntryView {
    pub name: Seq<char>,
    pub entity_type: EntityType,
    pub data_type: DataType,
    pub value: ValueView,
    pub line: usize,
    pub column: usize,
}

impl View for SymbolEntry {
    type V = EntryView;

    open spec fn view(&self) -> EntryView {
        EntryView {
            name: self.name@,
            entity_type: self.entity_type,
            data_type: self.data_type,
            value: self.value@,
            line: self.line,
            column: self.column,
        }
    }
}

/// Entries in strictly increasing name order (so no name occurs twice).
pub open spec fn sorted_by_name(s: Seq<EntryView>) -> bool {
    forall|i: int, j: int| 0 <= i < j < s.len() ==> name_lt(#[trigger] s[i].name, #[trigger] s[j].name)
}

/// Index of the (last) entry named `name`, or -1 when there is none.
pub open spec fn find_index(s: Seq<EntryView>, name: Seq<char>) -> int
    decreases s.len(),
{
    if s.len() == 0 {
        -1
    } else if s.last().name == name {
        s.len() - 1
    } else {
        find_index(s.drop_last(), name)
    }
}

/// Where an entry named `name` goes so that the order by name is kept.
pub open spec fn insert_pos(s: Seq<EntryView>, name: Seq<char>) -> int
    decreases s.len(),
{
    if s.len() == 0 {
        0
    } else if name_lt(s.last().name, name) {
        s.len() as int
    } else {
        insert_pos(s.drop_last(), name)
    }
}

/// The table after declaring `e`, when its name is new.
pub open spec fn table_insert(s: Seq<EntryView>, e: EntryView) -> Seq<EntryView> {
    s.insert(insert_pos(s, e.name), e)
}

/// The entry with its value replaced.
pub open spec fn with_value(e: EntryView, v: ValueView) -> EntryView {
    EntryView { value: v, ..e }
}

pub open spec fn double_declaration_text(
    name: Seq<char>,
    line: usize,
    column: usize,
    first_line: usize,
    first_column: usize,
) -> Seq<char> {
    "Semantic Error: Double declaration of '"@ + name + "' at line "@ + int_text(line as int)
        + ", column "@ + int_text(column as int) + " (first declared at line "@ + int_text(
        first_line as int,
    ) + ", column "@ + int_text(first_column as int) + ")"@
}

pub open spec fn update_undefined_text(name: Seq<char>) -> Seq<char> {
    "Cannot update undefined variable '"@ + name + "'"@
}

pub open spec fn undeclared_array_text(name: Seq<char>) -> Seq<char> {
    "Undeclared array '"@ + name + "'"@
}

pub open spec fn not_an_array_text(name: Seq<char>) -> Seq<char> {
    "'"@ + name + "' is not an array"@
}

pub open spec fn element_out_of_bounds_text(index: usize, name: Seq<char>, size: nat) -> Seq<char> {
    "Index "@ + int_text(index as int) + " out of bounds for array '"@ + name + "' of size "@
        + int_text(size as int)
}

/// The table after replacing element `index` of the array held at `k`.
pub open spec fn with_element(s: Seq<EntryView>, k: int, index: int, v: Value) -> Seq<EntryView> {
    match s[k].value {
        ValueView::Array(elems) => s.update(k, with_value(s[k], ValueView::Array(elems.update(index, v)))),
        _ => s,
    }
}

/// `s` followed by spaces up to `w` characters.
pub open spec fn pad(s: Seq<char>, w: nat) -> Seq<char> {
    if s.len() >= w {
        s
    } else {
        s + Seq::new((w - s.len()) as nat, |i: int| ' ')
    }
}

/// One line of the dump: six cells, each left-aligned in its column.
pub open spec fn row_text(
    a: Seq<char>,
    b: Seq<char>,
    c: Seq<char>,
    d: Seq<char>,
    e: Seq<char>,
    f: Seq<char>,
) -> Seq<char> {
    "| "@ + pad(a, 18) + " | "@ + pad(b, 13) + " | "@ + pad(c, 8) + " | "@ + pad(d, 13) + " | "@
        + pad(e, 6) + " | "@ + pad(f, 6) + " |\n"@
}

pub open spec fn border_text() -> Seq<char> {
    "+--------------------+---------------+----------+---------------+--------+--------+\n"@
}

pub open spec fn entity_text(t: EntityType) -> Seq<char> {
    match t {
        EntityType::Variable => "Variable"@,
        EntityType::Constant => "Constant"@,
        EntityType::Array { size } => "Array["@ + int_text(size as int) + "]"@,
    }
}

pub open spec fn data_type_text(d: DataType) -> Seq<char> {
    match d {
        DataType::Int => "Int"@,
        DataType::Float => "Float"@,
    }
}

pub open spec fn element_text(v: Value) -> Seq<char> {
    match v {
        Value::Int(n) => int_text(n as int),
        Value::Float(b) => float_text(b),
        Value::Array(_) => "[]"@,
        Value::Undefined => "-"@,
    }
}

/// The elements of an array, separated by `, `.
pub open spec fn elements_text(es: Seq<Value>) -> Seq<char>
    decreases es.len(),
{
    if es.len() == 0 {
        seq![]
    } else if es.len() == 1 {
        element_text(es[0])
    } else {
        elements_text(es.drop_last()) + ", "@ + element_text(es.last())
    }
}

/// How a value is shown; `-` when it is not known.
pub open spec fn value_text(v: ValueView) -> Seq<char> {
    match v {
        ValueView::Int(n) => int_text(n as int),
        ValueView::Float(b) => float_text(b),
        ValueView::Array(es) => "["@ + elements_text(es) + "]"@,
        ValueView::Undefined => "-"@,
    }
}

pub open spec fn entry_row(e: EntryView) -> Seq<char> {
    row_text(
        e.name,
        entity_text(e.entity_type),
        data_type_text(e.data_type),
        value_text(e.value),
        int_text(e.line as int),
        int_text(e.column as int),
    )
}

pub open spec fn rows_text(s: Seq<EntryView>) -> Seq<char>
    decreases s.len(),
{
    if s.len() == 0 {
        seq![]
    } else {
        rows_text(s.drop_last()) + entry_row(s.last())
    }
}

/// The whole dump: a header, then one row per entry in name order.
pub open spec fn dump_text(s: Seq<EntryView>) -> Seq<char> {
    border_text() + row_text("Name"@, "Entity Type"@, "Type"@, "Value"@, "Line"@, "Column"@)
        + border_text() + rows_text(s) + border_text()
}

/// Appends `s`, then spaces up to `w` characters.
fn append_cell(r: &mut String, s: &str, w: usize)
    ensures
        final(r)@ == old(r)@ + pad(s@, w as nat),
{
    let len = s.unicode_len();
    r.append(s);
    let ghost start = r@;
    proof {
        reveal_strlit(" ");
    }
    let mut j = len;
    while j < w
        invariant
            len == s@.len(),
            len <= j <= w || (j == len && len >= w),
            r@ == start + Seq::new((j - len) as nat, |i: int| ' '),
            start == old(r)@ + s@,
        decreases w - j,
    {
        let ghost before = r@;
        r.append(" ");
        proof {
            reveal_strlit(" ");
            assert(" "@ =~= seq![' ']);
        }
        j = j + 1;
        assert(r@ =~= start + Seq::new((j - len) as nat, |i: int| ' '));
    }
    assert(r@ =~= old(r)@ + pad(s@, w as nat));
}

/// One line of the dump, with each cell padded to its column width.
fn table_row(a: &str, b: &str, c: &str, d: &str, e: &str, f: &str) -> (r: String)
    ensures
        r@ == row_text(a@, b@, c@, d@, e@, f@),
{
    let mut r = String::from_str("| ");
    append_cell(&mut r, a, 18);
    r.append(" | ");
    append_cell(&mut r, b, 13);
    r.append(" | ");
    append_cell(&mut r, c, 8);
    r.append(" | ");
    append_cell(&mut r, d, 13);
    r.append(" | ");
    append_cell(&mut r, e, 6);
    r.append(" | ");
    append_cell(&mut r, f, 6);
    r.append(" |\n");
    assert(r@ =~= row_text(a@, b@, c@, d@, e@, f@));
    r
}

fn entity_string(t: EntityType) -> (r: String)
    ensures
        r@ == entity_text(t),
{
    match t {
        EntityType::Variable => String::from_str("Variable"),
        EntityType::Constant => String::from_str("Constant"),
        EntityType::Array { size } => {
            let mut r = String::from_str("Array[");
            r.append(i32_text(size).as_str());
            r.append("]");
            r
        },
    }
}

fn element_string(v: &Value) -> (r: String)
    ensures
        r@ == element_text(*v),
{
    match v {
        Value::Int(n) => i32_text(*n),
        Value::Float(b) => float_to_text(*b),
        Value::Array(_) => String::from_str("[]"),
        Value::Undefined => String::from_str("-"),
    }
}

fn value_string(v: &Value) -> (r: String)
    ensures
        r@ == value_text(v@),
{
    match v {
        Value::Int(n) => i32_text(*n),
        Value::Float(b) => float_to_text(*b),
        Value::Array(es) => {
            let mut r = String::from_str("[");
            let mut i: usize = 0;
            assert(es@.subrange(0, 0) =~= Seq::<Value>::empty());
            while i < es.len()
                invariant
                    i <= es@.len(),
                    r@ == "["@ + elements_text(es@.subrange(0, i as int)),
                decreases es@.len() - i,
            {
                let ghost before = r@;
                assert(es@.subrange(0, i + 1).drop_last() =~= es@.subrange(0, i as int));
                if i > 0 {
                    r.append(", ");
                }
                r.append(element_string(&es[i]).as_str());
                i = i + 1;
                proof {
                    let sub = es@.subrange(0, i as int);
                    if i == 1 {
                        assert(sub.len() == 1);
                        assert(elements_text(es@.subrange(0, 0)) =~= Seq::<char>::empty());
                    }
                    assert(r@ =~= "["@ + elements_text(sub));
                }
            }
            assert(es@.subrange(0, i as int) =~= es@);
            r.append("]");
            r
        },
        Value::Undefined => String::from_str("-"),
    }
}

pub proof fn lemma_find_index_range(s: Seq<EntryView>, name: Seq<char>)
    ensures
        -1 <= find_index(s, name) < s.len(),
        find_index(s, name) >= 0 ==> s[find_index(s, name)].name == name,
        find_index(s, name) == -1 ==> forall|k: int| 0 <= k < s.len() ==> s[k].name != name,
    decreases s.len(),
{
    if s.len() > 0 {
        lemma_find_index_range(s.drop_last(), name);
        if s.last().name != name && find_index(s, name) == -1 {
            assert forall|k: int| 0 <= k < s.len() implies s[k].name != name by {
                if k < s.len() - 1 {
                    assert(s.drop_last()[k] == s[k]);
                }
            }
        }
    }
}

/// Replacing an entry by one of the same name moves no name.
pub proof fn lemma_find_index_update(s: Seq<EntryView>, k: int, e: EntryView, name: Seq<char>)
    requires
        0 <= k < s.len(),
        e.name == s[k].name,
    ensures
        find_index(s.update(k, e), name) == find_index(s, name),
    decreases s.len(),
{
    if k < s.len() - 1 {
        assert(s.update(k, e).drop_last() =~= s.drop_last().update(k, e));
        lemma_find_index_update(s.drop_last(), k, e, name);
    } else {
        assert(s.update(k, e).drop_last() =~= s.drop_last());
    }
}

pub proof fn lemma_insert_pos_range(s: Seq<EntryView>, name: Seq<char>)
    ensures
        0 <= insert_pos(s, name) <= s.len(),
    decreases s.len(),
{
    if s.len() > 0 {
        lemma_insert_pos_range(s.drop_last(), name);
    }
}

/// Looking a name up right after declaring it finds the declared entry,
/// equal in every field.
pub proof fn lemma_lookup_after_insert(s: Seq<EntryView>, e: EntryView)
    requires
        find_index(s, e.name) == -1,
    ensures
        find_index(table_insert(s, e), e.name) >= 0,
        table_insert(s, e)[find_index(table_insert(s, e), e.name)] == e,
{
    let p = insert_pos(s, e.name);
    lemma_insert_pos_range(s, e.name);
    lemma_find_index_range(s, e.name);
    let n = table_insert(s, e);
    assert(n[p] == e);
    assert forall|j: int| 0 <= j < n.len() && j != p implies #[trigger] n[j].name != e.name by {
        if j < p {
            assert(n[j] == s[j]);
        } else {
            assert(n[j] == s[j - 1]);
        }
    }
    lemma_find_index_range(n, e.name);
}


pub struct SymbolTable {
    /// The entries, in strictly increasing name order.
    pub table: Vec<SymbolEntry>,
}

impl View for SymbolTable {
    type V = Seq<EntryView>;

    open spec fn view(&self) -> Seq<EntryView> {
        self.table@.map_values(|e: SymbolEntry| e@)
    }
}

impl SymbolTable {
    pub open spec fn wf(&self) -> bool {
        sorted_by_name(self@)
    }

    pub fn new() -> (r: SymbolTable)
        ensures
            r@ == Seq::<EntryView>::empty(),
            r.wf(),
    {
        let r = SymbolTable { table: Vec::new() };
        assert(r@ =~= Seq::<EntryView>::empty());
        r
    }

    /// Index of the entry named `name`, if any.
    fn find(&self, name: &str) -> (r: Option<usize>)
        ensures
            r is None ==> find_index(self@, name@) == -1,
            r matches Some(k) ==> k == find_index(self@, name@) && k < self@.len(),
    {
        let mut i = self.table.len();
        assert(self@.subrange(0, i as int) =~= self@);
        while i > 0
            invariant
                i <= self.table@.len(),
                find_index(self@, name@) == find_index(self@.subrange(0, i as int), name@),
            decreases i,
        {
            let sub = Ghost(self@.subrange(0, i as int));
            assert(sub@.last() == self@[i - 1]);
            if same_name(self.table[i - 1].name.as_str(), name) {
                return Some(i - 1);
            }
            assert(sub@.drop_last() =~= self@.subrange(0, i - 1));
            i = i - 1;
        }
        None
    }

    /// Declares a new name. Fails, leaving the table as it was, when the name
    /// is already declared.
    pub fn insert(&mut self, entry: SymbolEntry) -> (r: Result<(), String>)
        requires
            old(self).wf(),
        ensures
            final(self).wf(),
            find_index(old(self)@, entry.name@) == -1 ==> r is Ok && final(self)@ == table_insert(
                old(self)@,
                entry@,
            ),
            find_index(old(self)@, entry.name@) != -1 ==> final(self)@ == old(self)@,
            find_index(old(self)@, entry.name@) != -1 ==> (r matches Err(m) && m@
                == double_declaration_text(
                entry.name@,
                entry.line,
                entry.column,
                old(self)@[find_index(old(self)@, entry.name@)].line,
                old(self)@[find_index(old(self)@, entry.name@)].column,
            )),
    {
        let ghost s = self@;
        let ghost name = entry.name@;
        let mut i = self.table.len();
        assert(s.subrange(0, i as int) =~= s);
        while i > 0
            invariant
                s == self@,
                sorted_by_name(s),
                name == entry.name@,
                i <= s.len(),
                find_index(s, name) == find_index(s.subrange(0, i as int), name),
                insert_pos(s, name) == insert_pos(s.subrange(0, i as int), name),
                forall|k: int| i <= k < s.len() ==> name_lt(name, #[trigger] s[k].name),
            ensures
                i <= s.len(),
                find_index(s, name) == find_index(s.subrange(0, i as int), name),
                insert_pos(s, name) == insert_pos(s.subrange(0, i as int), name),
                forall|k: int| i <= k < s.len() ==> name_lt(name, #[trigger] s[k].name),
                i > 0 ==> name_lt(s[i - 1].name, name),
            decreases i,
        {
            let ghost sub = s.subrange(0, i as int);
            assert(sub.last() == s[i - 1]);
            assert(sub.drop_last() =~= s.subrange(0, i - 1));
            let e = &self.table[i - 1];
            if same_name(e.name.as_str(), entry.name.as_str()) {
                let m = Self::double_declaration(&entry, e.line, e.column);
                return Err(m);
            }
            if name_less(e.name.as_str(), entry.name.as_str()) {
                break;
            }
            proof {
                lemma_name_lt_total(s[i - 1].name, name);
            }
            i = i - 1;
        }
        proof {
            let sub = s.subrange(0, i as int);
            if i > 0 {
                assert(name_lt(s[i - 1].name, name));
                assert forall|k: int| 0 <= k < i implies #[trigger] s[k].name != name by {
                    if k < i - 1 {
                        assert(name_lt(s[k].name, s[i - 1].name));
                        lemma_name_lt_transitive(s[k].name, s[i - 1].name, name);
                    }
                    lemma_name_lt_irreflexive(name);
                }
                lemma_find_index_range(sub, name);
                if find_index(sub, name) != -1 {
                    assert(sub[find_index(sub, name)] == s[find_index(sub, name)]);
                }
                assert(sub.last() == s[i - 1]);
            }
        }
        let ghost ev = entry@;
        self.table.insert(i, entry);
        proof {
            let n = self@;
            assert(n =~= s.insert(i as int, ev));
            assert forall|a: int, b: int| 0 <= a < b < n.len() implies name_lt(
                #[trigger] n[a].name,
                #[trigger] n[b].name,
            ) by {
                if b < i {
                } else if a < i && b == i {
                    if a < i - 1 {
                        lemma_name_lt_transitive(s[a].name, s[i - 1].name, name);
                    }
                } else if a < i && b > i {
                    assert(n[b] == s[b - 1]);
                    if a == i - 1 {
                        lemma_name_lt_transitive(s[a].name, name, s[b - 1].name);
                    } else {
                        assert(name_lt(s[a].name, s[i - 1].name));
                        lemma_name_lt_transitive(s[a].name, s[i - 1].name, name);
                        lemma_name_lt_transitive(s[a].name, name, s[b - 1].name);
                    }
                } else if a == i {
                    assert(n[b] == s[b - 1]);
                } else {
                    assert(n[a] == s[a - 1]);
                    assert(n[b] == s[b - 1]);
                }
            }
        }
        Ok(())
    }

    /// The entry named `name`, if any.
    pub fn lookup(&self, name: &str) -> (r: Option<&SymbolEntry>)
        ensures
            find_index(self@, name@) == -1 ==> r is None,
            find_index(self@, name@) != -1 ==> (r matches Some(e) && e@ == self@[find_index(
                self@,
                name@,
            )]),
    {
        match self.find(name) {
            Some(k) => Some(&self.table[k]),
            None => None,
        }
    }

    /// Replaces the value held by `name`.
    pub fn update_value(&mut self, name: &str, value: Value) -> (r: Result<(), String>)
        requires
            old(self).wf(),
        ensures
            final(self).wf(),
            find_index(old(self)@, name@) == -1 ==> final(self)@ == old(self)@ && (r matches Err(m)
                && m@ == update_undefined_text(name@)),
            find_index(old(self)@, name@) != -1 ==> r is Ok && final(self)@ == old(self)@.update(
                find_index(old(self)@, name@),
                with_value(old(self)@[find_index(old(self)@, name@)], value@),
            ),
    {
        match self.find(name) {
            None => {
                let mut m = String::from_str("Cannot update undefined variable '");
                m.append(name);
                m.append("'");
                assert(m@ =~= update_undefined_text(name@));
                Err(m)
            },
            Some(k) => {
                let ghost s = self@;
                self.table[k].value = value;
                proof {
                    assert(self@ =~= s.update(k as int, with_value(s[k as int], value@)));
                    assert(sorted_by_name(self@)) by {
                        assert forall|a: int, b: int| 0 <= a < b < self@.len() implies name_lt(
                            #[trigger] self@[a].name,
                            #[trigger] self@[b].name,
                        ) by {
                            assert(self@[a].name == s[a].name);
                            assert(self@[b].name == s[b].name);
                        }
                    }
                }
                Ok(())
            },
        }
    }

    /// Replaces element `index` of the array held by `name`, keeping its length.
    pub fn update_array_element(&mut self, name: &str, index: usize, value: Value) -> (r: Result<
        (),
        String,
    >)
        requires
            old(self).wf(),
        ensures
            final(self).wf(),
            find_index(old(self)@, name@) == -1 ==> final(self)@ == old(self)@ && (r matches Err(m)
                && m@ == undeclared_array_text(name@)),
            find_index(old(self)@, name@) != -1 ==> ({
                let k = find_index(old(self)@, name@);
                match old(self)@[k].value {
                    ValueView::Array(elems) => if index < elems.len() {
                        r is Ok && final(self)@ == with_element(old(self)@, k, index as int, value)
                    } else {
                        final(self)@ == old(self)@ && (r matches Err(m) && m@
                            == element_out_of_bounds_text(index, name@, elems.len()))
                    },
                    _ => final(self)@ == old(self)@ && (r matches Err(m) && m@ == not_an_array_text(
                        name@,
                    )),
                }
            }),
    {
        match self.find(name) {
            None => {
                let mut m = String::from_str("Undeclared array '");
                m.append(name);
                m.append("'");
                assert(m@ =~= undeclared_array_text(name@));
                Err(m)
            },
            Some(k) => {
                let ghost s = self@;
                let mut held = Value::Undefined;
                core::mem::swap(&mut self.table[k].value, &mut held);
                match held {
                    Value::Array(mut elements) => {
                        if index < elements.len() {
                            elements.set(index, value);
                            self.table[k].value = Value::Array(elements);
                            proof {
                                assert(self@ =~= with_element(s, k as int, index as int, value));
                                assert(sorted_by_name(self@)) by {
                                    assert forall|a: int, b: int|
                                        0 <= a < b < self@.len() implies name_lt(
                                        #[trigger] self@[a].name,
                                        #[trigger] self@[b].name,
                                    ) by {
                                        assert(self@[a].name == s[a].name);
                                        assert(self@[b].name == s[b].name);
                                    }
                                }
                            }
                            Ok(())
                        } else {
                            let len = elements.len();
                            self.table[k].value = Value::Array(elements);
                            assert(self@ =~= s);
                            let mut m = String::from_str("Index ");
                            m.append(usize_text(index).as_str());
                            m.append(" out of bounds for array '");
                            m.append(name);
                            m.append("' of size ");
                            m.append(usize_text(len).as_str());
                            assert(m@ =~= element_out_of_bounds_text(index, name@, len as nat));
                            Err(m)
                        }
                    },
                    other => {
                        self.table[k].value = other;
                        assert(self@ =~= s);
                        let mut m = String::from_str("'");
                        m.append(name);
                        m.append("' is not an array");
                        assert(m@ =~= not_an_array_text(name@));
                        Err(m)
                    },
                }
            },
        }
    }

    /// A table of all entries in name order, for diagnostics.
    pub fn format_table(&self) -> (r: String)
        ensures
            r@ == dump_text(self@),
    {
        let mut r = String::from_str("+--------------------+---------------+----------+---------------+--------+--------+\n");
        r.append(table_row("Name", "Entity Type", "Type", "Value", "Line", "Column").as_str());
        r.append("+--------------------+---------------+----------+---------------+--------+--------+\n");
        let ghost head = r@;
        let mut i: usize = 0;
        assert(self@.subrange(0, 0) =~= Seq::<EntryView>::empty());
        assert(head + rows_text(self@.subrange(0, 0)) =~= head);
        while i < self.table.len()
            invariant
                i <= self@.len(),
                r@ == head + rows_text(self@.subrange(0, i as int)),
            decreases self@.len() - i,
        {
            let e = &self.table[i];
            let entity = entity_string(e.entity_type);
            let dt = match e.data_type {
                DataType::Int => "Int",
                DataType::Float => "Float",
            };
            let value = value_string(&e.value);
            let line = usize_text(e.line);
            let column = usize_text(e.column);
            let row = table_row(
                e.name.as_str(),
                entity.as_str(),
                dt,
                value.as_str(),
                line.as_str(),
                column.as_str(),
            );
            r.append(row.as_str());
            proof {
                assert(self@[i as int] == e@);
                assert(self@.subrange(0, i + 1).drop_last() =~= self@.subrange(0, i as int));
                assert(self@.subrange(0, i + 1).last() == e@);
            }
            i = i + 1;
            assert(r@ =~= head + rows_text(self@.subrange(0, i as int)));
        }
        assert(self@.subrange(0, i as int) =~= self@);
        r.append("+--------------------+---------------+----------+---------------+--------+--------+\n");
        assert(r@ =~= dump_text(self@));
        r
    }

    fn double_declaration(entry: &SymbolEntry, first_line: usize, first_column: usize) -> (r: String)
        ensures
            r@ == double_declaration_text(
                entry.name@,
                entry.line,
                entry.column,
                first_line,
                first_column,
            ),
    {
        let mut m = String::from_str("Semantic Error: Double declaration of '");
        m.append(entry.name.as_str());
        m.append("' at line ");
        m.append(usize_text(entry.line).as_str());
        m.append(", column ");
        m.append(usize_text(entry.column).as_str());
        m.append(" (first declared at line ");
        m.append(usize_text(first_line).as_str());
        m.append(", column ");
        m.append(usize_text(first_column).as_str());
        m.append(")");
        proof {
            assert(m@ =~= double_declaration_text(
                entry.name@,
                entry.line,
                entry.column,
                first_line,
                first_column,
            ));
        }
        m
    }
}

} // verus!
