use mini_compiler::symbol_table::{DataType, EntityType, SymbolEntry, SymbolTable, Value};

fn entry(name: &str, entity_type: EntityType, data_type: DataType, value: Value, line: usize, column: usize) -> SymbolEntry {
    SymbolEntry { name: name.to_string(), entity_type, data_type, value, line, column }
}

fn undefined_array(n: usize) -> Value {
    let mut v = Vec::new();
    for _ in 0..n {
        v.push(Value::Undefined);
    }
    Value::Array(v)
}

#[test]
fn insert_then_lookup_gives_equal_entry() {
    let mut t = SymbolTable::new();
    assert!(t.insert(entry("count", EntityType::Variable, DataType::Int, Value::Int(4), 2, 7)).is_ok());
    let e = t.lookup("count").unwrap();
    assert_eq!(e.name, "count");
    assert_eq!(e.entity_type, EntityType::Variable);
    assert_eq!(e.data_type, DataType::Int);
    assert_eq!(format!("{:?}", e.value), format!("{:?}", Value::Int(4)));
    assert_eq!((e.line, e.column), (2, 7));
    assert!(t.lookup("other").is_none());
}

#[test]
fn insert_refuses_a_taken_name() {
    let mut t = SymbolTable::new();
    t.insert(entry("x", EntityType::Variable, DataType::Int, Value::Undefined, 1, 5)).unwrap();
    let r = t.insert(entry("x", EntityType::Constant, DataType::Float, Value::Float(0), 4, 2));
    assert_eq!(
        r.unwrap_err(),
        "Semantic Error: Double declaration of 'x' at line 4, column 2 (first declared at line 1, column 5)"
    );
    assert_eq!(t.table.len(), 1);
    assert_eq!(t.lookup("x").unwrap().entity_type, EntityType::Variable);
}

#[test]
fn entries_are_kept_in_name_order() {
    let mut t = SymbolTable::new();
    for n in ["delta", "alpha", "charlie", "Bravo", "alphabet"] {
        t.insert(entry(n, EntityType::Variable, DataType::Int, Value::Undefined, 0, 0)).unwrap();
    }
    let names: Vec<&str> = t.table.iter().map(|e| e.name.as_str()).collect();
    assert_eq!(names, vec!["Bravo", "alpha", "alphabet", "charlie", "delta"]);
}

#[test]
fn update_value_replaces_only_the_value() {
    let mut t = SymbolTable::new();
    t.insert(entry("x", EntityType::Variable, DataType::Float, Value::Undefined, 3, 3)).unwrap();
    assert!(t.update_value("x", Value::Float(2.5f32.to_bits())).is_ok());
    let e = t.lookup("x").unwrap();
    assert_eq!(format!("{:?}", e.value), format!("{:?}", Value::Float(2.5f32.to_bits())));
    assert_eq!((e.line, e.column, e.data_type), (3, 3, DataType::Float));
    assert_eq!(t.update_value("y", Value::Int(1)).unwrap_err(), "Cannot update undefined variable 'y'");
}

#[test]
fn update_array_element_in_and_out_of_bounds() {
    let mut t = SymbolTable::new();
    t.insert(entry("a", EntityType::Array { size: 10 }, DataType::Int, undefined_array(10), 1, 1)).unwrap();
    assert!(t.update_array_element("a", 9, Value::Int(42)).is_ok());
    match &t.lookup("a").unwrap().value {
        Value::Array(es) => {
            assert_eq!(es.len(), 10);
            assert_eq!(format!("{:?}", es[9]), format!("{:?}", Value::Int(42)));
            assert_eq!(format!("{:?}", es[8]), format!("{:?}", Value::Undefined));
        }
        _ => panic!("array expected"),
    }
    assert_eq!(
        t.update_array_element("a", 10, Value::Int(1)).unwrap_err(),
        "Index 10 out of bounds for array 'a' of size 10"
    );
    assert_eq!(t.update_array_element("b", 0, Value::Int(1)).unwrap_err(), "Undeclared array 'b'");
    t.insert(entry("s", EntityType::Variable, DataType::Int, Value::Int(0), 1, 1)).unwrap();
    assert_eq!(t.update_array_element("s", 0, Value::Int(1)).unwrap_err(), "'s' is not an array");
}

#[test]
fn format_table_is_stable_and_sorted() {
    let mut t = SymbolTable::new();
    t.insert(entry("zeta", EntityType::Constant, DataType::Float, Value::Float(1.5f32.to_bits()), 2, 3)).unwrap();
    t.insert(entry("arr", EntityType::Array { size: 3 }, DataType::Int, Value::Array(vec![Value::Int(1), Value::Undefined, Value::Int(-2)]), 1, 5)).unwrap();
    t.insert(entry("n", EntityType::Variable, DataType::Int, Value::Undefined, 10, 12)).unwrap();
    let first = t.format_table();
    let second = t.format_table();
    assert_eq!(first, second);
    let border = "+--------------------+---------------+----------+---------------+--------+--------+\n";
    let expected = format!(
        "{b}| Name               | Entity Type   | Type     | Value         | Line   | Column |\n{b}\
| arr                | Array[3]      | Int      | [1, -, -2]    | 1      | 5      |\n\
| n                  | Variable      | Int      | -             | 10     | 12     |\n\
| zeta               | Constant      | Float    | 1.5           | 2      | 3      |\n{b}",
        b = border
    );
    assert_eq!(first, expected);
}

#[test]
fn format_table_of_empty_table() {
    let t = SymbolTable::new();
    let border = "+--------------------+---------------+----------+---------------+--------+--------+\n";
    assert_eq!(
        t.format_table(),
        format!("{b}| Name               | Entity Type   | Type     | Value         | Line   | Column |\n{b}{b}", b = border)
    );
}
