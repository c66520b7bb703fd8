use cps::environment::{Environment, IndexFault};
use cps::errortype::ErrorType;
use cps::value::{Expr, FileMode, Type, Value};

fn int_value(v: &Value) -> i64 {
    match v {
        Value::Integer(n) => *n,
        _ => panic!("not an integer"),
    }
}

fn int_array(values: &[i64], lower: usize, bounds_2d: Option<(usize, usize)>) -> Value {
    Value::Array {
        array: values.iter().map(|n| Value::Integer(*n)).collect(),
        lower_bound: lower,
        bounds_2d,
    }
}

fn literal_int(e: &Expr) -> i64 {
    match e {
        Expr::Literal(Value::Integer(n)) => *n,
        _ => panic!("not an integer literal"),
    }
}

#[test]
fn define_then_get_gives_the_value() {
    let mut env = Environment::new_global();
    assert!(env.define("x".to_string(), Value::Integer(5)).is_ok());
    assert_eq!(int_value(&env.get("x").unwrap()), 5);
    assert!(env.get("y").is_none());
}

#[test]
fn redefining_replaces_the_binding() {
    let mut env = Environment::new_global();
    env.define("x".to_string(), Value::Integer(1)).unwrap();
    env.define("x".to_string(), Value::Integer(2)).unwrap();
    assert_eq!(int_value(&env.get("x").unwrap()), 2);
}

#[test]
fn set_of_an_undefined_variable_fails_with_a_hint() {
    let mut env = Environment::new_global();
    let e = env.set("y", Value::Integer(1)).unwrap_err();
    assert!(matches!(e.error_type, ErrorType::Runtime));
    assert_eq!(e.message, "Undefined variable 'y'");
    assert_eq!(e.hint.as_deref(), Some("Check if the variable is declared before use."));
    assert_eq!(e.line, 0);
    assert_eq!(e.column, 0);
    assert!(e.source.is_none());
}

#[test]
fn set_then_get_gives_the_new_value() {
    let mut env = Environment::new_global();
    env.define("x".to_string(), Value::Integer(1)).unwrap();
    env.set("x", Value::Integer(9)).unwrap();
    assert_eq!(int_value(&env.get("x").unwrap()), 9);
}

#[test]
fn a_constant_cannot_be_modified_or_redeclared() {
    let mut env = Environment::new_global();
    env.declare_constant("PI", &Value::Integer(3)).unwrap();
    assert!(env.is_constant("PI"));
    assert!(!env.is_constant("X"));
    let e = env.set("PI", Value::Integer(4)).unwrap_err();
    assert_eq!(e.message, "Cannot modify constant 'PI'");
    assert!(e.hint.is_none());
    assert_eq!(int_value(&env.get("PI").unwrap()), 3);
    let e = env.declare_constant("PI", &Value::Integer(5)).unwrap_err();
    assert_eq!(e.message, "Constant 'PI' is already declared");
    let e = env.define("PI".to_string(), Value::Integer(6)).unwrap_err();
    assert_eq!(e.message, "Cannot redefine constant 'PI'");
    let e = env.set_variable_at_address("PI".to_string(), 0).unwrap_err();
    assert_eq!(e.message, "Cannot redefine constant 'PI'");
}

#[test]
fn a_child_scope_sees_and_shadows_its_parent() {
    let mut parent = Environment::new_global();
    parent.define("x".to_string(), Value::Integer(1)).unwrap();
    let mut child = Environment::new_child(parent);
    assert_eq!(child.depth(), 2);
    assert_eq!(int_value(&child.get("x").unwrap()), 1);
    child.define("x".to_string(), Value::Integer(2)).unwrap();
    assert_eq!(int_value(&child.get("x").unwrap()), 2);
    child.pop_scope();
    assert_eq!(int_value(&child.get("x").unwrap()), 1);
}

#[test]
fn set_in_a_child_scope_changes_the_outer_variable() {
    let mut env = Environment::new_global();
    env.define("total".to_string(), Value::Integer(0)).unwrap();
    env.push_scope();
    env.set("total", Value::Integer(10)).unwrap();
    env.pop_scope();
    assert_eq!(int_value(&env.get("total").unwrap()), 10);
}

#[test]
fn addresses_are_handed_out_in_order() {
    let mut env = Environment::new_global();
    env.define("a".to_string(), Value::Integer(1)).unwrap();
    env.define("b".to_string(), Value::Integer(2)).unwrap();
    assert_eq!(env.find_address_of_variable("a".to_string()), Some(0));
    assert_eq!(env.find_address_of_variable("b".to_string()), Some(1));
    assert_eq!(env.find_address_of_variable("c".to_string()), None);
    env.set_variable_at_address("alias".to_string(), 1).unwrap();
    assert_eq!(int_value(&env.get("alias").unwrap()), 2);
    env.set("alias", Value::Integer(7)).unwrap();
    assert_eq!(int_value(&env.get("b").unwrap()), 7);
}

#[test]
fn a_name_bound_to_an_empty_address_has_no_value() {
    let mut env = Environment::new_global();
    env.set_variable_at_address("ghost".to_string(), 40).unwrap();
    assert!(env.get("ghost").is_none());
    let e = env.get_type("ghost").unwrap_err();
    assert_eq!(e.message, "Variable 'ghost' not found in memory");
}

#[test]
fn elements_of_a_one_dimensional_array() {
    let mut env = Environment::new_global();
    env.define("a".to_string(), int_array(&[10, 20, 30], 1, None)).unwrap();
    assert_eq!(int_value(&env.get_array_element("a", 1, None).unwrap()), 10);
    assert_eq!(int_value(&env.get_array_element("a", 3, None).unwrap()), 30);
    env.set_array_element("a", 2, None, Value::Integer(99)).unwrap();
    assert_eq!(int_value(&env.get_array_element("a", 2, None).unwrap()), 99);
    let e = env.get_array_element("a", 4, None).unwrap_err();
    assert_eq!(e.message, "Array index out of bounds for 'a'");
    assert!(e.hint.is_none());
    let e = env.get_array_element("a", 0, None).unwrap_err();
    assert_eq!(e.message, "Array index 0 is below lower bound 1 for 'a'");
    assert_eq!(e.hint.as_deref(), Some("Valid indices start from 1"));
}

#[test]
fn elements_of_a_two_dimensional_array() {
    let mut env = Environment::new_global();
    // rows 1..2, columns 1..3
    env.define("m".to_string(), int_array(&[1, 2, 3, 4, 5, 6], 1, Some((1, 3)))).unwrap();
    assert_eq!(int_value(&env.get_array_element("m", 2, Some(1)).unwrap()), 4);
    assert_eq!(int_value(&env.get_array_element("m", 1, Some(3)).unwrap()), 3);
    let e = env.get_array_element("m", 1, None).unwrap_err();
    assert_eq!(e.message, "Missing column index for 2D array 'm'");
    assert_eq!(e.hint.as_deref(), Some("2D arrays require both row and column indices"));
    let e = env.get_array_element("m", 1, Some(0)).unwrap_err();
    assert_eq!(e.message, "Column index 0 is below lower bound 1 for 'm'");
    let e = env.get_array_element("m", 1, Some(4)).unwrap_err();
    assert_eq!(e.message, "Column index 4 is out of bounds for 'm'");
    assert_eq!(e.hint.as_deref(), Some("Valid column indices range from 1 to 3"));
    let e = env.set_array_element("m", 3, Some(1), Value::Integer(0)).unwrap_err();
    assert_eq!(e.message, "Array index out of bounds for 'm'");
}

#[test]
fn array_element_errors_for_missing_or_scalar_names() {
    let mut env = Environment::new_global();
    env.define("x".to_string(), Value::Integer(1)).unwrap();
    let e = env.get_array_element("x", 0, None).unwrap_err();
    assert_eq!(e.message, "Variable 'x' is not an array");
    let e = env.get_array_element("nope", 0, None).unwrap_err();
    assert_eq!(e.message, "Variable 'nope' not found");
    let e = env.set_array_element("nope", 0, None, Value::Integer(1)).unwrap_err();
    assert_eq!(e.message, "Variable 'nope' not found");
}

#[test]
fn the_type_of_a_stored_array_has_literal_bounds() {
    let mut env = Environment::new_global();
    env.define("a".to_string(), int_array(&[0, 0, 0], 1, None)).unwrap();
    match env.get_type("a").unwrap() {
        Type::Array(arr) => {
            assert_eq!(literal_int(&arr.lower_bound), 1);
            assert_eq!(literal_int(&arr.upper_bound), 3);
            assert!(arr.bounds_2d.is_none());
            assert!(matches!(*arr.base_type, Type::Integer));
        }
        _ => panic!("expected an array type"),
    }
    env.define("m".to_string(), int_array(&[0, 0, 0, 0, 0, 0], 0, Some((0, 2)))).unwrap();
    match env.get_type("m").unwrap() {
        Type::Array(arr) => {
            assert_eq!(literal_int(&arr.lower_bound), 0);
            assert_eq!(literal_int(&arr.upper_bound), 1);
            let (cl, cu) = arr.bounds_2d.unwrap();
            assert_eq!(literal_int(&cl), 0);
            assert_eq!(literal_int(&cu), 2);
        }
        _ => panic!("expected an array type"),
    }
}

#[test]
fn the_type_of_an_empty_array_cannot_be_given() {
    let mut env = Environment::new_global();
    env.define("e".to_string(), int_array(&[], 1, None)).unwrap();
    let err = env.get_type("e").unwrap_err();
    assert_eq!(err.message, "Cannot determine base type of empty array 'e'");
    assert_eq!(err.hint.as_deref(), Some("Consider initializing the array with a default value."));
    let err = env.get_type("missing").unwrap_err();
    assert_eq!(err.message, "Undefined variable 'missing'");
}

#[test]
fn index_faults_are_distinguished() {
    assert!(matches!(cps::environment::locate(3, 1, None, 0, None), Err(IndexFault::BelowLower)));
    assert!(matches!(cps::environment::locate(3, 1, None, 4, None), Err(IndexFault::OutOfBounds)));
    assert!(matches!(cps::environment::locate(3, 1, None, 3, None), Ok(2)));
    assert!(matches!(cps::environment::locate(6, 1, Some((1, 3)), 2, Some(2)), Ok(4)));
    assert!(matches!(cps::environment::locate(6, 1, Some((1, 3)), 2, None), Err(IndexFault::MissingColumn)));
}

#[test]
fn a_file_opened_for_reading_gives_its_lines_then_eof() {
    let mut env = Environment::new_global();
    env.openfile("data.txt", &FileMode::Read, "first\r\nsecond\n").unwrap();
    assert!(env.is_file_open_conflicting("data.txt", &FileMode::Read));
    assert_eq!(env.is_eof("data.txt").unwrap(), false);
    assert_eq!(env.readfile("data.txt").unwrap(), "first");
    assert_eq!(env.readfile("data.txt").unwrap(), "second");
    assert_eq!(env.is_eof("data.txt").unwrap(), true);
    let e = env.readfile("data.txt").unwrap_err();
    assert_eq!(e.message, "Cannot read past end of file 'data.txt'");
    assert_eq!(e.hint.as_deref(), Some("Check EOF before reading"));
    let e = env.openfile("data.txt", &FileMode::Write, "").unwrap_err();
    assert_eq!(e.message, "Cannot open file 'data.txt': file is already open");
}

#[test]
fn lines_written_to_a_file_are_kept_until_it_is_closed() {
    let mut env = Environment::new_global();
    let host = NoHost;
    env.openfile("out.txt", &FileMode::Write, "").unwrap();
    env.writefile("out.txt", &Value::Integer(42), &host).unwrap();
    env.writefile("out.txt", &Value::String("hi".to_string()), &host).unwrap();
    env.writefile("out.txt", &Value::Boolean(true), &host).unwrap();
    env.writefile("out.txt", &Value::Char('z'), &host).unwrap();
    let e = env.writefile("out.txt", &Value::Identifier("x".to_string()), &host).unwrap_err();
    assert_eq!(e.message, "Unsupported value type for writing to file 'out.txt'");
    let e = env.readfile("out.txt").unwrap_err();
    assert_eq!(e.message, "Cannot read from file 'out.txt': file is not opened in read mode");
    let e = env.is_eof("out.txt").unwrap_err();
    assert_eq!(e.message, "EOF can only be used on files opened in READ mode, 'out.txt' is in Write mode");
    let record = env.closefile("out.txt").unwrap();
    assert!(matches!(record.mode, FileMode::Write));
    assert_eq!(record.pending.unwrap(), vec!["42", "hi", "true", "z"]);
    let e = env.closefile("out.txt").unwrap_err();
    assert_eq!(e.message, "Cannot close file 'out.txt': file is not open");
    let e = env.writefile("out.txt", &Value::Integer(1), &host).unwrap_err();
    assert_eq!(e.message, "File 'out.txt' is not open");
}

#[test]
fn files_cannot_be_written_in_read_mode_or_read_when_closed() {
    let mut env = Environment::new_global();
    let host = NoHost;
    env.openfile("in.txt", &FileMode::Read, "x").unwrap();
    let e = env.writefile("in.txt", &Value::Integer(1), &host).unwrap_err();
    assert_eq!(e.message, "Cannot write to file 'in.txt': file is opened in read mode");
    let e = env.readfile("other.txt").unwrap_err();
    assert_eq!(e.message, "File 'other.txt' is not open");
    let e = env.is_eof("other.txt").unwrap_err();
    assert_eq!(e.hint.as_deref(), Some("Make sure to open the file before checking EOF"));
}

struct NoHost;

impl cps::host::Host for NoHost {
    fn real_from_integer(&self, i: i64) -> u64 {
        (i as f64).to_bits()
    }
    fn real_to_integer(&self, r: u64) -> i64 {
        f64::from_bits(r) as i64
    }
    fn real_has_fraction(&self, r: u64) -> bool {
        f64::from_bits(r).fract() != 0.0
    }
    fn real_is_zero(&self, r: u64) -> bool {
        f64::from_bits(r) == 0.0
    }
    fn real_add(&self, a: u64, b: u64) -> u64 {
        (f64::from_bits(a) + f64::from_bits(b)).to_bits()
    }
    fn real_sub(&self, a: u64, b: u64) -> u64 {
        (f64::from_bits(a) - f64::from_bits(b)).to_bits()
    }
    fn real_mul(&self, a: u64, b: u64) -> u64 {
        (f64::from_bits(a) * f64::from_bits(b)).to_bits()
    }
    fn real_div(&self, a: u64, b: u64) -> u64 {
        (f64::from_bits(a) / f64::from_bits(b)).to_bits()
    }
    fn real_rem(&self, a: u64, b: u64) -> u64 {
        (f64::from_bits(a) % f64::from_bits(b)).to_bits()
    }
    fn real_floor_div(&self, a: u64, b: u64) -> u64 {
        (f64::from_bits(a) / f64::from_bits(b)).floor().to_bits()
    }
    fn real_pow(&self, a: u64, b: u64) -> u64 {
        f64::from_bits(a).powf(f64::from_bits(b)).to_bits()
    }
    fn real_eq(&self, a: u64, b: u64) -> bool {
        f64::from_bits(a) == f64::from_bits(b)
    }
    fn real_close(&self, a: u64, b: u64) -> bool {
        (f64::from_bits(a) - f64::from_bits(b)).abs() < f64::EPSILON
    }
    fn real_lt(&self, a: u64, b: u64) -> bool {
        f64::from_bits(a) < f64::from_bits(b)
    }
    fn real_le(&self, a: u64, b: u64) -> bool {
        f64::from_bits(a) <= f64::from_bits(b)
    }
    fn real_to_text(&self, r: u64) -> String {
        f64::from_bits(r).to_string()
    }
    fn real_debug_text(&self, r: u64) -> String {
        format!("{:?}", f64::from_bits(r))
    }
    fn real_parse(&self, s: &str) -> Option<u64> {
        s.parse::<f64>().ok().map(|x| x.to_bits())
    }
    fn call_builtin(&mut self, name: &str, _args: &Vec<Value>) -> Result<Option<Value>, cps::errortype::CPSError> {
        Err(cps::errortype::CPSError {
            error_type: ErrorType::Runtime,
            message: format!("no builtin {}", name),
            hint: None,
            line: 0,
            column: 0,
            source: None,
        })
    }
}

#[test]
fn defining_a_name_keeps_the_others() {
    let mut env = Environment::new_global();
    env.define("a".to_string(), Value::Integer(1)).unwrap();
    env.define("b".to_string(), Value::Integer(2)).unwrap();
    assert_eq!(int_value(&env.get("a").unwrap()), 1);
    assert_eq!(int_value(&env.get("b").unwrap()), 2);
}

#[test]
fn closing_a_file_just_opened_leaves_it_closed() {
    let mut env = Environment::new_global();
    assert!(!env.is_file_open_conflicting("t.txt", &FileMode::Append));
    env.openfile("t.txt", &FileMode::Append, "").unwrap();
    assert!(env.is_file_open_conflicting("t.txt", &FileMode::Append));
    let record = env.closefile("t.txt").unwrap();
    assert!(matches!(record.mode, FileMode::Append));
    assert_eq!(record.line_idx, 0);
    assert!(!env.is_file_open_conflicting("t.txt", &FileMode::Append));
    env.openfile("t.txt", &FileMode::Read, "again").unwrap();
    assert_eq!(env.readfile("t.txt").unwrap(), "again");
}

#[test]
fn a_row_far_past_the_end_is_out_of_bounds() {
    let mut env = Environment::new_global();
    // rows 1..2, columns 1..3; (row - 1) * 3 wraps round to 2 in machine arithmetic
    env.define("m".to_string(), int_array(&[1, 2, 3, 4, 5, 6], 1, Some((1, 3)))).unwrap();
    let row: usize = 0x5555_5555_5555_5557;
    let e = env.set_array_element("m", row, Some(1), Value::Integer(0)).unwrap_err();
    assert_eq!(e.message, "Array index out of bounds for 'm'");
    let e = env.get_array_element("m", row, Some(1)).unwrap_err();
    assert_eq!(e.message, "Array index out of bounds for 'm'");
    assert_eq!(int_value(&env.get_array_element("m", 1, Some(3)).unwrap()), 3);
}
