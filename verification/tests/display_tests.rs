use cps::display::{fmt_bound, output_text_of, type_debug_text, value_debug_text};
use cps::errortype::CPSError;
use cps::host::Host;
use cps::value::{ArrayType, Expr, Function, PassingValue, Type, Value};
use std::rc::Rc;

struct DebugHost;

impl Host for DebugHost {
    fn real_from_integer(&self, i: i64) -> u64 {
        (i as f64).to_bits()
    }
    fn real_to_integer(&self, r: u64) -> i64 {
        f64::from_bits(r) as i64
    }
    fn real_has_fraction(&self, r: u64) -> bool {
        f64::from_bits(r).fract() != 0.0
    }
    fn real_is_zero(&self, r: u64) -> bool {
        f64::from_bits(r) == 0.0
    }
    fn real_add(&self, a: u64, b: u64) -> u64 {
        (f64::from_bits(a) + f64::from_bits(b)).to_bits()
    }
    fn real_sub(&self, a: u64, b: u64) -> u64 {
        (f64::from_bits(a) - f64::from_bits(b)).to_bits()
    }
    fn real_mul(&self, a: u64, b: u64) -> u64 {
        (f64::from_bits(a) * f64::from_bits(b)).to_bits()
    }
    fn real_div(&self, a: u64, b: u64) -> u64 {
        (f64::from_bits(a) / f64::from_bits(b)).to_bits()
    }
    fn real_rem(&self, a: u64, b: u64) -> u64 {
        (f64::from_bits(a) % f64::from_bits(b)).to_bits()
    }
    fn real_floor_div(&self, a: u64, b: u64) -> u64 {
        (f64::from_bits(a) / f64::from_bits(b)).floor().to_bits()
    }
    fn real_pow(&self, a: u64, b: u64) -> u64 {
        f64::from_bits(a).powf(f64::from_bits(b)).to_bits()
    }
    fn real_eq(&self, a: u64, b: u64) -> bool {
        f64::from_bits(a) == f64::from_bits(b)
    }
    fn real_close(&self, a: u64, b: u64) -> bool {
        (f64::from_bits(a) - f64::from_bits(b)).abs() < f64::EPSILON
    }
    fn real_lt(&self, a: u64, b: u64) -> bool {
        f64::from_bits(a) < f64::from_bits(b)
    }
    fn real_le(&self, a: u64, b: u64) -> bool {
        f64::from_bits(a) <= f64::from_bits(b)
    }
    fn real_to_text(&self, r: u64) -> String {
        f64::from_bits(r).to_string()
    }
    fn real_debug_text(&self, r: u64) -> String {
        format!("{:?}", f64::from_bits(r))
    }
    fn real_parse(&self, s: &str) -> Option<u64> {
        s.parse::<f64>().ok().map(|x| x.to_bits())
    }
    fn call_builtin(&mut self, _name: &str, _args: &Vec<Value>) -> Result<Option<Value>, CPSError> {
        Ok(None)
    }
}

fn int_expr(n: i64) -> Box<Expr> {
    Box::new(Expr::Literal(Value::Integer(n)))
}

#[test]
fn scalars_are_written_as_in_messages() {
    let h = DebugHost;
    assert_eq!(value_debug_text(&Value::Integer(-4), false, &h), "-4");
    assert_eq!(value_debug_text(&Value::String("hi".to_string()), false, &h), "\"hi\"");
    assert_eq!(value_debug_text(&Value::Boolean(true), false, &h), "TRUE");
    assert_eq!(value_debug_text(&Value::Char('q'), false, &h), "'q'");
    assert_eq!(value_debug_text(&Value::Identifier("count".to_string()), false, &h), "count");
    assert_eq!(value_debug_text(&Value::Real(2.0f64.to_bits()), false, &h), "2.0");
}

#[test]
fn arrays_are_written_by_their_bounds() {
    let h = DebugHost;
    let one_d = Value::Array {
        array: vec![Value::Integer(1), Value::Integer(2), Value::Integer(3)],
        lower_bound: 1,
        bounds_2d: None,
    };
    assert_eq!(value_debug_text(&one_d, false, &h), "Array[1:3] OF Integer");
    assert_eq!(value_debug_text(&one_d, true, &h), "Array[1:3] OF Integer [1, 2, 3]");
    let two_d = Value::Array {
        array: vec![Value::Boolean(false), Value::Boolean(false), Value::Boolean(false), Value::Boolean(false)],
        lower_bound: 0,
        bounds_2d: Some((1, 2)),
    };
    assert_eq!(value_debug_text(&two_d, false, &h), "Array[0:1, 1:2] OF Boolean");
    let empty = Value::Array { array: vec![], lower_bound: 5, bounds_2d: None };
    assert_eq!(value_debug_text(&empty, false, &h), "Array[5:5] OF ?");
}

#[test]
fn procedures_and_functions_are_written_by_their_parameters() {
    let h = DebugHost;
    let f = Value::Function(Rc::new(Function {
        parameters: vec![
            ("a".to_string(), Type::Integer, PassingValue::ByVal),
            ("b".to_string(), Type::String, PassingValue::ByRef),
        ],
        return_type: Some(Type::Boolean),
        body: cps::value::BlockStmt { statements: vec![] },
    }));
    assert_eq!(value_debug_text(&f, false, &h), "FUNCTION(BYVAL a : Integer, BYREF b : String) RETURNS Boolean");
    let p = Value::Function(Rc::new(Function {
        parameters: vec![],
        return_type: None,
        body: cps::value::BlockStmt { statements: vec![] },
    }));
    assert_eq!(value_debug_text(&p, false, &h), "PROCEDURE()");
}

#[test]
fn types_are_written_by_name_and_bounds() {
    let h = DebugHost;
    assert_eq!(type_debug_text(&Type::Char, &h), "Char");
    let t = Type::Array(ArrayType {
        lower_bound: int_expr(1),
        upper_bound: int_expr(10),
        bounds_2d: Some((int_expr(0), int_expr(3))),
        base_type: Box::new(Type::Real),
    });
    assert_eq!(type_debug_text(&t, &h), "Array[1:10, 0:3] OF Real");
    assert_eq!(fmt_bound(&Expr::Literal(Value::Identifier("n".to_string())), &h), "n");
    assert_eq!(fmt_bound(&Expr::Literal(Value::Real(4.0f64.to_bits())), &h), "4");
    assert_eq!(fmt_bound(&Expr::Literal(Value::Real(4.5f64.to_bits())), &h), "?");
    assert_eq!(fmt_bound(&Expr::EOF { filename: "f".to_string() }, &h), "?");
}

#[test]
fn output_text_of_values() {
    let h = DebugHost;
    assert_eq!(output_text_of(&Value::Boolean(false), &h).as_deref(), Some("false"));
    assert_eq!(output_text_of(&Value::Real(0.1f64.to_bits()), &h).as_deref(), Some("0.1"));
    assert!(output_text_of(&Value::Identifier("x".to_string()), &h).is_none());
}

#[test]
fn nested_array_types_and_values_are_written_level_by_level() {
    let h = DebugHost;
    let inner = Type::Array(ArrayType {
        lower_bound: int_expr(0),
        upper_bound: int_expr(2),
        bounds_2d: None,
        base_type: Box::new(Type::Char),
    });
    let outer = Type::Array(ArrayType {
        lower_bound: int_expr(1),
        upper_bound: Box::new(Expr::Literal(Value::Identifier("n".to_string()))),
        bounds_2d: None,
        base_type: Box::new(inner),
    });
    assert_eq!(type_debug_text(&outer, &h), "Array[1:n] OF Array[0:2] OF Char");
    let rows = Value::Array {
        array: vec![
            Value::Array { array: vec![Value::Char('a'), Value::Char('b')], lower_bound: 0, bounds_2d: None },
            Value::String("x".to_string()),
        ],
        lower_bound: 1,
        bounds_2d: None,
    };
    assert_eq!(value_debug_text(&rows, true, &h), "Array[1:2] OF ? [Array[0:1] OF Char, \"x\"]");
}
