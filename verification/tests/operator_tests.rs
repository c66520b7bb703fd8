use cps::errortype::{CPSError, ErrorType};
use cps::host::Host;
use cps::operators;
use cps::text::{
    bool_to_string, char_to_string, concat3, int_to_string, parse_bool, parse_int, split_lines, str_equal,
    string_le, usize_to_string,
};
use cps::value::Value;

struct FloatHost;

impl Host for FloatHost {
    fn real_from_integer(&self, i: i64) -> u64 {
        (i as f64).to_bits()
    }
    fn real_to_integer(&self, r: u64) -> i64 {
        f64::from_bits(r) as i64
    }
    fn real_has_fraction(&self, r: u64) -> bool {
        f64::from_bits(r).fract() != 0.0
    }
    fn real_is_zero(&self, r: u64) -> bool {
        f64::from_bits(r) == 0.0
    }
    fn real_add(&self, a: u64, b: u64) -> u64 {
        (f64::from_bits(a) + f64::from_bits(b)).to_bits()
    }
    fn real_sub(&self, a: u64, b: u64) -> u64 {
        (f64::from_bits(a) - f64::from_bits(b)).to_bits()
    }
    fn real_mul(&self, a: u64, b: u64) -> u64 {
        (f64::from_bits(a) * f64::from_bits(b)).to_bits()
    }
    fn real_div(&self, a: u64, b: u64) -> u64 {
        (f64::from_bits(a) / f64::from_bits(b)).to_bits()
    }
    fn real_rem(&self, a: u64, b: u64) -> u64 {
        (f64::from_bits(a) % f64::from_bits(b)).to_bits()
    }
    fn real_floor_div(&self, a: u64, b: u64) -> u64 {
        (f64::from_bits(a) / f64::from_bits(b)).floor().to_bits()
    }
    fn real_pow(&self, a: u64, b: u64) -> u64 {
        f64::from_bits(a).powf(f64::from_bits(b)).to_bits()
    }
    fn real_eq(&self, a: u64, b: u64) -> bool {
        f64::from_bits(a) == f64::from_bits(b)
    }
    fn real_close(&self, a: u64, b: u64) -> bool {
        (f64::from_bits(a) - f64::from_bits(b)).abs() < f64::EPSILON
    }
    fn real_lt(&self, a: u64, b: u64) -> bool {
        f64::from_bits(a) < f64::from_bits(b)
    }
    fn real_le(&self, a: u64, b: u64) -> bool {
        f64::from_bits(a) <= f64::from_bits(b)
    }
    fn real_to_text(&self, r: u64) -> String {
        f64::from_bits(r).to_string()
    }
    fn real_debug_text(&self, r: u64) -> String {
        format!("{:?}", f64::from_bits(r))
    }
    fn real_parse(&self, s: &str) -> Option<u64> {
        s.parse::<f64>().ok().map(|x| x.to_bits())
    }
    fn call_builtin(&mut self, name: &str, _args: &Vec<Value>) -> Result<Option<Value>, CPSError> {
        Err(CPSError {
            error_type: ErrorType::Runtime,
            message: format!("no builtin {}", name),
            hint: None,
            line: 0,
            column: 0,
            source: None,
        })
    }
}

fn real_value(x: f64) -> Value {
    Value::Real(x.to_bits())
}

fn as_int(r: Result<Value, CPSError>) -> i64 {
    match r.unwrap() {
        Value::Integer(n) => n,
        _ => panic!("not an integer"),
    }
}

fn as_real(r: Result<Value, CPSError>) -> f64 {
    match r.unwrap() {
        Value::Real(x) => f64::from_bits(x),
        _ => panic!("not a real"),
    }
}

fn as_bool(r: Result<Value, CPSError>) -> bool {
    match r.unwrap() {
        Value::Boolean(b) => b,
        _ => panic!("not a boolean"),
    }
}

fn message(r: Result<Value, CPSError>) -> String {
    match r {
        Err(e) => e.message,
        Ok(_) => panic!("expected an error"),
    }
}

#[test]
fn integer_arithmetic_is_exact_and_wraps_on_overflow() {
    let h = FloatHost;
    assert_eq!(as_int(operators::add(&h, Value::Integer(2), Value::Integer(3))), 5);
    assert_eq!(as_int(operators::subtract(&h, Value::Integer(2), Value::Integer(3))), -1);
    assert_eq!(as_int(operators::multiply(&h, Value::Integer(6), Value::Integer(7))), 42);
    assert_eq!(as_int(operators::add(&h, Value::Integer(i64::MAX), Value::Integer(1))), i64::MIN);
    assert_eq!(as_int(operators::multiply(&h, Value::Integer(i64::MAX), Value::Integer(2))), -2);
}

#[test]
fn mixed_arithmetic_gives_reals() {
    let h = FloatHost;
    assert_eq!(as_real(operators::add(&h, Value::Integer(1), real_value(0.5))), 1.5);
    assert_eq!(as_real(operators::multiply(&h, real_value(2.5), Value::Integer(2))), 5.0);
    assert_eq!(as_real(operators::subtract(&h, real_value(2.5), real_value(0.5))), 2.0);
}

#[test]
fn division_gives_a_real_and_refuses_zero() {
    let h = FloatHost;
    assert_eq!(as_real(operators::divide(&h, Value::Integer(7), Value::Integer(2))), 3.5);
    assert_eq!(message(operators::divide(&h, Value::Integer(7), Value::Integer(0))), "Division by zero");
    assert_eq!(message(operators::divide(&h, real_value(1.0), real_value(0.0))), "Division by zero");
}

#[test]
fn div_and_mod_truncate_toward_zero() {
    let h = FloatHost;
    assert_eq!(as_int(operators::integer_divide(&h, Value::Integer(7), Value::Integer(2))), 3);
    assert_eq!(as_int(operators::integer_divide(&h, Value::Integer(-7), Value::Integer(2))), -3);
    assert_eq!(as_int(operators::modulo(&h, Value::Integer(7), Value::Integer(3))), 1);
    assert_eq!(as_int(operators::modulo(&h, Value::Integer(-7), Value::Integer(3))), -1);
    assert_eq!(message(operators::integer_divide(&h, Value::Integer(1), Value::Integer(0))), "Division by zero");
    assert_eq!(message(operators::modulo(&h, Value::Integer(1), Value::Integer(0))), "Modulo by zero");
    assert_eq!(as_real(operators::integer_divide(&h, real_value(7.0), real_value(2.0))), 3.0);
    assert_eq!(as_real(operators::modulo(&h, real_value(7.5), real_value(2.0))), 1.5);
}

#[test]
fn div_times_divisor_plus_mod_gives_the_dividend() {
    let h = FloatHost;
    for a in [-17i64, -5, 0, 3, 17, 100] {
        for b in [-4i64, -1, 1, 3, 7] {
            let q = as_int(operators::integer_divide(&h, Value::Integer(a), Value::Integer(b)));
            let r = as_int(operators::modulo(&h, Value::Integer(a), Value::Integer(b)));
            assert_eq!(q * b + r, a);
        }
    }
}

#[test]
fn power_of_integers_and_reals() {
    let h = FloatHost;
    assert_eq!(as_int(operators::power(&h, Value::Integer(2), Value::Integer(10))), 1024);
    assert_eq!(as_int(operators::power(&h, Value::Integer(5), Value::Integer(0))), 1);
    assert_eq!(as_real(operators::power(&h, real_value(2.0), real_value(0.5))), 2f64.powf(0.5));
}

#[test]
fn integer_powers_wrap_as_wrapping_pow_does() {
    let h = FloatHost;
    for (a, b) in [(3i64, 40i64), (-7, 23), (2, 63), (2, 64), (2, -1), (-1, -1), (10, 19), (0, 0)] {
        let expected = a.wrapping_pow(b as u32);
        assert_eq!(as_int(operators::power(&h, Value::Integer(a), Value::Integer(b))), expected);
    }
}

#[test]
fn concatenation_joins_texts() {
    let h = FloatHost;
    match operators::concatenate(&h, Value::String("Hello, ".to_string()), Value::String("World".to_string())).unwrap() {
        Value::String(s) => assert_eq!(s, "Hello, World"),
        _ => panic!("expected a string"),
    }
    match operators::concatenate(&h, Value::String("n=".to_string()), Value::Integer(5)).unwrap() {
        Value::String(s) => assert_eq!(s, "n=5"),
        _ => panic!("expected a string"),
    }
    match operators::concatenate(&h, Value::Char('a'), Value::Boolean(false)).unwrap() {
        Value::String(s) => assert_eq!(s, "afalse"),
        _ => panic!("expected a string"),
    }
}

#[test]
fn comparisons_of_numbers() {
    let h = FloatHost;
    assert!(as_bool(operators::less_than(&h, Value::Integer(1), Value::Integer(2))));
    assert!(!as_bool(operators::greater_than(&h, Value::Integer(1), Value::Integer(2))));
    assert!(as_bool(operators::less_equal(&h, Value::Integer(2), Value::Integer(2))));
    assert!(as_bool(operators::greater_equal(&h, real_value(2.5), Value::Integer(2))));
    assert!(as_bool(operators::equal(&h, Value::String("a".to_string()), Value::String("a".to_string()))));
    assert!(as_bool(operators::not_equal(&h, Value::Char('a'), Value::Char('b'))));
    assert!(as_bool(operators::equal(&h, real_value(0.5), real_value(0.5))));
}

#[test]
fn less_than_and_greater_equal_are_complementary_on_integers() {
    let h = FloatHost;
    for a in [-3i64, 0, 4] {
        for b in [-3i64, 0, 4] {
            let lt = as_bool(operators::less_than(&h, Value::Integer(a), Value::Integer(b)));
            let ge = as_bool(operators::greater_equal(&h, Value::Integer(a), Value::Integer(b)));
            assert_ne!(lt, ge);
        }
    }
}

#[test]
fn logical_operators_on_booleans() {
    let h = FloatHost;
    assert!(!as_bool(operators::logical_and(&h, Value::Boolean(true), Value::Boolean(false))));
    assert!(as_bool(operators::logical_or(&h, Value::Boolean(true), Value::Boolean(false))));
}

#[test]
fn operands_of_the_wrong_kind_are_refused() {
    let h = FloatHost;
    assert_eq!(
        message(operators::add(&h, Value::String("a".to_string()), Value::Integer(1))),
        "Unsupported types for addition: \"a\" + 1"
    );
    assert_eq!(
        message(operators::logical_and(&h, Value::Integer(1), Value::Boolean(true))),
        "Unsupported types for logical AND: 1 AND TRUE"
    );
    assert_eq!(
        message(operators::equal(&h, Value::Integer(1), Value::String("1".to_string()))),
        "Unsupported types for equality comparison: 1 == \"1\""
    );
    assert!(operators::less_than(&h, Value::Boolean(true), Value::Boolean(false)).is_err());
}

#[test]
fn integers_are_written_in_decimal() {
    assert_eq!(int_to_string(0), "0");
    assert_eq!(int_to_string(-120), "-120");
    assert_eq!(int_to_string(i64::MIN), "-9223372036854775808");
    assert_eq!(usize_to_string(4096), "4096");
    assert_eq!(bool_to_string(true), "true");
    assert_eq!(char_to_string('x'), "x");
    assert_eq!(concat3("a", "b", "c"), "abc");
}

#[test]
fn integers_are_read_as_str_parse_reads_them() {
    assert_eq!(parse_int("42"), Some(42));
    assert_eq!(parse_int("+7"), Some(7));
    assert_eq!(parse_int("-0"), Some(0));
    assert_eq!(parse_int("-9223372036854775808"), Some(i64::MIN));
    assert_eq!(parse_int("9223372036854775808"), None);
    assert_eq!(parse_int(""), None);
    assert_eq!(parse_int("-"), None);
    assert_eq!(parse_int("1 2"), None);
    assert_eq!(parse_int(" 1"), None);
    for n in [0i64, 1, -1, 99, i64::MAX, i64::MIN] {
        assert_eq!(parse_int(&int_to_string(n)), Some(n));
        assert_eq!(parse_int(&int_to_string(n)), n.to_string().parse::<i64>().ok());
    }
}

#[test]
fn booleans_are_read_in_any_case() {
    assert_eq!(parse_bool("TRUE"), Some(true));
    assert_eq!(parse_bool("False"), Some(false));
    assert_eq!(parse_bool("yes"), None);
    assert_eq!(parse_bool(""), None);
}

#[test]
fn lines_are_split_as_str_lines_splits_them() {
    for text in ["", "a", "a\n", "a\r\nb", "a\n\nb\n", "\n", "x\r", "x\r\n\r\n"] {
        let expected: Vec<String> = text.lines().map(|l| l.to_string()).collect();
        assert_eq!(split_lines(text), expected);
    }
}

#[test]
fn strings_compare_in_the_order_of_string() {
    for (a, b) in [("a", "b"), ("abc", "abd"), ("ab", "abc"), ("b", "a"), ("", ""), ("Z", "a")] {
        assert_eq!(string_le(a, b), a <= b);
        assert_eq!(str_equal(a, b), a == b);
    }
}
