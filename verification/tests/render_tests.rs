use cps::errortype::{CPSError, ErrorType};
use cps::host::Host;
use cps::render::Paint;
use cps::value::Value;

struct PlainHost;

impl Host for PlainHost {
    fn real_from_integer(&self, i: i64) -> u64 {
        (i as f64).to_bits()
    }
    fn real_to_integer(&self, r: u64) -> i64 {
        f64::from_bits(r) as i64
    }
    fn real_has_fraction(&self, r: u64) -> bool {
        f64::from_bits(r).fract() != 0.0
    }
    fn real_is_zero(&self, r: u64) -> bool {
        f64::from_bits(r) == 0.0
    }
    fn real_add(&self, a: u64, b: u64) -> u64 {
        (f64::from_bits(a) + f64::from_bits(b)).to_bits()
    }
    fn real_sub(&self, a: u64, b: u64) -> u64 {
        (f64::from_bits(a) - f64::from_bits(b)).to_bits()
    }
    fn real_mul(&self, a: u64, b: u64) -> u64 {
        (f64::from_bits(a) * f64::from_bits(b)).to_bits()
    }
    fn real_div(&self, a: u64, b: u64) -> u64 {
        (f64::from_bits(a) / f64::from_bits(b)).to_bits()
    }
    fn real_rem(&self, a: u64, b: u64) -> u64 {
        (f64::from_bits(a) % f64::from_bits(b)).to_bits()
    }
    fn real_floor_div(&self, a: u64, b: u64) -> u64 {
        (f64::from_bits(a) / f64::from_bits(b)).floor().to_bits()
    }
    fn real_pow(&self, a: u64, b: u64) -> u64 {
        f64::from_bits(a).powf(f64::from_bits(b)).to_bits()
    }
    fn real_eq(&self, a: u64, b: u64) -> bool {
        f64::from_bits(a) == f64::from_bits(b)
    }
    fn real_close(&self, a: u64, b: u64) -> bool {
        (f64::from_bits(a) - f64::from_bits(b)).abs() < f64::EPSILON
    }
    fn real_lt(&self, a: u64, b: u64) -> bool {
        f64::from_bits(a) < f64::from_bits(b)
    }
    fn real_le(&self, a: u64, b: u64) -> bool {
        f64::from_bits(a) <= f64::from_bits(b)
    }
    fn real_to_text(&self, r: u64) -> String {
        f64::from_bits(r).to_string()
    }
    fn real_debug_text(&self, r: u64) -> String {
        format!("{:?}", f64::from_bits(r))
    }
    fn real_parse(&self, s: &str) -> Option<u64> {
        s.parse::<f64>().ok().map(|x| x.to_bits())
    }
    fn call_builtin(&mut self, _name: &str, _args: &Vec<Value>) -> Result<Option<Value>, CPSError> {
        Ok(None)
    }
}

fn error(error_type: ErrorType, message: &str, hint: Option<&str>, line: usize, column: usize, source: Option<&str>) -> CPSError {
    CPSError {
        error_type,
        message: message.to_string(),
        hint: hint.map(|h| h.to_string()),
        line,
        column,
        source: source.map(|s| s.to_string()),
    }
}

const TRAILER: &str =
    "Think this is a bug in the interpreter? Report it: https://github.com/faisalfakih/cambridge-psudocode-inter/issues";

#[test]
fn errors_are_shown_plain_and_in_colour() {
    // One test, because the colour setting of `colored` is shared by the process.
    colored::control::set_override(false);
    let e = error(ErrorType::Runtime, "Division by zero", None, 0, 0, None);
    assert_eq!(e.render(&PlainHost), format!("ERROR: Runtime Error: Division by zero\n\n{}", TRAILER));

    let e = error(ErrorType::Syntax, "Unexpected token", Some("Check the line"), 2, 5, Some("DECLARE x\nx <- ?\n"));
    assert_eq!(
        e.render(&PlainHost),
        format!(
            "ERROR: Syntax Error at line 2, column 5: Unexpected token\nx <- ?\n    ^^\nHINT: Check the line\n\n{}",
            TRAILER
        )
    );

    let e = error(ErrorType::Lexical, "Bad character", None, 9, 1, Some("one line"));
    assert_eq!(e.render(&PlainHost), format!("ERROR: Lexical Error at line 9, column 1: Bad character\n\n{}", TRAILER));

    let e = error(ErrorType::Return(Value::Integer(5)), "", None, 0, 0, None);
    assert_eq!(e.render(&PlainHost), format!("ERROR: Return(5) Error: \n\n{}", TRAILER));

    colored::control::set_override(true);
    let e = error(ErrorType::Runtime, "oops", Some("try again"), 0, 0, None);
    let shown = e.render(&PlainHost);
    assert_eq!(
        shown,
        "\x1B[1;91mERROR\x1B[0m: \x1B[91mRuntime Error\x1B[0m: oops\n\x1B[1;93mHINT\x1B[0m: try again\n\n\
         \x1B[2mThink this is a bug in the interpreter? Report it: \
         \x1B[4;94mhttps://github.com/faisalfakih/cambridge-psudocode-inter/issues\x1B[0m\x1B[2m\x1B[0m"
    );
    let e = error(ErrorType::Runtime, "oops", None, 1, 2, Some("abc"));
    let shown = e.render(&PlainHost);
    assert!(shown.contains("abc\n \x1B[1;91m^^\x1B[0m\n"));
    colored::control::unset_override();
}

#[test]
fn the_layout_puts_the_pieces_in_order() {
    let paint = Paint {
        error_label: "E".to_string(),
        kind_label: "K".to_string(),
        carets: Some("~~~".to_string()),
        hint_label: "H".to_string(),
        trailer: "T".to_string(),
    };
    let e = error(ErrorType::Runtime, "msg", Some("hint"), 1, 3, Some("line one\nline two"));
    assert_eq!(e.layout_text(&paint), "E: K at line 1, column 3: msg\nline one\n  ~~~\nH: hint\n\nT");
    let (line, underline) = e.pointed().unwrap();
    assert_eq!(line, "line one");
    assert_eq!(underline, 6);
    let far = error(ErrorType::Runtime, "msg", None, 1, 20, Some("short"));
    assert_eq!(far.pointed().unwrap().1, 5);
    let outside = error(ErrorType::Runtime, "msg", None, 3, 1, Some("a\nb"));
    assert!(outside.pointed().is_none());
}

#[test]
fn kinds_have_names() {
    assert_eq!(ErrorType::Lexical.name(), "Lexical");
    assert_eq!(ErrorType::Syntax.name(), "Syntax");
    assert_eq!(ErrorType::Runtime.name(), "Runtime");
    assert_eq!(ErrorType::Return(Value::Boolean(true)).name(), "Return");
    assert_eq!(ErrorType::Return(Value::String("x".to_string())).debug_text(&PlainHost), "Return(\"x\")");
    assert_eq!(ErrorType::Return(Value::Real(1.5f64.to_bits())).debug_text(&PlainHost), "Return(1.5)");
}
