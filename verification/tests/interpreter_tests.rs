use cps::errortype::{CPSError, ErrorType};
use cps::host::Host;
use cps::interpreter::{is_builtin, Interpreter};
use cps::replay::ReplayContext;
use cps::value::{
    ArrayType, Ast, BinaryExpr, BlockStmt, CaseCondition, Expr, FileMode, Function, PassingValue, Stmt, TokenType,
    Type, Value,
};
use std::rc::Rc;

/// Reals as `f64`; LENGTH and UCASE on strings; RAND gives 0.25 and counts
/// its calls.
struct ScriptHost {
    rand_calls: usize,
}

impl Host for ScriptHost {
    fn real_from_integer(&self, i: i64) -> u64 {
        (i as f64).to_bits()
    }
    fn real_to_integer(&self, r: u64) -> i64 {
        f64::from_bits(r) as i64
    }
    fn real_has_fraction(&self, r: u64) -> bool {
        f64::from_bits(r).fract() != 0.0
    }
    fn real_is_zero(&self, r: u64) -> bool {
        f64::from_bits(r) == 0.0
    }
    fn real_add(&self, a: u64, b: u64) -> u64 {
        (f64::from_bits(a) + f64::from_bits(b)).to_bits()
    }
    fn real_sub(&self, a: u64, b: u64) -> u64 {
        (f64::from_bits(a) - f64::from_bits(b)).to_bits()
    }
    fn real_mul(&self, a: u64, b: u64) -> u64 {
        (f64::from_bits(a) * f64::from_bits(b)).to_bits()
    }
    fn real_div(&self, a: u64, b: u64) -> u64 {
        (f64::from_bits(a) / f64::from_bits(b)).to_bits()
    }
    fn real_rem(&self, a: u64, b: u64) -> u64 {
        (f64::from_bits(a) % f64::from_bits(b)).to_bits()
    }
    fn real_floor_div(&self, a: u64, b: u64) -> u64 {
        (f64::from_bits(a) / f64::from_bits(b)).floor().to_bits()
    }
    fn real_pow(&self, a: u64, b: u64) -> u64 {
        f64::from_bits(a).powf(f64::from_bits(b)).to_bits()
    }
    fn real_eq(&self, a: u64, b: u64) -> bool {
        f64::from_bits(a) == f64::from_bits(b)
    }
    fn real_close(&self, a: u64, b: u64) -> bool {
        (f64::from_bits(a) - f64::from_bits(b)).abs() < f64::EPSILON
    }
    fn real_lt(&self, a: u64, b: u64) -> bool {
        f64::from_bits(a) < f64::from_bits(b)
    }
    fn real_le(&self, a: u64, b: u64) -> bool {
        f64::from_bits(a) <= f64::from_bits(b)
    }
    fn real_to_text(&self, r: u64) -> String {
        f64::from_bits(r).to_string()
    }
    fn real_debug_text(&self, r: u64) -> String {
        format!("{:?}", f64::from_bits(r))
    }
    fn real_parse(&self, s: &str) -> Option<u64> {
        s.parse::<f64>().ok().map(|x| x.to_bits())
    }
    fn call_builtin(&mut self, name: &str, args: &Vec<Value>) -> Result<Option<Value>, CPSError> {
        match (name, args.as_slice()) {
            ("LENGTH", [Value::String(s)]) => Ok(Some(Value::Integer(s.chars().count() as i64))),
            ("UCASE", [Value::String(s)]) => Ok(Some(Value::String(s.to_uppercase()))),
            ("RAND", _) => {
                self.rand_calls += 1;
                Ok(Some(Value::Real(0.25f64.to_bits())))
            }
            _ => Err(CPSError {
                error_type: ErrorType::Runtime,
                message: format!("bad call of {}", name),
                hint: None,
                line: 0,
                column: 0,
                source: None,
            }),
        }
    }
}

fn host() -> ScriptHost {
    ScriptHost { rand_calls: 0 }
}

fn lit_int(n: i64) -> Expr {
    Expr::Literal(Value::Integer(n))
}

fn text(s: &str) -> Expr {
    Expr::Literal(Value::String(s.to_string()))
}

fn var(name: &str) -> Expr {
    Expr::Literal(Value::Identifier(name.to_string()))
}

fn binary(left: Expr, operator: TokenType, right: Expr) -> Expr {
    Expr::Binary(BinaryExpr {
        left: Box::new(Ast::Expression(left)),
        operator,
        right: Box::new(Ast::Expression(right)),
    })
}

fn call(name: &str, arguments: Vec<Expr>) -> Expr {
    Expr::Call { name: name.to_string(), arguments }
}

fn declare(name: &str, type_: Type) -> Stmt {
    Stmt::Decleration { identifier: name.to_string(), type_ }
}

fn assign(name: &str, value: Expr) -> Stmt {
    Stmt::Assignment { identifier: name.to_string(), array_index: None, value: Ast::Expression(value) }
}

fn output(e: Expr) -> Stmt {
    Stmt::Output { target: e }
}

fn block(statements: Vec<Stmt>) -> BlockStmt {
    BlockStmt { statements }
}

fn program(statements: Vec<Stmt>) -> Vec<Ast> {
    statements.into_iter().map(|s| Ast::Stmt(Box::new(s))).collect()
}

fn context(inputs: &[&str], output_skip: usize) -> ReplayContext {
    let mut ctx = ReplayContext::new(inputs.iter().map(|s| s.to_string()).collect());
    ctx.output_skip = output_skip;
    ctx
}

/// Runs a program from the start again and again, showing one more output
/// each time, as an embedding does; gives the outputs and the final result.
fn run_all(statements: fn() -> Vec<Stmt>, inputs: &[&str]) -> (Vec<String>, Result<(), CPSError>) {
    let mut outputs = Vec::new();
    loop {
        let mut interp = Interpreter::new_replay(context(inputs, outputs.len()), host());
        let r = interp.interpret(program(statements()));
        match r {
            Err(CPSError { error_type: ErrorType::StepOutput(line), .. }) => outputs.push(line),
            other => return (outputs, other),
        }
    }
}

fn step_output(r: Result<(), CPSError>) -> String {
    match r {
        Err(CPSError { error_type: ErrorType::StepOutput(line), .. }) => line,
        Err(e) => panic!("expected an output, got error {}", e.message),
        Ok(()) => panic!("expected an output, got success"),
    }
}

fn runtime_message(r: Result<(), CPSError>) -> String {
    match r {
        Err(CPSError { error_type: ErrorType::Runtime, message, .. }) => message,
        Err(_) => panic!("expected a runtime error, got another signal"),
        Ok(()) => panic!("expected a runtime error, got success"),
    }
}

fn int_value(v: Option<Value>) -> i64 {
    match v {
        Some(Value::Integer(n)) => n,
        _ => panic!("not an integer"),
    }
}

#[test]
fn an_empty_program_does_nothing() {
    let mut interp = Interpreter::new(host());
    assert!(interp.interpret(Vec::new()).is_ok());
    assert_eq!(interp.environment().depth(), 1);
}

#[test]
fn output_stops_the_run_with_its_line_until_it_has_been_shown() {
    let prog = || program(vec![declare("x", Type::Integer), assign("x", lit_int(5)), output(var("x"))]);
    let mut first = Interpreter::new(host());
    assert_eq!(step_output(first.interpret(prog())), "5");
    let mut again = Interpreter::new_replay(context(&[], 1), host());
    assert!(again.interpret(prog()).is_ok());
    assert_eq!(int_value(again.environment().get("x")), 5);
    assert_eq!(again.replay_context().output_skip, 0);
}

#[test]
fn input_greets_the_user() {
    fn greet() -> Vec<Stmt> {
        vec![
            declare("name", Type::String),
            output(text("Enter your name: ")),
            Stmt::Input { identifier: Box::new(var("name")) },
            output(binary(binary(text("Hello, "), TokenType::Ampersand, var("name")), TokenType::Ampersand, text("!"))),
        ]
    }
    let (outputs, result) = run_all(greet, &[]);
    assert_eq!(outputs, vec!["Enter your name: "]);
    match result {
        Err(CPSError { error_type: ErrorType::StepNeedsInput(v), .. }) => assert_eq!(v, "name"),
        _ => panic!("expected a request for input"),
    }
    let (outputs, result) = run_all(greet, &["World"]);
    assert!(result.is_ok());
    assert_eq!(outputs, vec!["Enter your name: ", "Hello, World!"]);
}

#[test]
fn input_is_read_as_the_type_of_the_variable() {
    let prog = |ty: Type| program(vec![declare("v", ty), Stmt::Input { identifier: Box::new(var("v")) }]);
    let mut i = Interpreter::new_replay(context(&["42"], 0), host());
    assert!(i.interpret(prog(Type::Integer)).is_ok());
    assert_eq!(int_value(i.environment().get("v")), 42);
    assert_eq!(i.replay_context().input_pos, 1);

    let mut i = Interpreter::new_replay(context(&["abc"], 0), host());
    assert_eq!(runtime_message(i.interpret(prog(Type::Integer))), "Expected an integer for variable 'v', got: abc");

    let mut i = Interpreter::new_replay(context(&["TRUE"], 0), host());
    assert!(i.interpret(prog(Type::Boolean)).is_ok());
    assert!(matches!(i.environment().get("v"), Some(Value::Boolean(true))));

    let mut i = Interpreter::new_replay(context(&["maybe"], 0), host());
    assert_eq!(
        runtime_message(i.interpret(prog(Type::Boolean))),
        "Expected 'true' or 'false' for variable 'v', got: maybe"
    );

    let mut i = Interpreter::new_replay(context(&["xy"], 0), host());
    assert_eq!(runtime_message(i.interpret(prog(Type::Char))), "Expected a single character for variable 'v', got: xy");

    let mut i = Interpreter::new_replay(context(&["2.5"], 0), host());
    assert!(i.interpret(prog(Type::Real)).is_ok());
    assert!(matches!(i.environment().get("v"), Some(Value::Real(b)) if f64::from_bits(b) == 2.5));

    let mut i = Interpreter::new_replay(context(&["1"], 0), host());
    let e = runtime_message(i.interpret(program(vec![Stmt::Input { identifier: Box::new(var("nope")) }])));
    assert_eq!(e, "Undefined variable 'nope'");
}

#[test]
fn input_into_an_array_element() {
    let arr = Type::Array(ArrayType {
        lower_bound: Box::new(lit_int(1)),
        upper_bound: Box::new(lit_int(3)),
        bounds_2d: None,
        base_type: Box::new(Type::Integer),
    });
    let prog = program(vec![
        declare("a", arr),
        Stmt::Input {
            identifier: Box::new(Expr::ArrayAccess { name: "a".to_string(), index: Box::new(lit_int(2)), col: None }),
        },
    ]);
    let mut i = Interpreter::new_replay(context(&["17"], 0), host());
    assert!(i.interpret(prog).is_ok());
    assert_eq!(int_value(i.environment().get_array_element("a", 2, None).ok()), 17);
}

#[test]
fn a_declared_variable_starts_with_the_default_of_its_type() {
    let mut i = Interpreter::new(host());
    let prog = program(vec![
        declare("n", Type::Integer),
        declare("s", Type::String),
        declare("b", Type::Boolean),
        declare("c", Type::Char),
        declare("r", Type::Real),
    ]);
    assert!(i.interpret(prog).is_ok());
    let env = i.environment();
    assert_eq!(int_value(env.get("n")), 0);
    assert!(matches!(env.get("s"), Some(Value::String(s)) if s.is_empty()));
    assert!(matches!(env.get("b"), Some(Value::Boolean(false))));
    assert!(matches!(env.get("c"), Some(Value::Char('\0'))));
    assert!(matches!(env.get("r"), Some(Value::Real(0))));
}

#[test]
fn arrays_are_declared_with_their_bounds_and_indexed() {
    let arr = Type::Array(ArrayType {
        lower_bound: Box::new(lit_int(1)),
        upper_bound: Box::new(lit_int(3)),
        bounds_2d: Some((Box::new(lit_int(0)), Box::new(lit_int(1)))),
        base_type: Box::new(Type::Integer),
    });
    let prog = program(vec![
        declare("m", arr),
        Stmt::Assignment {
            identifier: "m".to_string(),
            array_index: Some((Box::new(lit_int(3)), Some(Box::new(lit_int(1))))),
            value: Ast::Expression(lit_int(7)),
        },
        output(Expr::ArrayAccess { name: "m".to_string(), index: Box::new(lit_int(3)), col: Some(Box::new(lit_int(1))) }),
    ]);
    let mut i = Interpreter::new(host());
    assert_eq!(step_output(i.interpret(prog)), "7");
    match i.environment().get("m") {
        Some(Value::Array { array, lower_bound, bounds_2d }) => {
            assert_eq!(array.len(), 6);
            assert_eq!(lower_bound, 1);
            assert_eq!(bounds_2d, Some((0, 1)));
        }
        _ => panic!("expected an array"),
    }
}

#[test]
fn array_bounds_in_the_wrong_order_are_refused() {
    let arr = Type::Array(ArrayType {
        lower_bound: Box::new(lit_int(5)),
        upper_bound: Box::new(lit_int(1)),
        bounds_2d: None,
        base_type: Box::new(Type::Integer),
    });
    let mut i = Interpreter::new(host());
    assert_eq!(
        runtime_message(i.interpret(program(vec![declare("a", arr)]))),
        "Array upper bound 1 cannot be less than lower bound 5"
    );
}

#[test]
fn negative_array_indices_are_refused_when_reading() {
    let arr = Type::Array(ArrayType {
        lower_bound: Box::new(lit_int(0)),
        upper_bound: Box::new(lit_int(2)),
        bounds_2d: None,
        base_type: Box::new(Type::Integer),
    });
    let prog = program(vec![
        declare("a", arr),
        output(Expr::ArrayAccess { name: "a".to_string(), index: Box::new(lit_int(-1)), col: None }),
    ]);
    let mut i = Interpreter::new(host());
    assert_eq!(runtime_message(i.interpret(prog)), "Array index cannot be negative for 'a': -1");
}

#[test]
fn assignment_checks_the_type_of_the_variable() {
    let mut i = Interpreter::new(host());
    let r = i.interpret(program(vec![declare("x", Type::Integer), assign("x", text("a"))]));
    assert_eq!(runtime_message(r), "Type mismatch: cannot assign String to variable 'x' of type Integer");
    assert_eq!(int_value(i.environment().get("x")), 0);

    let mut i = Interpreter::new(host());
    let r = i.interpret(program(vec![declare("x", Type::Real), assign("x", lit_int(3))]));
    assert!(r.is_ok());
    assert!(matches!(i.environment().get("x"), Some(Value::Real(b)) if f64::from_bits(b) == 3.0));

    let mut i = Interpreter::new(host());
    let r = i.interpret(program(vec![
        declare("x", Type::Integer),
        assign("x", Expr::Literal(Value::Real(4.0f64.to_bits()))),
    ]));
    assert!(r.is_ok());
    assert_eq!(int_value(i.environment().get("x")), 4);

    let mut i = Interpreter::new(host());
    assert_eq!(runtime_message(i.interpret(program(vec![assign("y", lit_int(1))]))), "Undefined variable 'y'");
}

#[test]
fn a_constant_cannot_be_assigned() {
    let mut i = Interpreter::new(host());
    let r = i.interpret(program(vec![
        Stmt::Constant { identifier: "PI".to_string(), value: Value::Integer(3) },
        assign("PI", lit_int(4)),
    ]));
    assert_eq!(runtime_message(r), "Failed to assign value to 'PI': Cannot modify constant 'PI'");
    assert_eq!(int_value(i.environment().get("PI")), 3);
}

#[test]
fn for_loops_run_over_an_inclusive_range() {
    fn sum() -> Vec<Stmt> {
        vec![
            declare("total", Type::Integer),
            Stmt::For {
                identifier: "i".to_string(),
                start: lit_int(1),
                end: lit_int(4),
                body: block(vec![assign("total", binary(var("total"), TokenType::Plus, var("i")))]),
            },
            output(var("total")),
            output(var("i")),
        ]
    }
    let (outputs, result) = run_all(sum, &[]);
    assert!(result.is_ok());
    assert_eq!(outputs, vec!["10", "4"]);
}

#[test]
fn a_for_loop_with_an_empty_range_only_defines_its_variable() {
    let mut i = Interpreter::new(host());
    let r = i.interpret(program(vec![Stmt::For {
        identifier: "k".to_string(),
        start: lit_int(5),
        end: lit_int(1),
        body: block(vec![output(text("never"))]),
    }]));
    assert!(r.is_ok());
    assert_eq!(int_value(i.environment().get("k")), 5);
}

#[test]
fn while_and_repeat_loops() {
    fn count() -> Vec<Stmt> {
        vec![
            declare("n", Type::Integer),
            Stmt::While {
                condition: binary(var("n"), TokenType::LessThan, lit_int(3)),
                body: block(vec![assign("n", binary(var("n"), TokenType::Plus, lit_int(1)))]),
            },
            output(var("n")),
            Stmt::Repeat {
                body: block(vec![assign("n", binary(var("n"), TokenType::Minus, lit_int(2)))]),
                until: binary(var("n"), TokenType::LessEqual, lit_int(0)),
            },
            output(var("n")),
        ]
    }
    let (outputs, result) = run_all(count, &[]);
    assert!(result.is_ok());
    assert_eq!(outputs, vec!["3", "-1"]);
}

#[test]
fn conditions_must_be_booleans() {
    let mut i = Interpreter::new(host());
    let r = i.interpret(program(vec![Stmt::If { condition: lit_int(1), then_branch: block(vec![]), else_branch: None }]));
    assert_eq!(runtime_message(r), "Condition in IF statement did not evaluate to a boolean: 1");
    let mut i = Interpreter::new(host());
    let r = i.interpret(program(vec![Stmt::While { condition: text("x"), body: block(vec![]) }]));
    assert_eq!(runtime_message(r), "Condition in WHILE statement did not evaluate to a boolean: \"x\"");
}

#[test]
fn if_takes_the_branch_that_the_condition_selects() {
    fn choose() -> Vec<Stmt> {
        vec![
            Stmt::If {
                condition: binary(lit_int(2), TokenType::GreaterThan, lit_int(1)),
                then_branch: block(vec![output(text("yes"))]),
                else_branch: Some(block(vec![output(text("no"))])),
            },
            Stmt::If {
                condition: Expr::Literal(Value::Boolean(false)),
                then_branch: block(vec![output(text("yes"))]),
                else_branch: Some(block(vec![output(text("no"))])),
            },
        ]
    }
    let (outputs, result) = run_all(choose, &[]);
    assert!(result.is_ok());
    assert_eq!(outputs, vec!["yes", "no"]);
}

#[test]
fn case_selects_the_first_matching_arm() {
    fn grade() -> Vec<Stmt> {
        let mut statements = Vec::new();
        for score in [95i64, 72, 10] {
            statements.push(Stmt::Case {
                identifier: Box::new(lit_int(score)),
                cases: vec![
                    (CaseCondition::Range(lit_int(90), lit_int(100)), block(vec![output(text("A"))])),
                    (CaseCondition::Range(lit_int(70), lit_int(89)), block(vec![output(text("B"))])),
                    (CaseCondition::Single(lit_int(72)), block(vec![output(text("never"))])),
                ],
                otherwise: Some(block(vec![output(text("F"))])),
            });
        }
        statements
    }
    let (outputs, result) = run_all(grade, &[]);
    assert!(result.is_ok());
    assert_eq!(outputs, vec!["A", "B", "F"]);
}

#[test]
fn case_ranges_of_different_kinds_are_refused() {
    let mut i = Interpreter::new(host());
    let r = i.interpret(program(vec![Stmt::Case {
        identifier: Box::new(lit_int(1)),
        cases: vec![(CaseCondition::Range(text("a"), text("z")), block(vec![]))],
        otherwise: None,
    }]));
    match r {
        Err(e) => {
            assert_eq!(e.message, "Invalid range comparison: \"a\" TO \"z\" for value 1");
            assert_eq!(e.hint.as_deref(), Some("Range values must be compatible types"));
        }
        Ok(()) => panic!("expected an error"),
    }
}

fn square_function() -> Stmt {
    Stmt::Function {
        name: "Square".to_string(),
        definition: Rc::new(Function {
            parameters: vec![("n".to_string(), Type::Integer, PassingValue::ByVal)],
            return_type: Some(Type::Integer),
            body: block(vec![Stmt::Return { value: binary(var("n"), TokenType::Asterisk, var("n")) }]),
        }),
    }
}

#[test]
fn functions_return_values_and_leave_their_scope() {
    fn squares() -> Vec<Stmt> {
        vec![square_function(), output(call("Square", vec![lit_int(4)])), output(binary(call("Square", vec![lit_int(3)]), TokenType::Plus, lit_int(1)))]
    }
    let (outputs, result) = run_all(squares, &[]);
    assert!(result.is_ok());
    assert_eq!(outputs, vec!["16", "10"]);
    let mut i = Interpreter::new_replay(context(&[], 2), host());
    assert!(i.interpret(program(squares())).is_ok());
    assert_eq!(i.environment().depth(), 1);
    assert!(i.environment().get("n").is_none());
}

#[test]
fn calls_are_checked_against_the_definition() {
    let mut i = Interpreter::new(host());
    let r = i.interpret(program(vec![square_function(), output(call("Square", vec![]))]));
    assert_eq!(runtime_message(r), "Function 'Square' expected 1 arguments, got 0");
    let mut i = Interpreter::new(host());
    let r = i.interpret(program(vec![square_function(), output(call("Square", vec![text("x")]))]));
    assert_eq!(runtime_message(r), "Type mismatch for parameter 'n': expected Integer, got \"x\"");
    let mut i = Interpreter::new(host());
    let r = i.interpret(program(vec![output(call("Cube", vec![lit_int(2)]))]));
    assert_eq!(runtime_message(r), "Undefined function: Cube");
}

#[test]
fn a_function_without_return_and_a_procedure_with_one_are_errors() {
    let f = Stmt::Function {
        name: "F".to_string(),
        definition: Rc::new(Function { parameters: vec![], return_type: Some(Type::Integer), body: block(vec![]) }),
    };
    let mut i = Interpreter::new(host());
    match i.interpret(program(vec![f, Stmt::Call { name: "F".to_string(), arguments: vec![] }])) {
        Err(e) => {
            assert_eq!(e.message, "Function 'F' must return a value of type Integer");
            assert_eq!(e.hint.as_deref(), Some("Add a RETURN statement"));
        }
        Ok(()) => panic!("expected an error"),
    }
    let p = Stmt::Procedure {
        name: "P".to_string(),
        definition: Rc::new(Function {
            parameters: vec![],
            return_type: None,
            body: block(vec![Stmt::Return { value: lit_int(1) }]),
        }),
    };
    let mut i = Interpreter::new(host());
    match i.interpret(program(vec![p, Stmt::Call { name: "P".to_string(), arguments: vec![] }])) {
        Err(e) => {
            assert_eq!(e.message, "Procedure 'P' should not return a value");
            assert_eq!(e.hint.as_deref(), Some("Use FUNCTION instead of PROCEDURE if you need to return a value"));
        }
        Ok(()) => panic!("expected an error"),
    }
}

#[test]
fn builtins_cannot_be_redefined() {
    assert!(is_builtin("LENGTH"));
    assert!(is_builtin("RAND"));
    assert!(!is_builtin("Length"));
    let def = Rc::new(Function { parameters: vec![], return_type: Some(Type::Integer), body: block(vec![]) });
    let mut i = Interpreter::new(host());
    let r = i.interpret(program(vec![Stmt::Function { name: "LENGTH".to_string(), definition: def.clone() }]));
    assert_eq!(runtime_message(r), "Cannot redefine builtin function: LENGTH");
    let mut i = Interpreter::new(host());
    let r = i.interpret(program(vec![Stmt::Procedure { name: "MID".to_string(), definition: def }]));
    assert_eq!(runtime_message(r), "Cannot redefine builtin function as procedure: MID");
}

#[test]
fn builtins_are_asked_of_the_host() {
    let mut i = Interpreter::new(host());
    assert_eq!(step_output(i.interpret(program(vec![output(call("LENGTH", vec![text("hello")]))]))), "5");
    let mut i = Interpreter::new(host());
    assert_eq!(step_output(i.interpret(program(vec![output(call("UCASE", vec![text("abc")]))]))), "ABC");
}

#[test]
fn rand_replays_the_values_an_earlier_run_drew() {
    let prog = || program(vec![declare("r", Type::Real), assign("r", call("RAND", vec![lit_int(1)]))]);
    let mut first = Interpreter::new(host());
    assert!(first.interpret(prog()).is_ok());
    let (ctx, h) = first.into_parts();
    assert_eq!(h.rand_calls, 1);
    assert_eq!(ctx.rand_log.len(), 1);
    let mut replay = ReplayContext::new(Vec::new());
    replay.rand_log = ctx.rand_log;
    let mut second = Interpreter::new_replay(replay, host());
    assert!(second.interpret(prog()).is_ok());
    assert!(matches!(second.environment().get("r"), Some(Value::Real(b)) if f64::from_bits(b) == 0.25));
    let (_, h) = second.into_parts();
    assert_eq!(h.rand_calls, 0);
}

#[test]
fn division_errors_are_reported() {
    let mut i = Interpreter::new(host());
    let r = i.interpret(program(vec![output(binary(lit_int(1), TokenType::Div, lit_int(0)))]));
    assert_eq!(runtime_message(r), "Division by zero");
    let mut i = Interpreter::new(host());
    let r = i.interpret(program(vec![output(binary(lit_int(i64::MIN), TokenType::Div, lit_int(-1)))]));
    assert_eq!(runtime_message(r), "Integer overflow in DIV");
    let mut i = Interpreter::new(host());
    let r = i.interpret(program(vec![output(binary(lit_int(i64::MIN), TokenType::Mod, lit_int(-1)))]));
    assert_eq!(runtime_message(r), "Integer overflow in MOD");
}

#[test]
fn mixed_operands_are_made_reals() {
    let mut i = Interpreter::new(host());
    assert_eq!(step_output(i.interpret(program(vec![output(binary(lit_int(1), TokenType::Plus, Expr::Literal(Value::Real(0.5f64.to_bits()))))]))), "1.5");
    let mut i = Interpreter::new(host());
    assert_eq!(step_output(i.interpret(program(vec![output(binary(lit_int(7), TokenType::ForwardSlash, lit_int(2)))]))), "3.5");
}

#[test]
fn files_written_can_be_read_back() {
    fn roundtrip() -> Vec<Stmt> {
        vec![
            declare("line", Type::String),
            Stmt::OpenFile { filename: Box::new(text("notes.txt")), mode: FileMode::Write },
            Stmt::WriteFile { filename: Box::new(text("notes.txt")), value: Box::new(text("first")) },
            Stmt::WriteFile { filename: Box::new(text("notes.txt")), value: Box::new(lit_int(2)) },
            Stmt::CloseFile { filename: Box::new(text("notes.txt")) },
            Stmt::OpenFile { filename: Box::new(text("notes.txt")), mode: FileMode::Read },
            Stmt::ReadFile { filename: Box::new(text("notes.txt")), target: Box::new(var("line")) },
            output(var("line")),
            output(Expr::EOF { filename: "notes.txt".to_string() }),
            Stmt::ReadFile { filename: Box::new(text("notes.txt")), target: Box::new(var("line")) },
            output(var("line")),
            output(Expr::EOF { filename: "notes.txt".to_string() }),
        ]
    }
    let (outputs, result) = run_all(roundtrip, &[]);
    assert!(result.is_ok());
    assert_eq!(outputs, vec!["first", "false", "2", "true"]);
}

#[test]
fn reading_a_file_that_was_never_written_fails() {
    let mut i = Interpreter::new(host());
    let r = i.interpret(program(vec![Stmt::OpenFile { filename: Box::new(text("missing.txt")), mode: FileMode::Read }]));
    assert_eq!(runtime_message(r), "File 'missing.txt' not found; it must be preloaded before opening for read");
    let mut i = Interpreter::new(host());
    let r = i.interpret(program(vec![Stmt::OpenFile { filename: Box::new(lit_int(3)), mode: FileMode::Read }]));
    assert_eq!(runtime_message(r), "Filename in OPENFILE statement must evaluate to a string, got: 3");
}

#[test]
fn preloaded_files_can_be_read() {
    let mut ctx = ReplayContext::new(Vec::new());
    ctx.preload_file("in.txt".to_string(), vec!["alpha".to_string(), "beta".to_string()]);
    let mut i = Interpreter::new_replay(ctx, host());
    let r = i.interpret(program(vec![
        declare("s", Type::String),
        Stmt::OpenFile { filename: Box::new(text("in.txt")), mode: FileMode::Read },
        Stmt::ReadFile { filename: Box::new(text("in.txt")), target: Box::new(var("s")) },
        Stmt::ReadFile { filename: Box::new(text("in.txt")), target: Box::new(var("s")) },
    ]));
    assert!(r.is_ok());
    assert!(matches!(i.environment().get("s"), Some(Value::String(s)) if s == "beta"));
}

#[test]
fn undefined_identifiers_are_reported() {
    let mut i = Interpreter::new(host());
    assert_eq!(runtime_message(i.interpret(vec![Ast::Identifier("ghost".to_string())])), "Undefined identifier: ghost");
    let mut i = Interpreter::new(host());
    assert_eq!(runtime_message(i.interpret(program(vec![output(var("ghost"))]))), "Undefined identifier: ghost");
}

#[test]
fn a_read_loop_stops_at_the_end_of_the_file() {
    let mut ctx = ReplayContext::new(Vec::new());
    ctx.preload_file("nums.txt".to_string(), vec!["3".to_string(), "4".to_string(), "5".to_string()]);
    let mut i = Interpreter::new_replay(ctx, host());
    let name = || Box::new(binary(text("nums"), TokenType::Ampersand, text(".txt")));
    let r = i.interpret(program(vec![
        declare("line", Type::String),
        declare("count", Type::Integer),
        Stmt::OpenFile { filename: name(), mode: FileMode::Read },
        Stmt::While {
            condition: binary(Expr::EOF { filename: "nums.txt".to_string() }, TokenType::Equal, Expr::Literal(Value::Boolean(false))),
            body: block(vec![
                Stmt::ReadFile { filename: name(), target: Box::new(var("line")) },
                assign("count", binary(var("count"), TokenType::Plus, lit_int(1))),
            ]),
        },
        Stmt::CloseFile { filename: name() },
    ]));
    assert!(r.is_ok());
    assert_eq!(int_value(i.environment().get("count")), 3);
    assert!(matches!(i.environment().get("line"), Some(Value::String(s)) if s == "5"));
}

#[test]
fn a_procedure_changes_a_global_and_its_parameters_vanish() {
    let add_to_total = Stmt::Procedure {
        name: "AddToTotal".to_string(),
        definition: Rc::new(Function {
            parameters: vec![("amount".to_string(), Type::Integer, PassingValue::ByVal)],
            return_type: None,
            body: block(vec![assign("total", binary(var("total"), TokenType::Plus, var("amount")))]),
        }),
    };
    let mut i = Interpreter::new(host());
    let r = i.interpret(program(vec![
        declare("total", Type::Integer),
        add_to_total,
        Stmt::Call { name: "AddToTotal".to_string(), arguments: vec![lit_int(5)] },
        Stmt::Call { name: "AddToTotal".to_string(), arguments: vec![binary(lit_int(2), TokenType::Asterisk, lit_int(3))] },
    ]));
    assert!(r.is_ok());
    assert_eq!(int_value(i.environment().get("total")), 11);
    assert!(i.environment().get("amount").is_none());
    assert_eq!(i.environment().depth(), 1);
}

#[test]
fn array_elements_are_assigned_at_computed_indices() {
    let array_type = Type::Array(ArrayType {
        lower_bound: Box::new(lit_int(1)),
        upper_bound: Box::new(binary(lit_int(2), TokenType::Asterisk, lit_int(2))),
        bounds_2d: None,
        base_type: Box::new(Type::Integer),
    });
    let mut i = Interpreter::new(host());
    let r = i.interpret(program(vec![
        declare("a", array_type),
        Stmt::For {
            identifier: "k".to_string(),
            start: lit_int(1),
            end: lit_int(4),
            body: block(vec![Stmt::Assignment {
                identifier: "a".to_string(),
                array_index: Some((Box::new(var("k")), None)),
                value: Ast::Expression(binary(var("k"), TokenType::Asterisk, lit_int(10))),
            }]),
        },
    ]));
    assert!(r.is_ok());
    match i.environment().get("a") {
        Some(Value::Array { array, lower_bound, bounds_2d }) => {
            assert_eq!(lower_bound, 1);
            assert!(bounds_2d.is_none());
            let got: Vec<i64> = array.iter().map(|v| match v { Value::Integer(n) => *n, _ => -1 }).collect();
            assert_eq!(got, vec![10, 20, 30, 40]);
        }
        _ => panic!("not an array"),
    }
    let mut i = Interpreter::new(host());
    let r = i.interpret(program(vec![
        declare("b", Type::Array(ArrayType {
            lower_bound: Box::new(lit_int(0)),
            upper_bound: Box::new(lit_int(1)),
            bounds_2d: None,
            base_type: Box::new(Type::Integer),
        })),
        Stmt::Assignment {
            identifier: "b".to_string(),
            array_index: Some((Box::new(text("one")), None)),
            value: Ast::Expression(lit_int(1)),
        },
    ]));
    assert_eq!(runtime_message(r), "Array index must be an integer, got: \"one\"");
}

#[test]
fn calls_give_bounds_indices_and_case_subjects() {
    let three = Rc::new(Function {
        parameters: vec![],
        return_type: Some(Type::Integer),
        body: block(vec![Stmt::Return { value: lit_int(3) }]),
    });
    let statements = vec![
        Stmt::Function { name: "Three".to_string(), definition: three },
        declare("a", Type::Array(ArrayType {
            lower_bound: Box::new(lit_int(1)),
            upper_bound: Box::new(call("Three", vec![])),
            bounds_2d: None,
            base_type: Box::new(Type::Integer),
        })),
        Stmt::For {
            identifier: "k".to_string(),
            start: lit_int(1),
            end: call("Three", vec![]),
            body: block(vec![Stmt::Assignment {
                identifier: "a".to_string(),
                array_index: Some((Box::new(var("k")), None)),
                value: Ast::Expression(binary(var("k"), TokenType::Asterisk, lit_int(7))),
            }]),
        },
        Stmt::Assignment {
            identifier: "a".to_string(),
            array_index: Some((Box::new(call("Three", vec![])), None)),
            value: Ast::Expression(lit_int(100)),
        },
        Stmt::Case {
            identifier: Box::new(call("Three", vec![])),
            cases: vec![
                (CaseCondition::Single(lit_int(2)), block(vec![output(text("two"))])),
                (CaseCondition::Range(lit_int(3), call("Three", vec![])), block(vec![output(text("three"))])),
            ],
            otherwise: None,
        },
    ];
    let mut i = Interpreter::new(host());
    assert_eq!(step_output(i.interpret(program(statements))), "three");
    match i.environment().get("a") {
        Some(Value::Array { array, .. }) => {
            let got: Vec<i64> = array.iter().map(|v| match v { Value::Integer(n) => *n, _ => -1 }).collect();
            assert_eq!(got, vec![7, 14, 100]);
        }
        _ => panic!("not an array"),
    }
}

#[test]
fn a_call_among_the_arguments_leaves_the_bound_parameters_alone() {
    let g = Rc::new(Function {
        parameters: vec![("X".to_string(), Type::Integer, PassingValue::ByVal)],
        return_type: Some(Type::Integer),
        body: block(vec![Stmt::Return { value: var("X") }]),
    });
    let f = Rc::new(Function {
        parameters: vec![
            ("A".to_string(), Type::Integer, PassingValue::ByVal),
            ("B".to_string(), Type::Integer, PassingValue::ByVal),
        ],
        return_type: Some(Type::Integer),
        body: block(vec![Stmt::Return { value: binary(binary(var("A"), TokenType::Asterisk, lit_int(10)), TokenType::Plus, var("B")) }]),
    });
    let mut i = Interpreter::new(host());
    let r = i.interpret(program(vec![
        Stmt::Function { name: "G".to_string(), definition: g },
        Stmt::Function { name: "F".to_string(), definition: f },
        output(call("F", vec![lit_int(5), call("G", vec![lit_int(1)])])),
    ]));
    assert_eq!(step_output(r), "51");
}

#[test]
fn reals_assigned_to_variables() {
    let real = |x: f64| Expr::Literal(Value::Real(x.to_bits()));
    let mut i = Interpreter::new(host());
    let r = i.interpret(program(vec![declare("s", Type::String), assign("s", real(5.0))]));
    assert!(runtime_message(r).starts_with("Type mismatch"));
    assert!(matches!(i.environment().get("s"), Some(Value::String(t)) if t.is_empty()));
    let mut i = Interpreter::new(host());
    let r = i.interpret(program(vec![declare("n", Type::Integer), assign("n", real(5.0))]));
    assert!(r.is_ok());
    assert_eq!(int_value(i.environment().get("n")), 5);
    let mut i = Interpreter::new(host());
    let r = i.interpret(program(vec![declare("x", Type::Real), assign("x", real(2.5))]));
    assert!(r.is_ok());
    assert!(matches!(i.environment().get("x"), Some(Value::Real(b)) if f64::from_bits(b) == 2.5));
}

#[test]
fn an_upper_bound_below_the_lower_is_refused() {
    let mut i = Interpreter::new(host());
    let r = i.interpret(program(vec![declare("a", Type::Array(ArrayType {
        lower_bound: Box::new(lit_int(5)),
        upper_bound: Box::new(lit_int(1)),
        bounds_2d: None,
        base_type: Box::new(Type::Integer),
    }))]));
    assert_eq!(runtime_message(r), "Array upper bound 1 cannot be less than lower bound 5");
    assert!(i.environment().get("a").is_none());
}
