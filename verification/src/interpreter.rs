//! The evaluator: runs a program, statement by statement, against an
//! environment. Output, input, random values and files go through the
//! replay context, so that a run is a function of that context: the
//! embedding shows an output or supplies an input and runs again.

use crate::display::{output_text, output_text_of, type_debug_text, value_debug_text};
use crate::environment::{Environment, EnvView, ScopeView};
use crate::errortype::{is_runtime, is_runtime_error, CPSError, ErrorType};
use crate::host::Host;
use crate::operators;
use crate::replay::{close_outcome, open_outcome, read_outcome, write_outcome, ReplayContext};
use crate::text::{concat2, concat3, concat4, int_to_string, str_equal, string_le, usize_to_string};
use crate::types::{
    check_if_type_can_be_converted, convert_input, convert_values_to_base_type,
    convert_values_to_compatible_types, initial_scalar_value, lemma_reported_types_are_literal, same_type,
    type_of_assigned, value_to_index, TypeFault,
};
use crate::value::{
    share_function, ArrayType, Ast, BinaryExpr, BlockStmt, CaseCondition, Expr, FileMode, Function, PassingValue, Stmt, TokenType,
    Type, Value, ValueV,
};
use std::rc::Rc;
use vstd::prelude::*;

verus! {

/// The names of the builtin routines, which programs cannot redefine.
pub open spec fn is_builtin_name(s: Seq<char>) -> bool {
    ||| s == "RIGHT"@
    ||| s == "LENGTH"@
    ||| s == "MID"@
    ||| s == "SUBSTRING"@
    ||| s == "LCASE"@
    ||| s == "UCASE"@
    ||| s == "INT"@
    ||| s == "RAND"@
}

/// Whether `name` is a builtin routine.
pub fn is_builtin(name: &str) -> (r: bool)
    ensures
        r == is_builtin_name(name@),
{
    str_equal(name, "RIGHT") || str_equal(name, "LENGTH") || str_equal(name, "MID") || str_equal(name, "SUBSTRING")
        || str_equal(name, "LCASE") || str_equal(name, "UCASE") || str_equal(name, "INT") || str_equal(name, "RAND")
}

/// How many steps a run may take before it is stopped.
pub const STEP_LIMIT: u64 = 0xffff_ffff_ffff_ffff;

fn step_limit_error() -> (e: CPSError)
    ensures
        is_runtime(e),
{
    CPSError::runtime(String::from_str("Evaluation step limit reached"))
}

/// The run goes on after this result: it succeeded, or a RETURN is
/// unwinding to the call that it ends.
pub open spec fn unwinds_normally<T>(r: Result<T, CPSError>) -> bool {
    r is Ok || (r matches Err(e) && e.error_type is Return)
}

/// What a literal evaluates to: scalars stand for themselves, an identifier
/// for its value, and other literals are errors.
pub open spec fn literal_result(r: Result<Value, CPSError>, lit: ValueV, env: EnvView) -> bool {
    match lit {
        ValueV::Identifier(name) => match (r, env.lookup(name)) {
            (Ok(v), Some(w)) => v@ == w,
            (Err(e), None) => is_runtime_error(e, "Undefined identifier: "@ + name) && e.hint is None,
            _ => false,
        },
        ValueV::Array { .. } | ValueV::Function(_) => r matches Err(e) && is_runtime(e) && e.hint is None,
        _ => r matches Ok(v) && v@ == lit,
    }
}

/// What a literal evaluates to: a scalar is itself, an identifier is the
/// value it names (an error where it names none), and any other literal is
/// an error.
pub open spec fn literal_value(lit: ValueV, env: EnvView) -> Result<ValueV, ()> {
    match lit {
        ValueV::Identifier(name) => match env.lookup(name) {
            Some(w) => Ok(w),
            None => Err(()),
        },
        ValueV::Array { .. } | ValueV::Function(_) => Err(()),
        v => Ok(v),
    }
}

/// Element `index` (and column `col`) of the array `name` holds; negative
/// indices, and those the array does not have, are errors.
pub open spec fn element_value(env: EnvView, name: Seq<char>, index: i64, col: Option<i64>) -> Result<ValueV, ()> {
    if index < 0 || (col matches Some(c) && c < 0) {
        Err(())
    } else {
        match env.element_result(
            name,
            index as usize,
            match col {
                Some(c) => Some(c as usize),
                None => None,
            },
        ) {
            Ok(w) => Ok(w),
            Err(_) => Err(()),
        }
    }
}

/// What EOF of the file `name` gives: whether the file has no line left to
/// read; a file that is not open is an error.
pub open spec fn eof_value(ctx: ReplayContext, name: Seq<char>) -> Result<ValueV, ()> {
    let fs = crate::replay::fs_view(ctx.virtual_fs);
    if fs.contains_key(name) {
        Ok(ValueV::Boolean(fs[name].read_pos >= fs[name].lines.len()))
    } else {
        Err(())
    }
}

/// The value of an expression built from literals, identifiers, binary
/// operators and array elements, as far as the host's reals play no part in
/// it (see `binary_result`): the left operand is evaluated first, an index
/// before a column, and the first error is the result; an index must be a
/// number; EOF tells whether an open file has no line left to read. `None`
/// where a real, a call or a statement decides it.
pub open spec fn expr_value(e: Expr, st: RunState) -> Option<Result<ValueV, ()>>
    decreases e,
{
    match e {
        Expr::ArrayAccess { name, index, col } => match expr_value(*index, st) {
            None => None,
            Some(Err(_)) => Some(Err(())),
            Some(Ok(ValueV::Integer(i))) => match col {
                None => Some(element_value(st.env, name@, i, None)),
                Some(c) => match expr_value(*c, st) {
                    None => None,
                    Some(Err(_)) => Some(Err(())),
                    Some(Ok(ValueV::Integer(j))) => Some(element_value(st.env, name@, i, Some(j))),
                    Some(Ok(ValueV::Real(_))) => None,
                    Some(Ok(_)) => Some(Err(())),
                },
            },
            Some(Ok(ValueV::Real(_))) => None,
            Some(Ok(_)) => Some(Err(())),
        },
        Expr::Literal(lit) => Some(literal_value(lit@, st.env)),
        Expr::Binary(b) => match ast_value(*b.left, st) {
            Some(Err(_)) => Some(Err(())),
            Some(Ok(l)) => match ast_value(*b.right, st) {
                Some(Err(_)) => Some(Err(())),
                Some(Ok(x)) => binary_result(b.operator, l, x),
                None => None,
            },
            None => None,
        },
        Expr::EOF { filename } => Some(eof_value(st.ctx, filename@)),
        _ => None,
    }
}

/// The value of a node as an operand (see `expr_value`).
pub open spec fn ast_value(a: Ast, st: RunState) -> Option<Result<ValueV, ()>>
    decreases a,
{
    match a {
        Ast::Expression(e) => expr_value(e, st),
        Ast::Identifier(name) => Some(
            match st.env.lookup(name@) {
                Some(w) => Ok(w),
                None => Err(()),
            },
        ),
        Ast::Stmt(_) => None,
    }
}

/// How deeply binary operators and array elements nest in an expression;
/// an EOF counts as one level.
pub open spec fn expr_depth(e: Expr) -> nat
    decreases e,
{
    match e {
        Expr::EOF { .. } => 1,
        Expr::ArrayAccess { index, col, .. } => {
            let l = expr_depth(*index);
            let x = match col {
                Some(c) => expr_depth(*c),
                None => 0,
            };
            1 + if l < x {
                x
            } else {
                l
            }
        },
        Expr::Binary(b) => {
            let l = ast_depth(*b.left);
            let x = ast_depth(*b.right);
            1 + if l < x {
                x
            } else {
                l
            }
        },
        _ => 0,
    }
}

/// How deeply binary operators nest in a node.
pub open spec fn ast_depth(a: Ast) -> nat
    decreases a,
{
    match a {
        Ast::Expression(e) => expr_depth(e),
        _ => 0,
    }
}

/// The steps that `fuel` allows are enough to evaluate `e`.
pub open spec fn within_steps(e: Expr, fuel: nat) -> bool {
    2 * expr_depth(e) <= fuel
}

/// `r` and `after` are what handing the output line `t` to the embedding
/// gives from `before`: an output already shown is passed over; otherwise
/// the run stops with the line.
pub open spec fn output_emitted(r: Result<(), CPSError>, before: ReplayContext, after: ReplayContext, t: Seq<char>) -> bool {
    if before.output_skip > 0 {
        r is Ok && after == (ReplayContext { output_skip: (before.output_skip - 1) as usize, ..before })
    } else {
        (r matches Err(e) && (e.error_type matches ErrorType::StepOutput(o) && o@ == t)) && after == before
    }
}

/// A value that stands for itself and holds no real: an integer, a string,
/// a boolean or a character.
pub open spec fn plain_scalar(v: ValueV) -> bool {
    v is Integer || v is Str || v is Boolean || v is Char
}

/// The model after `value` is stored at the address of `name`, when `name`
/// is bound and not constant; otherwise none.
pub open spec fn assigned_env(env: EnvView, name: Seq<char>, value: ValueV) -> Option<EnvView> {
    if env.is_constant(name) {
        None
    } else {
        match env.address_of(name) {
            Some(a) => Some(EnvView { heap: env.heap.insert(a, value), ..env }),
            None => None,
        }
    }
}

/// `r` and `after` are what storing `value` in `name` gives from `before`:
/// the value at its address, or an error that changes nothing.
pub open spec fn stored_in(r: Result<(), CPSError>, before: EnvView, after: EnvView, name: Seq<char>, value: ValueV) -> bool {
    match assigned_env(before, name, value) {
        Some(e) => r is Ok && after == e,
        None => r matches Err(err) && is_runtime(err) && err.hint is None && after == before,
    }
}

/// `r` and `after` are what storing `value` as element `index` (and column
/// `col`) of the array `name` holds gives from `before`.
pub open spec fn stored_in_element(
    r: Result<(), CPSError>,
    before: EnvView,
    after: EnvView,
    name: Seq<char>,
    index: usize,
    col: Option<usize>,
    value: ValueV,
) -> bool {
    match before.element_update(name, index, col, value) {
        Ok(h) => r is Ok && after == EnvView { heap: h, ..before },
        Err(_) => r matches Err(err) && is_runtime(err) && err.hint is None && after == before,
    }
}

/// What an assignment of `val` to `name` (or to one of its elements, when
/// `indexed`) stores, as far as it does not rest on the host's reals: the
/// value itself when its type is the variable's; a real for an integer
/// given to a `REAL` variable and an integer for a real given to an
/// `INTEGER` one; for an element, a value that fits the base type. Other
/// values are refused.
pub open spec fn assignment_result(r: Result<Value, CPSError>, env: EnvView, name: Seq<char>, val: ValueV, indexed: bool) -> bool {
    match env.type_result(name) {
        Err(text) => r matches Err(e) && crate::environment::is_error_text(e, text),
        Ok(t) => match crate::types::assigned_type(val) {
            Err(_) => r matches Err(e) && is_runtime(e),
            Ok(a) => if t is Integer && a is Real {
                r matches Ok(v) && v@ is Integer
            } else if t is Real && a is Integer {
                r matches Ok(v) && v@ is Real
            } else if a == t {
                r matches Ok(v) && v@ == val
            } else if indexed && t is Array {
                let base = *t->Array_0.base_type;
                crate::types::real_free(val) ==> if crate::types::fits(val, base) || a == base {
                    r matches Ok(v) && (if val is Integer && base is Real {
                        v@ is Real
                    } else {
                        v@ == val
                    })
                } else {
                    r matches Err(e) && is_runtime(e)
                }
            } else {
                r matches Err(e) && is_runtime(e)
            },
        },
    }
}

/// What assigning the literal `lit`, an integer, real, string, boolean or
/// character, to the variable `name` does: it is stored when the variable
/// holds its type; an integer is stored as a real in a `REAL` variable, and
/// a real as an integer in an `INTEGER` one (the host converts it); a
/// literal of another type is refused and changes nothing.
pub open spec fn literal_assignment(r: Result<(), CPSError>, before: EnvView, after: EnvView, name: Seq<char>, lit: ValueV) -> bool {
    match before.type_result(name) {
        Err(text) => r matches Err(e) && crate::environment::is_error_text(e, text) && after == before,
        Ok(t) => if t == crate::types::scalar_type(lit) {
            stored_in(r, before, after, name, lit)
        } else if t is Real && lit is Integer {
            exists|x: u64| #[trigger] stored_in(r, before, after, name, ValueV::Real(x))
        } else if t is Integer && lit is Real {
            exists|n: i64| #[trigger] stored_in(r, before, after, name, ValueV::Integer(n))
        } else {
            r matches Err(e) && is_runtime(e) && after == before
        },
    }
}

/// What INPUT does with the line `input` for the variable `name`: it is
/// read as the type the variable holds (see `input_value`; a real is read
/// by the host) and stored; a line that does not fit is refused and
/// changes nothing.
pub open spec fn input_stored(r: Result<(), CPSError>, before: EnvView, after: EnvView, name: Seq<char>, input: Seq<char>) -> bool {
    match before.type_result(name) {
        Err(text) => r matches Err(e) && crate::environment::is_error_text(e, text) && after == before,
        Ok(t) => if t is Real {
            (r matches Err(e) && is_runtime(e) && after == before) || exists|x: u64|
                #[trigger] stored_in(r, before, after, name, ValueV::Real(x))
        } else {
            match crate::types::input_value(input, t) {
                None => r matches Err(e) && is_runtime(e) && after == before,
                Some(v) => stored_in(r, before, after, name, v),
            }
        },
    }
}

/// What INPUT does with the line `input` for element `index` (and column
/// `col`) of the array `name`: it is read as the base type and stored.
pub open spec fn input_stored_in_element(
    r: Result<(), CPSError>,
    before: EnvView,
    after: EnvView,
    name: Seq<char>,
    index: i64,
    col: Option<usize>,
    input: Seq<char>,
) -> bool {
    match before.type_result(name) {
        Err(text) => r matches Err(e) && crate::environment::is_error_text(e, text) && after == before,
        Ok(Type::Array(arr)) => {
            let base = *arr.base_type;
            if base is Real {
                (r matches Err(e) && is_runtime(e) && after == before) || exists|x: u64|
                    #[trigger] stored_in_element(r, before, after, name, index as usize, col, ValueV::Real(x))
            } else {
                match crate::types::input_value(input, base) {
                    None => r matches Err(e) && is_runtime(e) && after == before,
                    Some(v) => stored_in_element(r, before, after, name, index as usize, col, v),
                }
            }
        },
        Ok(_) => r matches Err(e) && is_runtime_error(e, "Identifier '"@ + name + "' is not an array for INPUT statement"@)
            && after == before,
    }
}

/// The environment of a program before it runs: one empty scope and an
/// empty heap.
pub open spec fn fresh_env() -> EnvView {
    EnvView {
        scopes: seq![
            crate::environment::ScopeView {
                bindings: Map::empty(),
                files: Map::empty(),
                constants: Set::empty(),
                next_address: 0,
            },
        ],
        heap: Map::empty(),
    }
}

/// The state that a run reads and changes: the environment and the replay
/// context.
pub struct RunState {
    pub env: EnvView,
    pub ctx: ReplayContext,
}

/// One evaluation of a loop's condition: the state it ended in and its
/// outcome.
pub struct Check {
    pub after: RunState,
    pub outcome: Result<Value, CPSError>,
}

/// The model after `name` is defined as `value` in the top scope and held
/// constant there.
pub open spec fn constant_defined(env: EnvView, name: Seq<char>, value: ValueV) -> EnvView {
    let d = env.defined(name, value);
    d.with_top(crate::environment::ScopeView { constants: d.top().constants.insert(name), ..d.top() })
}

/// What OUTPUT of a literal does: its text, or the text of the value that
/// an identifier names, goes to the embedding (see `output_emitted`); reals
/// are written by the host and are left out here.
pub open spec fn output_effect(target: Expr, a: RunState, b: RunState, r: Result<(), CPSError>) -> bool {
    match target {
        Expr::Literal(lit) => match lit@ {
            ValueV::Identifier(name) => match a.env.lookup(name) {
                None => (r matches Err(e) && is_runtime_error(e, "Undefined identifier: "@ + name)) && b == a,
                Some(w) => !(w is Real) && !(w is Identifier) ==> match output_text(w) {
                    Some(t) => output_emitted(r, a.ctx, b.ctx, t) && b.env == a.env,
                    None => (r matches Err(e) && is_runtime(e)) && b == a,
                },
            },
            v => !(v is Real) ==> match output_text(v) {
                Some(t) => output_emitted(r, a.ctx, b.ctx, t) && b.env == a.env,
                None => (r matches Err(e) && is_runtime(e)) && b == a,
            },
        },
        _ => true,
    }
}

/// What assigning a literal to the variable `name` does: an integer, real,
/// string, boolean or character, or the value of such a kind that an
/// identifier names (see `literal_assignment`).
pub open spec fn assignment_effect(name: Seq<char>, lit: ValueV, a: RunState, b: RunState, r: Result<(), CPSError>) -> bool {
    &&& b.ctx == a.ctx
    &&& match lit {
        ValueV::Identifier(other) => match a.env.lookup(other) {
            None => (r matches Err(e) && is_runtime_error(e, "Undefined identifier: "@ + other)) && b.env == a.env,
            Some(w) => plain_scalar(w) || w is Real ==> literal_assignment(r, a.env, b.env, name, w),
        },
        v => plain_scalar(v) || v is Real ==> literal_assignment(r, a.env, b.env, name, v),
    }
}

/// What INPUT into the variable `name` does: the next input line is stored
/// (see `input_stored`); when none is left, the run stops and asks for one.
pub open spec fn input_effect(name: Seq<char>, a: RunState, b: RunState, r: Result<(), CPSError>) -> bool {
    if a.ctx.input_pos < a.ctx.inputs@.len() {
        &&& b.ctx == (ReplayContext { input_pos: (a.ctx.input_pos + 1) as usize, ..a.ctx })
        &&& input_stored(r, a.env, b.env, name, a.ctx.inputs@[a.ctx.input_pos as int]@)
    } else {
        &&& r matches Err(e) && (e.error_type matches ErrorType::StepNeedsInput(v) && v@ == name)
        &&& b == a
    }
}

/// What defining a procedure or function does: the name is bound to it in
/// the top scope, unless it is a builtin (refused with `builtin_message`
/// and the name) or held constant there.
pub open spec fn definition_effect(
    name: Seq<char>,
    definition: Rc<Function>,
    builtin_message: Seq<char>,
    a: RunState,
    b: RunState,
    r: Result<(), CPSError>,
) -> bool {
    &&& b.ctx == a.ctx
    &&& if is_builtin_name(name) {
        (r matches Err(e) && is_runtime_error(e, builtin_message + name)) && b.env == a.env
    } else if a.env.top().constants.contains(name) {
        r is Err && b.env == a.env
    } else {
        r is Ok && b.env == a.env.defined(name, ValueV::Function(definition))
    }
}

/// What OPENFILE of a literal file name does (see `open_outcome`).
pub open spec fn open_file_effect(filename: Expr, mode: FileMode, a: RunState, b: RunState, r: Result<(), CPSError>) -> bool {
    match filename {
        Expr::Literal(Value::String(n)) => b.env == a.env && open_outcome(a.ctx, b.ctx, n@, mode, r),
        _ => true,
    }
}

/// What CLOSEFILE of a literal file name does (see `close_outcome`).
pub open spec fn close_file_effect(filename: Expr, a: RunState, b: RunState, r: Result<(), CPSError>) -> bool {
    match filename {
        Expr::Literal(Value::String(n)) => b.env == a.env && close_outcome(a.ctx, b.ctx, n@, r),
        _ => true,
    }
}

/// What WRITEFILE of a literal to a literal file name does: the literal's
/// text is written as one line (see `write_outcome`); reals are written by
/// the host and are left out here.
pub open spec fn write_file_effect(filename: Expr, value: Expr, a: RunState, b: RunState, r: Result<(), CPSError>) -> bool {
    match (filename, value) {
        (Expr::Literal(Value::String(n)), Expr::Literal(lit)) => !(lit@ is Real) && !(lit@ is Identifier) ==> match output_text(
            lit@,
        ) {
            Some(t) => b.env == a.env && write_outcome(a.ctx, b.ctx, n@, t, r),
            None => (r matches Err(e) && is_runtime(e)) && b == a,
        },
        _ => true,
    }
}

/// What READFILE from a literal file name into a variable does: the next
/// line of the file (see `read_outcome`) is stored in the variable as a
/// string.
pub open spec fn read_file_effect(filename: Expr, target: Expr, a: RunState, b: RunState, r: Result<(), CPSError>) -> bool {
    match (filename, target) {
        (Expr::Literal(Value::String(n)), Expr::Literal(Value::Identifier(iden))) => exists|line: Result<String, CPSError>|
            #[trigger] read_outcome(a.ctx, b.ctx, n@, line) && match line {
                Ok(l) => stored_in(r, a.env, b.env, iden@, ValueV::Str(l@)),
                Err(e) => r == Err::<(), CPSError>(e) && b.env == a.env,
            },
        _ => true,
    }
}

/// What running a statement does, where its effect does not rest on
/// evaluating expressions beyond literals, with the messages of its errors:
/// OUTPUT, DECLARE of a scalar, assignment of a literal, INPUT into a
/// variable, CONSTANT, RETURN, the definition of a procedure or function,
/// the file statements on literal file names, a call that is refused, an IF
/// whose condition is the literal FALSE (with no ELSE) or a literal that is
/// not a boolean, a WHILE whose condition is the literal FALSE, and a FOR
/// over an empty literal range. `evaluated_effect` says what statements do
/// with the values of their expressions.
pub open spec fn statement_effect(s: Stmt, a: RunState, b: RunState, r: Result<(), CPSError>) -> bool {
    match s {
        Stmt::Output { target } => output_effect(target, a, b, r),
        Stmt::Decleration { identifier, type_ } => match crate::types::initial_scalar(type_) {
            Some(v) => b.ctx == a.ctx && if a.env.top().constants.contains(identifier@) {
                r is Err && b.env == a.env
            } else {
                r is Ok && b.env == a.env.defined(identifier@, v)
            },
            None => !(type_ is Array) ==> (r matches Err(e) && is_runtime(e)) && b.env == a.env && b.ctx == a.ctx,
        },
        Stmt::Assignment { identifier, array_index, value } => array_index is None ==> match value {
            Ast::Expression(Expr::Literal(lit)) => assignment_effect(identifier@, lit@, a, b, r),
            Ast::Identifier(other) => assignment_effect(identifier@, ValueV::Identifier(other@), a, b, r),
            _ => true,
        },
        Stmt::Input { identifier } => match *identifier {
            Expr::Literal(Value::Identifier(iden)) => input_effect(iden@, a, b, r),
            _ => true,
        },
        Stmt::Constant { identifier, value } => b.ctx == a.ctx && if a.env.top().constants.contains(identifier@) {
            r is Err && b.env == a.env
        } else {
            r is Ok && b.env == constant_defined(a.env, identifier@, value@)
        },
        Stmt::Procedure { name, definition } => definition_effect(
            name@,
            definition,
            "Cannot redefine builtin function as procedure: "@,
            a,
            b,
            r,
        ),
        Stmt::Function { name, definition } => definition_effect(
            name@,
            definition,
            "Cannot redefine builtin function: "@,
            a,
            b,
            r,
        ),
        Stmt::Call { name, arguments } => call_refused(name@, arguments@.len(), a, b, r),
        Stmt::Return { value } => match value {
            Expr::Literal(lit) => b == a && match lit@ {
                ValueV::Identifier(name) => match a.env.lookup(name) {
                    Some(w) => r matches Err(e) && (e.error_type matches ErrorType::Return(v) && v@ == w),
                    None => r matches Err(e) && is_runtime_error(e, "Undefined identifier: "@ + name),
                },
                ValueV::Array { .. } | ValueV::Function(_) => r matches Err(e) && is_runtime(e),
                v => r matches Err(e) && (e.error_type matches ErrorType::Return(x) && x@ == v),
            },
            _ => true,
        },
        Stmt::If { condition, then_branch, else_branch } => match condition {
            Expr::Literal(Value::Boolean(false)) => else_branch is None ==> r is Ok && b == a,
            Expr::Literal(v) => !(v is Boolean || v is Identifier) ==> (r matches Err(e) && is_runtime(e)) && b == a,
            _ => true,
        },
        Stmt::While { condition, body } => match condition {
            Expr::Literal(Value::Boolean(false)) => r is Ok && b == a,
            _ => true,
        },
        Stmt::For { identifier, start, end, body } => match (start, end) {
            (Expr::Literal(Value::Integer(s)), Expr::Literal(Value::Integer(e))) => e < s && !a.env.top().constants.contains(
                identifier@,
            ) ==> r is Ok && b.env == a.env.defined(identifier@, ValueV::Integer(s)) && b.ctx == a.ctx,
            _ => true,
        },
        Stmt::OpenFile { filename, mode } => open_file_effect(*filename, mode, a, b, r),
        Stmt::CloseFile { filename } => close_file_effect(*filename, a, b, r),
        Stmt::WriteFile { filename, value } => write_file_effect(*filename, *value, a, b, r),
        Stmt::ReadFile { filename, target } => read_file_effect(*filename, *target, a, b, r),
        _ => true,
    }
}

/// The value that CASE compares: the value of its expression, or, where that
/// is an identifier, the value it names.
pub open spec fn case_subject(v: ValueV, env: EnvView) -> Option<ValueV> {
    match v {
        ValueV::Identifier(n) => env.lookup(n),
        _ => Some(v),
    }
}

/// Whether the value `cv` of a single-valued CASE arm selects `w`: it is
/// equal to it. `None` where a real is involved: the host compares reals.
pub open spec fn single_selects(w: ValueV, cv: ValueV) -> Option<Result<bool, ()>> {
    if w is Real || cv is Real {
        None
    } else {
        Some(Ok(operators::plain_equal(w, cv)))
    }
}

/// Whether the inclusive range from `sv` to `ev` of a CASE arm selects `w`:
/// integers, strings and characters compare in their own order; values of
/// other kinds, or of different kinds, are an error. `None` where a real is
/// involved: the host compares reals.
pub open spec fn range_selects(w: ValueV, sv: ValueV, ev: ValueV) -> Option<Result<bool, ()>> {
    if w is Real || sv is Real || ev is Real {
        None
    } else {
        match (w, sv, ev) {
            (ValueV::Integer(v), ValueV::Integer(x), ValueV::Integer(y)) => Some(Ok(x <= v && v <= y)),
            (ValueV::Str(v), ValueV::Str(x), ValueV::Str(y)) => Some(
                Ok(crate::text::text_le(x, v) && crate::text::text_le(v, y)),
            ),
            (ValueV::Char(v), ValueV::Char(x), ValueV::Char(y)) => Some(
                Ok((x as u32) <= (v as u32) && (v as u32) <= (y as u32)),
            ),
            _ => Some(Err(())),
        }
    }
}

/// `r` is the decision `d` (see `single_selects` and `range_selects`): the
/// same boolean, or a runtime error.
pub open spec fn decided(r: Result<bool, CPSError>, d: Option<Result<bool, ()>>) -> bool {
    match d {
        None => true,
        Some(Ok(x)) => r == Ok::<bool, CPSError>(x),
        Some(Err(_)) => r matches Err(e) && is_runtime(e),
    }
}

/// Testing the condition `c` of a CASE arm against the value `w` from `a`
/// ends in `b` with result `r` when `fuel` steps are left: its value, or the
/// start and then the end value of its range, are evaluated as `expr_runs`
/// says, the first error ending the test, and the values decide it (see
/// `single_selects` and `range_selects`).
pub open spec fn arm_runs(c: CaseCondition, w: ValueV, a: RunState, b: RunState, r: Result<bool, CPSError>, fuel: nat) -> bool
    decreases fuel, 1nat,
{
    match c {
        CaseCondition::Single(e) => exists|m: RunState, cv: Result<Value, CPSError>|
            #![trigger m.ctx, dropped(cv)]
            expr_runs(e, a, m, cv, fuel) && b == m && match cv {
                Err(x) => r == Err::<bool, CPSError>(x),
                Ok(v) => decided(r, single_selects(w, v@)),
            },
        CaseCondition::Range(s, e) => exists|m: RunState, sv: Result<Value, CPSError>|
            #![trigger m.ctx, dropped(sv)]
            expr_runs(s, a, m, sv, fuel) && match sv {
                Err(x) => r == Err::<bool, CPSError>(x) && b == m,
                Ok(x) => exists|m2: RunState, ev: Result<Value, CPSError>|
                    #![trigger m2.ctx, dropped(ev)]
                    expr_runs(e, m, m2, ev, fuel) && b == m2 && match ev {
                        Err(y) => r == Err::<bool, CPSError>(y),
                        Ok(y) => decided(r, range_selects(w, x@, y@)),
                    },
            },
    }
}

/// The first `k` arms of a CASE on `w` were tried through `states` and did
/// not select it: arm `i` was tested from `states[i]` to `states[i + 1]`
/// (see `arm_runs`).
pub open spec fn arms_trace(arms: Seq<(CaseCondition, BlockStmt)>, w: ValueV, states: Seq<RunState>, k: int, fuel: nat) -> bool
    decreases fuel, 2nat,
{
    &&& states.len() == k + 1
    &&& forall|i: int|
        #![trigger states[i]]
        0 <= i < k ==> arm_runs(arms[i].0, w, states[i], states[i + 1], Ok(false), fuel)
}

/// The value of `e` where `fuel` steps suffice to evaluate it and
/// `expr_value` says what it is; otherwise none.
pub open spec fn evaluated(e: Expr, st: RunState, fuel: nat) -> Option<Result<ValueV, ()>> {
    if within_steps(e, fuel) {
        expr_value(e, st)
    } else {
        None
    }
}

/// A step that failed: a runtime error, and nothing changed.
pub open spec fn refused<T>(r: Result<T, CPSError>, a: RunState, b: RunState) -> bool {
    (r matches Err(e) && is_runtime(e)) && b == a
}

/// What OUTPUT of the value `v` does: its text goes to the embedding (see
/// `output_emitted`); reals are written by the host and are left out here.
pub open spec fn value_shown(v: ValueV, a: RunState, b: RunState, r: Result<(), CPSError>) -> bool {
    !(v is Real) && !(v is Identifier) ==> match output_text(v) {
        Some(t) => output_emitted(r, a.ctx, b.ctx, t) && b.env == a.env,
        None => refused(r, a, b),
    }
}

/// The file name that `e` evaluates to; a value that is not a string is an
/// error.
pub open spec fn filename_value(e: Expr, st: RunState, fuel: nat) -> Option<Result<Seq<char>, ()>> {
    match evaluated(e, st, fuel) {
        None => None,
        Some(Err(_)) => Some(Err(())),
        Some(Ok(ValueV::Str(n))) => Some(Ok(n)),
        Some(Ok(_)) => Some(Err(())),
    }
}

/// A step after READFILE read its line that failed: a runtime error, and
/// the environment unchanged.
pub open spec fn failed_store(r: Result<(), CPSError>, a: RunState, b: RunState) -> bool {
    (r matches Err(e) && is_runtime(e)) && b == a
}

/// What READFILE does with the line it read, from `a`: it is stored, as a
/// string, in the variable or the array element that `target` names; the
/// index and the column of an element are evaluated then and must be
/// numbers. Another target is refused.
pub open spec fn line_stored(target: Expr, line: Seq<char>, a: RunState, b: RunState, r: Result<(), CPSError>, fuel: nat) -> bool
    decreases fuel, 3nat,
{
    match target {
        Expr::Literal(Value::Identifier(iden)) => b.ctx == a.ctx && stored_in(r, a.env, b.env, iden@, ValueV::Str(line)),
        Expr::Literal(_) => failed_store(r, a, b),
        Expr::ArrayAccess { name, index, col } => position_runs(
            *index,
            col,
            a,
            b,
            r,
            fuel,
            |m: RunState, i: i64, j: Option<i64>|
                b.ctx == m.ctx && stored_in_element(
                    r,
                    m.env,
                    b.env,
                    name@,
                    i as usize,
                    match j {
                        Some(x) => Some(x as usize),
                        None => None,
                    },
                    ValueV::Str(line),
                ),
        ),
        _ => failed_store(r, a, b),
    }
}

/// Where INPUT or READFILE puts its line in an element of an array, from
/// `a`: the index and then the column are evaluated as `expr_runs` says,
/// and each must be a number; the first failure ends the statement, and
/// `put` says what storing at the index `i` (and the column `j`) does from
/// the state where evaluation ended. Real indices are read by the host and
/// are left out here.
pub open spec fn position_runs(
    index: Expr,
    col: Option<Box<Expr>>,
    a: RunState,
    b: RunState,
    r: Result<(), CPSError>,
    fuel: nat,
    put: spec_fn(RunState, i64, Option<i64>) -> bool,
) -> bool
    decreases fuel, 2nat,
{
    after_expr(
        index,
        a,
        b,
        r,
        fuel,
        |m: RunState, iv: ValueV|
            match index_of(iv) {
                None => true,
                Some(Err(_)) => refused(r, m, b),
                Some(Ok(i)) => match col {
                    None => put(m, i, None),
                    Some(c) => after_expr(
                        *c,
                        m,
                        b,
                        r,
                        fuel,
                        |m2: RunState, cv: ValueV|
                            match index_of(cv) {
                                None => true,
                                Some(Err(_)) => refused(r, m2, b),
                                Some(Ok(j)) => put(m2, i, Some(j)),
                            },
                    ),
                },
            },
    )
}

/// READFILE into an element of an array as `line_stored` describes it, from
/// the evaluation of the index from `a` to `m1` with outcome `ires` and,
/// where there is a column and the index is a number, of the column from
/// `m1` to `m2` with outcome `cres`.
proof fn lemma_line_stored(
    target: Expr,
    name: String,
    index: Box<Expr>,
    col: Option<Box<Expr>>,
    line: Seq<char>,
    a: RunState,
    m1: RunState,
    ires: Result<Value, CPSError>,
    m2: RunState,
    cres: Result<Value, CPSError>,
    b: RunState,
    r: Result<(), CPSError>,
    fuel: nat,
)
    requires
        target == (Expr::ArrayAccess { name, index, col }),
        expr_runs(*index, a, m1, ires, fuel),
        match ires {
            Err(x) => r == Err::<(), CPSError>(x) && b == m1,
            Ok(iv) => match index_of(iv@) {
                None => true,
                Some(Err(_)) => refused(r, m1, b),
                Some(Ok(i)) => match col {
                    None => b.ctx == m1.ctx && stored_in_element(r, m1.env, b.env, name@, i as usize, None, ValueV::Str(line)),
                    Some(c) => expr_runs(*c, m1, m2, cres, fuel) && match cres {
                        Err(x) => r == Err::<(), CPSError>(x) && b == m2,
                        Ok(cv) => match index_of(cv@) {
                            None => true,
                            Some(Err(_)) => refused(r, m2, b),
                            Some(Ok(j)) => b.ctx == m2.ctx && stored_in_element(
                                r,
                                m2.env,
                                b.env,
                                name@,
                                i as usize,
                                Some(j as usize),
                                ValueV::Str(line),
                            ),
                        },
                    },
                },
            },
        },
    ensures
        line_stored(target, line, a, b, r, fuel),
{
    assert(m1.ctx.input_pos <= m1.ctx.input_pos + 1);
    assert(m2.ctx.input_pos <= m2.ctx.input_pos + 1);
    assert(dropped(ires) is Err == ires is Err);
    assert(dropped(cres) is Err == cres is Err);
}

/// INPUT into an element of an array as `element_input` describes it, from
/// the evaluation of the index from `a` to `m1` with outcome `ires` and,
/// where there is a column and the index is a number, of the column from
/// `m1` to `m2` with outcome `cres`.
proof fn lemma_element_input(
    name: Seq<char>,
    index: Expr,
    col: Option<Box<Expr>>,
    input: Seq<char>,
    a: RunState,
    m1: RunState,
    ires: Result<Value, CPSError>,
    m2: RunState,
    cres: Result<Value, CPSError>,
    b: RunState,
    r: Result<(), CPSError>,
    fuel: nat,
)
    requires
        expr_runs(index, a, m1, ires, fuel),
        match ires {
            Err(x) => r == Err::<(), CPSError>(x) && b == m1,
            Ok(iv) => match index_of(iv@) {
                None => true,
                Some(Err(_)) => refused(r, m1, b),
                Some(Ok(i)) => match col {
                    None => b.ctx == m1.ctx && input_stored_in_element(r, m1.env, b.env, name, i, None, input),
                    Some(c) => expr_runs(*c, m1, m2, cres, fuel) && match cres {
                        Err(x) => r == Err::<(), CPSError>(x) && b == m2,
                        Ok(cv) => match index_of(cv@) {
                            None => true,
                            Some(Err(_)) => refused(r, m2, b),
                            Some(Ok(j)) => if j < 0 {
                                refused(r, m2, b)
                            } else {
                                b.ctx == m2.ctx && input_stored_in_element(r, m2.env, b.env, name, i, Some(j as usize), input)
                            },
                        },
                    },
                },
            },
        },
    ensures
        element_input(name, index, col, input, a, b, r, fuel),
{
    assert(m1.ctx.input_pos <= m1.ctx.input_pos + 1);
    assert(m2.ctx.input_pos <= m2.ctx.input_pos + 1);
    assert(dropped(ires) is Err == ires is Err);
    assert(dropped(cres) is Err == cres is Err);
}

/// The array that DECLARE makes from the bounds `lower` to `upper` (and the
/// columns `cols`): as many elements as the rows (times the columns) count,
/// in machine arithmetic, each the initial value `initial`.
pub open spec fn array_value(lower: i64, upper: i64, cols: Option<(i64, i64)>, initial: ValueV) -> ValueV {
    let rows = vstd::wrapping::i64_specs::wrapping_add(vstd::wrapping::i64_specs::wrapping_sub(upper, lower), 1) as usize;
    let total = match cols {
        Some((cl, cu)) => vstd::wrapping::usize_specs::wrapping_mul(
            rows,
            vstd::wrapping::usize_specs::wrapping_add(
                vstd::wrapping::usize_specs::wrapping_sub(cu as usize, cl as usize),
                1,
            ),
        ),
        None => rows,
    };
    ValueV::Array {
        elems: Seq::new(total as nat, |i: int| initial),
        lower_bound: lower as usize,
        bounds_2d: match cols {
            Some((cl, cu)) => Some((cl as usize, cu as usize)),
            None => None,
        },
    }
}

/// The error for an upper bound `hi` below its lower bound `lo`: a runtime
/// error that names both, after `what`.
pub open spec fn bounds_refused(r: Result<Value, CPSError>, what: Seq<char>, hi: i64, lo: i64) -> bool {
    r matches Err(e) && is_runtime_error(
        e,
        what + crate::text::int_text(hi as int) + " cannot be less than lower bound "@ + crate::text::int_text(lo as int),
    )
}

/// The array that DECLARE makes from the bounds `lo` to `hi` (and the
/// columns `cols`) of the base type `base`, from `a`: an error where the
/// base type has no initial value.
pub open spec fn array_result(lo: i64, hi: i64, cols: Option<(i64, i64)>, base: Type, a: RunState, b: RunState, r: Result<Value, CPSError>) -> bool {
    match crate::types::initial_scalar(base) {
        None => refused(r, a, b),
        Some(d) => b == a && (r matches Ok(x) && x@ == array_value(lo, hi, cols, d)),
    }
}

/// Making the array of the array type `arr` from `a` ends in `b` with
/// result `r` when `fuel` steps are left: the bounds are evaluated in order
/// (lower, upper, then the column bounds) as `expr_runs` says, the first
/// error ending it; each must be a number, taken as an integer (a real by
/// the host, see `taken_as`), and an upper bound below its lower bound is
/// an error (see `bounds_refused`); the array is then made as
/// `array_result` says.
pub open spec fn array_made(arr: ArrayType, a: RunState, b: RunState, r: Result<Value, CPSError>, fuel: nat) -> bool
    decreases fuel, 1nat,
{
    exists|m1: RunState, lres: Result<Value, CPSError>|
        #![trigger m1.ctx, dropped(lres)]
        expr_runs(*arr.lower_bound, a, m1, lres, fuel) && match lres {
            Err(x) => r == Err::<Value, CPSError>(x) && b == m1,
            Ok(lv) => if !(lv@ is Integer || lv@ is Real) {
                refused(r, m1, b)
            } else {
                exists|lo: i64|
                    #![trigger taken_as(lv@, lo)]
                    taken_as(lv@, lo) && exists|m2: RunState, ures: Result<Value, CPSError>|
                        #![trigger m2.ctx, dropped(ures)]
                        expr_runs(*arr.upper_bound, m1, m2, ures, fuel) && match ures {
                            Err(x) => r == Err::<Value, CPSError>(x) && b == m2,
                            Ok(uv) => if !(uv@ is Integer || uv@ is Real) {
                                refused(r, m2, b)
                            } else {
                                exists|hi: i64|
                                    #![trigger taken_as(uv@, hi)]
                                    taken_as(uv@, hi) && if hi < lo {
                                        bounds_refused(r, "Array upper bound "@, hi, lo) && b == m2
                                    } else {
                                        match arr.bounds_2d {
                                            None => array_result(lo, hi, None, *arr.base_type, m2, b, r),
                                            Some((cle, cue)) => exists|m3: RunState, clres: Result<Value, CPSError>|
                                                #![trigger m3.ctx, dropped(clres)]
                                                expr_runs(*cle, m2, m3, clres, fuel) && match clres {
                                                    Err(x) => r == Err::<Value, CPSError>(x) && b == m3,
                                                    Ok(clv) => if !(clv@ is Integer || clv@ is Real) {
                                                        refused(r, m3, b)
                                                    } else {
                                                        exists|cl: i64|
                                                            #![trigger taken_as(clv@, cl)]
                                                            taken_as(clv@, cl) && exists|m4: RunState, cures: Result<Value, CPSError>|
                                                                #![trigger m4.ctx, dropped(cures)]
                                                                expr_runs(*cue, m3, m4, cures, fuel) && match cures {
                                                                    Err(x) => r == Err::<Value, CPSError>(x) && b == m4,
                                                                    Ok(cuv) => if !(cuv@ is Integer || cuv@ is Real) {
                                                                        refused(r, m4, b)
                                                                    } else {
                                                                        exists|cu: i64|
                                                                            #![trigger taken_as(cuv@, cu)]
                                                                            taken_as(cuv@, cu) && if cu < cl {
                                                                                bounds_refused(r, "Column upper bound "@, cu, cl) && b == m4
                                                                            } else {
                                                                                array_result(lo, hi, Some((cl, cu)), *arr.base_type, m4, b, r)
                                                                            }
                                                                    },
                                                                }
                                                    },
                                                },
                                        }
                                    }
                            },
                        }
            },
        }
}

/// Making an array as `array_made` describes it, from the evaluations of its
/// bounds: the lower from `a` to `m1` with outcome `lres`, the upper from
/// `m1` to `m2` with `ures`, and the column bounds from `m2` to `m3` with
/// `clres` and from `m3` to `m4` with `cures`, as far as each was reached,
/// each bound taken as the integer `lo`, `hi`, `cl` or `cu`.
proof fn lemma_array_made(
    arr: ArrayType,
    a: RunState,
    m1: RunState,
    lres: Result<Value, CPSError>,
    m2: RunState,
    ures: Result<Value, CPSError>,
    m3: RunState,
    clres: Result<Value, CPSError>,
    m4: RunState,
    cures: Result<Value, CPSError>,
    b: RunState,
    r: Result<Value, CPSError>,
    fuel: nat,
    lo: i64,
    hi: i64,
    cl: i64,
    cu: i64,
)
    requires
        expr_runs(*arr.lower_bound, a, m1, lres, fuel) && match lres {
            Err(x) => r == Err::<Value, CPSError>(x) && b == m1,
            Ok(lv) => if !(lv@ is Integer || lv@ is Real) {
                refused(r, m1, b)
            } else {
                taken_as(lv@, lo) && expr_runs(*arr.upper_bound, m1, m2, ures, fuel) && match ures {
                    Err(x) => r == Err::<Value, CPSError>(x) && b == m2,
                    Ok(uv) => if !(uv@ is Integer || uv@ is Real) {
                        refused(r, m2, b)
                    } else {
                        taken_as(uv@, hi) && if hi < lo {
                            bounds_refused(r, "Array upper bound "@, hi, lo) && b == m2
                        } else {
                            match arr.bounds_2d {
                                None => array_result(lo, hi, None, *arr.base_type, m2, b, r),
                                Some((cle, cue)) => expr_runs(*cle, m2, m3, clres, fuel) && match clres {
                                    Err(x) => r == Err::<Value, CPSError>(x) && b == m3,
                                    Ok(clv) => if !(clv@ is Integer || clv@ is Real) {
                                        refused(r, m3, b)
                                    } else {
                                        taken_as(clv@, cl) && expr_runs(*cue, m3, m4, cures, fuel) && match cures {
                                            Err(x) => r == Err::<Value, CPSError>(x) && b == m4,
                                            Ok(cuv) => if !(cuv@ is Integer || cuv@ is Real) {
                                                refused(r, m4, b)
                                            } else {
                                                taken_as(cuv@, cu) && if cu < cl {
                                                    bounds_refused(r, "Column upper bound "@, cu, cl) && b == m4
                                                } else {
                                                    array_result(lo, hi, Some((cl, cu)), *arr.base_type, m4, b, r)
                                                }
                                            },
                                        }
                                    },
                                },
                            }
                        }
                    },
                }
            },
        },
    ensures
        array_made(arr, a, b, r, fuel),
{
    assert(m1.ctx.input_pos <= m1.ctx.input_pos + 1);
    assert(m2.ctx.input_pos <= m2.ctx.input_pos + 1);
    assert(m3.ctx.input_pos <= m3.ctx.input_pos + 1);
    assert(m4.ctx.input_pos <= m4.ctx.input_pos + 1);
    assert(dropped(lres) is Err == lres is Err);
    assert(dropped(ures) is Err == ures is Err);
    assert(dropped(clres) is Err == clres is Err);
    assert(dropped(cures) is Err == cures is Err);
}

/// What INPUT into element `index` (and column `col`) of the array `name`
/// does with the line `input` it took, from `a`: the index and the column
/// are evaluated as `position_runs` says, a column must not be negative, and
/// the line is stored as `input_stored_in_element` says.
pub open spec fn element_input(
    name: Seq<char>,
    index: Expr,
    col: Option<Box<Expr>>,
    input: Seq<char>,
    a: RunState,
    b: RunState,
    r: Result<(), CPSError>,
    fuel: nat,
) -> bool
    decreases fuel, 3nat,
{
    position_runs(
        index,
        col,
        a,
        b,
        r,
        fuel,
        |m: RunState, i: i64, j: Option<i64>|
            match j {
                None => b.ctx == m.ctx && input_stored_in_element(r, m.env, b.env, name, i, None, input),
                Some(x) => if x < 0 {
                    refused(r, m, b)
                } else {
                    b.ctx == m.ctx && input_stored_in_element(r, m.env, b.env, name, i, Some(x as usize), input)
                },
            },
    )
}

/// The value that an assignment takes from its right-hand side: the value
/// of an expression (see `evaluated`), or of the literal that an identifier
/// names (see `literal_value`); a statement there is an error.
pub open spec fn assigned_value(value: Ast, st: RunState, fuel: nat) -> Option<Result<ValueV, ()>> {
    match value {
        Ast::Expression(e) => evaluated(e, st, fuel),
        Ast::Identifier(other) => Some(
            match st.env.lookup(other@) {
                Some(w) => literal_value(w, st.env),
                None => Err(()),
            },
        ),
        Ast::Stmt(_) => Some(Err(())),
    }
}

/// What assigning the value `v` to `name`, or to the element of it that
/// `array_index` gives, does from `a`: see `literal_assignment` and
/// `element_assignment`.
pub open spec fn assignment_of(
    name: Seq<char>,
    array_index: Option<(Box<Expr>, Option<Box<Expr>>)>,
    v: ValueV,
    a: RunState,
    b: RunState,
    r: Result<(), CPSError>,
    fuel: nat,
) -> bool
    decreases fuel, 4nat,
{
    match array_index {
        None => b.ctx == a.ctx && (plain_scalar(v) || v is Real ==> literal_assignment(r, a.env, b.env, name, v)),
        Some((index, col)) => plain_scalar(v) ==> element_assignment(name, v, *index, col, a, b, r, fuel),
    }
}

/// What an assignment stores in an element of the array `name` for the
/// integer, string, boolean or character `v`: `v` itself where it fits the
/// array's base type (or the type `name` holds); an error where it does not,
/// or where `name` is unbound; `None` where the host turns it into a real.
pub open spec fn element_assigned(env: EnvView, name: Seq<char>, v: ValueV) -> Option<Result<ValueV, ()>> {
    match env.type_result(name) {
        Err(_) => Some(Err(())),
        Ok(t) => if t == crate::types::scalar_type(v) {
            Some(Ok(v))
        } else if t is Real && v is Integer {
            None
        } else if t is Array {
            let base = *t->Array_0.base_type;
            if v is Integer && base is Real {
                None
            } else if crate::types::fits(v, base) {
                Some(Ok(v))
            } else {
                Some(Err(()))
            }
        } else {
            Some(Err(()))
        },
    }
}

/// An index as an integer: an error for a value that is not a number,
/// `None` for a real, which the host reads.
pub open spec fn index_of(v: ValueV) -> Option<Result<i64, ()>> {
    match v {
        ValueV::Integer(n) => Some(Ok(n)),
        ValueV::Real(_) => None,
        _ => Some(Err(())),
    }
}

/// What assigning the integer, string, boolean or character `v` to element
/// `index` (and column `col`) of the array `name` does: the value is checked
/// against the base type (see `element_assigned`), then the index and the
/// column are evaluated and must be numbers, a column must not be negative,
/// and the value is stored (see `stored_in_element`). Each failure is a
/// runtime error that changes nothing.
pub open spec fn element_assignment(
    name: Seq<char>,
    v: ValueV,
    index: Expr,
    col: Option<Box<Expr>>,
    a: RunState,
    b: RunState,
    r: Result<(), CPSError>,
    fuel: nat,
) -> bool
    decreases fuel, 3nat,
{
    match element_assigned(a.env, name, v) {
        None => true,
        Some(Err(_)) => refused(r, a, b),
        Some(Ok(stored)) => element_store(name, stored, index, col, a, b, r, fuel),
    }
}

/// What storing `stored` in element `index` (and column `col`) of the array
/// `name` does once the value is checked (see `element_assignment`): the
/// index and then the column are evaluated as `expr_runs` says, the first
/// error ending the statement, and the value is put as `element_put` says.
pub open spec fn element_store(
    name: Seq<char>,
    stored: ValueV,
    index: Expr,
    col: Option<Box<Expr>>,
    a: RunState,
    b: RunState,
    r: Result<(), CPSError>,
    fuel: nat,
) -> bool
    decreases fuel, 2nat,
{
    after_expr(
        index,
        a,
        b,
        r,
        fuel,
        |m: RunState, iv: ValueV|
            match col {
                None => element_put(name, stored, iv, None, m, b, r),
                Some(c) => after_expr(
                    *c,
                    m,
                    b,
                    r,
                    fuel,
                    |m2: RunState, cv: ValueV| element_put(name, stored, iv, Some(cv), m2, b, r),
                ),
            },
    )
}

/// What putting `stored` in the element of the array `name` at the index
/// value `iv` (and the column value `cv`) does from `a`: both must be
/// numbers, a column must not be negative, and the value is stored (see
/// `stored_in_element`); each failure is a runtime error that changes
/// nothing. Real indices are read by the host and are left out here.
pub open spec fn element_put(
    name: Seq<char>,
    stored: ValueV,
    iv: ValueV,
    cv: Option<ValueV>,
    a: RunState,
    b: RunState,
    r: Result<(), CPSError>,
) -> bool {
    match index_of(iv) {
        None => true,
        Some(Err(_)) => refused(r, a, b),
        Some(Ok(i)) => match cv {
            None => b.ctx == a.ctx && stored_in_element(r, a.env, b.env, name, i as usize, None, stored),
            Some(c) => match index_of(c) {
                None => true,
                Some(Err(_)) => refused(r, a, b),
                Some(Ok(j)) => if j < 0 {
                    refused(r, a, b)
                } else {
                    b.ctx == a.ctx && stored_in_element(r, a.env, b.env, name, i as usize, Some(j as usize), stored)
                },
            },
        },
    }
}

/// A store in an array element as `element_store` describes it, from the
/// evaluation of its index from `a` to `m1` with outcome `ires` and, where
/// there is a column and the index gave a value, of the column from `m1` to
/// `m2` with outcome `cres`.
proof fn lemma_element_store(
    name: Seq<char>,
    stored: ValueV,
    index: Expr,
    col: Option<Box<Expr>>,
    a: RunState,
    m1: RunState,
    ires: Result<Value, CPSError>,
    m2: RunState,
    cres: Result<Value, CPSError>,
    b: RunState,
    r: Result<(), CPSError>,
    fuel: nat,
)
    requires
        expr_runs(index, a, m1, ires, fuel),
        match ires {
            Err(x) => r == Err::<(), CPSError>(x) && b == m1,
            Ok(iv) => match col {
                None => element_put(name, stored, iv@, None, m1, b, r),
                Some(c) => expr_runs(*c, m1, m2, cres, fuel) && match cres {
                    Err(x) => r == Err::<(), CPSError>(x) && b == m2,
                    Ok(cv) => element_put(name, stored, iv@, Some(cv@), m2, b, r),
                },
            },
        },
    ensures
        element_store(name, stored, index, col, a, b, r, fuel),
{
    assert(m1.ctx.input_pos <= m1.ctx.input_pos + 1);
    assert(m2.ctx.input_pos <= m2.ctx.input_pos + 1);
    assert(dropped(ires) is Err == ires is Err);
    assert(dropped(cres) is Err == cres is Err);
}

/// What `assignment_result` says of an element assignment of a plain value,
/// in the terms of `element_assigned`.
proof fn lemma_element_assigned(env: EnvView, name: Seq<char>, v: ValueV, r: Result<Value, CPSError>)
    requires
        plain_scalar(v),
        assignment_result(r, env, name, v, true),
    ensures
        match element_assigned(env, name, v) {
            Some(Ok(stored)) => r matches Ok(c) && c@ == stored,
            Some(Err(_)) => r matches Err(e) && is_runtime(e),
            None => true,
        },
{
}

/// A file statement whose file name evaluated to `v`, in state `m`: a
/// string names the file, and the statement goes on with it as `then`
/// says; another value is refused.
pub open spec fn named_file(v: ValueV, m: RunState, b: RunState, r: Result<(), CPSError>, then: spec_fn(Seq<char>) -> bool) -> bool {
    match v {
        ValueV::Str(n) => then(n),
        _ => refused(r, m, b),
    }
}

/// WRITEFILE of the value `w` to the file `n`, from `m`: the value's text
/// is written as one line (see `write_outcome`); a value without a text is
/// refused. Reals are written by the host and are left out here.
pub open spec fn line_written(n: Seq<char>, w: ValueV, m: RunState, b: RunState, r: Result<(), CPSError>) -> bool {
    !(w is Real) && !(w is Identifier) ==> match output_text(w) {
        Some(t) => b.env == m.env && write_outcome(m.ctx, b.ctx, n, t, r),
        None => refused(r, m, b),
    }
}

/// READFILE from the file `n` into `target`, from `m`: the next line is read
/// (see `read_outcome`) and stored as `line_stored` says; a failed read ends
/// the statement.
pub open spec fn line_read(target: Expr, n: Seq<char>, m: RunState, b: RunState, r: Result<(), CPSError>, fuel: nat) -> bool
    decreases fuel, 4nat,
{
    exists|line: Result<String, CPSError>, read: ReplayContext|
        #[trigger] read_outcome(m.ctx, read, n, line) && match line {
            Ok(l) => line_stored(target, l@, RunState { ctx: read, ..m }, b, r, fuel),
            Err(e) => r == Err::<(), CPSError>(e) && b == RunState { ctx: read, ..m },
        }
}

/// What a statement does when `fuel` steps are left for it, with the values
/// of its expressions: DECLARE of an array defines it as `array_made` says;
/// OUTPUT shows the value; an assignment stores it in a variable (see
/// `literal_assignment`) or in an array element (see `element_assignment`);
/// INPUT into an array element stores the next line (see `element_input`);
/// RETURN hands the value back; the file statements work on the file that
/// their name gives (see `filename_value`, or `named_file` where the name is
/// evaluated as `expr_runs` says; READFILE stores the line as
/// `line_stored` says); IF runs the block that its condition picks; CASE,
/// WHILE, REPEAT and FOR run as `case_runs`, `while_runs`, `repeat_runs` and
/// `for_runs` say; a call runs as
/// `call_runs` says; a block runs its statements (see `block_runs`). Where
/// `expr_value` gives an expression's value, a condition that is not a
/// boolean is refused and an expression that fails ends the statement with
/// a runtime error that changes nothing; for OUTPUT, assignment, RETURN and
/// IF, other expressions, calls among them, are evaluated as `expr_runs`
/// says (see `after_expr`).
pub open spec fn evaluated_effect(s: Stmt, a: RunState, b: RunState, r: Result<(), CPSError>, fuel: nat) -> bool
    decreases fuel, 7nat,
{
    match s {
        Stmt::Output { target } => match evaluated(target, a, fuel) {
            Some(Ok(v)) => value_shown(v, a, b, r),
            Some(Err(_)) => refused(r, a, b),
            None => after_expr(target, a, b, r, fuel, |m: RunState, v: ValueV| value_shown(v, m, b, r)),
        },
        Stmt::Assignment { identifier, array_index, value } => match assigned_value(value, a, fuel) {
            Some(Ok(v)) => assignment_of(identifier@, array_index, v, a, b, r, fuel),
            Some(Err(_)) => refused(r, a, b),
            None => match value {
                Ast::Expression(e) => after_expr(
                    e,
                    a,
                    b,
                    r,
                    fuel,
                    |m: RunState, v: ValueV| assignment_of(identifier@, array_index, v, m, b, r, fuel),
                ),
                _ => true,
            },
        },
        Stmt::Return { value } => match evaluated(value, a, fuel) {
            Some(Ok(v)) => b == a && (r matches Err(e) && (e.error_type matches ErrorType::Return(x) && x@ == v)),
            Some(Err(_)) => refused(r, a, b),
            None => after_expr(
                value,
                a,
                b,
                r,
                fuel,
                |m: RunState, v: ValueV|
                    b == m && (r matches Err(e) && (e.error_type matches ErrorType::Return(x) && x@ == v)),
            ),
        },
        Stmt::If { condition, then_branch, else_branch } => match evaluated(condition, a, fuel) {
            Some(Ok(ValueV::Boolean(true))) => block_runs(then_branch.statements@, a, b, r, fuel),
            Some(Ok(ValueV::Boolean(false))) => match else_branch {
                Some(eb) => block_runs(eb.statements@, a, b, r, fuel),
                None => r is Ok && b == a,
            },
            Some(_) => refused(r, a, b),
            None => after_expr(
                condition,
                a,
                b,
                r,
                fuel,
                |m: RunState, v: ValueV|
                    match v {
                        ValueV::Boolean(true) => block_runs(then_branch.statements@, m, b, r, fuel),
                        ValueV::Boolean(false) => match else_branch {
                            Some(eb) => block_runs(eb.statements@, m, b, r, fuel),
                            None => r is Ok && b == m,
                        },
                        _ => refused(r, m, b),
                    },
            ),
        },
        Stmt::While { condition, body } => while_runs(condition, body.statements@, a, b, r, fuel),
        Stmt::Repeat { body, until } => repeat_runs(until, body.statements@, a, b, r, fuel),
        Stmt::For { identifier, start, end, body } => for_runs(identifier@, start, end, body.statements@, a, b, r, fuel),
        Stmt::Case { identifier, cases, otherwise } => case_runs(*identifier, cases@, otherwise, a, b, r, fuel),
        Stmt::Call { name, arguments } => exists|rv: Result<Value, CPSError>|
            #![trigger dropped(rv)]
            dropped(rv) == r && call_runs(name@, arguments@, a, b, rv, fuel),
        Stmt::Block(block) => block_runs(block.statements@, a, b, r, fuel),
        Stmt::Decleration { identifier, type_ } => match type_ {
            Type::Array(arr) => exists|mid: RunState, rv: Result<Value, CPSError>|
                #![trigger mid.ctx, dropped(rv)]
                array_made(arr, a, mid, rv, fuel) && match rv {
                    Err(x) => r == Err::<(), CPSError>(x) && b == mid,
                    Ok(v) => if mid.env.top().constants.contains(identifier@) {
                        refused(r, mid, b)
                    } else {
                        r is Ok && b == RunState { env: mid.env.defined(identifier@, v@), ..mid }
                    },
                },
            _ => true,
        },
        Stmt::Input { identifier } => match *identifier {
            Expr::ArrayAccess { name, index, col } => if a.ctx.input_pos < a.ctx.inputs@.len() {
                element_input(
                    name@,
                    *index,
                    col,
                    a.ctx.inputs@[a.ctx.input_pos as int]@,
                    RunState { ctx: ReplayContext { input_pos: (a.ctx.input_pos + 1) as usize, ..a.ctx }, ..a },
                    b,
                    r,
                    fuel,
                )
            } else {
                (r matches Err(e) && (e.error_type matches ErrorType::StepNeedsInput(v) && v@ == name@)) && b == a
            },
            _ => true,
        },
        Stmt::OpenFile { filename, mode } => match filename_value(*filename, a, fuel) {
            None => after_expr(*filename, a, b, r, fuel, |m: RunState, v: ValueV| named_file(v, m, b, r, |n: Seq<char>| b.env == m.env && open_outcome(m.ctx, b.ctx, n, mode, r))),
            Some(Err(_)) => refused(r, a, b),
            Some(Ok(n)) => b.env == a.env && open_outcome(a.ctx, b.ctx, n, mode, r),
        },
        Stmt::CloseFile { filename } => match filename_value(*filename, a, fuel) {
            None => after_expr(*filename, a, b, r, fuel, |m: RunState, v: ValueV| named_file(v, m, b, r, |n: Seq<char>| b.env == m.env && close_outcome(m.ctx, b.ctx, n, r))),
            Some(Err(_)) => refused(r, a, b),
            Some(Ok(n)) => b.env == a.env && close_outcome(a.ctx, b.ctx, n, r),
        },
        Stmt::WriteFile { filename, value } => match filename_value(*filename, a, fuel) {
            None => after_expr(*filename, a, b, r, fuel, |m: RunState, v: ValueV| named_file(v, m, b, r, |n: Seq<char>| after_expr(*value, m, b, r, fuel, |m2: RunState, w: ValueV| line_written(n, w, m2, b, r)))),
            Some(Err(_)) => refused(r, a, b),
            Some(Ok(n)) => match evaluated(*value, a, fuel) {
                Some(Ok(v)) => line_written(n, v, a, b, r),
                Some(Err(_)) => refused(r, a, b),
                None => after_expr(*value, a, b, r, fuel, |m2: RunState, w: ValueV| line_written(n, w, m2, b, r)),
            },
        },
        Stmt::ReadFile { filename, target } => match filename_value(*filename, a, fuel) {
            None => after_expr(*filename, a, b, r, fuel, |m: RunState, v: ValueV| named_file(v, m, b, r, |n: Seq<char>| line_read(*target, n, m, b, r, fuel))),
            Some(Err(_)) => refused(r, a, b),
            Some(Ok(n)) => line_read(*target, n, a, b, r, fuel),
        },
        _ => true,
    }
}

/// What running a statement does when `fuel` steps are left for it (see
/// `statement_effect` and `evaluated_effect`).
pub open spec fn stmt_runs(s: Stmt, a: RunState, b: RunState, r: Result<(), CPSError>, fuel: nat) -> bool
    decreases fuel, 8nat,
{
    statement_effect(s, a, b, r) && evaluated_effect(s, a, b, r, fuel)
}

/// The first `n` statements of a block ran to their end through `states`,
/// each with `fuel` steps.
pub open spec fn block_trace(stmts: Seq<Stmt>, states: Seq<RunState>, n: int, fuel: nat) -> bool
    decreases fuel, 9nat,
{
    &&& states.len() == n + 1
    &&& forall|j: int|
        #![trigger stmts[j]]
        0 <= j < n && j < stmts.len() ==> stmt_runs(stmts[j], states[j], states[j + 1], Ok(()), fuel)
}

/// Running the statements of a block from `a` ends in `b` with result `r`
/// when `fuel` steps are left: each statement runs with one step fewer, and
/// the first error ends the block; with no step left, a block that is not
/// empty is refused.
pub open spec fn block_runs(stmts: Seq<Stmt>, a: RunState, b: RunState, r: Result<(), CPSError>, fuel: nat) -> bool
    decreases fuel, 0nat,
{
    if stmts.len() == 0 {
        r is Ok && b == a
    } else if fuel == 0 {
        refused(r, a, b)
    } else {
        exists|states: Seq<RunState>, n: int|
            #![trigger states[n]]
            {
                &&& 0 <= n <= stmts.len()
                &&& block_trace(stmts, states, n, (fuel - 1) as nat)
                &&& states[0] == a
                &&& {
                    ||| n == stmts.len() && r is Ok && b == states[n]
                    ||| n < stmts.len() && r is Err && stmt_runs(stmts[n], states[n], b, r, (fuel - 1) as nat)
                }
            }
    }
}

/// Running a CASE on `subject` from `a` ends in `b` with result `r` when
/// `fuel` steps are left: the subject is evaluated as `expr_runs` says, its
/// error ending the statement, and the CASE goes on as `case_on` says.
pub open spec fn case_runs(
    subject: Expr,
    arms: Seq<(CaseCondition, BlockStmt)>,
    otherwise: Option<BlockStmt>,
    a: RunState,
    b: RunState,
    r: Result<(), CPSError>,
    fuel: nat,
) -> bool
    decreases fuel, 4nat,
{
    after_expr(subject, a, b, r, fuel, |m: RunState, v: ValueV| case_on(v, arms, otherwise, m, b, r, fuel))
}

/// A CASE on the value `v` from `a`: an identifier stands for its value,
/// and one that is not defined is refused (see `case_subject`); the arms
/// are tested in order (see `arms_trace`), and the block of the first that
/// selects the value runs, or else the OTHERWISE block, if any; an error in
/// a test ends the statement.
pub open spec fn case_on(
    v: ValueV,
    arms: Seq<(CaseCondition, BlockStmt)>,
    otherwise: Option<BlockStmt>,
    a: RunState,
    b: RunState,
    r: Result<(), CPSError>,
    fuel: nat,
) -> bool
    decreases fuel, 3nat,
{
    match case_subject(v, a.env) {
        None => refused(r, a, b),
        Some(w) => exists|states: Seq<RunState>, k: int, m: RunState, t: Result<bool, CPSError>|
            #![trigger states[k], m.ctx, dropped(t)]
            {
                &&& 0 <= k <= arms.len()
                &&& arms_trace(arms, w, states, k, fuel)
                &&& states[0] == a
                &&& if k == arms.len() {
                    match otherwise {
                        Some(ob) => block_runs(ob.statements@, states[k], b, r, fuel),
                        None => r is Ok && b == states[k],
                    }
                } else {
                    arm_runs(arms[k].0, w, states[k], m, t, fuel) && match t {
                        Err(x) => r == Err::<(), CPSError>(x) && b == m,
                        Ok(true) => block_runs(arms[k].1.statements@, m, b, r, fuel),
                        Ok(false) => false,
                    }
                }
            },
    }
}

/// A trace of the arms of a CASE grows by an arm that did not select the
/// value, tested from its last state to `next`.
proof fn lemma_arms_trace_grows(
    arms: Seq<(CaseCondition, BlockStmt)>,
    w: ValueV,
    states: Seq<RunState>,
    k: int,
    fuel: nat,
    next: RunState,
)
    requires
        0 <= k,
        arms_trace(arms, w, states, k, fuel),
        arm_runs(arms[k].0, w, states[k], next, Ok::<bool, CPSError>(false), fuel),
    ensures
        arms_trace(arms, w, states.push(next), k + 1, fuel),
{
    let st = states.push(next);
    assert forall|j: int| 0 <= j <= k implies #[trigger] st[j] == states[j] by {}
    assert(st[k + 1] == next);
}

/// A CASE as `case_on` describes it, from the trace of the arms it tested
/// and, where an arm was tested last, from that test, which ended in `m`
/// with result `t`.
#[verifier::spinoff_prover]
proof fn lemma_case_witness(
    v: ValueV,
    arms: Seq<(CaseCondition, BlockStmt)>,
    otherwise: Option<BlockStmt>,
    a: RunState,
    b: RunState,
    r: Result<(), CPSError>,
    fuel: nat,
    w: ValueV,
    states: Seq<RunState>,
    k: int,
    m: RunState,
    t: Result<bool, CPSError>,
)
    requires
        case_subject(v, a.env) == Some(w),
        0 <= k <= arms.len(),
        arms_trace(arms, w, states, k, fuel),
        states[0] == a,
        if k == arms.len() {
            match otherwise {
                Some(ob) => block_runs(ob.statements@, states[k], b, r, fuel),
                None => r is Ok && b == states[k],
            }
        } else {
            arm_runs(arms[k].0, w, states[k], m, t, fuel) && match t {
                Err(x) => r == Err::<(), CPSError>(x) && b == m,
                Ok(true) => block_runs(arms[k].1.statements@, m, b, r, fuel),
                Ok(false) => false,
            }
        },
    ensures
        case_on(v, arms, otherwise, a, b, r, fuel),
{
    assert(states[k] == states.last());
    assert(m.ctx.input_pos <= m.ctx.input_pos + 1);
    assert(dropped(t) is Err == t is Err);
}

/// The new scope of a call with its first `n` parameters bound, each to the
/// next free address, counting from `start`.
pub open spec fn frame_scope(params: Seq<(String, Type, PassingValue)>, n: nat, start: usize) -> ScopeView
    decreases n,
{
    if n == 0 {
        ScopeView { bindings: Map::empty(), files: Map::empty(), constants: Set::empty(), next_address: start }
    } else {
        let sc = frame_scope(params, (n - 1) as nat, start);
        ScopeView {
            bindings: sc.bindings.insert(params[n - 1].0@, sc.next_address),
            next_address: vstd::wrapping::usize_specs::wrapping_add(sc.next_address, 1),
            ..sc
        }
    }
}

/// `s` with `value` stored at `address` of the heap, and the top scope
/// handing out addresses from past it.
pub open spec fn stored_arg(s: RunState, address: usize, value: ValueV) -> RunState {
    RunState {
        env: EnvView {
            heap: s.env.heap.insert(address, value),
            scopes: s.env.scopes.update(
                s.env.scopes.len() - 1,
                ScopeView { next_address: vstd::wrapping::usize_specs::wrapping_add(address, 1), ..s.env.top() },
            ),
        },
        ..s
    }
}

/// A state that differs from `before` as `stored_arg` says is that state.
proof fn lemma_stored_arg(before: RunState, after: RunState, address: usize, value: ValueV)
    requires
        before.env.scopes.len() >= 1,
        after.ctx == before.ctx,
        after.env.heap == before.env.heap.insert(address, value),
        after.env.scopes == before.env.scopes.update(
            before.env.scopes.len() - 1,
            ScopeView { next_address: vstd::wrapping::usize_specs::wrapping_add(address, 1), ..before.env.top() },
        ),
    ensures
        after == stored_arg(before, address, value),
        after.env.scopes.len() == before.env.scopes.len(),
{
}

/// The first `n` arguments of a call ran through `states`: argument `i` was
/// evaluated from `states[i]` (see `expr_runs`) to `evals[i]`, giving
/// `vals[i]`, which fits the type of its parameter (where it holds no real;
/// the host checks reals), and was stored at the address that its
/// parameter gets in the call's new scope (see `frame_scope`), which gives
/// `states[i + 1]`.
pub open spec fn args_trace(
    args: Seq<Expr>,
    params: Seq<(String, Type, PassingValue)>,
    start: usize,
    states: Seq<RunState>,
    evals: Seq<RunState>,
    vals: Seq<Value>,
    n: int,
    fuel: nat,
) -> bool
    decreases fuel, 1nat,
{
    &&& states.len() == n + 1
    &&& evals.len() >= n
    &&& vals.len() >= n
    &&& forall|i: int|
        #![trigger states[i]]
        0 <= i < n ==> expr_runs(args[i], states[i], evals[i], Ok(vals[i]), fuel) && (crate::types::real_free(vals[i]@)
            ==> crate::types::fits(vals[i]@, params[i].1)) && states[i + 1] == stored_arg(
            evals[i],
            frame_scope(params, i as nat, start).next_address,
            vals[i]@,
        )
}

/// How a call ends once its body ended in `mid` with result `rb`: an error
/// other than RETURN ends the call where it stands; otherwise the call's
/// scope is dropped, and a function hands back the value it returned, which
/// must fit its return type, and a procedure, which must return none, gives
/// FALSE.
pub open spec fn call_end(
    name: Seq<char>,
    return_type: Option<Type>,
    mid: RunState,
    rb: Result<(), CPSError>,
    b: RunState,
    r: Result<Value, CPSError>,
) -> bool {
    let popped = RunState { env: EnvView { scopes: mid.env.scopes.drop_last(), heap: mid.env.heap }, ctx: mid.ctx };
    let returned: Option<Option<ValueV>> = match rb {
        Ok(_) => Some(None),
        Err(e) => match e.error_type {
            ErrorType::Return(v) => Some(Some(v@)),
            _ => None,
        },
    };
    match returned {
        None => (r matches Err(e) && rb == Err::<(), CPSError>(e)) && b == mid,
        Some(ret) => b == popped && match (ret, return_type) {
            (Some(v), Some(t)) => crate::types::real_free(v) ==> if crate::types::fits(v, t) {
                r matches Ok(x) && x@ == v
            } else {
                r matches Err(e) && is_runtime(e)
            },
            (None, None) => r matches Ok(x) && x@ == ValueV::Boolean(false),
            _ => r matches Err(e) && is_runtime(e),
        },
    }
}

/// How a call goes on once its first `n` arguments are passed, from `s`:
/// with all passed, the body runs in the new scope (see `frame_scope`) as a
/// block and the call ends as `call_end` says; otherwise argument `n` is
/// evaluated from `s` to `eval`, and its error, or a value that does not fit
/// its parameter, ends the call.
pub open spec fn call_rest(
    name: Seq<char>,
    args: Seq<Expr>,
    f: Rc<Function>,
    start: usize,
    s: RunState,
    eval: RunState,
    n: int,
    b: RunState,
    r: Result<Value, CPSError>,
    fuel: nat,
) -> bool
    decreases fuel, 1nat,
{
    if n == args.len() {
        exists|mid: RunState, rb: Result<(), CPSError>|
            #![trigger call_end(name, f.return_type, mid, rb, b, r)]
            block_runs(
                f.body.statements@,
                RunState {
                    env: EnvView {
                        scopes: s.env.scopes.push(frame_scope(f.parameters@, n as nat, start)),
                        heap: s.env.heap,
                    },
                    ctx: s.ctx,
                },
                mid,
                rb,
                fuel,
            ) && call_end(name, f.return_type, mid, rb, b, r)
    } else {
        fuel > 0 && exists|fail: Result<Value, CPSError>|
            #![trigger dropped(fail)]
            expr_runs(args[n], s, eval, fail, (fuel - 1) as nat) && b == eval && match fail {
                Err(x) => r == Err::<Value, CPSError>(x),
                Ok(v) => (crate::types::real_free(v@) ==> !crate::types::fits(v@, f.parameters@[n].1)) && (r matches Err(
                    x,
                ) && is_runtime(x)),
            }
    }
}

/// The first `n` arguments of a builtin call ran through `states`:
/// argument `i` was evaluated from `states[i]` to `states[i + 1]`, giving
/// `vals[i]` (see `expr_runs`).
pub open spec fn values_trace(args: Seq<Expr>, states: Seq<RunState>, vals: Seq<Value>, n: int, fuel: nat) -> bool
    decreases fuel, 1nat,
{
    &&& states.len() == n + 1
    &&& vals.len() == n
    &&& forall|i: int|
        #![trigger states[i]]
        0 <= i < n ==> expr_runs(args[i], states[i], states[i + 1], Ok::<Value, CPSError>(vals[i]), fuel)
}

/// Evaluating the arguments `args` in order from `a` ends in `b` with
/// result `r` when `fuel` steps are left: all their values (see
/// `values_trace`), or the error of the first that fails, where evaluation
/// stopped.
pub open spec fn arguments_run(args: Seq<Expr>, a: RunState, b: RunState, r: Result<Vec<Value>, CPSError>, fuel: nat) -> bool
    decreases fuel, 2nat,
{
    exists|states: Seq<RunState>, vals: Seq<Value>, n: int, fail: Result<Value, CPSError>|
        #![trigger states[n], vals.len(), dropped(fail)]
        {
            &&& 0 <= n <= args.len()
            &&& values_trace(args, states, vals, n, fuel)
            &&& states[0] == a
            &&& if n == args.len() {
                b == states[n] && (r matches Ok(v) && v@ == vals)
            } else {
                expr_runs(args[n], states[n], b, fail, fuel) && (fail matches Err(x) && r == Err::<Vec<Value>, CPSError>(x))
            }
        }
}

/// A trace of the arguments of a builtin call grows by one that was
/// evaluated from its last state to `next`, giving `v`.
#[verifier::spinoff_prover]
proof fn lemma_values_trace_grows(args: Seq<Expr>, states: Seq<RunState>, vals: Seq<Value>, n: int, fuel: nat, next: RunState, v: Value)
    requires
        0 <= n,
        values_trace(args, states, vals, n, fuel),
        expr_runs(args[n], states[n], next, Ok::<Value, CPSError>(v), fuel),
    ensures
        values_trace(args, states.push(next), vals.push(v), n + 1, fuel),
{
    let st = states.push(next);
    let vs = vals.push(v);
    assert forall|j: int| 0 <= j <= n implies #[trigger] st[j] == states[j] by {}
    assert forall|j: int| 0 <= j < n implies #[trigger] vs[j] == vals[j] by {}
    assert(st[n + 1] == next && vs[n] == v);
}

/// The arguments of a builtin call ran as `arguments_run` describes it, from
/// their trace and, where one failed, its evaluation to `b` with `fail`.
proof fn lemma_arguments_witness(
    args: Seq<Expr>,
    a: RunState,
    b: RunState,
    r: Result<Vec<Value>, CPSError>,
    fuel: nat,
    states: Seq<RunState>,
    vals: Seq<Value>,
    n: int,
    fail: Result<Value, CPSError>,
)
    requires
        0 <= n <= args.len(),
        values_trace(args, states, vals, n, fuel),
        states[0] == a,
        if n == args.len() {
            b == states[n] && (r matches Ok(v) && v@ == vals)
        } else {
            expr_runs(args[n], states[n], b, fail, fuel) && (fail matches Err(x) && r == Err::<Vec<Value>, CPSError>(x))
        },
    ensures
        arguments_run(args, a, b, r, fuel),
{
    assert(states[n] == states.last());
    assert(dropped(fail) is Err == fail is Err);
}

/// `b` is `a` after RAND recorded the value `v` it drew.
pub open spec fn rand_logged(a: RunState, b: RunState, v: ValueV) -> bool {
    &&& b.env == a.env
    &&& crate::replay::logged_values(b.ctx.rand_log@) == crate::replay::logged_values(a.ctx.rand_log@).push(v)
    &&& b.ctx.rand_pos == (if a.ctx.rand_pos == usize::MAX {
        usize::MAX
    } else {
        (a.ctx.rand_pos + 1) as usize
    })
    &&& b.ctx.inputs == a.ctx.inputs
    &&& b.ctx.input_pos == a.ctx.input_pos
    &&& b.ctx.output_skip == a.ctx.output_skip
    &&& b.ctx.virtual_fs == a.ctx.virtual_fs
}

/// Running a call of the builtin `name` with `args` from `a` ends in `b`
/// with result `r` when `fuel` steps are left: the arguments are evaluated
/// (see `arguments_run`), the first error ending the call; RAND then gives
/// the value that an earlier run drew at this point, if the replay context
/// holds one, and moves past it; otherwise the host computes the result
/// (left open here), which changes neither the environment nor the replay
/// context, except that RAND records the value it drew.
pub open spec fn builtin_runs(name: Seq<char>, args: Seq<Expr>, a: RunState, b: RunState, r: Result<Value, CPSError>, fuel: nat) -> bool
    decreases fuel, 1nat,
{
    if fuel == 0 {
        refused(r, a, b)
    } else {
        exists|mid: RunState, ar: Result<Vec<Value>, CPSError>|
            #![trigger mid.ctx, dropped(ar)]
            arguments_run(args, a, mid, ar, (fuel - 1) as nat) && match ar {
                Err(x) => r == Err::<Value, CPSError>(x) && b == mid,
                Ok(_) => if name == "RAND"@ {
                    if mid.ctx.rand_pos < mid.ctx.rand_log@.len() {
                        (r matches Ok(v) && v@ == mid.ctx.rand_log@[mid.ctx.rand_pos as int]@) && b == RunState {
                            ctx: ReplayContext { rand_pos: (mid.ctx.rand_pos + 1) as usize, ..mid.ctx },
                            ..mid
                        }
                    } else {
                        match r {
                            Ok(v) => rand_logged(mid, b, v@),
                            Err(_) => b == mid,
                        }
                    }
                } else {
                    b == mid
                },
            }
    }
}

/// Running a call of `name` with `args` from `a` ends in `b` with result
/// `r`, the value it gives or an error, when `fuel` steps are left: a
/// builtin runs as `builtin_runs` says, and a procedure or function bound to
/// `name` as `function_runs` says; a call that cannot go ahead is described
/// by `call_refused`.
pub open spec fn call_runs(name: Seq<char>, args: Seq<Expr>, a: RunState, b: RunState, r: Result<Value, CPSError>, fuel: nat) -> bool
    decreases fuel, 3nat,
{
    if is_builtin_name(name) {
        builtin_runs(name, args, a, b, r, fuel)
    } else {
        match a.env.lookup(name) {
            Some(ValueV::Function(f)) => function_runs(name, args, f, a, b, r, fuel),
            _ => (r matches Err(e) && is_runtime_error(e, "Undefined function: "@ + name)) && b == a,
        }
    }
}

/// Running a call of the procedure or function `f`, bound to `name`, with
/// `args` from `a` ends in `b` with result `r` when `fuel` steps are left:
/// with as many arguments as parameters, the arguments are evaluated,
/// checked and bound in a new scope (see `args_trace`), the first that
/// fails ends the call, the body runs in that scope as a block, and the
/// call ends as `call_end` says.
pub open spec fn function_runs(name: Seq<char>, args: Seq<Expr>, f: Rc<Function>, a: RunState, b: RunState, r: Result<Value, CPSError>, fuel: nat) -> bool
    decreases fuel, 2nat,
{
    if f.parameters@.len() != args.len() {
        (r matches Err(e) && is_runtime_error(
            e,
            "Function '"@ + name + "' expected "@ + crate::text::nat_text(f.parameters@.len()) + " arguments, got "@
                + crate::text::nat_text(args.len()),
        )) && b == a
    } else if fuel == 0 {
            refused(r, a, b)
        } else {
            exists|states: Seq<RunState>, evals: Seq<RunState>, vals: Seq<Value>, n: int|
                #![trigger states[n], evals[n], vals.len()]
                {
                    &&& 0 <= n <= args.len()
                    &&& args_trace(
                        args,
                        f.parameters@,
                        a.env.top().next_address,
                        states,
                        evals,
                        vals,
                        n,
                        (fuel - 1) as nat,
                    )
                    &&& evals.len() == n + 1
                    &&& vals.len() == n + 1
                    &&& states[0] == a
                    &&& call_rest(name, args, f, a.env.top().next_address, states[n], evals[n], n, b, r, fuel)
                }
        }
}

/// `r` is the element `index` (and column `col`) of the array `name` in
/// `env`, or a runtime error where there is none (see `element_value`).
pub open spec fn element_read(r: Result<Value, CPSError>, env: EnvView, name: Seq<char>, index: i64, col: Option<i64>) -> bool {
    match element_value(env, name, index, col) {
        Ok(w) => r matches Ok(x) && x@ == w,
        Err(_) => r matches Err(e) && is_runtime(e),
    }
}

/// Evaluating the expression `e` from `a` ends in `b` with result `r` when
/// `fuel` steps are left. A literal, as `literal_result` says; an EOF, as
/// `eof_value` says; both change nothing. A binary operation evaluates its
/// left operand, then its right one (see `ast_runs`), each with two steps
/// fewer, and applies its operator (see `binary_result`); an array element
/// evaluates its index and column in the same way (see `index_of` and
/// `element_read`); a call runs as `call_runs` says, with one step fewer.
/// The first error is the result. With no step left, all but a literal are
/// refused.
pub open spec fn expr_runs(e: Expr, a: RunState, b: RunState, r: Result<Value, CPSError>, fuel: nat) -> bool
    decreases fuel, 0nat,
{
    match e {
        Expr::Literal(lit) => b == a && literal_result(r, lit@, a.env),
        _ => if fuel == 0 {
            refused(r, a, b)
        } else {
            match e {
                Expr::Binary(bx) => if fuel == 1 {
                    refused(r, a, b)
                } else {
                    exists|m: RunState, lv: Result<Value, CPSError>|
                        #![trigger m.ctx, dropped(lv)]
                        ast_runs(*bx.left, a, m, lv, (fuel - 2) as nat) && match lv {
                            Err(x) => r == Err::<Value, CPSError>(x) && b == m,
                            Ok(l) => exists|m2: RunState, xv: Result<Value, CPSError>|
                                #![trigger m2.ctx, dropped(xv)]
                                ast_runs(*bx.right, m, m2, xv, (fuel - 2) as nat) && match xv {
                                    Err(x) => r == Err::<Value, CPSError>(x) && b == m2,
                                    Ok(rv) => b == m2 && (binary_result(bx.operator, l@, rv@) matches Some(res) ==> gives(
                                        r,
                                        res,
                                    )),
                                },
                        }
                },
                Expr::ArrayAccess { name, index, col } => if fuel == 1 {
                    refused(r, a, b)
                } else {
                    exists|m: RunState, iv: Result<Value, CPSError>|
                        #![trigger m.ctx, dropped(iv)]
                        expr_runs(*index, a, m, iv, (fuel - 2) as nat) && match iv {
                            Err(x) => r == Err::<Value, CPSError>(x) && b == m,
                            Ok(i) => match index_of(i@) {
                                None => true,
                                Some(Err(_)) => refused(r, m, b),
                                Some(Ok(n)) => match col {
                                    None => b == m && element_read(r, m.env, name@, n, None),
                                    Some(c) => exists|m2: RunState, cv: Result<Value, CPSError>|
                                        #![trigger m2.ctx, dropped(cv)]
                                        expr_runs(*c, m, m2, cv, (fuel - 2) as nat) && match cv {
                                            Err(x) => r == Err::<Value, CPSError>(x) && b == m2,
                                            Ok(cvv) => match index_of(cvv@) {
                                                None => true,
                                                Some(Err(_)) => refused(r, m2, b),
                                                Some(Ok(j)) => b == m2 && element_read(r, m2.env, name@, n, Some(j)),
                                            },
                                        },
                                },
                            },
                        }
                },
                Expr::Call { name, arguments } => call_runs(name@, arguments@, a, b, r, (fuel - 1) as nat),
                Expr::EOF { filename } => b == a && match eof_value(a.ctx, filename@) {
                    Ok(v) => r matches Ok(x) && x@ == v,
                    Err(_) => r matches Err(x) && is_runtime(x),
                },
                _ => true,
            }
        },
    }
}

/// Evaluating a node as an operand from `a` ends in `b` with result `r`
/// when `fuel` steps are left: an expression as `expr_runs` says, an
/// identifier as the value it names (an error where it names none); of a
/// statement in that place nothing is said here.
pub open spec fn ast_runs(node: Ast, a: RunState, b: RunState, r: Result<Value, CPSError>, fuel: nat) -> bool
    decreases fuel, 1nat,
{
    match node {
        Ast::Expression(e) => expr_runs(e, a, b, r, fuel),
        Ast::Identifier(name) => b == a && match a.env.lookup(name@) {
            Some(w) => r matches Ok(x) && x@ == w,
            None => r matches Err(x) && is_runtime(x),
        },
        Ast::Stmt(_) => true,
    }
}

/// What a statement does with the outcome of its expression `e`, evaluated
/// from `a` as `expr_runs` says when `fuel` steps are left: an error ends
/// the statement where evaluation stopped, and the value goes on as `then`
/// says, from the state where evaluation ended.
pub open spec fn after_expr(
    e: Expr,
    a: RunState,
    b: RunState,
    r: Result<(), CPSError>,
    fuel: nat,
    then: spec_fn(RunState, ValueV) -> bool,
) -> bool
    decreases fuel, 1nat,
{
    exists|mid: RunState, rv: Result<Value, CPSError>|
        #![trigger mid.ctx, dropped(rv)]
        expr_runs(e, a, mid, rv, fuel) && match rv {
            Err(x) => r == Err::<(), CPSError>(x) && b == mid,
            Ok(v) => then(mid, v@),
        }
}

/// The first `k` rounds of a WHILE ran through `states`: in round `i` the
/// condition, evaluated from `states[i]` as `checks[i]` records (see
/// `expr_runs`), was TRUE, and the body then ran to its end.
pub open spec fn while_trace(
    cond: Expr,
    body: Seq<Stmt>,
    states: Seq<RunState>,
    checks: Seq<Check>,
    k: int,
    fuel: nat,
) -> bool
    decreases fuel, 1nat,
{
    &&& states.len() == k + 1
    &&& checks.len() >= k
    &&& forall|i: int|
        #![trigger states[i]]
        0 <= i < k ==> expr_runs(cond, states[i], checks[i].after, checks[i].outcome, fuel) && (
        checks[i].outcome matches Ok(v) && v@ == ValueV::Boolean(true)) && block_runs(
            body,
            checks[i].after,
            states[i + 1],
            Ok(()),
            fuel,
        )
}

/// Running WHILE `cond` DO `body` from `a` ends in `b` with result `r` when
/// `fuel` steps are left: the condition is evaluated before each round (see
/// `expr_runs`); the loop ends when it is FALSE, fails when it is not a
/// boolean, and runs the body when it is TRUE, at most `fuel` times; the
/// first error, in the condition or the body, ends the loop.
pub open spec fn while_runs(cond: Expr, body: Seq<Stmt>, a: RunState, b: RunState, r: Result<(), CPSError>, fuel: nat) -> bool
    decreases fuel, 2nat,
{
    exists|states: Seq<RunState>, checks: Seq<Check>, k: int|
        #![trigger states[k], checks[k]]
        {
            &&& 0 <= k <= fuel
            &&& while_trace(cond, body, states, checks, k, fuel)
            &&& checks.len() == k + 1
            &&& states[0] == a
            &&& expr_runs(cond, states[k], checks[k].after, checks[k].outcome, fuel)
            &&& match checks[k].outcome {
                Err(x) => r == Err::<(), CPSError>(x) && b == checks[k].after,
                Ok(v) => match v@ {
                    ValueV::Boolean(true) => if k == fuel {
                        refused(r, checks[k].after, b)
                    } else {
                        r is Err && block_runs(body, checks[k].after, b, r, fuel)
                    },
                    ValueV::Boolean(false) => r is Ok && b == checks[k].after,
                    _ => refused(r, checks[k].after, b),
                },
            }
        }
}

/// A run of WHILE as `while_runs` describes it, from its trace.
proof fn lemma_while_witness(
    cond: Expr,
    body: Seq<Stmt>,
    states: Seq<RunState>,
    checks: Seq<Check>,
    k: int,
    fuel: nat,
    a: RunState,
    b: RunState,
    r: Result<(), CPSError>,
)
    requires
        0 <= k <= fuel,
        while_trace(cond, body, states, checks, k, fuel),
        checks.len() == k + 1,
        states[0] == a,
        expr_runs(cond, states[k], checks[k].after, checks[k].outcome, fuel),
        match checks[k].outcome {
            Err(x) => r == Err::<(), CPSError>(x) && b == checks[k].after,
            Ok(v) => match v@ {
                ValueV::Boolean(true) => if k == fuel {
                    refused(r, checks[k].after, b)
                } else {
                    r is Err && block_runs(body, checks[k].after, b, r, fuel)
                },
                ValueV::Boolean(false) => r is Ok && b == checks[k].after,
                _ => refused(r, checks[k].after, b),
            },
        },
    ensures
        while_runs(cond, body, a, b, r, fuel),
{
    assert(states[k] == states[k] && checks[k] == checks[k]);
}

/// A trace of WHILE rounds grows by a round whose condition was TRUE and
/// whose body ran to `next`.
#[verifier::spinoff_prover]
proof fn lemma_while_trace_grows(
    cond: Expr,
    body: Seq<Stmt>,
    states: Seq<RunState>,
    checks: Seq<Check>,
    k: int,
    fuel: nat,
    next: RunState,
)
    requires
        while_trace(cond, body, states, checks, k, fuel),
        checks.len() == k + 1,
        expr_runs(cond, states[k], checks[k].after, checks[k].outcome, fuel),
        checks[k].outcome matches Ok(v) && v@ == ValueV::Boolean(true),
        block_runs(body, checks[k].after, next, Ok(()), fuel),
    ensures
        while_trace(cond, body, states.push(next), checks, k + 1, fuel),
{
    let st = states.push(next);
    assert forall|i: int| 0 <= i <= k implies #[trigger] st[i] == states[i] by {}
    assert(st[k + 1] == next);
}

/// A trace of WHILE rounds still holds with one more check after it.
#[verifier::spinoff_prover]
proof fn lemma_while_trace_checked(
    cond: Expr,
    body: Seq<Stmt>,
    states: Seq<RunState>,
    checks: Seq<Check>,
    k: int,
    fuel: nat,
    c: Check,
)
    requires
        while_trace(cond, body, states, checks, k, fuel),
        checks.len() == k,
    ensures
        while_trace(cond, body, states, checks.push(c), k, fuel),
{
    let cs = checks.push(c);
    assert forall|i: int| 0 <= i < k implies #[trigger] cs[i] == checks[i] by {}
}

/// The first `k` rounds of a REPEAT ran through `states`: in round `i` the
/// body ran from `states[i]` to its end in `mids[i]`, and the condition,
/// evaluated from there as `checks[i]` records (see `expr_runs`), was FALSE;
/// the next round starts where that evaluation ended.
pub open spec fn repeat_trace(
    cond: Expr,
    body: Seq<Stmt>,
    states: Seq<RunState>,
    mids: Seq<RunState>,
    checks: Seq<Check>,
    k: int,
    fuel: nat,
) -> bool
    decreases fuel, 1nat,
{
    &&& states.len() == k + 1
    &&& mids.len() >= k
    &&& checks.len() >= k
    &&& forall|i: int|
        #![trigger states[i]]
        0 <= i < k ==> block_runs(body, states[i], mids[i], Ok(()), fuel) && expr_runs(
            cond,
            mids[i],
            checks[i].after,
            checks[i].outcome,
            fuel,
        ) && (checks[i].outcome matches Ok(v) && v@ == ValueV::Boolean(false)) && states[i + 1] == checks[i].after
}

/// Running REPEAT `body` UNTIL `cond` from `a` ends in `b` with result `r`
/// when `fuel` steps are left: the body runs, at most `fuel` times, and the
/// condition is evaluated after each round (see `expr_runs`); the loop ends
/// when it is TRUE and fails when it is not a boolean; the first error, in
/// the body or the condition, ends the loop.
pub open spec fn repeat_runs(cond: Expr, body: Seq<Stmt>, a: RunState, b: RunState, r: Result<(), CPSError>, fuel: nat) -> bool
    decreases fuel, 2nat,
{
    exists|states: Seq<RunState>, mids: Seq<RunState>, checks: Seq<Check>, k: int|
        #![trigger states[k], mids[k], checks[k]]
        {
            &&& 0 <= k <= fuel
            &&& repeat_trace(cond, body, states, mids, checks, k, fuel)
            &&& mids.len() == k + 1
            &&& checks.len() == k + 1
            &&& states[0] == a
            &&& repeat_end(cond, body, states[k], mids[k], checks[k], k == fuel, b, r, fuel)
        }
}

/// How the last round of a REPEAT from `start` ends: with no step left it
/// is refused; otherwise an error in the body ends the loop, or the body
/// ends in `mid`, the condition is evaluated from there as `check` records,
/// and the loop ends when it is TRUE, or fails.
pub open spec fn repeat_end(
    cond: Expr,
    body: Seq<Stmt>,
    start: RunState,
    mid: RunState,
    check: Check,
    exhausted: bool,
    b: RunState,
    r: Result<(), CPSError>,
    fuel: nat,
) -> bool
    decreases fuel, 1nat,
{
    if exhausted {
        refused(r, start, b)
    } else {
        ||| r is Err && block_runs(body, start, b, r, fuel)
        ||| block_runs(body, start, mid, Ok(()), fuel) && expr_runs(cond, mid, check.after, check.outcome, fuel)
            && match check.outcome {
            Err(x) => r == Err::<(), CPSError>(x) && b == check.after,
            Ok(v) => match v@ {
                ValueV::Boolean(true) => r is Ok && b == check.after,
                ValueV::Boolean(false) => false,
                _ => refused(r, check.after, b),
            },
        }
    }
}

/// `state` with the loop variable `name` set to `value`, when it can be set.
pub open spec fn with_counter(state: RunState, name: Seq<char>, value: int) -> Option<RunState> {
    match assigned_env(state.env, name, ValueV::Integer(value as i64)) {
        Some(e) => Some(RunState { env: e, ..state }),
        None => None,
    }
}

/// The first `k` rounds of a FOR from `s` to `e` ran through `states`: in
/// round `i` the variable was set to `s + i`, which is below `e`, and the
/// body ran to its end.
pub open spec fn for_trace(name: Seq<char>, s: int, e: int, body: Seq<Stmt>, states: Seq<RunState>, k: int, fuel: nat) -> bool
    decreases fuel, 1nat,
{
    &&& states.len() == k + 1
    &&& forall|i: int|
        #![trigger states[i]]
        0 <= i < k ==> s + i < e && match with_counter(states[i], name, s + i) {
            Some(c) => block_runs(body, c, states[i + 1], Ok(()), fuel),
            None => false,
        }
}

/// Running FOR `name` from `start` to `end` over `body` from `a` ends in `b`
/// with result `r` when `fuel` steps are left: the start and then the end
/// value are evaluated as `expr_runs` says, the first error ending the
/// statement, and the loop goes on from there as `for_from` says.
pub open spec fn for_runs(
    name: Seq<char>,
    start: Expr,
    end: Expr,
    body: Seq<Stmt>,
    a: RunState,
    b: RunState,
    r: Result<(), CPSError>,
    fuel: nat,
) -> bool
    decreases fuel, 4nat,
{
    after_expr(
        start,
        a,
        b,
        r,
        fuel,
        |m: RunState, sv: ValueV|
            after_expr(end, m, b, r, fuel, |m2: RunState, ev: ValueV| for_from(name, sv, ev, body, m2, b, r, fuel)),
    )
}

/// A bound `v` taken as the integer `n`: an integer bound is taken as
/// itself.
pub open spec fn taken_as(v: ValueV, n: i64) -> bool {
    v is Integer ==> v == ValueV::Integer(n)
}

/// A FOR loop with the bounds `sv` and `ev` from `a`: both must be numbers.
/// Integer bounds run as `for_ints` says. A real bound is taken as an
/// integer by the host, which may also refuse it (one with a fraction): the
/// loop is then refused, changing nothing, or runs as `for_ints` says with
/// some integer in its place, an integer bound keeping its value.
pub open spec fn for_from(
    name: Seq<char>,
    sv: ValueV,
    ev: ValueV,
    body: Seq<Stmt>,
    a: RunState,
    b: RunState,
    r: Result<(), CPSError>,
    fuel: nat,
) -> bool
    decreases fuel, 3nat,
{
    if !(sv is Integer || sv is Real) || !(ev is Integer || ev is Real) {
        refused(r, a, b)
    } else {
        match (sv, ev) {
            (ValueV::Integer(s), ValueV::Integer(e)) => for_ints(name, s, e, body, a, b, r, fuel),
            _ => refused(r, a, b) || exists|s: i64, e: i64|
                #![trigger taken_as(sv, s), taken_as(ev, e)]
                taken_as(sv, s) && taken_as(ev, e) && for_ints(
                    name,
                    s,
                    e,
                    body,
                    a,
                    b,
                    r,
                    fuel,
                ),
        }
    }
}

/// A FOR loop from the integer `s` to the integer `e` from `a`: the
/// variable is defined in the top scope as the start value (refused where
/// it is held constant there), and the body runs once for each integer
/// from the start to the end value, at most `fuel` times, with the variable
/// set to it; the first error ends the loop.
pub open spec fn for_ints(
    name: Seq<char>,
    s: i64,
    e: i64,
    body: Seq<Stmt>,
    a: RunState,
    b: RunState,
    r: Result<(), CPSError>,
    fuel: nat,
) -> bool
    decreases fuel, 2nat,
{
    if a.env.top().constants.contains(name) {
        refused(r, a, b)
    } else {
        let first = RunState { env: a.env.defined(name, ValueV::Integer(s)), ..a };
        if e < s {
            r is Ok && b == first
        } else {
            exists|states: Seq<RunState>, k: int|
                #![trigger states[k]]
                {
                    &&& 0 <= k <= fuel && s + k <= e
                    &&& for_trace(name, s as int, e as int, body, states, k, fuel)
                    &&& states[0] == first
                    &&& if k == fuel {
                        refused(r, states[k], b)
                    } else {
                        match with_counter(states[k], name, s + k) {
                            None => refused(r, states[k], b),
                            Some(c) => block_runs(body, c, b, r, fuel) && (r is Err || s + k == e),
                        }
                    }
                }
        }
    }
}

/// A run of FOR as `for_runs` describes it, from its trace.
proof fn lemma_for_witness(
    name: Seq<char>,
    s: int,
    e: int,
    body: Seq<Stmt>,
    states: Seq<RunState>,
    k: int,
    fuel: nat,
    b: RunState,
    r: Result<(), CPSError>,
)
    requires
        0 <= k <= fuel && s + k <= e,
        for_trace(name, s, e, body, states, k, fuel),
        if k == fuel {
            refused(r, states[k], b)
        } else {
            match with_counter(states[k], name, s + k) {
                None => refused(r, states[k], b),
                Some(c) => block_runs(body, c, b, r, fuel) && (r is Err || s + k == e),
            }
        },
    ensures
        exists|st: Seq<RunState>, j: int|
            #![trigger st[j]]
            {
                &&& 0 <= j <= fuel && s + j <= e
                &&& for_trace(name, s, e, body, st, j, fuel)
                &&& st[0] == states[0]
                &&& if j == fuel {
                    refused(r, st[j], b)
                } else {
                    match with_counter(st[j], name, s + j) {
                        None => refused(r, st[j], b),
                        Some(c) => block_runs(body, c, b, r, fuel) && (r is Err || s + j == e),
                    }
                }
            },
{
    assert(states[k] == states[k]);
}

/// A run of FOR with integer bounds, from its trace.
proof fn lemma_for_done(
    name: Seq<char>,
    body: Seq<Stmt>,
    a: RunState,
    s: i64,
    e: i64,
    states: Seq<RunState>,
    k: int,
    fuel: nat,
    b: RunState,
    r: Result<(), CPSError>,
)
    requires
        !a.env.top().constants.contains(name),
        states[0] == (RunState { env: a.env.defined(name, ValueV::Integer(s)), ..a }),
        s <= e,
        0 <= k <= fuel && s + k <= e,
        for_trace(name, s as int, e as int, body, states, k, fuel),
        if k == fuel {
            refused(r, states[k], b)
        } else {
            match with_counter(states[k], name, s + k) {
                None => refused(r, states[k], b),
                Some(c) => block_runs(body, c, b, r, fuel) && (r is Err || s + k == e),
            }
        },
    ensures
        for_ints(name, s, e, body, a, b, r, fuel),
{
    lemma_for_witness(name, s as int, e as int, body, states, k, fuel, b, r);
}

/// A FOR as `for_runs` describes it, from the evaluation of its start
/// value from `a` to `m1` with outcome `sres` and, where that gave a value,
/// of its end value from `m1` to `m2` with outcome `eres`.
proof fn lemma_for_runs(
    name: Seq<char>,
    start: Expr,
    end: Expr,
    body: Seq<Stmt>,
    a: RunState,
    m1: RunState,
    sres: Result<Value, CPSError>,
    m2: RunState,
    eres: Result<Value, CPSError>,
    b: RunState,
    r: Result<(), CPSError>,
    fuel: nat,
)
    requires
        expr_runs(start, a, m1, sres, fuel),
        match sres {
            Err(x) => r == Err::<(), CPSError>(x) && b == m1,
            Ok(sv) => expr_runs(end, m1, m2, eres, fuel) && match eres {
                Err(x) => r == Err::<(), CPSError>(x) && b == m2,
                Ok(ev) => for_from(name, sv@, ev@, body, m2, b, r, fuel),
            },
        },
    ensures
        for_runs(name, start, end, body, a, b, r, fuel),
{
    assert(m1.ctx.input_pos <= m1.ctx.input_pos + 1);
    assert(m2.ctx.input_pos <= m2.ctx.input_pos + 1);
    assert(dropped(sres) is Err == sres is Err);
    assert(dropped(eres) is Err == eres is Err);
}

/// A FOR as `for_from` describes it, from the run of the loop over the
/// integers `s` and `e` that its bounds were taken as.
proof fn lemma_for_from(
    name: Seq<char>,
    sv: ValueV,
    ev: ValueV,
    s: i64,
    e: i64,
    body: Seq<Stmt>,
    a: RunState,
    b: RunState,
    r: Result<(), CPSError>,
    fuel: nat,
)
    requires
        sv is Integer || sv is Real,
        ev is Integer || ev is Real,
        sv is Integer ==> sv == ValueV::Integer(s),
        ev is Integer ==> ev == ValueV::Integer(e),
        for_ints(name, s, e, body, a, b, r, fuel),
    ensures
        for_from(name, sv, ev, body, a, b, r, fuel),
{
    assert(taken_as(sv, s) && taken_as(ev, e));
}

/// A trace of FOR rounds grows by a round that set the variable to
/// `s + k` and ran the body to `next`.
proof fn lemma_for_trace_grows(
    name: Seq<char>,
    s: int,
    e: int,
    body: Seq<Stmt>,
    states: Seq<RunState>,
    k: int,
    fuel: nat,
    next: RunState,
)
    requires
        for_trace(name, s, e, body, states, k, fuel),
        s + k < e,
        with_counter(states[k], name, s + k) matches Some(c) && block_runs(body, c, next, Ok(()), fuel),
    ensures
        for_trace(name, s, e, body, states.push(next), k + 1, fuel),
{
    let st = states.push(next);
    assert forall|i: int| 0 <= i < k + 1 implies s + i < e && match with_counter(#[trigger] st[i], name, s + i) {
        Some(c) => block_runs(body, c, st[i + 1], Ok(()), fuel),
        None => false,
    } by {
        if i < k {
            assert(states[i] == st[i]);
            assert(s + i < e && match with_counter(states[i], name, s + i) {
                Some(c) => block_runs(body, c, states[i + 1], Ok(()), fuel),
                None => false,
            });
        }
    }
}

/// A trace of a call's arguments grows by an argument that was evaluated
/// from its last state to `eval`, giving `v`, which fits.
#[verifier::spinoff_prover]
proof fn lemma_args_trace_grows(
    args: Seq<Expr>,
    params: Seq<(String, Type, PassingValue)>,
    start: usize,
    states: Seq<RunState>,
    evals: Seq<RunState>,
    vals: Seq<Value>,
    i: int,
    fuel: nat,
    eval: RunState,
    v: Value,
)
    requires
        0 <= i,
        args_trace(args, params, start, states, evals, vals, i, fuel),
        evals.len() == i,
        vals.len() == i,
        expr_runs(args[i], states[i], eval, Ok::<Value, CPSError>(v), fuel),
        crate::types::real_free(v@) ==> crate::types::fits(v@, params[i].1),
    ensures
        args_trace(
            args,
            params,
            start,
            states.push(stored_arg(eval, frame_scope(params, i as nat, start).next_address, v@)),
            evals.push(eval),
            vals.push(v),
            i + 1,
            fuel,
        ),
{
    let st = states.push(stored_arg(eval, frame_scope(params, i as nat, start).next_address, v@));
    let ev = evals.push(eval);
    let vs = vals.push(v);
    assert forall|j: int| 0 <= j <= i implies #[trigger] st[j] == states[j] by {}
    assert forall|j: int| 0 <= j < i implies #[trigger] ev[j] == evals[j] && vs[j] == vals[j] by {}
    assert(ev[i] == eval && vs[i] == v);
    assert(expr_runs(args[i], st[i], ev[i], Ok::<Value, CPSError>(vs[i]), fuel));
}

/// A trace of a call's arguments still holds with one more evaluation
/// after it.
#[verifier::spinoff_prover]
proof fn lemma_args_trace_pad(
    args: Seq<Expr>,
    params: Seq<(String, Type, PassingValue)>,
    start: usize,
    states: Seq<RunState>,
    evals: Seq<RunState>,
    vals: Seq<Value>,
    i: int,
    fuel: nat,
    eval: RunState,
    v: Value,
)
    requires
        args_trace(args, params, start, states, evals, vals, i, fuel),
        evals.len() == i,
        vals.len() == i,
    ensures
        args_trace(args, params, start, states, evals.push(eval), vals.push(v), i, fuel),
{
    let ev = evals.push(eval);
    let vs = vals.push(v);
    assert forall|j: int| 0 <= j < i implies #[trigger] ev[j] == evals[j] && vs[j] == vals[j] by {}
}

/// A call as `function_runs` describes it, from the trace of its arguments and
/// how it went on.
proof fn lemma_call_witness(
    name: Seq<char>,
    args: Seq<Expr>,
    a: RunState,
    b: RunState,
    r: Result<Value, CPSError>,
    fuel: nat,
    f: Rc<Function>,
    states: Seq<RunState>,
    evals: Seq<RunState>,
    vals: Seq<Value>,
    n: int,
)
    requires
        f.parameters@.len() == args.len(),
        fuel > 0,
        0 <= n <= args.len(),
        args_trace(args, f.parameters@, a.env.top().next_address, states, evals, vals, n, (fuel - 1) as nat),
        evals.len() == n + 1,
        vals.len() == n + 1,
        states[0] == a,
        call_rest(name, args, f, a.env.top().next_address, states[n], evals[n], n, b, r, fuel),
    ensures
        function_runs(name, args, f, a, b, r, fuel),
{
    assert(vals[n] == vals.last() && evals[n] == evals.last() && states[n] == states.last());
}

/// The body of a call ran and the call ended, as `call_rest` describes it.
proof fn lemma_call_rest_body(
    name: Seq<char>,
    args: Seq<Expr>,
    f: Rc<Function>,
    start: usize,
    s: RunState,
    eval: RunState,
    n: int,
    b: RunState,
    r: Result<Value, CPSError>,
    fuel: nat,
    mid: RunState,
    rb: Result<(), CPSError>,
)
    requires
        n == args.len(),
        block_runs(
            f.body.statements@,
            RunState {
                env: EnvView {
                    scopes: s.env.scopes.push(frame_scope(f.parameters@, n as nat, start)),
                    heap: s.env.heap,
                },
                ctx: s.ctx,
            },
            mid,
            rb,
            fuel,
        ),
        call_end(name, f.return_type, mid, rb, b, r),
    ensures
        call_rest(name, args, f, start, s, eval, n, b, r, fuel),
{
}

/// An argument of a call failed, as `call_rest` describes it.
proof fn lemma_call_rest_fail(
    name: Seq<char>,
    args: Seq<Expr>,
    f: Rc<Function>,
    start: usize,
    s: RunState,
    eval: RunState,
    n: int,
    b: RunState,
    r: Result<Value, CPSError>,
    fuel: nat,
    fail: Result<Value, CPSError>,
)
    requires
        0 <= n < args.len(),
        fuel > 0,
        expr_runs(args[n], s, eval, fail, (fuel - 1) as nat),
        b == eval,
        match fail {
            Err(x) => r == Err::<Value, CPSError>(x),
            Ok(v) => (crate::types::real_free(v@) ==> !crate::types::fits(v@, f.parameters@[n].1)) && (r matches Err(
                x,
            ) && is_runtime(x)),
        },
    ensures
        call_rest(name, args, f, start, s, eval, n, b, r, fuel),
{
    assert(dropped(fail) is Err == fail is Err);
}

/// A run of a block as `block_runs` describes it, from its trace.
proof fn lemma_block_witness(
    stmts: Seq<Stmt>,
    states: Seq<RunState>,
    n: int,
    fuel: nat,
    a: RunState,
    b: RunState,
    r: Result<(), CPSError>,
)
    requires
        fuel > 0,
        0 <= n <= stmts.len(),
        block_trace(stmts, states, n, (fuel - 1) as nat),
        states[0] == a,
        (n == stmts.len() && r is Ok && b == states[n]) || (n < stmts.len() && r is Err && stmt_runs(
            stmts[n],
            states[n],
            b,
            r,
            (fuel - 1) as nat,
        )),
    ensures
        block_runs(stmts, a, b, r, fuel),
{
    assert(states[n] == states[n]);
}

/// A trace of REPEAT rounds grows by a round whose body ran to `mid` and
/// whose condition, evaluated from there as `check` records, was FALSE.
#[verifier::spinoff_prover]
proof fn lemma_repeat_trace_grows(
    cond: Expr,
    body: Seq<Stmt>,
    states: Seq<RunState>,
    mids: Seq<RunState>,
    checks: Seq<Check>,
    k: int,
    fuel: nat,
    mid: RunState,
    check: Check,
)
    requires
        repeat_trace(cond, body, states, mids, checks, k, fuel),
        mids.len() == k,
        checks.len() == k,
        block_runs(body, states[k], mid, Ok(()), fuel),
        expr_runs(cond, mid, check.after, check.outcome, fuel),
        check.outcome matches Ok(v) && v@ == ValueV::Boolean(false),
    ensures
        repeat_trace(cond, body, states.push(check.after), mids.push(mid), checks.push(check), k + 1, fuel),
{
    let st = states.push(check.after);
    let ms = mids.push(mid);
    let cs = checks.push(check);
    assert forall|i: int| 0 <= i <= k implies #[trigger] st[i] == states[i] by {}
    assert forall|i: int| 0 <= i < k implies #[trigger] ms[i] == mids[i] && cs[i] == checks[i] by {}
    assert(st[k + 1] == check.after && ms[k] == mid && cs[k] == check);
    assert(block_runs(body, st[k], ms[k], Ok(()), fuel) && expr_runs(cond, ms[k], cs[k].after, cs[k].outcome, fuel));
}

/// A run of REPEAT as `repeat_runs` describes it, from its trace.
proof fn lemma_repeat_witness(
    cond: Expr,
    body: Seq<Stmt>,
    states: Seq<RunState>,
    mids: Seq<RunState>,
    checks: Seq<Check>,
    k: int,
    fuel: nat,
    a: RunState,
    mid: RunState,
    check: Check,
    b: RunState,
    r: Result<(), CPSError>,
)
    requires
        0 <= k <= fuel,
        repeat_trace(cond, body, states, mids, checks, k, fuel),
        mids.len() == k,
        checks.len() == k,
        states[0] == a,
        repeat_end(cond, body, states[k], mid, check, k == fuel, b, r, fuel),
    ensures
        repeat_runs(cond, body, a, b, r, fuel),
{
    let ms = mids.push(mid);
    let cs = checks.push(check);
    assert forall|i: int| 0 <= i < k implies #[trigger] ms[i] == mids[i] && cs[i] == checks[i] by {}
    assert(repeat_trace(cond, body, states, ms, cs, k, fuel));
    assert(states[k] == states[k] && ms[k] == mid && cs[k] == check);
}

/// What a call of a name that is not a builtin does when it cannot go
/// ahead: a name that holds no procedure or function, or an argument list of
/// the wrong length, is refused and changes nothing.
pub open spec fn call_refused(name: Seq<char>, arguments: nat, a: RunState, b: RunState, r: Result<(), CPSError>) -> bool {
    !is_builtin_name(name) ==> match a.env.lookup(name) {
        Some(ValueV::Function(f)) => f.parameters@.len() != arguments ==> (r matches Err(e) && is_runtime_error(
            e,
            "Function '"@ + name + "' expected "@ + crate::text::nat_text(f.parameters@.len()) + " arguments, got "@
                + crate::text::nat_text(arguments),
        )) && b == a,
        _ => (r matches Err(e) && is_runtime_error(e, "Undefined function: "@ + name)) && b == a,
    }
}

/// The result of a node with its value dropped.
pub open spec fn dropped<T>(r: Result<T, CPSError>) -> Result<(), CPSError> {
    match r {
        Ok(_) => Ok(()),
        Err(e) => Err(e),
    }
}

/// What running a node of a program does, with the steps a run allows (see
/// `node_effect_within`).
pub open spec fn node_effect(node: Ast, a: RunState, b: RunState, r: Result<(), CPSError>) -> bool {
    node_effect_within(node, a, b, r, STEP_LIMIT as nat)
}

/// What running a node does when `fuel` steps are left for it: a statement
/// (see `statement_effect` and `evaluated_effect`), an identifier, which
/// must have a value, or an expression, which changes nothing and fails
/// where its evaluation fails (see `expr_value`).
pub open spec fn node_effect_within(node: Ast, a: RunState, b: RunState, r: Result<(), CPSError>, fuel: nat) -> bool {
    match node {
        Ast::Stmt(s) => stmt_runs(*s, a, b, r, fuel),
        Ast::Identifier(name) => b == a && match a.env.lookup(name@) {
            Some(_) => r is Ok,
            None => r matches Err(e) && is_runtime_error(e, "Undefined identifier: "@ + name@),
        },
        Ast::Expression(Expr::Literal(lit)) => b == a && match lit@ {
            ValueV::Identifier(name) => match a.env.lookup(name) {
                Some(_) => r is Ok,
                None => r matches Err(e) && is_runtime_error(e, "Undefined identifier: "@ + name),
            },
            ValueV::Array { .. } | ValueV::Function(_) => r matches Err(e) && is_runtime(e),
            _ => r is Ok,
        },
        Ast::Expression(e) => match evaluated(e, a, fuel) {
            Some(Ok(_)) => r is Ok && b == a,
            Some(Err(_)) => refused(r, a, b),
            None => exists|rv: Result<Value, CPSError>|
                #![trigger dropped(rv)]
                dropped(rv) == r && expr_runs(e, a, b, rv, fuel),
        },
    }
}

/// The first `n` nodes of a program ran to their end through `states`:
/// node `j` took the run from `states[j]` to `states[j + 1]`.
pub open spec fn trace(nodes: Seq<Ast>, states: Seq<RunState>, n: int) -> bool {
    &&& states.len() == n + 1
    &&& forall|j: int| 0 <= j < n ==> #[trigger] node_effect(nodes[j], states[j], states[j + 1], Ok(()))
}

/// Running the nodes of a program in order from state `a` ends in state `b`
/// with result `r`: each node runs as `node_effect` says, and the first
/// error ends the run.
pub open spec fn runs(nodes: Seq<Ast>, a: RunState, b: RunState, r: Result<(), CPSError>) -> bool {
    exists|states: Seq<RunState>, n: int|
        #![trigger trace(nodes, states, n)]
        {
            &&& 0 <= n <= nodes.len()
            &&& trace(nodes, states, n)
            &&& states[0] == a
            &&& {
                ||| n == nodes.len() && r is Ok && b == states[n]
                ||| n < nodes.len() && r is Err && node_effect(nodes[n], states[n], b, r)
            }
        }
}

/// The error for a value whose type cannot be assigned.
fn assign_fault_error(f: TypeFault, identifier: &str) -> (e: CPSError)
    ensures
        is_runtime(e),
{
    match f {
        TypeFault::EmptyArray => CPSError::runtime_with_hint(
            concat3("Cannot determine base type of empty array for variable '", identifier, "'"),
            String::from_str("Ensure the array is not empty."),
        ),
        TypeFault::Identifier => CPSError::runtime(concat3("Cannot assign unresolved identifier to '", identifier, "'")),
        TypeFault::Function => CPSError::runtime(concat3("Cannot assign function to '", identifier, "'")),
        TypeFault::NoColumns => CPSError::runtime(concat3("Array '", identifier, "' has no columns")),
        _ => CPSError::runtime_with_hint(
            concat3("Unsupported array element type for variable '", identifier, "'"),
            String::from_str("Check the array's element types."),
        ),
    }
}

/// Runs programs.
#[derive(Debug)]
pub struct Interpreter<H: Host> {
    current_env: Environment,
    replay_ctx: ReplayContext,
    host: H,
}

impl<H: Host> Interpreter<H> {
    /// The environment and the replay context are well formed.
    pub closed spec fn wf(&self) -> bool {
        &&& self.current_env.wf()
        &&& self.replay_ctx.wf()
    }

    /// The model of the environment.
    pub closed spec fn env(&self) -> EnvView {
        self.current_env@
    }

    /// The replay context.
    pub closed spec fn context(&self) -> ReplayContext {
        self.replay_ctx
    }

    /// The environment and the replay context.
    pub open spec fn state(&self) -> RunState {
        RunState { env: self.env(), ctx: self.context() }
    }

    /// An interpreter with a fresh global environment and a replay context
    /// with no input.
    pub fn new(host: H) -> (i: Self)
        ensures
            i.wf(),
            i.env() == fresh_env(),
            i.context().inputs@.len() == 0,
            i.context().input_pos == 0,
            i.context().output_skip == 0,
            i.context().rand_log@.len() == 0,
            i.context().rand_pos == 0,
            crate::replay::fs_view(i.context().virtual_fs) == Map::<Seq<char>, crate::replay::VirtualFileView>::empty(),
    {
        let env = Environment::new_global();
        proof {
            assert(env@.scopes =~= fresh_env().scopes);
        }
        Interpreter { current_env: env, replay_ctx: ReplayContext::new(Vec::new()), host }
    }

    /// An interpreter with a fresh global environment that replays `ctx`.
    pub fn new_replay(ctx: ReplayContext, host: H) -> (i: Self)
        requires
            ctx.wf(),
        ensures
            i.wf(),
            i.env() == fresh_env(),
            i.context() == ctx,
    {
        let env = Environment::new_global();
        proof {
            assert(env@.scopes =~= fresh_env().scopes);
        }
        Interpreter { current_env: env, replay_ctx: ctx, host }
    }

    /// The environment.
    pub fn environment(&self) -> (e: &Environment)
        ensures
            e@ == self.env(),
    {
        &self.current_env
    }

    /// The replay context.
    pub fn replay_context(&self) -> (c: &ReplayContext)
        ensures
            *c == self.context(),
    {
        &self.replay_ctx
    }

    /// The replay context and the host, when the run is over.
    pub fn into_parts(self) -> (r: (ReplayContext, H))
        ensures
            r.0 == self.context(),
    {
        (self.replay_ctx, self.host)
    }

    /// Runs the nodes of a program in order, stopping at the first error.
    pub fn interpret(&mut self, ast_nodes: Vec<Ast>) -> (r: Result<(), CPSError>)
        requires
            old(self).wf(),
        ensures
            final(self).wf(),
            runs(ast_nodes@, old(self).state(), final(self).state(), r),
    {
        self.interpret_slice(ast_nodes.as_slice())
    }

    /// Runs the nodes of a program in order, stopping at the first error.
    pub fn interpret_slice(&mut self, ast_nodes: &[Ast]) -> (r: Result<(), CPSError>)
        requires
            old(self).wf(),
        ensures
            final(self).wf(),
            runs(ast_nodes@, old(self).state(), final(self).state(), r),
    {
        let mut i: usize = 0;
        let ghost mut states: Seq<RunState> = seq![self.state()];
        while i < ast_nodes.len()
            invariant
                self.wf(),
                i <= ast_nodes@.len(),
                trace(ast_nodes@, states, i as int),
                states[0] == old(self).state(),
                states[i as int] == self.state(),
            decreases ast_nodes@.len() - i,
        {
            let ghost before = self.state();
            let r = self.evaluate_ast_ref(&ast_nodes[i], STEP_LIMIT);
            match r {
                Ok(_) => {},
                Err(e) => {
                    proof {
                        assert(trace(ast_nodes@, states, i as int));
                    }
                    return Err(e);
                },
            }
            proof {
                let next = states.push(self.state());
                assert forall|j: int| 0 <= j < i + 1 implies #[trigger] node_effect(
                    ast_nodes@[j],
                    next[j],
                    next[j + 1],
                    Ok(()),
                ) by {
                    if j < i {
                        assert(node_effect(ast_nodes@[j], states[j], states[j + 1], Ok(())));
                    }
                }
                states = next;
            }
            i = i + 1;
        }
        proof {
            assert(trace(ast_nodes@, states, ast_nodes@.len() as int));
        }
        Ok(())
    }

    fn undefined_identifier(name: &str) -> (e: CPSError)
        ensures
            is_runtime_error(e, "Undefined identifier: "@ + name@),
            e.hint is None,
    {
        CPSError::runtime(concat2("Undefined identifier: ", name))
    }

    /// How messages write a value (see `value_debug`); reals are written by
    /// the host.
    fn debug_of(&self, v: &Value) -> (r: String)
        ensures
            crate::display::scalar_debug(v@) matches Some(t) ==> r@ == t,
            v@ matches ValueV::Function(f) ==> (crate::display::function_text(*f) matches Some(t) ==> r@ == t),
            crate::display::value_debug(v@) matches Some(t) ==> r@ == t,
            v@ matches ValueV::Array { elems, lower_bound, bounds_2d } ==> r@ == crate::display::array_value_text(
                elems.len(),
                lower_bound,
                bounds_2d,
                crate::display::element_kind(elems),
            ),
    {
        value_debug_text(v, false, &self.host)
    }

    /// Evaluates one node: an expression, an identifier, or a statement
    /// (which gives TRUE).
    fn evaluate_ast_ref(&mut self, node: &Ast, fuel: u64) -> (r: Result<Value, CPSError>)
        requires
            old(self).wf(),
        ensures
            final(self).wf(),
            unwinds_normally(r) ==> final(self).env().scopes.len() == old(self).env().scopes.len(),
            node_effect_within(*node, old(self).state(), final(self).state(), dropped(r), fuel as nat),
            2 * ast_depth(*node) <= fuel ==> (ast_value(*node, old(self).state()) matches Some(res)
                ==> final(self).state() == old(self).state() && gives(r, res)),
            ast_runs(*node, old(self).state(), final(self).state(), r, fuel as nat),
        decreases fuel, 8u64,
    {
        match node {
            Ast::Expression(expr) => self.evaluate_expr(expr, fuel),
            Ast::Identifier(name) => match self.current_env.get(name.as_str()) {
                Some(value) => Ok(value),
                None => Err(Self::undefined_identifier(name.as_str())),
            },
            Ast::Stmt(stmt) => {
                let r = self.evaluate_stmt(stmt, fuel);
                let ghost gr = r;
                let out = match r {
                    Ok(()) => Ok(Value::Boolean(true)),
                    Err(e) => Err(e),
                };
                proof {
                    if let Ok(u) = gr {
                        assert(u == ());
                    }
                    assert(dropped(out) == gr);
                }
                out
            },
        }
    }

    /// Evaluates an expression.
    fn evaluate_expr(&mut self, expression: &Expr, fuel: u64) -> (r: Result<Value, CPSError>)
        requires
            old(self).wf(),
        ensures
            final(self).wf(),
            unwinds_normally(r) ==> final(self).env().scopes.len() == old(self).env().scopes.len(),
            expression matches Expr::Literal(v) ==> final(self).env() == old(self).env() && final(self).context()
                == old(self).context() && literal_result(r, v@, old(self).env()),
            within_steps(*expression, fuel as nat) ==> (expr_value(*expression, old(self).state()) matches Some(res)
                ==> final(self).state() == old(self).state() && gives(r, res)),
            expr_runs(*expression, old(self).state(), final(self).state(), r, fuel as nat),
            expression matches Expr::Call { name, arguments } ==> if fuel == 0 {
                refused(r, old(self).state(), final(self).state())
            } else {
                call_runs(name@, arguments@, old(self).state(), final(self).state(), r, (fuel - 1) as nat)
            },
        decreases fuel, 3u64,
    {
        if let Expr::Literal(v) = expression {
            return self.evaluate_literal(v);
        }
        if fuel == 0 {
            return Err(step_limit_error());
        }
        match expression {
            Expr::Binary(b) => self.evaluate_binary(b, fuel - 1),
            Expr::Literal(v) => self.evaluate_literal(v),
            Expr::Call { name, arguments } => self.evaluate_call(name, arguments, fuel - 1),
            Expr::ArrayAccess { name, index, col } => self.evaluate_array_access(name, index, col, fuel - 1),
            Expr::EOF { filename } => match self.replay_ctx.at_end(filename) {
                Ok(b) => Ok(Value::Boolean(b)),
                Err(e) => Err(e),
            },
        }
    }

    /// A literal stands for itself; an identifier for its value.
    fn evaluate_literal(&self, lit: &Value) -> (r: Result<Value, CPSError>)
        requires
            self.wf(),
        ensures
            literal_result(r, lit@, self.env()),
    {
        match lit {
            Value::Integer(_) | Value::Real(_) | Value::String(_) | Value::Boolean(_) | Value::Char(_) => Ok(
                lit.duplicate(),
            ),
            Value::Identifier(iden) => match self.current_env.get(iden.as_str()) {
                Some(value) => Ok(value),
                None => Err(Self::undefined_identifier(iden.as_str())),
            },
            _ => {
                let m = concat2("Unsupported literal in interpreter: ", self.debug_of(lit).as_str());
                Err(CPSError::runtime(m))
            },
        }
    }

    /// Evaluates both operands, makes an integer paired with a real a real,
    /// and applies the operator.
    fn evaluate_binary(&mut self, binary: &BinaryExpr, fuel: u64) -> (r: Result<Value, CPSError>)
        requires
            old(self).wf(),
        ensures
            final(self).wf(),
            unwinds_normally(r) ==> final(self).env().scopes.len() == old(self).env().scopes.len(),
            2 * ast_depth(*binary.left) < fuel && 2 * ast_depth(*binary.right) < fuel ==> (expr_value(
                Expr::Binary(*binary),
                old(self).state(),
            ) matches Some(res) ==> final(self).state() == old(self).state() && gives(r, res)),
            expr_runs(Expr::Binary(*binary), old(self).state(), final(self).state(), r, (fuel + 1) as nat),
        decreases fuel, 2u64,
    {
        if fuel == 0 {
            return Err(step_limit_error());
        }
        let lres = self.evaluate_ast_ref(&binary.left, fuel - 1);
        let ghost m = self.state();
        proof {
            // The terms by which the outcome of an operand is found.
            assert(m.ctx == self.context());
            assert(dropped(lres) is Err == lres is Err);
        }
        let left = match lres {
            Ok(v) => v,
            Err(e) => {
                return Err(e);
            },
        };
        let rres = self.evaluate_ast_ref(&binary.right, fuel - 1);
        let ghost m2 = self.state();
        proof {
            assert(m2.ctx == self.context());
            assert(dropped(rres) is Err == rres is Err);
        }
        let right = match rres {
            Ok(v) => v,
            Err(e) => {
                return Err(e);
            },
        };
        let (l, x) = convert_values_to_compatible_types(&left, &right, &self.host);
        apply_binary(&self.host, binary.operator, l, x)
    }

    /// Evaluates the arguments of a call, in order.
    fn evaluate_arguments(&mut self, arguments: &Vec<Expr>, fuel: u64) -> (r: Result<Vec<Value>, CPSError>)
        requires
            old(self).wf(),
        ensures
            final(self).wf(),
            unwinds_normally(r) ==> final(self).env().scopes.len() == old(self).env().scopes.len(),
            r matches Ok(v) ==> v@.len() == arguments@.len(),
            arguments_run(arguments@, old(self).state(), final(self).state(), r, fuel as nat),
        decreases fuel, 4u64,
    {
        let ghost a = self.state();
        let ghost f = fuel as nat;
        let ghost args = arguments@;
        let ghost mut states: Seq<RunState> = seq![self.state()];
        let mut values: Vec<Value> = Vec::new();
        let mut i: usize = 0;
        while i < arguments.len()
            invariant
                self.wf(),
                i <= arguments@.len(),
                values@.len() == i,
                self.env().scopes.len() == old(self).env().scopes.len(),
                a == old(self).state(),
                f == fuel as nat,
                args == arguments@,
                values_trace(args, states, values@, i as int, f),
                states[0] == a,
                states[i as int] == self.state(),
            decreases arguments@.len() - i,
        {
            let res = self.evaluate_expr(&arguments[i], fuel);
            match res {
                Ok(v) => {
                    proof {
                        lemma_values_trace_grows(args, states, values@, i as int, f, self.state(), v);
                        states = states.push(self.state());
                    }
                    values.push(v);
                },
                Err(e) => {
                    let out = Err(e);
                    proof {
                        lemma_arguments_witness(args, a, self.state(), out, f, states, values@, i as int, res);
                    }
                    return out;
                },
            }
            i = i + 1;
        }
        let out = Ok(values);
        proof {
            lemma_arguments_witness(args, a, self.state(), out, f, states, values@, i as int, Ok::<Value, CPSError>(Value::Boolean(false)));
        }
        out
    }

    /// Calls a builtin routine, a procedure or a function. RAND gives the
    /// value that an earlier run drew at this point, if there is one, and
    /// records the value it draws otherwise. A procedure or function runs in
    /// a new scope, whose parameters hold the arguments; a RETURN in its body
    /// ends it with a value.
    fn evaluate_call(&mut self, identifier: &String, arguments: &Vec<Expr>, fuel: u64) -> (r: Result<
        Value,
        CPSError,
    >)
        requires
            old(self).wf(),
        ensures
            final(self).wf(),
            unwinds_normally(r) ==> final(self).env().scopes.len() == old(self).env().scopes.len(),
            call_refused(identifier@, arguments@.len(), old(self).state(), final(self).state(), dropped(r)),
            call_runs(identifier@, arguments@, old(self).state(), final(self).state(), r, fuel as nat),
        decreases fuel, 2u64,
    {
        if is_builtin(identifier.as_str()) {
            if fuel == 0 {
                return Err(step_limit_error());
            }
            let ares = self.evaluate_arguments(arguments, fuel - 1);
            let ghost mid = self.state();
            proof {
                // The terms by which the outcome of the arguments is found.
                assert(mid.ctx == self.context());
                assert(dropped(ares) is Err == ares is Err);
            }
            let args = match ares {
                Ok(a) => a,
                Err(e) => {
                    return Err(e);
                },
            };
            if str_equal(identifier.as_str(), "RAND") {
                match self.replay_ctx.next_logged_rand() {
                    Some(v) => {
                        return Ok(v);
                    },
                    None => {},
                }
                let value = match self.host.call_builtin(identifier.as_str(), &args) {
                    Ok(Some(v)) => v,
                    Ok(None) => Value::Boolean(false),
                    Err(e) => {
                        return Err(e);
                    },
                };
                let logged = value.duplicate();
                self.replay_ctx.log_rand(logged);
                proof {
                    assert(crate::replay::logged_values(self.replay_ctx.rand_log@) =~= crate::replay::logged_values(
                        mid.ctx.rand_log@,
                    ).push(value@));
                }
                return Ok(value);
            }
            return match self.host.call_builtin(identifier.as_str(), &args) {
                Ok(Some(v)) => Ok(v),
                Ok(None) => Ok(Value::Boolean(false)),
                Err(e) => Err(e),
            };
        }
        let func: Rc<Function> = match self.current_env.get(identifier.as_str()) {
            Some(Value::Function(f)) => f,
            _ => {
                return Err(CPSError::runtime(concat2("Undefined function: ", identifier.as_str())));
            },
        };
        if func.parameters.len() != arguments.len() {
            let mut m = String::from_str("Function '");
            m.append(identifier.as_str());
            m.append("' expected ");
            m.append(usize_to_string(func.parameters.len()).as_str());
            m.append(" arguments, got ");
            m.append(usize_to_string(arguments.len()).as_str());
            return Err(CPSError::runtime(m));
        }
        self.run_function(identifier, arguments, func, fuel)
    }

    /// Runs the procedure or function `func`, bound to `identifier`, with
    /// `arguments`: a new scope whose parameters hold the arguments, the
    /// body in it, and a RETURN in the body ends it with a value.
    #[verifier::rlimit(40)]
    fn run_function(&mut self, identifier: &String, arguments: &Vec<Expr>, func: Rc<Function>, fuel: u64) -> (r: Result<
        Value,
        CPSError,
    >)
        requires
            old(self).wf(),
            func.parameters@.len() == arguments@.len(),
        ensures
            final(self).wf(),
            unwinds_normally(r) ==> final(self).env().scopes.len() == old(self).env().scopes.len(),
            function_runs(identifier@, arguments@, func, old(self).state(), final(self).state(), r, fuel as nat),
        decreases fuel, 1u64,
    {
        if fuel == 0 {
            return Err(step_limit_error());
        }
        let ghost a = self.state();
        let ghost args = arguments@;
        let ghost params = func.parameters@;
        let ghost f1 = (fuel - 1) as nat;
        let ghost start = a.env.top().next_address;
        proof {
            self.current_env.lemma_has_top_scope();
        }
        let mut pending = self.current_env.pending_child();
        let mut i: usize = 0;
        let ghost mut astates: Seq<RunState> = seq![self.state()];
        let ghost mut evals: Seq<RunState> = Seq::empty();
        let ghost mut vals: Seq<Value> = Seq::empty();
        while i < func.parameters.len()
            invariant
                self.wf(),
                pending.wf(),
                i <= func.parameters@.len(),
                func.parameters@.len() == arguments@.len(),
                self.env().scopes.len() == old(self).env().scopes.len(),
                old(self).env().scopes.len() >= 1,
                fuel > 0,
                a == old(self).state(),
                args == arguments@,
                params == func.parameters@,
                f1 == (fuel - 1) as nat,
                start == a.env.top().next_address,
                args_trace(args, params, start, astates, evals, vals, i as int, f1),
                evals.len() == i,
                vals.len() == i,
                astates[0] == a,
                astates[i as int] == self.state(),
                pending@ == frame_scope(params, i as nat, start),
            decreases func.parameters@.len() - i,
        {
            let ghost here = self.state();
            let ares = self.evaluate_expr(&arguments[i], fuel - 1);
            let ghost eval = self.state();
            let arg_value = match ares {
                Ok(v) => v,
                Err(e) => {
                    proof {
                        let out = Err::<Value, CPSError>(e);
                        lemma_call_rest_fail(identifier@, args, func, start, here, eval, i as int, eval, out, fuel as nat, ares);
                        lemma_args_trace_pad(args, params, start, astates, evals, vals, i as int, f1, eval, Value::Boolean(false));
                        lemma_call_witness(
                            identifier@,
                            args,
                            a,
                            eval,
                            out,
                            fuel as nat,
                            func,
                            astates,
                            evals.push(eval),
                            vals.push(Value::Boolean(false)),
                            i as int,
                        );
                    }
                    return Err(e);
                },
            };
            let (param_name, param_type, _) = &func.parameters[i];
            if !check_if_type_can_be_converted(&arg_value, param_type, &self.host) {
                let mut m = String::from_str("Type mismatch for parameter '");
                m.append(param_name.as_str());
                m.append("': expected ");
                m.append(type_debug_text(param_type, &self.host).as_str());
                m.append(", got ");
                m.append(self.debug_of(&arg_value).as_str());
                let out = Err(CPSError::runtime(m));
                proof {
                    lemma_call_rest_fail(identifier@, args, func, start, here, eval, i as int, eval, out, fuel as nat, ares);
                    lemma_args_trace_pad(args, params, start, astates, evals, vals, i as int, f1, eval, Value::Boolean(false));
                    lemma_call_witness(
                        identifier@,
                        args,
                        a,
                        eval,
                        out,
                        fuel as nat,
                        func,
                        astates,
                        evals.push(eval),
                        vals.push(Value::Boolean(false)),
                        i as int,
                    );
                }
                return out;
            }
            let ghost v = arg_value;
            let ghost before_store = self.state();
            self.current_env.define_pending(&mut pending, param_name.clone(), arg_value);
            proof {
                lemma_stored_arg(eval, self.state(), frame_scope(params, i as nat, start).next_address, v@);
                lemma_args_trace_grows(args, params, start, astates, evals, vals, i as int, f1, eval, v);
                astates = astates.push(stored_arg(eval, frame_scope(params, i as nat, start).next_address, v@));
                evals = evals.push(eval);
                vals = vals.push(v);
            }
            i = i + 1;
        }
        let ghost passed = self.state();
        self.current_env.enter(pending);
        let ghost entered = self.state();
        let ghost stmts = func.body.statements@;
        let ghost mut states: Seq<RunState> = seq![self.state()];
        let ghost mut rb: Result<(), CPSError> = Ok(());
        let mut return_value: Option<Value> = None;
        let mut j: usize = 0;
        while j < func.body.statements.len()
            invariant_except_break
                return_value is None,
                rb is Ok,
                states[j as int] == self.state(),
            invariant
                self.wf(),
                j <= func.body.statements@.len(),
                func.parameters@.len() == arguments@.len(),
                self.env().scopes.len() == old(self).env().scopes.len() + 1,
                fuel > 0,
                stmts == func.body.statements@,
                a == old(self).state(),
                args == arguments@,
                params == func.parameters@,
                start == a.env.top().next_address,
                args_trace(args, params, start, astates, evals, vals, args.len() as int, f1),
                evals.len() == args.len(),
                vals.len() == args.len(),
                astates[0] == a,
                astates[args.len() as int] == passed,
                entered == (RunState {
                    env: EnvView {
                        scopes: passed.env.scopes.push(frame_scope(params, args.len(), start)),
                        heap: passed.env.heap,
                    },
                    ctx: passed.ctx,
                }),
                block_trace(stmts, states, j as int, f1),
                states[0] == entered,
                f1 == (fuel - 1) as nat,
            ensures
                return_value matches Some(v) ==> j < stmts.len() && (rb matches Err(e) && (e.error_type matches ErrorType::Return(x)
                    && x@ == v@)) && stmt_runs(stmts[j as int], states[j as int], self.state(), rb, f1),
                return_value is None ==> j == stmts.len() && rb is Ok && states[j as int] == self.state(),
            decreases func.body.statements@.len() - j,
        {
            let ghost before = self.state();
            let sr = self.evaluate_stmt(&func.body.statements[j], fuel - 1);
            match sr {
                Ok(()) => {},
                Err(e) => match e.error_type {
                    ErrorType::Return(val) => {
                        proof {
                            rb = sr;
                        }
                        return_value = Some(val);
                        break;
                    },
                    _ => {
                        proof {
                            lemma_block_witness(stmts, states, j as int, fuel as nat, entered, self.state(), sr);
                            let out = Err::<Value, CPSError>(e);
                            assert(call_end(identifier@, func.return_type, self.state(), sr, self.state(), out));
                            lemma_call_rest_body(
                                identifier@,
                                args,
                                func,
                                start,
                                passed,
                                passed,
                                args.len() as int,
                                self.state(),
                                out,
                                fuel as nat,
                                self.state(),
                                sr,
                            );
                            lemma_args_trace_pad(args, params, start, astates, evals, vals, args.len() as int, f1, passed, Value::Boolean(false));
                            lemma_call_witness(
                                identifier@,
                                args,
                                a,
                                self.state(),
                                out,
                                fuel as nat,
                                func,
                                astates,
                                evals.push(passed),
                                vals.push(Value::Boolean(false)),
                                args.len() as int,
                            );
                        }
                        return Err(e);
                    },
                },
            }
            proof {
                if let Ok(u) = sr {
                    assert(u == ());
                }
                let next = states.push(self.state());
                assert forall|k: int| 0 <= k < j + 1 && k < stmts.len() implies stmt_runs(
                    #[trigger] stmts[k],
                    next[k],
                    next[k + 1],
                    Ok(()),
                    f1,
                ) by {
                    if k < j {
                        assert(stmt_runs(stmts[k], states[k], states[k + 1], Ok(()), f1));
                    }
                }
                states = next;
            }
            j = j + 1;
        }
        let ghost mid = self.state();
        proof {
            lemma_block_witness(stmts, states, j as int, fuel as nat, entered, mid, rb);
        }
        self.current_env.pop_scope();
        let out = match (return_value, &func.return_type) {
            (Some(val), Some(expected)) => {
                if !check_if_type_can_be_converted(&val, expected, &self.host) {
                    let mut m = String::from_str("Function '");
                    m.append(identifier.as_str());
                    m.append("' return type mismatch: expected ");
                    m.append(type_debug_text(expected, &self.host).as_str());
                    m.append(", got ");
                    m.append(self.debug_of(&val).as_str());
                    Err(CPSError::runtime(m))
                } else {
                    Ok(val)
                }
            },
            (None, Some(expected)) => {
                let mut m = String::from_str("Function '");
                m.append(identifier.as_str());
                m.append("' must return a value of type ");
                m.append(type_debug_text(expected, &self.host).as_str());
                Err(CPSError::runtime_with_hint(m, String::from_str("Add a RETURN statement")))
            },
            (Some(_), None) => Err(
                CPSError::runtime_with_hint(
                    concat3("Procedure '", identifier.as_str(), "' should not return a value"),
                    String::from_str("Use FUNCTION instead of PROCEDURE if you need to return a value"),
                ),
            ),
            (None, None) => Ok(Value::Boolean(false)),
        };
        proof {
            assert(call_end(identifier@, func.return_type, mid, rb, self.state(), out));
            lemma_call_rest_body(
                identifier@,
                args,
                func,
                start,
                passed,
                passed,
                args.len() as int,
                self.state(),
                out,
                fuel as nat,
                mid,
                rb,
            );
            lemma_args_trace_pad(args, params, start, astates, evals, vals, args.len() as int, f1, passed, Value::Boolean(false));
            lemma_call_witness(
                identifier@,
                args,
                a,
                self.state(),
                out,
                fuel as nat,
                func,
                astates,
                evals.push(passed),
                vals.push(Value::Boolean(false)),
                args.len() as int,
            );
        }
        out
    }

    /// Reads an element of an array: the indices are evaluated and must be
    /// whole numbers that are not negative.
    fn evaluate_array_access(&mut self, name: &String, index: &Box<Expr>, col: &Option<Box<Expr>>, fuel: u64) -> (r:
        Result<Value, CPSError>)
        requires
            old(self).wf(),
        ensures
            final(self).wf(),
            unwinds_normally(r) ==> final(self).env().scopes.len() == old(self).env().scopes.len(),
            2 * expr_depth(**index) < fuel && (col matches Some(c) ==> 2 * expr_depth(**c) < fuel) ==> (expr_value(
                Expr::ArrayAccess { name: *name, index: *index, col: *col },
                old(self).state(),
            ) matches Some(res) ==> final(self).state() == old(self).state() && gives(r, res)),
            expr_runs(
                Expr::ArrayAccess { name: *name, index: *index, col: *col },
                old(self).state(),
                final(self).state(),
                r,
                (fuel + 1) as nat,
            ),
        decreases fuel, 2u64,
    {
        if fuel == 0 {
            return Err(step_limit_error());
        }
        let ires = self.evaluate_expr(index, fuel - 1);
        let ghost m = self.state();
        proof {
            // The terms by which the outcome of an index is found.
            assert(m.ctx == self.context());
            assert(dropped(ires) is Err == ires is Err);
        }
        let index_value = match ires {
            Ok(v) => v,
            Err(e) => {
                return Err(e);
            },
        };
        let index_int = match value_to_index(&index_value, name.as_str(), &self.host) {
            Ok(n) => n,
            Err(e) => {
                return Err(e);
            },
        };
        let col_int: Option<i64> = match col {
            Some(col_expr) => {
                let cres = self.evaluate_expr(col_expr, fuel - 1);
                let ghost m2 = self.state();
                proof {
                    assert(m2.ctx == self.context());
                    assert(dropped(cres) is Err == cres is Err);
                }
                let col_value = match cres {
                    Ok(v) => v,
                    Err(e) => {
                        return Err(e);
                    },
                };
                match value_to_index(&col_value, name.as_str(), &self.host) {
                    Ok(n) => Some(n),
                    Err(e) => {
                        return Err(e);
                    },
                }
            },
            None => None,
        };
        self.read_element(name.as_str(), index_int, col_int)
    }

    /// Element `index` (and column `col`) of the array that `name` holds;
    /// negative indices are errors.
    fn read_element(&self, name: &str, index: i64, col: Option<i64>) -> (r: Result<Value, CPSError>)
        requires
            self.wf(),
        ensures
            index < 0 ==> (r matches Err(e) && is_runtime_error(
                e,
                "Array index cannot be negative for '"@ + name@ + "': "@ + crate::text::int_text(index as int),
            ) && e.hint is None),
            index >= 0 ==> (col matches Some(c) ==> (c < 0 ==> (r matches Err(e) && is_runtime_error(
                e,
                "Column index cannot be negative for '"@ + name@ + "': "@ + crate::text::int_text(c as int),
            ) && e.hint is None))),
            index >= 0 && !(match col {
                Some(c) => c < 0,
                None => false,
            }) ==> match (
                r,
                self.env().element_result(
                    name@,
                    index as usize,
                    match col {
                        Some(c) => Some(c as usize),
                        None => None,
                    },
                ),
            ) {
                (Ok(v), Ok(w)) => v@ == w,
                (Err(e), Err(text)) => crate::environment::is_error_text(e, text),
                _ => false,
            },
    {
        if index < 0 {
            let mut m = String::from_str("Array index cannot be negative for '");
            m.append(name);
            m.append("': ");
            m.append(int_to_string(index).as_str());
            return Err(CPSError::runtime(m));
        }
        let c: Option<usize> = match col {
            Some(c) => {
                if c < 0 {
                    let mut m = String::from_str("Column index cannot be negative for '");
                    m.append(name);
                    m.append("': ");
                    m.append(int_to_string(c).as_str());
                    return Err(CPSError::runtime(m));
                }
                Some(c as usize)
            },
            None => None,
        };
        self.current_env.get_array_element(name, index as usize, c)
    }

    /// Runs the statements of a block in order, stopping at the first error.
    fn evaluate_block(&mut self, block: &BlockStmt, fuel: u64) -> (r: Result<(), CPSError>)
        requires
            old(self).wf(),
        ensures
            final(self).wf(),
            unwinds_normally(r) ==> final(self).env().scopes.len() == old(self).env().scopes.len(),
            block.statements@.len() == 0 ==> r is Ok && final(self).env() == old(self).env(),
            block_runs(block.statements@, old(self).state(), final(self).state(), r, fuel as nat),
        decreases fuel, 4u64,
    {
        let ghost stmts = block.statements@;
        let mut i: usize = 0;
        let ghost mut states: Seq<RunState> = seq![self.state()];
        while i < block.statements.len()
            invariant
                self.wf(),
                i <= stmts.len(),
                stmts == block.statements@,
                i == 0 ==> self.state() == old(self).state(),
                self.env().scopes.len() == old(self).env().scopes.len(),
                i > 0 ==> fuel > 0,
                block_trace(stmts, states, i as int, (fuel - 1) as nat),
                states[0] == old(self).state(),
                states[i as int] == self.state(),
            decreases block.statements@.len() - i,
        {
            if fuel == 0 {
                return Err(step_limit_error());
            }
            let ghost before = self.state();
            let r = self.evaluate_stmt(&block.statements[i], fuel - 1);
            match r {
                Ok(()) => {},
                Err(e) => {
                    proof {
                        assert(block_trace(stmts, states, i as int, (fuel - 1) as nat));
                    }
                    return Err(e);
                },
            }
            proof {
                if let Ok(u) = r {
                    assert(u == ());
                }
                let next = states.push(self.state());
                assert forall|j: int| 0 <= j < i + 1 && j < stmts.len() implies stmt_runs(
                    #[trigger] stmts[j],
                    next[j],
                    next[j + 1],
                    Ok(()),
                    (fuel - 1) as nat,
                ) by {
                    if j < i {
                        assert(stmt_runs(stmts[j], states[j], states[j + 1], Ok(()), (fuel - 1) as nat));
                    } else {
                        assert(next[j] == before);
                        assert(next[j + 1] == self.state());
                        assert(statement_effect(stmts[j], before, self.state(), Ok(())));
                        assert(evaluated_effect(stmts[j], before, self.state(), Ok(()), (fuel - 1) as nat));
                    }
                }
                states = next;
            }
            i = i + 1;
        }
        proof {
            if stmts.len() > 0 {
                assert(block_trace(stmts, states, stmts.len() as int, (fuel - 1) as nat));
            }
        }
        Ok(())
    }

    /// Runs one statement.
    fn evaluate_stmt(&mut self, statement: &Stmt, fuel: u64) -> (r: Result<(), CPSError>)
        requires
            old(self).wf(),
        ensures
            final(self).wf(),
            unwinds_normally(r) ==> final(self).env().scopes.len() == old(self).env().scopes.len(),
            statement_effect(*statement, old(self).state(), final(self).state(), r),
            evaluated_effect(*statement, old(self).state(), final(self).state(), r, fuel as nat),
        decreases fuel, 7u64,
    {
        let f = fuel;
        match statement {
            Stmt::Output { target } => self.evaluate_output_stmt(target, f),
            Stmt::Decleration { identifier, type_ } => self.evaluate_declaration_stmt(identifier, type_, f),
            Stmt::Assignment { identifier, array_index, value } => self.evaluate_assignment_stmt(
                identifier,
                value,
                array_index,
                f,
            ),
            Stmt::Input { identifier } => self.evaluate_input_stmt(identifier, f),
            Stmt::If { condition, then_branch, else_branch } => self.evaluate_if_stmt(
                condition,
                then_branch,
                else_branch,
                f,
            ),
            Stmt::Case { identifier, cases, otherwise } => self.evaluate_case_stmt(identifier, cases, otherwise, f),
            Stmt::While { condition, body } => self.evaluate_while_stmt(condition, body, f),
            Stmt::Repeat { body, until } => self.evaluate_repeat_stmt(until, body, f),
            Stmt::Procedure { name, definition } => self.evaluate_procedure(name, definition),
            Stmt::Function { name, definition } => self.evaluate_function(name, definition),
            Stmt::Call { name, arguments } => match self.evaluate_call(name, arguments, f) {
                Ok(_) => Ok(()),
                Err(e) => Err(e),
            },
            Stmt::Block(block) => self.evaluate_block(block, f),
            Stmt::For { identifier, start, end, body } => self.evaluate_for(identifier, start, end, body, f),
            Stmt::OpenFile { filename, mode } => self.evaluate_open_file(filename, *mode, f),
            Stmt::CloseFile { filename } => self.evaluate_close_file(filename, f),
            Stmt::WriteFile { filename, value } => self.evaluate_write_file(filename, value, f),
            Stmt::ReadFile { filename, target } => self.evaluate_read_file(filename, target, f),
            Stmt::Return { value } => {
                let ev = self.evaluate_expr(value, f);
                let ghost mid = self.state();
                proof {
                    // The terms by which the outcome of a call is found.
                    assert(mid.ctx == self.context());
                    assert(dropped(ev) is Err == ev is Err);
                }
                match ev {
                    Ok(val) => Err(CPSError::returning(val)),
                    Err(e) => Err(e),
                }
            },
            Stmt::Constant { identifier, value } => self.evaluate_constant(identifier, value),
        }
    }

    /// OUTPUT: the value's text goes to the embedding.
    fn evaluate_output_stmt(&mut self, target: &Expr, fuel: u64) -> (r: Result<(), CPSError>)
        requires
            old(self).wf(),
        ensures
            final(self).wf(),
            unwinds_normally(r) ==> final(self).env().scopes.len() == old(self).env().scopes.len(),
            output_effect(*target, old(self).state(), final(self).state(), r),
            evaluated_effect(Stmt::Output { target: *target }, old(self).state(), final(self).state(), r, fuel as nat),
        decreases fuel, 6u64,
    {
        let ghost a = self.state();
        let ev = self.evaluate_expr(target, fuel);
        let ghost mid = self.state();
        proof {
            // The terms by which the outcome of a call is found.
            assert(mid.ctx == self.context());
            assert(dropped(ev) is Err == ev is Err);
        }
        let value = match ev {
            Ok(v) => v,
            Err(e) => {
                return Err(e);
            },
        };
        let text = match self.output_of(&value) {
            Ok(t) => t,
            Err(e) => {
                return Err(e);
            },
        };
        self.replay_ctx.emit_output(text)
    }

    /// The text that OUTPUT shows for a value; an identifier shows the value
    /// it names.
    fn output_of(&self, value: &Value) -> (r: Result<String, CPSError>)
        requires
            self.wf(),
        ensures
            !(value@ is Real) && !(value@ is Identifier) ==> match (r, output_text(value@)) {
                (Ok(s), Some(t)) => s@ == t,
                (Err(e), None) => is_runtime(e) && e.hint is None,
                _ => false,
            },
            value@ matches ValueV::Identifier(name) ==> match self.env().lookup(name) {
                None => r matches Err(e) && is_runtime_error(e, "Undefined identifier: "@ + name) && e.hint is None,
                Some(w) => !(w is Real) ==> match (r, output_text(w)) {
                    (Ok(s), Some(t)) => s@ == t,
                    (Err(e), None) => is_runtime(e) && e.hint is None,
                    _ => false,
                },
            },
    {
        match value {
            Value::Identifier(id) => match self.current_env.get(id.as_str()) {
                Some(v) => match output_text_of(&v, &self.host) {
                    Some(t) => Ok(t),
                    None => Err(
                        CPSError::runtime(concat2("Unsupported identifier type for output: ", self.debug_of(&v).as_str())),
                    ),
                },
                None => Err(Self::undefined_identifier(id.as_str())),
            },
            _ => match output_text_of(value, &self.host) {
                Some(t) => Ok(t),
                None => Err(CPSError::runtime(concat2("Unsupported output type: ", self.debug_of(value).as_str()))),
            },
        }
    }
}

impl<H: Host> Interpreter<H> {
    /// A bound of an array in a declaration: an integer, or a real taken
    /// as an integer.
    fn bound_of(&self, v: Value, what: &str) -> (r: Result<i64, CPSError>)
        ensures
            v@ matches ValueV::Integer(n) ==> r == Ok::<i64, CPSError>(n),
            v@ is Real ==> r is Ok,
            v@ matches ValueV::Real(x) ==> r == Ok::<i64, CPSError>(self.host.integer_of(x)),
            !(v@ is Integer || v@ is Real) ==> (r matches Err(e) && is_runtime_error(e, what@) && e.hint is None),
    {
        match v {
            Value::Integer(n) => Ok(n),
            Value::Real(x) => Ok(self.host.real_to_integer(x)),
            _ => Err(CPSError::runtime(String::from_str(what))),
        }
    }

    /// The value of a new array: its bounds are evaluated, and every element
    /// starts as the initial value of the base type.
    fn new_array(&mut self, arr: &ArrayType, fuel: u64) -> (r: Result<Value, CPSError>)
        requires
            old(self).wf(),
        ensures
            final(self).wf(),
            unwinds_normally(r) ==> final(self).env().scopes.len() == old(self).env().scopes.len(),
            r matches Ok(v) ==> (v@ matches ValueV::Array { elems, .. } && forall|i: int|
                0 <= i < elems.len() ==> Some(#[trigger] elems[i]) == crate::types::initial_scalar(*arr.base_type)),
            array_made(*arr, old(self).state(), final(self).state(), r, fuel as nat),
        decreases fuel, 5u64,
    {
        let ghost a = self.state();
        let ghost f = fuel as nat;
        let lres = self.evaluate_expr(&arr.lower_bound, fuel);
        let ghost m1 = self.state();
        let ghost mut ures: Result<Value, CPSError> = lres;
        let ghost mut m2: RunState = m1;
        let ghost mut clres: Result<Value, CPSError> = lres;
        let ghost mut m3: RunState = m1;
        let ghost mut cures: Result<Value, CPSError> = lres;
        let ghost mut m4: RunState = m1;
        let ghost mut glo: i64 = 0;
        let ghost mut ghi: i64 = 0;
        let ghost mut gcl: i64 = 0;
        let ghost mut gcu: i64 = 0;
        let lower_value = match lres {
            Ok(v) => v,
            Err(e) => {
                proof {
                    lemma_array_made(*arr, a, m1, lres, m2, ures, m3, clres, m4, cures, self.state(), Err(e), f, glo, ghi, gcl, gcu);
                }
                return Err(e);
            },
        };
        let lower = match self.bound_of(lower_value, "Array lower bound must be an integer") {
            Ok(n) => n,
            Err(e) => {
                proof {
                    lemma_array_made(*arr, a, m1, lres, m2, ures, m3, clres, m4, cures, self.state(), Err(e), f, glo, ghi, gcl, gcu);
                }
                return Err(e);
            },
        };
        proof {
            glo = lower;
        }
        let ur = self.evaluate_expr(&arr.upper_bound, fuel);
        proof {
            ures = ur;
            m2 = self.state();
        }
        let upper_value = match ur {
            Ok(v) => v,
            Err(e) => {
                proof {
                    lemma_array_made(*arr, a, m1, lres, m2, ures, m3, clres, m4, cures, self.state(), Err(e), f, glo, ghi, gcl, gcu);
                }
                return Err(e);
            },
        };
        let upper = match self.bound_of(upper_value, "Array upper bound must be an integer") {
            Ok(n) => n,
            Err(e) => {
                proof {
                    lemma_array_made(*arr, a, m1, lres, m2, ures, m3, clres, m4, cures, self.state(), Err(e), f, glo, ghi, gcl, gcu);
                }
                return Err(e);
            },
        };
        proof {
            ghi = upper;
        }
        if upper < lower {
            let mut m = String::from_str("Array upper bound ");
            m.append(int_to_string(upper).as_str());
            m.append(" cannot be less than lower bound ");
            m.append(int_to_string(lower).as_str());
            let out = Err(CPSError::runtime(m));
            proof {
                lemma_array_made(*arr, a, m1, lres, m2, ures, m3, clres, m4, cures, self.state(), out, f, glo, ghi, gcl, gcu);
            }
            return out;
        }
        let row_count: usize = upper.wrapping_sub(lower).wrapping_add(1) as usize;
        let ghost mut col_lo: i64 = 0;
        let ghost mut col_hi: i64 = 0;
        let bounds_2d: Option<(usize, usize)> = match &arr.bounds_2d {
            Some((col_lb_expr, col_ub_expr)) => {
                let clr = self.evaluate_expr(col_lb_expr, fuel);
                proof {
                    clres = clr;
                    m3 = self.state();
                }
                let lb_value = match clr {
                    Ok(v) => v,
                    Err(e) => {
                        proof {
                            lemma_array_made(*arr, a, m1, lres, m2, ures, m3, clres, m4, cures, self.state(), Err(e), f, glo, ghi, gcl, gcu);
                        }
                        return Err(e);
                    },
                };
                let col_lb = match self.bound_of(lb_value, "Array column lower bound must be an integer") {
                    Ok(n) => n,
                    Err(e) => {
                        proof {
                            lemma_array_made(*arr, a, m1, lres, m2, ures, m3, clres, m4, cures, self.state(), Err(e), f, glo, ghi, gcl, gcu);
                        }
                        return Err(e);
                    },
                };
                proof {
                    gcl = col_lb;
                }
                let cur = self.evaluate_expr(col_ub_expr, fuel);
                proof {
                    cures = cur;
                    m4 = self.state();
                }
                let ub_value = match cur {
                    Ok(v) => v,
                    Err(e) => {
                        proof {
                            lemma_array_made(*arr, a, m1, lres, m2, ures, m3, clres, m4, cures, self.state(), Err(e), f, glo, ghi, gcl, gcu);
                        }
                        return Err(e);
                    },
                };
                let col_ub = match self.bound_of(ub_value, "Array column upper bound must be an integer") {
                    Ok(n) => n,
                    Err(e) => {
                        proof {
                            lemma_array_made(*arr, a, m1, lres, m2, ures, m3, clres, m4, cures, self.state(), Err(e), f, glo, ghi, gcl, gcu);
                        }
                        return Err(e);
                    },
                };
                proof {
                    gcu = col_ub;
                }
                proof {
                    col_lo = col_lb;
                    col_hi = col_ub;
                }
                if col_ub < col_lb {
                    let mut m = String::from_str("Column upper bound ");
                    m.append(int_to_string(col_ub).as_str());
                    m.append(" cannot be less than lower bound ");
                    m.append(int_to_string(col_lb).as_str());
                    let out = Err(CPSError::runtime(m));
                    proof {
                        lemma_array_made(*arr, a, m1, lres, m2, ures, m3, clres, m4, cures, self.state(), out, f, glo, ghi, gcl, gcu);
                    }
                    return out;
                }
                Some((col_lb as usize, col_ub as usize))
            },
            None => None,
        };
        let total_length: usize = match bounds_2d {
            Some((cl, cu)) => row_count.wrapping_mul(cu.wrapping_sub(cl).wrapping_add(1)),
            None => row_count,
        };
        let default_value = match initial_scalar_value(&arr.base_type) {
            Some(v) => v,
            None => {
                let m = concat2("Unsupported array element type: ", type_debug_text(&arr.base_type, &self.host).as_str());
                let out = Err(CPSError::runtime(m));
                proof {
                    lemma_array_made(*arr, a, m1, lres, m2, ures, m3, clres, m4, cures, self.state(), out, f, glo, ghi, gcl, gcu);
                }
                return out;
            },
        };
        let mut elements: Vec<Value> = Vec::new();
        let mut k: usize = 0;
        while k < total_length
            invariant
                k <= total_length,
                elements@.len() == k,
                Some(default_value@) == crate::types::initial_scalar(*arr.base_type),
                forall|i: int| 0 <= i < k ==> #[trigger] elements@[i]@ == default_value@,
            decreases total_length - k,
        {
            elements.push(default_value.duplicate());
            k = k + 1;
        }
        let v = Value::Array { array: elements, lower_bound: lower as usize, bounds_2d };
        assert forall|i: int| 0 <= i < v@->elems.len() implies Some(#[trigger] v@->elems[i])
            == crate::types::initial_scalar(*arr.base_type) by {
            assert(v@->elems[i] == elements@[i]@);
        }
        proof {
            assert(v@->elems =~= Seq::new(total_length as nat, |i: int| default_value@));
            let cols = match bounds_2d {
                Some(_) => Some((col_lo, col_hi)),
                None => None,
            };
            assert(v@ == array_value(lower, upper, cols, default_value@));
        }
        let out = Ok(v);
        proof {
            lemma_array_made(*arr, a, m1, lres, m2, ures, m3, clres, m4, cures, self.state(), out, f, glo, ghi, gcl, gcu);
        }
        out
    }

    /// DECLARE: defines the name in the current scope with the initial value
    /// of its type; an array gets its bounds evaluated.
    fn evaluate_declaration_stmt(&mut self, identifier: &String, type_: &Type, fuel: u64) -> (r: Result<
        (),
        CPSError,
    >)
        requires
            old(self).wf(),
        ensures
            final(self).wf(),
            unwinds_normally(r) ==> final(self).env().scopes.len() == old(self).env().scopes.len(),
            crate::types::initial_scalar(*type_) matches Some(v) ==> {
                &&& old(self).env().top().constants.contains(identifier@) ==> r is Err && final(self).env() == old(
                    self,
                ).env()
                &&& !old(self).env().top().constants.contains(identifier@) ==> r is Ok && final(self).env() == old(
                    self,
                ).env().defined(identifier@, v)
            },
            !(type_ is Array) && crate::types::initial_scalar(*type_) is None ==> (r matches Err(e) && is_runtime(e)
                && final(self).env() == old(self).env()),
            crate::types::initial_scalar(*type_) is Some ==> final(self).context() == old(self).context(),
            !(type_ is Array) ==> final(self).context() == old(self).context(),
            evaluated_effect(
                Stmt::Decleration { identifier: *identifier, type_: *type_ },
                old(self).state(),
                final(self).state(),
                r,
                fuel as nat,
            ),
        decreases fuel, 6u64,
    {
        let initial = match type_ {
            Type::Array(arr) => {
                let nres = self.new_array(arr, fuel);
                let ghost mid = self.state();
                proof {
                    // The terms by which the made array is found.
                    assert(mid.ctx == self.context());
                    assert(dropped(nres) is Err == nres is Err);
                }
                match nres {
                    Ok(v) => v,
                    Err(e) => {
                        return Err(e);
                    },
                }
            },
            _ => match initial_scalar_value(type_) {
                Some(v) => v,
                None => {
                    let m = concat2("Unsupported type for declaration: ", type_debug_text(type_, &self.host).as_str());
                    return Err(CPSError::runtime(m));
                },
            },
        };
        proof {
            self.current_env.lemma_has_top_scope();
        }
        self.current_env.define(identifier.clone(), initial)
    }

    /// CONSTANT: defines the name in the current scope and holds it constant.
    fn evaluate_constant(&mut self, identifier: &String, value: &Value) -> (r: Result<(), CPSError>)
        requires
            old(self).wf(),
        ensures
            final(self).wf(),
            final(self).env().scopes.len() == old(self).env().scopes.len(),
            final(self).context() == old(self).context(),
            old(self).env().top().constants.contains(identifier@) ==> r is Err && final(self).env() == old(self).env(),
            !old(self).env().top().constants.contains(identifier@) ==> r is Ok && final(self).env() == ({
                let d = old(self).env().defined(identifier@, value@);
                d.with_top(crate::environment::ScopeView { constants: d.top().constants.insert(identifier@), ..d.top() })
            }),
    {
        proof {
            self.current_env.lemma_has_top_scope();
        }
        self.current_env.declare_constant(identifier.as_str(), value)
    }

    /// PROCEDURE: defines the name as the procedure, unless it is a builtin.
    fn evaluate_procedure(&mut self, identifier: &String, definition: &Rc<Function>) -> (r: Result<(), CPSError>)
        requires
            old(self).wf(),
        ensures
            final(self).wf(),
            final(self).env().scopes.len() == old(self).env().scopes.len(),
            final(self).context() == old(self).context(),
            is_builtin_name(identifier@) ==> (r matches Err(e) && is_runtime_error(
                e,
                "Cannot redefine builtin function as procedure: "@ + identifier@,
            ) && final(self).env() == old(self).env()),
            !is_builtin_name(identifier@) && !old(self).env().top().constants.contains(identifier@) ==> r is Ok
                && final(self).env() == old(self).env().defined(identifier@, ValueV::Function(*definition)),
            !is_builtin_name(identifier@) && old(self).env().top().constants.contains(identifier@) ==> r is Err
                && final(self).env() == old(self).env(),
    {
        if is_builtin(identifier.as_str()) {
            return Err(
                CPSError::runtime(concat2("Cannot redefine builtin function as procedure: ", identifier.as_str())),
            );
        }
        proof {
            self.current_env.lemma_has_top_scope();
        }
        self.current_env.define(identifier.clone(), Value::Function(share_function(definition)))
    }

    /// FUNCTION: defines the name as the function, unless it is a builtin.
    fn evaluate_function(&mut self, identifier: &String, definition: &Rc<Function>) -> (r: Result<(), CPSError>)
        requires
            old(self).wf(),
        ensures
            final(self).wf(),
            final(self).env().scopes.len() == old(self).env().scopes.len(),
            final(self).context() == old(self).context(),
            is_builtin_name(identifier@) ==> (r matches Err(e) && is_runtime_error(
                e,
                "Cannot redefine builtin function: "@ + identifier@,
            ) && final(self).env() == old(self).env()),
            !is_builtin_name(identifier@) && !old(self).env().top().constants.contains(identifier@) ==> r is Ok
                && final(self).env() == old(self).env().defined(identifier@, ValueV::Function(*definition)),
            !is_builtin_name(identifier@) && old(self).env().top().constants.contains(identifier@) ==> r is Err
                && final(self).env() == old(self).env(),
    {
        if is_builtin(identifier.as_str()) {
            return Err(CPSError::runtime(concat2("Cannot redefine builtin function: ", identifier.as_str())));
        }
        proof {
            self.current_env.lemma_has_top_scope();
        }
        self.current_env.define(identifier.clone(), Value::Function(share_function(definition)))
    }
}

impl<H: Host> Interpreter<H> {
    /// The value that an assignment stores in `identifier`: the value itself
    /// when its type is the type the variable holds; a real made an integer
    /// or an integer made a real to fit the variable; for an element of an
    /// array, a value that fits the base type, converted to it.
    fn assignment_value(&self, identifier: &str, val: Value, indexed: bool) -> (r: Result<Value, CPSError>)
        requires
            self.wf(),
        ensures
            assignment_result(r, self.env(), identifier@, val@, indexed),
    {
        let expected = match self.current_env.get_type(identifier) {
            Ok(t) => t,
            Err(e) => {
                return Err(e);
            },
        };
        let actual = match type_of_assigned(&val) {
            Ok(t) => t,
            Err(f) => {
                return Err(assign_fault_error(f, identifier));
            },
        };
        proof {
            let a = self.env().address_of(identifier@).unwrap();
            lemma_reported_types_are_literal(self.env().heap[a]);
            lemma_reported_types_are_literal(val@);
        }
        match (&val, &expected, &actual) {
            (Value::Real(x), Type::Integer, Type::Real) => {
                return Ok(Value::Integer(self.host.real_to_integer(*x)));
            },
            (Value::Integer(i), Type::Real, Type::Integer) => {
                return Ok(Value::Real(self.host.real_from_integer(*i)));
            },
            _ => {},
        }
        if same_type(&actual, &expected) {
            return Ok(val);
        }
        if indexed {
            if let Type::Array(arr) = &expected {
                let can_be_converted = check_if_type_can_be_converted(&val, &arr.base_type, &self.host);
                if can_be_converted || same_type(&actual, &arr.base_type) {
                    if can_be_converted {
                        return convert_values_to_base_type(&val, &arr.base_type, &self.host);
                    }
                    return Ok(val);
                }
                let mut m = String::from_str("Type mismatch: cannot assign ");
                m.append(type_debug_text(&actual, &self.host).as_str());
                m.append(" to array element of type ");
                m.append(type_debug_text(&arr.base_type, &self.host).as_str());
                return Err(
                    CPSError::runtime_with_hint(m, String::from_str("Array element type must match the array's base type")),
                );
            }
        }
        let mut m = String::from_str("Type mismatch: cannot assign ");
        m.append(type_debug_text(&actual, &self.host).as_str());
        m.append(" to variable '");
        m.append(identifier);
        m.append("' of type ");
        m.append(type_debug_text(&expected, &self.host).as_str());
        Err(CPSError::runtime_with_hint(m, String::from_str("The value type must match the declared variable type")))
    }

    /// An index given in an assignment or an INPUT: an integer, or a whole
    /// real.
    fn index_value(&self, v: &Value, column: bool) -> (r: Result<i64, CPSError>)
        ensures
            v@ matches ValueV::Integer(n) ==> r == Ok::<i64, CPSError>(n),
            v@ matches ValueV::Real(x) ==> if self.host.has_fraction_of(x) {
                r matches Err(e) && is_runtime(e) && e.hint is None
            } else {
                r == Ok::<i64, CPSError>(self.host.integer_of(x))
            },
            !(v@ is Integer || v@ is Real) ==> (r matches Err(e) && is_runtime(e) && e.hint is None),
    {
        let what = if column {
            "Array column index"
        } else {
            "Array index"
        };
        match v {
            Value::Integer(n) => Ok(*n),
            Value::Real(x) => {
                if self.host.real_has_fraction(*x) {
                    let m = concat3(what, " must be an integer, got real number: ", self.host.real_to_text(*x).as_str());
                    return Err(CPSError::runtime(m));
                }
                Ok(self.host.real_to_integer(*x))
            },
            _ => {
                let mut m = String::from_str(what);
                m.append(" must be an integer, got: ");
                if column {
                    m.append("Some(");
                    m.append(self.debug_of(v).as_str());
                    m.append(")");
                } else {
                    m.append(self.debug_of(v).as_str());
                }
                Err(CPSError::runtime(m))
            },
        }
    }

    /// A column index that is not negative.
    fn column_position(c: Option<i64>) -> (r: Result<Option<usize>, CPSError>)
        ensures
            match c {
                None => r == Ok::<Option<usize>, CPSError>(None),
                Some(n) => if n >= 0 {
                    r == Ok::<Option<usize>, CPSError>(Some(n as usize))
                } else {
                    r matches Err(e) && is_runtime_error(
                        e,
                        "Array column index cannot be negative, got: "@ + crate::text::int_text(n as int),
                    ) && e.hint is None
                },
            },
    {
        match c {
            None => Ok(None),
            Some(n) => {
                if n >= 0 {
                    Ok(Some(n as usize))
                } else {
                    Err(CPSError::runtime(concat2("Array column index cannot be negative, got: ", int_to_string(n).as_str())))
                }
            },
        }
    }

    /// Stores `value` in `identifier`, or in its element `index` (and
    /// column) when one is given; `what` names the statement in the message
    /// of a failure.
    fn store(&mut self, identifier: &str, value: Value, index: Option<(i64, Option<usize>)>, what: &str) -> (r: Result<
        (),
        CPSError,
    >)
        requires
            old(self).wf(),
        ensures
            final(self).wf(),
            final(self).context() == old(self).context(),
            final(self).env().scopes.len() == old(self).env().scopes.len(),
            match index {
                None => stored_in(r, old(self).env(), final(self).env(), identifier@, value@),
                Some((i, c)) => stored_in_element(
                    r,
                    old(self).env(),
                    final(self).env(),
                    identifier@,
                    i as usize,
                    c,
                    value@,
                ),
            },
    {
        match index {
            None => match self.current_env.set(identifier, value) {
                Ok(()) => Ok(()),
                Err(e) => {
                    let mut m = String::from_str("Failed to assign ");
                    m.append(what);
                    m.append(" to '");
                    m.append(identifier);
                    m.append("': ");
                    m.append(e.message.as_str());
                    Err(CPSError::runtime(m))
                },
            },
            Some((i, c)) => match self.current_env.set_array_element(identifier, i as usize, c, value) {
                Ok(()) => Ok(()),
                Err(e) => {
                    let mut m = String::from_str("Failed to assign ");
                    m.append(what);
                    m.append(" to array element '");
                    m.append(identifier);
                    m.append("[");
                    m.append(int_to_string(i).as_str());
                    m.append("]': ");
                    m.append(e.message.as_str());
                    Err(CPSError::runtime(m))
                },
            },
        }
    }

    /// Assignment: the value is evaluated and checked against the type the
    /// variable holds, then the indices, if any, are evaluated, and the value
    /// is stored.
    fn evaluate_assignment_stmt(
        &mut self,
        identifier: &String,
        value: &Ast,
        array_index: &Option<(Box<Expr>, Option<Box<Expr>>)>,
        fuel: u64,
    ) -> (r: Result<(), CPSError>)
        requires
            old(self).wf(),
        ensures
            final(self).wf(),
            unwinds_normally(r) ==> final(self).env().scopes.len() == old(self).env().scopes.len(),
            array_index is None ==> (value matches Ast::Expression(Expr::Literal(lit)) ==> assignment_effect(
                identifier@,
                lit@,
                old(self).state(),
                final(self).state(),
                r,
            )),
            array_index is None ==> (value matches Ast::Identifier(other) ==> assignment_effect(
                identifier@,
                ValueV::Identifier(other@),
                old(self).state(),
                final(self).state(),
                r,
            )),
            evaluated_effect(
                Stmt::Assignment { identifier: *identifier, array_index: *array_index, value: *value },
                old(self).state(),
                final(self).state(),
                r,
                fuel as nat,
            ),
        decreases fuel, 6u64,
    {
        let val = match value {
            Ast::Expression(expr) => {
                let ev = self.evaluate_expr(expr, fuel);
                let ghost mid = self.state();
                proof {
                    // The terms by which the outcome of a call is found.
                    assert(mid.ctx == self.context());
                    assert(dropped(ev) is Err == ev is Err);
                }
                match ev {
                    Ok(v) => v,
                    Err(e) => {
                        return Err(e);
                    },
                }
            },
            Ast::Identifier(name) => {
                let v = match self.current_env.get(name.as_str()) {
                    Some(v) => v,
                    None => {
                        return Err(Self::undefined_identifier(name.as_str()));
                    },
                };
                match self.evaluate_literal(&v) {
                    Ok(v) => v,
                    Err(e) => {
                        return Err(e);
                    },
                }
            },
            Ast::Stmt(_) => {
                return Err(CPSError::runtime(concat3("Invalid assignment value for '", identifier.as_str(), "'")));
            },
        };
        let ghost v = val@;
        let ghost here = self.env();
        let converted = match self.assignment_value(identifier.as_str(), val, array_index.is_some()) {
            Ok(v) => v,
            Err(e) => {
                proof {
                    if array_index is Some && plain_scalar(v) {
                        lemma_element_assigned(here, identifier@, v, Err(e));
                    }
                }
                return Err(e);
            },
        };
        proof {
            if array_index is Some && plain_scalar(v) {
                lemma_element_assigned(here, identifier@, v, Ok(converted));
            }
        }
        match array_index {
            Some((idx, col)) => self.store_element(identifier.as_str(), converted, idx, col, fuel),
            None => {
                let ghost cv = converted@;
                let r = self.store(identifier.as_str(), converted, None, "value");
                proof {
                    if cv is Integer {
                        assert(cv == ValueV::Integer(cv->Integer_0));
                    }
                    if cv is Real {
                        assert(cv == ValueV::Real(cv->Real_0));
                    }
                }
                r
            },
        }
    }

    /// The index part of an assignment to an array element: the index and
    /// the column, if any, are evaluated, and the value is stored there.
    fn store_element(&mut self, identifier: &str, converted: Value, idx: &Expr, col: &Option<Box<Expr>>, fuel: u64) -> (r:
        Result<(), CPSError>)
        requires
            old(self).wf(),
        ensures
            final(self).wf(),
            unwinds_normally(r) ==> final(self).env().scopes.len() == old(self).env().scopes.len(),
            element_store(identifier@, converted@, *idx, *col, old(self).state(), final(self).state(), r, fuel as nat),
        decreases fuel, 5u64,
    {
        let ghost a = self.state();
        let ghost f = fuel as nat;
        let ghost stored = converted@;
        let ires = self.evaluate_expr(idx, fuel);
        let ghost m1 = self.state();
        let index_value = match ires {
            Ok(v) => v,
            Err(e) => {
                proof {
                    lemma_element_store(identifier@, stored, *idx, *col, a, m1, ires, m1, ires, m1, Err(e), f);
                }
                return Err(e);
            },
        };
        let ghost mut cres: Result<Value, CPSError> = ires;
        let column_value = match col {
            Some(col_expr) => {
                let c = self.evaluate_expr(col_expr, fuel);
                proof {
                    cres = c;
                }
                match c {
                    Ok(v) => Some(v),
                    Err(e) => {
                        proof {
                            lemma_element_store(identifier@, stored, *idx, *col, a, m1, ires, self.state(), cres, self.state(), Err(e), f);
                        }
                        return Err(e);
                    },
                }
            },
            None => None,
        };
        let ghost m2 = self.state();
        let r = self.put_element(identifier, converted, &index_value, &column_value);
        proof {
            lemma_element_store(identifier@, stored, *idx, *col, a, m1, ires, m2, cres, self.state(), r, f);
        }
        r
    }

    /// Puts `converted` in the element of the array `identifier` at the
    /// index value `index_value` (and the column value `column_value`).
    fn put_element(&mut self, identifier: &str, converted: Value, index_value: &Value, column_value: &Option<Value>) -> (r:
        Result<(), CPSError>)
        requires
            old(self).wf(),
        ensures
            final(self).wf(),
            unwinds_normally(r) ==> final(self).env().scopes.len() == old(self).env().scopes.len(),
            element_put(
                identifier@,
                converted@,
                index_value@,
                match column_value {
                    Some(c) => Some(c@),
                    None => None,
                },
                old(self).state(),
                final(self).state(),
                r,
            ),
    {
        let index_int = match self.index_value(index_value, false) {
            Ok(n) => n,
            Err(e) => {
                return Err(e);
            },
        };
        let column_int = match column_value {
            Some(cv) => match self.index_value(cv, true) {
                Ok(n) => Some(n),
                Err(e) => {
                    return Err(e);
                },
            },
            None => None,
        };
        let column_usize = match Self::column_position(column_int) {
            Ok(c) => c,
            Err(e) => {
                return Err(e);
            },
        };
        self.store(identifier, converted, Some((index_int, column_usize)), "value")
    }

    /// Stores a line of input in a variable, read as the type it holds.
    fn input_into_variable(&mut self, iden: &str, input: String) -> (r: Result<(), CPSError>)
        requires
            old(self).wf(),
        ensures
            final(self).wf(),
            final(self).context() == old(self).context(),
            final(self).env().scopes.len() == old(self).env().scopes.len(),
            input_stored(r, old(self).env(), final(self).env(), iden@, input@),
    {
        let t = match self.current_env.get_type(iden) {
            Ok(t) => t,
            Err(e) => {
                return Err(e);
            },
        };
        let target = concat3("variable '", iden, "'");
        let v = match convert_input(input, &t, target.as_str(), "Unsupported variable type for INPUT: ", &self.host) {
            Ok(v) => v,
            Err(e) => {
                return Err(e);
            },
        };
        self.store(iden, v, None, "input")
    }

    /// Stores a line of input in an element of an array, read as its base type.
    fn input_into_element(&mut self, name: &str, index: i64, col: Option<usize>, input: String) -> (r: Result<
        (),
        CPSError,
    >)
        requires
            old(self).wf(),
        ensures
            final(self).wf(),
            final(self).context() == old(self).context(),
            final(self).env().scopes.len() == old(self).env().scopes.len(),
            input_stored_in_element(r, old(self).env(), final(self).env(), name@, index, col, input@),
    {
        let t = match self.current_env.get_type(name) {
            Ok(t) => t,
            Err(e) => {
                return Err(e);
            },
        };
        match t {
            Type::Array(arr) => {
                let mut target = String::from_str("array element '");
                target.append(name);
                target.append("[");
                target.append(int_to_string(index).as_str());
                target.append("]'");
                let v = match convert_input(
                    input,
                    &arr.base_type,
                    target.as_str(),
                    "Unsupported array base type for INPUT: ",
                    &self.host,
                ) {
                    Ok(v) => v,
                    Err(e) => {
                        return Err(e);
                    },
                };
                self.store(name, v, Some((index, col)), "input")
            },
            _ => Err(CPSError::runtime(concat3("Identifier '", name, "' is not an array for INPUT statement"))),
        }
    }

    /// INPUT: the next line of input is read and stored in a variable, or in
    /// an element of an array, as the type it holds.
    fn evaluate_input_stmt(&mut self, identifier: &Box<Expr>, fuel: u64) -> (r: Result<(), CPSError>)
        requires
            old(self).wf(),
        ensures
            final(self).wf(),
            unwinds_normally(r) ==> final(self).env().scopes.len() == old(self).env().scopes.len(),
            **identifier matches Expr::Literal(Value::Identifier(iden)) ==> input_effect(
                iden@,
                old(self).state(),
                final(self).state(),
                r,
            ),
            evaluated_effect(Stmt::Input { identifier: *identifier }, old(self).state(), final(self).state(), r, fuel as nat),
        decreases fuel, 6u64,
    {
        let var_name: String = match &**identifier {
            Expr::Literal(Value::Identifier(iden)) => iden.clone(),
            Expr::ArrayAccess { name, .. } => name.clone(),
            _ => String::from_str("?"),
        };
        let input = match self.replay_ctx.read_input(var_name.as_str()) {
            Ok(s) => s,
            Err(e) => {
                return Err(e);
            },
        };
        match &**identifier {
            Expr::Literal(lit) => match lit {
                Value::Identifier(iden) => self.input_into_variable(iden.as_str(), input),
                _ => Err(
                    CPSError::runtime(concat2("INPUT statement requires an identifier, got: ", self.debug_of(lit).as_str())),
                ),
            },
            Expr::ArrayAccess { name, index, col } => self.input_element(name, index, col, input, fuel),
            _ => Err(CPSError::runtime(String::from_str("INPUT statement requires an identifier"))),
        }
    }
}

impl<H: Host> Interpreter<H> {
    /// INPUT into an element of an array: the index and the column are
    /// evaluated, and the line is stored there.
    fn input_element(&mut self, name: &String, index: &Box<Expr>, col: &Option<Box<Expr>>, input: String, fuel: u64) -> (r:
        Result<(), CPSError>)
        requires
            old(self).wf(),
        ensures
            final(self).wf(),
            unwinds_normally(r) ==> final(self).env().scopes.len() == old(self).env().scopes.len(),
            element_input(name@, **index, *col, input@, old(self).state(), final(self).state(), r, fuel as nat),
        decreases fuel, 5u64,
    {
        let ghost a = self.state();
        let ghost f = fuel as nat;
        let ghost line = input@;
        let ires = self.evaluate_expr(index, fuel);
        let ghost m1 = self.state();
        let index_value = match ires {
            Ok(v) => v,
            Err(e) => {
                proof {
                    lemma_element_input(name@, **index, *col, line, a, m1, ires, m1, ires, m1, Err(e), f);
                }
                return Err(e);
            },
        };
        let index_int = match self.index_value(&index_value, false) {
            Ok(n) => n,
            Err(e) => {
                proof {
                    lemma_element_input(name@, **index, *col, line, a, m1, ires, m1, ires, m1, Err(e), f);
                }
                return Err(e);
            },
        };
        let ghost mut cres: Result<Value, CPSError> = ires;
        let col_value = match col {
            Some(col_expr) => {
                let c = self.evaluate_expr(col_expr, fuel);
                proof {
                    cres = c;
                }
                match c {
                    Ok(v) => Some(v),
                    Err(e) => {
                        proof {
                            lemma_element_input(name@, **index, *col, line, a, m1, ires, self.state(), cres, self.state(), Err(e), f);
                        }
                        return Err(e);
                    },
                }
            },
            None => None,
        };
        let ghost m2 = self.state();
        let col_int = match col_value {
            Some(cv) => match self.index_value(&cv, true) {
                Ok(n) => Some(n),
                Err(e) => {
                    proof {
                        lemma_element_input(name@, **index, *col, line, a, m1, ires, m2, cres, m2, Err(e), f);
                    }
                    return Err(e);
                },
            },
            None => None,
        };
        let col_usize = match Self::column_position(col_int) {
            Ok(c) => c,
            Err(e) => {
                proof {
                    lemma_element_input(name@, **index, *col, line, a, m1, ires, m2, cres, m2, Err(e), f);
                }
                return Err(e);
            },
        };
        let r = self.input_into_element(name.as_str(), index_int, col_usize, input);
        proof {
            lemma_element_input(name@, **index, *col, line, a, m1, ires, m2, cres, self.state(), r, f);
        }
        r
    }

    /// IF: runs the THEN block when the condition is TRUE, the ELSE block,
    /// if any, when it is FALSE.
    fn evaluate_if_stmt(
        &mut self,
        condition: &Expr,
        then_branch: &BlockStmt,
        else_branch: &Option<BlockStmt>,
        fuel: u64,
    ) -> (r: Result<(), CPSError>)
        requires
            old(self).wf(),
        ensures
            final(self).wf(),
            unwinds_normally(r) ==> final(self).env().scopes.len() == old(self).env().scopes.len(),
            condition matches Expr::Literal(Value::Boolean(false)) && else_branch is None ==> r is Ok && final(self).env()
                == old(self).env() && final(self).context() == old(self).context(),
            condition matches Expr::Literal(v) && !(v is Boolean || v is Identifier) ==> (r matches Err(e) && is_runtime(e)
                && final(self).env() == old(self).env() && final(self).context() == old(self).context()),
            evaluated_effect(
                Stmt::If { condition: *condition, then_branch: *then_branch, else_branch: *else_branch },
                old(self).state(),
                final(self).state(),
                r,
                fuel as nat,
            ),
        decreases fuel, 6u64,
    {
        let cres = self.evaluate_expr(condition, fuel);
        let ghost mid = self.state();
        proof {
            // The terms by which the outcome of the condition is found.
            assert(mid.ctx == self.context());
            assert(dropped(cres) is Err == cres is Err);
        }
        let cond_value = match cres {
            Ok(v) => v,
            Err(e) => {
                return Err(e);
            },
        };
        match cond_value {
            Value::Boolean(true) => self.evaluate_block(then_branch, fuel),
            Value::Boolean(false) => match else_branch {
                Some(else_block) => self.evaluate_block(else_block, fuel),
                None => Ok(()),
            },
            _ => Err(
                CPSError::runtime(
                    concat2(
                        "Condition in IF statement did not evaluate to a boolean: ",
                        self.debug_of(&cond_value).as_str(),
                    ),
                ),
            ),
        }
    }

    /// Whether two values are equal for CASE: an integer and a real compare
    /// as reals, reals are equal when they are within the machine epsilon of
    /// each other (as the host says), and values of different kinds differ.
    fn values_equal(&self, a: &Value, b: &Value) -> (r: bool)
        ensures
            !(a@ is Real) && !(b@ is Real) ==> r == operators::plain_equal(a@, b@),
            operators::real_pair(a@, b@) ==> r == self.host.close_of(
                operators::as_real(&self.host, a@),
                operators::as_real(&self.host, b@),
            ),
            a@ is Real && !operators::is_number(b@) ==> !r,
            b@ is Real && !operators::is_number(a@) ==> !r,
    {
        let (x, y) = convert_values_to_compatible_types(a, b, &self.host);
        match (&x, &y) {
            (Value::Integer(p), Value::Integer(q)) => *p == *q,
            (Value::Real(p), Value::Real(q)) => self.host.real_close(*p, *q),
            (Value::String(p), Value::String(q)) => str_equal(p.as_str(), q.as_str()),
            (Value::Char(p), Value::Char(q)) => *p == *q,
            (Value::Boolean(p), Value::Boolean(q)) => *p == *q,
            _ => false,
        }
    }

    /// Whether a value lies in the inclusive range of a CASE arm: numbers,
    /// strings and characters compare in their own order; other values, or
    /// values of different kinds, are an error.
    fn value_in_range(&self, value: &Value, start: &Value, end: &Value) -> (r: Result<bool, CPSError>)
        ensures
            !(value@ is Real) && !(start@ is Real) && !(end@ is Real) ==> match (value@, start@, end@) {
                (ValueV::Integer(v), ValueV::Integer(s), ValueV::Integer(e)) => r == Ok::<bool, CPSError>(s <= v && v <= e),
                (ValueV::Str(v), ValueV::Str(s), ValueV::Str(e)) => r == Ok::<bool, CPSError>(
                    crate::text::text_le(s, v) && crate::text::text_le(v, e),
                ),
                (ValueV::Char(v), ValueV::Char(s), ValueV::Char(e)) => r == Ok::<bool, CPSError>(
                    (s as u32) <= (v as u32) && (v as u32) <= (e as u32),
                ),
                _ => r matches Err(e) && is_runtime(e) && (e.hint matches Some(h) && h@
                    == "Range values must be compatible types"@),
            },
            ({
                let vc = promoted(&self.host, value@, start@);
                let sc = promoted(&self.host, start@, value@);
                let vf = promoted(&self.host, vc, end@);
                let ec = promoted(&self.host, end@, vc);
                (vf is Real && sc is Real && ec is Real) ==> r == Ok::<bool, CPSError>(
                    self.host.at_most_of(sc->Real_0, vf->Real_0) && self.host.at_most_of(vf->Real_0, ec->Real_0),
                )
            }),
    {
        let (value_conv, start_conv) = convert_values_to_compatible_types(value, start, &self.host);
        proof {
            assert(value_conv@ == promoted(&self.host, value@, start@));
            assert(start_conv@ == promoted(&self.host, start@, value@));
        }
        let (value_final, end_conv) = convert_values_to_compatible_types(&value_conv, end, &self.host);
        proof {
            assert(value_final@ == promoted(&self.host, value_conv@, end@));
            assert(end_conv@ == promoted(&self.host, end@, value_conv@));
        }
        match (&value_final, &start_conv, &end_conv) {
            (Value::Integer(v), Value::Integer(s), Value::Integer(e)) => Ok(*v >= *s && *v <= *e),
            (Value::Real(v), Value::Real(s), Value::Real(e)) => Ok(
                self.host.real_le(*s, *v) && self.host.real_le(*v, *e),
            ),
            (Value::String(v), Value::String(s), Value::String(e)) => Ok(
                string_le(s.as_str(), v.as_str()) && string_le(v.as_str(), e.as_str()),
            ),
            (Value::Char(v), Value::Char(s), Value::Char(e)) => Ok(
                (*v as u32) >= (*s as u32) && (*v as u32) <= (*e as u32),
            ),
            _ => {
                let mut m = String::from_str("Invalid range comparison: ");
                m.append(self.debug_of(start).as_str());
                m.append(" TO ");
                m.append(self.debug_of(end).as_str());
                m.append(" for value ");
                m.append(self.debug_of(value).as_str());
                Err(CPSError::runtime_with_hint(m, String::from_str("Range values must be compatible types")))
            },
        }
    }

    /// Whether the value selects a CASE arm.
    fn matches_case_condition(&mut self, value: &Value, condition: &CaseCondition, fuel: u64) -> (r: Result<
        bool,
        CPSError,
    >)
        requires
            old(self).wf(),
        ensures
            final(self).wf(),
            unwinds_normally(r) ==> final(self).env().scopes.len() == old(self).env().scopes.len(),
            arm_runs(*condition, value@, old(self).state(), final(self).state(), r, fuel as nat),
        decreases fuel, 4u64,
    {
        match condition {
            CaseCondition::Single(case_expr) => {
                let cres = self.evaluate_expr(case_expr, fuel);
                let ghost m = self.state();
                proof {
                    // The terms by which the outcome of the value is found.
                    assert(m.ctx == self.context());
                    assert(dropped(cres) is Err == cres is Err);
                }
                let case_value = match cres {
                    Ok(v) => v,
                    Err(e) => {
                        return Err(e);
                    },
                };
                Ok(self.values_equal(value, &case_value))
            },
            CaseCondition::Range(start_expr, end_expr) => {
                let sres = self.evaluate_expr(start_expr, fuel);
                let ghost m = self.state();
                proof {
                    // The terms by which the outcome of the start is found.
                    assert(m.ctx == self.context());
                    assert(dropped(sres) is Err == sres is Err);
                }
                let start = match sres {
                    Ok(v) => v,
                    Err(e) => {
                        return Err(e);
                    },
                };
                let eres = self.evaluate_expr(end_expr, fuel);
                let ghost m2 = self.state();
                proof {
                    // The terms by which the outcome of the end is found.
                    assert(m2.ctx == self.context());
                    assert(dropped(eres) is Err == eres is Err);
                }
                let end = match eres {
                    Ok(v) => v,
                    Err(e) => {
                        return Err(e);
                    },
                };
                self.value_in_range(value, &start, &end)
            },
        }
    }

    /// CASE: evaluates the subject, then runs the CASE on its value.
    fn evaluate_case_stmt(
        &mut self,
        identifier: &Box<Expr>,
        cases: &Vec<(CaseCondition, BlockStmt)>,
        otherwise: &Option<BlockStmt>,
        fuel: u64,
    ) -> (r: Result<(), CPSError>)
        requires
            old(self).wf(),
        ensures
            final(self).wf(),
            unwinds_normally(r) ==> final(self).env().scopes.len() == old(self).env().scopes.len(),
            case_runs(**identifier, cases@, *otherwise, old(self).state(), final(self).state(), r, fuel as nat),
        decreases fuel, 6u64,
    {
        let sres = self.evaluate_expr(identifier, fuel);
        let ghost m = self.state();
        proof {
            // The terms by which the outcome of the subject is found.
            assert(m.ctx == self.context());
            assert(dropped(sres) is Err == sres is Err);
        }
        let subject = match sres {
            Ok(v) => v,
            Err(e) => {
                return Err(e);
            },
        };
        self.run_case(subject, cases, otherwise, fuel)
    }

    /// A CASE on the value `subject`: runs the block of the first arm that
    /// the value selects, or the OTHERWISE block, if any, when none does.
    fn run_case(
        &mut self,
        subject: Value,
        cases: &Vec<(CaseCondition, BlockStmt)>,
        otherwise: &Option<BlockStmt>,
        fuel: u64,
    ) -> (r: Result<(), CPSError>)
        requires
            old(self).wf(),
        ensures
            final(self).wf(),
            unwinds_normally(r) ==> final(self).env().scopes.len() == old(self).env().scopes.len(),
            case_on(subject@, cases@, *otherwise, old(self).state(), final(self).state(), r, fuel as nat),
        decreases fuel, 5u64,
    {
        let ghost a = self.state();
        let ghost f = fuel as nat;
        let ghost arms = cases@;
        let ghost v = subject@;
        let comparitor_value = match subject {
            Value::Identifier(iden) => match self.current_env.get(iden.as_str()) {
                Some(v) => v,
                None => {
                    return Err(CPSError::runtime(concat2("Undefined identifier in CASE statement: ", iden.as_str())));
                },
            },
            other => other,
        };
        let ghost w = comparitor_value@;
        let ghost mut states: Seq<RunState> = seq![self.state()];
        let mut i: usize = 0;
        while i < cases.len()
            invariant
                self.wf(),
                i <= cases@.len(),
                self.env().scopes.len() == old(self).env().scopes.len(),
                arms == cases@,
                a == old(self).state(),
                f == fuel as nat,
                v == subject@,
                w == comparitor_value@,
                case_subject(v, a.env) == Some(w),
                arms_trace(arms, w, states, i as int, f),
                states[0] == a,
                states[i as int] == self.state(),
            decreases cases@.len() - i,
        {
            let (condition, block) = &cases[i];
            let t = self.matches_case_condition(&comparitor_value, condition, fuel);
            let ghost mt = self.state();
            proof {
                // The terms by which the outcome of the test is found.
                assert(mt.ctx == self.context());
                assert(dropped(t) is Err == t is Err);
            }
            match t {
                Err(e) => {
                    proof {
                        lemma_case_witness(v, arms, *otherwise, a, mt, Err(e), f, w, states, i as int, mt, t);
                    }
                    return Err(e);
                },
                Ok(true) => {
                    let rb = self.evaluate_block(block, fuel);
                    proof {
                        lemma_case_witness(v, arms, *otherwise, a, self.state(), rb, f, w, states, i as int, mt, t);
                    }
                    return rb;
                },
                Ok(false) => {
                    proof {
                        lemma_arms_trace_grows(arms, w, states, i as int, f, mt);
                        states = states.push(mt);
                    }
                },
            }
            i = i + 1;
        }
        let r = match otherwise {
            Some(otherwise_block) => self.evaluate_block(otherwise_block, fuel),
            None => Ok(()),
        };
        proof {
            lemma_case_witness(v, arms, *otherwise, a, self.state(), r, f, w, states, i as int, a, Ok(false));
        }
        r
    }

    /// WHILE: runs the body as long as the condition is TRUE.
    fn evaluate_while_stmt(&mut self, condition: &Expr, body: &BlockStmt, fuel: u64) -> (r: Result<(), CPSError>)
        requires
            old(self).wf(),
        ensures
            final(self).wf(),
            unwinds_normally(r) ==> final(self).env().scopes.len() == old(self).env().scopes.len(),
            condition matches Expr::Literal(Value::Boolean(false)) ==> r is Ok && final(self).env() == old(self).env()
                && final(self).context() == old(self).context(),
            while_runs(*condition, body.statements@, old(self).state(), final(self).state(), r, fuel as nat),
        decreases fuel, 6u64,
    {
        let ghost cond = *condition;
        let ghost stmts = body.statements@;
        let ghost f = fuel as nat;
        let ghost start = self.state();
        let mut steps: u64 = fuel;
        let ghost mut states: Seq<RunState> = seq![self.state()];
        let ghost mut checks: Seq<Check> = Seq::empty();
        let ghost mut k: int = 0;
        loop
            invariant
                self.wf(),
                self.env().scopes.len() == old(self).env().scopes.len(),
                cond == *condition,
                stmts == body.statements@,
                f == fuel as nat,
                start == old(self).state(),
                0 <= k <= f,
                steps == f - k,
                while_trace(cond, stmts, states, checks, k, f),
                checks.len() == k,
                states[0] == start,
                states[k] == self.state(),
                condition matches Expr::Literal(Value::Boolean(false)) ==> self.env() == old(self).env()
                    && self.context() == old(self).context(),
            decreases steps,
        {
            let ghost here = self.state();
            let cres = self.evaluate_expr(condition, fuel);
            let ghost check = Check { after: self.state(), outcome: cres };
            proof {
                lemma_while_trace_checked(cond, stmts, states, checks, k, f, check);
            }
            let cond_value = match cres {
                Ok(v) => v,
                Err(e) => {
                    proof {
                        lemma_while_witness(cond, stmts, states, checks.push(check), k, f, start, self.state(), Err(e));
                    }
                    return Err(e);
                },
            };
            match cond_value {
                Value::Boolean(true) => {
                    if steps == 0 {
                        let out = Err(step_limit_error());
                        proof {
                            lemma_while_witness(cond, stmts, states, checks.push(check), k, f, start, self.state(), out);
                        }
                        return out;
                    }
                    steps = steps - 1;
                    let rb = self.evaluate_block(body, fuel);
                    match rb {
                        Ok(()) => {},
                        Err(e) => {
                            proof {
                                lemma_while_witness(
                                    cond,
                                    stmts,
                                    states,
                                    checks.push(check),
                                    k,
                                    f,
                                    start,
                                    self.state(),
                                    rb,
                                );
                            }
                            return Err(e);
                        },
                    }
                    proof {
                        if let Ok(u) = rb {
                            assert(u == ());
                        }
                        lemma_while_trace_grows(cond, stmts, states, checks.push(check), k, f, self.state());
                        states = states.push(self.state());
                        checks = checks.push(check);
                        k = k + 1;
                    }
                },
                Value::Boolean(false) => {
                    proof {
                        lemma_while_witness(cond, stmts, states, checks.push(check), k, f, start, self.state(), Ok(()));
                    }
                    return Ok(());
                },
                _ => {
                    let m = concat2(
                        "Condition in WHILE statement did not evaluate to a boolean: ",
                        self.debug_of(&cond_value).as_str(),
                    );
                    let out = Err(CPSError::runtime(m));
                    proof {
                        lemma_while_witness(cond, stmts, states, checks.push(check), k, f, start, self.state(), out);
                    }
                    return out;
                },
            }
        }
    }

    /// REPEAT: runs the body until the condition is TRUE.
    fn evaluate_repeat_stmt(&mut self, condition: &Expr, body: &BlockStmt, fuel: u64) -> (r: Result<(), CPSError>)
        requires
            old(self).wf(),
        ensures
            final(self).wf(),
            unwinds_normally(r) ==> final(self).env().scopes.len() == old(self).env().scopes.len(),
            repeat_runs(*condition, body.statements@, old(self).state(), final(self).state(), r, fuel as nat),
        decreases fuel, 6u64,
    {
        let ghost cond = *condition;
        let ghost stmts = body.statements@;
        let ghost f = fuel as nat;
        let ghost start = self.state();
        let mut steps: u64 = fuel;
        let ghost mut states: Seq<RunState> = seq![self.state()];
        let ghost mut mids: Seq<RunState> = Seq::empty();
        let ghost mut checks: Seq<Check> = Seq::empty();
        let ghost mut k: int = 0;
        loop
            invariant
                self.wf(),
                self.env().scopes.len() == old(self).env().scopes.len(),
                cond == *condition,
                stmts == body.statements@,
                f == fuel as nat,
                start == old(self).state(),
                0 <= k <= f,
                steps == f - k,
                repeat_trace(cond, stmts, states, mids, checks, k, f),
                mids.len() == k,
                checks.len() == k,
                states[0] == start,
                states[k] == self.state(),
            decreases steps,
        {
            let ghost here = self.state();
            if steps == 0 {
                let out = Err(step_limit_error());
                proof {
                    let c = Check { after: here, outcome: Ok(Value::Boolean(true)) };
                    lemma_repeat_witness(cond, stmts, states, mids, checks, k, f, start, here, c, self.state(), out);
                }
                return out;
            }
            steps = steps - 1;
            let rb = self.evaluate_block(body, fuel);
            match rb {
                Ok(()) => {},
                Err(e) => {
                    proof {
                        let c = Check { after: here, outcome: Err(e) };
                        lemma_repeat_witness(cond, stmts, states, mids, checks, k, f, start, here, c, self.state(), rb);
                    }
                    return Err(e);
                },
            }
            proof {
                if let Ok(u) = rb {
                    assert(u == ());
                }
            }
            let ghost mid = self.state();
            let cres = self.evaluate_expr(condition, fuel);
            let ghost check = Check { after: self.state(), outcome: cres };
            let out: Option<Result<(), CPSError>> = match cres {
                Ok(Value::Boolean(true)) => Some(Ok(())),
                Ok(Value::Boolean(false)) => None,
                Ok(v) => {
                    let m = concat2(
                        "Condition in REPEAT statement did not evaluate to a boolean: ",
                        self.debug_of(&v).as_str(),
                    );
                    Some(Err(CPSError::runtime(m)))
                },
                Err(e) => Some(Err(e)),
            };
            match out {
                Some(res) => {
                    proof {
                        lemma_repeat_witness(cond, stmts, states, mids, checks, k, f, start, mid, check, self.state(), res);
                    }
                    return res;
                },
                None => {
                    proof {
                        lemma_repeat_trace_grows(cond, stmts, states, mids, checks, k, f, mid, check);
                        states = states.push(check.after);
                        mids = mids.push(mid);
                        checks = checks.push(check);
                        k = k + 1;
                    }
                },
            }
        }
    }

    /// A bound of a FOR loop: an integer, or a whole real.
    fn loop_bound(&self, v: &Value, start: bool) -> (r: Result<i64, CPSError>)
        ensures
            v@ matches ValueV::Integer(n) ==> r == Ok::<i64, CPSError>(n),
            v@ matches ValueV::Real(x) ==> if self.host.has_fraction_of(x) {
                r matches Err(e) && is_runtime(e) && e.hint is None
            } else {
                r == Ok::<i64, CPSError>(self.host.integer_of(x))
            },
            !(v@ is Integer || v@ is Real) ==> (r matches Err(e) && is_runtime(e) && e.hint is None),
    {
        match v {
            Value::Integer(n) => Ok(*n),
            Value::Real(x) => {
                if self.host.real_has_fraction(*x) {
                    let m = concat2(
                        "FOR loop start value must be an integer, got real number: ",
                        self.host.real_to_text(*x).as_str(),
                    );
                    return Err(CPSError::runtime(m));
                }
                Ok(self.host.real_to_integer(*x))
            },
            _ => {
                let what = if start {
                    "FOR loop start value must be an integer, got: "
                } else {
                    "FOR loop end value must be an integer, got: "
                };
                Err(CPSError::runtime(concat2(what, self.debug_of(v).as_str())))
            },
        }
    }

    /// FOR: evaluates the start and the end value, then runs the loop.
    fn evaluate_for(&mut self, identifier: &String, start: &Expr, end: &Expr, body: &BlockStmt, fuel: u64) -> (r:
        Result<(), CPSError>)
        requires
            old(self).wf(),
        ensures
            final(self).wf(),
            unwinds_normally(r) ==> final(self).env().scopes.len() == old(self).env().scopes.len(),
            *start matches Expr::Literal(Value::Integer(s)) ==> (*end matches Expr::Literal(Value::Integer(e)) ==> (e < s
                ==> (!old(self).env().top().constants.contains(identifier@) ==> r is Ok && final(self).env() == old(
                self,
            ).env().defined(identifier@, ValueV::Integer(s)) && final(self).context() == old(self).context()))),
            for_runs(identifier@, *start, *end, body.statements@, old(self).state(), final(self).state(), r, fuel as nat),
        decreases fuel, 6u64,
    {
        let ghost a = self.state();
        let ghost name = identifier@;
        let ghost stmts = body.statements@;
        let ghost f = fuel as nat;
        let sres = self.evaluate_expr(start, fuel);
        let ghost m1 = self.state();
        let start_value = match sres {
            Ok(v) => v,
            Err(e) => {
                proof {
                    lemma_for_runs(name, *start, *end, stmts, a, m1, sres, m1, sres, m1, Err(e), f);
                }
                return Err(e);
            },
        };
        let eres = self.evaluate_expr(end, fuel);
        let ghost m2 = self.state();
        let end_value = match eres {
            Ok(v) => v,
            Err(e) => {
                proof {
                    lemma_for_runs(name, *start, *end, stmts, a, m1, sres, m2, eres, m2, Err(e), f);
                }
                return Err(e);
            },
        };
        let r = self.run_for(identifier, &start_value, &end_value, body, fuel);
        proof {
            lemma_for_runs(name, *start, *end, stmts, a, m1, sres, m2, eres, self.state(), r, f);
        }
        r
    }

    /// A FOR loop with the bounds `start_value` and `end_value`: defines the
    /// loop variable in the current scope, then runs the body once for each
    /// integer from the start to the end value, inclusive, with the variable
    /// set to it.
    fn run_for(&mut self, identifier: &String, start_value: &Value, end_value: &Value, body: &BlockStmt, fuel: u64) -> (r:
        Result<(), CPSError>)
        requires
            old(self).wf(),
        ensures
            final(self).wf(),
            unwinds_normally(r) ==> final(self).env().scopes.len() == old(self).env().scopes.len(),
            for_from(identifier@, start_value@, end_value@, body.statements@, old(self).state(), final(self).state(), r, fuel as nat),
        decreases fuel, 5u64,
    {
        let ghost a = self.state();
        let ghost name = identifier@;
        let ghost stmts = body.statements@;
        let ghost f = fuel as nat;
        let ghost sv = start_value@;
        let ghost ev = end_value@;
        let start_int = match self.loop_bound(start_value, true) {
            Ok(n) => n,
            Err(e) => {
                return Err(e);
            },
        };
        let end_int = match self.loop_bound(end_value, false) {
            Ok(n) => n,
            Err(e) => {
                return Err(e);
            },
        };
        proof {
            self.current_env.lemma_has_top_scope();
        }
        match self.current_env.define(identifier.clone(), Value::Integer(start_int)) {
            Ok(()) => {},
            Err(e) => {
                proof {
                    lemma_for_from(name, sv, ev, start_int, end_int, stmts, a, self.state(), Err(e), f);
                }
                return Err(e);
            },
        }
        if end_int < start_int {
            proof {
                lemma_for_from(name, sv, ev, start_int, end_int, stmts, a, self.state(), Ok(()), f);
            }
            return Ok(());
        }
        let ghost first = self.state();
        let mut i: i64 = start_int;
        let mut steps: u64 = fuel;
        let ghost mut states: Seq<RunState> = seq![self.state()];
        let ghost mut k: int = 0;
        loop
            invariant
                self.wf(),
                self.env().scopes.len() == old(self).env().scopes.len(),
                start_int <= i <= end_int,
                name == identifier@,
                stmts == body.statements@,
                f == fuel as nat,
                0 <= k <= f,
                i == start_int + k,
                steps == f - k,
                states[k] == self.state(),
                states[0] == first,
                for_trace(name, start_int as int, end_int as int, stmts, states, k, f),
                a == old(self).state(),
                sv == start_value@,
                ev == end_value@,
                sv is Integer || sv is Real,
                ev is Integer || ev is Real,
                sv is Integer ==> sv == ValueV::Integer(start_int),
                ev is Integer ==> ev == ValueV::Integer(end_int),
                !a.env.top().constants.contains(name),
                first == (RunState { env: a.env.defined(name, ValueV::Integer(start_int)), ..a }),
            decreases steps,
        {
            if steps == 0 {
                let out = Err(step_limit_error());
                proof {
                    lemma_for_done(name, stmts, a, start_int, end_int, states, k, f, self.state(), out);
                    lemma_for_from(name, sv, ev, start_int, end_int, stmts, a, self.state(), out, f);
                }
                return out;
            }
            steps = steps - 1;
            let ghost here = self.state();
            match self.current_env.set(identifier.as_str(), Value::Integer(i)) {
                Ok(()) => {},
                Err(e) => {
                    let m = concat4(
                        "Failed to assign value to loop variable '",
                        identifier.as_str(),
                        "': ",
                        e.message.as_str(),
                    );
                    let out = Err(CPSError::runtime(m));
                    proof {
                        lemma_for_done(name, stmts, a, start_int, end_int, states, k, f, self.state(), out);
                        lemma_for_from(name, sv, ev, start_int, end_int, stmts, a, self.state(), out, f);
                    }
                    return out;
                },
            }
            let ghost counted = self.state();
            proof {
                assert(with_counter(here, name, start_int + k) == Some(counted));
            }
            let r = self.evaluate_block(body, fuel);
            match r {
                Ok(()) => {},
                Err(e) => {
                    proof {
                        lemma_for_done(name, stmts, a, start_int, end_int, states, k, f, self.state(), r);
                        lemma_for_from(name, sv, ev, start_int, end_int, stmts, a, self.state(), r, f);
                    }
                    return Err(e);
                },
            }
            proof {
                if let Ok(u) = r {
                    assert(u == ());
                }
            }
            if i == end_int {
                proof {
                    lemma_for_done(name, stmts, a, start_int, end_int, states, k, f, self.state(), r);
                    lemma_for_from(name, sv, ev, start_int, end_int, stmts, a, self.state(), r, f);
                }
                return Ok(());
            }
            proof {
                lemma_for_trace_grows(name, start_int as int, end_int as int, stmts, states, k, f, self.state());
                states = states.push(self.state());
                k = k + 1;
            }
            i = i + 1;
        }
    }

    /// A file name: the value must be a string.
    fn filename_of(&self, v: Value, what: &str) -> (r: Result<String, CPSError>)
        ensures
            v@ matches ValueV::Str(s) ==> (r matches Ok(n) && n@ == s),
            !(v@ is Str) ==> (r matches Err(e) && is_runtime(e) && e.hint is None),
    {
        match v {
            Value::String(s) => Ok(s),
            other => Err(CPSError::runtime(concat2(what, self.debug_of(&other).as_str()))),
        }
    }

    /// OPENFILE on the files in memory.
    fn evaluate_open_file(&mut self, filename: &Box<Expr>, mode: FileMode, fuel: u64) -> (r: Result<(), CPSError>)
        requires
            old(self).wf(),
        ensures
            final(self).wf(),
            unwinds_normally(r) ==> final(self).env().scopes.len() == old(self).env().scopes.len(),
            open_file_effect(**filename, mode, old(self).state(), final(self).state(), r),
            evaluated_effect(
                Stmt::OpenFile { filename: *filename, mode },
                old(self).state(),
                final(self).state(),
                r,
                fuel as nat,
            ),
        decreases fuel, 6u64,
    {
        let fres = self.evaluate_expr(filename, fuel);
        let ghost mid = self.state();
        proof {
            // The terms by which the outcome of the file name is found.
            assert(mid.ctx == self.context());
            assert(dropped(fres) is Err == fres is Err);
        }
        let v = match fres {
            Ok(v) => v,
            Err(e) => {
                return Err(e);
            },
        };
        let name = match self.filename_of(v, "Filename in OPENFILE statement must evaluate to a string, got: ") {
            Ok(n) => n,
            Err(e) => {
                return Err(e);
            },
        };
        self.replay_ctx.open_file(name, mode)
    }

    /// CLOSEFILE on the files in memory.
    fn evaluate_close_file(&mut self, filename: &Box<Expr>, fuel: u64) -> (r: Result<(), CPSError>)
        requires
            old(self).wf(),
        ensures
            final(self).wf(),
            unwinds_normally(r) ==> final(self).env().scopes.len() == old(self).env().scopes.len(),
            close_file_effect(**filename, old(self).state(), final(self).state(), r),
            evaluated_effect(Stmt::CloseFile { filename: *filename }, old(self).state(), final(self).state(), r, fuel as nat),
        decreases fuel, 6u64,
    {
        let fres = self.evaluate_expr(filename, fuel);
        let ghost mid = self.state();
        proof {
            // The terms by which the outcome of the file name is found.
            assert(mid.ctx == self.context());
            assert(dropped(fres) is Err == fres is Err);
        }
        let v = match fres {
            Ok(v) => v,
            Err(e) => {
                return Err(e);
            },
        };
        let name = match self.filename_of(v, "Filename in CLOSEFILE statement must evaluate to a string, got: ") {
            Ok(n) => n,
            Err(e) => {
                return Err(e);
            },
        };
        self.replay_ctx.close_file(&name)
    }

    /// WRITEFILE on the files in memory: the value's text is one line.
    fn evaluate_write_file(&mut self, filename: &Box<Expr>, value: &Box<Expr>, fuel: u64) -> (r: Result<(), CPSError>)
        requires
            old(self).wf(),
        ensures
            final(self).wf(),
            unwinds_normally(r) ==> final(self).env().scopes.len() == old(self).env().scopes.len(),
            write_file_effect(**filename, **value, old(self).state(), final(self).state(), r),
            evaluated_effect(
                Stmt::WriteFile { filename: *filename, value: *value },
                old(self).state(),
                final(self).state(),
                r,
                fuel as nat,
            ),
        decreases fuel, 6u64,
    {
        let fres = self.evaluate_expr(filename, fuel);
        let ghost mid = self.state();
        proof {
            // The terms by which the outcome of the file name is found.
            assert(mid.ctx == self.context());
            assert(dropped(fres) is Err == fres is Err);
        }
        let v = match fres {
            Ok(v) => v,
            Err(e) => {
                return Err(e);
            },
        };
        let name = match self.filename_of(v, "Filename in WRITEFILE statement must evaluate to a string, got: ") {
            Ok(n) => n,
            Err(e) => {
                return Err(e);
            },
        };
        let wres = self.evaluate_expr(value, fuel);
        let ghost mid2 = self.state();
        proof {
            // The terms by which the outcome of the value is found.
            assert(mid2.ctx == self.context());
            assert(dropped(wres) is Err == wres is Err);
        }
        let value_to_write = match wres {
            Ok(v) => v,
            Err(e) => {
                return Err(e);
            },
        };
        let line = match output_text_of(&value_to_write, &self.host) {
            Some(t) => t,
            None => {
                let m = concat2("Unsupported value type for writing to file: ", self.debug_of(&value_to_write).as_str());
                return Err(CPSError::runtime(m));
            },
        };
        self.replay_ctx.write_line(&name, line)
    }

    /// READFILE on the files in memory: the next line is stored, as a string,
    /// in a variable or an element of an array.
    fn evaluate_read_file(&mut self, filename: &Box<Expr>, target: &Box<Expr>, fuel: u64) -> (r: Result<(), CPSError>)
        requires
            old(self).wf(),
        ensures
            final(self).wf(),
            unwinds_normally(r) ==> final(self).env().scopes.len() == old(self).env().scopes.len(),
            read_file_effect(**filename, **target, old(self).state(), final(self).state(), r),
            evaluated_effect(
                Stmt::ReadFile { filename: *filename, target: *target },
                old(self).state(),
                final(self).state(),
                r,
                fuel as nat,
            ),
        decreases fuel, 6u64,
    {
        let ghost start = self.state();
        let ghost f = fuel as nat;
        let fres = self.evaluate_expr(filename, fuel);
        let ghost mid = self.state();
        proof {
            // The terms by which the outcome of the file name is found.
            assert(mid.ctx == self.context());
            assert(dropped(fres) is Err == fres is Err);
        }
        let v = match fres {
            Ok(v) => v,
            Err(e) => {
                return Err(e);
            },
        };
        let name = match self.filename_of(v, "Filename in READFILE must be a string, got: ") {
            Ok(n) => n,
            Err(e) => {
                return Err(e);
            },
        };
        let ghost before = self.state();
        let read = self.replay_ctx.read_line(&name);
        let ghost read_copy = read;
        let ghost after_read = self.state();
        proof {
            // Where the file name is one that `expr_value` gives, nothing
            // changed before the read.
            if filename_value(**filename, start, f) is Some {
                assert(before == start);
                assert(read_outcome(start.ctx, after_read.ctx, name@, read_copy));
                assert(after_read == RunState { ctx: after_read.ctx, ..start });
                let n = filename_value(**filename, start, f)->0->Ok_0;
                assert(filename_value(**filename, start, f) == Some(Ok::<Seq<char>, ()>(n)));
                assert(n == name@);
            }
        }
        let line = match read {
            Ok(l) => l,
            Err(e) => {
                proof {
                    assert(read_outcome(before.ctx, after_read.ctx, name@, read_copy));
                }
                return Err(e);
            },
        };
        match &**target {
            Expr::Literal(Value::Identifier(iden)) => {
                let r = self.store(iden.as_str(), Value::String(line), None, "READFILE result");
                proof {
                    assert(read_outcome(before.ctx, self.state().ctx, name@, read_copy));
                }
                r
            },
            Expr::ArrayAccess { name: arr, index, col } => {
                let r = self.line_into_element(target, arr, index, col, line, fuel);
                proof {
                    assert(read_outcome(before.ctx, after_read.ctx, name@, read_copy));
                }
                r
            },
            _ => Err(CPSError::runtime(String::from_str("READFILE target must be a variable or array element"))),
        }
    }

    /// READFILE into an element of an array: the index and the column are
    /// evaluated, and the line is stored there.
    fn line_into_element(
        &mut self,
        target: &Box<Expr>,
        arr: &String,
        index: &Box<Expr>,
        col: &Option<Box<Expr>>,
        line: String,
        fuel: u64,
    ) -> (r: Result<(), CPSError>)
        requires
            old(self).wf(),
            **target == (Expr::ArrayAccess { name: *arr, index: *index, col: *col }),
        ensures
            final(self).wf(),
            unwinds_normally(r) ==> final(self).env().scopes.len() == old(self).env().scopes.len(),
            line_stored(**target, line@, old(self).state(), final(self).state(), r, fuel as nat),
        decreases fuel, 5u64,
    {
        let ghost a = self.state();
        let ghost f = fuel as nat;
        let ghost text = line@;
        let ires = self.evaluate_expr(index, fuel);
        let ghost m1 = self.state();
        let index_value = match ires {
            Ok(v) => v,
            Err(e) => {
                proof {
                    lemma_line_stored(**target, *arr, *index, *col, text, a, m1, ires, m1, ires, m1, Err(e), f);
                }
                return Err(e);
            },
        };
        let index_int = match value_to_index(&index_value, arr.as_str(), &self.host) {
            Ok(n) => n,
            Err(e) => {
                proof {
                    lemma_line_stored(**target, *arr, *index, *col, text, a, m1, ires, m1, ires, m1, Err(e), f);
                }
                return Err(e);
            },
        };
        let ghost mut cres: Result<Value, CPSError> = ires;
        let col_int: Option<usize> = match col {
            Some(col_expr) => {
                let c = self.evaluate_expr(col_expr, fuel);
                proof {
                    cres = c;
                }
                let col_value = match c {
                    Ok(v) => v,
                    Err(e) => {
                        proof {
                            lemma_line_stored(**target, *arr, *index, *col, text, a, m1, ires, self.state(), cres, self.state(), Err(e), f);
                        }
                        return Err(e);
                    },
                };
                match value_to_index(&col_value, arr.as_str(), &self.host) {
                    Ok(n) => Some(n as usize),
                    Err(e) => {
                        proof {
                            lemma_line_stored(**target, *arr, *index, *col, text, a, m1, ires, self.state(), cres, self.state(), Err(e), f);
                        }
                        return Err(e);
                    },
                }
            },
            None => None,
        };
        let ghost m2 = self.state();
        let r = match self.current_env.set_array_element(arr.as_str(), index_int as usize, col_int, Value::String(line)) {
            Ok(()) => Ok(()),
            Err(e) => Err(
                CPSError::runtime(concat2("Failed to assign READFILE result to array element: ", e.message.as_str())),
            ),
        };
        proof {
            lemma_line_stored(**target, *arr, *index, *col, text, a, m1, ires, m2, cres, self.state(), r, f);
        }
        r
    }
}

/// `v` as it is compared with `other`: an integer beside a real becomes the
/// real that the host converts it to; otherwise it is kept.
pub open spec fn promoted<H: Host>(host: &H, v: ValueV, other: ValueV) -> ValueV {
    match v {
        ValueV::Integer(i) => if other is Real {
            ValueV::Real(host.real_of(i))
        } else {
            v
        },
        _ => v,
    }
}

/// What a binary operator gives for two operands where it does not rest on
/// the host: a value, or an error (`Err(())`); `None` where an operand is a
/// real, or the result is one.
pub open spec fn binary_result(op: TokenType, l: ValueV, r: ValueV) -> Option<Result<ValueV, ()>> {
    if l is Real || r is Real {
        None
    } else {
        match op {
            TokenType::Plus => match (l, r) {
                (ValueV::Integer(a), ValueV::Integer(b)) => Some(
                    Ok(ValueV::Integer(vstd::wrapping::i64_specs::wrapping_add(a, b))),
                ),
                _ => Some(Err(())),
            },
            TokenType::Minus => match (l, r) {
                (ValueV::Integer(a), ValueV::Integer(b)) => Some(
                    Ok(ValueV::Integer(vstd::wrapping::i64_specs::wrapping_sub(a, b))),
                ),
                _ => Some(Err(())),
            },
            TokenType::Asterisk => match (l, r) {
                (ValueV::Integer(a), ValueV::Integer(b)) => Some(
                    Ok(ValueV::Integer(vstd::wrapping::i64_specs::wrapping_mul(a, b))),
                ),
                _ => Some(Err(())),
            },
            TokenType::ForwardSlash => if r == ValueV::Integer(0) {
                Some(Err(()))
            } else if l is Integer && r is Integer {
                None
            } else {
                Some(Err(()))
            },
            TokenType::Div => match (l, r) {
                (ValueV::Integer(a), ValueV::Integer(b)) => if b == 0 || (a == i64::MIN && b == -1) {
                    Some(Err(()))
                } else {
                    Some(Ok(ValueV::Integer(a.checked_div(b).unwrap())))
                },
                _ => Some(Err(())),
            },
            TokenType::Mod => match (l, r) {
                (ValueV::Integer(a), ValueV::Integer(b)) => if b == 0 || (a == i64::MIN && b == -1) {
                    Some(Err(()))
                } else {
                    Some(Ok(ValueV::Integer(a.checked_rem(b).unwrap())))
                },
                _ => Some(Err(())),
            },
            TokenType::Caret => match (l, r) {
                (ValueV::Integer(a), ValueV::Integer(b)) => Some(
                    Ok(ValueV::Integer(operators::wrapping_power(a, (b as u32) as nat))),
                ),
                _ => Some(Err(())),
            },
            TokenType::Ampersand => match (output_text(l), output_text(r)) {
                (Some(x), Some(y)) => Some(Ok(ValueV::Str(x + y))),
                _ => Some(Err(())),
            },
            TokenType::Equal => if operators::same_scalar_kind(l, r) {
                Some(Ok(ValueV::Boolean(operators::plain_equal(l, r))))
            } else {
                Some(Err(()))
            },
            TokenType::NotEqual => if operators::same_scalar_kind(l, r) {
                Some(Ok(ValueV::Boolean(!operators::plain_equal(l, r))))
            } else {
                Some(Err(()))
            },
            TokenType::LessThan => match (l, r) {
                (ValueV::Integer(a), ValueV::Integer(b)) => Some(Ok(ValueV::Boolean(a < b))),
                _ => Some(Err(())),
            },
            TokenType::LessEqual => match (l, r) {
                (ValueV::Integer(a), ValueV::Integer(b)) => Some(Ok(ValueV::Boolean(a <= b))),
                _ => Some(Err(())),
            },
            TokenType::GreaterThan => match (l, r) {
                (ValueV::Integer(a), ValueV::Integer(b)) => Some(Ok(ValueV::Boolean(a > b))),
                _ => Some(Err(())),
            },
            TokenType::GreaterEqual => match (l, r) {
                (ValueV::Integer(a), ValueV::Integer(b)) => Some(Ok(ValueV::Boolean(a >= b))),
                _ => Some(Err(())),
            },
            TokenType::And => match (l, r) {
                (ValueV::Boolean(a), ValueV::Boolean(b)) => Some(Ok(ValueV::Boolean(a && b))),
                _ => Some(Err(())),
            },
            TokenType::Or => match (l, r) {
                (ValueV::Boolean(a), ValueV::Boolean(b)) => Some(Ok(ValueV::Boolean(a || b))),
                _ => Some(Err(())),
            },
        }
    }
}

/// `r` is what `res` says: the value, or a runtime error.
pub open spec fn gives(r: Result<Value, CPSError>, res: Result<ValueV, ()>) -> bool {
    match res {
        Ok(v) => r matches Ok(x) && x@ == v,
        Err(_) => r matches Err(e) && is_runtime(e),
    }
}

/// Applies a binary operator to two operands.
fn apply_binary<H: Host>(host: &H, op: TokenType, left: Value, right: Value) -> (r: Result<Value, CPSError>)
    ensures
        binary_result(op, left@, right@) matches Some(res) ==> gives(r, res),
{
    match op {
        TokenType::Plus => operators::add(host, left, right),
        TokenType::Minus => operators::subtract(host, left, right),
        TokenType::Asterisk => operators::multiply(host, left, right),
        TokenType::ForwardSlash => operators::divide(host, left, right),
        TokenType::Div => {
            if int_overflow_pair(&left, &right) {
                return Err(overflow_error("DIV"));
            }
            operators::integer_divide(host, left, right)
        },
        TokenType::Mod => {
            if int_overflow_pair(&left, &right) {
                return Err(overflow_error("MOD"));
            }
            operators::modulo(host, left, right)
        },
        TokenType::Caret => operators::power(host, left, right),
        TokenType::Ampersand => operators::concatenate(host, left, right),
        TokenType::Equal => operators::equal(host, left, right),
        TokenType::NotEqual => operators::not_equal(host, left, right),
        TokenType::LessThan => operators::less_than(host, left, right),
        TokenType::LessEqual => operators::less_equal(host, left, right),
        TokenType::GreaterThan => operators::greater_than(host, left, right),
        TokenType::GreaterEqual => operators::greater_equal(host, left, right),
        TokenType::And => operators::logical_and(host, left, right),
        TokenType::Or => operators::logical_or(host, left, right),
    }
}

/// The one pair of integers whose quotient does not fit: the least integer
/// divided by minus one.
fn int_overflow_pair(left: &Value, right: &Value) -> (r: bool)
    ensures
        r == (left@ == ValueV::Integer(i64::MIN) && right@ == ValueV::Integer(-1i64)),
{
    match (left, right) {
        (Value::Integer(a), Value::Integer(b)) => *a == i64::MIN && *b == -1,
        _ => false,
    }
}

fn overflow_error(op: &str) -> (e: CPSError)
    ensures
        is_runtime_error(e, "Integer overflow in "@ + op@),
        e.hint is None,
{
    CPSError::runtime(concat2("Integer overflow in ", op))
}

} // verus!
