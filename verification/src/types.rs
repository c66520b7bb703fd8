//! The types of values: what type a stored value has, whether a value fits a
//! type, and the conversions between integers and reals.

use crate::display::{scalar_type_text, type_debug_text, value_debug_text};
use crate::errortype::{is_runtime, is_runtime_error, CPSError};
use crate::host::Host;
use crate::text::{bool_text, concat2, equals_ignoring_case, int_text, int_to_string, parse_bool, parse_int, parse_int_text};
use crate::value::{ArrayType, Expr, Type, Value, ValueV};
use vstd::prelude::*;

verus! {

/// The integer literal `n` as a bound expression.
pub open spec fn int_lit(n: i64) -> Box<Expr> {
    Box::new(Expr::Literal(Value::Integer(n)))
}

fn make_int_lit(n: i64) -> (r: Box<Expr>)
    ensures
        r == int_lit(n),
{
    Box::new(Expr::Literal(Value::Integer(n)))
}

/// The number of columns of a two-dimensional array with these column
/// bounds, in `usize` arithmetic that wraps.
pub open spec fn col_count(cl: usize, cu: usize) -> usize {
    vstd::wrapping::usize_specs::wrapping_add(vstd::wrapping::usize_specs::wrapping_sub(cu, cl), 1)
}

/// The row upper bound of an array of `len` elements, in wrapping `usize` arithmetic.
pub open spec fn array_upper(len: usize, lower: usize, b2d: Option<(usize, usize)>) -> usize {
    match b2d {
        Some((cl, cu)) => vstd::wrapping::usize_specs::wrapping_sub(
            vstd::wrapping::usize_specs::wrapping_add(lower, (len / col_count(cl, cu)) as usize),
            1,
        ),
        None => vstd::wrapping::usize_specs::wrapping_sub(
            vstd::wrapping::usize_specs::wrapping_add(len, lower),
            1,
        ),
    }
}

/// The type of a value that is not an array. An identifier counts as a string.
pub open spec fn scalar_type(v: ValueV) -> Type {
    match v {
        ValueV::Integer(_) => Type::Integer,
        ValueV::Real(_) => Type::Real,
        ValueV::Str(_) => Type::String,
        ValueV::Boolean(_) => Type::Boolean,
        ValueV::Char(_) => Type::Char,
        ValueV::Identifier(_) => Type::String,
        ValueV::Function(_) => Type::Function,
        ValueV::Array { .. } => Type::Integer,
    }
}

/// The array type with these bounds and base type; its bound expressions are
/// integer literals.
pub open spec fn array_type_of(len: usize, lower: usize, b2d: Option<(usize, usize)>, base: Type) -> Type {
    Type::Array(
        ArrayType {
            lower_bound: int_lit(lower as i64),
            upper_bound: int_lit(array_upper(len, lower, b2d) as i64),
            bounds_2d: match b2d {
                Some((cl, cu)) => Some((int_lit(cl as i64), int_lit(cu as i64))),
                None => None,
            },
            base_type: Box::new(base),
        },
    )
}

/// Why the type of an array value cannot be given.
pub enum TypeFault {
    /// Its column bounds give no columns.
    NoColumns,
    /// It has no element to take the base type from.
    EmptyArray,
    /// Its first element is an array.
    NestedArray,
    /// Its first element is not an integer, real, string, boolean or character.
    UnsupportedElement,
    /// The value is an identifier.
    Identifier,
    /// The value is a function.
    Function,
}

/// The type of a stored value, as the environment reports it: arrays take
/// their base type from their first element.
pub open spec fn stored_type(v: ValueV) -> Result<Type, TypeFault> {
    match v {
        ValueV::Array { elems, lower_bound, bounds_2d } => {
            if bounds_2d matches Some((cl, cu)) && col_count(cl, cu) == 0 {
                Err(TypeFault::NoColumns)
            } else if elems.len() == 0 {
                Err(TypeFault::EmptyArray)
            } else if elems[0] is Array {
                Err(TypeFault::NestedArray)
            } else {
                Ok(array_type_of(elems.len() as usize, lower_bound, bounds_2d, scalar_type(elems[0])))
            }
        },
        _ => Ok(scalar_type(v)),
    }
}

/// The type of a value about to be assigned: identifiers and functions have
/// none, and an array's first element must be an integer, real, string,
/// boolean or character.
pub open spec fn assigned_type(v: ValueV) -> Result<Type, TypeFault> {
    match v {
        ValueV::Array { elems, lower_bound, bounds_2d } => {
            if elems.len() == 0 {
                Err(TypeFault::EmptyArray)
            } else if elems[0] is Array || elems[0] is Identifier || elems[0] is Function {
                Err(TypeFault::UnsupportedElement)
            } else if bounds_2d matches Some((cl, cu)) && col_count(cl, cu) == 0 {
                Err(TypeFault::NoColumns)
            } else {
                Ok(array_type_of(elems.len() as usize, lower_bound, bounds_2d, scalar_type(elems[0])))
            }
        },
        ValueV::Identifier(_) => Err(TypeFault::Identifier),
        ValueV::Function(_) => Err(TypeFault::Function),
        _ => Ok(scalar_type(v)),
    }
}

fn scalar_type_of(v: &Value) -> (t: Type)
    ensures
        t == scalar_type(v@),
{
    match v {
        Value::Integer(_) => Type::Integer,
        Value::Real(_) => Type::Real,
        Value::String(_) => Type::String,
        Value::Boolean(_) => Type::Boolean,
        Value::Char(_) => Type::Char,
        Value::Identifier(_) => Type::String,
        Value::Function(_) => Type::Function,
        Value::Array { .. } => Type::Integer,
    }
}

fn make_array_type(len: usize, lower: usize, b2d: Option<(usize, usize)>, base: Type) -> (t: Type)
    requires
        b2d matches Some((cl, cu)) ==> col_count(cl, cu) != 0,
    ensures
        t == array_type_of(len, lower, b2d, base),
{
    let upper: usize = match b2d {
        Some((cl, cu)) => {
            let cols = cu.wrapping_sub(cl).wrapping_add(1);
            lower.wrapping_add(len / cols).wrapping_sub(1)
        },
        None => len.wrapping_add(lower).wrapping_sub(1),
    };
    let bounds = match b2d {
        Some((cl, cu)) => Some((make_int_lit(cl as i64), make_int_lit(cu as i64))),
        None => None,
    };
    Type::Array(
        ArrayType {
            lower_bound: make_int_lit(lower as i64),
            upper_bound: make_int_lit(upper as i64),
            bounds_2d: bounds,
            base_type: Box::new(base),
        },
    )
}

/// The type of a stored value (see `stored_type`).
pub fn type_of_stored(v: &Value) -> (r: Result<Type, TypeFault>)
    ensures
        r == stored_type(v@),
{
    match v {
        Value::Array { array, lower_bound, bounds_2d } => {
            if let Some((cl, cu)) = bounds_2d {
                if cu.wrapping_sub(*cl).wrapping_add(1) == 0 {
                    return Err(TypeFault::NoColumns);
                }
            }
            if array.len() == 0 {
                return Err(TypeFault::EmptyArray);
            }
            assert(v@->elems[0] == array@[0]@);
            if let Value::Array { .. } = &array[0] {
                return Err(TypeFault::NestedArray);
            }
            let base = scalar_type_of(&array[0]);
            Ok(make_array_type(array.len(), *lower_bound, *bounds_2d, base))
        },
        _ => Ok(scalar_type_of(v)),
    }
}

/// The type of a value about to be assigned (see `assigned_type`).
pub fn type_of_assigned(v: &Value) -> (r: Result<Type, TypeFault>)
    ensures
        r == assigned_type(v@),
{
    match v {
        Value::Array { array, lower_bound, bounds_2d } => {
            if array.len() == 0 {
                return Err(TypeFault::EmptyArray);
            }
            assert(v@->elems[0] == array@[0]@);
            match &array[0] {
                Value::Array { .. } | Value::Identifier(_) | Value::Function(_) => {
                    return Err(TypeFault::UnsupportedElement);
                },
                _ => {},
            }
            if let Some((cl, cu)) = bounds_2d {
                if cu.wrapping_sub(*cl).wrapping_add(1) == 0 {
                    return Err(TypeFault::NoColumns);
                }
            }
            let base = scalar_type_of(&array[0]);
            Ok(make_array_type(array.len(), *lower_bound, *bounds_2d, base))
        },
        Value::Identifier(_) => Err(TypeFault::Identifier),
        Value::Function(_) => Err(TypeFault::Function),
        _ => Ok(scalar_type_of(v)),
    }
}

/// The value holds no real, at any depth.
pub open spec fn real_free(v: ValueV) -> bool
    decreases v,
{
    match v {
        ValueV::Real(_) => false,
        ValueV::Array { elems, .. } => forall|i: int| 0 <= i < elems.len() ==> real_free(#[trigger] elems[i]),
        _ => true,
    }
}

/// Whether a value that holds no real fits a type: each kind fits its own
/// type, an integer also fits `REAL`, and an array fits an array type when
/// it is empty or every element fits the base type.
pub open spec fn fits(v: ValueV, t: Type) -> bool
    decreases v,
{
    match (v, t) {
        (ValueV::Integer(_), Type::Integer) => true,
        (ValueV::Real(_), Type::Real) => true,
        (ValueV::Str(_), Type::String) => true,
        (ValueV::Boolean(_), Type::Boolean) => true,
        (ValueV::Char(_), Type::Char) => true,
        (ValueV::Integer(_), Type::Real) => true,
        (ValueV::Array { elems, .. }, Type::Array(a)) => forall|i: int|
            0 <= i < elems.len() ==> fits(#[trigger] elems[i], *a.base_type),
        _ => false,
    }
}

/// Whether `value` can be given to something of type `target_type`: see
/// `fits`; a real fits `INTEGER` when it has no fractional part, as the host
/// says.
pub fn check_if_type_can_be_converted<H: Host>(value: &Value, target_type: &Type, host: &H) -> (r: bool)
    ensures
        real_free(value@) ==> r == fits(value@, *target_type),
        value@ is Real && !(target_type is Real) && !(target_type is Integer) ==> !r,
        value@ is Real && target_type is Real ==> r,
        value@ matches ValueV::Real(x) ==> (target_type is Integer ==> r == !host.has_fraction_of(x)),
    decreases value,
{
    match (value, target_type) {
        (Value::Integer(_), Type::Integer) => true,
        (Value::Real(_), Type::Real) => true,
        (Value::String(_), Type::String) => true,
        (Value::Boolean(_), Type::Boolean) => true,
        (Value::Char(_), Type::Char) => true,
        (Value::Integer(_), Type::Real) => true,
        (Value::Array { array, lower_bound, bounds_2d }, Type::Array(arr_type)) => {
            if array.len() == 0 {
                return true;
            }
            let mut i: usize = 0;
            while i < array.len()
                invariant
                    *value == (Value::Array { array: *array, lower_bound: *lower_bound, bounds_2d: *bounds_2d }),
                    *target_type == Type::Array(*arr_type),
                    i <= array@.len(),
                    real_free(value@) ==> forall|j: int| 0 <= j < i ==> fits(#[trigger] value@->elems[j], *arr_type.base_type),
                decreases array@.len() - i,
            {
                proof {
                    vstd::std_specs::vec::axiom_vec_index_decreases(*array, i as int);
                    assert(*array == (*value)->array);
                    assert(decreases_to!(*value => (*value)->array));
                    assert(value@->elems[i as int] == array@[i as int]@);
                }
                if !check_if_type_can_be_converted(&array[i], &arr_type.base_type, host) {
                    proof {
                        if real_free(value@) {
                            assert(real_free(value@->elems[i as int]));
                        }
                    }
                    return false;
                }
                proof {
                    if real_free(value@) {
                        assert(real_free(value@->elems[i as int]));
                    }
                }
                i = i + 1;
            }
            true
        },
        (Value::Real(x), Type::Integer) => !host.real_has_fraction(*x),
        _ => false,
    }
}

/// An integer paired with a real becomes a real (as the host converts it);
/// any other pair is kept.
pub fn convert_values_to_compatible_types<H: Host>(value1: &Value, value2: &Value, host: &H) -> (r: (Value, Value))
    ensures
        !(value1@ is Integer && value2@ is Real) && !(value1@ is Real && value2@ is Integer) ==> r.0@ == value1@ && r.1@
            == value2@,
        value1@ matches ValueV::Integer(i) ==> (value2@ is Real ==> r.0@ == ValueV::Real(host.real_of(i)) && r.1@
            == value2@),
        value2@ matches ValueV::Integer(i) ==> (value1@ is Real ==> r.0@ == value1@ && r.1@ == ValueV::Real(
            host.real_of(i),
        )),
{
    match (value1, value2) {
        (Value::Integer(i), Value::Real(x)) => (Value::Real(host.real_from_integer(*i)), Value::Real(*x)),
        (Value::Real(x), Value::Integer(i)) => (Value::Real(*x), Value::Real(host.real_from_integer(*i))),
        _ => (value1.duplicate(), value2.duplicate()),
    }
}

/// Converts an integer to `REAL`, or a whole real to `INTEGER`; other values are kept.
pub fn convert_values_to_base_type<H: Host>(value: &Value, target_type: &Type, host: &H) -> (r: Result<Value, CPSError>)
    ensures
        value@ matches ValueV::Integer(i) ==> (target_type is Real ==> (r matches Ok(v) && v@ == ValueV::Real(
            host.real_of(i),
        ))),
        value@ matches ValueV::Real(x) ==> (target_type is Integer ==> if host.has_fraction_of(x) {
            r matches Err(e) && is_runtime(e) && e.hint is None
        } else {
            r matches Ok(v) && v@ == ValueV::Integer(host.integer_of(x))
        }),
        !(value@ is Integer && target_type is Real) && !(value@ is Real && target_type is Integer) ==> (r matches Ok(v)
            && v@ == value@),
{
    match (value, target_type) {
        (Value::Integer(i), Type::Real) => Ok(Value::Real(host.real_from_integer(*i))),
        (Value::Real(x), Type::Integer) => {
            if host.real_has_fraction(*x) {
                return Err(
                    CPSError::runtime(
                        concat2("Cannot convert real number with fractional part to integer: ", host.real_to_text(*x).as_str()),
                    ),
                );
            }
            Ok(Value::Integer(host.real_to_integer(*x)))
        },
        _ => Ok(value.duplicate()),
    }
}

/// The index that a value denotes: an integer, or a whole real (as the host
/// converts it).
pub fn value_to_index<H: Host>(value: &Value, name: &str, host: &H) -> (r: Result<i64, CPSError>)
    ensures
        value@ matches ValueV::Integer(n) ==> r == Ok::<i64, CPSError>(n),
        value@ matches ValueV::Real(x) ==> if host.has_fraction_of(x) {
            r matches Err(e) && is_runtime(e) && e.hint is None
        } else {
            r == Ok::<i64, CPSError>(host.integer_of(x))
        },
        !is_number_view(value@) ==> (r matches Err(e) && is_runtime(e) && e.hint is None),
{
    match value {
        Value::Integer(n) => Ok(*n),
        Value::Real(x) => {
            if host.real_has_fraction(*x) {
                return Err(CPSError::runtime(concat2("Array index must be an integer, got: ", host.real_to_text(*x).as_str())));
            }
            Ok(host.real_to_integer(*x))
        },
        _ => {
            let mut m = String::from_str("Array index must be an integer for '");
            m.append(name);
            m.append("', got: ");
            m.append(value_debug_text(value, false, host).as_str());
            Err(CPSError::runtime(m))
        },
    }
}

pub open spec fn is_number_view(v: ValueV) -> bool {
    v is Integer || v is Real
}

/// The value a variable of a scalar type starts with: zero, the empty
/// string, false, or the NUL character; other types have none.
pub open spec fn initial_scalar(t: Type) -> Option<ValueV> {
    match t {
        Type::Integer => Some(ValueV::Integer(0)),
        Type::Real => Some(ValueV::Real(0)),
        Type::String => Some(ValueV::Str(Seq::empty())),
        Type::Boolean => Some(ValueV::Boolean(false)),
        Type::Char => Some(ValueV::Char('\0')),
        _ => None,
    }
}

/// The value a variable of a scalar type starts with (see `initial_scalar`).
pub fn initial_scalar_value(t: &Type) -> (r: Option<Value>)
    ensures
        match (r, initial_scalar(*t)) {
            (Some(v), Some(w)) => v@ == w,
            (None, None) => true,
            _ => false,
        },
{
    match t {
        Type::Integer => Some(Value::Integer(0)),
        Type::Real => Some(Value::Real(0)),
        Type::String => {
            let s = String::new();
            Some(Value::String(s))
        },
        Type::Boolean => Some(Value::Boolean(false)),
        Type::Char => Some(Value::Char('\0')),
        _ => None,
    }
}

/// What INPUT stores for a line of input into something of type `t`: an
/// integer read as `str::parse` reads it, a boolean from "true" or "false"
/// in any case, a single character, or the whole line as a string. Reals
/// are read by the host. `None` where the line does not fit; other types
/// take no input.
pub open spec fn input_value(input: Seq<char>, t: Type) -> Option<ValueV> {
    match t {
        Type::Integer => match parse_int_text(input) {
            Some(n) => Some(ValueV::Integer(n)),
            None => None,
        },
        Type::Boolean => if equals_ignoring_case(input, bool_text(true)) {
            Some(ValueV::Boolean(true))
        } else if equals_ignoring_case(input, bool_text(false)) {
            Some(ValueV::Boolean(false))
        } else {
            None
        },
        Type::Char => if input.len() == 1 {
            Some(ValueV::Char(input[0]))
        } else {
            None
        },
        Type::String => Some(ValueV::Str(input)),
        _ => None,
    }
}

/// Reads a line of input as a value of type `t` for INPUT. `target` names
/// what receives it in messages ("variable 'x'" or "array element 'a[3]'"),
/// and `unsupported` begins the message for a type that takes no input.
pub fn convert_input<H: Host>(input: String, t: &Type, target: &str, unsupported: &str, host: &H) -> (r: Result<
    Value,
    CPSError,
>)
    ensures
        !(t is Real) ==> match (r, input_value(input@, *t)) {
            (Ok(v), Some(w)) => v@ == w,
            (Err(e), None) => is_runtime(e) && e.hint is None,
            _ => false,
        },
        t is Real ==> (r matches Ok(v) && v@ is Real) || (r matches Err(e) && is_runtime(e) && e.hint is None),
{
    match t {
        Type::Integer => match parse_int(input.as_str()) {
            Some(n) => Ok(Value::Integer(n)),
            None => {
                let mut m = String::from_str("Expected an integer for ");
                m.append(target);
                m.append(", got: ");
                m.append(input.as_str());
                Err(CPSError::runtime(m))
            },
        },
        Type::Real => match host.real_parse(input.as_str()) {
            Some(x) => Ok(Value::Real(x)),
            None => {
                let mut m = String::from_str("Expected a real number for ");
                m.append(target);
                m.append(", got: ");
                m.append(input.as_str());
                Err(CPSError::runtime(m))
            },
        },
        Type::Boolean => match parse_bool(input.as_str()) {
            Some(b) => Ok(Value::Boolean(b)),
            None => {
                let mut m = String::from_str("Expected 'true' or 'false' for ");
                m.append(target);
                m.append(", got: ");
                m.append(input.as_str());
                Err(CPSError::runtime(m))
            },
        },
        Type::Char => {
            let n = input.as_str().unicode_len();
            if n != 1 {
                let mut m = String::from_str("Expected a single character for ");
                m.append(target);
                m.append(", got: ");
                m.append(input.as_str());
                return Err(CPSError::runtime(m));
            }
            Ok(Value::Char(input.as_str().get_char(0)))
        },
        Type::String => Ok(Value::String(input)),
        _ => {
            let mut m = String::from_str(unsupported);
            m.append(type_debug_text(t, host).as_str());
            Err(CPSError::runtime(m))
        },
    }
}

/// Whether `t` is a type whose array bounds, if any, are integer literals
/// and whose base type is not an array: the types that values report.
pub open spec fn literal_type(t: Type) -> bool {
    match t {
        Type::Array(a) => {
            &&& *a.lower_bound matches Expr::Literal(Value::Integer(_))
            &&& *a.upper_bound matches Expr::Literal(Value::Integer(_))
            &&& match a.bounds_2d {
                Some((l, u)) => (*l matches Expr::Literal(Value::Integer(_))) && (*u matches Expr::Literal(Value::Integer(_))),
                None => true,
            }
            &&& !(*a.base_type is Array)
        },
        _ => true,
    }
}

fn literal_of(e: &Expr) -> (r: Option<i64>)
    ensures
        match r {
            Some(n) => *e == Expr::Literal(Value::Integer(n)),
            None => !(e matches Expr::Literal(Value::Integer(_))),
        },
{
    match e {
        Expr::Literal(Value::Integer(n)) => Some(*n),
        _ => None,
    }
}

fn same_scalar_type(a: &Type, b: &Type) -> (r: bool)
    requires
        !(a is Array),
    ensures
        r == (*a == *b),
{
    match (a, b) {
        (Type::Integer, Type::Integer) => true,
        (Type::Real, Type::Real) => true,
        (Type::String, Type::String) => true,
        (Type::Boolean, Type::Boolean) => true,
        (Type::Char, Type::Char) => true,
        (Type::Function, Type::Function) => true,
        _ => false,
    }
}

/// Whether two types that values report are the same type.
pub fn same_type(a: &Type, b: &Type) -> (r: bool)
    requires
        literal_type(*a),
        literal_type(*b),
    ensures
        r == (*a == *b),
{
    match (a, b) {
        (Type::Array(x), Type::Array(y)) => {
            let xl = literal_of(&x.lower_bound);
            let yl = literal_of(&y.lower_bound);
            let xu = literal_of(&x.upper_bound);
            let yu = literal_of(&y.upper_bound);
            if xl != yl || xu != yu {
                return false;
            }
            let same_2d = match (&x.bounds_2d, &y.bounds_2d) {
                (Some((a1, b1)), Some((a2, b2))) => literal_of(a1) == literal_of(a2) && literal_of(b1) == literal_of(
                    b2,
                ),
                (None, None) => true,
                _ => false,
            };
            if !same_2d {
                return false;
            }
            if let Type::Array(_) = &*y.base_type {
                return false;
            }
            let r = same_scalar_type(&x.base_type, &y.base_type);
            proof {
                if r {
                    assert(x.lower_bound == y.lower_bound);
                    assert(x.upper_bound == y.upper_bound);
                    assert(x.bounds_2d == y.bounds_2d);
                    assert(*x == *y);
                }
            }
            r
        },
        (Type::Array(_), _) => false,
        _ => same_scalar_type(a, b),
    }
}

/// The types that values report have literal bounds.
pub proof fn lemma_reported_types_are_literal(v: ValueV)
    ensures
        stored_type(v) matches Ok(t) ==> literal_type(t),
        assigned_type(v) matches Ok(t) ==> literal_type(t),
{
}

} // verus!
