//! How values and types are written in messages (`{:?}`) and in output.

use crate::host::Host;
use crate::text::{bool_text, bool_to_string, char_to_string, int_text, int_to_string, nat_text, push_char, usize_to_string};
use crate::value::{ArrayType, Expr, Function, PassingValue, Type, Value, ValueV};
use vstd::prelude::*;

verus! {

/// How a value that is not a real, an array or a function is written in
/// messages: integers in decimal, strings in double quotes, booleans in
/// capitals, characters in single quotes, identifiers bare.
pub open spec fn scalar_debug(v: ValueV) -> Option<Seq<char>> {
    match v {
        ValueV::Integer(n) => Some(int_text(n as int)),
        ValueV::Str(s) => Some(seq!['"'] + s + seq!['"']),
        ValueV::Boolean(b) => Some(if b {
            "TRUE"@
        } else {
            "FALSE"@
        }),
        ValueV::Char(c) => Some(seq!['\'', c, '\'']),
        ValueV::Identifier(s) => Some(s),
        _ => None,
    }
}

/// How a value is written in output and string concatenation, where it is
/// an integer, string, boolean or character.
pub open spec fn output_text(v: ValueV) -> Option<Seq<char>> {
    match v {
        ValueV::Integer(n) => Some(int_text(n as int)),
        ValueV::Str(s) => Some(s),
        ValueV::Boolean(b) => Some(bool_text(b)),
        ValueV::Char(c) => Some(seq![c]),
        _ => None,
    }
}

/// The text of a value in output: integers, strings, booleans and
/// characters as they are written; reals as the host writes them. Other
/// values have none.
pub fn output_text_of<H: Host>(v: &Value, host: &H) -> (r: Option<String>)
    ensures
        v@ is Real ==> r is Some,
        !(v@ is Real) ==> match (r, output_text(v@)) {
            (Some(s), Some(t)) => s@ == t,
            (None, None) => true,
            _ => false,
        },
{
    match v {
        Value::Integer(n) => Some(int_to_string(*n)),
        Value::Real(x) => Some(host.real_to_text(*x)),
        Value::String(s) => Some(s.clone()),
        Value::Boolean(b) => Some(bool_to_string(*b)),
        Value::Char(c) => Some(char_to_string(*c)),
        _ => None,
    }
}

/// How a bound expression of an array type is written: integer literals in
/// decimal, identifiers bare, anything else but a real literal as "?";
/// `None` for a real literal, which the host reads.
pub open spec fn bound_text(e: Expr) -> Option<Seq<char>> {
    match e {
        Expr::Literal(Value::Integer(n)) => Some(int_text(n as int)),
        Expr::Literal(Value::Identifier(s)) => Some(s@),
        Expr::Literal(Value::Real(_)) => None,
        _ => Some("?"@),
    }
}

/// How a type is written in messages: scalar types by name, array types as
/// `Array[lower:upper] OF base` or `Array[lower:upper, cl:cu] OF base`
/// (see `bound_text`); `None` where a bound is a real literal.
pub open spec fn type_text(t: Type) -> Option<Seq<char>>
    decreases t,
{
    match t {
        Type::Array(a) => {
            let cols: Option<Seq<char>> = match a.bounds_2d {
                Some((l, u)) => match (bound_text(*l), bound_text(*u)) {
                    (Some(x), Some(y)) => Some(", "@ + x + ":"@ + y),
                    _ => None,
                },
                None => Some(Seq::empty()),
            };
            match (bound_text(*a.lower_bound), bound_text(*a.upper_bound), cols, type_text(*a.base_type)) {
                (Some(lo), Some(hi), Some(c), Some(base)) => Some("Array["@ + lo + ":"@ + hi + c + "] OF "@ + base),
                _ => None,
            }
        },
        _ => Some(scalar_type_text(t)),
    }
}

/// How a bound expression of an array type is written: integer literals
/// in decimal, whole real literals as integers, identifiers bare, anything
/// else as "?".
pub fn fmt_bound<H: Host>(e: &Expr, host: &H) -> (r: String)
    ensures
        bound_text(*e) matches Some(t) ==> r@ == t,
        e matches Expr::Literal(Value::Integer(n)) ==> r@ == int_text(n as int),
        e matches Expr::Literal(Value::Real(x)) ==> r@ == (if host.has_fraction_of(*x) {
            "?"@
        } else {
            int_text(host.integer_of(*x) as int)
        }),
        e matches Expr::Literal(Value::Identifier(s)) ==> r@ == s@,
        !(e is Literal) ==> r@ == "?"@,
        e matches Expr::Literal(v) && !(v is Integer || v is Real || v is Identifier) ==> r@ == "?"@,
{
    match e {
        Expr::Literal(Value::Integer(n)) => int_to_string(*n),
        Expr::Literal(Value::Real(x)) => {
            if !host.real_has_fraction(*x) {
                int_to_string(host.real_to_integer(*x))
            } else {
                String::from_str("?")
            }
        },
        Expr::Literal(Value::Identifier(name)) => name.clone(),
        _ => String::from_str("?"),
    }
}

/// The name of a scalar type, as `{:?}` writes it.
pub open spec fn scalar_type_text(t: Type) -> Seq<char> {
    match t {
        Type::Integer => "Integer"@,
        Type::Real => "Real"@,
        Type::String => "String"@,
        Type::Boolean => "Boolean"@,
        Type::Char => "Char"@,
        Type::Function => "Function"@,
        Type::Array(_) => "Array"@,
    }
}

/// The integer of an integer literal.
pub open spec fn literal_int(e: Expr) -> int {
    match e {
        Expr::Literal(Value::Integer(n)) => n as int,
        _ => 0,
    }
}

/// How an array type whose bounds are integer literals and whose base type
/// is not an array is written: `Array[lower:upper] OF base` or
/// `Array[lower:upper, cl:cu] OF base`.
pub open spec fn array_type_text(a: ArrayType) -> Seq<char> {
    "Array["@ + int_text(literal_int(*a.lower_bound)) + ":"@ + int_text(literal_int(*a.upper_bound)) + match a.bounds_2d {
        Some((l, u)) => ", "@ + int_text(literal_int(*l)) + ":"@ + int_text(literal_int(*u)),
        None => Seq::empty(),
    } + "] OF "@ + scalar_type_text(*a.base_type)
}

/// How a type is written in messages: scalar types by name, array types as
/// `Array[lower:upper] OF base` or `Array[lower:upper, cl:cu] OF base`.
pub fn type_debug_text<H: Host>(t: &Type, host: &H) -> (r: String)
    ensures
        type_text(*t) matches Some(x) ==> r@ == x,
        !(t is Array) ==> r@ == scalar_type_text(*t),
        *t matches Type::Array(a) ==> (crate::types::literal_type(*t) ==> r@ == array_type_text(a)),
    decreases t,
{
    match t {
        Type::Integer => String::from_str("Integer"),
        Type::Real => String::from_str("Real"),
        Type::String => String::from_str("String"),
        Type::Boolean => String::from_str("Boolean"),
        Type::Char => String::from_str("Char"),
        Type::Function => String::from_str("Function"),
        Type::Array(a) => {
            let mut s = String::from_str("Array[");
            s.append(fmt_bound(&a.lower_bound, host).as_str());
            s.append(":");
            s.append(fmt_bound(&a.upper_bound, host).as_str());
            match &a.bounds_2d {
                Some((cl, cu)) => {
                    s.append(", ");
                    s.append(fmt_bound(cl, host).as_str());
                    s.append(":");
                    s.append(fmt_bound(cu, host).as_str());
                },
                None => {},
            }
            s.append("] OF ");
            proof {
                assert(decreases_to!(*t => (*t)->Array_0));
                assert(decreases_to!((*t)->Array_0 => *a.base_type));
            }
            s.append(type_debug_text(&a.base_type, host).as_str());
            proof {
                if crate::types::literal_type(*t) {
                    assert(s@ =~= array_type_text(*a));
                }
                if let Some(x) = type_text(*t) {
                    assert(s@ =~= x);
                }
            }
            s
        },
    }
}

/// The name of the kind of an array's first element, as an array's base
/// type is written; "?" for an empty array or an element of another kind.
pub open spec fn element_kind(elems: Seq<ValueV>) -> Seq<char> {
    if elems.len() == 0 {
        "?"@
    } else {
        match elems[0] {
            ValueV::Integer(_) => "Integer"@,
            ValueV::Real(_) => "Real"@,
            ValueV::Str(_) => "String"@,
            ValueV::Boolean(_) => "Boolean"@,
            ValueV::Char(_) => "Char"@,
            _ => "?"@,
        }
    }
}

/// How an array value is written in messages, without its elements: its
/// bounds, in wrapping `usize` arithmetic, and the kind of its first element.
pub open spec fn array_value_text(len: nat, lower: usize, b2d: Option<(usize, usize)>, base: Seq<char>) -> Seq<char> {
    "Array["@ + nat_text(lower as nat) + ":"@ + match b2d {
        Some((cl, cu)) => {
            let cols = crate::types::col_count(cl, cu);
            let rows: nat = if cols == 0 {
                0
            } else {
                len / (cols as nat)
            };
            let last: nat = if rows > 0 {
                (rows - 1) as nat
            } else {
                0
            };
            nat_text(vstd::wrapping::usize_specs::wrapping_add(lower, last as usize) as nat) + ", "@ + nat_text(
                cl as nat,
            ) + ":"@ + nat_text(cu as nat)
        },
        None => {
            let last: nat = if len > 0 {
                (len - 1) as nat
            } else {
                0
            };
            nat_text(vstd::wrapping::usize_specs::wrapping_add(lower, last as usize) as nat)
        },
    } + "] OF "@ + base
}

/// How a value is written in messages (`{:?}`), and so among the elements
/// of an array: see `scalar_debug`, `array_value_text` and `function_text`;
/// `None` for a real, which the host writes, or a procedure whose types the
/// host writes.
pub open spec fn value_debug(v: ValueV) -> Option<Seq<char>> {
    match v {
        ValueV::Array { elems, lower_bound, bounds_2d } => Some(
            array_value_text(elems.len(), lower_bound, bounds_2d, element_kind(elems)),
        ),
        ValueV::Real(_) => None,
        ValueV::Function(f) => function_text(*f),
        _ => scalar_debug(v),
    }
}

/// The elements of an array as they are written, separated by commas.
pub open spec fn elements_debug(elems: Seq<ValueV>) -> Option<Seq<char>>
    decreases elems.len(),
{
    if elems.len() == 0 {
        Some(Seq::empty())
    } else {
        match (elements_debug(elems.drop_last()), value_debug(elems.last())) {
            (Some(x), Some(y)) => Some(
                if elems.len() == 1 {
                    y
                } else {
                    x + ", "@ + y
                },
            ),
            _ => None,
        }
    }
}

fn element_kind_name(v: &Value) -> (r: &'static str)
    ensures
        r@ == element_kind(seq![v@]),
{
    match v {
        Value::Integer(_) => "Integer",
        Value::Real(_) => "Real",
        Value::String(_) => "String",
        Value::Boolean(_) => "Boolean",
        Value::Char(_) => "Char",
        _ => "?",
    }
}

/// How a value is written in messages (`{:?}`): see `scalar_debug`; reals
/// as the host writes them; arrays by their bounds and base type (with
/// their elements in square brackets when `alternate`, see
/// `elements_debug`); procedures and functions as `function_text` says.
#[verifier::rlimit(50)]
pub fn value_debug_text<H: Host>(v: &Value, alternate: bool, host: &H) -> (r: String)
    ensures
        scalar_debug(v@) matches Some(t) ==> r@ == t,
        v@ matches ValueV::Function(f) ==> (function_text(*f) matches Some(t) ==> r@ == t),
        !alternate ==> (value_debug(v@) matches Some(t) ==> r@ == t),
        !alternate ==> (v@ matches ValueV::Array { elems, lower_bound, bounds_2d } ==> r@ == array_value_text(
            elems.len(),
            lower_bound,
            bounds_2d,
            element_kind(elems),
        )),
        alternate ==> (v@ matches ValueV::Array { elems, lower_bound, bounds_2d } ==> (elements_debug(elems) matches Some(
            j,
        ) ==> r@ == array_value_text(elems.len(), lower_bound, bounds_2d, element_kind(elems)) + " ["@ + j + "]"@)),
    decreases v,
{
    match v {
        Value::Integer(n) => int_to_string(*n),
        Value::Real(x) => host.real_debug_text(*x),
        Value::String(s) => {
            let mut r = String::new();
            push_char(&mut r, '"');
            r.append(s.as_str());
            push_char(&mut r, '"');
            r
        },
        Value::Boolean(b) => if *b {
            String::from_str("TRUE")
        } else {
            String::from_str("FALSE")
        },
        Value::Char(c) => {
            let mut r = String::new();
            push_char(&mut r, '\'');
            push_char(&mut r, *c);
            push_char(&mut r, '\'');
            assert(r@ =~= seq!['\'', *c, '\'']);
            r
        },
        Value::Array { array, lower_bound, bounds_2d } => {
            let base = if array.len() > 0 {
                let k = element_kind_name(&array[0]);
                proof {
                    assert(v@->elems[0] == array@[0]@);
                }
                k
            } else {
                "?"
            };
            proof {
                reveal_strlit("?");
            }
            let mut r = String::from_str("Array[");
            r.append(usize_to_string(*lower_bound).as_str());
            r.append(":");
            match bounds_2d {
                Some((cl, cu)) => {
                    let cols = cu.wrapping_sub(*cl).wrapping_add(1);
                    let rows = if cols == 0 {
                        0
                    } else {
                        array.len() / cols
                    };
                    let last_row = if rows > 0 {
                        rows - 1
                    } else {
                        0
                    };
                    r.append(usize_to_string(lower_bound.wrapping_add(last_row)).as_str());
                    r.append(", ");
                    r.append(usize_to_string(*cl).as_str());
                    r.append(":");
                    r.append(usize_to_string(*cu).as_str());
                },
                None => {
                    let last = if array.len() > 0 {
                        array.len() - 1
                    } else {
                        0
                    };
                    r.append(usize_to_string(lower_bound.wrapping_add(last)).as_str());
                },
            }
            r.append("] OF ");
            r.append(base);
            let ghost head = array_value_text(array@.len(), *lower_bound, *bounds_2d, element_kind(v@->elems));
            proof {
                assert(r@ =~= head);
            }
            if alternate {
                r.append(" [");
                let ghost elems = v@->elems;
                let mut i: usize = 0;
                while i < array.len()
                    invariant
                        *v == (Value::Array { array: *array, lower_bound: *lower_bound, bounds_2d: *bounds_2d }),
                        i <= array@.len(),
                        elems == v@->elems,
                        elems.len() == array@.len(),
                        elements_debug(elems.take(i as int)) matches Some(j) ==> r@ == head + " ["@ + j,
                    decreases array@.len() - i,
                {
                    if i > 0 {
                        r.append(", ");
                    }
                    proof {
                        vstd::std_specs::vec::axiom_vec_index_decreases(*array, i as int);
                        assert(*array == (*v)->array);
                        assert(decreases_to!(*v => (*v)->array));
                    }
                    let item = value_debug_text(&array[i], false, host);
                    r.append(item.as_str());
                    proof {
                        let es = elems.take(i + 1);
                        assert(es.drop_last() =~= elems.take(i as int));
                        assert(es.last() == elems[i as int]);
                        assert(elems[i as int] == array@[i as int]@);
                        if let Some(j) = elements_debug(es) {
                            reveal_strlit(", ");
                            reveal_strlit(" [");
                            assert(r@ =~= head + " ["@ + j);
                        }
                    }
                    i = i + 1;
                }
                r.append("]");
                proof {
                    assert(elems.take(array@.len() as int) =~= elems);
                    if let Some(j) = elements_debug(elems) {
                        reveal_strlit("]");
                        reveal_strlit(" [");
                        assert(r@ =~= head + " ["@ + j + "]"@);
                    }
                }
            }
            r
        },
        Value::Identifier(s) => s.clone(),
        Value::Function(f) => function_debug_text(f, host),
    }
}

/// How a parameter is written: how it is passed, its name and its type.
pub open spec fn param_text(p: (String, Type, PassingValue)) -> Option<Seq<char>> {
    match type_text(p.1) {
        Some(t) => Some(
            (if p.2 is ByVal {
                "BYVAL "@
            } else {
                "BYREF "@
            }) + p.0@ + " : "@ + t,
        ),
        None => None,
    }
}

/// How a list of parameters is written: each as `param_text` says,
/// separated by commas.
pub open spec fn params_text(ps: Seq<(String, Type, PassingValue)>) -> Option<Seq<char>>
    decreases ps.len(),
{
    if ps.len() == 0 {
        Some(Seq::empty())
    } else {
        match (params_text(ps.drop_last()), param_text(ps.last())) {
            (Some(x), Some(y)) => Some(
                if ps.len() == 1 {
                    y
                } else {
                    x + ", "@ + y
                },
            ),
            _ => None,
        }
    }
}

/// How a procedure or function is written: `PROCEDURE(params)` or
/// `FUNCTION(params) RETURNS type`.
pub open spec fn function_text(f: Function) -> Option<Seq<char>> {
    match params_text(f.parameters@) {
        None => None,
        Some(p) => match f.return_type {
            Some(t) => match type_text(t) {
                Some(x) => Some("FUNCTION("@ + p + ") RETURNS "@ + x),
                None => None,
            },
            None => Some("PROCEDURE("@ + p + ")"@),
        },
    }
}

fn function_debug_text<H: Host>(f: &Function, host: &H) -> (r: String)
    ensures
        function_text(*f) matches Some(t) ==> r@ == t,
{
    let mut params = String::new();
    let mut i: usize = 0;
    while i < f.parameters.len()
        invariant
            i <= f.parameters@.len(),
            params_text(f.parameters@.take(i as int)) matches Some(p) ==> params@ == p,
        decreases f.parameters@.len() - i,
    {
        let ghost before = params@;
        if i > 0 {
            params.append(", ");
        }
        let (name, ty, passing) = &f.parameters[i];
        match passing {
            PassingValue::ByVal => params.append("BYVAL "),
            PassingValue::ByRef => params.append("BYREF "),
        }
        params.append(name.as_str());
        params.append(" : ");
        params.append(type_debug_text(ty, host).as_str());
        proof {
            let ps = f.parameters@.take(i + 1);
            assert(ps.drop_last() =~= f.parameters@.take(i as int));
            assert(ps.last() == f.parameters@[i as int]);
            if let Some(p) = params_text(ps) {
                reveal_strlit("BYVAL ");
                reveal_strlit("BYREF ");
                reveal_strlit(", ");
                reveal_strlit(" : ");
                assert(params@ =~= p);
            }
        }
        i = i + 1;
    }
    proof {
        assert(f.parameters@.take(f.parameters@.len() as int) =~= f.parameters@);
    }
    match &f.return_type {
        Some(t) => {
            let mut r = String::from_str("FUNCTION(");
            r.append(params.as_str());
            r.append(") RETURNS ");
            r.append(type_debug_text(t, host).as_str());
            proof {
                if let Some(x) = function_text(*f) {
                    reveal_strlit("FUNCTION(");
                    reveal_strlit(") RETURNS ");
                    assert(r@ =~= x);
                }
            }
            r
        },
        None => {
            let mut r = String::from_str("PROCEDURE(");
            r.append(params.as_str());
            r.append(")");
            proof {
                if let Some(x) = function_text(*f) {
                    reveal_strlit("PROCEDURE(");
                    reveal_strlit(")");
                    assert(r@ =~= x);
                }
            }
            r
        },
    }
}

} // verus!
