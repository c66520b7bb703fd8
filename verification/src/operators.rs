//! The binary operators of the language, on runtime values. Integer
//! arithmetic wraps on overflow; real arithmetic is the host's.

use crate::display::{output_text, output_text_of, value_debug_text};
use crate::errortype::{is_runtime, is_runtime_error, CPSError};
use crate::host::Host;
use crate::value::{Value, ValueV};
use vstd::prelude::*;

verus! {

/// An integer or a real.
pub open spec fn is_number(v: ValueV) -> bool {
    v is Integer || v is Real
}

/// A number as the host's real: a real as it is, an integer as the host
/// converts it (see `Host::real_of`).
pub open spec fn as_real<H: Host>(host: &H, v: ValueV) -> u64 {
    match v {
        ValueV::Integer(i) => host.real_of(i),
        ValueV::Real(x) => x,
        _ => 0,
    }
}

/// Two numbers of which at least one is a real: the operation is done on
/// reals.
pub open spec fn real_pair(l: ValueV, r: ValueV) -> bool {
    is_number(l) && is_number(r) && (l is Real || r is Real)
}

/// `v` is an error for operands that the operator does not take.
pub open spec fn is_type_error(r: Result<Value, CPSError>) -> bool {
    r matches Err(e) && is_runtime(e) && e.hint is None
}

fn unsupported<H: Host>(what: &str, op: &str, left: &Value, right: &Value, host: &H) -> (e: CPSError)
    ensures
        is_runtime(e),
        e.hint is None,
{
    let mut m = String::from_str("Unsupported types for ");
    m.append(what);
    m.append(": ");
    m.append(value_debug_text(left, false, host).as_str());
    m.append(" ");
    m.append(op);
    m.append(" ");
    m.append(value_debug_text(right, false, host).as_str());
    CPSError::runtime(m)
}

/// `+`: integers add (wrapping); a real with an integer or a real gives a real.
pub fn add<H: Host>(host: &H, left: Value, right: Value) -> (r: Result<Value, CPSError>)
    ensures
        left@ matches ValueV::Integer(l) ==> (right@ matches ValueV::Integer(x) ==> (r matches Ok(v) && v@
            == ValueV::Integer(vstd::wrapping::i64_specs::wrapping_add(l, x)))),
        real_pair(left@, right@) ==> (r matches Ok(v) && v@ == ValueV::Real(host.sum_of(as_real(host, left@), as_real(host, right@)))),
        !(is_number(left@) && is_number(right@)) ==> is_type_error(r),
{
    match (&left, &right) {
        (Value::Integer(l), Value::Integer(x)) => Ok(Value::Integer(l.wrapping_add(*x))),
        (Value::Real(l), Value::Real(x)) => Ok(Value::Real(host.real_add(*l, *x))),
        (Value::Integer(l), Value::Real(x)) => Ok(Value::Real(host.real_add(host.real_from_integer(*l), *x))),
        (Value::Real(l), Value::Integer(x)) => Ok(Value::Real(host.real_add(*l, host.real_from_integer(*x)))),
        _ => Err(unsupported("addition", "+", &left, &right, host)),
    }
}

/// `-`: integers subtract (wrapping); a real with an integer or a real gives a real.
pub fn subtract<H: Host>(host: &H, left: Value, right: Value) -> (r: Result<Value, CPSError>)
    ensures
        left@ matches ValueV::Integer(l) ==> (right@ matches ValueV::Integer(x) ==> (r matches Ok(v) && v@
            == ValueV::Integer(vstd::wrapping::i64_specs::wrapping_sub(l, x)))),
        real_pair(left@, right@) ==> (r matches Ok(v) && v@ == ValueV::Real(host.difference_of(as_real(host, left@), as_real(host, right@)))),
        !(is_number(left@) && is_number(right@)) ==> is_type_error(r),
{
    match (&left, &right) {
        (Value::Integer(l), Value::Integer(x)) => Ok(Value::Integer(l.wrapping_sub(*x))),
        (Value::Real(l), Value::Real(x)) => Ok(Value::Real(host.real_sub(*l, *x))),
        (Value::Integer(l), Value::Real(x)) => Ok(Value::Real(host.real_sub(host.real_from_integer(*l), *x))),
        (Value::Real(l), Value::Integer(x)) => Ok(Value::Real(host.real_sub(*l, host.real_from_integer(*x)))),
        _ => Err(unsupported("subtraction", "-", &left, &right, host)),
    }
}

/// `*`: integers multiply (wrapping); a real with an integer or a real gives a real.
pub fn multiply<H: Host>(host: &H, left: Value, right: Value) -> (r: Result<Value, CPSError>)
    ensures
        left@ matches ValueV::Integer(l) ==> (right@ matches ValueV::Integer(x) ==> (r matches Ok(v) && v@
            == ValueV::Integer(vstd::wrapping::i64_specs::wrapping_mul(l, x)))),
        real_pair(left@, right@) ==> (r matches Ok(v) && v@ == ValueV::Real(host.product_of(as_real(host, left@), as_real(host, right@)))),
        !(is_number(left@) && is_number(right@)) ==> is_type_error(r),
{
    match (&left, &right) {
        (Value::Integer(l), Value::Integer(x)) => Ok(Value::Integer(l.wrapping_mul(*x))),
        (Value::Real(l), Value::Real(x)) => Ok(Value::Real(host.real_mul(*l, *x))),
        (Value::Integer(l), Value::Real(x)) => Ok(Value::Real(host.real_mul(host.real_from_integer(*l), *x))),
        (Value::Real(l), Value::Integer(x)) => Ok(Value::Real(host.real_mul(*l, host.real_from_integer(*x)))),
        _ => Err(unsupported("multiplication", "*", &left, &right, host)),
    }
}

/// `/`: always gives a real, and a zero divisor is an error.
pub fn divide<H: Host>(host: &H, left: Value, right: Value) -> (r: Result<Value, CPSError>)
    ensures
        right@ == ValueV::Integer(0) ==> (r matches Err(e) && is_runtime_error(e, "Division by zero"@) && e.hint
            is None),
        right@ matches ValueV::Integer(x) ==> (left@ is Integer && x != 0 ==> (r matches Ok(v) && v@ is Real)),
        !(is_number(left@) && is_number(right@)) && !(right@ == ValueV::Integer(0)) && !(right@ is Real)
            ==> is_type_error(r),
        right@ matches ValueV::Real(x) ==> (host.is_zero_of(x) ==> (r matches Err(e) && is_runtime_error(
            e,
            "Division by zero"@,
        ) && e.hint is None)),
        is_number(left@) && is_number(right@) && right@ != ValueV::Integer(0) && !(right@ matches ValueV::Real(x)
            && host.is_zero_of(x)) ==> (r matches Ok(v) && v@ == ValueV::Real(
            host.quotient_of(as_real(host, left@), as_real(host, right@)),
        )),
        r matches Ok(v) ==> v@ is Real,
{
    let is_zero = match &right {
        Value::Integer(n) => *n == 0,
        Value::Real(f) => host.real_is_zero(*f),
        _ => false,
    };
    if is_zero {
        return Err(CPSError::runtime(String::from_str("Division by zero")));
    }
    match (&left, &right) {
        (Value::Integer(a), Value::Integer(b)) => Ok(
            Value::Real(host.real_div(host.real_from_integer(*a), host.real_from_integer(*b))),
        ),
        (Value::Real(a), Value::Real(b)) => Ok(Value::Real(host.real_div(*a, *b))),
        (Value::Integer(a), Value::Real(b)) => Ok(Value::Real(host.real_div(host.real_from_integer(*a), *b))),
        (Value::Real(a), Value::Integer(b)) => Ok(Value::Real(host.real_div(*a, host.real_from_integer(*b)))),
        _ => Err(unsupported("division", "/", &left, &right, host)),
    }
}

proof fn lemma_div_bound(p: int, q: int)
    requires
        p >= 0,
        q >= 1,
    ensures
        0 <= p / q <= p,
        q >= 2 ==> p / q <= p / 2,
{
    assert(0 <= p / q <= p) by (nonlinear_arith)
        requires
            p >= 0,
            q >= 1,
    ;
    if q >= 2 {
        assert(p / q <= p / 2) by (nonlinear_arith)
            requires
                p >= 0,
                q >= 2,
        ;
    }
}

proof fn lemma_checked_div_some(a: i64, b: i64)
    requires
        b != 0,
        !(a == i64::MIN && b == -1),
    ensures
        a.checked_div(b) is Some,
{
    let x = a as int;
    let d = b as int;
    if x > 0 && d > 0 {
        lemma_div_bound(x, d);
    } else if x < 0 && d < 0 {
        lemma_div_bound(-x, -d);
    } else if x < 0 {
        lemma_div_bound(-x, d);
    } else if x > 0 {
        lemma_div_bound(x, -d);
    }
}

/// `DIV`: integers divide, rounding toward zero; reals divide and round
/// down. A zero divisor is an error, and so are an integer with a real.
pub fn integer_divide<H: Host>(host: &H, left: Value, right: Value) -> (r: Result<Value, CPSError>)
    requires
        !(left@ == ValueV::Integer(i64::MIN) && right@ == ValueV::Integer(-1i64)),
    ensures
        left@ is Integer && right@ == ValueV::Integer(0) ==> (r matches Err(e) && is_runtime_error(
            e,
            "Division by zero"@,
        ) && e.hint is None),
        left@ matches ValueV::Integer(a) ==> (right@ matches ValueV::Integer(b) ==> (b != 0 ==> (r matches Ok(v)
            && v@ == ValueV::Integer(a.checked_div(b).unwrap())))),
        left@ is Real && right@ is Real ==> (r is Ok || (r matches Err(e) && is_runtime_error(
            e,
            "Division by zero"@,
        ))),
        left@ matches ValueV::Real(a) ==> (right@ matches ValueV::Real(b) ==> if host.is_zero_of(b) {
            r matches Err(e) && is_runtime_error(e, "Division by zero"@) && e.hint is None
        } else {
            r matches Ok(v) && v@ == ValueV::Real(host.floor_quotient_of(a, b))
        }),
        r matches Ok(v) ==> (left@ is Real ==> v@ is Real),
        !(left@ is Integer && right@ is Integer) && !(left@ is Real && right@ is Real) ==> is_type_error(r),
{
    match (&left, &right) {
        (Value::Integer(a), Value::Integer(b)) => {
            if *b == 0 {
                return Err(CPSError::runtime(String::from_str("Division by zero")));
            }
            assert(left@ == ValueV::Integer(*a) && right@ == ValueV::Integer(*b));
            proof {
                lemma_checked_div_some(*a, *b);
            }
            Ok(Value::Integer(a.checked_div(*b).unwrap()))
        },
        (Value::Real(a), Value::Real(b)) => {
            if host.real_is_zero(*b) {
                return Err(CPSError::runtime(String::from_str("Division by zero")));
            }
            Ok(Value::Real(host.real_floor_div(*a, *b)))
        },
        _ => Err(unsupported("integer division", "//", &left, &right, host)),
    }
}

/// `MOD`: the remainder of integer division (with the sign of the dividend),
/// or of real division. A zero divisor is an error, and so are an integer
/// with a real.
pub fn modulo<H: Host>(host: &H, left: Value, right: Value) -> (r: Result<Value, CPSError>)
    requires
        !(left@ == ValueV::Integer(i64::MIN) && right@ == ValueV::Integer(-1i64)),
    ensures
        left@ is Integer && right@ == ValueV::Integer(0) ==> (r matches Err(e) && is_runtime_error(e, "Modulo by zero"@)
            && e.hint is None),
        left@ matches ValueV::Integer(a) ==> (right@ matches ValueV::Integer(b) ==> (b != 0 ==> (r matches Ok(v)
            && v@ == ValueV::Integer(a.checked_rem(b).unwrap())))),
        left@ is Real && right@ is Real ==> (r is Ok || (r matches Err(e) && is_runtime_error(e, "Modulo by zero"@))),
        left@ matches ValueV::Real(a) ==> (right@ matches ValueV::Real(b) ==> if host.is_zero_of(b) {
            r matches Err(e) && is_runtime_error(e, "Modulo by zero"@) && e.hint is None
        } else {
            r matches Ok(v) && v@ == ValueV::Real(host.remainder_of(a, b))
        }),
        r matches Ok(v) ==> (left@ is Real ==> v@ is Real),
        !(left@ is Integer && right@ is Integer) && !(left@ is Real && right@ is Real) ==> is_type_error(r),
{
    match (&left, &right) {
        (Value::Integer(a), Value::Integer(b)) => {
            if *b == 0 {
                return Err(CPSError::runtime(String::from_str("Modulo by zero")));
            }
            assert(left@ == ValueV::Integer(*a) && right@ == ValueV::Integer(*b));
            Ok(Value::Integer(a.checked_rem(*b).unwrap()))
        },
        (Value::Real(a), Value::Real(b)) => {
            if host.real_is_zero(*b) {
                return Err(CPSError::runtime(String::from_str("Modulo by zero")));
            }
            Ok(Value::Real(host.real_rem(*a, *b)))
        },
        _ => Err(unsupported("modulo", "%", &left, &right, host)),
    }
}

/// The integer power of `a` to exponent `e`, taken modulo 2^64 as `i64`
/// (as `i64::wrapping_pow` gives it).
pub open spec fn wrapping_power(a: i64, e: nat) -> i64
    decreases e,
{
    if e == 0 {
        1
    } else {
        vstd::wrapping::i64_specs::wrapping_mul(wrapping_power(a, (e - 1) as nat), a)
    }
}

/// Two integers are congruent modulo 2^64.
spec fn congruent(x: int, y: int) -> bool {
    x % 0x1_0000_0000_0000_0000int == y % 0x1_0000_0000_0000_0000int
}

/// Cropping to `i64` keeps an integer's class modulo 2^64.
proof fn lemma_crop_congruent(x: int)
    ensures
        congruent(vstd::wrapping::i64_specs::signed_crop(x) as int, x),
{
    let m = 0x1_0000_0000_0000_0000int;
    let r = x % m;
    assert(0 <= r < m);
    if r > i64::MAX as int {
        assert((r - m) % m == r) by (nonlinear_arith)
            requires
                0 <= r < m,
                m == 0x1_0000_0000_0000_0000int,
        ;
    } else {
        assert(r % m == r) by (nonlinear_arith)
            requires
                0 <= r < m,
        ;
    }
    assert(r % m == x % m) by (nonlinear_arith)
        requires
            r == x % m,
            m > 0,
    ;
}

/// Congruent integers crop to the same `i64`.
proof fn lemma_congruent_crop(x: int, y: int)
    requires
        congruent(x, y),
    ensures
        vstd::wrapping::i64_specs::signed_crop(x) == vstd::wrapping::i64_specs::signed_crop(y),
{
}

/// Congruence is kept by multiplication.
proof fn lemma_congruent_mul(x: int, x2: int, y: int, y2: int)
    requires
        congruent(x, x2),
        congruent(y, y2),
    ensures
        congruent(x * y, x2 * y2),
{
    let m = 0x1_0000_0000_0000_0000int;
    vstd::arithmetic::div_mod::lemma_mul_mod_noop(x, y, m);
    vstd::arithmetic::div_mod::lemma_mul_mod_noop(x2, y2, m);
}

/// An `i64` crops to itself.
proof fn lemma_crop_of_i64(v: i64)
    ensures
        vstd::wrapping::i64_specs::signed_crop(v as int) == v,
{
    let m = 0x1_0000_0000_0000_0000int;
    if v >= 0 {
        assert((v as int) % m == v as int) by (nonlinear_arith)
            requires
                0 <= v < m,
        ;
    } else {
        assert((v as int) % m == v as int + m) by (nonlinear_arith)
            requires
                -m < v < 0,
                m == 0x1_0000_0000_0000_0000int,
        ;
    }
}

/// The wrapping power is the mathematical power cropped to `i64`.
proof fn lemma_wrapping_power_crop(a: i64, e: nat)
    ensures
        wrapping_power(a, e) == vstd::wrapping::i64_specs::signed_crop(vstd::arithmetic::power::pow(a as int, e)),
    decreases e,
{
    reveal(vstd::arithmetic::power::pow);
    if e == 0 {
        lemma_crop_of_i64(1);
    } else {
        let p = vstd::arithmetic::power::pow(a as int, (e - 1) as nat);
        lemma_wrapping_power_crop(a, (e - 1) as nat);
        let w = wrapping_power(a, (e - 1) as nat);
        lemma_crop_congruent(p);
        lemma_congruent_mul(w as int, p, a as int, a as int);
        assert(w as int * a as int == a as int * w as int) by (nonlinear_arith);
        assert(p * a as int == a as int * p) by (nonlinear_arith);
        lemma_congruent_crop(w as int * a as int, a as int * p);
    }
}

/// One step of exponentiation by squaring keeps its invariant.
proof fn lemma_square_step(result: i64, base: i64, exp: nat, target: int)
    requires
        exp > 0,
        congruent(result as int * vstd::arithmetic::power::pow(base as int, exp), target),
    ensures
        ({
            let result2: i64 = if exp % 2 == 1 {
                vstd::wrapping::i64_specs::wrapping_mul(result, base)
            } else {
                result
            };
            let base2 = vstd::wrapping::i64_specs::wrapping_mul(base, base);
            congruent(result2 as int * vstd::arithmetic::power::pow(base2 as int, exp / 2), target)
        }),
{
    let m = 0x1_0000_0000_0000_0000int;
    let b = base as int;
    let k = exp / 2;
    let bit: nat = exp % 2;
    let base2 = vstd::wrapping::i64_specs::wrapping_mul(base, base);
    let result2: i64 = if exp % 2 == 1 {
        vstd::wrapping::i64_specs::wrapping_mul(result, base)
    } else {
        result
    };
    // pow(b, exp) == pow(b, bit) * pow(b * b, k)
    assert(exp == bit + 2 * k);
    vstd::arithmetic::power::lemma_pow_adds(b, bit, 2 * k);
    vstd::arithmetic::power::lemma_pow_multiplies(b, 2, k);
    vstd::arithmetic::power::lemma_square_is_pow2(b);
    reveal(vstd::arithmetic::power::pow);
    assert(vstd::arithmetic::power::pow(b, 2) == b * b);
    assert(vstd::arithmetic::power::pow(b, exp) == vstd::arithmetic::power::pow(b, bit) * vstd::arithmetic::power::pow(
        b * b,
        k,
    ));
    // pow(base2, k) is congruent to pow(b * b, k)
    lemma_crop_congruent(b * b);
    vstd::arithmetic::power::lemma_pow_mod_noop(base2 as int, k, m);
    vstd::arithmetic::power::lemma_pow_mod_noop(b * b, k, m);
    assert(congruent(vstd::arithmetic::power::pow(base2 as int, k), vstd::arithmetic::power::pow(b * b, k)));
    let q = vstd::arithmetic::power::pow(b * b, k);
    if bit == 1 {
        vstd::arithmetic::power::lemma_pow1(b);
        lemma_crop_congruent(result as int * b);
        lemma_congruent_mul(result2 as int, result as int * b, vstd::arithmetic::power::pow(base2 as int, k), q);
        assert((result as int * b) * q == result as int * (b * q)) by (nonlinear_arith);
    } else {
        vstd::arithmetic::power::lemma_pow0(b);
        lemma_congruent_mul(result2 as int, result as int, vstd::arithmetic::power::pow(base2 as int, k), q);
        assert(1 * q == q);
    }
}

/// `a` to the power `e`, wrapping, by repeated squaring.
fn int_power(a: i64, e: u32) -> (r: i64)
    ensures
        r == wrapping_power(a, e as nat),
{
    let ghost target = vstd::arithmetic::power::pow(a as int, e as nat);
    let mut result: i64 = 1;
    let mut base: i64 = a;
    let mut exp: u32 = e;
    proof {
        reveal(vstd::arithmetic::power::pow);
        assert(1 * target == target);
    }
    while exp > 0
        invariant
            congruent(result as int * vstd::arithmetic::power::pow(base as int, exp as nat), target),
            target == vstd::arithmetic::power::pow(a as int, e as nat),
        decreases exp,
    {
        proof {
            lemma_square_step(result, base, exp as nat, target);
        }
        if exp % 2 == 1 {
            result = result.wrapping_mul(base);
        }
        base = base.wrapping_mul(base);
        exp = exp / 2;
    }
    proof {
        reveal(vstd::arithmetic::power::pow);
        assert(result as int * 1 == result as int);
        lemma_congruent_crop(result as int, target);
        lemma_crop_of_i64(result);
        lemma_wrapping_power_crop(a, e as nat);
    }
    result
}

/// An integer to a power that fits `u32` gives the mathematical power
/// wherever that fits `i64`.
pub proof fn law_power_when_representable(a: i64, b: i64)
    requires
        0 <= b <= u32::MAX,
        i64::MIN <= vstd::arithmetic::power::pow(a as int, b as nat) <= i64::MAX,
    ensures
        wrapping_power(a, (b as u32) as nat) == vstd::arithmetic::power::pow(a as int, b as nat),
{
    lemma_wrapping_power_crop(a, b as nat);
    let x = vstd::arithmetic::power::pow(a as int, b as nat) as i64;
    lemma_crop_of_i64(x);
}

/// `^`: an integer to an integer power wraps, with the exponent taken as a
/// `u32` (its low 32 bits); a real with an integer or a real gives a real.
pub fn power<H: Host>(host: &H, left: Value, right: Value) -> (r: Result<Value, CPSError>)
    ensures
        left@ matches ValueV::Integer(a) ==> (right@ matches ValueV::Integer(b) ==> (r matches Ok(v) && v@
            == ValueV::Integer(wrapping_power(a, (b as u32) as nat)))),
        real_pair(left@, right@) ==> (r matches Ok(v) && v@ == ValueV::Real(host.power_of(as_real(host, left@), as_real(host, right@)))),
        !(is_number(left@) && is_number(right@)) ==> is_type_error(r),
{
    match (&left, &right) {
        (Value::Integer(a), Value::Integer(b)) => Ok(Value::Integer(int_power(*a, *b as u32))),
        (Value::Real(a), Value::Real(b)) => Ok(Value::Real(host.real_pow(*a, *b))),
        (Value::Integer(a), Value::Real(b)) => Ok(Value::Real(host.real_pow(host.real_from_integer(*a), *b))),
        (Value::Real(a), Value::Integer(b)) => Ok(Value::Real(host.real_pow(*a, host.real_from_integer(*b)))),
        _ => Err(unsupported("power", "^", &left, &right, host)),
    }
}

/// `&`: joins the texts of two integers, reals, strings, booleans or characters.
pub fn concatenate<H: Host>(host: &H, left: Value, right: Value) -> (r: Result<Value, CPSError>)
    ensures
        output_text(left@) matches Some(a) ==> (output_text(right@) matches Some(b) ==> (r matches Ok(v) && v@
            == ValueV::Str(a + b))),
        (left@ is Real || output_text(left@) is Some) && (right@ is Real || output_text(right@) is Some) ==> (r matches Ok(
            v,
        ) && v@ is Str),
        !(left@ is Real || output_text(left@) is Some) || !(right@ is Real || output_text(right@) is Some) ==> (r matches Err(
            e,
        ) && is_runtime(e) && e.hint is None),
{
    let l = match output_text_of(&left, host) {
        Some(s) => s,
        None => {
            let mut m = String::from_str("Unsupported type for concatenation: ");
            m.append(value_debug_text(&left, false, host).as_str());
            return Err(CPSError::runtime(m));
        },
    };
    let x = match output_text_of(&right, host) {
        Some(s) => s,
        None => {
            let mut m = String::from_str("Unsupported type for concatenation: ");
            m.append(value_debug_text(&right, false, host).as_str());
            return Err(CPSError::runtime(m));
        },
    };
    let mut s = l;
    s.append(x.as_str());
    Ok(Value::String(s))
}

/// Both values are of the same kind among integer, real, string, boolean and character.
pub open spec fn same_scalar_kind(a: ValueV, b: ValueV) -> bool {
    ||| a is Integer && b is Integer
    ||| a is Real && b is Real
    ||| a is Str && b is Str
    ||| a is Boolean && b is Boolean
    ||| a is Char && b is Char
}

/// Equality of two values of the same kind, other than reals.
pub open spec fn plain_equal(a: ValueV, b: ValueV) -> bool {
    match (a, b) {
        (ValueV::Integer(x), ValueV::Integer(y)) => x == y,
        (ValueV::Str(x), ValueV::Str(y)) => x == y,
        (ValueV::Boolean(x), ValueV::Boolean(y)) => x == y,
        (ValueV::Char(x), ValueV::Char(y)) => x == y,
        _ => false,
    }
}

/// `=`: compares two integers, reals, strings, booleans or characters of
/// the same kind.
pub fn equal<H: Host>(host: &H, left: Value, right: Value) -> (r: Result<Value, CPSError>)
    ensures
        same_scalar_kind(left@, right@) && !(left@ is Real) ==> (r matches Ok(v) && v@ == ValueV::Boolean(
            plain_equal(left@, right@),
        )),
        left@ matches ValueV::Real(a) ==> (right@ matches ValueV::Real(b) ==> (r matches Ok(v) && v@ == ValueV::Boolean(host.equal_of(a, b)))),
        !same_scalar_kind(left@, right@) ==> is_type_error(r),
{
    match (&left, &right) {
        (Value::Integer(l), Value::Integer(x)) => Ok(Value::Boolean(*l == *x)),
        (Value::Real(l), Value::Real(x)) => Ok(Value::Boolean(host.real_eq(*l, *x))),
        (Value::String(l), Value::String(x)) => Ok(Value::Boolean(*l == *x)),
        (Value::Boolean(l), Value::Boolean(x)) => Ok(Value::Boolean(*l == *x)),
        (Value::Char(l), Value::Char(x)) => Ok(Value::Boolean(*l == *x)),
        _ => Err(unsupported("equality comparison", "==", &left, &right, host)),
    }
}

/// `<>`: the negation of `=`, on the same operands.
pub fn not_equal<H: Host>(host: &H, left: Value, right: Value) -> (r: Result<Value, CPSError>)
    ensures
        same_scalar_kind(left@, right@) && !(left@ is Real) ==> (r matches Ok(v) && v@ == ValueV::Boolean(
            !plain_equal(left@, right@),
        )),
        left@ matches ValueV::Real(a) ==> (right@ matches ValueV::Real(b) ==> (r matches Ok(v) && v@ == ValueV::Boolean(!host.equal_of(a, b)))),
        !same_scalar_kind(left@, right@) ==> is_type_error(r),
{
    match (&left, &right) {
        (Value::Integer(l), Value::Integer(x)) => Ok(Value::Boolean(*l != *x)),
        (Value::Real(l), Value::Real(x)) => Ok(Value::Boolean(!host.real_eq(*l, *x))),
        (Value::String(l), Value::String(x)) => Ok(Value::Boolean(!(*l == *x))),
        (Value::Boolean(l), Value::Boolean(x)) => Ok(Value::Boolean(*l != *x)),
        (Value::Char(l), Value::Char(x)) => Ok(Value::Boolean(*l != *x)),
        _ => Err(unsupported("inequality comparison", "!=", &left, &right, host)),
    }
}

/// The order relations on two numbers.
pub enum Order {
    Less,
    LessEqual,
    Greater,
    GreaterEqual,
}

pub open spec fn int_order(o: Order, l: i64, x: i64) -> bool {
    match o {
        Order::Less => l < x,
        Order::LessEqual => l <= x,
        Order::Greater => l > x,
        Order::GreaterEqual => l >= x,
    }
}

/// The order relation `o` on two reals as the host answers it: `<` and
/// `<=` ask it of the operands in their order, `>` and `>=` in the
/// other.
pub open spec fn real_order<H: Host>(host: &H, o: Order, a: u64, b: u64) -> bool {
    match o {
        Order::Less => host.less_of(a, b),
        Order::LessEqual => host.at_most_of(a, b),
        Order::Greater => host.less_of(b, a),
        Order::GreaterEqual => host.at_most_of(b, a),
    }
}

/// On two numbers of which one is a real, `>` and `>=` are `<` and `<=`
/// with the operands swapped, and each is the host's answer to that
/// question about the operands as reals (an integer as the host converts
/// it): `a > b` is what the host answers for `b < a`.
pub proof fn law_real_comparisons_are_converse<H: Host>(host: &H, l: ValueV, r: ValueV)
    requires
        real_pair(l, r),
    ensures
        real_order(host, Order::Greater, as_real(host, l), as_real(host, r)) == real_order(
            host,
            Order::Less,
            as_real(host, r),
            as_real(host, l),
        ),
        real_order(host, Order::GreaterEqual, as_real(host, l), as_real(host, r)) == real_order(
            host,
            Order::LessEqual,
            as_real(host, r),
            as_real(host, l),
        ),
        real_order(host, Order::Less, as_real(host, l), as_real(host, r)) == host.less_of(as_real(host, l), as_real(host, r)),
        l matches ValueV::Integer(i) ==> as_real(host, l) == host.real_of(i),
        l matches ValueV::Real(x) ==> as_real(host, l) == x,
{
}

fn compare<H: Host>(host: &H, o: Order, left: Value, right: Value) -> (r: Result<Value, CPSError>)
    ensures
        real_pair(left@, right@) ==> (r matches Ok(v) && v@ == ValueV::Boolean(
            real_order(host, o, as_real(host, left@), as_real(host, right@)),
        )),
        left@ matches ValueV::Integer(l) ==> (right@ matches ValueV::Integer(x) ==> (r matches Ok(v) && v@
            == ValueV::Boolean(int_order(o, l, x)))),
        is_number(left@) && is_number(right@) ==> (r matches Ok(v) && v@ is Boolean),
        !(is_number(left@) && is_number(right@)) ==> is_type_error(r),
{
    let (what, op) = match o {
        Order::Less => ("less-than comparison", "<"),
        Order::LessEqual => ("less-than-or-equal comparison", "<="),
        Order::Greater => ("greater-than comparison", ">"),
        Order::GreaterEqual => ("greater-than-or-equal comparison", ">="),
    };
    let (a, b) = match (&left, &right) {
        (Value::Integer(l), Value::Integer(x)) => {
            let result = match o {
                Order::Less => *l < *x,
                Order::LessEqual => *l <= *x,
                Order::Greater => *l > *x,
                Order::GreaterEqual => *l >= *x,
            };
            return Ok(Value::Boolean(result));
        },
        (Value::Real(l), Value::Real(x)) => (*l, *x),
        (Value::Integer(l), Value::Real(x)) => (host.real_from_integer(*l), *x),
        (Value::Real(l), Value::Integer(x)) => (*l, host.real_from_integer(*x)),
        _ => {
            return Err(unsupported(what, op, &left, &right, host));
        },
    };
    let result = match o {
        Order::Less => host.real_lt(a, b),
        Order::LessEqual => host.real_le(a, b),
        Order::Greater => host.real_lt(b, a),
        Order::GreaterEqual => host.real_le(b, a),
    };
    Ok(Value::Boolean(result))
}

/// `<` on two numbers.
pub fn less_than<H: Host>(host: &H, left: Value, right: Value) -> (r: Result<Value, CPSError>)
    ensures
        left@ matches ValueV::Integer(l) ==> (right@ matches ValueV::Integer(x) ==> (r matches Ok(v) && v@
            == ValueV::Boolean(l < x))),
        is_number(left@) && is_number(right@) ==> (r matches Ok(v) && v@ is Boolean),
        real_pair(left@, right@) ==> (r matches Ok(v) && v@ == ValueV::Boolean(host.less_of(as_real(host, left@), as_real(host, right@)))),
        !(is_number(left@) && is_number(right@)) ==> is_type_error(r),
{
    compare(host, Order::Less, left, right)
}

/// `<=` on two numbers.
pub fn less_equal<H: Host>(host: &H, left: Value, right: Value) -> (r: Result<Value, CPSError>)
    ensures
        left@ matches ValueV::Integer(l) ==> (right@ matches ValueV::Integer(x) ==> (r matches Ok(v) && v@
            == ValueV::Boolean(l <= x))),
        is_number(left@) && is_number(right@) ==> (r matches Ok(v) && v@ is Boolean),
        real_pair(left@, right@) ==> (r matches Ok(v) && v@ == ValueV::Boolean(host.at_most_of(as_real(host, left@), as_real(host, right@)))),
        !(is_number(left@) && is_number(right@)) ==> is_type_error(r),
{
    compare(host, Order::LessEqual, left, right)
}

/// `>` on two numbers.
pub fn greater_than<H: Host>(host: &H, left: Value, right: Value) -> (r: Result<Value, CPSError>)
    ensures
        left@ matches ValueV::Integer(l) ==> (right@ matches ValueV::Integer(x) ==> (r matches Ok(v) && v@
            == ValueV::Boolean(l > x))),
        is_number(left@) && is_number(right@) ==> (r matches Ok(v) && v@ is Boolean),
        real_pair(left@, right@) ==> (r matches Ok(v) && v@ == ValueV::Boolean(host.less_of(as_real(host, right@), as_real(host, left@)))),
        !(is_number(left@) && is_number(right@)) ==> is_type_error(r),
{
    compare(host, Order::Greater, left, right)
}

/// `>=` on two numbers.
pub fn greater_equal<H: Host>(host: &H, left: Value, right: Value) -> (r: Result<Value, CPSError>)
    ensures
        left@ matches ValueV::Integer(l) ==> (right@ matches ValueV::Integer(x) ==> (r matches Ok(v) && v@
            == ValueV::Boolean(l >= x))),
        is_number(left@) && is_number(right@) ==> (r matches Ok(v) && v@ is Boolean),
        real_pair(left@, right@) ==> (r matches Ok(v) && v@ == ValueV::Boolean(host.at_most_of(as_real(host, right@), as_real(host, left@)))),
        !(is_number(left@) && is_number(right@)) ==> is_type_error(r),
{
    compare(host, Order::GreaterEqual, left, right)
}

/// `AND` on two booleans.
pub fn logical_and<H: Host>(host: &H, left: Value, right: Value) -> (r: Result<Value, CPSError>)
    ensures
        left@ matches ValueV::Boolean(l) ==> (right@ matches ValueV::Boolean(x) ==> (r matches Ok(v) && v@
            == ValueV::Boolean(l && x))),
        !(left@ is Boolean && right@ is Boolean) ==> is_type_error(r),
{
    match (&left, &right) {
        (Value::Boolean(l), Value::Boolean(x)) => Ok(Value::Boolean(*l && *x)),
        _ => Err(unsupported("logical AND", "AND", &left, &right, host)),
    }
}

/// `OR` on two booleans.
pub fn logical_or<H: Host>(host: &H, left: Value, right: Value) -> (r: Result<Value, CPSError>)
    ensures
        left@ matches ValueV::Boolean(l) ==> (right@ matches ValueV::Boolean(x) ==> (r matches Ok(v) && v@
            == ValueV::Boolean(l || x))),
        !(left@ is Boolean && right@ is Boolean) ==> is_type_error(r),
{
    match (&left, &right) {
        (Value::Boolean(l), Value::Boolean(x)) => Ok(Value::Boolean(*l || *x)),
        _ => Err(unsupported("logical OR", "OR", &left, &right, host)),
    }
}

} // verus!
