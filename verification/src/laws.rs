//! Properties that hold across the operations of the library.

use crate::environment::{innermost, EnvView, OpenFileView, ScopeView};
use crate::interpreter::{
    assigned_env, input_stored, literal_assignment, plain_scalar, read_file_effect, statement_effect, stored_in, RunState,
};
use crate::replay::{after_write, fs_view, opened_for_write, read_outcome, VirtualFileView};
use crate::text::{all_digits, digit_char, digits_value, int_text, is_digit, nat_text, parse_int_text, unsigned_part};
use crate::types::scalar_type;
use crate::value::{Expr, FileMode, Stmt, Type, Value, ValueV};
use vstd::prelude::*;

verus! {

/// `innermost` looks at no scope beyond the first `n`.
proof fn lemma_innermost_prefix(s: Seq<ScopeView>, x: ScopeView, n: int, p: spec_fn(ScopeView) -> bool)
    requires
        0 <= n <= s.len(),
    ensures
        innermost(s.push(x), n, p) == innermost(s, n, p),
    decreases n,
{
    if n > 0 {
        assert(s.push(x)[n - 1] == s[n - 1]);
        lemma_innermost_prefix(s, x, n - 1, p);
    }
}

/// Where a scope with a stronger property is the innermost with a weaker
/// one, it is also the innermost with the stronger one.
proof fn lemma_innermost_stronger(
    s: Seq<ScopeView>,
    n: int,
    weak: spec_fn(ScopeView) -> bool,
    strong: spec_fn(ScopeView) -> bool,
)
    requires
        forall|x: ScopeView| #[trigger] strong(x) ==> weak(x),
        innermost(s, n, weak) matches Some(i) && strong(s[i]),
    ensures
        innermost(s, n, strong) == innermost(s, n, weak),
    decreases n,
{
    if n > 0 && !weak(s[n - 1]) {
        lemma_innermost_stronger(s, n - 1, weak, strong);
    }
}

/// A name just defined has the value it was defined with.
pub proof fn law_lookup_after_define(env: EnvView, name: Seq<char>, value: ValueV)
    requires
        env.scopes.len() >= 1,
    ensures
        env.defined(name, value).lookup(name) == Some(value),
{
    let d = env.defined(name, value);
    assert(d.scopes[d.scopes.len() - 1].bindings.contains_key(name));
}

/// Defining a name leaves the value of every other name whose address is
/// not the one handed out unchanged.
pub proof fn law_define_keeps_others(env: EnvView, name: Seq<char>, value: ValueV, other: Seq<char>)
    requires
        env.scopes.len() >= 1,
        other != name,
        env.address_of(other) != Some(env.top().next_address),
    ensures
        env.defined(name, value).lookup(other) == env.lookup(other),
{
    let d = env.defined(name, value);
    let n = env.scopes.len() as int;
    let p = EnvView::binds(other);
    assert(d.scopes.subrange(0, n - 1) =~= env.scopes.subrange(0, n - 1));
    if env.top().bindings.contains_key(other) {
        assert(d.scopes[n - 1].bindings.contains_key(other));
        assert(p(d.scopes[n - 1]));
        assert(p(env.scopes[n - 1]));
        assert(d.binding_scope(other) == Some(n - 1));
        assert(env.binding_scope(other) == Some(n - 1));
        assert(d.scopes[n - 1].bindings[other] == env.scopes[n - 1].bindings[other]);
    } else {
        assert(!p(d.scopes[n - 1]));
        assert(!p(env.scopes[n - 1]));
        assert(d.binding_scope(other) == innermost(d.scopes, n - 1, p));
        assert(env.binding_scope(other) == innermost(env.scopes, n - 1, p));
        lemma_innermost_same_prefix(d.scopes, env.scopes, n - 1, p);
        crate::environment::lemma_innermost(env.scopes, n - 1, p);
        if env.binding_scope(other) is Some {
            let i = env.binding_scope(other).unwrap();
            assert(d.scopes[i] == env.scopes[i]);
        }
    }
}

/// Binding a name to the address of another (as `set_variable_at_address`
/// does, where a parameter is passed by reference) makes the two names one
/// variable: the new name reads what the other holds, the other is still
/// found where it was, and a value stored through the new name is what the
/// other then reads.
pub proof fn law_binding_by_reference(env: EnvView, name: Seq<char>, other: Seq<char>, w: ValueV)
    requires
        env.scopes.len() >= 1,
        other != name,
        env.address_of(other) is Some,
    ensures
        ({
            let b = env.with_top(
                ScopeView { bindings: env.top().bindings.insert(name, env.address_of(other).unwrap()), ..env.top() },
            );
            &&& b.lookup(name) == env.lookup(other)
            &&& b.address_of(other) == env.address_of(other)
            &&& b.lookup(other) == env.lookup(other)
            &&& !env.is_constant(name) ==> (crate::interpreter::assigned_env(b, name, w) matches Some(e) && e.lookup(
                other,
            ) == Some(w))
        }),
{
    let addr = env.address_of(other).unwrap();
    let b = env.with_top(ScopeView { bindings: env.top().bindings.insert(name, addr), ..env.top() });
    let n = env.scopes.len() as int;
    let p = EnvView::binds(other);
    let q = EnvView::binds(name);
    assert(q(b.scopes[n - 1]));
    assert(b.binding_scope(name) == Some(n - 1));
    assert(b.address_of(name) == Some(addr));
    assert(b.scopes.subrange(0, n - 1) =~= env.scopes.subrange(0, n - 1));
    if env.top().bindings.contains_key(other) {
        assert(p(b.scopes[n - 1]));
        assert(p(env.scopes[n - 1]));
        assert(b.binding_scope(other) == Some(n - 1));
        assert(env.binding_scope(other) == Some(n - 1));
        assert(b.scopes[n - 1].bindings[other] == env.scopes[n - 1].bindings[other]);
    } else {
        assert(!p(b.scopes[n - 1]));
        assert(!p(env.scopes[n - 1]));
        assert(b.binding_scope(other) == innermost(b.scopes, n - 1, p));
        assert(env.binding_scope(other) == innermost(env.scopes, n - 1, p));
        lemma_innermost_same_prefix(b.scopes, env.scopes, n - 1, p);
        crate::environment::lemma_innermost(env.scopes, n - 1, p);
        let i = env.binding_scope(other).unwrap();
        assert(b.scopes[i] == env.scopes[i]);
    }
    assert(b.address_of(other) == Some(addr));
    if !env.is_constant(name) {
        assert forall|i: int| 0 <= i < b.scopes.len() implies b.scopes[i].constants == env.scopes[i].constants by {}
        assert(!b.is_constant(name));
        let e = EnvView { heap: b.heap.insert(addr, w), ..b };
        assert(crate::interpreter::assigned_env(b, name, w) == Some(e));
        assert(e.address_of(other) == Some(addr));
    }
}

/// A name bound to a value whose type an assignment can give has that type
/// as the type of the name: the type of a stored value and of a value being
/// assigned agree.
pub proof fn law_stored_type_agrees(env: EnvView, name: Seq<char>, v: ValueV, t: Type)
    requires
        env.lookup(name) == Some(v),
        crate::types::assigned_type(v) == Ok::<Type, crate::types::TypeFault>(t),
    ensures
        env.type_result(name) == Ok::<Type, (Seq<char>, Option<Seq<char>>)>(t),
{
}

proof fn lemma_innermost_same_prefix(a: Seq<ScopeView>, b: Seq<ScopeView>, n: int, p: spec_fn(ScopeView) -> bool)
    requires
        0 <= n <= a.len(),
        n <= b.len(),
        forall|j: int| 0 <= j < n ==> a[j] == b[j],
    ensures
        innermost(a, n, p) == innermost(b, n, p),
    decreases n,
{
    if n > 0 {
        lemma_innermost_same_prefix(a, b, n - 1, p);
    }
}

/// A name that `set` stored a value for has that value.
pub proof fn law_lookup_after_set(env: EnvView, name: Seq<char>, value: ValueV)
    requires
        env.address_of(name) is Some,
    ensures
        (EnvView { scopes: env.scopes, heap: env.heap.insert(env.address_of(name).unwrap(), value) }).lookup(name)
            == Some(value),
{
}

/// A name declared constant is constant afterwards, so that `set` refuses it.
pub proof fn law_declared_constant_is_constant(env: EnvView, name: Seq<char>, value: ValueV)
    requires
        env.scopes.len() >= 1,
    ensures
        ({
            let d = env.defined(name, value);
            d.with_top(ScopeView { constants: d.top().constants.insert(name), ..d.top() })
        }).is_constant(name),
{
    let d = env.defined(name, value);
    let c = d.with_top(ScopeView { constants: d.top().constants.insert(name), ..d.top() });
    assert(c.scopes[c.scopes.len() - 1].constants.contains(name));
}

/// A value that `set_array_element` stored is what `get_array_element` reads
/// back at the same position, for a name whose binding holds a value.
pub proof fn law_element_read_after_write(
    env: EnvView,
    name: Seq<char>,
    index: usize,
    col: Option<usize>,
    value: ValueV,
)
    requires
        env.lookup(name) is Some,
        env.element_update(name, index, col, value) is Ok,
    ensures
        (EnvView { scopes: env.scopes, heap: env.element_update(name, index, col, value)->Ok_0 }).element_result(
            name,
            index,
            col,
        ) == Ok::<ValueV, (Seq<char>, Option<Seq<char>>)>(value),
{
    let n = env.scopes.len() as int;
    let weak = EnvView::binds(name);
    let strong = |s: ScopeView| s.bindings.contains_key(name) && env.heap.contains_key(s.bindings[name]);
    crate::environment::lemma_innermost(env.scopes, n, weak);
    lemma_innermost_stronger(env.scopes, n, weak, strong);
}

/// A new child scope binds nothing, so every name keeps its value.
pub proof fn law_child_scope_keeps_lookup(env: EnvView, name: Seq<char>)
    ensures
        (EnvView {
            scopes: env.scopes.push(
                ScopeView {
                    bindings: Map::empty(),
                    files: Map::empty(),
                    constants: Set::empty(),
                    next_address: env.top().next_address,
                },
            ),
            heap: env.heap,
        }).lookup(name) == env.lookup(name),
{
    let x = ScopeView {
        bindings: Map::empty(),
        files: Map::empty(),
        constants: Set::empty(),
        next_address: env.top().next_address,
    };
    let s2 = env.scopes.push(x);
    let n = env.scopes.len() as int;
    let p = EnvView::binds(name);
    assert(!p(s2[n]));
    assert(innermost(s2, n + 1, p) == innermost(s2, n, p));
    lemma_innermost_prefix(env.scopes, x, n, p);
    crate::environment::lemma_innermost(env.scopes, n, p);
    if innermost(env.scopes, n, p) is Some {
        let i = innermost(env.scopes, n, p).unwrap();
        assert(s2[i] == env.scopes[i]);
    }
}

/// A file just opened is the one that file operations on its name reach,
/// with the record it was opened with.
pub proof fn law_file_after_open(env: EnvView, name: Seq<char>, mode: FileMode, contents: Seq<char>)
    requires
        env.scopes.len() >= 1,
    ensures
        env.with_file(env.scopes.len() - 1, name, EnvView::opened(mode, contents)).file(name) == Some(
            EnvView::opened(mode, contents),
        ),
{
    let e = env.with_file(env.scopes.len() - 1, name, EnvView::opened(mode, contents));
    assert(e.scopes[e.scopes.len() - 1].files.contains_key(name));
}

proof fn lemma_digit_char(d: nat)
    requires
        d < 10,
    ensures
        digit_char(d) as int == 48 + d,
        is_digit(digit_char(d)),
{
}

proof fn lemma_nat_text_digits(n: nat)
    ensures
        all_digits(nat_text(n)),
        digits_value(nat_text(n)) == n,
        nat_text(n).len() >= 1,
        nat_text(n)[0] != '-' && nat_text(n)[0] != '+',
    decreases n,
{
    lemma_digit_char(n % 10);
    if n >= 10 {
        lemma_nat_text_digits(n / 10);
        let t = nat_text(n);
        assert(t.drop_last() =~= nat_text(n / 10));
        assert(t.last() == digit_char(n % 10));
        assert(digits_value(t) == digits_value(nat_text(n / 10)) * 10 + (n % 10));
        assert((n / 10) * 10 + n % 10 == n);
    } else {
        let t = nat_text(n);
        assert(t.drop_last() =~= Seq::<char>::empty());
        assert(digits_value(t) == digits_value(t.drop_last()) * 10 + ((t.last() as int - 48) as nat));
        assert forall|k: int| 0 <= k < t.len() implies is_digit(#[trigger] t[k]) by {
            if k < t.len() - 1 {
                assert(t[k] == nat_text(n / 10)[k]);
            }
        }
    }
}

/// The decimal numeral of an integer reads back as that integer.
pub proof fn law_parse_int_text_round_trip(i: i64)
    ensures
        parse_int_text(int_text(i as int)) == Some(i),
{
    if i < 0 {
        let m = (-(i as int)) as nat;
        lemma_nat_text_digits(m);
        let t = int_text(i as int);
        assert(unsigned_part(t) =~= nat_text(m));
    } else {
        lemma_nat_text_digits(i as nat);
    }
}

/// A variable held constant keeps its value: assigning a literal to it is
/// refused and changes nothing.
pub proof fn law_constant_refuses_assignment(
    r: Result<(), crate::errortype::CPSError>,
    before: EnvView,
    after: EnvView,
    name: Seq<char>,
    lit: ValueV,
)
    requires
        before.is_constant(name),
        plain_scalar(lit),
        literal_assignment(r, before, after, name, lit),
    ensures
        r is Err,
        after == before,
{
    assert(assigned_env(before, name, lit) is None);
    match before.type_result(name) {
        Ok(t) => {
            if t != scalar_type(lit) && t is Real && lit is Integer {
                let x = choose|x: u64| #[trigger] stored_in(r, before, after, name, ValueV::Real(x));
                assert(assigned_env(before, name, ValueV::Real(x)) is None);
            }
        },
        Err(_) => {},
    }
}

/// A literal assigned to a variable of its own type, not held constant, is
/// what the variable then holds.
pub proof fn law_lookup_after_assignment(
    r: Result<(), crate::errortype::CPSError>,
    before: EnvView,
    after: EnvView,
    name: Seq<char>,
    lit: ValueV,
)
    requires
        plain_scalar(lit),
        before.type_result(name) == Ok::<Type, (Seq<char>, Option<Seq<char>>)>(scalar_type(lit)),
        !before.is_constant(name),
        literal_assignment(r, before, after, name, lit),
    ensures
        r is Ok,
        after.lookup(name) == Some(lit),
{
    law_lookup_after_set(before, name, lit);
}

/// A literal whose type is not the variable's (other than an integer given
/// to a `REAL` variable) is refused, and the variable keeps its value.
pub proof fn law_mismatched_assignment_changes_nothing(
    r: Result<(), crate::errortype::CPSError>,
    before: EnvView,
    after: EnvView,
    name: Seq<char>,
    lit: ValueV,
    t: Type,
)
    requires
        plain_scalar(lit),
        before.type_result(name) == Ok::<Type, (Seq<char>, Option<Seq<char>>)>(t),
        t != scalar_type(lit),
        !(t is Real && lit is Integer),
        literal_assignment(r, before, after, name, lit),
    ensures
        r is Err,
        after == before,
{
}

/// A line of input that reads as the integer `n`, given to an `INTEGER`
/// variable not held constant, is what the variable then holds.
pub proof fn law_lookup_after_integer_input(
    r: Result<(), crate::errortype::CPSError>,
    before: EnvView,
    after: EnvView,
    name: Seq<char>,
    input: Seq<char>,
    n: i64,
)
    requires
        before.type_result(name) == Ok::<Type, (Seq<char>, Option<Seq<char>>)>(Type::Integer),
        !before.is_constant(name),
        parse_int_text(input) == Some(n),
        input_stored(r, before, after, name, input),
    ensures
        r is Ok,
        after.lookup(name) == Some(ValueV::Integer(n)),
{
    law_lookup_after_set(before, name, ValueV::Integer(n));
}

/// Leaving a scope undoes entering it.
pub proof fn law_pop_undoes_push(env: EnvView, child: ScopeView)
    ensures
        env.scopes.push(child).drop_last() == env.scopes,
{
    assert(env.scopes.push(child).drop_last() =~= env.scopes);
}

/// Closing a file that was just opened, where no scope had it open, gives
/// back the environment from before the open.
pub proof fn law_close_undoes_open(env: EnvView, name: Seq<char>, mode: FileMode, contents: Seq<char>)
    requires
        env.scopes.len() >= 1,
        env.file_scope(name) is None,
    ensures
        ({
            let top = env.scopes.len() - 1;
            let e = env.with_file(top, name, EnvView::opened(mode, contents));
            &&& e.file_scope(name) == Some(top)
            &&& e.without_file(top, name) == env
        }),
{
    let top = env.scopes.len() - 1;
    let e = env.with_file(top, name, EnvView::opened(mode, contents));
    crate::environment::lemma_innermost(env.scopes, env.scopes.len() as int, |s: ScopeView| s.files.contains_key(name));
    assert(!env.scopes[top].files.contains_key(name));
    assert(e.scopes[top].files.contains_key(name));
    let w = e.without_file(top, name);
    assert(w.scopes[top].files =~= env.scopes[top].files);
    assert(w.scopes[top] == env.scopes[top]);
    assert(w.scopes =~= env.scopes);
}

/// A file in memory that is written afresh and then opened for reading
/// gives back, as its first line, the line that was written.
pub proof fn law_file_in_memory_reads_back_a_write(f: Option<VirtualFileView>, line: Seq<char>)
    ensures
        ({
            let w = after_write(opened_for_write(f), line);
            let r = VirtualFileView { mode: FileMode::Read, read_pos: 0, open: true, ..w };
            &&& r.read_pos < r.lines.len()
            &&& r.lines[r.read_pos as int] == line
            &&& r.lines.len() == 1
        }),
{
}

/// A program reads back what it wrote: OPENFILE for WRITE, WRITEFILE of a
/// string, CLOSEFILE, OPENFILE for READ and READFILE into a variable that is
/// bound and not constant, run one after another on the same file, all
/// succeed, and the variable then holds the string.
pub proof fn law_program_reads_back_what_it_wrote(
    file: String,
    text: String,
    var: String,
    s0: RunState,
    s1: RunState,
    s2: RunState,
    s3: RunState,
    s4: RunState,
    s5: RunState,
    r1: Result<(), crate::errortype::CPSError>,
    r2: Result<(), crate::errortype::CPSError>,
    r3: Result<(), crate::errortype::CPSError>,
    r4: Result<(), crate::errortype::CPSError>,
    r5: Result<(), crate::errortype::CPSError>,
)
    requires
        s0.env.address_of(var@) is Some,
        !s0.env.is_constant(var@),
        statement_effect(
            Stmt::OpenFile { filename: Box::new(Expr::Literal(Value::String(file))), mode: FileMode::Write },
            s0,
            s1,
            r1,
        ),
        statement_effect(
            Stmt::WriteFile {
                filename: Box::new(Expr::Literal(Value::String(file))),
                value: Box::new(Expr::Literal(Value::String(text))),
            },
            s1,
            s2,
            r2,
        ),
        statement_effect(Stmt::CloseFile { filename: Box::new(Expr::Literal(Value::String(file))) }, s2, s3, r3),
        statement_effect(
            Stmt::OpenFile { filename: Box::new(Expr::Literal(Value::String(file))), mode: FileMode::Read },
            s3,
            s4,
            r4,
        ),
        statement_effect(
            Stmt::ReadFile {
                filename: Box::new(Expr::Literal(Value::String(file))),
                target: Box::new(Expr::Literal(Value::Identifier(var))),
            },
            s4,
            s5,
            r5,
        ),
    ensures
        r1 is Ok && r2 is Ok && r3 is Ok && r4 is Ok && r5 is Ok,
        s5.env.lookup(var@) == Some(ValueV::Str(text@)),
{
    let name = file@;
    let fs0 = fs_view(s0.ctx.virtual_fs);
    let cur = crate::replay::file_record(fs0, name);
    let fs1 = fs_view(s1.ctx.virtual_fs);
    assert(fs1 == fs0.insert(name, opened_for_write(cur)));
    assert(fs1.contains_key(name) && fs1[name].mode == FileMode::Write);
    let fs2 = fs_view(s2.ctx.virtual_fs);
    assert(fs2 == fs1.insert(name, after_write(fs1[name], text@)));
    assert(fs2[name].lines =~= seq![text@]);
    let fs3 = fs_view(s3.ctx.virtual_fs);
    assert(fs3[name].lines =~= seq![text@]);
    let fs4 = fs_view(s4.ctx.virtual_fs);
    assert(fs4.contains_key(name) && fs4[name].mode == FileMode::Read && fs4[name].read_pos == 0);
    assert(fs4[name].lines =~= seq![text@]);
    assert(read_file_effect(
        Expr::Literal(Value::String(file)),
        Expr::Literal(Value::Identifier(var)),
        s4,
        s5,
        r5,
    ));
    let line = choose|line: Result<String, crate::errortype::CPSError>|
        #[trigger] read_outcome(s4.ctx, s5.ctx, name, line) && match line {
            Ok(l) => stored_in(r5, s4.env, s5.env, var@, ValueV::Str(l@)),
            Err(e) => r5 == Err::<(), crate::errortype::CPSError>(e) && s5.env == s4.env,
        };
    assert(s4.env == s0.env);
    assert(line matches Ok(l) && l@ == text@);
    law_lookup_after_set(s0.env, var@, ValueV::Str(text@));
}

/// Replaying a run: an output line that the embedding has already shown is
/// passed over, and the first one it has not shown stops the run with that
/// line; either way the variables are untouched.
pub proof fn law_output_replay(lit: Value, a: RunState, b: RunState, r: Result<(), crate::errortype::CPSError>)
    requires
        crate::display::output_text(lit@) is Some,
        statement_effect(Stmt::Output { target: Expr::Literal(lit) }, a, b, r),
    ensures
        b.env == a.env,
        a.ctx.output_skip > 0 ==> r is Ok && b.ctx.output_skip == a.ctx.output_skip - 1,
        a.ctx.output_skip == 0 ==> (r matches Err(e) && (e.error_type matches crate::errortype::ErrorType::StepOutput(o)
            && o@ == crate::display::output_text(lit@).unwrap())) && b == a,
{
}

/// Replaying a run: INPUT takes the next line that the embedding supplied,
/// and when none is left it stops the run and asks for one, changing
/// nothing.
pub proof fn law_input_replay(name: String, a: RunState, b: RunState, r: Result<(), crate::errortype::CPSError>)
    requires
        statement_effect(Stmt::Input { identifier: Box::new(Expr::Literal(Value::Identifier(name))) }, a, b, r),
    ensures
        a.ctx.input_pos < a.ctx.inputs@.len() ==> b.ctx.input_pos == (a.ctx.input_pos + 1) as usize && b.ctx.inputs
            == a.ctx.inputs,
        a.ctx.input_pos >= a.ctx.inputs@.len() ==> (r matches Err(e) && (e.error_type matches crate::errortype::ErrorType::StepNeedsInput(v)
            && v@ == name@)) && b == a,
{
}

/// A variable declared with a scalar type, in a scope that does not hold
/// its name constant, starts with the initial value of that type.
pub proof fn law_declared_variable_starts_with_its_initial_value(
    name: String,
    t: Type,
    a: RunState,
    b: RunState,
    r: Result<(), crate::errortype::CPSError>,
)
    requires
        a.env.scopes.len() >= 1,
        crate::types::initial_scalar(t) is Some,
        !a.env.top().constants.contains(name@),
        statement_effect(Stmt::Decleration { identifier: name, type_: t }, a, b, r),
    ensures
        r is Ok,
        b.env.lookup(name@) == crate::types::initial_scalar(t),
{
    law_lookup_after_define(a.env, name@, crate::types::initial_scalar(t).unwrap());
}

/// Integer DIV and MOD fit together: the quotient times the divisor plus
/// the remainder is the dividend.
pub proof fn law_div_mod(a: i64, b: i64)
    requires
        b != 0,
        !(a == i64::MIN && b == -1),
    ensures
        a.checked_div(b) is Some,
        a.checked_rem(b) is Some,
        (a.checked_div(b).unwrap() as int) * (b as int) + (a.checked_rem(b).unwrap() as int) == a as int,
{
    let x = a as int;
    let d = b as int;
    if x == 0 {
    } else if x > 0 && d > 0 {
        vstd::arithmetic::div_mod::lemma_fundamental_div_mod(x, d);
        assert(0 <= x / d <= x) by (nonlinear_arith)
            requires
                x > 0,
                d > 0,
        ;
        assert(0 <= x % d < d) by (nonlinear_arith)
            requires
                x > 0,
                d > 0,
        ;
        assert(d * (x / d) == (x / d) * d) by (nonlinear_arith);
    } else if x < 0 && d < 0 {
        let p = -x;
        let q = -d;
        vstd::arithmetic::div_mod::lemma_fundamental_div_mod(p, q);
        assert(0 <= p / q <= p) by (nonlinear_arith)
            requires
                p > 0,
                q > 0,
        ;
        assert(0 <= p % q < q) by (nonlinear_arith)
            requires
                p > 0,
                q > 0,
        ;
        assert((p / q) * d == -(q * (p / q))) by (nonlinear_arith)
            requires
                q == -d,
        ;
    } else if x < 0 {
        let p = -x;
        vstd::arithmetic::div_mod::lemma_fundamental_div_mod(p, d);
        assert(0 <= p / d <= p) by (nonlinear_arith)
            requires
                p > 0,
                d > 0,
        ;
        assert(0 <= p % d < d) by (nonlinear_arith)
            requires
                p > 0,
                d > 0,
        ;
        assert(((p / d) * -1) * d == -(d * (p / d))) by (nonlinear_arith);
    } else {
        let q = -d;
        vstd::arithmetic::div_mod::lemma_fundamental_div_mod(x, q);
        assert(0 <= x / q <= x) by (nonlinear_arith)
            requires
                x > 0,
                q > 0,
        ;
        assert(0 <= x % q < q) by (nonlinear_arith)
            requires
                x > 0,
                q > 0,
        ;
        assert(((x / q) * -1) * d == q * (x / q)) by (nonlinear_arith)
            requires
                q == -d,
        ;
    }
}

} // verus!
