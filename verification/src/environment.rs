//! The chain of scopes that a running program sees: variables bound to
//! addresses of a shared heap, constants, and open files.

use crate::errortype::{CPSError, is_runtime_error};
use crate::names::NameMap;
use crate::host::Host;
use crate::text::{bool_text, bool_to_string, char_to_string, concat3, int_text, int_to_string, lines_of, nat_text, split_lines, usize_to_string};
use crate::types::{col_count, stored_type, type_of_stored, TypeFault};
use crate::value::{FileMode, Type, Value, ValueV};
use std::collections::HashMap;
use vstd::prelude::*;

verus! {

broadcast use vstd::std_specs::hash::group_hash_axioms;

/// A file opened by the program. Its lines are buffered in read mode; in
/// write and append mode the lines written since opening are kept until the
/// embedding stores them.
#[derive(Debug)]
pub struct OpenFile {
    pub mode: FileMode,
    pub lines: Option<Vec<String>>,
    pub line_idx: usize,
    pub pending: Option<Vec<String>>,
}

/// The model of an open file.
pub struct OpenFileView {
    pub mode: FileMode,
    pub lines: Option<Seq<Seq<char>>>,
    pub line_idx: usize,
    pub pending: Option<Seq<Seq<char>>>,
}

pub open spec fn lines_view(v: Option<Vec<String>>) -> Option<Seq<Seq<char>>> {
    match v {
        Some(l) => Some(l@.map_values(|s: String| s@)),
        None => None,
    }
}

impl View for OpenFile {
    type V = OpenFileView;

    open spec fn view(&self) -> OpenFileView {
        OpenFileView {
            mode: self.mode,
            lines: lines_view(self.lines),
            line_idx: self.line_idx,
            pending: lines_view(self.pending),
        }
    }
}

/// One scope: the names it binds, the files it opened, the names it holds
/// constant, and the next heap address it hands out.
#[derive(Debug)]
struct Scope {
    bindings: NameMap<usize>,
    open_files: NameMap<OpenFile>,
    constants: NameMap<()>,
    next_address: usize,
}

/// The model of a scope.
pub struct ScopeView {
    pub bindings: Map<Seq<char>, usize>,
    pub files: Map<Seq<char>, OpenFileView>,
    pub constants: Set<Seq<char>>,
    pub next_address: usize,
}

spec fn scope_view(s: Scope) -> ScopeView {
    ScopeView {
        bindings: s.bindings@,
        files: s.open_files@.map_values(|f: OpenFile| f@),
        constants: s.constants@.dom(),
        next_address: s.next_address,
    }
}

spec fn scope_wf(s: Scope) -> bool {
    &&& s.bindings.wf()
    &&& s.open_files.wf()
    &&& s.constants.wf()
}

/// The model of an environment: its scopes, outermost first, and the heap.
pub struct EnvView {
    pub scopes: Seq<ScopeView>,
    pub heap: Map<usize, ValueV>,
}

/// The innermost of the first `n` scopes that has property `p`.
pub open spec fn innermost(scopes: Seq<ScopeView>, n: int, p: spec_fn(ScopeView) -> bool) -> Option<int>
    decreases n,
{
    if n <= 0 {
        None
    } else if p(scopes[n - 1]) {
        Some(n - 1)
    } else {
        innermost(scopes, n - 1, p)
    }
}

/// What `innermost` finds has the property and is one of the first `n` scopes.
pub proof fn lemma_innermost(scopes: Seq<ScopeView>, n: int, p: spec_fn(ScopeView) -> bool)
    ensures
        innermost(scopes, n, p) matches Some(i) ==> 0 <= i < n && p(scopes[i]),
        innermost(scopes, n, p) is None ==> forall|j: int| 0 <= j < n ==> !p(#[trigger] scopes[j]),
    decreases n,
{
    if n > 0 {
        lemma_innermost(scopes, n - 1, p);
    }
}

pub open spec fn opt_value_view(v: Option<Value>) -> Option<ValueV> {
    match v {
        Some(x) => Some(x@),
        None => None,
    }
}

impl EnvView {
    /// The scope that new names go into.
    pub open spec fn top(self) -> ScopeView {
        self.scopes.last()
    }

    pub open spec fn binds(name: Seq<char>) -> spec_fn(ScopeView) -> bool {
        |s: ScopeView| s.bindings.contains_key(name)
    }

    /// The innermost scope that binds `name`.
    pub open spec fn binding_scope(self, name: Seq<char>) -> Option<int> {
        innermost(self.scopes, self.scopes.len() as int, Self::binds(name))
    }

    /// The address that `name` is bound to, looking outward from the top scope.
    pub open spec fn address_of(self, name: Seq<char>) -> Option<usize> {
        match self.binding_scope(name) {
            Some(i) => Some(self.scopes[i].bindings[name]),
            None => None,
        }
    }

    /// The value of `name`: the heap's value at its address, if the heap has one.
    pub open spec fn lookup(self, name: Seq<char>) -> Option<ValueV> {
        match self.address_of(name) {
            Some(a) => if self.heap.contains_key(a) {
                Some(self.heap[a])
            } else {
                None
            },
            None => None,
        }
    }

    /// Some scope holds `name` constant.
    pub open spec fn is_constant(self, name: Seq<char>) -> bool {
        exists|i: int| 0 <= i < self.scopes.len() && #[trigger] self.scopes[i].constants.contains(name)
    }

    /// The model with `f` as its top scope.
    pub open spec fn with_top(self, f: ScopeView) -> EnvView {
        EnvView { scopes: self.scopes.update(self.scopes.len() - 1, f), heap: self.heap }
    }

    /// The model after `name` is defined as `value` in the top scope.
    pub open spec fn defined(self, name: Seq<char>, value: ValueV) -> EnvView {
        let t = self.top();
        EnvView {
            scopes: self.scopes.update(
                self.scopes.len() - 1,
                ScopeView {
                    bindings: t.bindings.insert(name, t.next_address),
                    next_address: vstd::wrapping::usize_specs::wrapping_add(t.next_address, 1),
                    ..t
                },
            ),
            heap: self.heap.insert(t.next_address, value),
        }
    }
}

pub open spec fn msg_cannot_modify_constant(name: Seq<char>) -> Seq<char> {
    "Cannot modify constant '"@ + name + "'"@
}

pub open spec fn msg_undefined_variable(name: Seq<char>) -> Seq<char> {
    "Undefined variable '"@ + name + "'"@
}

pub open spec fn hint_declare_before_use() -> Seq<char> {
    "Check if the variable is declared before use."@
}

pub open spec fn msg_cannot_redefine_constant(name: Seq<char>) -> Seq<char> {
    "Cannot redefine constant '"@ + name + "'"@
}

pub open spec fn msg_constant_already_declared(name: Seq<char>) -> Seq<char> {
    "Constant '"@ + name + "' is already declared"@
}

pub open spec fn msg_not_found(name: Seq<char>) -> Seq<char> {
    "Variable '"@ + name + "' not found"@
}

pub open spec fn msg_not_in_memory(name: Seq<char>) -> Seq<char> {
    "Variable '"@ + name + "' not found in memory"@
}

pub open spec fn msg_not_an_array(name: Seq<char>) -> Seq<char> {
    "Variable '"@ + name + "' is not an array"@
}

/// Why an element of an array cannot be reached.
pub enum IndexFault {
    BelowLower,
    MissingColumn,
    ColumnBelow,
    ColumnBeyond,
    OutOfBounds,
}

/// Where element `index` (and column `col`) of an array with `len` elements
/// and these bounds sits in its list of elements, rows one after another;
/// or why it cannot be reached: a position past the elements, however
/// large, is out of bounds. A column index is ignored for a one-dimensional
/// array.
pub open spec fn flat_position(
    len: nat,
    lower: usize,
    b2d: Option<(usize, usize)>,
    index: usize,
    col: Option<usize>,
) -> Result<usize, IndexFault> {
    if index < lower {
        Err(IndexFault::BelowLower)
    } else {
        match b2d {
            Some((cl, cu)) => match col {
                None => Err(IndexFault::MissingColumn),
                Some(c) => if c < cl {
                    Err(IndexFault::ColumnBelow)
                } else if c - cl >= col_count(cl, cu) {
                    Err(IndexFault::ColumnBeyond)
                } else {
                    let flat: int = (index - lower) * col_count(cl, cu) + (c - cl);
                    if flat >= len {
                        Err(IndexFault::OutOfBounds)
                    } else {
                        Ok(flat as usize)
                    }
                },
            },
            None => if index - lower >= len {
                Err(IndexFault::OutOfBounds)
            } else {
                Ok((index - lower) as usize)
            },
        }
    }
}

/// The message and hint of the error for an index fault.
pub open spec fn index_fault_text(
    f: IndexFault,
    name: Seq<char>,
    lower: usize,
    b2d: Option<(usize, usize)>,
    index: usize,
    col: Option<usize>,
) -> (Seq<char>, Option<Seq<char>>) {
    let c = col.unwrap();
    let (cl, cu) = b2d.unwrap();
    match f {
        IndexFault::BelowLower => (
            "Array index "@ + nat_text(index as nat) + " is below lower bound "@ + nat_text(lower as nat)
                + " for '"@ + name + "'"@,
            Some("Valid indices start from "@ + nat_text(lower as nat)),
        ),
        IndexFault::MissingColumn => (
            "Missing column index for 2D array '"@ + name + "'"@,
            Some("2D arrays require both row and column indices"@),
        ),
        IndexFault::ColumnBelow => (
            "Column index "@ + nat_text(c as nat) + " is below lower bound "@ + nat_text(cl as nat) + " for '"@
                + name + "'"@,
            Some("Valid column indices start from "@ + nat_text(cl as nat)),
        ),
        IndexFault::ColumnBeyond => (
            "Column index "@ + nat_text(c as nat) + " is out of bounds for '"@ + name + "'"@,
            Some("Valid column indices range from "@ + nat_text(cl as nat) + " to "@ + nat_text(cu as nat)),
        ),
        IndexFault::OutOfBounds => ("Array index out of bounds for '"@ + name + "'"@, None),
    }
}

/// `e` is the runtime error with this message and hint.
pub open spec fn is_error_text(e: CPSError, text: (Seq<char>, Option<Seq<char>>)) -> bool {
    &&& is_runtime_error(e, text.0)
    &&& match text.1 {
        Some(h) => e.hint matches Some(eh) && eh@ == h,
        None => e.hint is None,
    }
}

/// The message and hint of the error for a stored value whose type cannot be given.
pub open spec fn type_fault_text(f: TypeFault, name: Seq<char>) -> (Seq<char>, Option<Seq<char>>) {
    match f {
        TypeFault::NoColumns => ("Array '"@ + name + "' has no columns"@, None),
        TypeFault::EmptyArray => (
            "Cannot determine base type of empty array '"@ + name + "'"@,
            Some("Consider initializing the array with a default value."@),
        ),
        _ => ("Nested arrays are not supported for '"@ + name + "'"@, None),
    }
}

impl EnvView {
    /// The innermost scope that binds `name` to an address the heap holds.
    pub open spec fn stored_scope(self, name: Seq<char>) -> Option<int> {
        innermost(
            self.scopes,
            self.scopes.len() as int,
            |s: ScopeView| s.bindings.contains_key(name) && self.heap.contains_key(s.bindings[name]),
        )
    }

    /// What `get_type` reports for `name`.
    pub open spec fn type_result(self, name: Seq<char>) -> Result<Type, (Seq<char>, Option<Seq<char>>)> {
        match self.address_of(name) {
            None => Err((msg_undefined_variable(name), Some(hint_declare_before_use()))),
            Some(a) => if !self.heap.contains_key(a) {
                Err((msg_not_in_memory(name), None))
            } else {
                match stored_type(self.heap[a]) {
                    Ok(t) => Ok(t),
                    Err(f) => Err(type_fault_text(f, name)),
                }
            },
        }
    }

    /// What `get_array_element` reports for `name`, `index` and `col`.
    pub open spec fn element_result(self, name: Seq<char>, index: usize, col: Option<usize>) -> Result<
        ValueV,
        (Seq<char>, Option<Seq<char>>),
    > {
        match self.address_of(name) {
            None => Err((msg_not_found(name), None)),
            Some(a) => if !self.heap.contains_key(a) {
                Err((msg_not_in_memory(name), None))
            } else {
                match self.heap[a] {
                    ValueV::Array { elems, lower_bound, bounds_2d } => match flat_position(
                        elems.len(),
                        lower_bound,
                        bounds_2d,
                        index,
                        col,
                    ) {
                        Ok(p) => Ok(elems[p as int]),
                        Err(f) => Err(index_fault_text(f, name, lower_bound, bounds_2d, index, col)),
                    },
                    _ => Err((msg_not_an_array(name), None)),
                }
            },
        }
    }

    /// What `set_array_element` does for `name`, `index`, `col` and `value`:
    /// the new heap, or the error.
    pub open spec fn element_update(
        self,
        name: Seq<char>,
        index: usize,
        col: Option<usize>,
        value: ValueV,
    ) -> Result<Map<usize, ValueV>, (Seq<char>, Option<Seq<char>>)> {
        match self.stored_scope(name) {
            None => Err((msg_not_found(name), None)),
            Some(i) => {
                let a = self.scopes[i].bindings[name];
                match self.heap[a] {
                    ValueV::Array { elems, lower_bound, bounds_2d } => match flat_position(
                        elems.len(),
                        lower_bound,
                        bounds_2d,
                        index,
                        col,
                    ) {
                        Ok(p) => Ok(
                            self.heap.insert(
                                a,
                                ValueV::Array { elems: elems.update(p as int, value), lower_bound, bounds_2d },
                            ),
                        ),
                        Err(f) => Err(index_fault_text(f, name, lower_bound, bounds_2d, index, col)),
                    },
                    _ => Err((msg_not_an_array(name), None)),
                }
            },
        }
    }
}

/// The error with this message and hint.
fn error_from(text: (String, Option<String>)) -> (e: CPSError)
    ensures
        is_runtime_error(e, text.0@),
        match text.1 {
            Some(h) => e.hint matches Some(eh) && eh@ == h@,
            None => e.hint is None,
        },
{
    let (m, h) = text;
    match h {
        Some(h) => CPSError::runtime_with_hint(m, h),
        None => CPSError::runtime(m),
    }
}

/// Where an element sits (see `flat_position`).
pub fn locate(len: usize, lower: usize, b2d: Option<(usize, usize)>, index: usize, col: Option<usize>) -> (r: Result<
    usize,
    IndexFault,
>)
    ensures
        r == flat_position(len as nat, lower, b2d, index, col),
{
    if index < lower {
        return Err(IndexFault::BelowLower);
    }
    match b2d {
        Some((cl, cu)) => match col {
            None => Err(IndexFault::MissingColumn),
            Some(c) => {
                if c < cl {
                    return Err(IndexFault::ColumnBelow);
                }
                let cols = cu.wrapping_sub(cl).wrapping_add(1);
                if c - cl >= cols {
                    return Err(IndexFault::ColumnBeyond);
                }
                match (index - lower).checked_mul(cols) {
                    None => Err(IndexFault::OutOfBounds),
                    Some(row_start) => match row_start.checked_add(c - cl) {
                        None => Err(IndexFault::OutOfBounds),
                        Some(flat) => {
                            if flat >= len {
                                Err(IndexFault::OutOfBounds)
                            } else {
                                Ok(flat)
                            }
                        },
                    },
                }
            },
        },
        None => {
            if index - lower >= len {
                Err(IndexFault::OutOfBounds)
            } else {
                Ok(index - lower)
            }
        },
    }
}

/// The message and hint for an index fault (see `index_fault_text`).
fn index_fault_error(
    f: IndexFault,
    name: &str,
    lower: usize,
    b2d: Option<(usize, usize)>,
    index: usize,
    col: Option<usize>,
) -> (e: CPSError)
    requires
        f is ColumnBelow || f is ColumnBeyond ==> col is Some && b2d is Some,
    ensures
        is_error_text(e, index_fault_text(f, name@, lower, b2d, index, col)),
{
    let text: (String, Option<String>) = match f {
        IndexFault::BelowLower => {
            let i = usize_to_string(index);
            let l = usize_to_string(lower);
            let mut m = String::from_str("Array index ");
            m.append(i.as_str());
            m.append(" is below lower bound ");
            m.append(l.as_str());
            m.append(" for '");
            m.append(name);
            m.append("'");
            let mut h = String::from_str("Valid indices start from ");
            h.append(l.as_str());
            (m, Some(h))
        },
        IndexFault::MissingColumn => (
            concat3("Missing column index for 2D array '", name, "'"),
            Some(String::from_str("2D arrays require both row and column indices")),
        ),
        IndexFault::ColumnBelow => {
            let c = usize_to_string(col.unwrap());
            let l = usize_to_string(b2d.unwrap().0);
            let mut m = String::from_str("Column index ");
            m.append(c.as_str());
            m.append(" is below lower bound ");
            m.append(l.as_str());
            m.append(" for '");
            m.append(name);
            m.append("'");
            let mut h = String::from_str("Valid column indices start from ");
            h.append(l.as_str());
            (m, Some(h))
        },
        IndexFault::ColumnBeyond => {
            let c = usize_to_string(col.unwrap());
            let l = usize_to_string(b2d.unwrap().0);
            let u = usize_to_string(b2d.unwrap().1);
            let mut m = String::from_str("Column index ");
            m.append(c.as_str());
            m.append(" is out of bounds for '");
            m.append(name);
            m.append("'");
            let mut h = String::from_str("Valid column indices range from ");
            h.append(l.as_str());
            h.append(" to ");
            h.append(u.as_str());
            (m, Some(h))
        },
        IndexFault::OutOfBounds => (concat3("Array index out of bounds for '", name, "'"), None),
    };
    error_from(text)
}

/// The message and hint for a stored value whose type cannot be given.
fn type_fault_error(f: TypeFault, name: &str) -> (e: CPSError)
    ensures
        is_error_text(e, type_fault_text(f, name@)),
{
    let text: (String, Option<String>) = match f {
        TypeFault::NoColumns => (concat3("Array '", name, "' has no columns"), None),
        TypeFault::EmptyArray => (
            concat3("Cannot determine base type of empty array '", name, "'"),
            Some(String::from_str("Consider initializing the array with a default value.")),
        ),
        _ => (concat3("Nested arrays are not supported for '", name, "'"), None),
    };
    error_from(text)
}

/// The text that a file receives for a value, where it is not a real:
/// integers, strings, booleans and characters; other values cannot be written.
pub open spec fn plain_text(v: ValueV) -> Option<Seq<char>> {
    match v {
        ValueV::Integer(i) => Some(int_text(i as int)),
        ValueV::Str(s) => Some(s),
        ValueV::Boolean(b) => Some(bool_text(b)),
        ValueV::Char(c) => Some(seq![c]),
        _ => None,
    }
}

/// The name of a file mode, as `{:?}` writes it.
pub open spec fn mode_text(m: FileMode) -> Seq<char> {
    match m {
        FileMode::Read => "Read"@,
        FileMode::Write => "Write"@,
        FileMode::Append => "Append"@,
    }
}

pub open spec fn msg_file_not_open(name: Seq<char>) -> Seq<char> {
    "File '"@ + name + "' is not open"@
}

impl EnvView {
    /// The innermost scope that has file `name` open.
    pub open spec fn file_scope(self, name: Seq<char>) -> Option<int> {
        innermost(self.scopes, self.scopes.len() as int, |s: ScopeView| s.files.contains_key(name))
    }

    /// The record of open file `name`, from the innermost scope that has it open.
    pub open spec fn file(self, name: Seq<char>) -> Option<OpenFileView> {
        match self.file_scope(name) {
            Some(i) => Some(self.scopes[i].files[name]),
            None => None,
        }
    }

    /// The model with file `name` of scope `i` recorded as `f`.
    pub open spec fn with_file(self, i: int, name: Seq<char>, f: OpenFileView) -> EnvView {
        EnvView {
            scopes: self.scopes.update(i, ScopeView { files: self.scopes[i].files.insert(name, f), ..self.scopes[i] }),
            heap: self.heap,
        }
    }

    /// The model with file `name` of scope `i` closed.
    pub open spec fn without_file(self, i: int, name: Seq<char>) -> EnvView {
        EnvView {
            scopes: self.scopes.update(i, ScopeView { files: self.scopes[i].files.remove(name), ..self.scopes[i] }),
            heap: self.heap,
        }
    }

    /// The record of a file just opened with this mode and, in read mode, these contents.
    pub open spec fn opened(mode: FileMode, contents: Seq<char>) -> OpenFileView {
        OpenFileView {
            mode,
            lines: if mode == FileMode::Read {
                Some(lines_of(contents))
            } else {
                None
            },
            line_idx: 0,
            pending: if mode == FileMode::Read {
                None
            } else {
                Some(Seq::empty())
            },
        }
    }
}

/// A scope prepared for a call but not entered yet.
#[derive(Debug)]
pub struct PendingScope {
    scope: Scope,
}

impl PendingScope {
    pub closed spec fn wf(&self) -> bool {
        scope_wf(self.scope)
    }
}

impl View for PendingScope {
    type V = ScopeView;

    closed spec fn view(&self) -> ScopeView {
        scope_view(self.scope)
    }
}

/// The variables, constants and open files of a running program.
#[derive(Debug)]
pub struct Environment {
    scopes: Vec<Scope>,
    heap: HashMap<usize, Value>,
}

impl View for Environment {
    type V = EnvView;

    closed spec fn view(&self) -> EnvView {
        EnvView {
            scopes: Seq::new(self.scopes@.len(), |i: int| scope_view(self.scopes@[i])),
            heap: self.heap@.map_values(|v: Value| v@),
        }
    }
}

impl Environment {
    /// The environment is well formed: it has a scope, and no scope binds,
    /// holds constant or opens a name twice.
    pub closed spec fn wf(&self) -> bool {
        &&& self.scopes@.len() >= 1
        &&& forall|i: int| 0 <= i < self.scopes@.len() ==> scope_wf(#[trigger] self.scopes@[i])
    }

    /// A well-formed environment has a top scope.
    pub proof fn lemma_has_top_scope(&self)
        requires
            self.wf(),
        ensures
            self@.scopes.len() >= 1,
    {
    }

    /// The environment of a program before it runs: one empty scope and an empty heap.
    pub fn new_global() -> (env: Environment)
        ensures
            env.wf(),
            env@.scopes.len() == 1,
            env@.top().bindings == Map::<Seq<char>, usize>::empty(),
            env@.top().files == Map::<Seq<char>, OpenFileView>::empty(),
            env@.top().constants == Set::<Seq<char>>::empty(),
            env@.top().next_address == 0,
            env@.heap == Map::<usize, ValueV>::empty(),
    {
        let mut scopes: Vec<Scope> = Vec::new();
        scopes.push(Scope {
            bindings: NameMap::new(),
            open_files: NameMap::new(),
            constants: NameMap::new(),
            next_address: 0,
        });
        let env = Environment { scopes, heap: HashMap::new() };
        proof {
            assert(env@.top().files =~= Map::<Seq<char>, OpenFileView>::empty());
            assert(env@.top().constants =~= Set::<Seq<char>>::empty());
            assert(env@.heap =~= Map::<usize, ValueV>::empty());
        }
        env
    }

    /// An environment whose top scope is a new, empty child of `parent`'s top
    /// scope; the child hands out addresses from where the parent left off
    /// and shares the parent's heap.
    pub fn new_child(parent: Environment) -> (env: Environment)
        requires
            parent.wf(),
        ensures
            env.wf(),
            env@.scopes == parent@.scopes.push(
                ScopeView {
                    bindings: Map::empty(),
                    files: Map::empty(),
                    constants: Set::empty(),
                    next_address: parent@.top().next_address,
                },
            ),
            env@.heap == parent@.heap,
    {
        let mut env = parent;
        env.push_scope();
        env
    }

    /// Enters a new, empty child scope of the top scope.
    pub fn push_scope(&mut self)
        requires
            old(self).wf(),
        ensures
            final(self).wf(),
            final(self)@.scopes == old(self)@.scopes.push(
                ScopeView {
                    bindings: Map::empty(),
                    files: Map::empty(),
                    constants: Set::empty(),
                    next_address: old(self)@.top().next_address,
                },
            ),
            final(self)@.heap == old(self)@.heap,
    {
        let n = self.scopes.len();
        let next = self.scopes[n - 1].next_address;
        self.scopes.push(Scope {
            bindings: NameMap::new(),
            open_files: NameMap::new(),
            constants: NameMap::new(),
            next_address: next,
        });
        proof {
            let s = final(self)@.scopes;
            let t = old(self)@.scopes.push(
                ScopeView {
                    bindings: Map::empty(),
                    files: Map::empty(),
                    constants: Set::empty(),
                    next_address: old(self)@.top().next_address,
                },
            );
            assert(s[n as int].files =~= Map::<Seq<char>, OpenFileView>::empty());
            assert(s[n as int].constants =~= Set::<Seq<char>>::empty());
            assert(s =~= t);
        }
    }

    /// Leaves the top scope, dropping what it bound, held constant and opened.
    pub fn pop_scope(&mut self)
        requires
            old(self).wf(),
            old(self)@.scopes.len() >= 2,
        ensures
            final(self).wf(),
            final(self)@.scopes == old(self)@.scopes.drop_last(),
            final(self)@.heap == old(self)@.heap,
    {
        self.scopes.pop();
        proof {
            assert(final(self)@.scopes =~= old(self)@.scopes.drop_last());
        }
    }

    /// The number of scopes.
    pub fn depth(&self) -> (n: usize)
        ensures
            n == self@.scopes.len(),
    {
        self.scopes.len()
    }

    /// The innermost scope that binds `name`.
    fn binding_scope(&self, name: &String) -> (r: Option<usize>)
        requires
            self.wf(),
        ensures
            match r {
                Some(i) => self@.binding_scope(name@) == Some(i as int),
                None => self@.binding_scope(name@) is None,
            },
            r matches Some(i) ==> i < self.scopes@.len() && self@.scopes[i as int].bindings.contains_key(name@),
    {
        proof {
            lemma_innermost(self@.scopes, self@.scopes.len() as int, EnvView::binds(name@));
        }
        let ghost v = self@;
        let ghost p = EnvView::binds(name@);
        let mut i = self.scopes.len();
        while i > 0
            invariant
                v == self@,
                p == EnvView::binds(name@),
                i <= self.scopes@.len(),
                self.wf(),
                innermost(v.scopes, v.scopes.len() as int, p) == innermost(v.scopes, i as int, p),
            decreases i,
        {
            assert(scope_wf(self.scopes@[i - 1]));
            if self.scopes[i - 1].bindings.contains_key(name) {
                return Some(i - 1);
            }
            i = i - 1;
        }
        None
    }

    /// Whether some scope holds `name` constant.
    fn constant_anywhere(&self, name: &String) -> (r: bool)
        requires
            self.wf(),
        ensures
            r == self@.is_constant(name@),
    {
        let mut i: usize = 0;
        while i < self.scopes.len()
            invariant
                self.wf(),
                i <= self.scopes@.len(),
                forall|j: int| 0 <= j < i ==> !(#[trigger] self@.scopes[j]).constants.contains(name@),
            decreases self.scopes@.len() - i,
        {
            assert(scope_wf(self.scopes@[i as int]));
            if self.scopes[i].constants.contains_key(name) {
                assert(self@.scopes[i as int].constants.contains(name@));
                return true;
            }
            i = i + 1;
        }
        false
    }

    /// The value of `name`, looked up from the top scope outward. A name bound
    /// to an address that holds nothing has no value, whatever outer scopes bind.
    pub fn get(&self, name: &str) -> (r: Option<Value>)
        requires
            self.wf(),
        ensures
            opt_value_view(r) == self@.lookup(name@),
    {
        let key = String::from_str(name);
        match self.binding_scope(&key) {
            Some(i) => {
                assert(scope_wf(self.scopes@[i as int]));
                let addr = *self.scopes[i].bindings.get(&key).unwrap();
                match self.heap.get(&addr) {
                    Some(v) => Some(v.duplicate()),
                    None => None,
                }
            },
            None => None,
        }
    }

    /// Whether `name` is held constant by some scope.
    pub fn is_constant(&self, name: &str) -> (r: bool)
        requires
            self.wf(),
        ensures
            r == self@.is_constant(name@),
    {
        let key = String::from_str(name);
        self.constant_anywhere(&key)
    }

    /// Stores `value` at the address of `name`. Fails, changing nothing, when
    /// `name` is held constant or bound by no scope.
    pub fn set(&mut self, name: &str, value: Value) -> (r: Result<(), CPSError>)
        requires
            old(self).wf(),
        ensures
            final(self).wf(),
            old(self)@.is_constant(name@) ==> {
                &&& r matches Err(e) && is_runtime_error(e, msg_cannot_modify_constant(name@))
                    && e.hint is None
                &&& final(self)@ == old(self)@
            },
            !old(self)@.is_constant(name@) && old(self)@.address_of(name@) is None ==> {
                &&& r matches Err(e) && is_runtime_error(e, msg_undefined_variable(name@))
                    && (e.hint matches Some(h) && h@ == hint_declare_before_use())
                &&& final(self)@ == old(self)@
            },
            !old(self)@.is_constant(name@) ==> (old(self)@.address_of(name@) matches Some(a) ==> {
                &&& r is Ok
                &&& final(self)@.scopes == old(self)@.scopes
                &&& final(self)@.heap == old(self)@.heap.insert(a, value@)
            }),
    {
        let key = String::from_str(name);
        if self.constant_anywhere(&key) {
            return Err(CPSError::runtime(concat3("Cannot modify constant '", name, "'")));
        }
        match self.binding_scope(&key) {
            Some(i) => {
                assert(scope_wf(self.scopes@[i as int]));
                let addr = *self.scopes[i].bindings.get(&key).unwrap();
                let ghost vv = value@;
                self.heap.insert(addr, value);
                proof {
                    assert(final(self)@.heap =~= old(self)@.heap.insert(addr, vv));
                }
                Ok(())
            },
            None => Err(
                CPSError::runtime_with_hint(
                    concat3("Undefined variable '", name, "'"),
                    String::from_str("Check if the variable is declared before use."),
                ),
            ),
        }
    }

    /// Binds `name` in the top scope to the next free address, which then
    /// holds `value`. Fails, changing nothing, when the top scope holds `name`
    /// constant.
    pub fn define(&mut self, name: String, value: Value) -> (r: Result<(), CPSError>)
        requires
            old(self).wf(),
        ensures
            final(self).wf(),
            old(self)@.top().constants.contains(name@) ==> {
                &&& r matches Err(e) && is_runtime_error(e, msg_cannot_redefine_constant(name@))
                    && e.hint is None
                &&& final(self)@ == old(self)@
            },
            !old(self)@.top().constants.contains(name@) ==> {
                &&& r is Ok
                &&& final(self)@ == old(self)@.defined(name@, value@)
            },
    {
        let n = self.scopes.len();
        assert(scope_wf(self.scopes@[n - 1]));
        if self.scopes[n - 1].constants.contains_key(&name) {
            return Err(CPSError::runtime(concat3("Cannot redefine constant '", name.as_str(), "'")));
        }
        let ghost nv = name@;
        let ghost vv = value@;
        let ghost old_view = self@;
        let addr = self.scopes[n - 1].next_address;
        self.heap.insert(addr, value);
        let mut top = self.scopes.pop().unwrap();
        top.bindings.insert(name, addr);
        top.next_address = addr.wrapping_add(1);
        self.scopes.push(top);
        proof {
            let s = final(self)@;
            let t = old_view.defined(nv, vv);
            assert forall|i: int| 0 <= i < self.scopes@.len() implies scope_wf(#[trigger] self.scopes@[i]) by {
                if i < n - 1 {
                    assert(self.scopes@[i] == old(self).scopes@[i]);
                }
            }
            assert(s.scopes[n - 1].files =~= t.scopes[n - 1].files);
            assert(s.scopes =~= t.scopes);
            assert(s.heap =~= t.heap);
        }
        Ok(())
    }

    /// Defines `name` in the top scope as `value` and holds it constant there.
    /// Fails, changing nothing, when the top scope already holds it constant.
    pub fn declare_constant(&mut self, name: &str, value: &Value) -> (r: Result<(), CPSError>)
        requires
            old(self).wf(),
        ensures
            final(self).wf(),
            old(self)@.top().constants.contains(name@) ==> {
                &&& r matches Err(e) && is_runtime_error(e, msg_constant_already_declared(name@))
                    && e.hint is None
                &&& final(self)@ == old(self)@
            },
            !old(self)@.top().constants.contains(name@) ==> {
                let d = old(self)@.defined(name@, value@);
                &&& r is Ok
                &&& final(self)@ == d.with_top(ScopeView { constants: d.top().constants.insert(name@), ..d.top() })
            },
    {
        let key = String::from_str(name);
        let n = self.scopes.len();
        assert(scope_wf(self.scopes@[n - 1]));
        if self.scopes[n - 1].constants.contains_key(&key) {
            return Err(CPSError::runtime(concat3("Constant '", name, "' is already declared")));
        }
        let r = self.define(String::from_str(name), value.duplicate());
        let ghost mid = self@;
        let ghost mid_scopes = self.scopes@;
        let mut top = self.scopes.pop().unwrap();
        top.constants.insert(key, ());
        self.scopes.push(top);
        proof {
            let s = final(self)@;
            let d = mid;
            let t = d.with_top(ScopeView { constants: d.top().constants.insert(name@), ..d.top() });
            assert forall|i: int| 0 <= i < self.scopes@.len() implies scope_wf(#[trigger] self.scopes@[i]) by {
                if i < n - 1 {
                    assert(self.scopes@[i] == mid_scopes[i]);
                }
            }
            assert(s.scopes[n - 1].files =~= t.scopes[n - 1].files);
            assert(s.scopes[n - 1].constants =~= t.scopes[n - 1].constants);
            assert(s.scopes =~= t.scopes);
            assert(s.heap =~= t.heap);
        }
        r
    }

    /// Binds `name` in the top scope to `address`, without storing anything.
    /// Fails, changing nothing, when the top scope holds `name` constant.
    pub fn set_variable_at_address(&mut self, name: String, address: usize) -> (r: Result<(), CPSError>)
        requires
            old(self).wf(),
        ensures
            final(self).wf(),
            old(self)@.top().constants.contains(name@) ==> {
                &&& r matches Err(e) && is_runtime_error(e, msg_cannot_redefine_constant(name@))
                    && e.hint is None
                &&& final(self)@ == old(self)@
            },
            !old(self)@.top().constants.contains(name@) ==> {
                &&& r is Ok
                &&& final(self)@ == old(self)@.with_top(
                    ScopeView { bindings: old(self)@.top().bindings.insert(name@, address), ..old(self)@.top() },
                )
            },
    {
        let n = self.scopes.len();
        assert(scope_wf(self.scopes@[n - 1]));
        if self.scopes[n - 1].constants.contains_key(&name) {
            return Err(CPSError::runtime(concat3("Cannot redefine constant '", name.as_str(), "'")));
        }
        let ghost nv = name@;
        let mut top = self.scopes.pop().unwrap();
        top.bindings.insert(name, address);
        self.scopes.push(top);
        proof {
            let s = final(self)@;
            let o = old(self)@;
            let t = o.with_top(ScopeView { bindings: o.top().bindings.insert(nv, address), ..o.top() });
            assert forall|i: int| 0 <= i < self.scopes@.len() implies scope_wf(#[trigger] self.scopes@[i]) by {
                if i < n - 1 {
                    assert(self.scopes@[i] == old(self).scopes@[i]);
                }
            }
            assert(s.scopes[n - 1].files =~= t.scopes[n - 1].files);
            assert(s.scopes =~= t.scopes);
            assert(s.heap =~= t.heap);
        }
        Ok(())
    }

    /// The type of the value of `name`, as the value itself shows it: an
    /// array's bounds become integer literals and its base type is that of its
    /// first element.
    pub fn get_type(&self, name: &str) -> (r: Result<Type, CPSError>)
        requires
            self.wf(),
        ensures
            match (r, self@.type_result(name@)) {
                (Ok(t), Ok(u)) => t == u,
                (Err(e), Err(text)) => is_error_text(e, text),
                _ => false,
            },
    {
        let key = String::from_str(name);
        match self.binding_scope(&key) {
            Some(i) => {
                assert(scope_wf(self.scopes@[i as int]));
                let addr = *self.scopes[i].bindings.get(&key).unwrap();
                match self.heap.get(&addr) {
                    Some(v) => match type_of_stored(v) {
                        Ok(t) => Ok(t),
                        Err(f) => Err(type_fault_error(f, name)),
                    },
                    None => Err(CPSError::runtime(concat3("Variable '", name, "' not found in memory"))),
                }
            },
            None => Err(
                CPSError::runtime_with_hint(
                    concat3("Undefined variable '", name, "'"),
                    String::from_str("Check if the variable is declared before use."),
                ),
            ),
        }
    }

    /// Element `index` (and column `col`) of the array that `name` holds.
    pub fn get_array_element(&self, name: &str, index: usize, col: Option<usize>) -> (r: Result<
        Value,
        CPSError,
    >)
        requires
            self.wf(),
        ensures
            match (r, self@.element_result(name@, index, col)) {
                (Ok(v), Ok(w)) => v@ == w,
                (Err(e), Err(text)) => is_error_text(e, text),
                _ => false,
            },
    {
        let key = String::from_str(name);
        match self.binding_scope(&key) {
            Some(i) => {
                assert(scope_wf(self.scopes@[i as int]));
                let addr = *self.scopes[i].bindings.get(&key).unwrap();
                match self.heap.get(&addr) {
                    Some(v) => match v {
                        Value::Array { array, lower_bound, bounds_2d } => {
                            match locate(array.len(), *lower_bound, *bounds_2d, index, col) {
                                Ok(p) => {
                                    assert(v@->elems[p as int] == array@[p as int]@);
                                    Ok(array[p].duplicate())
                                },
                                Err(f) => Err(index_fault_error(f, name, *lower_bound, *bounds_2d, index, col)),
                            }
                        },
                        _ => Err(CPSError::runtime(concat3("Variable '", name, "' is not an array"))),
                    },
                    None => Err(CPSError::runtime(concat3("Variable '", name, "' not found in memory"))),
                }
            },
            None => Err(CPSError::runtime(concat3("Variable '", name, "' not found"))),
        }
    }

    /// Stores `value` as element `index` (and column `col`) of the array that
    /// `name` holds, in the innermost scope that binds `name` to a stored value.
    /// Fails, changing nothing, when that element cannot be reached.
    pub fn set_array_element(&mut self, name: &str, index: usize, col: Option<usize>, value: Value) -> (r: Result<
        (),
        CPSError,
    >)
        requires
            old(self).wf(),
        ensures
            final(self).wf(),
            match (r, old(self)@.element_update(name@, index, col, value@)) {
                (Ok(_), Ok(h)) => final(self)@.heap == h && final(self)@.scopes == old(self)@.scopes,
                (Err(e), Err(text)) => is_error_text(e, text) && final(self)@ == old(self)@,
                _ => false,
            },
    {
        let key = String::from_str(name);
        let ghost v = self@;
        let ghost p = |s: ScopeView| s.bindings.contains_key(name@) && v.heap.contains_key(s.bindings[name@]);
        proof {
            lemma_innermost(v.scopes, v.scopes.len() as int, p);
        }
        let mut i = self.scopes.len();
        let mut found: Option<(usize, usize)> = None;
        while i > 0
            invariant_except_break
                found is None,
            invariant
                v == self@,
                *self == *old(self),
                p == (|s: ScopeView| s.bindings.contains_key(name@) && v.heap.contains_key(s.bindings[name@])),
                i <= self.scopes@.len(),
                self.wf(),
                key@ == name@,
                innermost(v.scopes, v.scopes.len() as int, p) == innermost(v.scopes, i as int, p),
            ensures
                match found {
                    Some((j, a)) => innermost(v.scopes, v.scopes.len() as int, p) == Some(j as int)
                        && a == v.scopes[j as int].bindings[name@] && v.heap.contains_key(a),
                    None => innermost(v.scopes, v.scopes.len() as int, p) is None,
                },
            decreases i,
        {
            assert(scope_wf(self.scopes@[i - 1]));
            if let Some(a) = self.scopes[i - 1].bindings.get(&key) {
                let a = *a;
                if self.heap.contains_key(&a) {
                    found = Some((i - 1, a));
                    break;
                }
            }
            i = i - 1;
        }
        match found {
            None => Err(CPSError::runtime(concat3("Variable '", name, "' not found"))),
            Some((_, addr)) => {
                let current = self.heap.remove(&addr).unwrap();
                let ghost cv = current@;
                match current {
                    Value::Array { mut array, lower_bound, bounds_2d } => {
                        match locate(array.len(), lower_bound, bounds_2d, index, col) {
                            Ok(pos) => {
                                let ghost vv = value@;
                                array.set(pos, value);
                                let updated = Value::Array { array, lower_bound, bounds_2d };
                                proof {
                                    assert(updated@->elems =~= cv->elems.update(pos as int, vv));
                                }
                                self.heap.insert(addr, updated);
                                proof {
                                    assert(self@.heap =~= v.heap.insert(addr, updated@));
                                    assert(self@.scopes =~= v.scopes);
                                }
                                Ok(())
                            },
                            Err(f) => {
                                let restored = Value::Array { array, lower_bound, bounds_2d };
                                assert(restored@ == cv);
                                self.heap.insert(addr, restored);
                                proof {
                                    assert(self@.heap =~= v.heap);
                                    assert(self@.scopes =~= v.scopes);
                                }
                                Err(index_fault_error(f, name, lower_bound, bounds_2d, index, col))
                            },
                        }
                    },
                    other => {
                        self.heap.insert(addr, other);
                        proof {
                            assert(self@.heap =~= v.heap);
                            assert(self@.scopes =~= v.scopes);
                        }
                        Err(CPSError::runtime(concat3("Variable '", name, "' is not an array")))
                    },
                }
            },
        }
    }

    fn take_scope(&mut self, i: usize) -> (sc: Scope)
        requires
            i < old(self).scopes@.len(),
        ensures
            final(self).scopes@ == old(self).scopes@.remove(i as int),
            final(self).heap == old(self).heap,
            sc == old(self).scopes@[i as int],
    {
        self.scopes.remove(i)
    }

    fn put_scope(&mut self, i: usize, sc: Scope)
        requires
            i <= old(self).scopes@.len(),
        ensures
            final(self).scopes@ == old(self).scopes@.insert(i as int, sc),
            final(self).heap == old(self).heap,
    {
        self.scopes.insert(i, sc);
    }

    /// The innermost scope that has file `name` open.
    fn file_scope(&self, name: &String) -> (r: Option<usize>)
        requires
            self.wf(),
        ensures
            match r {
                Some(i) => self@.file_scope(name@) == Some(i as int) && i < self.scopes@.len()
                    && self@.scopes[i as int].files.contains_key(name@),
                None => self@.file_scope(name@) is None,
            },
    {
        let ghost v = self@;
        let ghost p = |s: ScopeView| s.files.contains_key(name@);
        proof {
            lemma_innermost(v.scopes, v.scopes.len() as int, p);
        }
        let mut i = self.scopes.len();
        while i > 0
            invariant
                v == self@,
                p == (|s: ScopeView| s.files.contains_key(name@)),
                i <= self.scopes@.len(),
                self.wf(),
                innermost(v.scopes, v.scopes.len() as int, p) == innermost(v.scopes, i as int, p),
            decreases i,
        {
            assert(scope_wf(self.scopes@[i - 1]));
            if self.scopes[i - 1].open_files.contains_key(name) {
                assert(self@.scopes[i - 1].files.contains_key(name@));
                return Some(i - 1);
            }
            assert(!self@.scopes[i - 1].files.contains_key(name@));
            i = i - 1;
        }
        None
    }

    /// Whether some scope has file `name` open; the same file cannot be opened twice.
    pub fn is_file_open_conflicting(&self, name: &str, requested_mode: &FileMode) -> (r: bool)
        requires
            self.wf(),
        ensures
            r == (self@.file_scope(name@) is Some),
    {
        let key = String::from_str(name);
        self.file_scope(&key).is_some()
    }

    /// Records file `name` as open in the top scope with `mode`; in read mode
    /// its lines are those of `contents`, which the embedding read from the
    /// file, and in write and append mode nothing is written yet. Fails,
    /// changing nothing, when some scope has the file open.
    pub fn openfile(&mut self, name: &str, mode: &FileMode, contents: &str) -> (r: Result<(), CPSError>)
        requires
            old(self).wf(),
        ensures
            final(self).wf(),
            old(self)@.file_scope(name@) is Some ==> {
                &&& r matches Err(e) && is_runtime_error(e, "Cannot open file '"@ + name@ + "': file is already open"@)
                    && e.hint is None
                &&& final(self)@ == old(self)@
            },
            old(self)@.file_scope(name@) is None ==> {
                &&& r is Ok
                &&& final(self)@ == old(self)@.with_file(
                    old(self)@.scopes.len() - 1,
                    name@,
                    EnvView::opened(*mode, contents@),
                )
            },
    {
        let key = String::from_str(name);
        if self.file_scope(&key).is_some() {
            return Err(CPSError::runtime(concat3("Cannot open file '", name, "': file is already open")));
        }
        let record = match mode {
            FileMode::Read => {
                let r = OpenFile { mode: *mode, lines: Some(split_lines(contents)), line_idx: 0, pending: None };
                assert(r@ == EnvView::opened(*mode, contents@));
                r
            },
            _ => {
                let r = OpenFile { mode: *mode, lines: None, line_idx: 0, pending: Some(Vec::new()) };
                assert(lines_view(r.pending) =~= Some(Seq::<Seq<char>>::empty()));
                assert(r@ == EnvView::opened(*mode, contents@));
                r
            },
        };
        let ghost rv = record@;
        let n = self.scopes.len();
        let ghost v = self@;
        let mut sc = self.take_scope(n - 1);
        assert(scope_wf(sc));
        sc.open_files.insert(key, record);
        self.put_scope(n - 1, sc);
        proof {
            let t = v.with_file(n - 1, name@, rv);
            assert forall|i: int| 0 <= i < self.scopes@.len() implies scope_wf(#[trigger] self.scopes@[i]) by {
                if i < n - 1 {
                    assert(self.scopes@[i] == old(self).scopes@[i]);
                }
            }
            assert(self@.scopes[n - 1].files =~= t.scopes[n - 1].files);
            assert(self@.scopes =~= t.scopes);
            assert(self@.heap =~= t.heap);
        }
        Ok(())
    }

    /// Closes file `name` in the innermost scope that has it open, and hands
    /// back its record, whose pending lines the embedding then stores. Fails,
    /// changing nothing, when no scope has it open.
    pub fn closefile(&mut self, name: &str) -> (r: Result<OpenFile, CPSError>)
        requires
            old(self).wf(),
        ensures
            final(self).wf(),
            match old(self)@.file_scope(name@) {
                Some(i) => r matches Ok(f) && f@ == old(self)@.scopes[i].files[name@]
                    && final(self)@ == old(self)@.without_file(i, name@),
                None => r matches Err(e) && is_runtime_error(e, "Cannot close file '"@ + name@ + "': file is not open"@)
                    && e.hint is None && final(self)@ == old(self)@,
            },
    {
        let key = String::from_str(name);
        match self.file_scope(&key) {
            None => Err(CPSError::runtime(concat3("Cannot close file '", name, "': file is not open"))),
            Some(i) => {
                let ghost v = self@;
                let mut sc = self.take_scope(i);
                assert(scope_wf(sc));
                let f = sc.open_files.remove(&key).unwrap();
                self.put_scope(i, sc);
                proof {
                    let t = v.without_file(i as int, name@);
                    assert forall|j: int| 0 <= j < self.scopes@.len() implies scope_wf(#[trigger] self.scopes@[j]) by {
                        if j != i {
                            assert(self.scopes@[j] == old(self).scopes@[j]);
                        }
                    }
                    assert(self@.scopes[i as int].files =~= t.scopes[i as int].files);
                    assert(self@.scopes =~= t.scopes);
                    assert(self@.heap =~= t.heap);
                }
                Ok(f)
            },
        }
    }

    /// Writes `value` as one line to file `filename`, in the innermost scope
    /// that has it open: the line is kept among the file's pending lines.
    /// Integers, strings, booleans and characters are written as text, and
    /// reals as the host writes them. Fails, changing nothing, when the file is
    /// not open, is open for reading, or the value cannot be written.
    pub fn writefile<H: Host>(&mut self, filename: &str, value: &Value, host: &H) -> (r: Result<(), CPSError>)
        requires
            old(self).wf(),
        ensures
            final(self).wf(),
            match old(self)@.file_scope(filename@) {
                None => r matches Err(e) && is_runtime_error(e, msg_file_not_open(filename@)) && e.hint is None
                    && final(self)@ == old(self)@,
                Some(i) => {
                    let rec = old(self)@.scopes[i].files[filename@];
                    if rec.mode == FileMode::Read {
                        r matches Err(e) && is_runtime_error(
                            e,
                            "Cannot write to file '"@ + filename@ + "': file is opened in read mode"@,
                        ) && e.hint is None && final(self)@ == old(self)@
                    } else if rec.pending is None {
                        r matches Err(e) && is_runtime_error(e, "File '"@ + filename@ + "' is not properly opened"@)
                            && e.hint is None && final(self)@ == old(self)@
                    } else if value@ is Real {
                        r is Ok && exists|line: Seq<char>|
                            final(self)@ == old(self)@.with_file(
                                i,
                                filename@,
                                OpenFileView { pending: Some(rec.pending.unwrap().push(line)), ..rec },
                            )
                    } else {
                        match plain_text(value@) {
                            Some(t) => r is Ok && final(self)@ == old(self)@.with_file(
                                i,
                                filename@,
                                OpenFileView { pending: Some(rec.pending.unwrap().push(t)), ..rec },
                            ),
                            None => r matches Err(e) && is_runtime_error(
                                e,
                                "Unsupported value type for writing to file '"@ + filename@ + "'"@,
                            ) && e.hint is None && final(self)@ == old(self)@,
                        }
                    }
                },
            },
    {
        let key = String::from_str(filename);
        let i = match self.file_scope(&key) {
            None => {
                return Err(CPSError::runtime(concat3("File '", filename, "' is not open")));
            },
            Some(i) => i,
        };
        assert(scope_wf(self.scopes@[i as int]));
        let ghost v = self@;
        let rec_ref = self.scopes[i].open_files.get(&key).unwrap();
        if rec_ref.mode == FileMode::Read {
            return Err(CPSError::runtime(concat3("Cannot write to file '", filename, "': file is opened in read mode")));
        }
        if rec_ref.pending.is_none() {
            return Err(CPSError::runtime(concat3("File '", filename, "' is not properly opened")));
        }
        let line = match value {
            Value::Integer(n) => int_to_string(*n),
            Value::Real(x) => host.real_to_text(*x),
            Value::String(t) => t.clone(),
            Value::Boolean(b) => bool_to_string(*b),
            Value::Char(c) => char_to_string(*c),
            _ => {
                return Err(CPSError::runtime(concat3("Unsupported value type for writing to file '", filename, "'")));
            },
        };
        let ghost lv = line@;
        let mut sc = self.take_scope(i);
        assert(scope_wf(sc));
        let mut rec = sc.open_files.remove(&key).unwrap();
        let ghost rv = rec@;
        let mut pending = rec.pending.unwrap();
        pending.push(line);
        rec.pending = Some(pending);
        let ghost nv = rec@;
        sc.open_files.insert(key, rec);
        self.put_scope(i, sc);
        proof {
            assert(nv.pending =~= Some(rv.pending.unwrap().push(lv)));
            assert(nv == OpenFileView { pending: Some(rv.pending.unwrap().push(lv)), ..rv });
            let t = v.with_file(i as int, filename@, nv);
            assert forall|j: int| 0 <= j < self.scopes@.len() implies scope_wf(#[trigger] self.scopes@[j]) by {
                if j != i {
                    assert(self.scopes@[j] == old(self).scopes@[j]);
                }
            }
            assert(self@.scopes[i as int].files =~= t.scopes[i as int].files);
            assert(self@.scopes =~= t.scopes);
            assert(self@.heap =~= t.heap);
        }
        Ok(())
    }

    /// Reads the next line of file `filename`, in the innermost scope that has
    /// it open. Fails, changing nothing, when the file is not open, is not
    /// open for reading, or has no line left.
    pub fn readfile(&mut self, filename: &str) -> (r: Result<String, CPSError>)
        requires
            old(self).wf(),
        ensures
            final(self).wf(),
            match old(self)@.file_scope(filename@) {
                None => r matches Err(e) && is_runtime_error(e, msg_file_not_open(filename@)) && e.hint is None
                    && final(self)@ == old(self)@,
                Some(i) => {
                    let rec = old(self)@.scopes[i].files[filename@];
                    if rec.mode != FileMode::Read {
                        r matches Err(e) && is_runtime_error(
                            e,
                            "Cannot read from file '"@ + filename@ + "': file is not opened in read mode"@,
                        ) && e.hint is None && final(self)@ == old(self)@
                    } else if rec.lines is None {
                        r matches Err(e) && is_error_text(
                            e,
                            (
                                "File '"@ + filename@ + "' has not been buffered for reading"@,
                                Some("File content should have been loaded on open"@),
                            ),
                        ) && final(self)@ == old(self)@
                    } else if rec.line_idx >= rec.lines.unwrap().len() {
                        r matches Err(e) && is_error_text(
                            e,
                            ("Cannot read past end of file '"@ + filename@ + "'"@, Some("Check EOF before reading"@)),
                        ) && final(self)@ == old(self)@
                    } else {
                        r matches Ok(line) && line@ == rec.lines.unwrap()[rec.line_idx as int]
                            && final(self)@ == old(self)@.with_file(
                            i,
                            filename@,
                            OpenFileView { line_idx: (rec.line_idx + 1) as usize, ..rec },
                        )
                    }
                },
            },
    {
        let key = String::from_str(filename);
        let i = match self.file_scope(&key) {
            None => {
                return Err(CPSError::runtime(concat3("File '", filename, "' is not open")));
            },
            Some(i) => i,
        };
        assert(scope_wf(self.scopes@[i as int]));
        let ghost v = self@;
        let rec_ref = self.scopes[i].open_files.get(&key).unwrap();
        if rec_ref.mode != FileMode::Read {
            return Err(CPSError::runtime(concat3("Cannot read from file '", filename, "': file is not opened in read mode")));
        }
        let line = match &rec_ref.lines {
            None => {
                return Err(
                    CPSError::runtime_with_hint(
                        concat3("File '", filename, "' has not been buffered for reading"),
                        String::from_str("File content should have been loaded on open"),
                    ),
                );
            },
            Some(lines) => {
                if rec_ref.line_idx >= lines.len() {
                    return Err(
                        CPSError::runtime_with_hint(
                            concat3("Cannot read past end of file '", filename, "'"),
                            String::from_str("Check EOF before reading"),
                        ),
                    );
                }
                lines[rec_ref.line_idx].clone()
            },
        };
        let mut sc = self.take_scope(i);
        assert(scope_wf(sc));
        let mut rec = sc.open_files.remove(&key).unwrap();
        let ghost rv = rec@;
        rec.line_idx = rec.line_idx + 1;
        let ghost nv = rec@;
        sc.open_files.insert(key, rec);
        self.put_scope(i, sc);
        proof {
            assert(line@ == rv.lines.unwrap()[rv.line_idx as int]);
            assert(nv == OpenFileView { line_idx: (rv.line_idx + 1) as usize, ..rv });
            let t = v.with_file(i as int, filename@, nv);
            assert forall|j: int| 0 <= j < self.scopes@.len() implies scope_wf(#[trigger] self.scopes@[j]) by {
                if j != i {
                    assert(self.scopes@[j] == old(self).scopes@[j]);
                }
            }
            assert(self@.scopes[i as int].files =~= t.scopes[i as int].files);
            assert(self@.scopes =~= t.scopes);
            assert(self@.heap =~= t.heap);
        }
        Ok(line)
    }

    /// Whether file `filename`, open for reading, has no line left.
    pub fn is_eof(&self, filename: &str) -> (r: Result<bool, CPSError>)
        requires
            self.wf(),
        ensures
            match self@.file_scope(filename@) {
                None => r matches Err(e) && is_error_text(
                    e,
                    (msg_file_not_open(filename@), Some("Make sure to open the file before checking EOF"@)),
                ),
                Some(i) => {
                    let rec = self@.scopes[i].files[filename@];
                    if rec.mode != FileMode::Read {
                        r matches Err(e) && is_runtime_error(
                            e,
                            "EOF can only be used on files opened in READ mode, '"@ + filename@ + "' is in "@
                                + mode_text(rec.mode) + " mode"@,
                        ) && e.hint is None
                    } else if rec.lines is None {
                        r matches Err(e) && is_error_text(
                            e,
                            ("File '"@ + filename@ + "' has not been buffered"@, Some("File content was not loaded on open"@)),
                        )
                    } else {
                        r == Ok::<bool, CPSError>(rec.line_idx >= rec.lines.unwrap().len())
                    }
                },
            },
    {
        let key = String::from_str(filename);
        match self.file_scope(&key) {
            None => Err(
                CPSError::runtime_with_hint(
                    concat3("File '", filename, "' is not open"),
                    String::from_str("Make sure to open the file before checking EOF"),
                ),
            ),
            Some(i) => {
                assert(scope_wf(self.scopes@[i as int]));
                let rec = self.scopes[i].open_files.get(&key).unwrap();
                if rec.mode != FileMode::Read {
                    let mode_name = match rec.mode {
                        FileMode::Read => "Read",
                        FileMode::Write => "Write",
                        FileMode::Append => "Append",
                    };
                    let mut m = String::from_str("EOF can only be used on files opened in READ mode, '");
                    m.append(filename);
                    m.append("' is in ");
                    m.append(mode_name);
                    m.append(" mode");
                    return Err(CPSError::runtime(m));
                }
                match &rec.lines {
                    None => Err(
                        CPSError::runtime_with_hint(
                            concat3("File '", filename, "' has not been buffered"),
                            String::from_str("File content was not loaded on open"),
                        ),
                    ),
                    Some(lines) => Ok(rec.line_idx >= lines.len()),
                }
            },
        }
    }

    /// A new, empty scope for a call that is about to start: it hands out
    /// addresses from where the top scope left off. It is not entered yet,
    /// so names are still looked up in the caller's scopes.
    pub fn pending_child(&self) -> (p: PendingScope)
        requires
            self.wf(),
        ensures
            p.wf(),
            p@ == (ScopeView {
                bindings: Map::empty(),
                files: Map::empty(),
                constants: Set::empty(),
                next_address: self@.top().next_address,
            }),
    {
        let n = self.scopes.len();
        let p = PendingScope {
            scope: Scope {
                bindings: NameMap::new(),
                open_files: NameMap::new(),
                constants: NameMap::new(),
                next_address: self.scopes[n - 1].next_address,
            },
        };
        proof {
            assert(p@.files =~= Map::<Seq<char>, OpenFileView>::empty());
            assert(p@.constants =~= Set::<Seq<char>>::empty());
        }
        p
    }

    /// Binds `name` in a scope not entered yet to its next address, which
    /// then holds `value` in the shared heap. The top scope hands out
    /// addresses from past it from then on, so that a call made before the
    /// scope is entered (one in a later argument) takes none of its
    /// addresses.
    pub fn define_pending(&mut self, pending: &mut PendingScope, name: String, value: Value)
        requires
            old(self).wf(),
            old(pending).wf(),
        ensures
            final(self).wf(),
            final(pending).wf(),
            final(self)@.scopes == old(self)@.scopes.update(
                old(self)@.scopes.len() - 1,
                ScopeView {
                    next_address: vstd::wrapping::usize_specs::wrapping_add(old(pending)@.next_address, 1),
                    ..old(self)@.top()
                },
            ),
            final(self)@.heap == old(self)@.heap.insert(old(pending)@.next_address, value@),
            final(pending)@ == (ScopeView {
                bindings: old(pending)@.bindings.insert(name@, old(pending)@.next_address),
                next_address: vstd::wrapping::usize_specs::wrapping_add(old(pending)@.next_address, 1),
                ..old(pending)@
            }),
    {
        let addr = pending.scope.next_address;
        let ghost vv = value@;
        let ghost old_view = self@;
        self.heap.insert(addr, value);
        pending.scope.bindings.insert(name, addr);
        pending.scope.next_address = addr.wrapping_add(1);
        let n = self.scopes.len();
        assert(scope_wf(self.scopes@[n - 1]));
        let mut top = self.scopes.pop().unwrap();
        top.next_address = addr.wrapping_add(1);
        self.scopes.push(top);
        proof {
            let t = old_view.scopes.update(
                n - 1,
                ScopeView {
                    next_address: vstd::wrapping::usize_specs::wrapping_add(addr, 1),
                    ..old_view.top()
                },
            );
            assert forall|i: int| 0 <= i < self.scopes@.len() implies scope_wf(#[trigger] self.scopes@[i]) by {
                if i < n - 1 {
                    assert(self.scopes@[i] == old(self).scopes@[i]);
                }
            }
            assert(final(self)@.scopes[n - 1].files =~= t[n - 1].files);
            assert(final(self)@.scopes =~= t);
            assert(final(self)@.heap =~= old(self)@.heap.insert(addr, vv));
            assert(final(pending)@.files =~= old(pending)@.files);
        }
    }

    /// Enters a scope prepared with `pending_child`.
    pub fn enter(&mut self, pending: PendingScope)
        requires
            old(self).wf(),
            pending.wf(),
        ensures
            final(self).wf(),
            final(self)@.scopes == old(self)@.scopes.push(pending@),
            final(self)@.heap == old(self)@.heap,
    {
        self.scopes.push(pending.scope);
        proof {
            assert(final(self)@.scopes =~= old(self)@.scopes.push(pending@));
        }
    }

    /// The address that `name` is bound to, looked up from the top scope outward.
    pub fn find_address_of_variable(&self, name: String) -> (r: Option<usize>)
        requires
            self.wf(),
        ensures
            r == self@.address_of(name@),
    {
        match self.binding_scope(&name) {
            Some(i) => {
                assert(scope_wf(self.scopes@[i as int]));
                let a = *self.scopes[i].bindings.get(&name).unwrap();
                assert(self@.binding_scope(name@) == Some(i as int));
                assert(self@.scopes[i as int].bindings == self.scopes@[i as int].bindings@);
                assert(a == self@.scopes[i as int].bindings[name@]);
                Some(a)
            },
            None => None,
        }
    }
}

} // verus!
