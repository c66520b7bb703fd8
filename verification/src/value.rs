//! Runtime values, types and the syntax tree that the evaluator walks.

use std::rc::Rc;
use vstd::prelude::*;

verus! {


/// How a file is opened.
#[derive(Clone, Copy, Debug, PartialEq, Eq, Structural)]
pub enum FileMode {
    Read,
    Write,
    Append,
}

/// How an argument is handed to a parameter.
#[derive(Clone, Copy, Debug, PartialEq, Eq, Structural)]
pub enum PassingValue {
    ByVal,
    ByRef,
}

/// The binary operators of the language.
#[derive(Clone, Copy, Debug, PartialEq, Eq, Structural)]
pub enum TokenType {
    Plus,
    Minus,
    Asterisk,
    ForwardSlash,
    Div,
    Mod,
    Caret,
    Ampersand,
    Equal,
    NotEqual,
    LessThan,
    LessEqual,
    GreaterThan,
    GreaterEqual,
    And,
    Or,
}

/// The declared type of a variable.
#[derive(Debug)]
pub enum Type {
    Integer,
    Real,
    String,
    Boolean,
    Char,
    Function,
    Array(ArrayType),
}

/// An array type: bounds are expressions, evaluated when the array is declared.
#[derive(Debug)]
pub struct ArrayType {
    pub lower_bound: Box<Expr>,
    pub upper_bound: Box<Expr>,
    pub bounds_2d: Option<(Box<Expr>, Box<Expr>)>,
    pub base_type: Box<Type>,
}

/// A runtime value. A real number is held as the bit pattern of an IEEE-754
/// double; its arithmetic is supplied by the embedding (see `host`).
#[derive(Debug)]
pub enum Value {
    Integer(i64),
    Real(u64),
    String(String),
    Boolean(bool),
    Char(char),
    Array { array: Vec<Value>, lower_bound: usize, bounds_2d: Option<(usize, usize)> },
    Identifier(String),
    Function(Rc<Function>),
}

/// A user-defined procedure (no return type) or function.
#[derive(Debug)]
pub struct Function {
    pub parameters: Vec<(String, Type, PassingValue)>,
    pub return_type: Option<Type>,
    pub body: BlockStmt,
}

/// A sequence of statements.
#[derive(Debug)]
pub struct BlockStmt {
    pub statements: Vec<Stmt>,
}

/// A binary operation; its operands are syntax trees of their own.
#[derive(Debug)]
pub struct BinaryExpr {
    pub left: Box<Ast>,
    pub operator: TokenType,
    pub right: Box<Ast>,
}

/// A node of a program.
#[derive(Debug)]
pub enum Ast {
    Expression(Expr),
    Identifier(String),
    Stmt(Box<Stmt>),
}

/// An expression.
#[derive(Debug)]
pub enum Expr {
    Binary(BinaryExpr),
    Literal(Value),
    Call { name: String, arguments: Vec<Expr> },
    ArrayAccess { name: String, index: Box<Expr>, col: Option<Box<Expr>> },
    EOF { filename: String },
}

/// One arm of a CASE statement: a single value or an inclusive range.
#[derive(Debug)]
pub enum CaseCondition {
    Single(Expr),
    Range(Expr, Expr),
}

/// A statement.
#[derive(Debug)]
pub enum Stmt {
    Output { target: Expr },
    Decleration { identifier: String, type_: Type },
    Assignment { identifier: String, array_index: Option<(Box<Expr>, Option<Box<Expr>>)>, value: Ast },
    Input { identifier: Box<Expr> },
    If { condition: Expr, then_branch: BlockStmt, else_branch: Option<BlockStmt> },
    Case { identifier: Box<Expr>, cases: Vec<(CaseCondition, BlockStmt)>, otherwise: Option<BlockStmt> },
    While { condition: Expr, body: BlockStmt },
    Repeat { body: BlockStmt, until: Expr },
    /// A procedure definition; its `return_type` is `None`.
    Procedure { name: String, definition: Rc<Function> },
    /// A function definition; its `return_type` is `Some`.
    Function { name: String, definition: Rc<Function> },
    Call { name: String, arguments: Vec<Expr> },
    Block(BlockStmt),
    For { identifier: String, start: Expr, end: Expr, body: BlockStmt },
    OpenFile { filename: Box<Expr>, mode: FileMode },
    CloseFile { filename: Box<Expr> },
    WriteFile { filename: Box<Expr>, value: Box<Expr> },
    ReadFile { filename: Box<Expr>, target: Box<Expr> },
    Return { value: Expr },
    Constant { identifier: String, value: Value },
}

/// The mathematical model of a value: strings are character sequences.
pub enum ValueV {
    Integer(i64),
    Real(u64),
    Str(Seq<char>),
    Boolean(bool),
    Char(char),
    Array { elems: Seq<ValueV>, lower_bound: usize, bounds_2d: Option<(usize, usize)> },
    Identifier(Seq<char>),
    Function(Rc<Function>),
}

pub open spec fn value_view(v: Value) -> ValueV
    decreases v,
{
    match v {
        Value::Integer(n) => ValueV::Integer(n),
        Value::Real(r) => ValueV::Real(r),
        Value::String(s) => ValueV::Str(s@),
        Value::Boolean(b) => ValueV::Boolean(b),
        Value::Char(c) => ValueV::Char(c),
        Value::Array { array, lower_bound, bounds_2d } => {
            proof {
                broadcast use vstd::std_specs::vec::axiom_vec_index_decreases;
            }
            ValueV::Array {
                elems: Seq::new(
                    array.len() as nat,
                    |i: int|
                        if 0 <= i < array.len() {
                            value_view(array[i])
                        } else {
                            ValueV::Boolean(false)
                        },
                ),
                lower_bound,
                bounds_2d,
            }
        },
        Value::Identifier(s) => ValueV::Identifier(s@),
        Value::Function(f) => ValueV::Function(f),
    }
}

impl View for Value {
    type V = ValueV;

    open spec fn view(&self) -> ValueV {
        value_view(*self)
    }
}

impl Value {
    /// A copy of the value with the same model.
    pub fn duplicate(&self) -> (r: Value)
        ensures
            r@ == self@,
        decreases self,
    {
        match self {
            Value::Integer(n) => Value::Integer(*n),
            Value::Real(r) => Value::Real(*r),
            Value::String(s) => Value::String(s.clone()),
            Value::Boolean(b) => Value::Boolean(*b),
            Value::Char(c) => Value::Char(*c),
            Value::Array { array, lower_bound, bounds_2d } => {
                let mut out: Vec<Value> = Vec::new();
                let mut i: usize = 0;
                while i < array.len()
                    invariant
                        *self == (Value::Array { array: *array, lower_bound: *lower_bound, bounds_2d: *bounds_2d }),
                        i <= array@.len(),
                        out@.len() == i,
                        forall|j: int| 0 <= j < i ==> #[trigger] out@[j]@ == array@[j]@,
                    decreases array@.len() - i,
                {
                    proof {
                        vstd::std_specs::vec::axiom_vec_index_decreases(*array, i as int);
                        assert(*array == (*self)->array);
                        assert(decreases_to!(*self => (*self)->array));
                        assert(decreases_to!(*array => array[i as int]));
                        assert(decreases_to!(*self => array[i as int]));
                    }
                    let e = array[i].duplicate();
                    out.push(e);
                    i = i + 1;
                }
                let r = Value::Array { array: out, lower_bound: *lower_bound, bounds_2d: *bounds_2d };
                assert(out@.len() == array@.len());
                assert forall|j: int| 0 <= j < array@.len() implies value_view(out[j]) == value_view(array[j]) by {
                    assert(out@[j]@ == array@[j]@);
                }
                assert(r@->elems =~= self@->elems);
                r
            },
            Value::Identifier(s) => Value::Identifier(s.clone()),
            Value::Function(f) => Value::Function(share_function(f)),
        }
    }
}

/// A second handle on the same function (std's `Rc::clone`). The contract
/// claims that the handle is equal to the first, as both point to the same
/// function.
#[verifier::external_body]
pub(crate) fn share_function(f: &Rc<Function>) -> (r: Rc<Function>)
    ensures
        r == *f,
{
    Rc::clone(f)
}

} // verus!
