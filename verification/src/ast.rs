//! The surface syntax the compiler consumes.  The parser is an external
//! collaborator: it hands the compiler classes whose names and literals are
//! plain text, each carrying the source position it came from.

use vstd::prelude::*;

verus! {

/// A piece of source text together with where it stands in its file, for
/// error reporting.
#[derive(Debug)]
pub struct Lexeme {
    pub text: String,
    /// 1-based source line.
    pub line: usize,
    /// 1-based source column.
    pub col: usize,
}

/// A class as parsed: its name, an optional super-class name, its instance
/// variables in declaration order, and its methods.
#[derive(Debug)]
pub struct Class {
    pub name: Lexeme,
    pub supername: Option<Lexeme>,
    pub inst_vars: Vec<Lexeme>,
    pub methods: Vec<Method>,
}

#[derive(Debug)]
pub struct Method {
    pub name: MethodName,
    pub body: MethodBody,
}

#[derive(Debug)]
pub enum MethodName {
    /// A binary operator selector and its one parameter, when present.
    BinaryOp(Lexeme, Option<Lexeme>),
    /// A unary selector.
    Id(Lexeme),
    /// Keyword fragments, each with its parameter.
    Keywords(Vec<(Lexeme, Lexeme)>),
}

#[derive(Debug)]
pub enum MethodBody {
    /// The method is implemented by the VM; the selector picks the
    /// primitive.
    Primitive,
    /// User code: local variable names, then the body expressions.
    Body { vars: Vec<Lexeme>, exprs: Vec<Expr> },
}

#[derive(Debug)]
pub enum Expr {
    Assign { id: Lexeme, expr: Box<Expr> },
    BinaryMsg { lhs: Box<Expr>, op: Lexeme, rhs: Box<Expr> },
    Block { params: Vec<Lexeme>, vars: Vec<Lexeme>, exprs: Vec<Expr> },
    /// An integer literal; the text holds the digits only, with the sign
    /// carried separately.
    Int { is_negative: bool, val: Lexeme },
    KeywordMsg { receiver: Box<Expr>, msglist: Vec<(Lexeme, Expr)> },
    UnaryMsg { receiver: Box<Expr>, ids: Vec<Lexeme> },
    Return(Box<Expr>),
    /// A string literal, still wrapped in its quotes.
    String(Lexeme),
    /// A symbol literal, with its leading `#`.
    Symbol(Lexeme),
    VarLookup(Lexeme),
}

} // verus!
