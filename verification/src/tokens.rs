//! The values the lexer produces, and their mathematical views.
use vstd::prelude::*;

verus! {

/// The kinds of assignment a statement can make.
#[derive(Debug)]
pub enum AssignType {
    Add,
    Subtract,
    Multiply,
    Divide,
    Call,
}

/// A token on the left-hand side of a statement.
#[derive(Debug)]
pub enum LTokenKind {
    Identifier(String),
    Index(Vec<ExprToken>),
    Entry(String),
    Extension(String),
}

/// A token of an expression.
#[derive(Debug)]
pub enum ExprTokenKind {
    Add,
    Subtract,
    Multiply,
    Divide,
    StringLit(String),
    NumLit(String),
    Identifier(String),
    Index(Vec<ExprToken>),
    Entry(String),
    Call(Vec<ExprToken>),
    Extension(String),
}

/// An expression token with the line and column where it starts.
#[derive(Debug)]
pub struct ExprToken {
    pub kind: ExprTokenKind,
    pub line: usize,
    pub col: usize,
}

/// A left-hand-side token with the line and column where it starts.
#[derive(Debug)]
pub struct LToken {
    pub kind: LTokenKind,
    pub line: usize,
    pub col: usize,
}

/// A statement: what it assigns to, and the expression it assigns.
#[derive(Debug)]
pub struct LexStmt {
    pub to: Vec<LToken>,
    pub expr: Vec<ExprToken>,
    pub line: usize,
    pub col: usize,
}

/// The declared type of a function parameter.
#[derive(Debug)]
pub enum ParamType {
    String,
    Number,
    List,
    Dictionary,
    Any,
    Variable(Box<ParamType>),
    Unknown(String),
}

/// The default value of an optional parameter.
#[derive(Debug)]
pub enum ParamDefault {
    String(String),
    Number(String),
    NoDefault,
}

/// The type of a value held in a struct.
#[derive(Debug)]
pub enum StructValType {
    String,
    Number,
    List(Box<StructValType>),
    Dictionary(Vec<String>, Vec<StructValType>),
}

/// A parameter of a function declaration.
#[derive(Debug)]
pub struct FunctionParam {
    pub kind: ParamType,
    pub name: String,
    pub plural: bool,
    pub optional: bool,
    pub default: ParamDefault,
}

/// A function declaration: its statements, parameters, name and where it starts.
#[derive(Debug)]
pub struct Function {
    pub stmts: Vec<LexStmt>,
    pub args: Vec<FunctionParam>,
    pub name: String,
    pub line: usize,
    pub col: usize,
}

/// A struct declaration.
#[derive(Debug)]
pub struct Struct {
    pub name: String,
    pub val_names: Vec<String>,
    pub val_types: Vec<StructValType>,
    pub impls: Vec<Function>,
    pub line: usize,
    pub col: usize,
}

/// Everything a source file declares.
#[derive(Debug)]
pub struct Lexed {
    pub structs: Vec<Struct>,
    pub funcs: Vec<Function>,
}

/// Why lexing stopped, and the line and column it points at.
#[derive(Debug)]
pub struct LexError {
    pub line: usize,
    pub col: usize,
    pub message: String,
}

/// The mathematical value of an `ExprTokenKind`.
pub enum ExprKindView {
    Add,
    Subtract,
    Multiply,
    Divide,
    StringLit(Seq<char>),
    NumLit(Seq<char>),
    Identifier(Seq<char>),
    Index(Seq<ExprTokenView>),
    Entry(Seq<char>),
    Call(Seq<ExprTokenView>),
    Extension(Seq<char>),
}

/// The mathematical value of an `ExprToken`.
pub struct ExprTokenView {
    pub kind: ExprKindView,
    pub line: nat,
    pub col: nat,
}

/// The view of an expression token kind.
pub open spec fn kind_view(k: ExprTokenKind) -> ExprKindView
    decreases k,
{
    match k {
        ExprTokenKind::Add => ExprKindView::Add,
        ExprTokenKind::Subtract => ExprKindView::Subtract,
        ExprTokenKind::Multiply => ExprKindView::Multiply,
        ExprTokenKind::Divide => ExprKindView::Divide,
        ExprTokenKind::StringLit(s) => ExprKindView::StringLit(s@),
        ExprTokenKind::NumLit(s) => ExprKindView::NumLit(s@),
        ExprTokenKind::Identifier(s) => ExprKindView::Identifier(s@),
        ExprTokenKind::Index(v) => ExprKindView::Index(tokens_view(v@)),
        ExprTokenKind::Entry(s) => ExprKindView::Entry(s@),
        ExprTokenKind::Call(v) => ExprKindView::Call(tokens_view(v@)),
        ExprTokenKind::Extension(s) => ExprKindView::Extension(s@),
    }
}

/// The view of an expression token.
pub open spec fn token_view(t: ExprToken) -> ExprTokenView
    decreases t,
{
    ExprTokenView { kind: kind_view(t.kind), line: t.line as nat, col: t.col as nat }
}

/// The views of a sequence of expression tokens, in order.
pub open spec fn tokens_view(s: Seq<ExprToken>) -> Seq<ExprTokenView>
    decreases s,
{
    if s.len() == 0 {
        Seq::empty()
    } else {
        tokens_view(s.subrange(0, s.len() - 1)).push(token_view(s[s.len() - 1]))
    }
}

/// The mathematical value of a parameter default.
pub enum DefaultView {
    Text(Seq<char>),
    Number(Seq<char>),
    Absent,
}

/// The view of a parameter default.
pub open spec fn default_view(d: ParamDefault) -> DefaultView {
    match d {
        ParamDefault::String(s) => DefaultView::Text(s@),
        ParamDefault::Number(s) => DefaultView::Number(s@),
        ParamDefault::NoDefault => DefaultView::Absent,
    }
}

/// `k` is the parameter type that the type name `name` stands for.
pub open spec fn names_type(name: Seq<char>, k: ParamType) -> bool {
    if name == "string"@ || name == "str"@ {
        k matches ParamType::String
    } else if name == "number"@ || name == "num"@ {
        k matches ParamType::Number
    } else if name == "List"@ {
        k matches ParamType::List
    } else if name == "Dictionary"@ || name == "Dict"@ {
        k matches ParamType::Dictionary
    } else if name == "Any"@ {
        k matches ParamType::Any
    } else {
        k matches ParamType::Unknown(u) && u@ == name
    }
}

/// A lexing error as a position in the source and a message.
pub open spec fn error_is(e: LexError, s: Seq<char>, at: int, msg: Seq<char>) -> bool {
    &&& e.line == crate::position::line_at(s, at)
    &&& e.col == crate::position::col_at(s, at)
    &&& e.message@ == msg
}

} // verus!
