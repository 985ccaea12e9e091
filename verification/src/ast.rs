//! The program tree that the parser builds and the code generator reads.
use vstd::prelude::*;
use crate::text::str_eq;
use crate::token::TOKEN;

verus! {

/// A binary operator.
#[derive(Debug, Clone, Copy, PartialEq, Eq, Structural)]
pub enum BinaryOp {
    PLUS,
    MINUS,
    MULTIPLICATION,
    DIVISION,
    EQUAL,
    NEQUAL,
    GREATER,
    GREATEREQ,
    LESSER,
    LESSEREQ,
    UNKNOWN,
}

/// A type of the source language.
#[derive(Debug, PartialEq)]
pub enum Type {
    Int,
    Char,
    Bool,
    Float,
    Double,
    Pointer(Box<Type>),
    Array(Box<Type>, i64),
    Struct(String),
    Unknown,
}

/// An expression.
#[derive(Debug, PartialEq)]
pub enum Expr {
    IntLiteral(i64),
    CharLiteral(u8),
    /// The text of the literal and the number of its entry in the data section.
    StringLiteral(String, i64),
    BoolLiteral(bool),
    Variable(String),
    Binary(Box<Expr>, BinaryOp, Box<Expr>),
    Call(String, Vec<Expr>),
    Dereference(String),
    AddressOf(String),
    /// A field of a structure variable: the variable's name and the field's name.
    Struct(String, String),
    SizeofType(Type),
    SizeofVar(String),
    /// No expression: a declaration without an initial value.
    Empty,
    Unknown,
}

/// A statement. The integers are label numbers.
#[derive(Debug, PartialEq)]
pub enum Statement {
    Declaration(Type, String, Expr),
    Return(Expr),
    Call(String, Vec<Expr>),
    Reassign(Expr, Expr),
    If(Expr, Vec<Statement>, i64),
    Else(Vec<Statement>, i64),
    While(Expr, Vec<Statement>, i64),
    Struct(String, Vec<Statement>),
    BlockScope(Vec<Statement>),
    Break(i64),
    Continue,
    Unknown,
}

/// A parameter of a function.
#[derive(Debug)]
pub struct FunctionArgDeclaration {
    pub var_type: Type,
    pub name: String,
}

/// A function definition.
#[derive(Debug)]
pub struct Function {
    pub name: String,
    pub args: Vec<FunctionArgDeclaration>,
    pub body: Vec<Statement>,
}

/// A whole program: its functions in source order.
#[derive(Debug)]
pub struct Program {
    pub functions: Vec<Function>,
}

/// A copy of a type.
pub fn copy_type(t: &Type) -> (r: Type)
    ensures
        r == *t,
    decreases *t,
{
    match t {
        Type::Int => Type::Int,
        Type::Char => Type::Char,
        Type::Bool => Type::Bool,
        Type::Float => Type::Float,
        Type::Double => Type::Double,
        Type::Pointer(inner) => Type::Pointer(Box::new(copy_type(inner))),
        Type::Array(inner, n) => Type::Array(Box::new(copy_type(inner)), *n),
        Type::Struct(name) => Type::Struct(name.clone()),
        Type::Unknown => Type::Unknown,
    }
}

/// The number of bytes that a value of the type takes on the stack. Structures take 0
/// here: their fields are placed one by one.
pub open spec fn type_size(t: Type) -> int
    decreases t,
{
    match t {
        Type::Char => 1,
        Type::Bool => 1,
        Type::Int => 4,
        Type::Float => 4,
        Type::Double => 8,
        Type::Pointer(_) => 8,
        Type::Array(inner, n) => type_size(*inner) * n,
        Type::Struct(_) => 0,
        Type::Unknown => 0,
    }
}

/// Whether computing the size in `i64` arithmetic stays in range at every step.
pub open spec fn size_fits(t: Type) -> bool
    decreases t,
{
    match t {
        Type::Array(inner, n) => size_fits(*inner) && i64::MIN <= type_size(*inner) * n <= i64::MAX,
        _ => true,
    }
}

/// The size of a type, for a type whose size computation stays in range.
pub fn get_offset(var_type: &Type) -> (r: i64)
    requires
        size_fits(*var_type),
    ensures
        r == type_size(*var_type),
    decreases *var_type,
{
    match var_type {
        Type::Char => 1,
        Type::Bool => 1,
        Type::Int => 4,
        Type::Float => 4,
        Type::Double => 8,
        Type::Pointer(_) => 8,
        Type::Array(arr_type, size) => {
            let inner = get_offset(arr_type);
            inner * size
        },
        Type::Struct(_) => 0,
        Type::Unknown => 0,
    }
}

/// The size of a type, or `None` where computing it in `i64` arithmetic overflows.
pub fn checked_offset(var_type: &Type) -> (r: Option<i64>)
    ensures
        r == (if size_fits(*var_type) { Some(type_size(*var_type) as i64) } else { None::<i64> }),
    decreases *var_type,
{
    match var_type {
        Type::Array(arr_type, size) => {
            match checked_offset(arr_type) {
                Some(inner) => inner.checked_mul(*size),
                None => None,
            }
        },
        _ => Some(get_offset(var_type)),
    }
}

/// The type that a type name stands for.
pub open spec fn spec_parse_type(name: Seq<char>) -> Type {
    if name == "int"@ { Type::Int }
    else if name == "bool"@ { Type::Bool }
    else if name == "char"@ { Type::Char }
    else if name == "float"@ { Type::Float }
    else if name == "double"@ { Type::Double }
    else { Type::Unknown }
}

/// The type that a token names.
pub fn parse_type(token: &TOKEN) -> (t: Type)
    ensures
        t == spec_parse_type(token.name@),
{
    let n = token.name.as_str();
    if str_eq(n, "int") { Type::Int }
    else if str_eq(n, "bool") { Type::Bool }
    else if str_eq(n, "char") { Type::Char }
    else if str_eq(n, "float") { Type::Float }
    else if str_eq(n, "double") { Type::Double }
    else { Type::Unknown }
}

/// The mathematical form of an expression: lists become sequences.
pub enum SExpr {
    IntLiteral(i64),
    CharLiteral(u8),
    StringLiteral(String, i64),
    BoolLiteral(bool),
    Variable(String),
    Binary(Box<SExpr>, BinaryOp, Box<SExpr>),
    Call(String, Seq<SExpr>),
    Dereference(String),
    AddressOf(String),
    Struct(String, String),
    SizeofType(Type),
    SizeofVar(String),
    Empty,
    Unknown,
}

/// The mathematical form of a statement.
pub enum SStatement {
    Declaration(Type, String, SExpr),
    Return(SExpr),
    Call(String, Seq<SExpr>),
    Reassign(SExpr, SExpr),
    If(SExpr, Seq<SStatement>, i64),
    Else(Seq<SStatement>, i64),
    While(SExpr, Seq<SStatement>, i64),
    Struct(String, Seq<SStatement>),
    BlockScope(Seq<SStatement>),
    Break(i64),
    Continue,
    Unknown,
}

/// The mathematical form of a function.
pub struct SFunction {
    pub name: String,
    pub args: Seq<FunctionArgDeclaration>,
    pub body: Seq<SStatement>,
}

pub open spec fn expr_view(e: Expr) -> SExpr
    decreases e,
{
    match e {
        Expr::IntLiteral(n) => SExpr::IntLiteral(n),
        Expr::CharLiteral(c) => SExpr::CharLiteral(c),
        Expr::StringLiteral(s, i) => SExpr::StringLiteral(s, i),
        Expr::BoolLiteral(b) => SExpr::BoolLiteral(b),
        Expr::Variable(n) => SExpr::Variable(n),
        Expr::Binary(l, op, r) => SExpr::Binary(Box::new(expr_view(*l)), op, Box::new(expr_view(*r))),
        Expr::Call(n, args) => SExpr::Call(n, exprs_view(args@)),
        Expr::Dereference(n) => SExpr::Dereference(n),
        Expr::AddressOf(n) => SExpr::AddressOf(n),
        Expr::Struct(a, b) => SExpr::Struct(a, b),
        Expr::SizeofType(t) => SExpr::SizeofType(t),
        Expr::SizeofVar(n) => SExpr::SizeofVar(n),
        Expr::Empty => SExpr::Empty,
        Expr::Unknown => SExpr::Unknown,
    }
}

pub open spec fn exprs_view(s: Seq<Expr>) -> Seq<SExpr>
    decreases s,
{
    if s.len() == 0 {
        Seq::empty()
    } else {
        exprs_view(s.drop_last()).push(expr_view(s.last()))
    }
}

pub open spec fn stmt_view(st: Statement) -> SStatement
    decreases st,
{
    match st {
        Statement::Declaration(t, n, e) => SStatement::Declaration(t, n, expr_view(e)),
        Statement::Return(e) => SStatement::Return(expr_view(e)),
        Statement::Call(n, args) => SStatement::Call(n, exprs_view(args@)),
        Statement::Reassign(a, b) => SStatement::Reassign(expr_view(a), expr_view(b)),
        Statement::If(c, b, i) => SStatement::If(expr_view(c), stmts_view(b@), i),
        Statement::Else(b, i) => SStatement::Else(stmts_view(b@), i),
        Statement::While(c, b, i) => SStatement::While(expr_view(c), stmts_view(b@), i),
        Statement::Struct(n, b) => SStatement::Struct(n, stmts_view(b@)),
        Statement::BlockScope(b) => SStatement::BlockScope(stmts_view(b@)),
        Statement::Break(i) => SStatement::Break(i),
        Statement::Continue => SStatement::Continue,
        Statement::Unknown => SStatement::Unknown,
    }
}

pub open spec fn stmts_view(s: Seq<Statement>) -> Seq<SStatement>
    decreases s,
{
    if s.len() == 0 {
        Seq::empty()
    } else {
        stmts_view(s.drop_last()).push(stmt_view(s.last()))
    }
}

pub open spec fn function_view(f: Function) -> SFunction {
    SFunction { name: f.name, args: f.args@, body: stmts_view(f.body@) }
}

pub open spec fn functions_view(s: Seq<Function>) -> Seq<SFunction> {
    Seq::new(s.len(), |i: int| function_view(s[i]))
}

pub proof fn lemma_exprs_view_push(s: Seq<Expr>, e: Expr)
    ensures
        exprs_view(s.push(e)) == exprs_view(s).push(expr_view(e)),
{
    assert(s.push(e).drop_last() =~= s);
}

pub proof fn lemma_stmts_view_push(s: Seq<Statement>, st: Statement)
    ensures
        stmts_view(s.push(st)) == stmts_view(s).push(stmt_view(st)),
{
    assert(s.push(st).drop_last() =~= s);
}

pub proof fn lemma_exprs_view_len(s: Seq<Expr>)
    ensures
        exprs_view(s).len() == s.len(),
    decreases s.len(),
{
    if s.len() > 0 {
        lemma_exprs_view_len(s.drop_last());
    }
}

pub proof fn lemma_exprs_view_index(s: Seq<Expr>, i: int)
    requires
        0 <= i < s.len(),
    ensures
        exprs_view(s).len() == s.len(),
        exprs_view(s)[i] == expr_view(s[i]),
    decreases s.len(),
{
    lemma_exprs_view_len(s);
    if i < s.len() - 1 {
        lemma_exprs_view_index(s.drop_last(), i);
    }
}

pub proof fn lemma_stmts_view_len(s: Seq<Statement>)
    ensures
        stmts_view(s).len() == s.len(),
    decreases s.len(),
{
    if s.len() > 0 {
        lemma_stmts_view_len(s.drop_last());
    }
}

pub proof fn lemma_stmts_view_index(s: Seq<Statement>, i: int)
    requires
        0 <= i < s.len(),
    ensures
        stmts_view(s).len() == s.len(),
        stmts_view(s)[i] == stmt_view(s[i]),
    decreases s.len(),
{
    lemma_stmts_view_len(s);
    if i < s.len() - 1 {
        lemma_stmts_view_index(s.drop_last(), i);
    }
}

} // verus!
