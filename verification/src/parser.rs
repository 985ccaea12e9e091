//! The parser: a recursive-descent reading of a token sequence into a program tree.
//!
//! Each exec function is tied to a spec function of the same name with an `sp_` prefix,
//! which states over the token sequence and the cursor what is read, what is built, and
//! which error stops the reading. The cursor holds the position and the two counters that
//! number string literals and labels.
use vstd::prelude::*;
use crate::ast::{
    BinaryOp, Expr, Function, FunctionArgDeclaration, Program, SExpr, SFunction, SStatement,
    Statement, Type, expr_view, exprs_view, function_view, functions_view, lemma_exprs_view_push,
    lemma_stmts_view_push, parse_type, spec_parse_type, stmt_view, stmts_view,
};
use crate::numeric::{parse_i64, spec_parse_i64};
use crate::text::{owned, str_eq};
use crate::token::{TOKEN, TokenType, copy_token, get_precedence, is_type, spec_is_type, spec_precedence};

verus! {

/// What was wrong at the token where reading stopped.
#[derive(Debug, PartialEq)]
pub enum SyntaxIssue {
    /// A token of one kind was required and another was found.
    Expected { expected: TokenType, expected_name: String, got: TokenType, got_name: String },
    /// Between the arguments of a call, neither `,` nor `)` was found.
    CallArgument { function: String, arguments: Vec<Expr>, got: TokenType, got_name: String },
    /// `!` at the start of an expression.
    NotUnsupported,
    /// `sizeof (` followed by neither a name nor a type.
    SizeofInner { got: TokenType },
    /// `sizeof` followed by neither a name nor `(`.
    SizeofOperand { got: TokenType, got_name: String },
    /// A token that cannot start an expression.
    InvalidPrimary { got: TokenType },
    /// `=` or `!` not followed by `=` where a comparison was expected.
    ComparisonExpected,
    /// `!` followed by a name inside an expression.
    NotVariableUnsupported,
    /// A statement that starts with a name continued with an unexpected token.
    AfterName { got: TokenType, got_name: String },
    /// A structure field declared with a value.
    FieldWithValue,
    /// Something other than a declaration in a structure body.
    FieldNotDeclaration { statement: Statement },
    /// `struct NAME` followed by neither `{` nor a name.
    StructDeclaration { got: TokenType },
    /// A token that cannot start a statement.
    InvalidStatement { got: TokenType, got_name: String },
    /// After a parameter, neither `,` nor `)`.
    ParameterSeparator { got: TokenType },
    /// A parameter that does not start with a type name.
    ParameterType { got: TokenType },
    /// A preprocessor directive that is not handled.
    NotSupported,
}

/// Why parsing stopped.
#[derive(Debug, PartialEq)]
pub enum ParseError {
    /// A syntax error, located at the token where it was noticed.
    Syntax { line: i64, column: i64, issue: SyntaxIssue },
    /// Reading went past the last token.
    OutOfTokens,
    /// A number token that is not an `i64`.
    BadInteger { text: String },
    /// A boolean token whose text is neither `true` nor `false`.
    NotABoolean { text: String },
    /// `NAME++` followed by neither `;` nor `)`.
    IncrementEnd { got: TokenType },
    /// A literal or label counter went past `i64::MAX`.
    CounterOverflow,
    /// A character literal with nothing between the quotes.
    EmptyCharLiteral,
}

/// The mathematical form of a syntax issue.
pub enum SIssue {
    Expected { expected: TokenType, expected_name: Seq<char>, got: TokenType, got_name: Seq<char> },
    CallArgument { function: Seq<char>, arguments: Seq<SExpr>, got: TokenType, got_name: Seq<char> },
    NotUnsupported,
    SizeofInner { got: TokenType },
    SizeofOperand { got: TokenType, got_name: Seq<char> },
    InvalidPrimary { got: TokenType },
    ComparisonExpected,
    NotVariableUnsupported,
    AfterName { got: TokenType, got_name: Seq<char> },
    FieldWithValue,
    FieldNotDeclaration { statement: SStatement },
    StructDeclaration { got: TokenType },
    InvalidStatement { got: TokenType, got_name: Seq<char> },
    ParameterSeparator { got: TokenType },
    ParameterType { got: TokenType },
    NotSupported,
}

/// The mathematical form of a parse error.
pub enum PErr {
    Syntax { line: i64, column: i64, issue: SIssue },
    OutOfTokens,
    BadInteger { text: Seq<char> },
    NotABoolean { text: Seq<char> },
    IncrementEnd { got: TokenType },
    CounterOverflow,
    EmptyCharLiteral,
}

pub open spec fn issue_view(i: SyntaxIssue) -> SIssue {
    match i {
        SyntaxIssue::Expected { expected, expected_name, got, got_name } => SIssue::Expected { expected, expected_name: expected_name@, got, got_name: got_name@ },
        SyntaxIssue::CallArgument { function, arguments, got, got_name } => SIssue::CallArgument { function: function@, arguments: exprs_view(arguments@), got, got_name: got_name@ },
        SyntaxIssue::NotUnsupported => SIssue::NotUnsupported,
        SyntaxIssue::SizeofInner { got } => SIssue::SizeofInner { got },
        SyntaxIssue::SizeofOperand { got, got_name } => SIssue::SizeofOperand { got, got_name: got_name@ },
        SyntaxIssue::InvalidPrimary { got } => SIssue::InvalidPrimary { got },
        SyntaxIssue::ComparisonExpected => SIssue::ComparisonExpected,
        SyntaxIssue::NotVariableUnsupported => SIssue::NotVariableUnsupported,
        SyntaxIssue::AfterName { got, got_name } => SIssue::AfterName { got, got_name: got_name@ },
        SyntaxIssue::FieldWithValue => SIssue::FieldWithValue,
        SyntaxIssue::FieldNotDeclaration { statement } => SIssue::FieldNotDeclaration { statement: stmt_view(statement) },
        SyntaxIssue::StructDeclaration { got } => SIssue::StructDeclaration { got },
        SyntaxIssue::InvalidStatement { got, got_name } => SIssue::InvalidStatement { got, got_name: got_name@ },
        SyntaxIssue::ParameterSeparator { got } => SIssue::ParameterSeparator { got },
        SyntaxIssue::ParameterType { got } => SIssue::ParameterType { got },
        SyntaxIssue::NotSupported => SIssue::NotSupported,
    }
}

pub open spec fn err_view(e: ParseError) -> PErr {
    match e {
        ParseError::Syntax { line, column, issue } => PErr::Syntax { line, column, issue: issue_view(issue) },
        ParseError::OutOfTokens => PErr::OutOfTokens,
        ParseError::BadInteger { text } => PErr::BadInteger { text: text@ },
        ParseError::NotABoolean { text } => PErr::NotABoolean { text: text@ },
        ParseError::IncrementEnd { got } => PErr::IncrementEnd { got },
        ParseError::CounterOverflow => PErr::CounterOverflow,
        ParseError::EmptyCharLiteral => PErr::EmptyCharLiteral,
    }
}

/// The reading position and the next free string-literal and label numbers.
pub struct Cursor {
    pub pos: usize,
    pub string_index: i64,
    pub label_index: i64,
}

/// The mathematical form of a cursor.
pub struct PState {
    pub pos: int,
    pub strings: int,
    pub labels: int,
}

impl Cursor {
    pub open spec fn st(&self) -> PState {
        PState { pos: self.pos as int, strings: self.string_index as int, labels: self.label_index as int }
    }

    /// A cursor at the first token, with both counters at 0.
    pub fn new() -> (c: Cursor)
        ensures
            c.st() == (PState { pos: 0, strings: 0, labels: 0 }),
    {
        Cursor { pos: 0, string_index: 0, label_index: 0 }
    }
}

/// Whether a spec result is the error `e`.
pub open spec fn is_err_of<T>(r: Result<T, PErr>, e: PErr) -> bool {
    r == Err::<T, PErr>(e)
}

/// The same state moved `n` tokens on.
pub open spec fn adv(st: PState, n: int) -> PState {
    PState { pos: st.pos + n, strings: st.strings, labels: st.labels }
}

pub open spec fn in_range(toks: Seq<TOKEN>, pos: int) -> bool {
    0 <= pos < toks.len()
}

/// A syntax error reported at the token at `pos`; reporting it reads that token, so past
/// the last token the reading itself fails.
pub open spec fn syntax(toks: Seq<TOKEN>, pos: int, issue: SIssue) -> PErr {
    if in_range(toks, pos) {
        PErr::Syntax { line: toks[pos].line, column: toks[pos].column, issue }
    } else {
        PErr::OutOfTokens
    }
}

/// `expect`: the current token must have kind `kind`; the cursor moves past it either way.
pub open spec fn sp_expect(toks: Seq<TOKEN>, st: PState, kind: TokenType, kname: Seq<char>) -> Result<(TOKEN, PState), PErr> {
    if !in_range(toks, st.pos) {
        Err(PErr::OutOfTokens)
    } else if toks[st.pos].token_type == kind {
        Ok((toks[st.pos], adv(st, 1)))
    } else {
        Err(syntax(toks, st.pos + 1, SIssue::Expected { expected: kind, expected_name: kname, got: toks[st.pos].token_type, got_name: toks[st.pos].name@ }))
    }
}

/// A label number is taken from the counter.
pub open spec fn take_label(st: PState) -> Result<(i64, PState), PErr> {
    if st.labels + 1 > i64::MAX {
        Err(PErr::CounterOverflow)
    } else {
        Ok((st.labels as i64, PState { pos: st.pos, strings: st.strings, labels: st.labels + 1 }))
    }
}

/// A string-literal number is taken from the counter.
pub open spec fn take_string(st: PState) -> Result<(i64, PState), PErr> {
    if st.strings + 1 > i64::MAX {
        Err(PErr::CounterOverflow)
    } else {
        Ok((st.strings as i64, PState { pos: st.pos, strings: st.strings + 1, labels: st.labels }))
    }
}

/// `parse_bool`
pub open spec fn sp_parse_bool(text: Seq<char>) -> Result<bool, PErr> {
    if text == "true"@ {
        Ok(true)
    } else if text == "false"@ {
        Ok(false)
    } else {
        Err(PErr::NotABoolean { text })
    }
}

/// The byte of a character literal: the four two-character escapes, else the first byte of
/// the text's UTF-8 encoding.
pub open spec fn char_literal_byte(text: Seq<char>) -> Option<u8> {
    if text == "\\n"@ {
        Some(10u8)
    } else if text == "\\\\"@ {
        Some(92u8)
    } else if text == "\\'"@ {
        Some(39u8)
    } else if text == "\\\""@ {
        Some(34u8)
    } else if text.len() == 0 {
        None
    } else {
        Some(vstd::utf8::encode_utf8(text)[0])
    }
}

/// The operator that the token kind `t` starts, with the position after it; `=`, `!`, `<`
/// and `>` look at the token at `pos` for a following `=`.
pub open spec fn sp_read_op(toks: Seq<TOKEN>, t: TokenType, pos: int) -> Result<(BinaryOp, int), PErr> {
    match t {
        TokenType::PLUS => Ok((BinaryOp::PLUS, pos)),
        TokenType::MINUS => Ok((BinaryOp::MINUS, pos)),
        TokenType::STAR => Ok((BinaryOp::MULTIPLICATION, pos)),
        TokenType::SLASH => Ok((BinaryOp::DIVISION, pos)),
        TokenType::ASSIGN => {
            if !in_range(toks, pos) {
                Err(PErr::OutOfTokens)
            } else if toks[pos].token_type == TokenType::ASSIGN {
                Ok((BinaryOp::EQUAL, pos + 1))
            } else {
                Err(syntax(toks, pos, SIssue::ComparisonExpected))
            }
        },
        TokenType::NOT => {
            if !in_range(toks, pos) {
                Err(PErr::OutOfTokens)
            } else if toks[pos].token_type == TokenType::ASSIGN {
                Ok((BinaryOp::NEQUAL, pos + 1))
            } else if toks[pos].token_type == TokenType::NAME {
                Err(syntax(toks, pos, SIssue::NotVariableUnsupported))
            } else {
                Err(syntax(toks, pos, SIssue::ComparisonExpected))
            }
        },
        TokenType::LCHEV => {
            if !in_range(toks, pos) {
                Err(PErr::OutOfTokens)
            } else if toks[pos].token_type == TokenType::ASSIGN {
                Ok((BinaryOp::LESSEREQ, pos + 1))
            } else {
                Ok((BinaryOp::LESSER, pos))
            }
        },
        TokenType::RCHEV => {
            if !in_range(toks, pos) {
                Err(PErr::OutOfTokens)
            } else if toks[pos].token_type == TokenType::ASSIGN {
                Ok((BinaryOp::GREATEREQ, pos + 1))
            } else {
                Ok((BinaryOp::GREATER, pos))
            }
        },
        _ => Ok((BinaryOp::UNKNOWN, pos)),
    }
}

/// `sizeof`, with `st` just past the `sizeof` token.
pub open spec fn sp_sizeof(toks: Seq<TOKEN>, st: PState) -> Result<(SExpr, PState), PErr> {
    if !in_range(toks, st.pos) {
        Err(PErr::OutOfTokens)
    } else {
        let t = toks[st.pos];
        if t.token_type == TokenType::NAME {
            Ok((SExpr::SizeofVar(t.name), adv(st, 1)))
        } else if t.token_type == TokenType::LPAREN {
            if !in_range(toks, st.pos + 1) {
                Err(PErr::OutOfTokens)
            } else {
                let t2 = toks[st.pos + 1];
                if t2.token_type == TokenType::NAME {
                    match sp_expect(toks, adv(st, 2), TokenType::RPAREN, ")"@) {
                        Ok((_, st3)) => Ok((SExpr::SizeofVar(t2.name), st3)),
                        Err(e) => Err(e),
                    }
                } else if t2.token_type == TokenType::TYPE {
                    let ty = spec_parse_type(t2.name@);
                    if !in_range(toks, st.pos + 2) {
                        Err(PErr::OutOfTokens)
                    } else {
                        let starred = toks[st.pos + 2].token_type == TokenType::STAR;
                        let ty2 = if starred { Type::Pointer(Box::new(ty)) } else { ty };
                        let st3 = if starred { adv(st, 3) } else { adv(st, 2) };
                        match sp_expect(toks, st3, TokenType::RPAREN, ")"@) {
                            Ok((_, st4)) => Ok((SExpr::SizeofType(ty2), st4)),
                            Err(e) => Err(e),
                        }
                    }
                } else {
                    Err(syntax(toks, st.pos + 1, SIssue::SizeofInner { got: t2.token_type }))
                }
            }
        } else {
            Err(syntax(toks, st.pos, SIssue::SizeofOperand { got: t.token_type, got_name: t.name@ }))
        }
    }
}

/// `parse_primary`: a literal, a name, a call, a field access, a dereference, an address,
/// or a `sizeof`.
pub open spec fn sp_primary(toks: Seq<TOKEN>, st: PState) -> Result<(SExpr, PState), PErr>
    decreases toks.len() - st.pos, 1int,
{
    if !in_range(toks, st.pos) {
        Err(PErr::OutOfTokens)
    } else {
        let prim = toks[st.pos];
        let st1 = adv(st, 1);
        match prim.token_type {
            TokenType::NUMBER => match spec_parse_i64(prim.name@) {
                Some(v) => Ok((SExpr::IntLiteral(v), st1)),
                None => Err(PErr::BadInteger { text: prim.name@ }),
            },
            TokenType::NAME => {
                if !in_range(toks, st1.pos) {
                    Err(PErr::OutOfTokens)
                } else if toks[st1.pos].token_type == TokenType::LPAREN {
                    match sp_call(toks, prim.name@, st1) {
                        Ok((args, st2)) => Ok((SExpr::Call(prim.name, args), st2)),
                        Err(e) => Err(e),
                    }
                } else if toks[st1.pos].token_type == TokenType::DECIMAL {
                    match sp_expect(toks, adv(st1, 1), TokenType::NAME, "Any Name"@) {
                        Ok((f, st2)) => Ok((SExpr::Struct(prim.name, f.name), st2)),
                        Err(e) => Err(e),
                    }
                } else {
                    Ok((SExpr::Variable(prim.name), st1))
                }
            },
            TokenType::SINGLEQUOTE => {
                if !in_range(toks, st1.pos) {
                    Err(PErr::OutOfTokens)
                } else {
                    match char_literal_byte(toks[st1.pos].name@) {
                        None => Err(PErr::EmptyCharLiteral),
                        Some(c) => match sp_expect(toks, adv(st1, 1), TokenType::SINGLEQUOTE, "'"@) {
                            Ok((_, st2)) => Ok((SExpr::CharLiteral(c), st2)),
                            Err(e) => Err(e),
                        },
                    }
                }
            },
            TokenType::DOUBLEQUOTE => match sp_expect(toks, st1, TokenType::STRING, "Any String"@) {
                Err(e) => Err(e),
                Ok((text, st2)) => match take_string(st2) {
                    Err(e) => Err(e),
                    Ok((idx, st3)) => match sp_expect(toks, st3, TokenType::DOUBLEQUOTE, "\""@) {
                        Err(e) => Err(e),
                        Ok((_, st4)) => Ok((SExpr::StringLiteral(text.name, idx), st4)),
                    },
                },
            },
            TokenType::BOOLEAN => match sp_parse_bool(prim.name@) {
                Ok(b) => Ok((SExpr::BoolLiteral(b), st1)),
                Err(e) => Err(e),
            },
            TokenType::NOT => Err(syntax(toks, st1.pos, SIssue::NotUnsupported)),
            TokenType::STAR => match sp_expect(toks, st1, TokenType::NAME, "Any Name"@) {
                Ok((v, st2)) => Ok((SExpr::Dereference(v.name), st2)),
                Err(e) => Err(e),
            },
            TokenType::ADDRESSOF => match sp_expect(toks, st1, TokenType::NAME, "Any Name"@) {
                Ok((v, st2)) => Ok((SExpr::AddressOf(v.name), st2)),
                Err(e) => Err(e),
            },
            TokenType::SIZEOF => sp_sizeof(toks, st1),
            _ => Err(syntax(toks, st1.pos, SIssue::InvalidPrimary { got: prim.token_type })),
        }
    }
}

/// `parse_call`: the arguments of a call, with `st` at the opening parenthesis.
pub open spec fn sp_call(toks: Seq<TOKEN>, fname: Seq<char>, st: PState) -> Result<(Seq<SExpr>, PState), PErr>
    decreases toks.len() - st.pos, 0int,
{
    if !in_range(toks, st.pos + 1) {
        Err(PErr::OutOfTokens)
    } else if toks[st.pos + 1].token_type != TokenType::RPAREN {
        match sp_call_args(toks, fname, Seq::empty(), adv(st, 1)) {
            Err(e) => Err(e),
            Ok((args, st2)) => match sp_expect(toks, st2, TokenType::RPAREN, ")"@) {
                Ok((_, st3)) => Ok((args, st3)),
                Err(e) => Err(e),
            },
        }
    } else {
        match sp_expect(toks, adv(st, 1), TokenType::RPAREN, ")"@) {
            Ok((_, st3)) => Ok((Seq::empty(), st3)),
            Err(e) => Err(e),
        }
    }
}

/// The arguments of a call from `st` on, after those already read (`args`), up to the
/// closing parenthesis (not consumed).
pub open spec fn sp_call_args(toks: Seq<TOKEN>, fname: Seq<char>, args: Seq<SExpr>, st: PState) -> Result<(Seq<SExpr>, PState), PErr>
    decreases toks.len() - st.pos, 3int,
{
    match sp_expr(toks, st, 0) {
        Err(e) => Err(e),
        Ok((e, st1)) => {
            if !(st.pos < st1.pos <= toks.len()) {
                Err(PErr::OutOfTokens)
            } else {
                let args2 = args.push(e);
                if !in_range(toks, st1.pos) {
                    Err(PErr::OutOfTokens)
                } else if toks[st1.pos].token_type == TokenType::COMMA {
                    sp_call_args(toks, fname, args2, adv(st1, 1))
                } else if toks[st1.pos].token_type == TokenType::RPAREN {
                    Ok((args2, st1))
                } else {
                    Err(syntax(toks, st1.pos, SIssue::CallArgument { function: fname, arguments: args2, got: toks[st1.pos].token_type, got_name: toks[st1.pos].name@ }))
                }
            }
        },
    }
}

/// `parse_expression`: a primary expression followed by binary operators that bind at
/// least as strongly as `minp`, each right operand read with one more than the
/// operator's strength (so operators of equal strength group to the left).
pub open spec fn sp_expr(toks: Seq<TOKEN>, st: PState, minp: int) -> Result<(SExpr, PState), PErr>
    decreases toks.len() - st.pos, 2int,
{
    match sp_primary(toks, st) {
        Err(e) => Err(e),
        Ok((left, st1)) => {
            if !(st.pos < st1.pos <= toks.len()) {
                Err(PErr::OutOfTokens)
            } else {
                sp_expr_loop(toks, left, st1, minp)
            }
        },
    }
}

/// The operator loop of `parse_expression`, with `left` read so far.
pub open spec fn sp_expr_loop(toks: Seq<TOKEN>, left: SExpr, st: PState, minp: int) -> Result<(SExpr, PState), PErr>
    decreases toks.len() - st.pos, 0int,
{
    if !in_range(toks, st.pos) {
        Err(PErr::OutOfTokens)
    } else {
        let t = toks[st.pos].token_type;
        let prec = spec_precedence(t);
        if prec == 0 || prec < minp {
            Ok((left, st))
        } else {
            match sp_read_op(toks, t, st.pos + 1) {
                Err(e) => Err(e),
                Ok((op, p1)) => {
                    if !(st.pos < p1 <= toks.len()) {
                        Err(PErr::OutOfTokens)
                    } else {
                        match sp_expr(toks, PState { pos: p1, strings: st.strings, labels: st.labels }, prec + 1) {
                            Err(e) => Err(e),
                            Ok((right, st2)) => {
                                if !(st.pos < st2.pos <= toks.len()) {
                                    Err(PErr::OutOfTokens)
                                } else {
                                    sp_expr_loop(toks, SExpr::Binary(Box::new(left), op, Box::new(right)), st2, minp)
                                }
                            },
                        }
                    }
                },
            }
        }
    }
}

/// The kind of the token at `pos`, if there is one.
fn kind_at(toks: &Vec<TOKEN>, pos: usize) -> (r: Option<TokenType>)
    ensures
        r == (if in_range(toks@, pos as int) { Some(toks@[pos as int].token_type) } else { None::<TokenType> }),
{
    if pos < toks.len() {
        Some(toks[pos].token_type)
    } else {
        None
    }
}

/// The error for a syntax issue noticed at the token at `pos`.
fn syntax_error(toks: &Vec<TOKEN>, pos: usize, issue: SyntaxIssue) -> (e: ParseError)
    ensures
        err_view(e) == syntax(toks@, pos as int, issue_view(issue)),
{
    if pos < toks.len() {
        ParseError::Syntax { line: toks[pos].line, column: toks[pos].column, issue }
    } else {
        ParseError::OutOfTokens
    }
}

/// Reads the current token, which must have the kind of `expected`, and moves past it.
pub fn expect(toks: &Vec<TOKEN>, cur: &mut Cursor, expected: &TOKEN) -> (r: Result<TOKEN, ParseError>)
    ensures
        match r {
            Ok(t) => sp_expect(toks@, old(cur).st(), expected.token_type, expected.name@) == Ok::<_, PErr>((t, final(cur).st())),
            Err(e) => is_err_of(sp_expect(toks@, old(cur).st(), expected.token_type, expected.name@), err_view(e)),
        },
{
    if cur.pos >= toks.len() {
        return Err(ParseError::OutOfTokens);
    }
    let current = copy_token(&toks[cur.pos]);
    cur.pos = cur.pos + 1;
    if current.token_type == expected.token_type {
        Ok(current)
    } else {
        let issue = SyntaxIssue::Expected {
            expected: expected.token_type,
            expected_name: expected.name.clone(),
            got: current.token_type,
            got_name: current.name,
        };
        Err(syntax_error(toks, cur.pos, issue))
    }
}

/// `expect` with a token of kind `kind` and text `kname` standing for what is expected.
fn expect_kind(toks: &Vec<TOKEN>, cur: &mut Cursor, kind: TokenType, kname: &str) -> (r: Result<TOKEN, ParseError>)
    ensures
        match r {
            Ok(t) => sp_expect(toks@, old(cur).st(), kind, kname@) == Ok::<_, PErr>((t, final(cur).st())),
            Err(e) => is_err_of(sp_expect(toks@, old(cur).st(), kind, kname@), err_view(e)),
        },
{
    let expected = TOKEN { name: owned(kname), token_type: kind, line: 0, column: 0 };
    expect(toks, cur, &expected)
}

/// Takes the next string-literal number.
pub fn update_string_index(cur: &mut Cursor) -> (r: Result<i64, ParseError>)
    ensures
        match r {
            Ok(i) => take_string(old(cur).st()) == Ok::<_, PErr>((i, final(cur).st())),
            Err(e) => is_err_of(take_string(old(cur).st()), err_view(e)),
        },
{
    if cur.string_index == i64::MAX {
        return Err(ParseError::CounterOverflow);
    }
    let index = cur.string_index;
    cur.string_index = index + 1;
    Ok(index)
}

/// Takes the next label number.
pub fn update_label_index(cur: &mut Cursor) -> (r: Result<i64, ParseError>)
    ensures
        match r {
            Ok(i) => take_label(old(cur).st()) == Ok::<_, PErr>((i, final(cur).st())),
            Err(e) => is_err_of(take_label(old(cur).st()), err_view(e)),
        },
{
    if cur.label_index == i64::MAX {
        return Err(ParseError::CounterOverflow);
    }
    let index = cur.label_index;
    cur.label_index = index + 1;
    Ok(index)
}

/// The value of a boolean literal.
pub fn parse_bool(string: &String) -> (r: Result<bool, ParseError>)
    ensures
        match r {
            Ok(b) => sp_parse_bool(string@) == Ok::<bool, PErr>(b),
            Err(e) => sp_parse_bool(string@) == Err::<bool, PErr>(err_view(e)),
        },
{
    let s = string.as_str();
    if str_eq(s, "true") {
        Ok(true)
    } else if str_eq(s, "false") {
        Ok(false)
    } else {
        Err(ParseError::NotABoolean { text: string.clone() })
    }
}

/// The byte of a character literal.
fn char_byte(text: &String) -> (r: Option<u8>)
    ensures
        r == char_literal_byte(text@),
{
    let t = text.as_str();
    if str_eq(t, "\\n") {
        Some(10u8)
    } else if str_eq(t, "\\\\") {
        Some(92u8)
    } else if str_eq(t, "\\'") {
        Some(39u8)
    } else if str_eq(t, "\\\"") {
        Some(34u8)
    } else if t.unicode_len() == 0 {
        None
    } else {
        let b = t.as_bytes();
        assert(b@ == vstd::utf8::encode_utf8(t@));
        assert(b@.len() >= 1);
        Some(b[0])
    }
}

/// Reads the operator that a token of kind `kind` starts; the cursor is just past that token.
fn read_op(toks: &Vec<TOKEN>, cur: &mut Cursor, kind: TokenType) -> (r: Result<BinaryOp, ParseError>)
    requires
        old(cur).pos <= toks.len(),
    ensures
        match r {
            Ok(op) => sp_read_op(toks@, kind, old(cur).pos as int) == Ok::<(BinaryOp, int), PErr>((op, final(cur).pos as int)),
            Err(e) => sp_read_op(toks@, kind, old(cur).pos as int) == Err::<(BinaryOp, int), PErr>(err_view(e)),
        },
        final(cur).string_index == old(cur).string_index,
        final(cur).label_index == old(cur).label_index,
{
    match kind {
        TokenType::PLUS => Ok(BinaryOp::PLUS),
        TokenType::MINUS => Ok(BinaryOp::MINUS),
        TokenType::STAR => Ok(BinaryOp::MULTIPLICATION),
        TokenType::SLASH => Ok(BinaryOp::DIVISION),
        TokenType::ASSIGN => match kind_at(toks, cur.pos) {
            None => Err(ParseError::OutOfTokens),
            Some(TokenType::ASSIGN) => {
                cur.pos = cur.pos + 1;
                Ok(BinaryOp::EQUAL)
            },
            Some(_) => Err(syntax_error(toks, cur.pos, SyntaxIssue::ComparisonExpected)),
        },
        TokenType::NOT => match kind_at(toks, cur.pos) {
            None => Err(ParseError::OutOfTokens),
            Some(TokenType::ASSIGN) => {
                cur.pos = cur.pos + 1;
                Ok(BinaryOp::NEQUAL)
            },
            Some(TokenType::NAME) => Err(syntax_error(toks, cur.pos, SyntaxIssue::NotVariableUnsupported)),
            Some(_) => Err(syntax_error(toks, cur.pos, SyntaxIssue::ComparisonExpected)),
        },
        TokenType::LCHEV => match kind_at(toks, cur.pos) {
            None => Err(ParseError::OutOfTokens),
            Some(TokenType::ASSIGN) => {
                cur.pos = cur.pos + 1;
                Ok(BinaryOp::LESSEREQ)
            },
            Some(_) => Ok(BinaryOp::LESSER),
        },
        TokenType::RCHEV => match kind_at(toks, cur.pos) {
            None => Err(ParseError::OutOfTokens),
            Some(TokenType::ASSIGN) => {
                cur.pos = cur.pos + 1;
                Ok(BinaryOp::GREATEREQ)
            },
            Some(_) => Ok(BinaryOp::GREATER),
        },
        _ => Ok(BinaryOp::UNKNOWN),
    }
}

/// Reads the operand of `sizeof`; the cursor is just past the `sizeof` token.
fn parse_sizeof(toks: &Vec<TOKEN>, cur: &mut Cursor) -> (r: Result<Expr, ParseError>)
    requires
        old(cur).pos <= toks.len(),
    ensures
        match r {
            Ok(e) => sp_sizeof(toks@, old(cur).st()) == Ok::<(SExpr, PState), PErr>((expr_view(e), final(cur).st())),
            Err(e) => sp_sizeof(toks@, old(cur).st()) == Err::<(SExpr, PState), PErr>(err_view(e)),
        },
        r is Ok ==> old(cur).pos < final(cur).pos <= toks.len(),
{
    if cur.pos >= toks.len() {
        return Err(ParseError::OutOfTokens);
    }
    let p = cur.pos;
    let kind = toks[p].token_type;
    if kind == TokenType::NAME {
        cur.pos = p + 1;
        Ok(Expr::SizeofVar(toks[p].name.clone()))
    } else if kind == TokenType::LPAREN {
        if p + 1 >= toks.len() {
            return Err(ParseError::OutOfTokens);
        }
        let kind2 = toks[p + 1].token_type;
        if kind2 == TokenType::NAME {
            cur.pos = p + 2;
            let _close = expect_kind(toks, cur, TokenType::RPAREN, ")")?;
            Ok(Expr::SizeofVar(toks[p + 1].name.clone()))
        } else if kind2 == TokenType::TYPE {
            let mut var_type = parse_type(&toks[p + 1]);
            if p + 2 >= toks.len() {
                return Err(ParseError::OutOfTokens);
            }
            cur.pos = p + 2;
            if toks[p + 2].token_type == TokenType::STAR {
                var_type = Type::Pointer(Box::new(var_type));
                cur.pos = p + 3;
            }
            let _close = expect_kind(toks, cur, TokenType::RPAREN, ")")?;
            Ok(Expr::SizeofType(var_type))
        } else {
            Err(syntax_error(toks, p + 1, SyntaxIssue::SizeofInner { got: kind2 }))
        }
    } else {
        Err(syntax_error(toks, p, SyntaxIssue::SizeofOperand { got: kind, got_name: toks[p].name.clone() }))
    }
}

/// Reads a primary expression.
pub fn parse_primary(toks: &Vec<TOKEN>, cur: &mut Cursor) -> (r: Result<Expr, ParseError>)
    requires
        old(cur).pos <= toks.len(),
    ensures
        match r {
            Ok(e) => sp_primary(toks@, old(cur).st()) == Ok::<(SExpr, PState), PErr>((expr_view(e), final(cur).st())),
            Err(e) => sp_primary(toks@, old(cur).st()) == Err::<(SExpr, PState), PErr>(err_view(e)),
        },
        r is Ok ==> old(cur).pos < final(cur).pos <= toks.len(),
    decreases toks@.len() - old(cur).pos, 1int,
{
    if cur.pos >= toks.len() {
        return Err(ParseError::OutOfTokens);
    }
    let p = cur.pos;
    cur.pos = p + 1;
    let kind = toks[p].token_type;
    match kind {
        TokenType::NUMBER => match parse_i64(&toks[p].name) {
            Some(v) => Ok(Expr::IntLiteral(v)),
            None => Err(ParseError::BadInteger { text: toks[p].name.clone() }),
        },
        TokenType::NAME => match kind_at(toks, p + 1) {
            None => Err(ParseError::OutOfTokens),
            Some(TokenType::LPAREN) => {
                let call = parse_call(&toks[p], toks, cur)?;
                Ok(Expr::Call(call.0, call.1))
            },
            Some(TokenType::DECIMAL) => {
                cur.pos = p + 2;
                let field = expect_kind(toks, cur, TokenType::NAME, "Any Name")?;
                Ok(Expr::Struct(toks[p].name.clone(), field.name))
            },
            Some(_) => Ok(Expr::Variable(toks[p].name.clone())),
        },
        TokenType::SINGLEQUOTE => {
            if p + 1 >= toks.len() {
                return Err(ParseError::OutOfTokens);
            }
            match char_byte(&toks[p + 1].name) {
                None => Err(ParseError::EmptyCharLiteral),
                Some(character) => {
                    cur.pos = p + 2;
                    let _close = expect_kind(toks, cur, TokenType::SINGLEQUOTE, "'")?;
                    Ok(Expr::CharLiteral(character))
                },
            }
        },
        TokenType::DOUBLEQUOTE => {
            let string = expect_kind(toks, cur, TokenType::STRING, "Any String")?;
            let index = update_string_index(cur)?;
            let _close = expect_kind(toks, cur, TokenType::DOUBLEQUOTE, "\"")?;
            Ok(Expr::StringLiteral(string.name, index))
        },
        TokenType::BOOLEAN => {
            let b = parse_bool(&toks[p].name)?;
            Ok(Expr::BoolLiteral(b))
        },
        TokenType::NOT => Err(syntax_error(toks, p + 1, SyntaxIssue::NotUnsupported)),
        TokenType::STAR => {
            let variable = expect_kind(toks, cur, TokenType::NAME, "Any Name")?;
            Ok(Expr::Dereference(variable.name))
        },
        TokenType::ADDRESSOF => {
            let variable = expect_kind(toks, cur, TokenType::NAME, "Any Name")?;
            Ok(Expr::AddressOf(variable.name))
        },
        TokenType::SIZEOF => parse_sizeof(toks, cur),
        _ => Err(syntax_error(toks, p + 1, SyntaxIssue::InvalidPrimary { got: kind })),
    }
}

/// Reads the arguments of a call to the function named by `fn_name`; the cursor is at the
/// opening parenthesis. Gives the function's name and the arguments.
pub fn parse_call(fn_name: &TOKEN, toks: &Vec<TOKEN>, cur: &mut Cursor) -> (r: Result<(String, Vec<Expr>), ParseError>)
    requires
        old(cur).pos < toks.len(),
    ensures
        match r {
            Ok((n, args)) => n == fn_name.name && sp_call(toks@, fn_name.name@, old(cur).st()) == Ok::<(Seq<SExpr>, PState), PErr>((exprs_view(args@), final(cur).st())),
            Err(e) => sp_call(toks@, fn_name.name@, old(cur).st()) == Err::<(Seq<SExpr>, PState), PErr>(err_view(e)),
        },
        r is Ok ==> old(cur).pos < final(cur).pos <= toks.len(),
    decreases toks@.len() - old(cur).pos, 0int,
{
    let ghost st0 = cur.st();
    cur.pos = cur.pos + 1;
    let mut arguments: Vec<Expr> = Vec::new();
    match kind_at(toks, cur.pos) {
        None => {
            return Err(ParseError::OutOfTokens);
        },
        Some(TokenType::RPAREN) => {},
        Some(_) => {
            let ghost st1 = cur.st();
            loop
                invariant_except_break
                    st0 == old(cur).st(),
                    st0.pos < cur.pos <= toks.len(),
                    st1 == adv(st0, 1),
                    in_range(toks@, st0.pos + 1),
                    toks@[st0.pos + 1].token_type != TokenType::RPAREN,
                    sp_call_args(toks@, fn_name.name@, Seq::empty(), st1) == sp_call_args(toks@, fn_name.name@, exprs_view(arguments@), cur.st()),
                ensures
                    st0 == old(cur).st(),
                    st0.pos < cur.pos < toks.len(),
                    st1 == adv(st0, 1),
                    in_range(toks@, st0.pos + 1),
                    toks@[st0.pos + 1].token_type != TokenType::RPAREN,
                    toks@[cur.pos as int].token_type == TokenType::RPAREN,
                    sp_call_args(toks@, fn_name.name@, Seq::empty(), st1) == Ok::<(Seq<SExpr>, PState), PErr>((exprs_view(arguments@), cur.st())),
                decreases toks@.len() - cur.pos,
            {
                let e = parse_expression(toks, cur, 0)?;
                let ghost old_args = arguments@;
                arguments.push(e);
                proof {
                    lemma_exprs_view_push(old_args, e);
                }
                match kind_at(toks, cur.pos) {
                    None => {
                        return Err(ParseError::OutOfTokens);
                    },
                    Some(TokenType::COMMA) => {
                        cur.pos = cur.pos + 1;
                    },
                    Some(TokenType::RPAREN) => {
                        break;
                    },
                    Some(got) => {
                        let issue = SyntaxIssue::CallArgument {
                            function: fn_name.name.clone(),
                            arguments: arguments,
                            got: got,
                            got_name: toks[cur.pos].name.clone(),
                        };
                        return Err(syntax_error(toks, cur.pos, issue));
                    },
                }
            }
        },
    }
    let _close = expect_kind(toks, cur, TokenType::RPAREN, ")")?;
    Ok((fn_name.name.clone(), arguments))
}

/// Reads an expression whose binary operators bind at least as strongly as
/// `min_precedence`.
pub fn parse_expression(toks: &Vec<TOKEN>, cur: &mut Cursor, min_precedence: u8) -> (r: Result<Expr, ParseError>)
    requires
        old(cur).pos <= toks.len(),
    ensures
        match r {
            Ok(e) => sp_expr(toks@, old(cur).st(), min_precedence as int) == Ok::<(SExpr, PState), PErr>((expr_view(e), final(cur).st())),
            Err(e) => sp_expr(toks@, old(cur).st(), min_precedence as int) == Err::<(SExpr, PState), PErr>(err_view(e)),
        },
        r is Ok ==> old(cur).pos < final(cur).pos <= toks.len(),
    decreases toks@.len() - old(cur).pos, 2int,
{
    let ghost st0 = cur.st();
    let mut left_expr = parse_primary(toks, cur)?;
    loop
        invariant
            st0 == old(cur).st(),
            st0.pos < cur.pos <= toks.len(),
            sp_expr(toks@, st0, min_precedence as int) == sp_expr_loop(toks@, expr_view(left_expr), cur.st(), min_precedence as int),
        decreases toks@.len() - cur.pos,
    {
        if cur.pos >= toks.len() {
            return Err(ParseError::OutOfTokens);
        }
        let kind = toks[cur.pos].token_type;
        let precedence = get_precedence(kind);
        if precedence == 0 || precedence < min_precedence {
            return Ok(left_expr);
        }
        cur.pos = cur.pos + 1;
        let op = read_op(toks, cur, kind)?;
        let right_expr = parse_expression(toks, cur, precedence + 1)?;
        left_expr = Expr::Binary(Box::new(left_expr), op, Box::new(right_expr));
    }
}

/// Whether `st2` lies strictly after `st` and within the tokens.
pub open spec fn after(toks: Seq<TOKEN>, st: PState, st2: PState) -> bool {
    st.pos < st2.pos <= toks.len()
}

/// A declaration, with `st` at its type-name token.
pub open spec fn sp_decl(toks: Seq<TOKEN>, st: PState) -> Result<(SStatement, PState), PErr> {
    if !in_range(toks, st.pos) || !in_range(toks, st.pos + 1) {
        Err(PErr::OutOfTokens)
    } else {
        let ty = spec_parse_type(toks[st.pos].name@);
        let starred = toks[st.pos + 1].token_type == TokenType::STAR;
        let ty1 = if starred { Type::Pointer(Box::new(ty)) } else { ty };
        let st2 = if starred { adv(st, 2) } else { adv(st, 1) };
        match sp_expect(toks, st2, TokenType::NAME, "Any Name"@) {
            Err(e) => Err(e),
            Ok((var, st3)) => {
                if !in_range(toks, st3.pos) {
                    Err(PErr::OutOfTokens)
                } else {
                    let k = toks[st3.pos].token_type;
                    if k == TokenType::ASSIGN {
                        match sp_expr(toks, adv(st3, 1), 0) {
                            Err(e) => Err(e),
                            Ok((e, st4)) => match sp_expect(toks, st4, TokenType::SEMICOLON, ";"@) {
                                Ok((_, st5)) => Ok((SStatement::Declaration(ty1, var.name, e), st5)),
                                Err(e) => Err(e),
                            },
                        }
                    } else if k == TokenType::LBRACK {
                        if !in_range(toks, st3.pos + 1) {
                            Err(PErr::OutOfTokens)
                        } else {
                            match spec_parse_i64(toks[st3.pos + 1].name@) {
                                None => Err(PErr::BadInteger { text: toks[st3.pos + 1].name@ }),
                                Some(size) => match sp_expect(toks, adv(st3, 2), TokenType::RBRACK, "]"@) {
                                    Err(e) => Err(e),
                                    Ok((_, st5)) => match sp_expect(toks, st5, TokenType::SEMICOLON, ";"@) {
                                        Ok((_, st6)) => Ok((SStatement::Declaration(Type::Array(Box::new(ty1), size), var.name, SExpr::Empty), st6)),
                                        Err(e) => Err(e),
                                    },
                                },
                            }
                        }
                    } else if k == TokenType::SEMICOLON {
                        Ok((SStatement::Declaration(ty1, var.name, SExpr::Empty), adv(st3, 1)))
                    } else {
                        Ok((SStatement::Declaration(ty1, var.name, SExpr::Unknown), st3))
                    }
                }
            },
        }
    }
}

/// `NAME++` as a statement: the variable becomes itself plus one.
pub open spec fn increment_of(name: String) -> SStatement {
    SStatement::Reassign(SExpr::Variable(name), SExpr::Binary(Box::new(SExpr::Variable(name)), BinaryOp::PLUS, Box::new(SExpr::IntLiteral(1))))
}

/// A statement that starts with a name, with `st` at that name.
pub open spec fn sp_name_stmt(toks: Seq<TOKEN>, st: PState) -> Result<(SStatement, PState), PErr> {
    if !in_range(toks, st.pos) || !in_range(toks, st.pos + 1) {
        Err(PErr::OutOfTokens)
    } else {
        let name = toks[st.pos].name;
        let k = toks[st.pos + 1].token_type;
        if k == TokenType::LPAREN {
            match sp_call(toks, name@, adv(st, 1)) {
                Err(e) => Err(e),
                Ok((args, st2)) => match sp_expect(toks, st2, TokenType::SEMICOLON, ";"@) {
                    Ok((_, st3)) => Ok((SStatement::Call(name, args), st3)),
                    Err(e) => Err(e),
                },
            }
        } else if k == TokenType::ASSIGN {
            match sp_expr(toks, adv(st, 2), 0) {
                Err(e) => Err(e),
                Ok((e, st2)) => match sp_expect(toks, st2, TokenType::SEMICOLON, ";"@) {
                    Ok((_, st3)) => Ok((SStatement::Reassign(SExpr::Variable(name), e), st3)),
                    Err(e) => Err(e),
                },
            }
        } else if k == TokenType::DECIMAL {
            match sp_expect(toks, adv(st, 2), TokenType::NAME, "Any Name"@) {
                Err(e) => Err(e),
                Ok((field, st2)) => match sp_expect(toks, st2, TokenType::ASSIGN, "="@) {
                    Err(e) => Err(e),
                    Ok((_, st3)) => match sp_expr(toks, st3, 0) {
                        Err(e) => Err(e),
                        Ok((e, st4)) => match sp_expect(toks, st4, TokenType::SEMICOLON, ";"@) {
                            Ok((_, st5)) => Ok((SStatement::Reassign(SExpr::Struct(name, field.name), e), st5)),
                            Err(e) => Err(e),
                        },
                    },
                },
            }
        } else if k == TokenType::PLUS {
            if !in_range(toks, st.pos + 2) {
                Err(PErr::OutOfTokens)
            } else if toks[st.pos + 2].token_type == TokenType::PLUS {
                if !in_range(toks, st.pos + 3) {
                    Err(PErr::OutOfTokens)
                } else {
                    let k3 = toks[st.pos + 3].token_type;
                    if k3 == TokenType::SEMICOLON {
                        Ok((increment_of(name), adv(st, 4)))
                    } else if k3 != TokenType::RPAREN {
                        Err(PErr::IncrementEnd { got: k3 })
                    } else {
                        Ok((increment_of(name), adv(st, 3)))
                    }
                }
            } else {
                Err(syntax(toks, st.pos + 2, SIssue::AfterName { got: toks[st.pos + 2].token_type, got_name: toks[st.pos + 2].name@ }))
            }
        } else if k == TokenType::SEMICOLON {
            Ok((SStatement::Unknown, adv(st, 2)))
        } else {
            Err(syntax(toks, st.pos + 1, SIssue::AfterName { got: k, got_name: toks[st.pos + 1].name@ }))
        }
    }
}

/// `if (cond) { ... }` or `while (cond) { ... }`, with `st` at the keyword; the label is
/// taken after the body.
pub open spec fn sp_cond_stmt(toks: Seq<TOKEN>, st: PState, is_while: bool) -> Result<(SStatement, PState), PErr>
    decreases toks.len() - st.pos, 0int,
{
    match sp_expect(toks, adv(st, 1), TokenType::LPAREN, "("@) {
        Err(e) => Err(e),
        Ok((_, st1)) => match sp_expr(toks, st1, 0) {
            Err(e) => Err(e),
            Ok((cond, st2)) => {
                if !after(toks, st, st2) {
                    Err(PErr::OutOfTokens)
                } else {
                    match sp_expect(toks, st2, TokenType::RPAREN, ")"@) {
                        Err(e) => Err(e),
                        Ok((_, st3)) => match sp_expect(toks, st3, TokenType::LBRACE, "{"@) {
                            Err(e) => Err(e),
                            Ok((_, st4)) => match sp_body(toks, Seq::empty(), st4) {
                                Err(e) => Err(e),
                                Ok((body, st5)) => match sp_expect(toks, st5, TokenType::RBRACE, "}"@) {
                                    Err(e) => Err(e),
                                    Ok((_, st6)) => match take_label(st6) {
                                        Err(e) => Err(e),
                                        Ok((idx, st7)) => Ok((
                                            if is_while { SStatement::While(cond, body, idx) } else { SStatement::If(cond, body, idx) },
                                            st7,
                                        )),
                                    },
                                },
                            },
                        },
                    }
                }
            },
        },
    }
}

/// `else { ... }`, with `st` at the keyword; the label is taken before the body.
pub open spec fn sp_else(toks: Seq<TOKEN>, st: PState) -> Result<(SStatement, PState), PErr>
    decreases toks.len() - st.pos, 0int,
{
    match sp_expect(toks, adv(st, 1), TokenType::LBRACE, "{"@) {
        Err(e) => Err(e),
        Ok((_, st1)) => match take_label(st1) {
            Err(e) => Err(e),
            Ok((idx, st2)) => {
                if !after(toks, st, st2) {
                    Err(PErr::OutOfTokens)
                } else {
                    match sp_body(toks, Seq::empty(), st2) {
                        Err(e) => Err(e),
                        Ok((body, st3)) => match sp_expect(toks, st3, TokenType::RBRACE, "}"@) {
                            Err(e) => Err(e),
                            Ok((_, st4)) => Ok((SStatement::Else(body, idx), st4)),
                        },
                    }
                }
            },
        },
    }
}

/// `struct NAME { fields };` or `struct NAME var;`, with `st` at the keyword.
pub open spec fn sp_struct_stmt(toks: Seq<TOKEN>, st: PState) -> Result<(SStatement, PState), PErr>
    decreases toks.len() - st.pos, 0int,
{
    match sp_expect(toks, adv(st, 1), TokenType::NAME, "Any Name"@) {
        Err(e) => Err(e),
        Ok((name, st1)) => {
            if !in_range(toks, st1.pos) || !after(toks, st, st1) {
                Err(PErr::OutOfTokens)
            } else {
                let k = toks[st1.pos].token_type;
                if k == TokenType::LBRACE {
                    match sp_fields(toks, Seq::empty(), adv(st1, 1)) {
                        Err(e) => Err(e),
                        Ok((decls, st2)) => match sp_expect(toks, st2, TokenType::RBRACE, "}"@) {
                            Err(e) => Err(e),
                            Ok((_, st3)) => match sp_expect(toks, st3, TokenType::SEMICOLON, ";"@) {
                                Err(e) => Err(e),
                                Ok((_, st4)) => Ok((SStatement::Struct(name.name, decls), st4)),
                            },
                        },
                    }
                } else if k == TokenType::NAME {
                    match sp_expect(toks, adv(st1, 1), TokenType::SEMICOLON, ";"@) {
                        Err(e) => Err(e),
                        Ok((_, st3)) => Ok((SStatement::Declaration(Type::Struct(name.name), toks[st1.pos].name, SExpr::Empty), st3)),
                    }
                } else {
                    Err(syntax(toks, st1.pos, SIssue::StructDeclaration { got: k }))
                }
            }
        },
    }
}

/// `{ ... }`, with `st` at the opening brace.
pub open spec fn sp_block(toks: Seq<TOKEN>, st: PState) -> Result<(SStatement, PState), PErr>
    decreases toks.len() - st.pos, 0int,
{
    if !in_range(toks, st.pos) {
        Err(PErr::OutOfTokens)
    } else {
        match sp_body(toks, Seq::empty(), adv(st, 1)) {
            Err(e) => Err(e),
            Ok((body, st1)) => match sp_expect(toks, st1, TokenType::RBRACE, "}"@) {
                Err(e) => Err(e),
                Ok((_, st2)) => Ok((SStatement::BlockScope(body), st2)),
            },
        }
    }
}

/// `for (init cond; step) { ... }`, read as a block that holds the initial statement and
/// a `while` loop whose body ends with the step; the label is taken after the body.
pub open spec fn sp_for(toks: Seq<TOKEN>, st: PState) -> Result<(SStatement, PState), PErr>
    decreases toks.len() - st.pos, 0int,
{
    match sp_expect(toks, adv(st, 1), TokenType::LPAREN, "("@) {
        Err(e) => Err(e),
        Ok((_, st1)) => {
            if !after(toks, st, st1) {
                Err(PErr::OutOfTokens)
            } else {
                match sp_stmt(toks, st1) {
                    Err(e) => Err(e),
                    Ok((init, st2)) => {
                        if !after(toks, st1, st2) {
                            Err(PErr::OutOfTokens)
                        } else {
                            match sp_expr(toks, st2, 0) {
                                Err(e) => Err(e),
                                Ok((cond, st3)) => match sp_expect(toks, st3, TokenType::SEMICOLON, ";"@) {
                                    Err(e) => Err(e),
                                    Ok((_, st4)) => {
                                        if !after(toks, st, st4) {
                                            Err(PErr::OutOfTokens)
                                        } else {
                                            match sp_stmt(toks, st4) {
                                                Err(e) => Err(e),
                                                Ok((step, st5)) => {
                                                    if !after(toks, st4, st5) {
                                                        Err(PErr::OutOfTokens)
                                                    } else {
                                                        match sp_expect(toks, st5, TokenType::RPAREN, ")"@) {
                                                            Err(e) => Err(e),
                                                            Ok((_, st6)) => match sp_expect(toks, st6, TokenType::LBRACE, "{"@) {
                                                                Err(e) => Err(e),
                                                                Ok((_, st7)) => match sp_body(toks, Seq::empty(), st7) {
                                                                    Err(e) => Err(e),
                                                                    Ok((body, st8)) => match take_label(st8) {
                                                                        Err(e) => Err(e),
                                                                        Ok((idx, st9)) => match sp_expect(toks, st9, TokenType::RBRACE, "}"@) {
                                                                            Err(e) => Err(e),
                                                                            Ok((_, st10)) => Ok((
                                                                                SStatement::BlockScope(seq![init, SStatement::While(cond, body.push(step), idx)]),
                                                                                st10,
                                                                            )),
                                                                        },
                                                                    },
                                                                },
                                                            },
                                                        }
                                                    }
                                                },
                                            }
                                        }
                                    },
                                },
                            }
                        }
                    },
                }
            }
        },
    }
}

/// `parse_statement`
pub open spec fn sp_stmt(toks: Seq<TOKEN>, st: PState) -> Result<(SStatement, PState), PErr>
    decreases toks.len() - st.pos, 1int,
{
    if !in_range(toks, st.pos) {
        Err(PErr::OutOfTokens)
    } else {
        let cur = toks[st.pos];
        match cur.token_type {
            TokenType::TYPE => sp_decl(toks, st),
            TokenType::RETURN => match sp_expr(toks, adv(st, 1), 0) {
                Err(e) => Err(e),
                Ok((e, st1)) => match sp_expect(toks, st1, TokenType::SEMICOLON, ";"@) {
                    Ok((_, st2)) => Ok((SStatement::Return(e), st2)),
                    Err(e) => Err(e),
                },
            },
            TokenType::NAME => sp_name_stmt(toks, st),
            TokenType::IF => sp_cond_stmt(toks, st, false),
            TokenType::WHILE => sp_cond_stmt(toks, st, true),
            TokenType::ELSE => sp_else(toks, st),
            TokenType::STRUCT => sp_struct_stmt(toks, st),
            TokenType::LBRACE => sp_block(toks, st),
            TokenType::FOR => sp_for(toks, st),
            TokenType::BREAK => match take_label(adv(st, 1)) {
                Err(e) => Err(e),
                Ok((idx, st1)) => match sp_expect(toks, st1, TokenType::SEMICOLON, ";"@) {
                    Ok((_, st2)) => Ok((SStatement::Break(idx), st2)),
                    Err(e) => Err(e),
                },
            },
            TokenType::CONTINUE => match sp_expect(toks, adv(st, 1), TokenType::SEMICOLON, ";"@) {
                Ok((_, st2)) => Ok((SStatement::Continue, st2)),
                Err(e) => Err(e),
            },
            _ => Err(syntax(toks, st.pos + 1, SIssue::InvalidStatement { got: cur.token_type, got_name: cur.name@ })),
        }
    }
}

/// Statements up to the next closing brace (not consumed), after those already read.
pub open spec fn sp_body(toks: Seq<TOKEN>, acc: Seq<SStatement>, st: PState) -> Result<(Seq<SStatement>, PState), PErr>
    decreases toks.len() - st.pos, 2int,
{
    if !in_range(toks, st.pos) {
        Err(PErr::OutOfTokens)
    } else if toks[st.pos].token_type == TokenType::RBRACE {
        Ok((acc, st))
    } else {
        match sp_stmt(toks, st) {
            Err(e) => Err(e),
            Ok((s, st1)) => {
                if !after(toks, st, st1) {
                    Err(PErr::OutOfTokens)
                } else {
                    sp_body(toks, acc.push(s), st1)
                }
            },
        }
    }
}

/// The fields of a structure up to the closing brace (not consumed): declarations
/// without a value.
pub open spec fn sp_fields(toks: Seq<TOKEN>, acc: Seq<SStatement>, st: PState) -> Result<(Seq<SStatement>, PState), PErr>
    decreases toks.len() - st.pos, 2int,
{
    if !in_range(toks, st.pos) {
        Err(PErr::OutOfTokens)
    } else if toks[st.pos].token_type == TokenType::RBRACE {
        Ok((acc, st))
    } else {
        match sp_stmt(toks, st) {
            Err(e) => Err(e),
            Ok((s, st1)) => {
                if !after(toks, st, st1) {
                    Err(PErr::OutOfTokens)
                } else {
                    match s {
                        SStatement::Declaration(_, _, SExpr::Empty) => sp_fields(toks, acc.push(s), st1),
                        SStatement::Declaration(_, _, _) => Err(syntax(toks, st1.pos, SIssue::FieldWithValue)),
                        _ => Err(syntax(toks, st1.pos, SIssue::FieldNotDeclaration { statement: s })),
                    }
                }
            },
        }
    }
}

/// Reads a declaration; the cursor is at its type name.
fn parse_decl(toks: &Vec<TOKEN>, cur: &mut Cursor) -> (r: Result<Statement, ParseError>)
    requires
        old(cur).pos < toks.len(),
    ensures
        match r {
            Ok(st) => sp_decl(toks@, old(cur).st()) == Ok::<_, PErr>((stmt_view(st), final(cur).st())),
            Err(e) => is_err_of(sp_decl(toks@, old(cur).st()), err_view(e)),
        },
        r is Ok ==> after(toks@, old(cur).st(), final(cur).st()),
{
    let p = cur.pos;
    if p + 1 >= toks.len() {
        return Err(ParseError::OutOfTokens);
    }
    let mut var_type = parse_type(&toks[p]);
    cur.pos = p + 1;
    if toks[p + 1].token_type == TokenType::STAR {
        var_type = Type::Pointer(Box::new(var_type));
        cur.pos = p + 2;
    }
    let var_name = expect_kind(toks, cur, TokenType::NAME, "Any Name")?;
    match kind_at(toks, cur.pos) {
        None => Err(ParseError::OutOfTokens),
        Some(TokenType::ASSIGN) => {
            cur.pos = cur.pos + 1;
            let expr = parse_expression(toks, cur, 0)?;
            let _semicolon = expect_kind(toks, cur, TokenType::SEMICOLON, ";")?;
            Ok(Statement::Declaration(var_type, var_name.name, expr))
        },
        Some(TokenType::LBRACK) => {
            let q = cur.pos + 1;
            if q >= toks.len() {
                return Err(ParseError::OutOfTokens);
            }
            let size = match parse_i64(&toks[q].name) {
                Some(v) => v,
                None => {
                    return Err(ParseError::BadInteger { text: toks[q].name.clone() });
                },
            };
            cur.pos = q + 1;
            let _close = expect_kind(toks, cur, TokenType::RBRACK, "]")?;
            let _semicolon = expect_kind(toks, cur, TokenType::SEMICOLON, ";")?;
            Ok(Statement::Declaration(Type::Array(Box::new(var_type), size), var_name.name, Expr::Empty))
        },
        Some(TokenType::SEMICOLON) => {
            cur.pos = cur.pos + 1;
            Ok(Statement::Declaration(var_type, var_name.name, Expr::Empty))
        },
        Some(_) => Ok(Statement::Declaration(var_type, var_name.name, Expr::Unknown)),
    }
}

/// `NAME++` as a statement.
fn increment(name: &String) -> (s: Statement)
    ensures
        stmt_view(s) == increment_of(*name),
{
    let left = Expr::Variable(name.clone());
    let inner = Expr::Variable(name.clone());
    let one = Expr::IntLiteral(1);
    assert(expr_view(inner) == SExpr::Variable(*name));
    assert(expr_view(one) == SExpr::IntLiteral(1));
    let sum = Expr::Binary(Box::new(inner), BinaryOp::PLUS, Box::new(one));
    assert(expr_view(sum) == SExpr::Binary(Box::new(SExpr::Variable(*name)), BinaryOp::PLUS, Box::new(SExpr::IntLiteral(1))));
    Statement::Reassign(left, sum)
}

/// Reads a statement that starts with a name; the cursor is at that name.
fn parse_name_stmt(toks: &Vec<TOKEN>, cur: &mut Cursor) -> (r: Result<Statement, ParseError>)
    requires
        old(cur).pos < toks.len(),
    ensures
        match r {
            Ok(st) => sp_name_stmt(toks@, old(cur).st()) == Ok::<_, PErr>((stmt_view(st), final(cur).st())),
            Err(e) => is_err_of(sp_name_stmt(toks@, old(cur).st()), err_view(e)),
        },
        r is Ok ==> after(toks@, old(cur).st(), final(cur).st()),
{
    let p = cur.pos;
    if p + 1 >= toks.len() {
        return Err(ParseError::OutOfTokens);
    }
    let k = toks[p + 1].token_type;
    if k == TokenType::LPAREN {
        cur.pos = p + 1;
        let call = parse_call(&toks[p], toks, cur)?;
        let _semicolon = expect_kind(toks, cur, TokenType::SEMICOLON, ";")?;
        Ok(Statement::Call(call.0, call.1))
    } else if k == TokenType::ASSIGN {
        cur.pos = p + 2;
        let expr = parse_expression(toks, cur, 0)?;
        let _semicolon = expect_kind(toks, cur, TokenType::SEMICOLON, ";")?;
        Ok(Statement::Reassign(Expr::Variable(toks[p].name.clone()), expr))
    } else if k == TokenType::DECIMAL {
        cur.pos = p + 2;
        let field_name = expect_kind(toks, cur, TokenType::NAME, "Any Name")?;
        let _assign = expect_kind(toks, cur, TokenType::ASSIGN, "=")?;
        let expression = parse_expression(toks, cur, 0)?;
        let _semicolon = expect_kind(toks, cur, TokenType::SEMICOLON, ";")?;
        Ok(Statement::Reassign(Expr::Struct(toks[p].name.clone(), field_name.name), expression))
    } else if k == TokenType::PLUS {
        if p + 2 >= toks.len() {
            return Err(ParseError::OutOfTokens);
        }
        if toks[p + 2].token_type == TokenType::PLUS {
            if p + 3 >= toks.len() {
                return Err(ParseError::OutOfTokens);
            }
            let k3 = toks[p + 3].token_type;
            if k3 == TokenType::SEMICOLON {
                cur.pos = p + 4;
            } else if k3 != TokenType::RPAREN {
                return Err(ParseError::IncrementEnd { got: k3 });
            } else {
                cur.pos = p + 3;
            }
            Ok(increment(&toks[p].name))
        } else {
            Err(syntax_error(toks, p + 2, SyntaxIssue::AfterName { got: toks[p + 2].token_type, got_name: toks[p + 2].name.clone() }))
        }
    } else if k == TokenType::SEMICOLON {
        cur.pos = p + 2;
        Ok(Statement::Unknown)
    } else {
        Err(syntax_error(toks, p + 1, SyntaxIssue::AfterName { got: k, got_name: toks[p + 1].name.clone() }))
    }
}

/// Reads `if` or `while` with its condition and body; the cursor is at the keyword.
fn parse_cond_stmt(toks: &Vec<TOKEN>, cur: &mut Cursor, is_while: bool) -> (r: Result<Statement, ParseError>)
    requires
        old(cur).pos < toks.len(),
    ensures
        match r {
            Ok(st) => sp_cond_stmt(toks@, old(cur).st(), is_while) == Ok::<_, PErr>((stmt_view(st), final(cur).st())),
            Err(e) => is_err_of(sp_cond_stmt(toks@, old(cur).st(), is_while), err_view(e)),
        },
        r is Ok ==> after(toks@, old(cur).st(), final(cur).st()),
    decreases toks@.len() - old(cur).pos, 0int,
{
    let ghost st0 = cur.st();
    cur.pos = cur.pos + 1;
    let _open = expect_kind(toks, cur, TokenType::LPAREN, "(")?;
    let expression = parse_expression(toks, cur, 0)?;
    let _close = expect_kind(toks, cur, TokenType::RPAREN, ")")?;
    let _brace = expect_kind(toks, cur, TokenType::LBRACE, "{")?;
    let body = parse_body(toks, cur)?;
    let _end = expect_kind(toks, cur, TokenType::RBRACE, "}")?;
    let idx = update_label_index(cur)?;
    if is_while {
        Ok(Statement::While(expression, body, idx))
    } else {
        Ok(Statement::If(expression, body, idx))
    }
}

/// Reads `else` with its body; the cursor is at the keyword.
fn parse_else(toks: &Vec<TOKEN>, cur: &mut Cursor) -> (r: Result<Statement, ParseError>)
    requires
        old(cur).pos < toks.len(),
    ensures
        match r {
            Ok(st) => sp_else(toks@, old(cur).st()) == Ok::<_, PErr>((stmt_view(st), final(cur).st())),
            Err(e) => is_err_of(sp_else(toks@, old(cur).st()), err_view(e)),
        },
        r is Ok ==> after(toks@, old(cur).st(), final(cur).st()),
    decreases toks@.len() - old(cur).pos, 0int,
{
    cur.pos = cur.pos + 1;
    let _brace = expect_kind(toks, cur, TokenType::LBRACE, "{")?;
    let idx = update_label_index(cur)?;
    let body = parse_body(toks, cur)?;
    let _end = expect_kind(toks, cur, TokenType::RBRACE, "}")?;
    Ok(Statement::Else(body, idx))
}

/// Reads a structure definition or a structure variable; the cursor is at `struct`.
fn parse_struct_stmt(toks: &Vec<TOKEN>, cur: &mut Cursor) -> (r: Result<Statement, ParseError>)
    requires
        old(cur).pos < toks.len(),
    ensures
        match r {
            Ok(st) => sp_struct_stmt(toks@, old(cur).st()) == Ok::<_, PErr>((stmt_view(st), final(cur).st())),
            Err(e) => is_err_of(sp_struct_stmt(toks@, old(cur).st()), err_view(e)),
        },
        r is Ok ==> after(toks@, old(cur).st(), final(cur).st()),
    decreases toks@.len() - old(cur).pos, 0int,
{
    cur.pos = cur.pos + 1;
    let name = expect_kind(toks, cur, TokenType::NAME, "Any Name")?;
    let q = cur.pos;
    if q >= toks.len() {
        return Err(ParseError::OutOfTokens);
    }
    let k = toks[q].token_type;
    if k == TokenType::LBRACE {
        cur.pos = q + 1;
        let declarations = parse_fields(toks, cur)?;
        let _end = expect_kind(toks, cur, TokenType::RBRACE, "}")?;
        let _semicolon = expect_kind(toks, cur, TokenType::SEMICOLON, ";")?;
        Ok(Statement::Struct(name.name, declarations))
    } else if k == TokenType::NAME {
        cur.pos = q + 1;
        let _semicolon = expect_kind(toks, cur, TokenType::SEMICOLON, ";")?;
        Ok(Statement::Declaration(Type::Struct(name.name), toks[q].name.clone(), Expr::Empty))
    } else {
        Err(syntax_error(toks, q, SyntaxIssue::StructDeclaration { got: k }))
    }
}

/// Reads a block; the cursor is at its opening brace.
fn parse_block(toks: &Vec<TOKEN>, cur: &mut Cursor) -> (r: Result<Statement, ParseError>)
    requires
        old(cur).pos < toks.len(),
    ensures
        match r {
            Ok(st) => sp_block(toks@, old(cur).st()) == Ok::<_, PErr>((stmt_view(st), final(cur).st())),
            Err(e) => is_err_of(sp_block(toks@, old(cur).st()), err_view(e)),
        },
        r is Ok ==> after(toks@, old(cur).st(), final(cur).st()),
    decreases toks@.len() - old(cur).pos, 0int,
{
    cur.pos = cur.pos + 1;
    let body = parse_body(toks, cur)?;
    let _end = expect_kind(toks, cur, TokenType::RBRACE, "}")?;
    Ok(Statement::BlockScope(body))
}

/// Reads a `for` loop; the cursor is at the keyword.
#[verifier::rlimit(60)]
fn parse_for(toks: &Vec<TOKEN>, cur: &mut Cursor) -> (r: Result<Statement, ParseError>)
    requires
        old(cur).pos < toks.len(),
    ensures
        match r {
            Ok(st) => sp_for(toks@, old(cur).st()) == Ok::<_, PErr>((stmt_view(st), final(cur).st())),
            Err(e) => is_err_of(sp_for(toks@, old(cur).st()), err_view(e)),
        },
        r is Ok ==> after(toks@, old(cur).st(), final(cur).st()),
    decreases toks@.len() - old(cur).pos, 0int,
{
    cur.pos = cur.pos + 1;
    let _open = expect_kind(toks, cur, TokenType::LPAREN, "(")?;
    let init = parse_statement(toks, cur)?;
    let condition = parse_expression(toks, cur, 0)?;
    let _semicolon = expect_kind(toks, cur, TokenType::SEMICOLON, ";")?;
    let step = parse_statement(toks, cur)?;
    let _close = expect_kind(toks, cur, TokenType::RPAREN, ")")?;
    let _brace = expect_kind(toks, cur, TokenType::LBRACE, "{")?;
    let mut for_loop_body = parse_body(toks, cur)?;
    let ghost body_before = for_loop_body@;
    let ghost gstep = step;
    let ghost ginit = init;
    let ghost gcond = condition;
    for_loop_body.push(step);
    proof {
        lemma_stmts_view_push(body_before, gstep);
    }
    let idx = update_label_index(cur)?;
    let ghost gbody = for_loop_body@;
    let the_loop = Statement::While(condition, for_loop_body, idx);
    assert(stmt_view(the_loop) == SStatement::While(expr_view(gcond), stmts_view(body_before).push(stmt_view(gstep)), idx));
    let mut block_scope_body: Vec<Statement> = Vec::new();
    block_scope_body.push(init);
    let ghost one = block_scope_body@;
    block_scope_body.push(the_loop);
    proof {
        lemma_stmts_view_push(Seq::<Statement>::empty(), ginit);
        assert(Seq::<Statement>::empty().push(ginit) =~= one);
        lemma_stmts_view_push(one, the_loop);
        assert(one.push(the_loop) =~= block_scope_body@);
        assert(stmts_view(Seq::<Statement>::empty()) =~= Seq::<SStatement>::empty());
        assert(stmts_view(block_scope_body@) =~= seq![stmt_view(ginit), stmt_view(the_loop)]);
    }
    let _end = expect_kind(toks, cur, TokenType::RBRACE, "}")?;
    Ok(Statement::BlockScope(block_scope_body))
}

/// Reads one statement.
pub fn parse_statement(toks: &Vec<TOKEN>, cur: &mut Cursor) -> (r: Result<Statement, ParseError>)
    requires
        old(cur).pos <= toks.len(),
    ensures
        match r {
            Ok(st) => sp_stmt(toks@, old(cur).st()) == Ok::<_, PErr>((stmt_view(st), final(cur).st())),
            Err(e) => is_err_of(sp_stmt(toks@, old(cur).st()), err_view(e)),
        },
        r is Ok ==> after(toks@, old(cur).st(), final(cur).st()),
    decreases toks@.len() - old(cur).pos, 1int,
{
    if cur.pos >= toks.len() {
        return Err(ParseError::OutOfTokens);
    }
    let p = cur.pos;
    match toks[p].token_type {
        TokenType::TYPE => parse_decl(toks, cur),
        TokenType::RETURN => {
            cur.pos = p + 1;
            let expression = parse_expression(toks, cur, 0)?;
            let _semicolon = expect_kind(toks, cur, TokenType::SEMICOLON, ";")?;
            Ok(Statement::Return(expression))
        },
        TokenType::NAME => parse_name_stmt(toks, cur),
        TokenType::IF => parse_cond_stmt(toks, cur, false),
        TokenType::WHILE => parse_cond_stmt(toks, cur, true),
        TokenType::ELSE => parse_else(toks, cur),
        TokenType::STRUCT => parse_struct_stmt(toks, cur),
        TokenType::LBRACE => parse_block(toks, cur),
        TokenType::FOR => parse_for(toks, cur),
        TokenType::BREAK => {
            cur.pos = p + 1;
            let idx = update_label_index(cur)?;
            let _semicolon = expect_kind(toks, cur, TokenType::SEMICOLON, ";")?;
            Ok(Statement::Break(idx))
        },
        TokenType::CONTINUE => {
            cur.pos = p + 1;
            let _semicolon = expect_kind(toks, cur, TokenType::SEMICOLON, ";")?;
            Ok(Statement::Continue)
        },
        _ => Err(syntax_error(toks, p + 1, SyntaxIssue::InvalidStatement { got: toks[p].token_type, got_name: toks[p].name.clone() })),
    }
}

/// Reads statements up to the next closing brace, which stays unread.
fn parse_body(toks: &Vec<TOKEN>, cur: &mut Cursor) -> (r: Result<Vec<Statement>, ParseError>)
    requires
        old(cur).pos <= toks.len(),
    ensures
        match r {
            Ok(v) => sp_body(toks@, Seq::empty(), old(cur).st()) == Ok::<_, PErr>((stmts_view(v@), final(cur).st())),
            Err(e) => is_err_of(sp_body(toks@, Seq::empty(), old(cur).st()), err_view(e)),
        },
        r is Ok ==> old(cur).pos <= final(cur).pos < toks.len(),
    decreases toks@.len() - old(cur).pos, 2int,
{
    let ghost st0 = cur.st();
    let mut body: Vec<Statement> = Vec::new();
    assert(stmts_view(body@) =~= Seq::<SStatement>::empty());
    loop
        invariant
            st0 == old(cur).st(),
            st0.pos <= cur.pos <= toks.len(),
            sp_body(toks@, Seq::empty(), st0) == sp_body(toks@, stmts_view(body@), cur.st()),
        decreases toks@.len() - cur.pos,
    {
        match kind_at(toks, cur.pos) {
            None => {
                return Err(ParseError::OutOfTokens);
            },
            Some(TokenType::RBRACE) => {
                return Ok(body);
            },
            Some(_) => {},
        }
        let statement = parse_statement(toks, cur)?;
        let ghost before = body@;
        body.push(statement);
        proof {
            lemma_stmts_view_push(before, statement);
        }
    }
}

/// Reads the fields of a structure up to the closing brace, which stays unread.
fn parse_fields(toks: &Vec<TOKEN>, cur: &mut Cursor) -> (r: Result<Vec<Statement>, ParseError>)
    requires
        old(cur).pos <= toks.len(),
    ensures
        match r {
            Ok(v) => sp_fields(toks@, Seq::empty(), old(cur).st()) == Ok::<_, PErr>((stmts_view(v@), final(cur).st())),
            Err(e) => is_err_of(sp_fields(toks@, Seq::empty(), old(cur).st()), err_view(e)),
        },
        r is Ok ==> old(cur).pos <= final(cur).pos < toks.len(),
    decreases toks@.len() - old(cur).pos, 2int,
{
    let ghost st0 = cur.st();
    let mut declarations: Vec<Statement> = Vec::new();
    assert(stmts_view(declarations@) =~= Seq::<SStatement>::empty());
    loop
        invariant
            st0 == old(cur).st(),
            st0.pos <= cur.pos <= toks.len(),
            sp_fields(toks@, Seq::empty(), st0) == sp_fields(toks@, stmts_view(declarations@), cur.st()),
        decreases toks@.len() - cur.pos,
    {
        match kind_at(toks, cur.pos) {
            None => {
                return Err(ParseError::OutOfTokens);
            },
            Some(TokenType::RBRACE) => {
                return Ok(declarations);
            },
            Some(_) => {},
        }
        let statement = parse_statement(toks, cur)?;
        match statement {
            Statement::Declaration(_, _, Expr::Empty) => {
                let ghost before = declarations@;
                declarations.push(statement);
                proof {
                    lemma_stmts_view_push(before, statement);
                }
            },
            Statement::Declaration(_, _, _) => {
                return Err(syntax_error(toks, cur.pos, SyntaxIssue::FieldWithValue));
            },
            _ => {
                return Err(syntax_error(toks, cur.pos, SyntaxIssue::FieldNotDeclaration { statement }));
            },
        }
    }
}

/// The parameters of a function from `st` on, after those already read, up to the
/// closing parenthesis (not consumed).
pub open spec fn sp_params(toks: Seq<TOKEN>, acc: Seq<FunctionArgDeclaration>, st: PState) -> Result<(Seq<FunctionArgDeclaration>, PState), PErr>
    decreases toks.len() - st.pos,
{
    if !in_range(toks, st.pos) {
        Err(PErr::OutOfTokens)
    } else {
        let t = toks[st.pos];
        if spec_is_type(t.name@) {
            if !in_range(toks, st.pos + 1) {
                Err(PErr::OutOfTokens)
            } else {
                let ty = spec_parse_type(t.name@);
                let starred = toks[st.pos + 1].token_type == TokenType::STAR;
                let ty1 = if starred { Type::Pointer(Box::new(ty)) } else { ty };
                let st2 = if starred { adv(st, 2) } else { adv(st, 1) };
                match sp_expect(toks, st2, TokenType::NAME, "Any Name"@) {
                    Err(e) => Err(e),
                    Ok((arg, st3)) => {
                        let acc2 = acc.push(FunctionArgDeclaration { var_type: ty1, name: arg.name });
                        if !in_range(toks, st3.pos) {
                            Err(PErr::OutOfTokens)
                        } else if toks[st3.pos].token_type == TokenType::COMMA {
                            sp_params(toks, acc2, adv(st3, 1))
                        } else if toks[st3.pos].token_type == TokenType::RPAREN {
                            Ok((acc2, st3))
                        } else {
                            Err(syntax(toks, st3.pos, SIssue::ParameterSeparator { got: toks[st3.pos].token_type }))
                        }
                    },
                }
            }
        } else {
            Err(syntax(toks, st.pos, SIssue::ParameterType { got: t.token_type }))
        }
    }
}

/// `parse_function`: a return type, a name, the parameters and the body.
pub open spec fn sp_function(toks: Seq<TOKEN>, st: PState) -> Result<(SFunction, PState), PErr> {
    match sp_expect(toks, st, TokenType::TYPE, "Any Type"@) {
        Err(e) => Err(e),
        Ok((_, st1)) => match sp_expect(toks, st1, TokenType::NAME, "Any Name"@) {
            Err(e) => Err(e),
            Ok((fname, st2)) => match sp_expect(toks, st2, TokenType::LPAREN, "("@) {
                Err(e) => Err(e),
                Ok((_, st3)) => {
                    if !in_range(toks, st3.pos) {
                        Err(PErr::OutOfTokens)
                    } else {
                        let params = if toks[st3.pos].token_type != TokenType::RPAREN {
                            sp_params(toks, Seq::empty(), st3)
                        } else {
                            Ok((Seq::empty(), st3))
                        };
                        match params {
                            Err(e) => Err(e),
                            Ok((args, st4)) => match sp_expect(toks, st4, TokenType::RPAREN, ")"@) {
                                Err(e) => Err(e),
                                Ok((_, st5)) => match sp_expect(toks, st5, TokenType::LBRACE, "{"@) {
                                    Err(e) => Err(e),
                                    Ok((_, st6)) => match sp_body(toks, Seq::empty(), st6) {
                                        Err(e) => Err(e),
                                        Ok((body, st7)) => match sp_expect(toks, st7, TokenType::RBRACE, "}"@) {
                                            Err(e) => Err(e),
                                            Ok((_, st8)) => Ok((SFunction { name: fname.name, args, body }, st8)),
                                        },
                                    },
                                },
                            },
                        }
                    }
                },
            },
        },
    }
}

/// Functions until the end of the tokens, after those already read.
pub open spec fn sp_functions(toks: Seq<TOKEN>, acc: Seq<SFunction>, st: PState) -> Result<(Seq<SFunction>, PState), PErr>
    decreases toks.len() - st.pos,
{
    if st.pos >= toks.len() {
        Ok((acc, st))
    } else {
        match sp_function(toks, st) {
            Err(e) => Err(e),
            Ok((f, st1)) => {
                if !after(toks, st, st1) {
                    Err(PErr::OutOfTokens)
                } else {
                    sp_functions(toks, acc.push(f), st1)
                }
            },
        }
    }
}

/// `parse_preprocessor`, with `st` just past `#`: `#define` is refused, `#include "..."` is
/// refused, `#include <name>` or `<name.ext>` is read over, and anything else is left unread.
pub open spec fn sp_preprocessor(toks: Seq<TOKEN>, st: PState) -> Result<((), PState), PErr> {
    if !in_range(toks, st.pos) {
        Err(PErr::OutOfTokens)
    } else {
        let t = toks[st.pos];
        if t.name@ == "define"@ {
            Err(syntax(toks, st.pos, SIssue::NotSupported))
        } else if t.name@ == "include"@ {
            if !in_range(toks, st.pos + 1) {
                Err(PErr::OutOfTokens)
            } else if toks[st.pos + 1].token_type == TokenType::DOUBLEQUOTE {
                Err(syntax(toks, st.pos + 1, SIssue::NotSupported))
            } else {
                match sp_expect(toks, adv(st, 1), TokenType::LCHEV, "<"@) {
                    Err(e) => Err(e),
                    Ok((_, st2)) => match sp_expect(toks, st2, TokenType::NAME, "Any Name"@) {
                        Err(e) => Err(e),
                        Ok((_, st3)) => {
                            if !in_range(toks, st3.pos) {
                                Err(PErr::OutOfTokens)
                            } else {
                                let st4 = if toks[st3.pos].token_type == TokenType::DECIMAL { adv(st3, 1) } else { st3 };
                                if !in_range(toks, st4.pos) {
                                    Err(PErr::OutOfTokens)
                                } else {
                                    let st5 = if toks[st4.pos].token_type == TokenType::NAME { adv(st4, 1) } else { st4 };
                                    match sp_expect(toks, st5, TokenType::RCHEV, ">"@) {
                                        Err(e) => Err(e),
                                        Ok((_, st6)) => Ok(((), st6)),
                                    }
                                }
                            }
                        },
                    },
                }
            }
        } else {
            Ok(((), st))
        }
    }
}

/// `parse_file`: an optional leading preprocessor directive, then functions to the end.
pub open spec fn sp_file(toks: Seq<TOKEN>, st: PState) -> Result<(Seq<SFunction>, PState), PErr> {
    if !in_range(toks, st.pos) {
        Err(PErr::OutOfTokens)
    } else {
        let pre = if toks[st.pos].token_type == TokenType::PREPROCESSORDECL {
            sp_preprocessor(toks, adv(st, 1))
        } else {
            Ok(((), st))
        };
        match pre {
            Err(e) => Err(e),
            Ok((_, st1)) => {
                if !(st.pos <= st1.pos <= toks.len()) {
                    Err(PErr::OutOfTokens)
                } else {
                    sp_functions(toks, Seq::empty(), st1)
                }
            },
        }
    }
}

/// Reads the parameters of a function up to the closing parenthesis, which stays unread.
fn parse_params(toks: &Vec<TOKEN>, cur: &mut Cursor) -> (r: Result<Vec<FunctionArgDeclaration>, ParseError>)
    requires
        old(cur).pos <= toks.len(),
    ensures
        match r {
            Ok(v) => sp_params(toks@, Seq::empty(), old(cur).st()) == Ok::<_, PErr>((v@, final(cur).st())),
            Err(e) => is_err_of(sp_params(toks@, Seq::empty(), old(cur).st()), err_view(e)),
        },
        r is Ok ==> old(cur).pos < final(cur).pos < toks.len(),
{
    let ghost st0 = cur.st();
    let mut arguments: Vec<FunctionArgDeclaration> = Vec::new();
    loop
        invariant
            st0 == old(cur).st(),
            st0.pos <= cur.pos <= toks.len(),
            arguments@.len() > 0 ==> st0.pos < cur.pos,
            sp_params(toks@, Seq::empty(), st0) == sp_params(toks@, arguments@, cur.st()),
        decreases toks@.len() - cur.pos,
    {
        let p = cur.pos;
        if p >= toks.len() {
            return Err(ParseError::OutOfTokens);
        }
        if is_type(&toks[p].name) {
            if p + 1 >= toks.len() {
                return Err(ParseError::OutOfTokens);
            }
            let mut var_type = parse_type(&toks[p]);
            cur.pos = p + 1;
            if toks[p + 1].token_type == TokenType::STAR {
                var_type = Type::Pointer(Box::new(var_type));
                cur.pos = p + 2;
            }
            let argument = expect_kind(toks, cur, TokenType::NAME, "Any Name")?;
            arguments.push(FunctionArgDeclaration { var_type: var_type, name: argument.name });
            match kind_at(toks, cur.pos) {
                None => {
                    return Err(ParseError::OutOfTokens);
                },
                Some(TokenType::COMMA) => {
                    cur.pos = cur.pos + 1;
                },
                Some(TokenType::RPAREN) => {
                    return Ok(arguments);
                },
                Some(got) => {
                    return Err(syntax_error(toks, cur.pos, SyntaxIssue::ParameterSeparator { got }));
                },
            }
        } else {
            return Err(syntax_error(toks, p, SyntaxIssue::ParameterType { got: toks[p].token_type }));
        }
    }
}

/// Reads a function definition.
pub fn parse_function(toks: &Vec<TOKEN>, cur: &mut Cursor) -> (r: Result<Function, ParseError>)
    requires
        old(cur).pos <= toks.len(),
    ensures
        match r {
            Ok(f) => sp_function(toks@, old(cur).st()) == Ok::<_, PErr>((function_view(f), final(cur).st())),
            Err(e) => is_err_of(sp_function(toks@, old(cur).st()), err_view(e)),
        },
        r is Ok ==> after(toks@, old(cur).st(), final(cur).st()),
{
    let _type = expect_kind(toks, cur, TokenType::TYPE, "Any Type")?;
    let fn_name = expect_kind(toks, cur, TokenType::NAME, "Any Name")?;
    let _open = expect_kind(toks, cur, TokenType::LPAREN, "(")?;
    let arguments = match kind_at(toks, cur.pos) {
        None => {
            return Err(ParseError::OutOfTokens);
        },
        Some(TokenType::RPAREN) => Vec::new(),
        Some(_) => parse_params(toks, cur)?,
    };
    let _close = expect_kind(toks, cur, TokenType::RPAREN, ")")?;
    let _brace = expect_kind(toks, cur, TokenType::LBRACE, "{")?;
    let body = parse_body(toks, cur)?;
    let _end = expect_kind(toks, cur, TokenType::RBRACE, "}")?;
    Ok(Function { name: fn_name.name, args: arguments, body: body })
}

/// Reads over a preprocessor directive; the cursor is just past `#`.
pub fn parse_preprocessor(toks: &Vec<TOKEN>, cur: &mut Cursor) -> (r: Result<(), ParseError>)
    requires
        old(cur).pos <= toks.len(),
    ensures
        match r {
            Ok(_) => sp_preprocessor(toks@, old(cur).st()) == Ok::<_, PErr>(((), final(cur).st())),
            Err(e) => is_err_of(sp_preprocessor(toks@, old(cur).st()), err_view(e)),
        },
        r is Ok ==> old(cur).pos <= final(cur).pos <= toks.len(),
{
    let p = cur.pos;
    if p >= toks.len() {
        return Err(ParseError::OutOfTokens);
    }
    let name = toks[p].name.as_str();
    if str_eq(name, "define") {
        Err(syntax_error(toks, p, SyntaxIssue::NotSupported))
    } else if str_eq(name, "include") {
        if p + 1 >= toks.len() {
            return Err(ParseError::OutOfTokens);
        }
        if toks[p + 1].token_type == TokenType::DOUBLEQUOTE {
            return Err(syntax_error(toks, p + 1, SyntaxIssue::NotSupported));
        }
        cur.pos = p + 1;
        let _open = expect_kind(toks, cur, TokenType::LCHEV, "<")?;
        let _include = expect_kind(toks, cur, TokenType::NAME, "Any Name")?;
        match kind_at(toks, cur.pos) {
            None => {
                return Err(ParseError::OutOfTokens);
            },
            Some(TokenType::DECIMAL) => {
                cur.pos = cur.pos + 1;
            },
            Some(_) => {},
        }
        match kind_at(toks, cur.pos) {
            None => {
                return Err(ParseError::OutOfTokens);
            },
            Some(TokenType::NAME) => {
                cur.pos = cur.pos + 1;
            },
            Some(_) => {},
        }
        let _close = expect_kind(toks, cur, TokenType::RCHEV, ">")?;
        Ok(())
    } else {
        Ok(())
    }
}

proof fn lemma_functions_view_push(s: Seq<Function>, f: Function)
    ensures
        functions_view(s.push(f)) == functions_view(s).push(function_view(f)),
{
    assert(functions_view(s.push(f)) =~= functions_view(s).push(function_view(f)));
}

/// Reads a whole program: an optional leading preprocessor directive, then function
/// definitions up to the last token.
pub fn parse_file(toks: &Vec<TOKEN>, cur: &mut Cursor) -> (r: Result<Program, ParseError>)
    requires
        old(cur).pos <= toks.len(),
    ensures
        match r {
            Ok(prog) => sp_file(toks@, old(cur).st()) == Ok::<_, PErr>((functions_view(prog.functions@), final(cur).st())),
            Err(e) => is_err_of(sp_file(toks@, old(cur).st()), err_view(e)),
        },
        r is Ok ==> final(cur).pos == toks.len(),
{
    let ghost st0 = cur.st();
    if cur.pos >= toks.len() {
        return Err(ParseError::OutOfTokens);
    }
    if toks[cur.pos].token_type == TokenType::PREPROCESSORDECL {
        cur.pos = cur.pos + 1;
        parse_preprocessor(toks, cur)?;
    }
    let ghost st1 = cur.st();
    let mut function_vec: Vec<Function> = Vec::new();
    assert(functions_view(function_vec@) =~= Seq::<SFunction>::empty());
    while cur.pos < toks.len()
        invariant
            st0 == old(cur).st(),
            st0.pos <= st1.pos <= cur.pos <= toks.len(),
            sp_file(toks@, st0) == sp_functions(toks@, Seq::empty(), st1),
            sp_functions(toks@, Seq::empty(), st1) == sp_functions(toks@, functions_view(function_vec@), cur.st()),
        decreases toks@.len() - cur.pos,
    {
        let function = parse_function(toks, cur)?;
        let ghost before = function_vec@;
        function_vec.push(function);
        proof {
            lemma_functions_view_push(before, function);
        }
    }
    Ok(Program { functions: function_vec })
}

} // verus!
