//! Tokens and their classification.
use vstd::prelude::*;
use crate::numeric::{is_float_text, is_numerical};
use crate::text::str_eq;

verus! {

/// The kind of a token.
#[derive(Debug, Clone, Copy, PartialEq, Eq, Structural)]
pub enum TokenType {
    TYPE,
    RETURN,
    LPAREN,
    RPAREN,
    LBRACE,
    RBRACE,
    LBRACK,
    RBRACK,
    PLUS,
    MINUS,
    STAR,
    SLASH,
    ASSIGN,
    NOT,
    NUMBER,
    SEMICOLON,
    COMMA,
    SINGLEQUOTE,
    DOUBLEQUOTE,
    ADDRESSOF,
    BOOLEAN,
    DECIMAL,
    PREPROCESSORDECL,
    PREPROCESSOR,
    LCHEV,
    RCHEV,
    IF,
    ELSE,
    WHILE,
    FOR,
    STRUCT,
    BREAK,
    CONTINUE,
    SIZEOF,
    NAME,
    /// The inside of a character literal.
    CHAR,
    /// The inside of a string literal.
    STRING,
    /// The inside of a quoted piece that opens with neither kind of quote.
    UNKNOWN,
}

/// A token: its text, its kind, and the line and column at which the lexer produced it.
#[derive(Debug)]
pub struct TOKEN {
    pub name: String,
    pub token_type: TokenType,
    pub line: i64,
    pub column: i64,
}

/// A copy of a token.
pub fn copy_token(t: &TOKEN) -> (r: TOKEN)
    ensures
        r == *t,
{
    TOKEN { name: t.name.clone(), token_type: t.token_type, line: t.line, column: t.column }
}

/// The names of the built-in types.
pub open spec fn spec_is_type(s: Seq<char>) -> bool {
    s == "int"@ || s == "char"@ || s == "float"@ || s == "double"@ || s == "bool"@
}

/// Whether `token` names a built-in type.
pub fn is_type(token: &String) -> (r: bool)
    ensures
        r == spec_is_type(token@),
{
    let t = token.as_str();
    str_eq(t, "int") || str_eq(t, "char") || str_eq(t, "float") || str_eq(t, "double") || str_eq(t, "bool")
}

/// The kind that `tagging` gives a piece of text, tried in this order: built-in type
/// names, keywords and punctuation, numbers (anything `f64` parsing accepts), the rest of
/// the punctuation and keywords, and else a name.
pub open spec fn tag_of(s: Seq<char>) -> TokenType {
    if spec_is_type(s) { TokenType::TYPE }
    else if s == "return"@ { TokenType::RETURN }
    else if s == "("@ { TokenType::LPAREN }
    else if s == ")"@ { TokenType::RPAREN }
    else if s == "{"@ { TokenType::LBRACE }
    else if s == "}"@ { TokenType::RBRACE }
    else if s == "["@ { TokenType::LBRACK }
    else if s == "]"@ { TokenType::RBRACK }
    else if s == "+"@ { TokenType::PLUS }
    else if s == "-"@ { TokenType::MINUS }
    else if s == "*"@ { TokenType::STAR }
    else if s == "/"@ { TokenType::SLASH }
    else if s == "="@ { TokenType::ASSIGN }
    else if s == "!"@ { TokenType::NOT }
    else if is_float_text(s) { TokenType::NUMBER }
    else if s == ";"@ { TokenType::SEMICOLON }
    else if s == ","@ { TokenType::COMMA }
    else if s == "'"@ { TokenType::SINGLEQUOTE }
    else if s == "\""@ { TokenType::DOUBLEQUOTE }
    else if s == "&"@ { TokenType::ADDRESSOF }
    else if s == "true"@ || s == "false"@ { TokenType::BOOLEAN }
    else if s == "."@ { TokenType::DECIMAL }
    else if s == "#"@ { TokenType::PREPROCESSORDECL }
    else if s == "define"@ || s == "include"@ { TokenType::PREPROCESSOR }
    else if s == "<"@ { TokenType::LCHEV }
    else if s == ">"@ { TokenType::RCHEV }
    else if s == "if"@ { TokenType::IF }
    else if s == "else"@ { TokenType::ELSE }
    else if s == "while"@ { TokenType::WHILE }
    else if s == "for"@ { TokenType::FOR }
    else if s == "struct"@ { TokenType::STRUCT }
    else if s == "break"@ { TokenType::BREAK }
    else if s == "continue"@ { TokenType::CONTINUE }
    else if s == "sizeof"@ { TokenType::SIZEOF }
    else { TokenType::NAME }
}

fn tag_kind(token: &String) -> (k: TokenType)
    ensures
        k == tag_of(token@),
{
    let t = token.as_str();
    if is_type(token) { TokenType::TYPE }
    else if str_eq(t, "return") { TokenType::RETURN }
    else if str_eq(t, "(") { TokenType::LPAREN }
    else if str_eq(t, ")") { TokenType::RPAREN }
    else if str_eq(t, "{") { TokenType::LBRACE }
    else if str_eq(t, "}") { TokenType::RBRACE }
    else if str_eq(t, "[") { TokenType::LBRACK }
    else if str_eq(t, "]") { TokenType::RBRACK }
    else if str_eq(t, "+") { TokenType::PLUS }
    else if str_eq(t, "-") { TokenType::MINUS }
    else if str_eq(t, "*") { TokenType::STAR }
    else if str_eq(t, "/") { TokenType::SLASH }
    else if str_eq(t, "=") { TokenType::ASSIGN }
    else if str_eq(t, "!") { TokenType::NOT }
    else if is_numerical(token) { TokenType::NUMBER }
    else if str_eq(t, ";") { TokenType::SEMICOLON }
    else if str_eq(t, ",") { TokenType::COMMA }
    else if str_eq(t, "'") { TokenType::SINGLEQUOTE }
    else if str_eq(t, "\"") { TokenType::DOUBLEQUOTE }
    else if str_eq(t, "&") { TokenType::ADDRESSOF }
    else if str_eq(t, "true") || str_eq(t, "false") { TokenType::BOOLEAN }
    else if str_eq(t, ".") { TokenType::DECIMAL }
    else if str_eq(t, "#") { TokenType::PREPROCESSORDECL }
    else if str_eq(t, "define") || str_eq(t, "include") { TokenType::PREPROCESSOR }
    else if str_eq(t, "<") { TokenType::LCHEV }
    else if str_eq(t, ">") { TokenType::RCHEV }
    else if str_eq(t, "if") { TokenType::IF }
    else if str_eq(t, "else") { TokenType::ELSE }
    else if str_eq(t, "while") { TokenType::WHILE }
    else if str_eq(t, "for") { TokenType::FOR }
    else if str_eq(t, "struct") { TokenType::STRUCT }
    else if str_eq(t, "break") { TokenType::BREAK }
    else if str_eq(t, "continue") { TokenType::CONTINUE }
    else if str_eq(t, "sizeof") { TokenType::SIZEOF }
    else { TokenType::NAME }
}

/// The token for a piece of text found at `line`, `column`.
pub fn tagging(token: &String, line: i64, column: i64) -> (t: TOKEN)
    ensures
        t.name@ == token@,
        t.token_type == tag_of(token@),
        t.line == line,
        t.column == column,
{
    let kind = tag_kind(token);
    TOKEN { name: token.clone(), token_type: kind, line: line, column: column }
}

/// The binding strength of a binary operator token; 0 for any other token.
pub open spec fn spec_precedence(t: TokenType) -> u8 {
    match t {
        TokenType::STAR | TokenType::SLASH => 3,
        TokenType::PLUS | TokenType::MINUS => 2,
        TokenType::ASSIGN | TokenType::NOT | TokenType::RCHEV | TokenType::LCHEV => 1,
        _ => 0,
    }
}

/// The binding strength of the operator that a token of this kind starts.
pub fn get_precedence(token_type: TokenType) -> (p: u8)
    ensures
        p == spec_precedence(token_type),
{
    match token_type {
        TokenType::STAR | TokenType::SLASH => 3,
        TokenType::PLUS | TokenType::MINUS => 2,
        TokenType::ASSIGN | TokenType::NOT | TokenType::RCHEV | TokenType::LCHEV => 1,
        _ => 0,
    }
}

} // verus!
