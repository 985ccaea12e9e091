//! The whole compiler: source text to assembly text.
use vstd::prelude::*;
use crate::codegen::{CErr, CompileError, cerr_view, gen_program, sp_gen_program};
use crate::lexer::{lex, tokenize, toks_view};
use crate::parser::{Cursor, PErr, PState, ParseError, err_view, parse_file, sp_file};
use crate::token::TOKEN;

verus! {

/// Why a source could not be compiled.
#[derive(Debug, PartialEq)]
pub enum Failure {
    Parse(ParseError),
    Generate(CompileError),
}

/// The mathematical form of a failure.
pub enum FailView {
    Parse(PErr),
    Generate(CErr),
}

/// What parsing and then generating give for a list of tokens: the assembly text, or the
/// first error. Label numbers of the generator continue from those the parser handed out.
pub open spec fn sp_compile_tokens(toks: Seq<TOKEN>) -> Result<Seq<char>, FailView> {
    match sp_file(toks, PState { pos: 0, strings: 0, labels: 0 }) {
        Err(e) => Err(FailView::Parse(e)),
        Ok((fs, st)) => match sp_gen_program(fs, st.labels) {
            Err(e) => Err(FailView::Generate(e)),
            Ok(text) => Ok(text),
        },
    }
}

/// The mathematical form of a compile result.
pub open spec fn compile_view(r: Result<String, Failure>) -> Result<Seq<char>, FailView> {
    match r {
        Ok(s) => Ok(s@),
        Err(Failure::Parse(e)) => Err(FailView::Parse(err_view(e))),
        Err(Failure::Generate(e)) => Err(FailView::Generate(cerr_view(e))),
    }
}

/// Parses a list of tokens and generates the assembly of the program.
pub fn compile_tokens(toks: &Vec<TOKEN>) -> (r: Result<String, Failure>)
    ensures
        compile_view(r) == sp_compile_tokens(toks@),
{
    let mut cur = Cursor::new();
    let program = match parse_file(toks, &mut cur) {
        Ok(p) => p,
        Err(e) => return Err(Failure::Parse(e)),
    };
    match gen_program(&program, cur.label_index) {
        Ok(text) => Ok(text),
        Err(e) => Err(Failure::Generate(e)),
    }
}

/// Compiles a source text whose comments are all closed: its tokens, parsed, then
/// generated. The result is what parsing and generating give for tokens whose texts, kinds
/// and places are those that the lexer describes.
pub fn compile(source: &str) -> (r: Result<String, Failure>)
    requires
        source@.len() < i64::MAX,
        lex(source@) is Some,
    ensures
        exists|toks: Seq<TOKEN>|
            lex(source@) == Some(toks_view(toks)) && #[trigger] sp_compile_tokens(toks) == compile_view(r),
{
    let toks = tokenize(source);
    let r = compile_tokens(&toks);
    assert(sp_compile_tokens(toks@) == compile_view(r));
    r
}

} // verus!
