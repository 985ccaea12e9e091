//! The lexer: source characters become tokens.
//!
//! Characters gather in a buffer. A space ends a buffer that holds exactly one of the
//! listed words; a character that is a token of its own ends any buffer, whose text is cut
//! at whitespace into tokens (or, when it is quoted, into the quotes and their contents),
//! followed by the character itself. Inside quotes nothing is cut. `//` and `/* */`
//! comments are skipped; on a source that ends inside a comment the lexer never finishes,
//! so `lex` has no tokens for it (`comments_closed` tells). Text left in the buffer at the
//! end of the source is dropped.
use vstd::prelude::*;
use crate::text::{push_char, str_eq, string_from};
use crate::token::{TOKEN, TokenType, tag_of, tagging};

verus! {

/// Whether `c` is whitespace: it has the Unicode `White_Space` property.
pub open spec fn is_space(c: char) -> bool {
    ||| ('\u{9}' <= c && c <= '\u{d}')
    ||| c == ' '
    ||| c == '\u{85}'
    ||| c == '\u{a0}'
    ||| c == '\u{1680}'
    ||| ('\u{2000}' <= c && c <= '\u{200a}')
    ||| c == '\u{2028}'
    ||| c == '\u{2029}'
    ||| c == '\u{202f}'
    ||| c == '\u{205f}'
    ||| c == '\u{3000}'
}

/// The text without its leading whitespace.
pub open spec fn trim_start(s: Seq<char>) -> Seq<char>
    decreases s.len(),
{
    if s.len() > 0 && is_space(s[0]) {
        trim_start(s.drop_first())
    } else {
        s
    }
}

/// The text without its trailing whitespace.
pub open spec fn trim_end(s: Seq<char>) -> Seq<char>
    decreases s.len(),
{
    if s.len() > 0 && is_space(s.last()) {
        trim_end(s.drop_last())
    } else {
        s
    }
}

/// The text without whitespace at either end.
pub open spec fn trim(s: Seq<char>) -> Seq<char> {
    trim_end(trim_start(s))
}

/// The words of `s` from `i` on: the maximal runs of characters that are not whitespace.
/// `cur` is the word being read and `acc` the words already finished.
pub open spec fn words_from(s: Seq<char>, i: int, cur: Seq<char>, acc: Seq<Seq<char>>) -> Seq<Seq<char>>
    decreases s.len() - i,
{
    if i < 0 || i >= s.len() {
        if cur.len() > 0 { acc.push(cur) } else { acc }
    } else if is_space(s[i]) {
        words_from(s, i + 1, Seq::empty(), if cur.len() > 0 { acc.push(cur) } else { acc })
    } else {
        words_from(s, i + 1, cur.push(s[i]), acc)
    }
}

/// The words of `s`, in order.
pub open spec fn words(s: Seq<char>) -> Seq<Seq<char>> {
    words_from(s, 0, Seq::empty(), Seq::empty())
}

/// The words that the lexer knows.
pub open spec fn is_listed(s: Seq<char>) -> bool {
    ||| s == "int"@ || s == "double"@ || s == "char"@ || s == "float"@ || s == "bool"@
    ||| s == "return"@ || s == ";"@ || s == "{"@ || s == "}"@ || s == "("@ || s == ")"@
    ||| s == "["@ || s == "]"@ || s == "+"@ || s == "-"@ || s == "*"@ || s == "/"@
    ||| s == "="@ || s == "!"@ || s == ","@ || s == "'"@ || s == "\""@ || s == "&"@
    ||| s == "true"@ || s == "false"@ || s == "."@ || s == "#"@ || s == "define"@
    ||| s == "include"@ || s == "<"@ || s == ">"@ || s == "if"@ || s == "else"@
    ||| s == "while"@ || s == "for"@ || s == "struct"@ || s == "break"@
    ||| s == "continue"@ || s == "sizeof"@
}

/// The characters that are listed words of their own.
pub open spec fn is_delim(c: char) -> bool {
    ||| c == ';' || c == '{' || c == '}' || c == '(' || c == ')' || c == '[' || c == ']'
    ||| c == '+' || c == '-' || c == '*' || c == '/' || c == '=' || c == '!' || c == ','
    ||| c == '\'' || c == '"' || c == '&' || c == '.' || c == '#' || c == '<' || c == '>'
}

/// Whether `c` opens or closes a character or string literal.
pub open spec fn is_quote(c: char) -> bool {
    c == '\'' || c == '"'
}

/// The mathematical form of a token.
pub struct STok {
    pub name: Seq<char>,
    pub kind: TokenType,
    pub line: int,
    pub column: int,
}

pub open spec fn tok_view(t: TOKEN) -> STok {
    STok { name: t.name@, kind: t.token_type, line: t.line as int, column: t.column as int }
}

pub open spec fn toks_view(v: Seq<TOKEN>) -> Seq<STok> {
    Seq::new(v.len(), |i: int| tok_view(v[i]))
}

/// The token that `tagging` makes of a text at a place.
pub open spec fn stok(name: Seq<char>, line: int, column: int) -> STok {
    STok { name, kind: tag_of(name), line, column }
}

/// Tokens for words, all at one place.
pub open spec fn word_toks(ws: Seq<Seq<char>>, line: int, column: int) -> Seq<STok> {
    Seq::new(ws.len(), |i: int| stok(ws[i], line, column))
}

/// The tokens of a buffer's text before the character that ends it. A text that begins
/// or ends with a quote gives the opening quote, the text inside the quotes as one token
/// (a character literal after `'`, a string after `"`, at line and column 0), and the
/// opening quote again. Any other text gives its words. A quoted text always has both of
/// its end characters when the lexer gets here (`properties::lemma_quoted_text_has_both_ends`).
pub open spec fn body_toks(body: Seq<char>, line: int, column: int) -> Seq<STok> {
    let first = body[0];
    let last = body.last();
    if is_quote(first) || is_quote(last) {
        let kind = if first == '\'' {
            TokenType::CHAR
        } else if first == '"' {
            TokenType::STRING
        } else {
            TokenType::UNKNOWN
        };
        let inner = if body.len() >= 2 { body.subrange(1, body.len() - 1) } else { Seq::empty() };
        seq![stok(seq![first], line, column), STok { name: inner, kind, line: 0, column: 0 }, stok(seq![first], line, column)]
    } else {
        word_toks(words(body), line, column)
    }
}

/// Where the lexer is: in code, in a `//` comment, or in a `/* */` comment.
#[derive(Clone, Copy, PartialEq, Eq, Structural)]
pub enum LexMode {
    Code,
    LineComment,
    BlockComment,
}

/// The mathematical form of the lexer's state.
pub struct LexState {
    pub pos: int,
    pub mode: LexMode,
    pub toks: Seq<STok>,
    pub buf: Seq<char>,
    pub in_str: bool,
    pub line: int,
    pub column: int,
}

/// The state before the first character.
pub open spec fn lex_start() -> LexState {
    LexState { pos: 0, mode: LexMode::Code, toks: Seq::empty(), buf: Seq::empty(), in_str: false, line: 1, column: 1 }
}

/// A character of code read into the buffer, and the tokens that it ends.
pub open spec fn read_char(st: LexState, c: char) -> LexState {
    let buf = st.buf.push(c);
    let line = if c == '\n' { st.line + 1 } else { st.line };
    let column = if c == '\n' { 0 } else { st.column + 1 };
    let st1 = LexState { pos: st.pos + 1, buf, line, column, ..st };
    if is_quote(c) {
        LexState { in_str: !st.in_str, ..st1 }
    } else if st.in_str {
        st1
    } else {
        let trimmed = trim(buf);
        if c == ' ' {
            if is_listed(trimmed) {
                LexState { toks: st.toks.push(stok(trimmed, line, column)), buf: Seq::empty(), ..st1 }
            } else {
                st1
            }
        } else if is_delim(c) {
            let body = trimmed.drop_last();
            let before = if body.len() > 0 { st.toks + body_toks(body, line, column) } else { st.toks };
            LexState { toks: before.push(stok(seq![c], line, column)), buf: Seq::empty(), ..st1 }
        } else {
            st1
        }
    }
}

/// One step of the lexer at the character `s[st.pos]`.
pub open spec fn lex_step(s: Seq<char>, st: LexState) -> LexState {
    let c = s[st.pos];
    let next_is = |d: char| st.pos + 1 < s.len() && s[st.pos + 1] == d;
    match st.mode {
        LexMode::LineComment => if c == '\n' {
            LexState { pos: st.pos + 1, mode: LexMode::Code, line: st.line + 1, ..st }
        } else {
            LexState { pos: st.pos + 1, ..st }
        },
        LexMode::BlockComment => if c == '*' && next_is('/') {
            LexState { pos: st.pos + 2, mode: LexMode::Code, ..st }
        } else if c == '\n' {
            LexState { pos: st.pos + 1, line: st.line + 1, ..st }
        } else {
            LexState { pos: st.pos + 1, ..st }
        },
        LexMode::Code => if c == '/' && next_is('/') {
            LexState { pos: st.pos + 2, mode: LexMode::LineComment, ..st }
        } else if c == '/' && next_is('*') {
            LexState { pos: st.pos + 2, mode: LexMode::BlockComment, ..st }
        } else {
            read_char(st, c)
        },
    }
}

/// The tokens of `s` read from the state `st` on, or `None` where the source ends inside
/// a comment (a source on which the lexer never finishes).
pub open spec fn lex_from(s: Seq<char>, st: LexState) -> Option<Seq<STok>>
    decreases s.len() - st.pos,
{
    if st.pos < 0 || st.pos >= s.len() {
        if st.mode == LexMode::Code { Some(st.toks) } else { None }
    } else {
        lex_from(s, lex_step(s, st))
    }
}

/// The tokens of a source text, or `None` where it ends inside a comment, so that the
/// lexer never finishes on it.
pub open spec fn lex(s: Seq<char>) -> Option<Seq<STok>> {
    lex_from(s, lex_start())
}

/// Whether `c` is whitespace.
pub fn is_space_char(c: char) -> (r: bool)
    ensures
        r == is_space(c),
{
    ('\u{9}' <= c && c <= '\u{d}') || c == ' ' || c == '\u{85}' || c == '\u{a0}' || c == '\u{1680}'
        || ('\u{2000}' <= c && c <= '\u{200a}') || c == '\u{2028}' || c == '\u{2029}'
        || c == '\u{202f}' || c == '\u{205f}' || c == '\u{3000}'
}

/// Where the text of `v` begins and ends once whitespace at either end is left out.
fn trim_bounds(v: &Vec<char>) -> (r: (usize, usize))
    ensures
        r.0 <= r.1 <= v.len(),
        v@.subrange(r.0 as int, r.1 as int) == trim(v@),
        v@.len() > 0 && !is_space(v@.last()) ==> r.0 < r.1 == v.len(),
{
    let n = v.len();
    let mut lo: usize = 0;
    assert(v@.subrange(0, n as int) =~= v@);
    while lo < n && is_space_char(v[lo])
        invariant
            lo <= n == v.len(),
            trim_start(v@) == trim_start(v@.subrange(lo as int, n as int)),
            forall|k: int| 0 <= k < lo ==> is_space(#[trigger] v@[k]),
        decreases n - lo,
    {
        assert(v@.subrange(lo as int, n as int).drop_first() =~= v@.subrange(lo + 1, n as int));
        lo = lo + 1;
    }
    let mut hi: usize = n;
    while hi > lo && is_space_char(v[hi - 1])
        invariant
            lo <= hi <= n == v.len(),
            trim_start(v@) == v@.subrange(lo as int, n as int),
            trim(v@) == trim_end(v@.subrange(lo as int, hi as int)),
            v@.len() > 0 && !is_space(v@.last()) ==> lo < n && hi == n,
        decreases hi - lo,
    {
        assert(v@.subrange(lo as int, hi as int).drop_last() =~= v@.subrange(lo as int, hi - 1));
        hi = hi - 1;
    }
    (lo, hi)
}

/// Whether a text is one of the listed words.
pub fn is_listed_str(t: &String) -> (r: bool)
    ensures
        r == is_listed(t@),
{
    let s = t.as_str();
    str_eq(s, "int") || str_eq(s, "double") || str_eq(s, "char") || str_eq(s, "float") || str_eq(s, "bool")
        || str_eq(s, "return") || str_eq(s, ";") || str_eq(s, "{") || str_eq(s, "}") || str_eq(s, "(")
        || str_eq(s, ")") || str_eq(s, "[") || str_eq(s, "]") || str_eq(s, "+") || str_eq(s, "-")
        || str_eq(s, "*") || str_eq(s, "/") || str_eq(s, "=") || str_eq(s, "!") || str_eq(s, ",")
        || str_eq(s, "'") || str_eq(s, "\"") || str_eq(s, "&") || str_eq(s, "true") || str_eq(s, "false")
        || str_eq(s, ".") || str_eq(s, "#") || str_eq(s, "define") || str_eq(s, "include")
        || str_eq(s, "<") || str_eq(s, ">") || str_eq(s, "if") || str_eq(s, "else")
        || str_eq(s, "while") || str_eq(s, "for") || str_eq(s, "struct") || str_eq(s, "break")
        || str_eq(s, "continue") || str_eq(s, "sizeof")
}

/// Whether a character is a listed word of its own.
pub fn is_delim_char(c: char) -> (r: bool)
    ensures
        r == is_delim(c),
{
    c == ';' || c == '{' || c == '}' || c == '(' || c == ')' || c == '[' || c == ']'
        || c == '+' || c == '-' || c == '*' || c == '/' || c == '=' || c == '!' || c == ','
        || c == '\'' || c == '"' || c == '&' || c == '.' || c == '#' || c == '<' || c == '>'
}

/// Appends a token made by `tagging`.
fn push_tagged(toks: &mut Vec<TOKEN>, name: &String, line: i64, column: i64)
    ensures
        toks_view(final(toks)@) == toks_view(old(toks)@).push(stok(name@, line as int, column as int)),
{
    let ghost before = toks@;
    let t = tagging(name, line, column);
    toks.push(t);
    assert(toks_view(toks@) =~= toks_view(before).push(stok(name@, line as int, column as int)));
}

/// Appends a token for each word of the characters `lo .. hi` of `v`.
fn push_words(toks: &mut Vec<TOKEN>, v: &Vec<char>, lo: usize, hi: usize, line: i64, column: i64)
    requires
        lo <= hi <= v.len(),
    ensures
        toks_view(final(toks)@) == toks_view(old(toks)@) + word_toks(words(v@.subrange(lo as int, hi as int)), line as int, column as int),
{
    let ghost body = v@.subrange(lo as int, hi as int);
    let ghost base = toks_view(toks@);
    let ghost mut acc: Seq<Seq<char>> = Seq::empty();
    let mut i: usize = lo;
    let mut start: usize = lo;
    let mut in_word = false;
    assert(word_toks(acc, line as int, column as int) =~= Seq::<STok>::empty());
    assert(base + Seq::<STok>::empty() =~= base);
    while i < hi
        invariant
            lo <= start <= i <= hi <= v.len(),
            body == v@.subrange(lo as int, hi as int),
            in_word ==> start < i,
            words(body) == words_from(body, i - lo, if in_word { v@.subrange(start as int, i as int) } else { Seq::empty() }, acc),
            toks_view(toks@) == base + word_toks(acc, line as int, column as int),
        decreases hi - i,
    {
        let c = v[i];
        assert(body[i - lo] == c);
        if is_space_char(c) {
            if in_word {
                let w = string_from(v, start, i);
                push_tagged(toks, &w, line, column);
                proof {
                    assert(word_toks(acc.push(w@), line as int, column as int) =~= word_toks(acc, line as int, column as int).push(stok(w@, line as int, column as int)));
                    acc = acc.push(w@);
                }
                in_word = false;
            }
        } else {
            if !in_word {
                start = i;
                in_word = true;
                assert(Seq::<char>::empty().push(c) =~= v@.subrange(start as int, i + 1));
            } else {
                assert(v@.subrange(start as int, i as int).push(c) =~= v@.subrange(start as int, i + 1));
            }
        }
        i = i + 1;
    }
    if in_word {
        let w = string_from(v, start, i);
        push_tagged(toks, &w, line, column);
        proof {
            assert(word_toks(acc.push(w@), line as int, column as int) =~= word_toks(acc, line as int, column as int).push(stok(w@, line as int, column as int)));
            acc = acc.push(w@);
        }
    }
}

/// Appends the tokens of the characters `lo .. hi` of `v`, the text that a token
/// character ends.
fn push_body(toks: &mut Vec<TOKEN>, v: &Vec<char>, lo: usize, hi: usize, line: i64, column: i64)
    requires
        lo < hi <= v.len(),
    ensures
        toks_view(final(toks)@) == toks_view(old(toks)@) + body_toks(v@.subrange(lo as int, hi as int), line as int, column as int),
{
    let ghost body = v@.subrange(lo as int, hi as int);
    let ghost before = toks_view(toks@);
    let first = v[lo];
    let last = v[hi - 1];
    assert(body[0] == first && body.last() == last);
    if first == '\'' || first == '"' || last == '\'' || last == '"' {
        let kind = if first == '\'' {
            TokenType::CHAR
        } else if first == '"' {
            TokenType::STRING
        } else {
            TokenType::UNKNOWN
        };
        let mut quote = String::new();
        push_char(&mut quote, first);
        assert(quote@ =~= seq![first]);
        push_tagged(toks, &quote, line, column);
        let inner = if hi - lo >= 2 {
            string_from(v, lo + 1, hi - 1)
        } else {
            String::new()
        };
        proof {
            if hi - lo >= 2 {
                assert(inner@ =~= body.subrange(1, body.len() - 1));
            }
        }
        let ghost mid = toks@;
        let t = TOKEN { name: inner, token_type: kind, line: 0, column: 0 };
        toks.push(t);
        assert(toks_view(toks@) =~= toks_view(mid).push(tok_view(t)));
        push_tagged(toks, &quote, line, column);
        assert(toks_view(toks@) =~= before + body_toks(body, line as int, column as int));
    } else {
        push_words(toks, v, lo, hi, line, column);
    }
}

/// The lexer's state while it reads a source.
struct Lexer {
    pos: usize,
    mode: LexMode,
    toks: Vec<TOKEN>,
    buf: Vec<char>,
    in_str: bool,
    line: i64,
    column: i64,
}

impl Lexer {
    spec fn lv(&self) -> LexState {
        LexState {
            pos: self.pos as int,
            mode: self.mode,
            toks: toks_view(self.toks@),
            buf: self.buf@,
            in_str: self.in_str,
            line: self.line as int,
            column: self.column as int,
        }
    }

    /// The counters stay within what the characters read so far can make them.
    spec fn bounded(&self, n: int) -> bool {
        &&& self.pos <= n < i64::MAX
        &&& self.line <= self.pos + 1
        &&& self.column <= self.pos + 1
    }

    /// Reads a character of code into the buffer and emits the tokens that it ends.
    fn read_char(&mut self, c: char, n: usize)
        requires
            old(self).bounded(n as int),
            old(self).pos < n,
        ensures
            final(self).bounded(n as int),
            final(self).lv() == read_char(old(self).lv(), c),
    {
        let ghost st = self.lv();
        self.buf.push(c);
        if c == '\n' {
            self.line = self.line + 1;
            self.column = 0;
        } else {
            self.column = self.column + 1;
        }
        self.pos = self.pos + 1;
        if c == '\'' || c == '"' {
            self.in_str = !self.in_str;
            return;
        }
        if self.in_str {
            return;
        }
        let line = self.line;
        let column = self.column;
        let (lo, hi) = trim_bounds(&self.buf);
        if c == ' ' {
            let t = string_from(&self.buf, lo, hi);
            if is_listed_str(&t) {
                push_tagged(&mut self.toks, &t, line, column);
                self.buf.clear();
            }
        } else if is_delim_char(c) {
            assert(self.buf@.last() == c);
            assert(self.buf@.subrange(lo as int, hi as int).drop_last() =~= self.buf@.subrange(lo as int, hi - 1));
            if hi - 1 > lo {
                push_body(&mut self.toks, &self.buf, lo, hi - 1, line, column);
            }
            let mut d = String::new();
            push_char(&mut d, c);
            assert(d@ =~= seq![c]);
            push_tagged(&mut self.toks, &d, line, column);
            self.buf.clear();
        }
    }

    /// One step of the lexer at the character `s[pos]`.
    fn step(&mut self, s: &Vec<char>)
        requires
            old(self).bounded(s.len() as int),
            old(self).pos < s.len(),
        ensures
            final(self).bounded(s.len() as int),
            final(self).lv() == lex_step(s@, old(self).lv()),
    {
        let n = s.len();
        let c = s[self.pos];
        let next = if self.pos + 1 < n { Some(s[self.pos + 1]) } else { None };
        match self.mode {
            LexMode::LineComment => {
                self.pos = self.pos + 1;
                if c == '\n' {
                    self.mode = LexMode::Code;
                    self.line = self.line + 1;
                }
            },
            LexMode::BlockComment => {
                if c == '*' && next == Some('/') {
                    self.pos = self.pos + 2;
                    self.mode = LexMode::Code;
                } else {
                    self.pos = self.pos + 1;
                    if c == '\n' {
                        self.line = self.line + 1;
                    }
                }
            },
            LexMode::Code => {
                if c == '/' && next == Some('/') {
                    self.pos = self.pos + 2;
                    self.mode = LexMode::LineComment;
                } else if c == '/' && next == Some('*') {
                    self.pos = self.pos + 2;
                    self.mode = LexMode::BlockComment;
                } else {
                    self.read_char(c, n);
                }
            },
        }
    }
}

/// Runs the lexer over all of `s`.
fn run(s: &Vec<char>) -> (lx: Lexer)
    requires
        s.len() < i64::MAX,
    ensures
        lx.pos == s.len(),
        lex(s@) == lex_from(s@, lx.lv()),
{
    let n = s.len();
    let mut lx = Lexer {
        pos: 0,
        mode: LexMode::Code,
        toks: Vec::new(),
        buf: Vec::new(),
        in_str: false,
        line: 1,
        column: 1,
    };
    assert(toks_view(lx.toks@) =~= Seq::<STok>::empty());
    assert(lx.lv() == lex_start());
    while lx.pos < n
        invariant
            n == s.len(),
            lx.bounded(n as int),
            lex(s@) == lex_from(s@, lx.lv()),
        decreases n - lx.pos,
    {
        lx.step(s);
    }
    lx
}

/// Whether every comment of the source is closed before its end. On a source where this
/// does not hold the lexer never finishes (a `//` comment waits for its newline, a `/*`
/// comment for its `*/`), so `tokenize` is for sources where it holds.
pub fn comments_closed(source: &str) -> (r: bool)
    requires
        source@.len() < i64::MAX,
    ensures
        r == lex(source@) is Some,
{
    let s = crate::numeric::chars_of(source);
    let lx = run(&s);
    lx.mode == LexMode::Code
}

/// Cuts a source text, whose comments are all closed, into tokens.
pub fn tokenize(source: &str) -> (v: Vec<TOKEN>)
    requires
        source@.len() < i64::MAX,
        lex(source@) is Some,
    ensures
        lex(source@) == Some(toks_view(v@)),
{
    let s = crate::numeric::chars_of(source);
    let lx = run(&s);
    lx.toks
}

} // verus!
