use lib::lexer::{comments_closed, tokenize};
use lib::token::{TokenType, TOKEN};

fn names(toks: &[TOKEN]) -> Vec<String> {
    toks.iter().map(|t| t.name.clone()).collect()
}

fn kinds(toks: &[TOKEN]) -> Vec<TokenType> {
    toks.iter().map(|t| t.token_type).collect()
}

fn places(toks: &[TOKEN]) -> Vec<(i64, i64)> {
    toks.iter().map(|t| (t.line, t.column)).collect()
}

#[test]
fn small_function() {
    let toks = tokenize("int main(){\n    int x = 5;\n    return x;\n}\n");
    assert_eq!(
        names(&toks),
        vec!["int", "main", "(", ")", "{", "int", "x", "=", "5", ";", "return", "x", ";", "}"]
    );
    assert_eq!(
        kinds(&toks),
        vec![
            TokenType::TYPE,
            TokenType::NAME,
            TokenType::LPAREN,
            TokenType::RPAREN,
            TokenType::LBRACE,
            TokenType::TYPE,
            TokenType::NAME,
            TokenType::ASSIGN,
            TokenType::NUMBER,
            TokenType::SEMICOLON,
            TokenType::RETURN,
            TokenType::NAME,
            TokenType::SEMICOLON,
            TokenType::RBRACE,
        ]
    );
    assert_eq!(
        places(&toks),
        vec![(1, 5), (1, 10), (1, 10), (1, 11), (1, 12), (2, 8), (2, 11), (2, 11), (2, 14), (2, 14), (3, 11), (3, 13), (3, 13), (4, 1)]
    );
}

#[test]
fn empty_source_has_no_tokens() {
    assert_eq!(tokenize("").len(), 0);
    assert_eq!(tokenize("   \n\t ").len(), 0);
}

#[test]
fn trailing_text_without_delimiter_is_dropped() {
    let toks = tokenize("x = y");
    assert_eq!(names(&toks), vec!["x", "="]);
}

#[test]
fn words_split_at_whitespace() {
    let toks = tokenize("unsigned\tlong\nvalue;");
    assert_eq!(names(&toks), vec!["unsigned", "long", "value", ";"]);
    assert_eq!(places(&toks), vec![(2, 6), (2, 6), (2, 6), (2, 6)]);
}

#[test]
fn keyword_followed_by_space_is_emitted_at_once() {
    let toks = tokenize("return 1;");
    assert_eq!(names(&toks), vec!["return", "1", ";"]);
    assert_eq!(places(&toks), vec![(1, 8), (1, 10), (1, 10)]);
}

#[test]
fn line_comment_is_skipped() {
    let toks = tokenize("// a comment ; { }\nint x;");
    assert_eq!(names(&toks), vec!["int", "x", ";"]);
    assert_eq!(places(&toks), vec![(2, 5), (2, 7), (2, 7)]);
}

#[test]
fn block_comment_is_skipped_and_counts_lines() {
    let toks = tokenize("a/* one\ntwo\n*/;");
    assert_eq!(names(&toks), vec!["a", ";"]);
    assert_eq!(places(&toks), vec![(3, 3), (3, 3)]);
}

#[test]
fn block_comment_glues_its_neighbours() {
    let toks = tokenize("ab/*x*/cd;");
    assert_eq!(names(&toks), vec!["abcd", ";"]);
}

#[test]
fn unterminated_line_comment() {
    assert!(!comments_closed("int x; // no newline"));
    assert!(comments_closed("int x; // newline\n"));
}

#[test]
fn unterminated_block_comment() {
    assert!(!comments_closed("int x; /* open"));
    assert!(!comments_closed("/*/"));
    assert!(comments_closed("/**/"));
}

#[test]
fn slashes_inside_a_string_start_a_comment() {
    assert!(!comments_closed("\"http://x\";"));
}

#[test]
fn character_literal() {
    let toks = tokenize("c = 'a';");
    assert_eq!(names(&toks), vec!["c", "=", "'", "a", "'", ";"]);
    assert_eq!(
        kinds(&toks),
        vec![TokenType::NAME, TokenType::ASSIGN, TokenType::SINGLEQUOTE, TokenType::CHAR, TokenType::SINGLEQUOTE, TokenType::SEMICOLON]
    );
    assert_eq!(places(&toks)[3], (0, 0));
    assert_eq!(places(&toks)[2], (1, 9));
}

#[test]
fn string_literal_keeps_spaces_and_delimiters() {
    let toks = tokenize("s(\"a, b; c\");");
    assert_eq!(names(&toks), vec!["s", "(", "\"", "a, b; c", "\"", ")", ";"]);
    assert_eq!(kinds(&toks)[3], TokenType::STRING);
}

#[test]
fn empty_character_literal() {
    let toks = tokenize("'';");
    assert_eq!(names(&toks), vec!["'", "", "'", ";"]);
    assert_eq!(kinds(&toks)[1], TokenType::CHAR);
}

#[test]
fn text_ending_in_a_quote() {
    let toks = tokenize("ab\"\";");
    assert_eq!(names(&toks), vec!["a", "b\"", "a", ";"]);
    assert_eq!(kinds(&toks)[1], TokenType::UNKNOWN);
}

#[test]
fn operators_and_punctuation() {
    let toks = tokenize("a<=b!=c&d.e#f,g[1]*h/i-j+k>l;");
    assert_eq!(
        names(&toks),
        vec!["a", "<", "=", "b", "!", "=", "c", "&", "d", ".", "e", "#", "f", ",", "g", "[", "1", "]", "*", "h", "/", "i", "-", "j", "+", "k", ">", "l", ";"]
    );
}

#[test]
fn include_directive() {
    let toks = tokenize("#include <stdio.h>\n");
    assert_eq!(names(&toks), vec!["#", "include", "<", "stdio", ".", "h", ">"]);
    assert_eq!(
        kinds(&toks),
        vec![TokenType::PREPROCESSORDECL, TokenType::PREPROCESSOR, TokenType::LCHEV, TokenType::NAME, TokenType::DECIMAL, TokenType::NAME, TokenType::RCHEV]
    );
}

#[test]
fn number_like_names() {
    let toks = tokenize("inf nan;");
    assert_eq!(names(&toks), vec!["inf", "nan", ";"]);
    assert_eq!(kinds(&toks), vec![TokenType::NUMBER, TokenType::NUMBER, TokenType::SEMICOLON]);
}

#[test]
fn unicode_whitespace_separates_words() {
    let toks = tokenize("a\u{a0}b\u{3000}c;");
    assert_eq!(names(&toks), vec!["a", "b", "c", ";"]);
}
