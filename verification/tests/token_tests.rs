use lib::ast::{checked_offset, get_offset, parse_type, Type};
use lib::numeric::{is_numerical, parse_i64};
use lib::text::{i64_to_string, u64_to_string};
use lib::token::{get_precedence, is_type, tagging, TokenType, TOKEN};

fn tok(name: &str) -> TOKEN {
    tagging(&name.to_string(), 1, 1)
}

#[test]
fn type_names_are_types() {
    for name in ["int", "char", "float", "double", "bool"] {
        assert!(is_type(&name.to_string()));
        assert_eq!(tok(name).token_type, TokenType::TYPE);
    }
    for name in ["void", "Int", "integer", ""] {
        assert!(!is_type(&name.to_string()));
        assert_ne!(tok(name).token_type, TokenType::TYPE);
    }
}

#[test]
fn tagging_keeps_name_and_place() {
    let t = tagging(&"while".to_string(), 7, 12);
    assert_eq!(t.name, "while");
    assert_eq!(t.token_type, TokenType::WHILE);
    assert_eq!(t.line, 7);
    assert_eq!(t.column, 12);
}

#[test]
fn tagging_of_every_listed_word() {
    let cases = [
        ("return", TokenType::RETURN),
        ("(", TokenType::LPAREN),
        (")", TokenType::RPAREN),
        ("{", TokenType::LBRACE),
        ("}", TokenType::RBRACE),
        ("[", TokenType::LBRACK),
        ("]", TokenType::RBRACK),
        ("+", TokenType::PLUS),
        ("-", TokenType::MINUS),
        ("*", TokenType::STAR),
        ("/", TokenType::SLASH),
        ("=", TokenType::ASSIGN),
        ("!", TokenType::NOT),
        (";", TokenType::SEMICOLON),
        (",", TokenType::COMMA),
        ("'", TokenType::SINGLEQUOTE),
        ("\"", TokenType::DOUBLEQUOTE),
        ("&", TokenType::ADDRESSOF),
        ("true", TokenType::BOOLEAN),
        ("false", TokenType::BOOLEAN),
        (".", TokenType::DECIMAL),
        ("#", TokenType::PREPROCESSORDECL),
        ("define", TokenType::PREPROCESSOR),
        ("include", TokenType::PREPROCESSOR),
        ("<", TokenType::LCHEV),
        (">", TokenType::RCHEV),
        ("if", TokenType::IF),
        ("else", TokenType::ELSE),
        ("while", TokenType::WHILE),
        ("for", TokenType::FOR),
        ("struct", TokenType::STRUCT),
        ("break", TokenType::BREAK),
        ("continue", TokenType::CONTINUE),
        ("sizeof", TokenType::SIZEOF),
        ("main", TokenType::NAME),
        ("x1", TokenType::NAME),
    ];
    for (name, kind) in cases {
        assert_eq!(tok(name).token_type, kind, "{}", name);
    }
}

#[test]
fn numbers_follow_float_parsing() {
    for text in ["0", "42", "-7", "+3", "1.5", ".5", "5.", "1e10", "1E-3", "inf", "-Infinity", "NaN", "nan"] {
        assert!(is_numerical(&text.to_string()), "{}", text);
        assert_eq!(text.parse::<f64>().is_ok(), true);
        assert_eq!(tok(text).token_type, TokenType::NUMBER, "{}", text);
    }
    for text in ["", ".", "e5", "1e", "1.2.3", "0x10", "1_000", " 1", "in", "infin", "--1", "1e+"] {
        assert!(!is_numerical(&text.to_string()), "{}", text);
        assert_eq!(text.parse::<f64>().is_ok(), false, "{}", text);
    }
}

#[test]
fn integers_parse_like_std() {
    let cases = ["0", "42", "-42", "+42", "9223372036854775807", "-9223372036854775808", "9223372036854775808", "", "-", "+", "1.5", "1e3", "007", " 1"];
    for text in cases {
        assert_eq!(parse_i64(&text.to_string()), text.parse::<i64>().ok(), "{}", text);
    }
    assert_eq!(parse_i64(&"-42".to_string()), Some(-42));
}

#[test]
fn precedence_of_operators() {
    assert_eq!(get_precedence(TokenType::STAR), 3);
    assert_eq!(get_precedence(TokenType::SLASH), 3);
    assert_eq!(get_precedence(TokenType::PLUS), 2);
    assert_eq!(get_precedence(TokenType::MINUS), 2);
    assert_eq!(get_precedence(TokenType::ASSIGN), 1);
    assert_eq!(get_precedence(TokenType::NOT), 1);
    assert_eq!(get_precedence(TokenType::LCHEV), 1);
    assert_eq!(get_precedence(TokenType::RCHEV), 1);
    assert_eq!(get_precedence(TokenType::NAME), 0);
    assert_eq!(get_precedence(TokenType::SEMICOLON), 0);
}

#[test]
fn operator_symbols_have_precedence() {
    for sym in ["*", "/", "+", "-", "=", "!", "<", ">"] {
        assert!(get_precedence(tok(sym).token_type) > 0, "{}", sym);
    }
    for sym in [";", "x", "1", "(", "&", "if"] {
        assert_eq!(get_precedence(tok(sym).token_type), 0, "{}", sym);
    }
}

#[test]
fn integer_texts_are_number_tokens() {
    for text in ["0", "17", "-3", "+8", "9223372036854775807"] {
        assert!(parse_i64(&text.to_string()).is_some());
        assert!(is_numerical(&text.to_string()));
        assert_eq!(tok(text).token_type, TokenType::NUMBER);
    }
}

#[test]
fn parse_type_of_names() {
    assert_eq!(parse_type(&tok("int")), Type::Int);
    assert_eq!(parse_type(&tok("char")), Type::Char);
    assert_eq!(parse_type(&tok("bool")), Type::Bool);
    assert_eq!(parse_type(&tok("float")), Type::Float);
    assert_eq!(parse_type(&tok("double")), Type::Double);
    assert_eq!(parse_type(&tok("void")), Type::Unknown);
}

#[test]
fn parse_type_agrees_with_is_type() {
    for name in ["int", "char", "bool", "float", "double", "void", "x", "struct"] {
        let t = tok(name);
        assert_eq!(parse_type(&t) != Type::Unknown, is_type(&t.name), "{}", name);
    }
}

#[test]
fn sizes_of_types() {
    assert_eq!(get_offset(&Type::Char), 1);
    assert_eq!(get_offset(&Type::Bool), 1);
    assert_eq!(get_offset(&Type::Int), 4);
    assert_eq!(get_offset(&Type::Float), 4);
    assert_eq!(get_offset(&Type::Double), 8);
    assert_eq!(get_offset(&Type::Pointer(Box::new(Type::Char))), 8);
    assert_eq!(get_offset(&Type::Array(Box::new(Type::Int), 3)), 12);
    assert_eq!(get_offset(&Type::Array(Box::new(Type::Array(Box::new(Type::Char), 5)), 2)), 10);
    assert_eq!(get_offset(&Type::Struct("s".to_string())), 0);
    assert_eq!(get_offset(&Type::Unknown), 0);
}

#[test]
fn checked_sizes_detect_overflow() {
    assert_eq!(checked_offset(&Type::Array(Box::new(Type::Int), 3)), Some(12));
    assert_eq!(checked_offset(&Type::Array(Box::new(Type::Int), i64::MAX)), None);
    assert_eq!(checked_offset(&Type::Array(Box::new(Type::Char), i64::MAX)), Some(i64::MAX));
}

#[test]
fn decimal_rendering() {
    assert_eq!(i64_to_string(0), "0");
    assert_eq!(i64_to_string(-42), "-42");
    assert_eq!(i64_to_string(1234567), "1234567");
    assert_eq!(i64_to_string(i64::MIN), i64::MIN.to_string());
    assert_eq!(i64_to_string(i64::MAX), i64::MAX.to_string());
    assert_eq!(u64_to_string(u64::MAX), u64::MAX.to_string());
}
