use lib::ast::{BinaryOp, Expr, Statement, Type};
use lib::lexer::tokenize;
use lib::parser::{
    expect, parse_bool, parse_call, parse_expression, parse_file, parse_preprocessor, parse_primary,
    parse_statement, update_label_index, update_string_index, Cursor, ParseError, SyntaxIssue,
};
use lib::token::{tagging, TokenType, TOKEN};

fn toks(src: &str) -> Vec<TOKEN> {
    tokenize(src)
}

fn want(kind: TokenType, name: &str) -> TOKEN {
    TOKEN { name: name.to_string(), token_type: kind, line: 0, column: 0 }
}

fn var(n: &str) -> Expr {
    Expr::Variable(n.to_string())
}

fn bin(l: Expr, op: BinaryOp, r: Expr) -> Expr {
    Expr::Binary(Box::new(l), op, Box::new(r))
}

fn statement(src: &str) -> (Result<Statement, ParseError>, Cursor) {
    let t = toks(src);
    let mut cur = Cursor::new();
    let r = parse_statement(&t, &mut cur);
    (r, cur)
}

#[test]
fn expect_moves_one_token() {
    let t = toks("int x;");
    let mut cur = Cursor::new();
    let got = expect(&t, &mut cur, &want(TokenType::TYPE, "Any Type")).unwrap();
    assert_eq!(got.name, "int");
    assert_eq!(cur.pos, 1);
    let got = expect(&t, &mut cur, &want(TokenType::NAME, "Any Name")).unwrap();
    assert_eq!(got.name, "x");
    assert_eq!(cur.pos, 2);
}

#[test]
fn expect_reports_the_next_token() {
    let t = toks("main(){}");
    let mut cur = Cursor::new();
    let err = expect(&t, &mut cur, &want(TokenType::TYPE, "Any Type")).unwrap_err();
    assert_eq!(
        err,
        ParseError::Syntax {
            line: 1,
            column: 6,
            issue: SyntaxIssue::Expected {
                expected: TokenType::TYPE,
                expected_name: "Any Type".to_string(),
                got: TokenType::NAME,
                got_name: "main".to_string(),
            },
        }
    );
    assert_eq!(cur.pos, 1);
}

#[test]
fn expect_past_the_end() {
    let t: Vec<TOKEN> = Vec::new();
    let mut cur = Cursor::new();
    assert_eq!(expect(&t, &mut cur, &want(TokenType::TYPE, "Any Type")).unwrap_err(), ParseError::OutOfTokens);
}

#[test]
fn counters_hand_out_numbers_in_order() {
    let mut cur = Cursor::new();
    assert_eq!(update_label_index(&mut cur), Ok(0));
    assert_eq!(update_label_index(&mut cur), Ok(1));
    assert_eq!(update_string_index(&mut cur), Ok(0));
    assert_eq!(cur.label_index, 2);
    assert_eq!(cur.string_index, 1);
    let mut full = Cursor { pos: 0, string_index: i64::MAX, label_index: i64::MAX };
    assert_eq!(update_label_index(&mut full), Err(ParseError::CounterOverflow));
    assert_eq!(update_string_index(&mut full), Err(ParseError::CounterOverflow));
}

#[test]
fn booleans() {
    assert_eq!(parse_bool(&"true".to_string()), Ok(true));
    assert_eq!(parse_bool(&"false".to_string()), Ok(false));
    assert_eq!(parse_bool(&"maybe".to_string()), Err(ParseError::NotABoolean { text: "maybe".to_string() }));
}

#[test]
fn primaries() {
    let cases: Vec<(&str, Expr)> = vec![
        ("42;", Expr::IntLiteral(42)),
        ("x;", var("x")),
        ("true;", Expr::BoolLiteral(true)),
        ("'a';", Expr::CharLiteral(97)),
        ("'\\n';", Expr::CharLiteral(10)),
        ("*p;", Expr::Dereference("p".to_string())),
        ("&v;", Expr::AddressOf("v".to_string())),
        ("s.f;", Expr::Struct("s".to_string(), "f".to_string())),
        ("sizeof x;", Expr::SizeofVar("x".to_string())),
        ("sizeof(x);", Expr::SizeofVar("x".to_string())),
        ("sizeof(int);", Expr::SizeofType(Type::Int)),
        ("sizeof(char *);", Expr::SizeofType(Type::Pointer(Box::new(Type::Char)))),
        ("f();", Expr::Call("f".to_string(), vec![])),
    ];
    for (src, expected) in cases {
        let t = toks(src);
        let mut cur = Cursor::new();
        assert_eq!(parse_primary(&t, &mut cur).unwrap(), expected, "{}", src);
        assert_eq!(t[cur.pos].name, ";", "{}", src);
    }
}

#[test]
fn string_literals_are_numbered() {
    let t = toks("f(\"a\", \"b\");");
    let mut cur = Cursor::new();
    let name = t[0].clone_token();
    cur.pos = 1;
    let (fname, args) = parse_call(&name, &t, &mut cur).unwrap();
    assert_eq!(fname, "f");
    assert_eq!(args, vec![Expr::StringLiteral("a".to_string(), 0), Expr::StringLiteral("b".to_string(), 1)]);
    assert_eq!(cur.string_index, 2);
}

trait CloneToken {
    fn clone_token(&self) -> TOKEN;
}

impl CloneToken for TOKEN {
    fn clone_token(&self) -> TOKEN {
        TOKEN { name: self.name.clone(), token_type: self.token_type, line: self.line, column: self.column }
    }
}

#[test]
fn precedence_groups_products_first() {
    let t = toks("1 + 2 * 3 - 4;");
    let mut cur = Cursor::new();
    let e = parse_expression(&t, &mut cur, 0).unwrap();
    assert_eq!(
        e,
        bin(bin(Expr::IntLiteral(1), BinaryOp::PLUS, bin(Expr::IntLiteral(2), BinaryOp::MULTIPLICATION, Expr::IntLiteral(3))), BinaryOp::MINUS, Expr::IntLiteral(4))
    );
}

#[test]
fn comparisons() {
    let cases = [
        ("a == b;", BinaryOp::EQUAL),
        ("a != b;", BinaryOp::NEQUAL),
        ("a < b;", BinaryOp::LESSER),
        ("a <= b;", BinaryOp::LESSEREQ),
        ("a > b;", BinaryOp::GREATER),
        ("a >= b;", BinaryOp::GREATEREQ),
    ];
    for (src, op) in cases {
        let t = toks(src);
        let mut cur = Cursor::new();
        assert_eq!(parse_expression(&t, &mut cur, 0).unwrap(), bin(var("a"), op, var("b")), "{}", src);
    }
}

#[test]
fn assignment_inside_an_expression_is_an_error() {
    let t = toks("a = b;");
    let mut cur = Cursor::new();
    let err = parse_expression(&t, &mut cur, 0).unwrap_err();
    assert_eq!(err, ParseError::Syntax { line: 1, column: 7, issue: SyntaxIssue::ComparisonExpected });
}

#[test]
fn declarations() {
    assert_eq!(statement("int x = 1;").0.unwrap(), Statement::Declaration(Type::Int, "x".to_string(), Expr::IntLiteral(1)));
    assert_eq!(statement("char *p;").0.unwrap(), Statement::Declaration(Type::Pointer(Box::new(Type::Char)), "p".to_string(), Expr::Empty));
    assert_eq!(statement("int a[4];").0.unwrap(), Statement::Declaration(Type::Array(Box::new(Type::Int), 4), "a".to_string(), Expr::Empty));
    assert_eq!(statement("int x return 0;").0.unwrap(), Statement::Declaration(Type::Int, "x".to_string(), Expr::Unknown));
}

#[test]
fn statements_starting_with_a_name() {
    assert_eq!(statement("f(1, x);").0.unwrap(), Statement::Call("f".to_string(), vec![Expr::IntLiteral(1), var("x")]));
    assert_eq!(statement("x = x * 2;").0.unwrap(), Statement::Reassign(var("x"), bin(var("x"), BinaryOp::MULTIPLICATION, Expr::IntLiteral(2))));
    assert_eq!(statement("p.y = 3;").0.unwrap(), Statement::Reassign(Expr::Struct("p".to_string(), "y".to_string()), Expr::IntLiteral(3)));
    assert_eq!(statement("i++;").0.unwrap(), Statement::Reassign(var("i"), bin(var("i"), BinaryOp::PLUS, Expr::IntLiteral(1))));
    assert_eq!(statement("x;").0.unwrap(), Statement::Unknown);
}

#[test]
fn increment_before_a_parenthesis_leaves_it() {
    let (r, cur) = statement("i++)");
    assert_eq!(r.unwrap(), Statement::Reassign(var("i"), bin(var("i"), BinaryOp::PLUS, Expr::IntLiteral(1))));
    assert_eq!(cur.pos, 3);
}

#[test]
fn increment_followed_by_something_else() {
    assert_eq!(statement("i++ x;").0.unwrap_err(), ParseError::IncrementEnd { got: TokenType::NAME });
}

#[test]
fn name_followed_by_something_else() {
    let err = statement("x 1;").0.unwrap_err();
    assert_eq!(err, ParseError::Syntax { line: 1, column: 5, issue: SyntaxIssue::AfterName { got: TokenType::NUMBER, got_name: "1".to_string() } });
}

#[test]
fn if_and_while_take_labels_after_their_body() {
    let (r, cur) = statement("if (a) { while (b) { break; } }");
    let s = r.unwrap();
    assert_eq!(
        s,
        Statement::If(var("a"), vec![Statement::While(var("b"), vec![Statement::Break(0)], 1)], 2)
    );
    assert_eq!(cur.label_index, 3);
}

#[test]
fn else_takes_its_label_before_its_body() {
    let (r, cur) = statement("else { if (a) { } }");
    assert_eq!(r.unwrap(), Statement::Else(vec![Statement::If(var("a"), vec![], 1)], 0));
    assert_eq!(cur.label_index, 2);
}

#[test]
fn for_loop_becomes_a_block_with_a_while() {
    let (r, _) = statement("for (int i = 0; i < 3; i++) { f(i); }");
    assert_eq!(
        r.unwrap(),
        Statement::BlockScope(vec![
            Statement::Declaration(Type::Int, "i".to_string(), Expr::IntLiteral(0)),
            Statement::While(
                bin(var("i"), BinaryOp::LESSER, Expr::IntLiteral(3)),
                vec![
                    Statement::Call("f".to_string(), vec![var("i")]),
                    Statement::Reassign(var("i"), bin(var("i"), BinaryOp::PLUS, Expr::IntLiteral(1))),
                ],
                0
            ),
        ])
    );
}

#[test]
fn structures() {
    assert_eq!(
        statement("struct pt { int x; char c; };").0.unwrap(),
        Statement::Struct(
            "pt".to_string(),
            vec![
                Statement::Declaration(Type::Int, "x".to_string(), Expr::Empty),
                Statement::Declaration(Type::Char, "c".to_string(), Expr::Empty),
            ]
        )
    );
    assert_eq!(statement("struct pt p;").0.unwrap(), Statement::Declaration(Type::Struct("pt".to_string()), "p".to_string(), Expr::Empty));
}

#[test]
fn structure_field_with_a_value() {
    let err = statement("struct pt { int x = 1; };").0.unwrap_err();
    assert!(matches!(err, ParseError::Syntax { issue: SyntaxIssue::FieldWithValue, .. }));
}

#[test]
fn blocks_break_and_continue() {
    assert_eq!(statement("{ continue; }").0.unwrap(), Statement::BlockScope(vec![Statement::Continue]));
    let (r, cur) = statement("break;");
    assert_eq!(r.unwrap(), Statement::Break(0));
    assert_eq!(cur.label_index, 1);
}

#[test]
fn label_counter_overflow() {
    let t = toks("break;");
    let mut cur = Cursor { pos: 0, string_index: 0, label_index: i64::MAX };
    assert_eq!(parse_statement(&t, &mut cur).unwrap_err(), ParseError::CounterOverflow);
}

#[test]
fn integer_that_does_not_fit() {
    let t = toks("return 1e5;");
    let mut cur = Cursor::new();
    assert_eq!(parse_statement(&t, &mut cur).unwrap_err(), ParseError::BadInteger { text: "1e5".to_string() });
}

#[test]
fn empty_character_literal_is_an_error() {
    let t = toks("c = '';");
    let mut cur = Cursor::new();
    assert_eq!(parse_statement(&t, &mut cur).unwrap_err(), ParseError::EmptyCharLiteral);
}

#[test]
fn not_is_unsupported() {
    let t = toks("return !x;");
    let mut cur = Cursor::new();
    assert!(matches!(parse_statement(&t, &mut cur).unwrap_err(), ParseError::Syntax { issue: SyntaxIssue::NotUnsupported, .. }));
}

#[test]
fn invalid_statement() {
    let t = toks("; x;");
    let mut cur = Cursor::new();
    let err = parse_statement(&t, &mut cur).unwrap_err();
    assert_eq!(
        err,
        ParseError::Syntax { line: 1, column: 5, issue: SyntaxIssue::InvalidStatement { got: TokenType::SEMICOLON, got_name: ";".to_string() } }
    );
}

#[test]
fn preprocessor_include() {
    let t = toks("#include <stdio.h>\nint main(){ return 0; }");
    let mut cur = Cursor::new();
    cur.pos = 1;
    parse_preprocessor(&t, &mut cur).unwrap();
    assert_eq!(t[cur.pos].name, "int");
}

#[test]
fn preprocessor_define_is_unsupported() {
    let t = toks("#define X 1\n;");
    let mut cur = Cursor::new();
    cur.pos = 1;
    assert!(matches!(parse_preprocessor(&t, &mut cur).unwrap_err(), ParseError::Syntax { issue: SyntaxIssue::NotSupported, .. }));
}

#[test]
fn whole_file() {
    let t = toks("#include <stdio.h>\nint add(int a, char *b){ return a; }\nint main(){ return add(1, 2); }\n");
    let mut cur = Cursor::new();
    let prog = parse_file(&t, &mut cur).unwrap();
    assert_eq!(cur.pos, t.len());
    assert_eq!(prog.functions.len(), 2);
    assert_eq!(prog.functions[0].name, "add");
    assert_eq!(prog.functions[0].args.len(), 2);
    assert_eq!(prog.functions[0].args[1].var_type, Type::Pointer(Box::new(Type::Char)));
    assert_eq!(prog.functions[0].args[1].name, "b");
    assert_eq!(prog.functions[0].body, vec![Statement::Return(var("a"))]);
    assert_eq!(prog.functions[1].name, "main");
    assert_eq!(
        prog.functions[1].body,
        vec![Statement::Return(Expr::Call("add".to_string(), vec![Expr::IntLiteral(1), Expr::IntLiteral(2)]))]
    );
}

#[test]
fn empty_file_runs_out_of_tokens() {
    let t: Vec<TOKEN> = Vec::new();
    let mut cur = Cursor::new();
    assert_eq!(parse_file(&t, &mut cur).unwrap_err(), ParseError::OutOfTokens);
}

#[test]
fn parameter_without_a_type() {
    let t = toks("int f(x){ }");
    let mut cur = Cursor::new();
    let err = parse_file(&t, &mut cur).unwrap_err();
    assert!(matches!(err, ParseError::Syntax { issue: SyntaxIssue::ParameterType { got: TokenType::NAME }, .. }));
}

#[test]
fn tagging_used_for_call_name() {
    let name = tagging(&"g".to_string(), 1, 1);
    let t = toks("(1);");
    let mut cur = Cursor::new();
    let (fname, args) = parse_call(&name, &t, &mut cur).unwrap();
    assert_eq!(fname, "g");
    assert_eq!(args, vec![Expr::IntLiteral(1)]);
    assert_eq!(cur.pos, 3);
}

#[test]
fn equal_strength_operators_group_to_the_left() {
    let t = toks("8 - 4 - 2;");
    let mut cur = Cursor::new();
    assert_eq!(
        parse_expression(&t, &mut cur, 0).unwrap(),
        bin(bin(Expr::IntLiteral(8), BinaryOp::MINUS, Expr::IntLiteral(4)), BinaryOp::MINUS, Expr::IntLiteral(2))
    );
    let t = toks("8 / 4 * 2;");
    let mut cur = Cursor::new();
    assert_eq!(
        parse_expression(&t, &mut cur, 0).unwrap(),
        bin(bin(Expr::IntLiteral(8), BinaryOp::DIVISION, Expr::IntLiteral(4)), BinaryOp::MULTIPLICATION, Expr::IntLiteral(2))
    );
}

#[test]
fn call_argument_without_separator() {
    let err = statement("f(1 2);").0.unwrap_err();
    assert_eq!(
        err,
        ParseError::Syntax {
            line: 1,
            column: 7,
            issue: SyntaxIssue::CallArgument {
                function: "f".to_string(),
                arguments: vec![Expr::IntLiteral(1)],
                got: TokenType::NUMBER,
                got_name: "2".to_string(),
            },
        }
    );
}

#[test]
fn sizeof_errors() {
    assert!(matches!(
        statement("x = sizeof(1);").0.unwrap_err(),
        ParseError::Syntax { issue: SyntaxIssue::SizeofInner { got: TokenType::NUMBER }, .. }
    ));
    let err = statement("x = sizeof 1;").0.unwrap_err();
    match err {
        ParseError::Syntax { issue: SyntaxIssue::SizeofOperand { got, got_name }, .. } => {
            assert_eq!(got, TokenType::NUMBER);
            assert_eq!(got_name, "1");
        }
        other => panic!("{:?}", other),
    }
}

#[test]
fn invalid_primary_at_the_end_reads_past_the_last_token() {
    assert_eq!(statement("x = ;").0.unwrap_err(), ParseError::OutOfTokens);
}

#[test]
fn invalid_primary() {
    assert!(matches!(
        statement("x = ; y;").0.unwrap_err(),
        ParseError::Syntax { issue: SyntaxIssue::InvalidPrimary { got: TokenType::SEMICOLON }, .. }
    ));
}

#[test]
fn not_before_a_name() {
    assert!(matches!(
        statement("x = a ! b;").0.unwrap_err(),
        ParseError::Syntax { issue: SyntaxIssue::NotVariableUnsupported, .. }
    ));
}

#[test]
fn structure_body_with_a_statement() {
    let err = statement("struct s { return 1; };").0.unwrap_err();
    match err {
        ParseError::Syntax { issue: SyntaxIssue::FieldNotDeclaration { statement }, .. } => {
            assert_eq!(statement, Statement::Return(Expr::IntLiteral(1)));
        }
        other => panic!("{:?}", other),
    }
}

#[test]
fn structure_keyword_followed_by_nothing_usable() {
    assert!(matches!(
        statement("struct s ;").0.unwrap_err(),
        ParseError::Syntax { issue: SyntaxIssue::StructDeclaration { got: TokenType::SEMICOLON }, .. }
    ));
}

#[test]
fn parameters_without_a_comma() {
    let t = toks("int f(int a b){ }");
    let mut cur = Cursor::new();
    assert!(matches!(
        parse_file(&t, &mut cur).unwrap_err(),
        ParseError::Syntax { issue: SyntaxIssue::ParameterSeparator { got: TokenType::NAME }, .. }
    ));
}
