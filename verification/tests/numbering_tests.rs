use lib::ast::{Expr, Statement};
use lib::lexer::tokenize;
use lib::parser::{parse_file, Cursor};

fn expr_strings(e: &Expr, out: &mut Vec<i64>) {
    match e {
        Expr::StringLiteral(_, i) => out.push(*i),
        Expr::Binary(l, _, r) => {
            expr_strings(l, out);
            expr_strings(r, out);
        }
        Expr::Call(_, args) => {
            for a in args {
                expr_strings(a, out);
            }
        }
        _ => {}
    }
}

fn numbers(s: &Statement, labels: &mut Vec<i64>, strings: &mut Vec<i64>) {
    match s {
        Statement::Declaration(_, _, e) | Statement::Return(e) => expr_strings(e, strings),
        Statement::Call(_, args) => {
            for a in args {
                expr_strings(a, strings);
            }
        }
        Statement::Reassign(a, b) => {
            expr_strings(a, strings);
            expr_strings(b, strings);
        }
        Statement::If(c, body, i) | Statement::While(c, body, i) => {
            expr_strings(c, strings);
            for b in body {
                numbers(b, labels, strings);
            }
            labels.push(*i);
        }
        Statement::Else(body, i) => {
            labels.push(*i);
            for b in body {
                numbers(b, labels, strings);
            }
        }
        Statement::Struct(_, body) | Statement::BlockScope(body) => {
            for b in body {
                numbers(b, labels, strings);
            }
        }
        Statement::Break(i) => labels.push(*i),
        Statement::Continue | Statement::Unknown => {}
    }
}

fn distinct_below(v: &[i64], limit: i64) -> bool {
    let mut seen = v.to_vec();
    seen.sort();
    seen.dedup();
    seen.len() == v.len() && v.iter().all(|&x| 0 <= x && x < limit)
}

#[test]
fn labels_and_string_numbers_are_distinct() {
    let src = "int f(int n){\n\
        for (int i = 0; i < n; i++) { if (i == 2) { break; } else { printf(\"odd\"); } }\n\
        while (n > 0) { n = n - 1; if (n == 5) { continue; } }\n\
        return 0;\n\
    }\n\
    int main(){ printf(\"a\"); printf(\"b %d\", f(3)); { if (1) { } } return 0; }\n";
    let toks = tokenize(src);
    let mut cur = Cursor::new();
    let prog = parse_file(&toks, &mut cur).unwrap();
    let mut labels = Vec::new();
    let mut strings = Vec::new();
    for f in &prog.functions {
        for s in &f.body {
            numbers(s, &mut labels, &mut strings);
        }
    }
    assert_eq!(labels.len(), 7);
    assert_eq!(strings.len(), 3);
    assert!(distinct_below(&labels, cur.label_index));
    assert!(distinct_below(&strings, cur.string_index));
    assert_eq!(cur.label_index, 7);
    assert_eq!(cur.string_index, 3);
}

#[test]
fn for_loop_numbers_its_parts_in_reading_order() {
    let toks = tokenize("for (int i = 0; i < 3; i++) { break; }");
    let mut cur = Cursor::new();
    let s = lib::parser::parse_statement(&toks, &mut cur).unwrap();
    match s {
        Statement::BlockScope(parts) => match &parts[1] {
            Statement::While(_, body, idx) => {
                assert_eq!(body[0], Statement::Break(0));
                assert_eq!(*idx, 1);
            }
            other => panic!("{:?}", other),
        },
        other => panic!("{:?}", other),
    }
}

#[test]
fn a_statement_takes_the_next_labels_in_a_row() {
    let toks = tokenize("while (a) { if (b) { break; } else { break; } }");
    let mut cur = lib::parser::Cursor { pos: 0, string_index: 0, label_index: 40 };
    let s = lib::parser::parse_statement(&toks, &mut cur).unwrap();
    let mut labels = Vec::new();
    let mut strings = Vec::new();
    numbers(&s, &mut labels, &mut strings);
    labels.sort();
    assert_eq!(labels, vec![40, 41, 42, 43, 44]);
    assert_eq!(cur.label_index, 45);
    assert_eq!(cur.pos, toks.len());
}
