use lib::ast::{BinaryOp, Expr, Function, FunctionArgDeclaration, Program, Statement, Type};
use lib::codegen::{gen_expr, gen_function, gen_program, gen_statement, get_type, store_type, CodeGen, CompileError};
use lib::driver::{compile, Failure};
use lib::lexer::comments_closed;
use lib::parser::ParseError;

const HEAD: &str = ".intel_syntax noprefix\n\n\n";

fn header(name: &str, frame: i64) -> String {
    format!("\n.global {0}\n{0}:\n    push rbp\n    mov rbp, rsp\n    sub rsp, {1}\n\n", name, frame)
}

fn gen_error(src: &str) -> CompileError {
    match compile(src) {
        Err(Failure::Generate(e)) => e,
        other => panic!("expected a generation error, got {:?}", other),
    }
}

#[test]
fn return_of_a_local() {
    let out = compile("int main(){\n    int x = 5;\n    return x;\n}\n").unwrap();
    let expected = format!(
        "{}{}{}\n",
        HEAD,
        header("main", 16),
        "    mov eax, 5\n    mov [rbp -4], eax\n    mov eax, [rbp -4]\n    mov rsp, rbp\n    pop rbp\n    ret"
    );
    assert_eq!(out, expected);
}

#[test]
fn loop_and_branches() {
    let src = "int main(){\n    int i = 0;\n    while(i < 3){\n        i = i + 1;\n    }\n    if(i == 3){\n        return 1;\n    } else {\n        return 0;\n    }\n}\n";
    let body = [
        "    mov eax, 0\n",
        "    mov [rbp -4], eax\n",
        "    jmp .L0\n",
        ".L3:\n",
        "    mov eax, [rbp -4]\n",
        "    push rax\n",
        "    mov eax, 1\n",
        "    pop rcx\n",
        "    add eax, ecx\n",
        "    mov [rbp -4], eax\n",
        ".L0:\n",
        "    mov eax, [rbp -4]\n",
        "    push rax\n",
        "    mov eax, 3\n",
        "    pop rcx\n",
        "    cmp ecx, eax\n",
        "    setl al\n",
        "    movzx eax, al\n",
        "    cmp eax, 0\n",
        "    jne .L3\n",
        "    mov eax, [rbp -4]\n",
        "    push rax\n",
        "    mov eax, 3\n",
        "    pop rcx\n",
        "    cmp ecx, eax\n",
        "    sete al\n",
        "    movzx eax, al\n",
        "    cmp eax, 0\n",
        "    je .L1\n",
        "    mov eax, 1\n",
        "    mov rsp, rbp\n",
        "    pop rbp\n",
        "    ret",
        "    jmp .L2\n",
        ".L1:\n",
        "    mov eax, 0\n",
        "    mov rsp, rbp\n",
        "    pop rbp\n",
        "    ret",
        ".L2:\n",
    ]
    .concat();
    let expected = format!("{}{}{}\n", HEAD, header("main", 16), body);
    assert_eq!(compile(src).unwrap(), expected);
}

#[test]
fn calls_arguments_and_strings() {
    let src = "#include <stdio.h>\nint add(int a, int b){\n    return a + b;\n}\nint main(){\n    printf(\"hi %d\", add(1, 2));\n    return 0;\n}\n";
    let add_body = [
        "    mov [rbp -4], edi\n",
        "    mov [rbp -8], esi\n",
        "    mov eax, [rbp -4]\n",
        "    push rax\n",
        "    mov eax, [rbp -8]\n",
        "    pop rcx\n",
        "    add eax, ecx\n",
        "    mov rsp, rbp\n",
        "    pop rbp\n",
        "    ret",
    ]
    .concat();
    let main_body = [
        "    mov eax, 1\n",
        "    mov edi, eax\n",
        "    mov eax, 2\n",
        "    mov esi, eax\n",
        "    call add\n",
        "    mov esi, eax\n",
        "    mov rax, OFFSET FLAT: .LC0\n",
        "    mov edi, eax\n",
        "    xor eax, eax\n",
        "    call printf\n",
        "    mov eax, 0\n",
        "    mov rsp, rbp\n",
        "    pop rbp\n",
        "    ret",
    ]
    .concat();
    let expected = format!(
        ".intel_syntax noprefix\n\n.LC0:\n    .string \"hi %d\"\n\n{}{}\n{}{}\n",
        header("add", 16),
        add_body,
        header("main", 0),
        main_body
    );
    assert_eq!(compile(src).unwrap(), expected);
}

#[test]
fn structure_fields() {
    let src = "int main(){\n    struct point { int x; int y; };\n    struct point p;\n    p.y = 7;\n    return p.y;\n}\n";
    let body = "    mov eax, 7\n    mov [rbp -8], eax\n    mov eax, [rbp -8]\n    mov rsp, rbp\n    pop rbp\n    ret";
    assert_eq!(compile(src).unwrap(), format!("{}{}{}\n", HEAD, header("main", 16), body));
}

#[test]
fn pointer_arithmetic_scales_the_offset() {
    let src = "int f(int *p){ return p + 1; }";
    let body = [
        "    mov QWORD PTR [rbp -8], rdi\n",
        "    mov rax, QWORD PTR [rbp -8]\n",
        "    push rax\n",
        "    mov eax, 1\n",
        "    pop rcx\n",
        "    push rcx\n",
        "    mov ecx, 4 \n",
        "    imul eax, ecx\n",
        "    pop rcx\n",
        "    add eax, ecx\n",
        "    mov rsp, rbp\n",
        "    pop rbp\n",
        "    ret",
    ]
    .concat();
    assert_eq!(compile(src).unwrap(), format!("{}{}{}\n", HEAD, header("f", 16), body));
}

#[test]
fn frame_is_rounded_up_to_sixteen() {
    let out = compile("int main(){ int a[4]; char c; return 0; }").unwrap();
    assert!(out.contains("    sub rsp, 32\n\n"));
    let out = compile("int main(){ char c; return 0; }").unwrap();
    assert!(out.contains("    sub rsp, 16\n\n"));
    let out = compile("int main(){ int a[4]; return 0; }").unwrap();
    assert!(out.contains("    sub rsp, 16\n\n"));
}

#[test]
fn functions_appear_in_order_after_the_directive() {
    let out = compile("int a(){ return 1; } int b(){ return 2; } int c(){ return 3; }").unwrap();
    assert!(out.starts_with(".intel_syntax noprefix\n\n"));
    let pa = out.find("\n.global a\na:\n").unwrap();
    let pb = out.find("\n.global b\nb:\n").unwrap();
    let pc = out.find("\n.global c\nc:\n").unwrap();
    assert!(pa < pb && pb < pc);
}

#[test]
fn variables_of_a_block_are_gone_after_it() {
    assert_eq!(
        gen_error("int main(){ { int x = 1; } return x; }"),
        CompileError::UndeclaredVariable { name: "x".to_string() }
    );
    assert_eq!(
        gen_error("int main(){ if (1) { int y = 1; } return y; }"),
        CompileError::UndeclaredVariable { name: "y".to_string() }
    );
}

#[test]
fn inner_declarations_shadow_outer_ones() {
    let out = compile("int main(){ int x = 1; { char x = 2; x = 3; } return x; }").unwrap();
    assert!(out.contains("    mov BYTE PTR [rbp -5], al\n    mov eax, 3\n    mov [rbp -5], eax\n    mov eax, [rbp -4]\n"));
}

#[test]
fn open_comment_is_detected_before_compiling() {
    assert!(!comments_closed("int main(){ /* open"));
}

#[test]
fn parser_failure() {
    assert_eq!(compile("int main(){").unwrap_err(), Failure::Parse(ParseError::OutOfTokens));
    assert_eq!(compile("").unwrap_err(), Failure::Parse(ParseError::OutOfTokens));
}

#[test]
fn undeclared_variable() {
    assert_eq!(gen_error("int main(){ return y; }"), CompileError::UndeclaredVariable { name: "y".to_string() });
}

#[test]
fn type_not_implemented() {
    assert_eq!(gen_error("int main(){ float f = 1; return f; }"), CompileError::TypeNotImplemented { var_type: Type::Float });
}

#[test]
fn field_of_a_non_structure() {
    assert_eq!(gen_error("int main(){ int x = 1; return x.y; }"), CompileError::NeverHappens);
}

#[test]
fn cannot_dereference_an_int() {
    assert_eq!(gen_error("int main(){ int x = 1; return *x; }"), CompileError::CannotDereference);
}

#[test]
fn unknown_expression() {
    assert_eq!(gen_error("int main(){ int x return 0; }"), CompileError::UnknownExpression);
}

#[test]
fn invalid_if_condition() {
    assert_eq!(gen_error("int main(){ if (true) { } return 0; }"), CompileError::InvalidIfCondition);
}

#[test]
fn break_outside_a_loop() {
    assert_eq!(gen_error("int main(){ break; }"), CompileError::BreakOutsideLoop);
}

#[test]
fn continue_outside_a_loop() {
    assert_eq!(gen_error("int main(){ continue; }"), CompileError::ContinueOutsideLoop);
}

#[test]
fn boolean_parameter() {
    assert_eq!(gen_error("int f(bool b){ return 0; }"), CompileError::ArgumentTypeNotImplemented);
}

#[test]
fn seven_parameters() {
    assert_eq!(
        gen_error("int f(int a, int b, int c, int d, int e, int g, int h){ return 0; }"),
        CompileError::TooManyArguments
    );
}

#[test]
fn seven_call_arguments() {
    assert_eq!(gen_error("int main(){ f(1, 2, 3, 4, 5, 6, 7); return 0; }"), CompileError::TooManyArguments);
}

#[test]
fn else_first_in_a_function() {
    assert_eq!(gen_error("int main(){ else { } }"), CompileError::ElseWithoutCode);
}

#[test]
fn array_too_large() {
    assert_eq!(gen_error("int main(){ int a[9223372036854775807]; return 0; }"), CompileError::ArithmeticOverflow);
}

#[test]
fn unknown_operation() {
    let mut gen = CodeGen::new(0);
    let e = Expr::Binary(Box::new(Expr::IntLiteral(1)), BinaryOp::UNKNOWN, Box::new(Expr::IntLiteral(2)));
    assert_eq!(gen_expr(&e, &mut gen), Err(CompileError::UnknownOperation));
}

#[test]
fn cannot_reassign_a_literal() {
    let mut gen = CodeGen::new(0);
    let s = Statement::Reassign(Expr::IntLiteral(1), Expr::IntLiteral(2));
    assert_eq!(gen_statement(&s, &mut gen), Err(CompileError::CannotReassign { target: Expr::IntLiteral(1) }));
}

#[test]
fn structure_with_a_statement_field() {
    let mut gen = CodeGen::new(0);
    let s = Statement::Struct("s".to_string(), vec![Statement::Return(Expr::IntLiteral(0))]);
    assert_eq!(gen_statement(&s, &mut gen), Err(CompileError::FieldNotDeclaration));
}

#[test]
fn loads_and_stores_by_type() {
    let mut gen = CodeGen::new(0);
    store_type(&Type::Char, -1, &mut gen);
    store_type(&Type::Pointer(Box::new(Type::Int)), -16, &mut gen);
    store_type(&Type::Array(Box::new(Type::Int), 2), -24, &mut gen);
    store_type(&Type::Int, -28, &mut gen);
    get_type(&Type::Int, -28, &mut gen).unwrap();
    get_type(&Type::Bool, -1, &mut gen).unwrap();
    get_type(&Type::Pointer(Box::new(Type::Char)), -16, &mut gen).unwrap();
    get_type(&Type::Array(Box::new(Type::Int), 2), -24, &mut gen).unwrap();
    assert_eq!(get_type(&Type::Double, -8, &mut gen), Err(CompileError::TypeNotImplemented { var_type: Type::Double }));
    assert_eq!(
        gen.body,
        vec![
            "    mov BYTE PTR [rbp -1], al\n",
            "    mov QWORD PTR [rbp -16], rax\n",
            "    mov [rbp -28], eax\n",
            "    mov eax, [rbp -28]\n",
            "    movzx eax, BYTE PTR [rbp -1]\n",
            "    mov rax, QWORD PTR [rbp -16]\n",
            "    lea rax, [rbp -24]\n",
        ]
    );
}

#[test]
fn parameters_of_each_kind() {
    let f = Function {
        name: "g".to_string(),
        args: vec![
            FunctionArgDeclaration { var_type: Type::Char, name: "c".to_string() },
            FunctionArgDeclaration { var_type: Type::Int, name: "i".to_string() },
            FunctionArgDeclaration { var_type: Type::Pointer(Box::new(Type::Char)), name: "p".to_string() },
        ],
        body: vec![],
    };
    let mut gen = CodeGen::new(0);
    gen_function(&f, &mut gen).unwrap();
    assert_eq!(gen.text.len(), 1);
    assert_eq!(gen.text[0].header, header("g", 16));
    assert_eq!(
        gen.text[0].body,
        vec!["    mov BYTE PTR [rbp -1], dil\n", "    mov [rbp -5], esi\n", "    mov QWORD PTR [rbp -13], rdx\n"]
    );
}

#[test]
fn program_labels_continue_from_the_parser() {
    let prog = Program {
        functions: vec![Function {
            name: "m".to_string(),
            args: vec![],
            body: vec![Statement::While(Expr::IntLiteral(1), vec![Statement::Break(7)], 4)],
        }],
    };
    let out = gen_program(&prog, 9).unwrap();
    let body = "    jmp .L4\n.L9:\n    jmp .L7\n.L4:\n    mov eax, 1\n    jne .L9\n.L7 :\n";
    assert_eq!(out, format!("{}{}{}\n", HEAD, header("m", 0), body));
}

#[test]
fn inner_slots_are_not_handed_back() {
    let out = compile("int main(){ int x = 1; { int y = 2; } int z = 3; return z; }").unwrap();
    assert!(out.contains("    mov [rbp -8], eax\n    mov eax, 3\n    mov [rbp -12], eax\n    mov eax, [rbp -12]\n"));
}

#[test]
fn a_while_takes_its_break_off_the_stack() {
    let mut gen = CodeGen::new(10);
    let s = Statement::While(Expr::IntLiteral(1), vec![Statement::Break(3)], 2);
    gen_statement(&s, &mut gen).unwrap();
    assert!(gen.break_idx_vec.is_empty());
    assert_eq!(gen.body.last().unwrap(), ".L3 :\n");
    assert_eq!(gen.label_index, 11);
}

#[test]
fn breaks_are_taken_last_first() {
    let mut gen = CodeGen::new(0);
    gen.loop_check.push(true);
    gen_statement(&Statement::Break(5), &mut gen).unwrap();
    gen_statement(&Statement::Break(6), &mut gen).unwrap();
    assert_eq!(gen.break_idx_vec, vec![5, 6]);
    let s = Statement::While(Expr::IntLiteral(1), vec![], 9);
    gen_statement(&s, &mut gen).unwrap();
    assert_eq!(gen.break_idx_vec, vec![5]);
    assert_eq!(gen.body.last().unwrap(), ".L6 :\n");
    let s = Statement::While(Expr::IntLiteral(1), vec![], 9);
    gen_statement(&s, &mut gen).unwrap();
    assert!(gen.break_idx_vec.is_empty());
    let s = Statement::While(Expr::IntLiteral(1), vec![], 9);
    gen_statement(&s, &mut gen).unwrap();
    assert!(gen.break_idx_vec.is_empty());
    assert_eq!(gen.body.last().unwrap(), "    jne .L2\n");
}

#[test]
fn errors_before_any_output_leave_the_generator_as_it_was() {
    let mut gen = CodeGen::new(0);
    gen.emit("    nop\n".to_string());
    assert_eq!(gen_statement(&Statement::Break(1), &mut gen), Err(CompileError::BreakOutsideLoop));
    assert_eq!(gen_statement(&Statement::Continue, &mut gen), Err(CompileError::ContinueOutsideLoop));
    assert_eq!(gen_expr(&Expr::Unknown, &mut gen), Err(CompileError::UnknownExpression));
    assert_eq!(
        gen_expr(&Expr::Variable("v".to_string()), &mut gen),
        Err(CompileError::UndeclaredVariable { name: "v".to_string() })
    );
    assert_eq!(
        get_type(&Type::Float, -4, &mut gen),
        Err(CompileError::TypeNotImplemented { var_type: Type::Float })
    );
    assert_eq!(gen.body, vec!["    nop\n"]);
    assert!(gen.break_idx_vec.is_empty());
    assert!(gen.cond_check_locs.is_empty());
    assert_eq!(gen.data, ".intel_syntax noprefix\n\n");
}
