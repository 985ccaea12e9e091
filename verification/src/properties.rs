//! Properties of the compiler that span its functions, proved over their spec functions.
use vstd::prelude::*;
use crate::ast::{SExpr, SFunction, SStatement, Type, spec_parse_type};
use crate::lexer::{
    LexState, is_delim, is_quote, is_space, lex_start, lex_step, trim, trim_end, trim_start,
};
use crate::numeric::{
    all_digits, is_decimal_number, is_digit, is_float_body, is_float_text, is_mantissa, is_sign,
    lower, lower_seq, spec_parse_i64,
};
use crate::token::{TokenType, spec_is_type, spec_precedence, tag_of};
use crate::codegen::{
    GS, StructField, emit, frame_size, fresh_function, function_header, initial_state, pop_scope,
    push_scope, sp_call_nested, sp_call_plain, sp_field_loads, sp_field_stores, sp_gen_args,
    sp_gen_call, sp_gen_expr, sp_gen_function, sp_gen_functions, sp_gen_program, sp_gen_stmt,
    sp_gen_stmts, sp_get_type, sp_if_condition, sp_op_lines, sp_pointer_adjust,
    while_end, assembly,
};

verus! {

/// `a` is a prefix of `b`.
pub open spec fn prefix<A>(a: Seq<A>, b: Seq<A>) -> bool {
    a.len() <= b.len() && forall|i: int| 0 <= i < a.len() ==> #[trigger] b[i] == a[i]
}

/// What generating an expression leaves as it was: the label counter, the pending breaks,
/// the variables, the scopes, the stack, the finished functions and the header; the lines
/// of the function and the data section only grow.
pub open spec fn expr_keeps(g: GS, g1: GS) -> bool {
    &&& prefix(g.body, g1.body)
    &&& g1.labels == g.labels
    &&& g1.breaks == g.breaks
    &&& g1.entries == g.entries
    &&& g1.starts == g.starts
    &&& g1.stack == g.stack
    &&& g1.text == g.text
    &&& g1.header == g.header
    &&& prefix(g.data, g1.data)
}

proof fn lemma_get_type_keeps(g: GS, t: Type, off: i64)
    ensures
        sp_get_type(g, t, off) matches Ok(g1) ==> expr_keeps(g, g1),
{
}

proof fn lemma_pointer_adjust_keeps(g: GS)
    ensures
        sp_pointer_adjust(g) matches Ok(g1) ==> expr_keeps(g, g1),
{
}

proof fn lemma_op_lines_keeps(g: GS, op: crate::ast::BinaryOp)
    ensures
        sp_op_lines(g, op) matches Ok(g1) ==> expr_keeps(g, g1),
{
}

proof fn lemma_field_loads_keeps(g: GS, fields: Seq<StructField>, fname: Seq<char>)
    ensures
        sp_field_loads(g, fields, fname) matches Ok(g1) ==> expr_keeps(g, g1),
    decreases fields.len(),
{
    if fields.len() > 0 {
        lemma_field_loads_keeps(g, fields.drop_last(), fname);
        if let Ok(g1) = sp_field_loads(g, fields.drop_last(), fname) {
            let f = fields.last();
            lemma_get_type_keeps(g1, f.var_type, f.offset);
        }
    }
}

proof fn lemma_field_stores_keeps(g: GS, fields: Seq<StructField>, fname: Seq<char>)
    ensures
        expr_keeps(g, sp_field_stores(g, fields, fname)),
    decreases fields.len(),
{
    if fields.len() > 0 {
        lemma_field_stores_keeps(g, fields.drop_last(), fname);
    }
}

/// Generating an expression changes no variable, scope or stack offset, and only appends
/// to the data section.
pub proof fn lemma_expr_keeps(e: SExpr, g: GS)
    ensures
        sp_gen_expr(e, g) matches Ok(g1) ==> expr_keeps(g, g1),
    decreases e, 0int, 0int,
{
    match e {
        SExpr::Binary(l, op, r) => {
            let g1 = GS { in_bin: true, call_ctx: "left"@, ..g };
            lemma_expr_keeps(*l, g1);
            if let Ok(g2) = sp_gen_expr(*l, g1) {
                let g4 = GS { call_ctx: "right"@, ..emit(g2, "    push rax\n"@) };
                lemma_expr_keeps(*r, g4);
                if let Ok(g5) = sp_gen_expr(*r, g4) {
                    let g6 = emit(g5, "    pop rcx\n"@);
                    lemma_pointer_adjust_keeps(g6);
                    let adj = if (op == crate::ast::BinaryOp::PLUS || op == crate::ast::BinaryOp::MINUS) && g6.ptr_in_bin {
                        sp_pointer_adjust(g6)
                    } else {
                        Ok(g6)
                    };
                    if let Ok(g7) = adj {
                        lemma_op_lines_keeps(g7, op);
                    }
                }
            }
        },
        SExpr::Variable(name) => {
            if let Ok(v) = crate::codegen::sp_lookup(g, name@) {
                let g1 = if g.in_bin && v.var_type is Pointer {
                    GS { ptr_in_bin: true, ret_ctx: Some((g.call_ctx, v.var_type)), ..g }
                } else {
                    g
                };
                lemma_get_type_keeps(g1, v.var_type, v.offset);
            }
        },
        SExpr::Call(name, args) => {
            lemma_call_keeps(name@, args, g);
        },
        SExpr::StringLiteral(_, _) => {},
        SExpr::Struct(instance, field) => {
            if let Ok(fields) = crate::codegen::sp_struct_fields_of(g, instance@) {
                lemma_field_loads_keeps(g, fields, field@);
            }
        },
        _ => {},
    }
}

proof fn lemma_call_keeps(name: Seq<char>, args: Seq<SExpr>, g: GS)
    ensures
        sp_gen_call(name, args, g) matches Ok(g1) ==> expr_keeps(g, g1),
    decreases args, 3int, 0int,
{
    if args.len() > 0 {
        lemma_call_nested_keeps(args, 0, g);
        if let Ok(ga) = sp_call_nested(args, 0, g) {
            lemma_call_plain_keeps(args, 0, ga);
        }
    }
}

proof fn lemma_call_nested_keeps(args: Seq<SExpr>, i: int, g: GS)
    ensures
        sp_call_nested(args, i, g) matches Ok(g1) ==> expr_keeps(g, g1),
    decreases args, 2int, args.len() - i,
{
    if 0 <= i < args.len() {
        match args[i] {
            SExpr::Call(n2, a2) => {
                assert(decreases_to!(args => args[i]));
                lemma_call_keeps(n2@, a2, g);
                if let Ok(g1) = sp_gen_call(n2@, a2, g) {
                    if i < 6 {
                        let g2 = emit(g1, crate::codegen::sline("    mov "@, crate::codegen::reg32(i), ", eax\n"@));
                        lemma_call_nested_keeps(args, i + 1, g2);
                    }
                }
            },
            _ => {
                lemma_call_nested_keeps(args, i + 1, g);
            },
        }
    }
}

pub(crate) proof fn lemma_call_plain_keeps(args: Seq<SExpr>, i: int, g: GS)
    ensures
        sp_call_plain(args, i, g) matches Ok(g1) ==> expr_keeps(g, g1),
    decreases args, 1int, args.len() - i,
{
    if 0 <= i < args.len() {
        match args[i] {
            SExpr::Call(_, _) => {
                lemma_call_plain_keeps(args, i + 1, g);
            },
            _ => {
                assert(decreases_to!(args => args[i]));
                lemma_expr_keeps(args[i], g);
                if let Ok(g1) = sp_gen_expr(args[i], g) {
                    if i < 6 {
                        let l64 = emit(g1, crate::codegen::sline("    mov "@, crate::codegen::reg64(i), ", rax\n"@));
                        let l32 = emit(g1, crate::codegen::sline("    mov "@, crate::codegen::reg32(i), ", eax\n"@));
                        lemma_call_plain_keeps(args, i + 1, l64);
                        lemma_call_plain_keeps(args, i + 1, l32);
                    }
                }
            },
        }
    }
}

/// What generating a statement leaves as it was: the scopes, the finished functions and
/// the header; the label counter, the variables and the data section only grow.
pub open spec fn stmt_keeps(g: GS, g1: GS) -> bool {
    &&& g.labels <= g1.labels
    &&& g1.starts == g.starts
    &&& prefix(g.entries, g1.entries)
    &&& g1.text == g.text
    &&& g1.header == g.header
    &&& prefix(g.data, g1.data)
}

/// The statements with a body of their own, in a scope of its own.
pub open spec fn opens_scope(st: SStatement) -> bool {
    st is If || st is Else || st is While || st is BlockScope
}

/// A scope opened and closed around statements that keep it restores the variables.
proof fn lemma_scope_restores(g: GS, g2: GS)
    requires
        stmt_keeps(push_scope(g), g2),
    ensures
        pop_scope(g2).entries == g.entries,
        pop_scope(g2).starts == g.starts,
        stmt_keeps(g, pop_scope(g2)),
{
    assert(g2.starts.last() == g.entries.len());
    assert(g2.entries.take(g.entries.len() as int) =~= g.entries);
    assert(g2.starts.drop_last() =~= g.starts);
}

proof fn lemma_if_condition_keeps(cond: SExpr, g: GS)
    ensures
        sp_if_condition(cond, g) matches Ok(g1) ==> expr_keeps(g, g1),
{
    lemma_expr_keeps(cond, g);
}

/// Generating a statement changes no scope, only adds variables, and only appends to the
/// data section. A statement with a body of its own leaves the variables as they were.
pub proof fn lemma_stmt_keeps(st: SStatement, g: GS)
    ensures
        sp_gen_stmt(st, g) matches Ok(g1) ==> stmt_keeps(g, g1),
        sp_gen_stmt(st, g) matches Ok(g1) ==> (opens_scope(st) ==> g1.entries == g.entries),
    decreases st, 0int,
{
    match st {
        SStatement::Return(e) => {
            lemma_expr_keeps(e, g);
        },
        SStatement::Declaration(t, name, e) => {
            lemma_expr_keeps(e, g);
        },
        SStatement::Call(name, args) => {
            lemma_call_keeps(name@, args, g);
        },
        SStatement::Reassign(target, e) => {
            lemma_expr_keeps(e, g);
            match target {
                SExpr::Struct(instance, field) => {
                    if let Ok(g1) = sp_gen_expr(e, g) {
                        if let Ok(fields) = crate::codegen::sp_struct_fields_of(g1, instance@) {
                            lemma_field_stores_keeps(g1, fields, field@);
                        }
                    }
                },
                _ => {},
            }
        },
        SStatement::If(cond, body, idx) => {
            let gp = push_scope(g);
            lemma_if_condition_keeps(cond, gp);
            if let Ok(g1) = sp_if_condition(cond, gp) {
                let ge = emit(g1, crate::codegen::nline("    je .L"@, idx as int, "\n"@));
                lemma_stmts_keeps(body, 0, ge);
                if let Ok(g2) = sp_gen_stmts(body, 0, ge) {
                    lemma_scope_restores(g, emit(g2, crate::codegen::label_line(idx as int)));
                }
            }
        },
        SStatement::Else(body, idx) => {
            if g.body.len() > 0 {
                let g1 = GS { body: g.body.insert(g.body.len() - 1, crate::codegen::nline("    jmp .L"@, idx as int, "\n"@)), ..g };
                lemma_stmts_keeps(body, 0, push_scope(g1));
                if let Ok(g2) = sp_gen_stmts(body, 0, push_scope(g1)) {
                    lemma_scope_restores(g1, g2);
                }
            }
        },
        SStatement::While(cond, body, idx) => {
            let g1 = emit(push_scope(GS { loops: g.loops.push(true), ..g }), crate::codegen::nline("    jmp .L"@, idx as int, "\n"@));
            let g2 = GS { conds: g1.conds.push(idx), ..g1 };
            if g2.labels + 1 <= i64::MAX {
                let second = g2.labels;
                let g3 = emit(GS { labels: g2.labels + 1, ..g2 }, crate::codegen::label_line(second));
                lemma_stmts_keeps(body, 0, g3);
                if let Ok(g4) = sp_gen_stmts(body, 0, g3) {
                    let g4e = emit(g4, crate::codegen::label_line(idx as int));
                    lemma_expr_keeps(cond, g4e);
                    if let Ok(g5) = sp_gen_expr(cond, g4e) {
                        let g6 = emit(g5, crate::codegen::nline("    jne .L"@, second, "\n"@));
                        let g7 = if g6.breaks.len() > 0 {
                            emit(GS { breaks: g6.breaks.drop_last(), ..g6 }, crate::codegen::nline(".L"@, g6.breaks.last() as int, " :\n"@))
                        } else {
                            g6
                        };
                        let g8 = GS {
                            loops: if g7.loops.len() > 0 { g7.loops.drop_last() } else { g7.loops },
                            conds: if g7.conds.len() > 0 { g7.conds.drop_last() } else { g7.conds },
                            ..g7
                        };
                        assert(while_end(g6) == pop_scope(g8));
                        lemma_scope_restores(GS { loops: g.loops.push(true), ..g }, g8);
                    }
                }
            }
        },
        SStatement::BlockScope(stmts) => {
            lemma_stmts_keeps(stmts, 0, push_scope(g));
            if let Ok(g1) = sp_gen_stmts(stmts, 0, push_scope(g)) {
                lemma_scope_restores(g, g1);
            }
        },
        _ => {},
    }
}

/// Generating statements in order keeps what each statement keeps.
pub proof fn lemma_stmts_keeps(ss: Seq<SStatement>, i: int, g: GS)
    ensures
        sp_gen_stmts(ss, i, g) matches Ok(g1) ==> stmt_keeps(g, g1),
    decreases ss, ss.len() - i,
{
    if 0 <= i < ss.len() {
        assert(decreases_to!(ss => ss[i]));
        lemma_stmt_keeps(ss[i], g);
        if let Ok(g1) = sp_gen_stmt(ss[i], g) {
            lemma_stmts_keeps(ss, i + 1, g1);
        }
    }
}

/// Variables declared in the body of a block, an `if`, an `else` or a `while` are gone
/// after it: the variables in scope, and the scopes, are those before it.
pub proof fn lemma_scoped_body_forgets_its_variables(st: SStatement, g: GS)
    requires
        opens_scope(st),
    ensures
        sp_gen_stmt(st, g) matches Ok(g1) ==> g1.entries == g.entries && g1.starts == g.starts,
{
    lemma_stmt_keeps(st, g);
}

/// The frame reserved for a stack offset is a multiple of 16 bytes, reaches at least as
/// far below the frame pointer as the offset does, and by less than 16 bytes more. The
/// offset is the one that the parameters and the body of a function reach
/// (`sp_gen_function`); with sizes that are not negative it never rises
/// (`lemma_stmt_stack_never_rises`).
pub proof fn lemma_frame_aligned(stack: int)
    ensures
        frame_size(stack) % 16 == 0,
        -stack <= frame_size(stack) < -stack + 16,
{
}

proof fn lemma_args_keep(args: Seq<crate::ast::FunctionArgDeclaration>, i: int, g: GS)
    ensures
        sp_gen_args(args, i, g) matches Ok(g1) ==> stmt_keeps(g, g1),
    decreases args.len() - i,
{
    if 0 <= i < args.len() {
        let t = args[i].var_type;
        if let Ok(sz) = crate::codegen::sp_size(t) {
            let off = g.stack - sz;
            if i64::MIN <= off <= i64::MAX {
                let g1 = crate::codegen::define(GS { stack: off, ..g }, args[i].name@, crate::codegen::SVar { offset: off as i64, var_type: t, fields: Seq::empty() });
                let l8 = emit(g1, crate::codegen::sline(crate::codegen::nline("    mov BYTE PTR [rbp "@, off, "], "@), crate::codegen::reg8(i), "\n"@));
                let l32 = emit(g1, crate::codegen::sline(crate::codegen::nline("    mov [rbp "@, off, "], "@), crate::codegen::reg32(i), "\n"@));
                let l64 = emit(g1, crate::codegen::sline(crate::codegen::nline("    mov QWORD PTR [rbp "@, off, "], "@), crate::codegen::reg64(i), "\n"@));
                lemma_args_keep(args, i + 1, l8);
                lemma_args_keep(args, i + 1, l32);
                lemma_args_keep(args, i + 1, l64);
            }
        }
    }
}

/// The header of a generated function: its `.global` symbol and label, the frame pointer
/// set up, and a stack reservation that is a multiple of 16 bytes.
pub open spec fn is_function_header(h: Seq<char>, name: Seq<char>) -> bool {
    exists|n: int| n % 16 == 0 && h == function_header(name) + #[trigger] crate::codegen::nline("    sub rsp, "@, n, "\n\n"@)
}

/// Generating a function appends exactly one function to the finished ones, with the
/// function's own header, only appends to the data section, and takes labels only from
/// the counter on.
pub proof fn lemma_function_appends_one(f: SFunction, g: GS)
    ensures
        sp_gen_function(f, g) matches Ok(g1) ==> {
            &&& g.labels <= g1.labels
            &&& g1.text.len() == g.text.len() + 1
            &&& prefix(g.text, g1.text)
            &&& is_function_header(g1.text.last().0, f.name@)
            &&& prefix(g.data, g1.data)
        },
{
    let g0 = fresh_function(g, f.name@);
    lemma_args_keep(f.args, 0, g0);
    if let Ok(g1) = sp_gen_args(f.args, 0, g0) {
        lemma_stmts_keeps(f.body, 0, g1);
        if let Ok(g2) = sp_gen_stmts(f.body, 0, g1) {
            if -g2.stack + 16 <= i64::MAX {
                lemma_frame_aligned(g2.stack);
                let n = frame_size(g2.stack);
                assert(g2.header == function_header(f.name@));
                let h = g2.header + crate::codegen::nline("    sub rsp, "@, n, "\n\n"@);
                assert(h == function_header(f.name@) + crate::codegen::nline("    sub rsp, "@, n, "\n\n"@));
            }
        }
    }
}

/// Generating functions in order appends one finished function per function, in order,
/// each under its own header.
pub proof fn lemma_functions_in_order(fs: Seq<SFunction>, i: int, g: GS)
    requires
        0 <= i <= fs.len(),
    ensures
        sp_gen_functions(fs, i, g) matches Ok(g1) ==> {
            &&& g.labels <= g1.labels
            &&& g1.text.len() == g.text.len() + fs.len() - i
            &&& prefix(g.text, g1.text)
            &&& forall|k: int| i <= k < fs.len() ==> is_function_header(#[trigger] g1.text[g.text.len() + k - i].0, fs[k].name@)
            &&& prefix(g.data, g1.data)
        },
    decreases fs.len() - i,
{
    if i < fs.len() {
        lemma_function_appends_one(fs[i], g);
        if let Ok(g1) = sp_gen_function(fs[i], g) {
            lemma_functions_in_order(fs, i + 1, g1);
            if let Ok(g2) = sp_gen_functions(fs, i + 1, g1) {
                assert(g2.text[g.text.len() as int] == g1.text[g.text.len() as int]);
                assert forall|k: int| i <= k < fs.len() implies is_function_header(#[trigger] g2.text[g.text.len() + k - i].0, fs[k].name@) by {
                    if k == i {
                        assert(g1.text.last() == g1.text[g.text.len() as int]);
                    } else {
                        assert(g2.text[g.text.len() + k - i] == g2.text[g1.text.len() + k - (i + 1)]);
                    }
                }
            }
        }
    }
}

/// The assembly of a program begins with the Intel-syntax directive, and holds one
/// function per function of the program, in order, each under its own header.
pub proof fn lemma_program_layout(fs: Seq<SFunction>, labels: int)
    ensures
        sp_gen_program(fs, labels) matches Ok(out) ==> prefix(".intel_syntax noprefix\n\n"@, out),
        sp_gen_functions(fs, 0, initial_state(labels)) matches Ok(g) ==> {
            &&& g.text.len() == fs.len()
            &&& forall|k: int| 0 <= k < fs.len() ==> is_function_header(#[trigger] g.text[k].0, fs[k].name@)
            &&& sp_gen_program(fs, labels) == Ok::<_, crate::codegen::CErr>(assembly(g))
        },
{
    lemma_functions_in_order(fs, 0, initial_state(labels));
    if let Ok(g) = sp_gen_functions(fs, 0, initial_state(labels)) {
        assert forall|k: int| 0 <= k < fs.len() implies is_function_header(#[trigger] g.text[k].0, fs[k].name@) by {
            assert(g.text[k] == g.text[initial_state(labels).text.len() + k - 0]);
        }
        let out = assembly(g);
        assert(out == g.data + ("\n"@ + crate::codegen::render_text(g.text)));
        assert(prefix(".intel_syntax noprefix\n\n"@, out));
    }
}

/// The five type names, and only they, are tagged as types.
pub proof fn lemma_type_names_tag_as_types(name: Seq<char>)
    ensures
        spec_is_type(name) <==> tag_of(name) == TokenType::TYPE,
{
}

/// `parse_type` knows a type exactly for the names that `is_type` accepts.
pub proof fn lemma_parse_type_agrees_with_is_type(name: Seq<char>)
    ensures
        spec_parse_type(name) != Type::Unknown <==> spec_is_type(name),
{
}

/// A text of decimal digits, with an optional sign, is the same text lower-cased.
proof fn lemma_lower_of_integer_text(s: Seq<char>)
    requires
        forall|i: int| 0 <= i < s.len() ==> is_digit(#[trigger] s[i]) || is_sign(s[i]),
    ensures
        lower_seq(s) == s,
{
    assert(lower_seq(s) =~= s);
}

/// Digits, at least one, are a floating-point number.
proof fn lemma_digits_are_decimal(d: Seq<char>)
    requires
        d.len() > 0,
        all_digits(d),
    ensures
        is_float_body(d),
{
    assert(d.take(d.len() as int) =~= d);
    assert(is_digit(d[0]));
    assert(is_mantissa(d.take(d.len() as int)));
    assert(is_decimal_number(d));
}

/// Every text that parses as an `i64` also parses as an `f64`, and the lexer tags it as a
/// number: the integer literals that the parser reads are `NUMBER` tokens.
pub proof fn lemma_integers_are_numbers(s: Seq<char>)
    requires
        spec_parse_i64(s) is Some,
    ensures
        is_float_text(s),
        tag_of(s) == TokenType::NUMBER,
{
    reveal_strlit("int");
    reveal_strlit("char");
    reveal_strlit("float");
    reveal_strlit("double");
    reveal_strlit("bool");
    reveal_strlit("return");
    reveal_strlit("(");
    reveal_strlit(")");
    reveal_strlit("{");
    reveal_strlit("}");
    reveal_strlit("[");
    reveal_strlit("]");
    reveal_strlit("+");
    reveal_strlit("-");
    reveal_strlit("*");
    reveal_strlit("/");
    reveal_strlit("=");
    reveal_strlit("!");
    if s.len() > 0 && is_sign(s[0]) {
        let d = s.skip(1);
        assert(d.len() > 0 && all_digits(d));
        assert forall|i: int| 0 <= i < s.len() implies is_digit(#[trigger] s[i]) || is_sign(s[i]) by {
            if i > 0 {
                assert(s[i] == d[i - 1]);
            }
        }
        lemma_lower_of_integer_text(s);
        lemma_digits_are_decimal(d);
        assert(d[0] == s[1]);
        assert(is_digit(s[1]));
    } else {
        assert(all_digits(s));
        lemma_lower_of_integer_text(s);
        lemma_digits_are_decimal(s);
        assert(is_digit(s[0]));
    }
}

/// Exactly the operator symbols are tagged with a kind of non-zero precedence.
pub proof fn lemma_operators_have_precedence(s: Seq<char>)
    ensures
        spec_precedence(tag_of(s)) > 0 <==> (s == "*"@ || s == "/"@ || s == "+"@ || s == "-"@ || s == "="@ || s == "!"@ || s == "<"@ || s == ">"@),
{
    reveal_strlit("int");
    reveal_strlit("char");
    reveal_strlit("float");
    reveal_strlit("double");
    reveal_strlit("bool");
    reveal_strlit("return");
    reveal_strlit("(");
    reveal_strlit(")");
    reveal_strlit("{");
    reveal_strlit("}");
    reveal_strlit("[");
    reveal_strlit("]");
    reveal_strlit("+");
    reveal_strlit("-");
    reveal_strlit("*");
    reveal_strlit("/");
    reveal_strlit("=");
    reveal_strlit("!");
    reveal_strlit(";");
    reveal_strlit(",");
    reveal_strlit("'");
    reveal_strlit("\"");
    reveal_strlit("&");
    reveal_strlit("true");
    reveal_strlit("false");
    reveal_strlit(".");
    reveal_strlit("#");
    reveal_strlit("define");
    reveal_strlit("include");
    reveal_strlit("<");
    reveal_strlit(">");
    if s == "<"@ || s == ">"@ {
        lemma_symbol_is_not_a_number(s);
    }
    assert("("@[0] == '(' && ")"@[0] == ')' && "{"@[0] == '{' && "}"@[0] == '}');
    assert("["@[0] == '[' && "]"@[0] == ']' && "+"@[0] == '+' && "-"@[0] == '-');
    assert("*"@[0] == '*' && "/"@[0] == '/' && "="@[0] == '=' && "!"@[0] == '!');
    assert(";"@[0] == ';' && ","@[0] == ',' && "'"@[0] == '\'' && "\""@[0] == '"');
    assert("&"@[0] == '&' && "."@[0] == '.' && "#"@[0] == '#' && "<"@[0] == '<' && ">"@[0] == '>');
    if s == "*"@ {
        assert(tag_of(s) == TokenType::STAR);
    } else if s == "/"@ {
        assert(tag_of(s) == TokenType::SLASH);
    } else if s == "+"@ {
        assert(tag_of(s) == TokenType::PLUS);
    } else if s == "-"@ {
        assert(tag_of(s) == TokenType::MINUS);
    } else if s == "="@ {
        assert(tag_of(s) == TokenType::ASSIGN);
    } else if s == "!"@ {
        assert(tag_of(s) == TokenType::NOT);
    } else if s == "<"@ {
        assert(tag_of(s) == TokenType::LCHEV);
    } else if s == ">"@ {
        assert(tag_of(s) == TokenType::RCHEV);
    } else {
        assert(spec_precedence(tag_of(s)) == 0);
    }
}

/// A one-character text that is no digit, sign, point or letter is not a number.
proof fn lemma_symbol_is_not_a_number(s: Seq<char>)
    requires
        s.len() == 1,
        !is_digit(s[0]),
        !is_sign(s[0]),
        s[0] != '.',
        !('A' <= s[0] <= 'Z'),
        !('a' <= s[0] <= 'z'),
    ensures
        !is_float_text(s),
{
    reveal_strlit("inf");
    reveal_strlit("infinity");
    reveal_strlit("nan");
    let l = lower_seq(s);
    assert(l =~= s);
    if is_decimal_number(l) {
        let k = choose|k: int| 0 <= k <= l.len() && #[trigger] is_mantissa(l.take(k)) && (k == l.len() || crate::numeric::is_exponent(l.skip(k)));
        let m = l.take(k);
        let i = choose|i: int| 0 <= i < m.len() && is_digit(#[trigger] m[i]);
        assert(m[i] == s[0]);
    }
}

/// The number of quote characters in a text.
pub open spec fn quotes(s: Seq<char>) -> int
    decreases s.len(),
{
    if s.len() == 0 {
        0
    } else {
        quotes(s.drop_last()) + if is_quote(s.last()) { 1int } else { 0int }
    }
}

/// Whether the lexer is inside a literal exactly when its buffer holds an odd number of
/// quote characters.
pub open spec fn quote_parity(st: LexState) -> bool {
    st.in_str <==> quotes(st.buf) % 2 == 1
}

proof fn lemma_quotes_drop_first(s: Seq<char>)
    requires
        s.len() > 0,
    ensures
        quotes(s) == quotes(s.drop_first()) + if is_quote(s[0]) { 1int } else { 0int },
    decreases s.len(),
{
    if s.len() > 1 {
        lemma_quotes_drop_first(s.drop_last());
        assert(s.drop_last().drop_first() =~= s.drop_first().drop_last());
        assert(s.drop_first().last() == s.last());
        assert(quotes(s.drop_first()) == quotes(s.drop_first().drop_last()) + if is_quote(s.last()) { 1int } else { 0int });
    } else {
        assert(s.drop_first() =~= Seq::<char>::empty());
        assert(s.drop_last() =~= Seq::<char>::empty());
        assert(quotes(Seq::<char>::empty()) == 0);
        assert(s.last() == s[0]);
    }
}

proof fn lemma_quotes_of_trim(s: Seq<char>)
    ensures
        quotes(trim_start(s)) == quotes(s),
        quotes(trim_end(s)) == quotes(s),
        quotes(trim(s)) == quotes(s),
    decreases s.len(),
{
    if s.len() > 0 {
        if is_space(s[0]) {
            lemma_quotes_drop_first(s);
            lemma_quotes_of_trim(s.drop_first());
        }
        if is_space(s.last()) {
            lemma_quotes_of_trim(s.drop_last());
        }
    }
    if trim_start(s).len() < s.len() {
        lemma_quotes_of_trim(trim_start(s));
    } else {
        lemma_trim_start_is_suffix(s);
        assert(trim_start(s) =~= s);
        if s.len() > 0 && is_space(s.last()) {
            lemma_quotes_of_trim(s.drop_last());
        }
    }
}

proof fn lemma_trim_start_is_suffix(s: Seq<char>)
    ensures
        trim_start(s).len() <= s.len(),
        trim_start(s) =~= s.subrange(s.len() - trim_start(s).len(), s.len() as int),
    decreases s.len(),
{
    if s.len() > 0 && is_space(s[0]) {
        lemma_trim_start_is_suffix(s.drop_first());
    } else {
        assert(s.subrange(0, s.len() as int) =~= s);
    }
}

/// A text that ends in a character that is not whitespace keeps that character last when
/// trimmed.
proof fn lemma_trim_keeps_last(s: Seq<char>)
    requires
        s.len() > 0,
        !is_space(s.last()),
    ensures
        trim(s).len() > 0,
        trim(s).last() == s.last(),
    decreases s.len(),
{
    lemma_trim_start_is_suffix(s);
    if is_space(s[0]) {
        lemma_trim_keeps_last(s.drop_first());
        assert(trim(s) == trim(s.drop_first()));
    }
}

/// The lexer starts outside any literal with an empty buffer.
pub proof fn lemma_quote_parity_at_start()
    ensures
        quote_parity(lex_start()),
{
}

/// Every step of the lexer keeps the parity of quotes: inside a literal exactly when the
/// buffer holds an odd number of quote characters.
pub proof fn lemma_quote_parity_kept(s: Seq<char>, st: LexState)
    requires
        0 <= st.pos < s.len(),
        quote_parity(st),
    ensures
        quote_parity(lex_step(s, st)),
{
    let c = s[st.pos];
    assert(st.buf.push(c).drop_last() =~= st.buf);
    assert(quotes(Seq::<char>::empty()) == 0);
}

/// When a token character ends a buffer outside a literal, a text that a quote begins or
/// ends has at least two characters, so the text between its first and last characters
/// is well defined.
pub proof fn lemma_quoted_text_has_both_ends(st: LexState, c: char)
    requires
        quote_parity(st),
        !st.in_str,
        is_delim(c),
        !is_quote(c),
        trim(st.buf.push(c)).drop_last().len() > 0,
        is_quote(trim(st.buf.push(c)).drop_last()[0]) || is_quote(trim(st.buf.push(c)).drop_last().last()),
    ensures
        trim(st.buf.push(c)).drop_last().len() >= 2,
{
    let b = st.buf.push(c);
    let t = trim(b);
    let body = t.drop_last();
    assert(b.drop_last() =~= st.buf);
    assert(quotes(b) == quotes(st.buf));
    lemma_quotes_of_trim(b);
    assert(!is_space(c));
    lemma_trim_keeps_last(b);
    assert(quotes(t) == quotes(body));
    if body.len() == 1 {
        assert(body.drop_last() =~= Seq::<char>::empty());
        assert(quotes(Seq::<char>::empty()) == 0);
        assert(body.last() == body[0]);
        assert(quotes(body) == 1);
    }
}

/// Whether every array length in a type is at least 0.
pub open spec fn lengths_nonneg(t: Type) -> bool
    decreases t,
{
    match t {
        Type::Array(inner, n) => n >= 0 && lengths_nonneg(*inner),
        _ => true,
    }
}

/// Whether every type declared in a statement, at any depth, has array lengths of at
/// least 0.
pub open spec fn sizes_nonneg(st: SStatement) -> bool
    decreases st, 0int,
{
    match st {
        SStatement::Declaration(t, _, _) => lengths_nonneg(t),
        SStatement::If(_, body, _) => stmts_sizes_nonneg(body),
        SStatement::While(_, body, _) => stmts_sizes_nonneg(body),
        SStatement::Else(body, _) => stmts_sizes_nonneg(body),
        SStatement::Struct(_, fields) => stmts_sizes_nonneg(fields),
        SStatement::BlockScope(body) => stmts_sizes_nonneg(body),
        _ => true,
    }
}

/// Whether every statement of a list has array lengths of at least 0.
pub open spec fn stmts_sizes_nonneg(ss: Seq<SStatement>) -> bool
    decreases ss, 1int,
{
    forall|i: int| 0 <= i < ss.len() ==> sizes_nonneg(#[trigger] ss[i])
}

proof fn lemma_size_nonneg(t: Type)
    requires
        lengths_nonneg(t),
    ensures
        crate::ast::type_size(t) >= 0,
    decreases t,
{
    if let Type::Array(inner, n) = t {
        lemma_size_nonneg(*inner);
        let a = crate::ast::type_size(*inner);
        assert(a * n >= 0) by (nonlinear_arith)
            requires
                a >= 0,
                n >= 0,
        ;
    }
}

proof fn lemma_layout_stack(fields: Seq<SStatement>, i: int, stack: int, acc: Seq<StructField>)
    requires
        stmts_sizes_nonneg(fields),
    ensures
        crate::codegen::sp_struct_layout(fields, i, stack, acc) matches Ok((_, s2)) ==> s2 <= stack,
    decreases fields.len() - i,
{
    if 0 <= i < fields.len() {
        assert(sizes_nonneg(fields[i]));
        if let SStatement::Declaration(t, fname, _) = fields[i] {
            lemma_size_nonneg(t);
            if let Ok(sz) = crate::codegen::sp_size(t) {
                let s2 = stack - sz;
                if i64::MIN <= s2 <= i64::MAX {
                    lemma_layout_stack(fields, i + 1, s2, acc.push(StructField { var_type: t, name: fname, offset: s2 as i64 }));
                }
            }
        }
    }
}

/// Generating a statement never moves the stack offset up, when its array lengths are
/// not negative: the slots of variables declared inside a block, an `if`, an `else` or a
/// `while` are not handed back after it.
pub proof fn lemma_stmt_stack_never_rises(st: SStatement, g: GS)
    requires
        sizes_nonneg(st),
    ensures
        sp_gen_stmt(st, g) matches Ok(g1) ==> g1.stack <= g.stack,
    decreases st, 0int,
{
    match st {
        SStatement::Return(e) => {
            lemma_expr_keeps(e, g);
        },
        SStatement::Declaration(t, name, e) => {
            lemma_expr_keeps(e, g);
            lemma_size_nonneg(t);
        },
        SStatement::Call(name, args) => {
            lemma_call_keeps(name@, args, g);
        },
        SStatement::Reassign(target, e) => {
            lemma_expr_keeps(e, g);
            if let SExpr::Struct(instance, field) = target {
                if let Ok(g1) = sp_gen_expr(e, g) {
                    if let Ok(fields) = crate::codegen::sp_struct_fields_of(g1, instance@) {
                        lemma_field_stores_keeps(g1, fields, field@);
                    }
                }
            }
        },
        SStatement::If(cond, body, idx) => {
            let gp = push_scope(g);
            lemma_if_condition_keeps(cond, gp);
            if let Ok(g1) = sp_if_condition(cond, gp) {
                let ge = emit(g1, crate::codegen::nline("    je .L"@, idx as int, "\n"@));
                lemma_stmts_stack_never_rises(body, 0, ge);
            }
        },
        SStatement::Else(body, idx) => {
            if g.body.len() > 0 {
                let g1 = GS { body: g.body.insert(g.body.len() - 1, crate::codegen::nline("    jmp .L"@, idx as int, "\n"@)), ..g };
                lemma_stmts_stack_never_rises(body, 0, push_scope(g1));
            }
        },
        SStatement::While(cond, body, idx) => {
            let g1 = emit(push_scope(GS { loops: g.loops.push(true), ..g }), crate::codegen::nline("    jmp .L"@, idx as int, "\n"@));
            let g2 = GS { conds: g1.conds.push(idx), ..g1 };
            if g2.labels + 1 <= i64::MAX {
                let second = g2.labels;
                let g3 = emit(GS { labels: g2.labels + 1, ..g2 }, crate::codegen::label_line(second));
                lemma_stmts_stack_never_rises(body, 0, g3);
                if let Ok(g4) = sp_gen_stmts(body, 0, g3) {
                    let g4e = emit(g4, crate::codegen::label_line(idx as int));
                    lemma_expr_keeps(cond, g4e);
                }
            }
        },
        SStatement::Struct(name, fields) => {
            lemma_layout_stack(fields, 0, g.stack, Seq::empty());
        },
        SStatement::BlockScope(stmts) => {
            lemma_stmts_stack_never_rises(stmts, 0, push_scope(g));
        },
        _ => {},
    }
}

/// Statements in order never move the stack offset up, when their array lengths are not
/// negative.
pub proof fn lemma_stmts_stack_never_rises(ss: Seq<SStatement>, i: int, g: GS)
    requires
        stmts_sizes_nonneg(ss),
    ensures
        sp_gen_stmts(ss, i, g) matches Ok(g1) ==> g1.stack <= g.stack,
    decreases ss, ss.len() - i,
{
    if 0 <= i < ss.len() {
        assert(decreases_to!(ss => ss[i]));
        assert(sizes_nonneg(ss[i]));
        lemma_stmt_stack_never_rises(ss[i], g);
        if let Ok(g1) = sp_gen_stmt(ss[i], g) {
            lemma_stmts_stack_never_rises(ss, i + 1, g1);
        }
    }
}

/// The state in which a `while` loop's body starts: a scope opened, the loop recorded, the
/// jump to the condition written, and the label of the body taken from the counter and
/// placed.
pub open spec fn loop_entry(g: GS, idx: i64) -> GS {
    let g1 = emit(push_scope(GS { loops: g.loops.push(true), ..g }), crate::codegen::nline("    jmp .L"@, idx as int, "\n"@));
    let g2 = GS { conds: g1.conds.push(idx), ..g1 };
    emit(GS { labels: g2.labels + 1, ..g2 }, crate::codegen::label_line(g2.labels))
}

/// A `break` pushes its label on the stack of pending breaks.
pub proof fn lemma_break_pushes(idx: i64, g: GS)
    ensures
        sp_gen_stmt(SStatement::Break(idx), g) matches Ok(g1) ==> g1.breaks == g.breaks.push(idx),
{
}

/// The pending breaks are a stack: when the body of a `while` leaves the stack as it was
/// with one label `k` pushed on top, the loop takes `k` off again, so the stack is as it
/// was before the loop, and places label `k` right after the loop.
pub proof fn lemma_while_pops_the_last_break(cond: SExpr, body: Seq<SStatement>, idx: i64, g: GS, k: i64)
    requires
        sp_gen_stmts(body, 0, loop_entry(g, idx)) matches Ok(g4) && g4.breaks == g.breaks.push(k),
    ensures
        sp_gen_stmt(SStatement::While(cond, body, idx), g) matches Ok(g1) ==> {
            &&& g1.breaks == g.breaks
            &&& g1.body.last() == crate::codegen::nline(".L"@, k as int, " :\n"@)
        },
{
    if let Ok(g4) = sp_gen_stmts(body, 0, loop_entry(g, idx)) {
        let g4e = emit(g4, crate::codegen::label_line(idx as int));
        lemma_expr_keeps(cond, g4e);
        assert(g.breaks.push(k).drop_last() =~= g.breaks);
    }
}

/// With no break pending after its body, a `while` takes nothing off the stack of pending
/// breaks.
pub proof fn lemma_while_without_pending_break(cond: SExpr, body: Seq<SStatement>, idx: i64, g: GS)
    requires
        sp_gen_stmts(body, 0, loop_entry(g, idx)) matches Ok(g4) && g4.breaks.len() == 0,
    ensures
        sp_gen_stmt(SStatement::While(cond, body, idx), g) matches Ok(g1) ==> g1.breaks.len() == 0,
{
    if let Ok(g4) = sp_gen_stmts(body, 0, loop_entry(g, idx)) {
        let g4e = emit(g4, crate::codegen::label_line(idx as int));
        lemma_expr_keeps(cond, g4e);
    }
}

/// A `break` pushed last is the one taken off: a `while` whose body is `break` leaves the
/// stack of pending breaks as it was before the loop and places that break's label right
/// after the loop.
pub proof fn lemma_break_in_while_is_taken_off_by_it(cond: SExpr, k: i64, idx: i64, g: GS)
    ensures
        sp_gen_stmt(SStatement::While(cond, seq![SStatement::Break(k)], idx), g) matches Ok(g1) ==> {
            &&& g1.breaks == g.breaks
            &&& g1.body.last() == crate::codegen::nline(".L"@, k as int, " :\n"@)
        },
{
    let body = seq![SStatement::Break(k)];
    let e = loop_entry(g, idx);
    assert(e.loops.len() > 0);
    assert(body[0] == SStatement::Break(k));
    let g4 = emit(GS { breaks: e.breaks.push(k), ..e }, crate::codegen::nline("    jmp .L"@, k as int, "\n"@));
    assert(sp_gen_stmt(body[0], e) == Ok::<GS, crate::codegen::CErr>(g4));
    assert(sp_gen_stmts(body, 1, g4) == Ok::<GS, crate::codegen::CErr>(g4));
    assert(sp_gen_stmts(body, 0, e) == Ok::<GS, crate::codegen::CErr>(g4));
    lemma_while_pops_the_last_break(cond, body, idx, g, k);
}

/// Taking a break off an empty stack takes nothing: a `while` with an empty body on an
/// empty stack of pending breaks leaves it empty.
pub proof fn lemma_while_on_no_pending_break(cond: SExpr, idx: i64, g: GS)
    requires
        g.breaks.len() == 0,
    ensures
        sp_gen_stmt(SStatement::While(cond, Seq::empty(), idx), g) matches Ok(g1) ==> g1.breaks.len() == 0,
{
    lemma_while_without_pending_break(cond, Seq::empty(), idx, g);
}

/// A `continue` inside a loop adds exactly one line, a jump to the condition label of the
/// innermost open loop (the last of the pending condition labels), and takes that label off
/// the pending ones; outside every loop it is refused.
pub proof fn lemma_continue_jumps_to_innermost_condition(g: GS)
    ensures
        g.conds.len() > 0 ==> sp_gen_stmt(SStatement::Continue, g) == Ok::<GS, crate::codegen::CErr>(GS {
            body: g.body.push(crate::codegen::nline("    jmp .L"@, g.conds.last() as int, "\n"@)),
            conds: g.conds.drop_last(),
            ..g
        }),
        g.conds.len() == 0 ==> sp_gen_stmt(SStatement::Continue, g) == Err::<GS, crate::codegen::CErr>(crate::codegen::CErr::ContinueOutsideLoop),
{
}

/// In a `while` loop, `continue` jumps to the loop's own condition: for a loop whose body is
/// `continue`, the lines are the jump to the condition, the label of the body, the jump of
/// the `continue` to the condition label, and that label, placed right before the condition.
pub proof fn lemma_continue_in_while_jumps_to_its_condition(cond: SExpr, idx: i64, g: GS)
    ensures
        sp_gen_stmt(SStatement::While(cond, seq![SStatement::Continue], idx), g) matches Ok(g1) ==> {
            let p = g.body.len() as int;
            &&& g1.body.len() >= p + 4
            &&& g1.body[p] == crate::codegen::nline("    jmp .L"@, idx as int, "\n"@)
            &&& g1.body[p + 1] == crate::codegen::label_line(g.labels)
            &&& g1.body[p + 2] == crate::codegen::nline("    jmp .L"@, idx as int, "\n"@)
            &&& g1.body[p + 3] == crate::codegen::label_line(idx as int)
        },
{
    let body = seq![SStatement::Continue];
    let e = loop_entry(g, idx);
    let p = g.body.len() as int;
    assert(body[0] == SStatement::Continue);
    assert(e.conds.last() == idx);
    let g4 = emit(GS { conds: e.conds.drop_last(), ..e }, crate::codegen::nline("    jmp .L"@, idx as int, "\n"@));
    assert(sp_gen_stmt(body[0], e) == Ok::<GS, crate::codegen::CErr>(g4));
    assert(sp_gen_stmts(body, 1, g4) == Ok::<GS, crate::codegen::CErr>(g4));
    assert(sp_gen_stmts(body, 0, e) == Ok::<GS, crate::codegen::CErr>(g4));
    let g4e = emit(g4, crate::codegen::label_line(idx as int));
    lemma_expr_keeps(cond, g4e);
    if let Ok(g1) = sp_gen_stmt(SStatement::While(cond, body, idx), g) {
        if let Ok(g5) = sp_gen_expr(cond, g4e) {
            assert(g4e.body.len() == p + 4);
            assert(g5.body[p] == g4e.body[p]);
            assert(g5.body[p + 1] == g4e.body[p + 1]);
            assert(g5.body[p + 2] == g4e.body[p + 2]);
            assert(g5.body[p + 3] == g4e.body[p + 3]);
        }
    }
}

} // verus!
