//! The numbers that the parser hands out: label numbers for `if`, `else`, `while`, `for`
//! and `break`, and numbers for string literals. Each is taken from a counter, so no two
//! places of a program get the same label.
use vstd::prelude::*;
use crate::ast::{SExpr, SFunction, SStatement};
use crate::parser::{
    PState, after, sp_block, sp_body, sp_call, sp_call_args, sp_cond_stmt, sp_decl, sp_else,
    sp_expect, sp_expr, sp_expr_loop, sp_fields, sp_file, sp_for, sp_function, sp_functions,
    sp_name_stmt, sp_params, sp_preprocessor, sp_primary, sp_read_op, sp_stmt,
    sp_struct_stmt, take_label, take_string,
};
use crate::token::{TOKEN, TokenType, spec_precedence};

verus! {

/// The numbers of the string literals in an expression, in order.
pub open spec fn expr_strings(e: SExpr) -> Seq<i64>
    decreases e, 0int,
{
    match e {
        SExpr::StringLiteral(_, idx) => seq![idx],
        SExpr::Binary(l, _, r) => expr_strings(*l) + expr_strings(*r),
        SExpr::Call(_, args) => exprs_strings(args),
        _ => Seq::empty(),
    }
}

/// The numbers of the string literals in expressions, in order.
pub open spec fn exprs_strings(es: Seq<SExpr>) -> Seq<i64>
    decreases es, 1int,
{
    if es.len() == 0 {
        Seq::empty()
    } else {
        exprs_strings(es.drop_last()) + expr_strings(es.last())
    }
}

/// Numbers that all lie in `lo .. hi` and that are pairwise distinct.
pub open spec fn fresh(ls: Seq<i64>, lo: int, hi: int) -> bool {
    &&& forall|i: int| 0 <= i < ls.len() ==> lo <= #[trigger] ls[i] < hi
    &&& forall|i: int, j: int| 0 <= i < j < ls.len() ==> #[trigger] ls[i] != #[trigger] ls[j]
}

/// Numbers from two ranges that do not overlap stay distinct when put together.
proof fn lemma_fresh_concat(a: Seq<i64>, b: Seq<i64>, lo1: int, hi1: int, lo2: int, hi2: int)
    requires
        fresh(a, lo1, hi1),
        fresh(b, lo2, hi2),
        hi1 <= lo2 || hi2 <= lo1,
    ensures
        fresh(a + b, if lo1 < lo2 { lo1 } else { lo2 }, if hi1 > hi2 { hi1 } else { hi2 }),
{
    let c = a + b;
    assert forall|i: int, j: int| 0 <= i < j < c.len() implies #[trigger] c[i] != #[trigger] c[j] by {
        if j < a.len() {
            assert(c[i] == a[i] && c[j] == a[j]);
        } else if i >= a.len() {
            assert(c[i] == b[i - a.len()] && c[j] == b[j - a.len()]);
        } else {
            assert(c[i] == a[i] && c[j] == b[j - a.len()]);
            assert(lo1 <= a[i] < hi1);
            assert(lo2 <= b[j - a.len()] < hi2);
        }
    }
    assert forall|i: int| 0 <= i < c.len() implies (if lo1 < lo2 { lo1 } else { lo2 }) <= #[trigger] c[i] < (if hi1 > hi2 { hi1 } else { hi2 }) by {
        if i < a.len() {
            assert(c[i] == a[i]);
        } else {
            assert(c[i] == b[i - a.len()]);
        }
    }
}

proof fn lemma_fresh_single(idx: i64, lo: int)
    requires
        idx == lo,
    ensures
        fresh(seq![idx], lo, lo + 1),
{
    assert(seq![idx][0] == idx);
}

proof fn lemma_exprs_strings_push(es: Seq<SExpr>, e: SExpr)
    ensures
        exprs_strings(es.push(e)) == exprs_strings(es) + expr_strings(e),
{
    assert(es.push(e).drop_last() =~= es);
}

/// Reading an expression takes no label; the string literals in it have distinct numbers
/// that it took from the string counter.
pub open spec fn expr_counts(e: SExpr, st: PState, st2: PState) -> bool {
    &&& st.pos < st2.pos
    &&& st2.labels == st.labels
    &&& st.strings <= st2.strings
    &&& fresh(expr_strings(e), st.strings, st2.strings)
}

proof fn lemma_primary_counts(toks: Seq<TOKEN>, st: PState)
    requires
        i64::MIN <= st.strings,
    ensures
        sp_primary(toks, st) matches Ok((e, st2)) ==> expr_counts(e, st, st2),
    decreases toks.len() - st.pos, 1int,
{
    if 0 <= st.pos < toks.len() {
        let prim = toks[st.pos];
        let st1 = PState { pos: st.pos + 1, strings: st.strings, labels: st.labels };
        if prim.token_type == TokenType::NAME && 0 <= st1.pos < toks.len() && toks[st1.pos].token_type == TokenType::LPAREN {
            lemma_call_counts(toks, prim.name@, st1);
        }
        if prim.token_type == TokenType::DOUBLEQUOTE {
            if let Ok((text, st2)) = sp_expect(toks, st1, TokenType::STRING, "Any String"@) {
                if let Ok((idx, st3)) = take_string(st2) {
                    lemma_fresh_single(idx, st2.strings);
                }
            }
        }
    }
}

proof fn lemma_call_counts(toks: Seq<TOKEN>, fname: Seq<char>, st: PState)
    requires
        i64::MIN <= st.strings,
    ensures
        sp_call(toks, fname, st) matches Ok((args, st2)) ==> {
            &&& st.pos < st2.pos
            &&& st2.labels == st.labels
            &&& st.strings <= st2.strings
            &&& fresh(exprs_strings(args), st.strings, st2.strings)
        },
    decreases toks.len() - st.pos, 0int,
{
    if 0 <= st.pos + 1 < toks.len() && toks[st.pos + 1].token_type != TokenType::RPAREN {
        lemma_call_args_counts(toks, fname, Seq::empty(), PState { pos: st.pos + 1, strings: st.strings, labels: st.labels }, st.strings as int);
    }
}

proof fn lemma_call_args_counts(toks: Seq<TOKEN>, fname: Seq<char>, args: Seq<SExpr>, st: PState, lo: int)
    requires
        i64::MIN <= st.strings,
        lo <= st.strings,
        fresh(exprs_strings(args), lo, st.strings as int),
    ensures
        sp_call_args(toks, fname, args, st) matches Ok((args2, st2)) ==> {
            &&& st.pos < st2.pos
            &&& st2.labels == st.labels
            &&& st.strings <= st2.strings
            &&& fresh(exprs_strings(args2), lo, st2.strings as int)
        },
    decreases toks.len() - st.pos, 3int,
{
    lemma_expr_counts(toks, st, 0);
    if let Ok((e, st1)) = sp_expr(toks, st, 0) {
        if st.pos < st1.pos <= toks.len() {
            lemma_exprs_strings_push(args, e);
            lemma_fresh_concat(exprs_strings(args), expr_strings(e), lo, st.strings as int, st.strings as int, st1.strings as int);
            if 0 <= st1.pos < toks.len() && toks[st1.pos].token_type == TokenType::COMMA {
                lemma_call_args_counts(toks, fname, args.push(e), PState { pos: st1.pos + 1, strings: st1.strings, labels: st1.labels }, lo);
            }
        }
    }
}

/// Reading an expression takes no label number, and numbers its string literals apart.
pub proof fn lemma_expr_counts(toks: Seq<TOKEN>, st: PState, minp: int)
    requires
        i64::MIN <= st.strings,
    ensures
        sp_expr(toks, st, minp) matches Ok((e, st2)) ==> expr_counts(e, st, st2),
    decreases toks.len() - st.pos, 2int,
{
    lemma_primary_counts(toks, st);
    if let Ok((left, st1)) = sp_primary(toks, st) {
        if st.pos < st1.pos <= toks.len() {
            lemma_expr_loop_counts(toks, left, st1, minp, st.strings as int);
        }
    }
}

proof fn lemma_expr_loop_counts(toks: Seq<TOKEN>, left: SExpr, st: PState, minp: int, lo: int)
    requires
        i64::MIN <= st.strings,
        lo <= st.strings,
        fresh(expr_strings(left), lo, st.strings as int),
    ensures
        sp_expr_loop(toks, left, st, minp) matches Ok((e, st2)) ==> {
            &&& st.pos <= st2.pos
            &&& st2.labels == st.labels
            &&& st.strings <= st2.strings
            &&& fresh(expr_strings(e), lo, st2.strings as int)
        },
    decreases toks.len() - st.pos, 0int,
{
    if 0 <= st.pos < toks.len() {
        let t = toks[st.pos].token_type;
        let prec = spec_precedence(t);
        if !(prec == 0 || prec < minp) {
            if let Ok((op, p1)) = sp_read_op(toks, t, st.pos + 1) {
                if st.pos < p1 <= toks.len() {
                    let sti = PState { pos: p1, strings: st.strings, labels: st.labels };
                    lemma_expr_counts(toks, sti, prec + 1);
                    if let Ok((right, st2)) = sp_expr(toks, sti, prec + 1) {
                        if st.pos < st2.pos <= toks.len() {
                            let b = SExpr::Binary(Box::new(left), op, Box::new(right));
                            lemma_fresh_concat(expr_strings(left), expr_strings(right), lo, st.strings as int, st.strings as int, st2.strings as int);
                            lemma_expr_loop_counts(toks, b, st2, minp, lo);
                        }
                    }
                }
            }
        }
    }
}

/// The label numbers that a statement carries, its own and those of the statements in it.
pub open spec fn stmt_labels(s: SStatement) -> Seq<i64>
    decreases s, 0int,
{
    match s {
        SStatement::If(_, body, idx) => stmts_labels(body).push(idx),
        SStatement::While(_, body, idx) => stmts_labels(body).push(idx),
        SStatement::Else(body, idx) => seq![idx] + stmts_labels(body),
        SStatement::Struct(_, fields) => stmts_labels(fields),
        SStatement::BlockScope(body) => stmts_labels(body),
        SStatement::Break(idx) => seq![idx],
        _ => Seq::empty(),
    }
}

/// The label numbers of statements, in order.
pub open spec fn stmts_labels(ss: Seq<SStatement>) -> Seq<i64>
    decreases ss, 1int,
{
    if ss.len() == 0 {
        Seq::empty()
    } else {
        stmts_labels(ss.drop_last()) + stmt_labels(ss.last())
    }
}

/// The numbers of the string literals in a statement, in order.
pub open spec fn stmt_strings(s: SStatement) -> Seq<i64>
    decreases s, 0int,
{
    match s {
        SStatement::Declaration(_, _, e) => expr_strings(e),
        SStatement::Return(e) => expr_strings(e),
        SStatement::Call(_, args) => exprs_strings(args),
        SStatement::Reassign(a, b) => expr_strings(a) + expr_strings(b),
        SStatement::If(c, body, _) => expr_strings(c) + stmts_strings(body),
        SStatement::While(c, body, _) => expr_strings(c) + stmts_strings(body),
        SStatement::Else(body, _) => stmts_strings(body),
        SStatement::Struct(_, fields) => stmts_strings(fields),
        SStatement::BlockScope(body) => stmts_strings(body),
        _ => Seq::empty(),
    }
}

/// The numbers of the string literals in statements, in order.
pub open spec fn stmts_strings(ss: Seq<SStatement>) -> Seq<i64>
    decreases ss, 1int,
{
    if ss.len() == 0 {
        Seq::empty()
    } else {
        stmts_strings(ss.drop_last()) + stmt_strings(ss.last())
    }
}

/// What reading a statement does to the counters: the label counter goes up by exactly
/// the number of labels in the statement, which are distinct numbers that it took, so they
/// are the numbers from the counter before up to the counter after; the string numbers in
/// it are distinct numbers that it took from the string counter.
pub open spec fn numbers_taken(s: SStatement, st: PState, st2: PState) -> bool {
    &&& st.labels <= st2.labels
    &&& st.strings <= st2.strings
    &&& st2.labels == st.labels + stmt_labels(s).len()
    &&& fresh(stmt_labels(s), st.labels, st2.labels)
    &&& fresh(stmt_strings(s), st.strings, st2.strings)
}

/// What reading a statement does: the position moves forward, and the counters go as
/// `numbers_taken` says.
pub open spec fn stmt_counts(s: SStatement, st: PState, st2: PState) -> bool {
    &&& st.pos < st2.pos
    &&& numbers_taken(s, st, st2)
}

/// What reading statements does: the labels of all of them are distinct numbers from `lo`
/// on, and their string numbers distinct numbers from `slo` on, below the counters.
pub open spec fn stmts_counts(ss: Seq<SStatement>, lo: int, slo: int, st: PState, st2: PState) -> bool {
    &&& st.pos <= st2.pos
    &&& st2.labels == lo + stmts_labels(ss).len()
    &&& st.labels <= st2.labels
    &&& st.strings <= st2.strings
    &&& fresh(stmts_labels(ss), lo, st2.labels)
    &&& fresh(stmts_strings(ss), slo, st2.strings)
}

/// The counters of a state are `i64` values, as those of a cursor are.
pub open spec fn counters_in_range(st: PState) -> bool {
    i64::MIN <= st.labels && i64::MIN <= st.strings
}

proof fn lemma_stmts_push(ss: Seq<SStatement>, s: SStatement)
    ensures
        stmts_labels(ss.push(s)) == stmts_labels(ss) + stmt_labels(s),
        stmts_strings(ss.push(s)) == stmts_strings(ss) + stmt_strings(s),
{
    assert(ss.push(s).drop_last() =~= ss);
}

proof fn lemma_empty_concat(a: Seq<i64>)
    ensures
        Seq::<i64>::empty() + a == a,
{
    assert(Seq::<i64>::empty() + a =~= a);
}

proof fn lemma_decl_counts(toks: Seq<TOKEN>, st: PState)
    requires
        counters_in_range(st),
    ensures
        sp_decl(toks, st) matches Ok((s, st2)) ==> stmt_counts(s, st, st2),
{
    if 0 <= st.pos && st.pos + 1 < toks.len() {
        let starred = toks[st.pos + 1].token_type == TokenType::STAR;
        let st2 = if starred { PState { pos: st.pos + 2, ..st } } else { PState { pos: st.pos + 1, ..st } };
        if let Ok((var, st3)) = sp_expect(toks, st2, TokenType::NAME, "Any Name"@) {
            lemma_expr_counts(toks, PState { pos: st3.pos + 1, ..st3 }, 0);
        }
    }
}

proof fn lemma_name_stmt_counts(toks: Seq<TOKEN>, st: PState)
    requires
        counters_in_range(st),
    ensures
        sp_name_stmt(toks, st) matches Ok((s, st2)) ==> stmt_counts(s, st, st2),
{
    if 0 <= st.pos && st.pos + 1 < toks.len() {
        let name = toks[st.pos].name;
        lemma_call_counts(toks, name@, PState { pos: st.pos + 1, ..st });
        lemma_expr_counts(toks, PState { pos: st.pos + 2, ..st }, 0);
        if let Ok((e, _)) = sp_expr(toks, PState { pos: st.pos + 2, ..st }, 0) {
            lemma_empty_concat(expr_strings(e));
        }
        if let Ok((field, st2)) = sp_expect(toks, PState { pos: st.pos + 2, ..st }, TokenType::NAME, "Any Name"@) {
            if let Ok((_, st3)) = sp_expect(toks, st2, TokenType::ASSIGN, "="@) {
                lemma_expr_counts(toks, st3, 0);
                if let Ok((e, _)) = sp_expr(toks, st3, 0) {
                    lemma_empty_concat(expr_strings(e));
                }
            }
        }
        let inc = crate::parser::increment_of(name);
        let one = SExpr::Binary(Box::new(SExpr::Variable(name)), crate::ast::BinaryOp::PLUS, Box::new(SExpr::IntLiteral(1)));
        assert(expr_strings(SExpr::Variable(name)) =~= Seq::<i64>::empty());
        assert(expr_strings(SExpr::IntLiteral(1)) =~= Seq::<i64>::empty());
        assert(expr_strings(one) =~= Seq::<i64>::empty());
        assert(stmt_strings(inc) =~= Seq::<i64>::empty());
    }
}

proof fn lemma_cond_counts(toks: Seq<TOKEN>, st: PState, is_while: bool)
    requires
        counters_in_range(st),
    ensures
        sp_cond_stmt(toks, st, is_while) matches Ok((s, st2)) ==> stmt_counts(s, st, st2),
    decreases toks.len() - st.pos, 0int,
{
    if let Ok((_, st1)) = sp_expect(toks, PState { pos: st.pos + 1, ..st }, TokenType::LPAREN, "("@) {
        lemma_expr_counts(toks, st1, 0);
        if let Ok((cond, st2)) = sp_expr(toks, st1, 0) {
            if after(toks, st, st2) {
                if let Ok((_, st3)) = sp_expect(toks, st2, TokenType::RPAREN, ")"@) {
                    if let Ok((_, st4)) = sp_expect(toks, st3, TokenType::LBRACE, "{"@) {
                        lemma_body_counts(toks, Seq::empty(), st4, st4.labels as int, st4.strings as int);
                        if let Ok((body, st5)) = sp_body(toks, Seq::empty(), st4) {
                            if let Ok((_, st6)) = sp_expect(toks, st5, TokenType::RBRACE, "}"@) {
                                if let Ok((idx, st7)) = take_label(st6) {
                                    lemma_fresh_single(idx, st6.labels);
                                    assert(stmts_labels(body).push(idx) =~= stmts_labels(body) + seq![idx]);
                                    lemma_fresh_concat(stmts_labels(body), seq![idx], st4.labels, st6.labels, st6.labels, st7.labels);
                                    lemma_fresh_concat(expr_strings(cond), stmts_strings(body), st1.strings, st2.strings, st4.strings, st5.strings);
                                }
                            }
                        }
                    }
                }
            }
        }
    }
}

proof fn lemma_else_counts(toks: Seq<TOKEN>, st: PState)
    requires
        counters_in_range(st),
    ensures
        sp_else(toks, st) matches Ok((s, st2)) ==> stmt_counts(s, st, st2),
    decreases toks.len() - st.pos, 0int,
{
    if let Ok((_, st1)) = sp_expect(toks, PState { pos: st.pos + 1, ..st }, TokenType::LBRACE, "{"@) {
        if let Ok((idx, st2)) = take_label(st1) {
            if after(toks, st, st2) {
                lemma_body_counts(toks, Seq::empty(), st2, st2.labels as int, st2.strings as int);
                if let Ok((body, st3)) = sp_body(toks, Seq::empty(), st2) {
                    lemma_fresh_single(idx, st1.labels);
                    lemma_fresh_concat(seq![idx], stmts_labels(body), st1.labels, st2.labels, st2.labels, st3.labels);
                }
            }
        }
    }
}

proof fn lemma_struct_counts(toks: Seq<TOKEN>, st: PState)
    requires
        counters_in_range(st),
    ensures
        sp_struct_stmt(toks, st) matches Ok((s, st2)) ==> stmt_counts(s, st, st2),
    decreases toks.len() - st.pos, 0int,
{
    if let Ok((name, st1)) = sp_expect(toks, PState { pos: st.pos + 1, ..st }, TokenType::NAME, "Any Name"@) {
        if 0 <= st1.pos < toks.len() && after(toks, st, st1) {
            lemma_fields_counts(toks, Seq::empty(), PState { pos: st1.pos + 1, ..st1 }, st1.labels as int, st1.strings as int);
        }
    }
}

proof fn lemma_block_counts(toks: Seq<TOKEN>, st: PState)
    requires
        counters_in_range(st),
    ensures
        sp_block(toks, st) matches Ok((s, st2)) ==> stmt_counts(s, st, st2),
    decreases toks.len() - st.pos, 0int,
{
    if 0 <= st.pos < toks.len() {
        lemma_body_counts(toks, Seq::empty(), PState { pos: st.pos + 1, ..st }, st.labels as int, st.strings as int);
    }
}

/// The numbers of a `for` loop, read as a block of its first statement and a `while`
/// whose body ends with the step: each part took its numbers in turn.
proof fn lemma_for_parts(
    init: SStatement,
    cond: SExpr,
    body: Seq<SStatement>,
    step: SStatement,
    idx: i64,
    st1: PState,
    st2: PState,
    st3: PState,
    st5: PState,
    st8: PState,
)
    requires
        stmt_counts(init, st1, st2),
        expr_counts(cond, st2, st3),
        stmt_counts(step, st3, st5),
        stmts_counts(body, st5.labels as int, st5.strings as int, st5, st8),
        idx == st8.labels,
    ensures
        numbers_taken(
            SStatement::BlockScope(seq![init, SStatement::While(cond, body.push(step), idx)]),
            st1,
            PState { labels: st8.labels + 1, ..st8 },
        ),
{
    let w = SStatement::While(cond, body.push(step), idx);
    lemma_stmts_push(body, step);
    lemma_fresh_concat(stmts_labels(body), stmt_labels(step), st5.labels, st8.labels, st3.labels, st5.labels);
    lemma_fresh_concat(stmts_strings(body), stmt_strings(step), st5.strings, st8.strings, st3.strings, st5.strings);
    lemma_fresh_single(idx, st8.labels);
    assert(stmts_labels(body.push(step)).push(idx) =~= stmts_labels(body.push(step)) + seq![idx]);
    lemma_fresh_concat(stmts_labels(body.push(step)), seq![idx], st3.labels, st8.labels, st8.labels, st8.labels + 1);
    lemma_fresh_concat(expr_strings(cond), stmts_strings(body.push(step)), st2.strings, st3.strings, st3.strings, st8.strings);
    lemma_stmts_push(Seq::empty(), init);
    lemma_stmts_push(seq![init], w);
    assert(Seq::<SStatement>::empty().push(init) =~= seq![init]);
    assert(seq![init].push(w) =~= seq![init, w]);
    lemma_empty_concat(stmt_labels(init));
    lemma_empty_concat(stmt_strings(init));
    lemma_fresh_concat(stmt_labels(init), stmt_labels(w), st1.labels, st2.labels, st3.labels, st8.labels + 1);
    lemma_fresh_concat(stmt_strings(init), stmt_strings(w), st1.strings, st2.strings, st2.strings, st8.strings);
}

#[verifier::rlimit(60)]
proof fn lemma_for_counts(toks: Seq<TOKEN>, st: PState)
    requires
        counters_in_range(st),
    ensures
        sp_for(toks, st) matches Ok((s, st2)) ==> stmt_counts(s, st, st2),
    decreases toks.len() - st.pos, 0int,
{
    if let Ok((_, st1)) = sp_expect(toks, PState { pos: st.pos + 1, ..st }, TokenType::LPAREN, "("@) {
        if after(toks, st, st1) {
            lemma_stmt_counts(toks, st1);
            if let Ok((init, st2)) = sp_stmt(toks, st1) {
                if after(toks, st1, st2) {
                    lemma_expr_counts(toks, st2, 0);
                    if let Ok((cond, st3)) = sp_expr(toks, st2, 0) {
                        if let Ok((_, st4)) = sp_expect(toks, st3, TokenType::SEMICOLON, ";"@) {
                            if after(toks, st, st4) {
                                lemma_stmt_counts(toks, st4);
                                if let Ok((step, st5)) = sp_stmt(toks, st4) {
                                    if after(toks, st4, st5) {
                                        if let Ok((_, st6)) = sp_expect(toks, st5, TokenType::RPAREN, ")"@) {
                                            if let Ok((_, st7)) = sp_expect(toks, st6, TokenType::LBRACE, "{"@) {
                                                lemma_body_counts(toks, Seq::empty(), st7, st7.labels as int, st7.strings as int);
                                                if let Ok((body, st8)) = sp_body(toks, Seq::empty(), st7) {
                                                    if let Ok((idx, st9)) = take_label(st8) {
                                                        lemma_for_parts(init, cond, body, step, idx, st1, st2, st3, st5, st8);
                                                    }
                                                }
                                            }
                                        }
                                    }
                                }
                            }
                        }
                    }
                }
            }
        }
    }
}

/// Reading a statement takes numbers from the counters; the labels and the string numbers
/// in the statement are distinct and lie between the counters before and after.
#[verifier::rlimit(60)]
pub proof fn lemma_stmt_counts(toks: Seq<TOKEN>, st: PState)
    requires
        counters_in_range(st),
    ensures
        sp_stmt(toks, st) matches Ok((s, st2)) ==> stmt_counts(s, st, st2),
    decreases toks.len() - st.pos, 1int,
{
    if 0 <= st.pos < toks.len() {
        match toks[st.pos].token_type {
            TokenType::TYPE => lemma_decl_counts(toks, st),
            TokenType::RETURN => lemma_expr_counts(toks, PState { pos: st.pos + 1, ..st }, 0),
            TokenType::NAME => lemma_name_stmt_counts(toks, st),
            TokenType::IF => lemma_cond_counts(toks, st, false),
            TokenType::WHILE => lemma_cond_counts(toks, st, true),
            TokenType::ELSE => lemma_else_counts(toks, st),
            TokenType::STRUCT => lemma_struct_counts(toks, st),
            TokenType::LBRACE => lemma_block_counts(toks, st),
            TokenType::FOR => lemma_for_counts(toks, st),
            _ => {},
        }
    }
}

/// Reading statements after `acc` keeps all their numbers distinct.
pub proof fn lemma_body_counts(toks: Seq<TOKEN>, acc: Seq<SStatement>, st: PState, lo: int, slo: int)
    requires
        counters_in_range(st),
        st.labels == lo + stmts_labels(acc).len(),
        lo <= st.labels,
        slo <= st.strings,
        fresh(stmts_labels(acc), lo, st.labels as int),
        fresh(stmts_strings(acc), slo, st.strings as int),
    ensures
        sp_body(toks, acc, st) matches Ok((ss, st2)) ==> stmts_counts(ss, lo, slo, st, st2),
    decreases toks.len() - st.pos, 2int,
{
    if 0 <= st.pos < toks.len() && toks[st.pos].token_type != TokenType::RBRACE {
        lemma_stmt_counts(toks, st);
        if let Ok((s, st1)) = sp_stmt(toks, st) {
            if after(toks, st, st1) {
                lemma_stmts_push(acc, s);
                lemma_fresh_concat(stmts_labels(acc), stmt_labels(s), lo, st.labels as int, st.labels as int, st1.labels as int);
                lemma_fresh_concat(stmts_strings(acc), stmt_strings(s), slo, st.strings as int, st.strings as int, st1.strings as int);
                lemma_body_counts(toks, acc.push(s), st1, lo, slo);
            }
        }
    }
}

proof fn lemma_fields_counts(toks: Seq<TOKEN>, acc: Seq<SStatement>, st: PState, lo: int, slo: int)
    requires
        counters_in_range(st),
        st.labels == lo + stmts_labels(acc).len(),
        lo <= st.labels,
        slo <= st.strings,
        fresh(stmts_labels(acc), lo, st.labels as int),
        fresh(stmts_strings(acc), slo, st.strings as int),
    ensures
        sp_fields(toks, acc, st) matches Ok((ss, st2)) ==> stmts_counts(ss, lo, slo, st, st2),
    decreases toks.len() - st.pos, 2int,
{
    if 0 <= st.pos < toks.len() && toks[st.pos].token_type != TokenType::RBRACE {
        lemma_stmt_counts(toks, st);
        if let Ok((s, st1)) = sp_stmt(toks, st) {
            if after(toks, st, st1) {
                lemma_stmts_push(acc, s);
                lemma_fresh_concat(stmts_labels(acc), stmt_labels(s), lo, st.labels as int, st.labels as int, st1.labels as int);
                lemma_fresh_concat(stmts_strings(acc), stmt_strings(s), slo, st.strings as int, st.strings as int, st1.strings as int);
                lemma_fields_counts(toks, acc.push(s), st1, lo, slo);
            }
        }
    }
}

proof fn lemma_params_counts(toks: Seq<TOKEN>, acc: Seq<crate::ast::FunctionArgDeclaration>, st: PState)
    ensures
        sp_params(toks, acc, st) matches Ok((_, st2)) ==> st2.labels == st.labels && st2.strings == st.strings && st.pos <= st2.pos,
    decreases toks.len() - st.pos,
{
    if 0 <= st.pos && st.pos + 1 < toks.len() && crate::token::spec_is_type(toks[st.pos].name@) {
        let starred = toks[st.pos + 1].token_type == TokenType::STAR;
        let st2 = if starred { PState { pos: st.pos + 2, ..st } } else { PState { pos: st.pos + 1, ..st } };
        if let Ok((arg, st3)) = sp_expect(toks, st2, TokenType::NAME, "Any Name"@) {
            let ty = crate::ast::spec_parse_type(toks[st.pos].name@);
            let ty1 = if starred { crate::ast::Type::Pointer(Box::new(ty)) } else { ty };
            let acc2 = acc.push(crate::ast::FunctionArgDeclaration { var_type: ty1, name: arg.name });
            if 0 <= st3.pos < toks.len() && toks[st3.pos].token_type == TokenType::COMMA {
                lemma_params_counts(toks, acc2, PState { pos: st3.pos + 1, ..st3 });
            }
        }
    }
}

/// The label numbers in the bodies of functions, in order.
pub open spec fn functions_labels(fs: Seq<SFunction>) -> Seq<i64>
    decreases fs.len(),
{
    if fs.len() == 0 {
        Seq::empty()
    } else {
        functions_labels(fs.drop_last()) + stmts_labels(fs.last().body)
    }
}

/// The string numbers in the bodies of functions, in order.
pub open spec fn functions_strings(fs: Seq<SFunction>) -> Seq<i64>
    decreases fs.len(),
{
    if fs.len() == 0 {
        Seq::empty()
    } else {
        functions_strings(fs.drop_last()) + stmts_strings(fs.last().body)
    }
}

proof fn lemma_function_counts(toks: Seq<TOKEN>, st: PState)
    requires
        counters_in_range(st),
    ensures
        sp_function(toks, st) matches Ok((f, st2)) ==> stmts_counts(f.body, st.labels as int, st.strings as int, st, st2),
{
    if let Ok((_, st1)) = sp_expect(toks, st, TokenType::TYPE, "Any Type"@) {
        if let Ok((_, st2)) = sp_expect(toks, st1, TokenType::NAME, "Any Name"@) {
            if let Ok((_, st3)) = sp_expect(toks, st2, TokenType::LPAREN, "("@) {
                lemma_params_counts(toks, Seq::empty(), st3);
                if 0 <= st3.pos < toks.len() {
                    let params = if toks[st3.pos].token_type != TokenType::RPAREN {
                        sp_params(toks, Seq::empty(), st3)
                    } else {
                        Ok((Seq::empty(), st3))
                    };
                    if let Ok((_, st4)) = params {
                        if let Ok((_, st5)) = sp_expect(toks, st4, TokenType::RPAREN, ")"@) {
                            if let Ok((_, st6)) = sp_expect(toks, st5, TokenType::LBRACE, "{"@) {
                                lemma_body_counts(toks, Seq::empty(), st6, st6.labels as int, st6.strings as int);
                            }
                        }
                    }
                }
            }
        }
    }
}

proof fn lemma_functions_counts(toks: Seq<TOKEN>, acc: Seq<SFunction>, st: PState, lo: int, slo: int)
    requires
        counters_in_range(st),
        lo <= st.labels,
        slo <= st.strings,
        fresh(functions_labels(acc), lo, st.labels as int),
        fresh(functions_strings(acc), slo, st.strings as int),
        st.labels == lo + functions_labels(acc).len(),
    ensures
        sp_functions(toks, acc, st) matches Ok((fs, st2)) ==> {
            &&& st2.labels == lo + functions_labels(fs).len()
            &&& st.labels <= st2.labels
            &&& st.strings <= st2.strings
            &&& fresh(functions_labels(fs), lo, st2.labels as int)
            &&& fresh(functions_strings(fs), slo, st2.strings as int)
        },
    decreases toks.len() - st.pos,
{
    if st.pos < toks.len() {
        lemma_function_counts(toks, st);
        if let Ok((f, st1)) = sp_function(toks, st) {
            if after(toks, st, st1) {
                assert(acc.push(f).drop_last() =~= acc);
                lemma_fresh_concat(functions_labels(acc), stmts_labels(f.body), lo, st.labels as int, st.labels as int, st1.labels as int);
                lemma_fresh_concat(functions_strings(acc), stmts_strings(f.body), slo, st.strings as int, st.strings as int, st1.strings as int);
                lemma_functions_counts(toks, acc.push(f), st1, lo, slo);
            }
        }
    }
}

/// The label numbers of a parsed program are pairwise distinct, and so are the numbers of
/// its string literals; each lies between its counter before and after parsing, and the
/// label counter goes up by exactly the number of labels. So the parser never gives two
/// places the same label or two literals the same data entry, and every label it gives is
/// below the number from which code generation goes on counting.
pub proof fn lemma_program_numbers_distinct(toks: Seq<TOKEN>, st: PState)
    requires
        counters_in_range(st),
    ensures
        sp_file(toks, st) matches Ok((fs, st2)) ==> {
            &&& st2.labels == st.labels + functions_labels(fs).len()
            &&& st.labels <= st2.labels
            &&& st.strings <= st2.strings
            &&& fresh(functions_labels(fs), st.labels as int, st2.labels as int)
            &&& fresh(functions_strings(fs), st.strings as int, st2.strings as int)
        },
{
    if 0 <= st.pos < toks.len() {
        let pre = if toks[st.pos].token_type == TokenType::PREPROCESSORDECL {
            sp_preprocessor(toks, PState { pos: st.pos + 1, ..st })
        } else {
            Ok(((), st))
        };
        if let Ok((_, st1)) = pre {
            assert(st1.labels == st.labels && st1.strings == st.strings);
            lemma_functions_counts(toks, Seq::empty(), st1, st.labels as int, st.strings as int);
        }
    }
}

/// Whether the number `k` is among `ls`.
pub open spec fn holds_number(ls: Seq<i64>, k: int) -> bool {
    exists|i: int| 0 <= i < ls.len() && ls[i] == k
}

/// Distinct numbers in `lo .. lo + n`, `n` of them, are all the numbers of that range.
pub proof fn lemma_fresh_covers(ls: Seq<i64>, lo: int)
    requires
        fresh(ls, lo, lo + ls.len()),
    ensures
        forall|k: int| lo <= k < lo + ls.len() ==> #[trigger] holds_number(ls, k),
{
    let li = Seq::new(ls.len(), |i: int| ls[i] as int);
    assert(li.no_duplicates()) by {
        assert forall|i: int, j: int| 0 <= i < li.len() && 0 <= j < li.len() && i != j implies li[i] != li[j] by {
            if i < j {
                assert(ls[i] != ls[j]);
            } else {
                assert(ls[j] != ls[i]);
            }
        }
    }
    li.unique_seq_to_set();
    let range = vstd::set_lib::set_int_range(lo, lo + ls.len());
    vstd::set_lib::lemma_int_range(lo, lo + ls.len());
    assert(li.to_set().subset_of(range)) by {
        assert forall|k: int| li.to_set().contains(k) implies range.contains(k) by {
            let i = choose|i: int| 0 <= i < li.len() && li[i] == k;
            assert(lo <= ls[i] < lo + ls.len());
        }
    }
    vstd::seq_lib::seq_to_set_is_finite(li);
    vstd::set_lib::lemma_subset_equality(li.to_set(), range);
    assert forall|k: int| lo <= k < lo + ls.len() implies #[trigger] holds_number(ls, k) by {
        assert(range.contains(k));
        assert(li.to_set().contains(k));
        let i = choose|i: int| 0 <= i < li.len() && li[i] == k;
        assert(ls[i] == k);
    }
}

/// Reading a statement moves past at least one token and takes label numbers from the
/// counter: the counter goes up by exactly the number of labels in the statement (on its
/// `if`, `else`, `while`, `for` and `break` parts, at any depth), and those labels are
/// exactly the numbers from the counter before up to the counter after, each once.
pub proof fn lemma_statement_takes_the_next_labels(toks: Seq<TOKEN>, st: PState)
    requires
        counters_in_range(st),
    ensures
        sp_stmt(toks, st) matches Ok((s, st2)) ==> {
            &&& st.pos < st2.pos
            &&& st2.labels == st.labels + stmt_labels(s).len()
            &&& fresh(stmt_labels(s), st.labels as int, st2.labels as int)
            &&& forall|k: int| st.labels <= k < st2.labels ==> #[trigger] holds_number(stmt_labels(s), k)
        },
{
    lemma_stmt_counts(toks, st);
    if let Ok((s, st2)) = sp_stmt(toks, st) {
        lemma_fresh_covers(stmt_labels(s), st.labels as int);
    }
}

} // verus!
