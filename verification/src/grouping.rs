//! How the parser groups binary operators: products and quotients bind more strongly than
//! sums and differences, which bind more strongly than comparisons, and operators of equal
//! strength group to the left.
use vstd::prelude::*;
use crate::ast::{BinaryOp, SExpr};
use crate::parser::{PState, in_range, sp_expr, sp_expr_loop, sp_primary, sp_read_op};
use crate::token::{TOKEN, TokenType, spec_precedence};

verus! {

/// How strongly a binary operator binds: `*` and `/` most, then `+` and `-`, then the
/// comparisons.
pub open spec fn op_strength(op: BinaryOp) -> int {
    match op {
        BinaryOp::MULTIPLICATION | BinaryOp::DIVISION => 3,
        BinaryOp::PLUS | BinaryOp::MINUS => 2,
        BinaryOp::EQUAL | BinaryOp::NEQUAL | BinaryOp::GREATER | BinaryOp::GREATEREQ
        | BinaryOp::LESSER | BinaryOp::LESSEREQ => 1,
        BinaryOp::UNKNOWN => 0,
    }
}

/// Whether an expression is a binary operation whose operator binds at least `m` strongly.
pub open spec fn binds_at_least(e: SExpr, m: int) -> bool {
    e matches SExpr::Binary(_, op, _) ==> op_strength(op) >= m
}

/// Whether an expression is a binary operation whose operator binds more strongly than
/// `m`.
pub open spec fn binds_more_than(e: SExpr, m: int) -> bool {
    e matches SExpr::Binary(_, op, _) ==> op_strength(op) > m
}

/// Whether every binary operation in an expression is grouped as the strengths say: its
/// left operand, if binary, binds at least as strongly (equal strengths group to the
/// left), and its right operand, if binary, binds more strongly.
pub open spec fn well_grouped(e: SExpr) -> bool
    decreases e,
{
    match e {
        SExpr::Binary(l, op, r) => {
            &&& well_grouped(*l)
            &&& well_grouped(*r)
            &&& binds_at_least(*l, op_strength(op))
            &&& binds_more_than(*r, op_strength(op))
        },
        _ => true,
    }
}

/// Where an expression stops: at a token that is no operator or that binds less strongly
/// than `minp`.
pub open spec fn stops_at(toks: Seq<TOKEN>, st: PState, minp: int) -> bool {
    in_range(toks, st.pos) && (spec_precedence(toks[st.pos].token_type) == 0 || spec_precedence(toks[st.pos].token_type) < minp)
}

/// The operator that a token reads as binds as strongly as the token's precedence.
proof fn lemma_read_op_strength(toks: Seq<TOKEN>, t: TokenType, pos: int)
    requires
        spec_precedence(t) > 0,
    ensures
        sp_read_op(toks, t, pos) matches Ok((op, _)) ==> op_strength(op) == spec_precedence(t),
{
}

/// An operator loop whose left side is grouped, and binds at least as strongly as the next
/// operator, gives a grouped expression that binds at least `minp` strongly.
proof fn lemma_loop_grouping(toks: Seq<TOKEN>, left: SExpr, st: PState, minp: int)
    requires
        minp >= 0,
        well_grouped(left),
        binds_at_least(left, minp),
        left matches SExpr::Binary(_, op, _) ==> (in_range(toks, st.pos) ==> spec_precedence(toks[st.pos].token_type) <= op_strength(op)),
    ensures
        sp_expr_loop(toks, left, st, minp) matches Ok((e, st2)) ==> {
            &&& well_grouped(e)
            &&& binds_at_least(e, minp)
            &&& stops_at(toks, st2, minp)
        },
    decreases toks.len() - st.pos, 0int,
{
    if in_range(toks, st.pos) {
        let t = toks[st.pos].token_type;
        let prec = spec_precedence(t);
        if !(prec == 0 || prec < minp) {
            lemma_read_op_strength(toks, t, st.pos + 1);
            if let Ok((op, p1)) = sp_read_op(toks, t, st.pos + 1) {
                if st.pos < p1 <= toks.len() {
                    let sti = PState { pos: p1, strings: st.strings, labels: st.labels };
                    lemma_expr_grouping(toks, sti, prec + 1);
                    if let Ok((right, st2)) = sp_expr(toks, sti, prec + 1) {
                        if st.pos < st2.pos <= toks.len() {
                            let b = SExpr::Binary(Box::new(left), op, Box::new(right));
                            assert(well_grouped(b));
                            lemma_loop_grouping(toks, b, st2, minp);
                        }
                    }
                }
            }
        }
    }
}

/// Every expression that the parser reads is grouped as the strengths of its operators
/// say: the right operand of an operator holds exactly the operators that bind more
/// strongly than it (read from one more than its precedence on), and operators of equal
/// strength group to the left. The whole binds at least as strongly as `minp`, and it ends
/// at a token that is no operator or binds less strongly than `minp`.
pub proof fn lemma_expr_grouping(toks: Seq<TOKEN>, st: PState, minp: int)
    requires
        minp >= 0,
    ensures
        sp_expr(toks, st, minp) matches Ok((e, st2)) ==> {
            &&& well_grouped(e)
            &&& binds_at_least(e, minp)
            &&& stops_at(toks, st2, minp)
        },
    decreases toks.len() - st.pos, 2int,
{
    if let Ok((left, st1)) = sp_primary(toks, st) {
        assert(!(left is Binary));
        if st.pos < st1.pos <= toks.len() {
            lemma_loop_grouping(toks, left, st1, minp);
        }
    }
}

} // verus!
