//! What the generated lines do on an x86-64 machine: a small model of the registers, of
//! the machine stack and of each instruction that moves, computes or compares, and proofs
//! that the generator's lines compute what the source means: operators on their operands in
//! source order, pointer arithmetic scaled by the size of what is pointed to, `sizeof`,
//! arguments in the registers of their positions, and stores of the width of their
//! variables.
//!
//! Values are mathematical integers: arithmetic leaves out the wrap-around of 32-bit
//! registers (a move into one keeps the low 32 bits), and division is only looked at for a
//! divisor other than 0.
use vstd::prelude::*;
use crate::ast::{BinaryOp, SExpr, Type, type_size};
use crate::codegen::{GS, SVar, emit, nline, sline, reg64, sp_lookup, sp_call_plain, sp_op_lines, sp_store_type};
use crate::properties::lemma_call_plain_keeps;
use crate::numeric::{all_digits, digits_value, int_text_value, is_digit};
use crate::text::{digit_char, int_to_dec, nat_to_dec};

verus! {

/// The registers that the generated lines use: `rax`, `rcx`, `rdx` and `r10`, the
/// argument registers `rdi`, `rsi`, `r8` and `r9`, the low byte `al` as last set, the
/// two operands of the last comparison, and the values pushed on the machine stack (the
/// last one on top).
pub struct Regs {
    pub rax: int,
    pub rcx: int,
    pub rdx: int,
    pub r10: int,
    pub rdi: int,
    pub rsi: int,
    pub r8: int,
    pub r9: int,
    pub al: int,
    pub flag_left: int,
    pub flag_right: int,
    pub stack: Seq<int>,
}

/// Division that rounds toward zero, as `idiv` does.
pub open spec fn trunc_div(a: int, b: int) -> int {
    let q = (if a < 0 { -a } else { a }) / (if b < 0 { -b } else { b });
    if (a < 0) != (b < 0) { -q } else { q }
}

/// The low 32 bits of a value, as a move into a 32-bit register leaves them (zero-extended).
pub open spec fn low32(v: int) -> int {
    v % 0x1_0000_0000
}

/// What one line does to the registers, for the lines that move, compute or compare, or
/// `None` for a line outside the model (or a division by 0).
pub open spec fn run_line(r: Regs, line: Seq<char>) -> Option<Regs> {
    if line.len() >= 15 && line[4] == 'm' && line[8] == 'e' && line[9] == 'a' && line[10] == 'x' && line[11] == ','
        && (line[13] == '-' || is_digit(line[13])) && line.take(13) == "    mov eax, "@ && line.last() == '\n' {
        match int_text_value(line.subrange(13, line.len() - 1)) {
            Some(v) => Some(Regs { rax: v, ..r }),
            None => None,
        }
    } else if line.len() >= 16 && line[4] == 'm' && line[8] == 'e' && line[9] == 'c' && line[10] == 'x' && line[11] == ','
        && (line[13] == '-' || is_digit(line[13])) && line.take(13) == "    mov ecx, "@ && line.last() == '\n' {
        match int_text_value(line.subrange(13, line.len() - 2)) {
            Some(v) => if line[line.len() - 2] == ' ' { Some(Regs { rcx: v, ..r }) } else { None },
            None => None,
        }
    } else if line.len() >= 16 && line[4] == 'm' && line[8] == 'r' && line[9] == 'a' && line[10] == 'x' && line[11] == ','
        && (line[13] == '-' || is_digit(line[13])) && line.take(13) == "    mov rax, "@ && line.last() == '\n' {
        match int_text_value(line.subrange(13, line.len() - 2)) {
            Some(v) => if line[line.len() - 2] == ' ' { Some(Regs { rax: v, ..r }) } else { None },
            None => None,
        }
    } else if line.len() == 18 && line[4] == 'm' && line[7] == ' ' && line == "    mov r10d, eax\n"@ {
        Some(Regs { r10: r.rax, ..r })
    } else if line.len() == 17 && line[4] == 'm' && line[8] == 'e' && line[9] == 'a' && line == "    mov eax, ecx\n"@ {
        Some(Regs { rax: r.rcx, ..r })
    } else if line.len() == 8 && line == "    cdq\n"@ {
        Some(Regs { rdx: if r.rax < 0 { -1 } else { 0 }, ..r })
    } else if line.len() == 14 && line[4] == 'i' && line == "    idiv r10d\n"@ {
        if r.r10 == 0 { None } else { Some(Regs { rax: trunc_div(r.rax, r.r10), rdx: r.rax - trunc_div(r.rax, r.r10) * r.r10, ..r }) }
    } else if line.len() == 17 && line[4] == 'a' && line == "    add eax, ecx\n"@ {
        Some(Regs { rax: r.rax + r.rcx, ..r })
    } else if line.len() == 17 && line[4] == 's' && line == "    sub ecx, eax\n"@ {
        Some(Regs { rcx: r.rcx - r.rax, ..r })
    } else if line.len() == 18 && line[4] == 'i' && line[9] == 'r' && line == "    imul rax, rcx\n"@ {
        Some(Regs { rax: r.rax * r.rcx, ..r })
    } else if line.len() == 17 && line[4] == 'c' && line == "    cmp ecx, eax\n"@ {
        Some(Regs { flag_left: r.rcx, flag_right: r.rax, ..r })
    } else if line.len() == 15 && line == "    cmp eax, 0\n"@ {
        Some(Regs { flag_left: r.rax, flag_right: 0, ..r })
    } else if line.len() == 12 && line[7] == 'e' && line == "    sete al\n"@ {
        Some(Regs { al: if r.flag_left == r.flag_right { 1 } else { 0 }, ..r })
    } else if line.len() == 13 && line[7] == 'n' && line == "    setne al\n"@ {
        Some(Regs { al: if r.flag_left != r.flag_right { 1 } else { 0 }, ..r })
    } else if line.len() == 12 && line[7] == 'g' && line == "    setg al\n"@ {
        Some(Regs { al: if r.flag_left > r.flag_right { 1 } else { 0 }, ..r })
    } else if line.len() == 13 && line[7] == 'g' && line == "    setge al\n"@ {
        Some(Regs { al: if r.flag_left >= r.flag_right { 1 } else { 0 }, ..r })
    } else if line.len() == 12 && line[7] == 'l' && line == "    setl al\n"@ {
        Some(Regs { al: if r.flag_left < r.flag_right { 1 } else { 0 }, ..r })
    } else if line.len() == 13 && line[7] == 'l' && line == "    setle al\n"@ {
        Some(Regs { al: if r.flag_left <= r.flag_right { 1 } else { 0 }, ..r })
    } else if line.len() == 18 && line[4] == 'm' && line[7] == 'z' && line == "    movzx eax, al\n"@ {
        Some(Regs { rax: r.al, ..r })
    } else if line.len() == 17 && line[4] == 'm' && line[8] == 'r' && line[9] == 'd' && line[10] == 'i' && line == "    mov rdi, rax\n"@ {
        Some(Regs { rdi: r.rax, ..r })
    } else if line.len() == 17 && line[4] == 'm' && line[8] == 'r' && line[9] == 's' && line == "    mov rsi, rax\n"@ {
        Some(Regs { rsi: r.rax, ..r })
    } else if line.len() == 17 && line[4] == 'm' && line[8] == 'r' && line[9] == 'd' && line[10] == 'x' && line == "    mov rdx, rax\n"@ {
        Some(Regs { rdx: r.rax, ..r })
    } else if line.len() == 17 && line[4] == 'm' && line[8] == 'r' && line[9] == 'c' && line == "    mov rcx, rax\n"@ {
        Some(Regs { rcx: r.rax, ..r })
    } else if line.len() == 16 && line[9] == '8' && line == "    mov r8, rax\n"@ {
        Some(Regs { r8: r.rax, ..r })
    } else if line.len() == 16 && line[9] == '9' && line == "    mov r9, rax\n"@ {
        Some(Regs { r9: r.rax, ..r })
    } else if line.len() == 17 && line[4] == 'm' && line[8] == 'e' && line[9] == 'd' && line[10] == 'i' && line == "    mov edi, eax\n"@ {
        Some(Regs { rdi: low32(r.rax), ..r })
    } else if line.len() == 17 && line[4] == 'm' && line[8] == 'e' && line[9] == 's' && line == "    mov esi, eax\n"@ {
        Some(Regs { rsi: low32(r.rax), ..r })
    } else if line.len() == 17 && line[4] == 'm' && line[8] == 'e' && line[9] == 'd' && line[10] == 'x' && line == "    mov edx, eax\n"@ {
        Some(Regs { rdx: low32(r.rax), ..r })
    } else if line.len() == 17 && line[4] == 'm' && line[8] == 'e' && line[9] == 'c' && line == "    mov ecx, eax\n"@ {
        Some(Regs { rcx: low32(r.rax), ..r })
    } else if line.len() == 17 && line[4] == 'm' && line[8] == 'r' && line[9] == '8' && line == "    mov r8d, eax\n"@ {
        Some(Regs { r8: low32(r.rax), ..r })
    } else if line.len() == 17 && line[4] == 'm' && line[8] == 'r' && line[9] == '9' && line == "    mov r9d, eax\n"@ {
        Some(Regs { r9: low32(r.rax), ..r })
    } else if line.len() == 13 && line[4] == 'p' && line[10] == 'a' && line == "    push rax\n"@ {
        Some(Regs { stack: r.stack.push(r.rax), ..r })
    } else if line.len() == 12 && line[4] == 'p' && line[9] == 'c' && line == "    pop rcx\n"@ {
        if r.stack.len() == 0 { None } else { Some(Regs { rcx: r.stack.last(), stack: r.stack.drop_last(), ..r }) }
    } else if line.len() == 13 && line[4] == 'p' && line[10] == 'c' && line == "    push rcx\n"@ {
        Some(Regs { stack: r.stack.push(r.rcx), ..r })
    } else if line.len() == 12 && line[4] == 'p' && line[9] == 'a' && line == "    pop rax\n"@ {
        if r.stack.len() == 0 { None } else { Some(Regs { rax: r.stack.last(), stack: r.stack.drop_last(), ..r }) }
    } else if line.len() == 18 && line[4] == 'i' && line[9] == 'e' && line[10] == 'a' && line == "    imul eax, ecx\n"@ {
        Some(Regs { rax: r.rax * r.rcx, ..r })
    } else if line.len() == 18 && line[4] == 'i' && line[9] == 'e' && line[10] == 'c' && line == "    imul ecx, eax\n"@ {
        Some(Regs { rcx: r.rcx * r.rax, ..r })
    } else {
        None
    }
}

/// What lines do to the registers, one after the other.
pub open spec fn run_lines(r: Regs, lines: Seq<Seq<char>>) -> Option<Regs>
    decreases lines.len(),
{
    if lines.len() == 0 {
        Some(r)
    } else {
        match run_line(r, lines[0]) {
            None => None,
            Some(r1) => run_lines(r1, lines.drop_first()),
        }
    }
}

/// The `i`-th argument register of the System V calling convention.
pub open spec fn arg_register(r: Regs, i: int) -> int {
    if i == 0 { r.rdi } else if i == 1 { r.rsi } else if i == 2 { r.rdx } else if i == 3 { r.rcx } else if i == 4 { r.r8 } else { r.r9 }
}

/// What a binary operator of the source computes from its two operands: integer
/// arithmetic with division rounding toward zero, and 1 or 0 for a comparison.
pub open spec fn op_value(op: BinaryOp, a: int, b: int) -> int {
    match op {
        BinaryOp::PLUS => a + b,
        BinaryOp::MINUS => a - b,
        BinaryOp::MULTIPLICATION => a * b,
        BinaryOp::DIVISION => trunc_div(a, b),
        BinaryOp::EQUAL => if a == b { 1 } else { 0 },
        BinaryOp::NEQUAL => if a != b { 1 } else { 0 },
        BinaryOp::GREATER => if a > b { 1 } else { 0 },
        BinaryOp::GREATEREQ => if a >= b { 1 } else { 0 },
        BinaryOp::LESSER => if a < b { 1 } else { 0 },
        BinaryOp::LESSEREQ => if a <= b { 1 } else { 0 },
        BinaryOp::UNKNOWN => 0,
    }
}

/// The lines that a state gained over an earlier one.
pub open spec fn new_lines(g: GS, g1: GS) -> Seq<Seq<char>> {
    g1.body.skip(g.body.len() as int)
}

/// The lines of a binary operator compute the operator: with the left operand in `ecx`
/// and the right one in `eax`, they leave `left op right` in `eax`, for every pair of
/// operands (and every divisor other than 0).
pub proof fn lemma_operator_lines_compute(g: GS, op: BinaryOp, r: Regs)
    requires
        op != BinaryOp::UNKNOWN,
        op == BinaryOp::DIVISION ==> r.rax != 0,
    ensures
        sp_op_lines(g, op) matches Ok(g1) ==> {
            &&& g1.body.len() >= g.body.len()
            &&& g1.body.take(g.body.len() as int) == g.body
            &&& run_lines(r, new_lines(g, g1)) matches Some(r2)
            &&& r2.rax == op_value(op, r.rcx, r.rax)
            &&& r2.stack == r.stack
        },
{
    if let Ok(g1) = sp_op_lines(g, op) {
        assert(g1.body.take(g.body.len() as int) =~= g.body);
        match op {
            BinaryOp::PLUS => lemma_plus_lines(g, r),
            BinaryOp::MINUS => lemma_minus_lines(g, r),
            BinaryOp::MULTIPLICATION => lemma_times_lines(g, r),
            BinaryOp::DIVISION => lemma_division_lines(g, r),
            _ => lemma_comparison_lines(g, op, r),
        }
    }
}

proof fn lemma_plus_lines(g: GS, r: Regs)
    ensures
        sp_op_lines(g, BinaryOp::PLUS) matches Ok(g1)
            && run_lines(r, new_lines(g, g1)) == Some(Regs { rax: r.rax + r.rcx, ..r }),
{
    reveal_strlit("    add eax, ecx\n");
    let ls = new_lines(g, sp_op_lines(g, BinaryOp::PLUS)->Ok_0);
    assert(ls =~= seq!["    add eax, ecx\n"@]);
    assert(run_line(r, ls[0]) == Some(Regs { rax: r.rax + r.rcx, ..r }));
    lemma_run_one(r, ls);
}

proof fn lemma_minus_lines(g: GS, r: Regs)
    ensures
        sp_op_lines(g, BinaryOp::MINUS) matches Ok(g1)
            && run_lines(r, new_lines(g, g1)) == Some(Regs { rcx: r.rcx - r.rax, rax: r.rcx - r.rax, ..r }),
{
    reveal_strlit("    sub ecx, eax\n");
    reveal_strlit("    mov eax, ecx\n");
    let ls = new_lines(g, sp_op_lines(g, BinaryOp::MINUS)->Ok_0);
    assert(ls =~= seq!["    sub ecx, eax\n"@, "    mov eax, ecx\n"@]);
    let r1 = Regs { rcx: r.rcx - r.rax, ..r };
    assert(run_line(r, ls[0]) == Some(r1));
    assert(run_line(r1, ls[1]) == Some(Regs { rax: r1.rcx, ..r1 }));
    lemma_run_two(r, ls);
}

proof fn lemma_times_lines(g: GS, r: Regs)
    ensures
        sp_op_lines(g, BinaryOp::MULTIPLICATION) matches Ok(g1)
            && run_lines(r, new_lines(g, g1)) == Some(Regs { rax: r.rax * r.rcx, ..r }),
{
    reveal_strlit("    imul rax, rcx\n");
    let ls = new_lines(g, sp_op_lines(g, BinaryOp::MULTIPLICATION)->Ok_0);
    assert(ls =~= seq!["    imul rax, rcx\n"@]);
    assert(run_line(r, ls[0]) == Some(Regs { rax: r.rax * r.rcx, ..r }));
    lemma_run_one(r, ls);
    assert(r.rax * r.rcx == r.rcx * r.rax) by (nonlinear_arith);
}

proof fn lemma_division_lines(g: GS, r: Regs)
    requires
        r.rax != 0,
    ensures
        sp_op_lines(g, BinaryOp::DIVISION) matches Ok(g1)
            && run_lines(r, new_lines(g, g1)) matches Some(r2)
            && r2.rax == trunc_div(r.rcx, r.rax) && r2.stack == r.stack,
{
    reveal_strlit("    mov r10d, eax\n");
    reveal_strlit("    mov eax, ecx\n");
    reveal_strlit("    cdq\n");
    reveal_strlit("    idiv r10d\n");
    let ls = new_lines(g, sp_op_lines(g, BinaryOp::DIVISION)->Ok_0);
    assert(ls =~= seq!["    mov r10d, eax\n"@, "    mov eax, ecx\n"@, "    cdq\n"@, "    idiv r10d\n"@]);
    let r1 = Regs { r10: r.rax, ..r };
    let r2 = Regs { rax: r1.rcx, ..r1 };
    let r3 = Regs { rdx: if r2.rax < 0 { -1 } else { 0 }, ..r2 };
    let q = trunc_div(r3.rax, r3.r10);
    assert(run_line(r, ls[0]) == Some(r1));
    assert(run_line(r1, ls[1]) == Some(r2));
    assert(run_line(r2, ls[2]) == Some(r3));
    assert(run_line(r3, ls[3]) == Some(Regs { rax: q, rdx: r3.rax - q * r3.r10, ..r3 }));
    lemma_run_four(r, ls);
}

proof fn lemma_comparison_lines(g: GS, op: BinaryOp, r: Regs)
    requires
        op != BinaryOp::UNKNOWN,
        op != BinaryOp::PLUS,
        op != BinaryOp::MINUS,
        op != BinaryOp::MULTIPLICATION,
        op != BinaryOp::DIVISION,
    ensures
        sp_op_lines(g, op) matches Ok(g1)
            && run_lines(r, new_lines(g, g1)) matches Some(r2)
            && r2.rax == op_value(op, r.rcx, r.rax) && r2.stack == r.stack,
{
    reveal_strlit("    cmp ecx, eax\n");
    reveal_strlit("    cmp eax, 0\n");
    reveal_strlit("    sete al\n");
    reveal_strlit("    setne al\n");
    reveal_strlit("    setg al\n");
    reveal_strlit("    setge al\n");
    reveal_strlit("    setl al\n");
    reveal_strlit("    setle al\n");
    reveal_strlit("    movzx eax, al\n");
    let ls = new_lines(g, sp_op_lines(g, op)->Ok_0);
    let set = match op {
        BinaryOp::EQUAL => "    sete al\n"@,
        BinaryOp::NEQUAL => "    setne al\n"@,
        BinaryOp::GREATER => "    setg al\n"@,
        BinaryOp::GREATEREQ => "    setge al\n"@,
        BinaryOp::LESSER => "    setl al\n"@,
        _ => "    setle al\n"@,
    };
    assert(ls =~= seq!["    cmp ecx, eax\n"@, set, "    movzx eax, al\n"@, "    cmp eax, 0\n"@]);
    let r1 = Regs { flag_left: r.rcx, flag_right: r.rax, ..r };
    let r2 = Regs { al: op_value(op, r.rcx, r.rax), ..r1 };
    let r3 = Regs { rax: r2.al, ..r2 };
    assert(run_line(r, ls[0]) == Some(r1));
    assert(run_line(r1, ls[1]) == Some(r2));
    assert(run_line(r2, ls[2]) == Some(r3));
    assert(run_line(r3, ls[3]) == Some(Regs { flag_left: r3.rax, flag_right: 0, ..r3 }));
    lemma_run_four(r, ls);
}

/// The state in which the left operand of a binary expression is generated.
pub open spec fn left_operand_state(g: GS) -> GS {
    GS { in_bin: true, call_ctx: "left"@, ..g }
}

/// The state in which the right operand of a binary expression is generated, once the left
/// one has ended in `g2`: the left value pushed on the stack.
pub open spec fn right_operand_state(g2: GS) -> GS {
    GS { call_ctx: "right"@, ..emit(g2, "    push rax\n"@) }
}

/// The registers once `rax` is pushed on the stack.
pub open spec fn pushed(r: Regs) -> Regs {
    Regs { stack: r.stack.push(r.rax), ..r }
}

/// A binary expression computes its operator on the values of its operands, in source
/// order: where the lines of the left operand leave `a` in `rax` and the stack as they found
/// it, and then the lines of the right operand leave `b` in `rax` and the stack as they
/// found it, the lines of the whole expression leave `a op b` in `rax` (so `8 / 2` gives 4
/// and `8 - 2` gives 6) and the stack as they found it. Pointer arithmetic and a divisor of
/// 0 are left out.
pub proof fn lemma_binary_computes_its_operator(l: SExpr, op: BinaryOp, rt: SExpr, g: GS, r0: Regs)
    requires
        op != BinaryOp::UNKNOWN,
    ensures
        crate::codegen::sp_gen_expr(SExpr::Binary(Box::new(l), op, Box::new(rt)), g) matches Ok(gb) ==> {
            let g2 = crate::codegen::sp_gen_expr(l, left_operand_state(g))->Ok_0;
            let g5 = crate::codegen::sp_gen_expr(rt, right_operand_state(g2))->Ok_0;
            let r1 = run_lines(r0, new_lines(g, g2))->Some_0;
            let r2 = run_lines(pushed(r1), new_lines(right_operand_state(g2), g5))->Some_0;
            (run_lines(r0, new_lines(g, g2)) is Some
                && r1.stack == r0.stack
                && run_lines(pushed(r1), new_lines(right_operand_state(g2), g5)) is Some
                && r2.stack == pushed(r1).stack
                && (op == BinaryOp::DIVISION ==> r2.rax != 0)
                && !((op == BinaryOp::PLUS || op == BinaryOp::MINUS) && g5.ptr_in_bin)) ==> {
                &&& run_lines(r0, new_lines(g, gb)) is Some
                &&& run_lines(r0, new_lines(g, gb))->Some_0.rax == op_value(op, r1.rax, r2.rax)
                &&& run_lines(r0, new_lines(g, gb))->Some_0.stack == r0.stack
            }
        },
{
    let e = SExpr::Binary(Box::new(l), op, Box::new(rt));
    if let Ok(gb) = crate::codegen::sp_gen_expr(e, g) {
        let g1 = left_operand_state(g);
        let g2 = crate::codegen::sp_gen_expr(l, g1)->Ok_0;
        let g4 = right_operand_state(g2);
        let g5 = crate::codegen::sp_gen_expr(rt, g4)->Ok_0;
        let g6 = emit(g5, "    pop rcx\n"@);
        let r1 = run_lines(r0, new_lines(g, g2))->Some_0;
        let r2 = run_lines(pushed(r1), new_lines(g4, g5))->Some_0;
        if run_lines(r0, new_lines(g, g2)) is Some
            && r1.stack == r0.stack
            && run_lines(pushed(r1), new_lines(g4, g5)) is Some
            && r2.stack == pushed(r1).stack
            && (op == BinaryOp::DIVISION ==> r2.rax != 0)
            && !((op == BinaryOp::PLUS || op == BinaryOp::MINUS) && g5.ptr_in_bin) {
            crate::properties::lemma_expr_keeps(l, g1);
            crate::properties::lemma_expr_keeps(rt, g4);
            let g8 = sp_op_lines(g6, op)->Ok_0;
            assert(gb == GS { in_bin: false, ..g8 });
            let p = g.body.len() as int;
            let ll = new_lines(g, g2);
            let lr = new_lines(g4, g5);
            let r3 = Regs { rcx: r1.rax, stack: r0.stack, ..r2 };
            lemma_operator_lines_compute(g6, op, r3);
            let lo = new_lines(g6, g8);
            assert(g2.body =~= g.body + ll);
            assert(g5.body =~= g4.body + lr);
            assert(g8.body =~= g6.body + lo);
            assert(new_lines(g, gb) =~= ll + (seq!["    push rax\n"@] + (lr + (seq!["    pop rcx\n"@] + lo))));
            reveal_strlit("    push rax\n");
            reveal_strlit("    pop rcx\n");
            lemma_run_append(r0, ll, seq!["    push rax\n"@] + (lr + (seq!["    pop rcx\n"@] + lo)));
            assert(run_line(r1, "    push rax\n"@) == Some(pushed(r1)));
            lemma_run_append(r1, seq!["    push rax\n"@], lr + (seq!["    pop rcx\n"@] + lo));
            lemma_run_one(r1, seq!["    push rax\n"@]);
            lemma_run_append(pushed(r1), lr, seq!["    pop rcx\n"@] + lo);
            assert(pushed(r1).stack.last() == r1.rax);
            assert(pushed(r1).stack.drop_last() =~= r0.stack);
            assert(run_line(r2, "    pop rcx\n"@) == Some(r3));
            lemma_run_append(r2, seq!["    pop rcx\n"@], lo);
            lemma_run_one(r2, seq!["    pop rcx\n"@]);
        }
    }
}

/// Two integer literals joined by an operator compute the operator on their values: for
/// every pair of values (and every divisor other than 0), the lines leave `a op b` in
/// `rax` and the stack as they found it.
pub proof fn lemma_literal_binary_computes(a: i64, op: BinaryOp, b: i64, g: GS, r0: Regs)
    requires
        op != BinaryOp::UNKNOWN,
        op == BinaryOp::DIVISION ==> b != 0,
        !g.ptr_in_bin,
    ensures
        crate::codegen::sp_gen_expr(SExpr::Binary(Box::new(SExpr::IntLiteral(a)), op, Box::new(SExpr::IntLiteral(b))), g) matches Ok(gb)
            ==> run_lines(r0, new_lines(g, gb)) matches Some(r3) && r3.rax == op_value(op, a as int, b as int) && r3.stack == r0.stack,
{
    let l = SExpr::IntLiteral(a);
    let rt = SExpr::IntLiteral(b);
    let g1 = left_operand_state(g);
    let g2 = crate::codegen::sp_gen_expr(l, g1)->Ok_0;
    let g4 = right_operand_state(g2);
    let g5 = crate::codegen::sp_gen_expr(rt, g4)->Ok_0;
    lemma_load_literal(g1, a, r0);
    assert(new_lines(g, g2) == new_lines(g1, g2));
    let r1 = run_lines(r0, new_lines(g, g2))->Some_0;
    lemma_load_literal(g4, b, pushed(r1));
    lemma_binary_computes_its_operator(l, op, rt, g, r0);
}

/// The line that loads an integer literal puts its value in `rax` and changes nothing else.
proof fn lemma_load_literal(g: GS, n: i64, r: Regs)
    ensures
        crate::codegen::sp_gen_expr(SExpr::IntLiteral(n), g) matches Ok(g1)
            && run_lines(r, new_lines(g, g1)) == Some(Regs { rax: n as int, ..r }),
{
    lemma_load_line(g, n as int, r);
}

/// A line that moves a number into `eax` puts that number in `rax` and changes nothing else.
proof fn lemma_load_line(g: GS, n: int, r: Regs)
    ensures
        run_lines(r, new_lines(g, emit(g, nline("    mov eax, "@, n, "\n"@)))) == Some(Regs { rax: n, ..r }),
{
    let line = nline("    mov eax, "@, n, "\n"@);
    let g1 = emit(g, line);
    let d = int_to_dec(n);
    reveal_strlit("    mov eax, ");
    reveal_strlit("\n");
    lemma_int_dec(n);
    assert(line[13] == d[0]);
    assert(line.take(13) =~= "    mov eax, "@);
    assert(line.subrange(13, line.len() - 1) =~= d);
    assert(run_line(r, line) == Some(Regs { rax: n, ..r }));
    assert(new_lines(g, g1) =~= seq![line]);
    lemma_run_one(r, new_lines(g, g1));
}

/// `sizeof` of a type, or of a variable, leaves in `rax` the size in bytes of the type, or of
/// the variable's type, and changes nothing else.
pub proof fn lemma_sizeof_gives_the_size(e: SExpr, g: GS, r: Regs)
    requires
        e is SizeofType || e is SizeofVar,
    ensures
        crate::codegen::sp_gen_expr(e, g) matches Ok(g1) ==> {
            let t = if e is SizeofType { e->SizeofType_0 } else { sp_lookup(g, e->SizeofVar_0@)->Ok_0.var_type };
            run_lines(r, new_lines(g, g1)) == Some(Regs { rax: type_size(t), ..r })
        },
{
    if let Ok(g1) = crate::codegen::sp_gen_expr(e, g) {
        let t = if e is SizeofType { e->SizeofType_0 } else { sp_lookup(g, e->SizeofVar_0@)->Ok_0.var_type };
        lemma_load_line(g, type_size(t), r);
    }
}

/// The decimal text of an integer reads back as that integer.
proof fn lemma_int_dec(n: int)
    ensures
        int_to_dec(n).len() >= 1,
        int_to_dec(n)[0] == '-' || is_digit(int_to_dec(n)[0]),
        int_text_value(int_to_dec(n)) == Some(n),
{
    if n < 0 {
        let d = nat_to_dec((-n) as nat);
        lemma_nat_dec((-n) as nat);
        assert(int_to_dec(n).skip(1) =~= d);
    } else {
        lemma_nat_dec(n as nat);
    }
}

/// The decimal digits of a natural number read back as that number.
proof fn lemma_nat_dec(n: nat)
    ensures
        nat_to_dec(n).len() >= 1,
        all_digits(nat_to_dec(n)),
        digits_value(nat_to_dec(n)) == n,
    decreases n,
{
    if n < 10 {
        let s = nat_to_dec(n);
        assert(s.drop_last() =~= Seq::<char>::empty());
        assert(digit_char(n as int) as int - '0' as int == n);
        assert(is_digit(digit_char(n as int)));
        assert(s[0] == digit_char(n as int));
        assert(s.len() == 1);
        assert(all_digits(s));
        assert(digits_value(s.drop_last()) == 0);
        assert(digits_value(s) == digits_value(s.drop_last()) * 10 + (s.last() as int - '0' as int));
    } else {
        let s = nat_to_dec(n);
        lemma_nat_dec(n / 10);
        assert(s.drop_last() =~= nat_to_dec(n / 10));
        let d = (n % 10) as int;
        assert(digit_char(d) as int - '0' as int == d);
        assert(is_digit(digit_char(d)));
        let p = nat_to_dec(n / 10);
        assert forall|i: int| 0 <= i < s.len() implies is_digit(#[trigger] s[i]) by {
            if i < p.len() {
                assert(s[i] == p[i]);
            }
        }
        assert(all_digits(s));
        assert(s.last() == digit_char(d));
        assert(digits_value(s) == digits_value(p) * 10 + (digit_char(d) as int - '0' as int));
        assert(n == (n / 10) * 10 + n % 10);
    }
}

/// The correction of pointer arithmetic scales the operand that is not the pointer by the
/// size of what the pointer points to, and leaves the pointer and the stack as they were:
/// with the pointer on the left (in `rcx`), `rax` is multiplied; with the pointer on the
/// right (in `rax`), `rcx` is.
pub proof fn lemma_pointer_operand_scales_the_other(g: GS, r: Regs)
    ensures
        crate::codegen::sp_pointer_adjust(g) matches Ok(g1) ==> {
            &&& run_lines(r, new_lines(g, g1)) matches Some(r2)
            &&& r2.stack == r.stack
            &&& match g.ret_ctx {
                Some((side, t)) => {
                    if side == "left"@ {
                        r2.rax == r.rax * type_size(*t->Pointer_0) && r2.rcx == r.rcx
                    } else if side == "right"@ {
                        r2.rcx == r.rcx * type_size(*t->Pointer_0) && r2.rax == r.rax
                    } else {
                        r2.rax == r.rax && r2.rcx == r.rcx
                    }
                },
                None => r2.rax == r.rax && r2.rcx == r.rcx,
            }
        },
{
    if let Ok(g1) = crate::codegen::sp_pointer_adjust(g) {
        let ls = new_lines(g, g1);
        match g.ret_ctx {
            Some((side, t)) => {
                if side == "left"@ {
                    let sz = type_size(*t->Pointer_0);
                    reveal_strlit("    push rcx\n");
                    reveal_strlit("    mov ecx, ");
                    reveal_strlit("    imul eax, ecx\n");
                    reveal_strlit("    pop rcx\n");
                    let mv = nline("    mov ecx, "@, sz, " \n"@);
                    lemma_number_line("    mov ecx, "@, sz);
                    assert(ls =~= seq!["    push rcx\n"@, mv, "    imul eax, ecx\n"@, "    pop rcx\n"@]);
                    let r1 = Regs { stack: r.stack.push(r.rcx), ..r };
                    let r2 = Regs { rcx: sz, ..r1 };
                    let r3 = Regs { rax: r2.rax * r2.rcx, ..r2 };
                    assert(run_line(r, ls[0]) == Some(r1));
                    assert(run_line(r1, ls[1]) == Some(r2));
                    assert(run_line(r2, ls[2]) == Some(r3));
                    assert(r3.stack.drop_last() =~= r.stack);
                    assert(run_line(r3, ls[3]) == Some(Regs { rcx: r3.stack.last(), stack: r3.stack.drop_last(), ..r3 }));
                    lemma_run_four(r, ls);
                } else if side == "right"@ {
                    let sz = type_size(*t->Pointer_0);
                    reveal_strlit("    push rax\n");
                    reveal_strlit("    imul ecx, eax\n");
                    reveal_strlit("    mov rax, ");
                    reveal_strlit("    pop rax\n");
                    let mv = nline("    mov rax, "@, sz, " \n"@);
                    lemma_number_line("    mov rax, "@, sz);
                    assert(ls =~= seq!["    push rax\n"@, mv, "    imul ecx, eax\n"@, "    pop rax\n"@]);
                    let r1 = Regs { stack: r.stack.push(r.rax), ..r };
                    let r2 = Regs { rax: sz, ..r1 };
                    let r3 = Regs { rcx: r2.rcx * r2.rax, ..r2 };
                    assert(run_line(r, ls[0]) == Some(r1));
                    assert(run_line(r1, ls[1]) == Some(r2));
                    assert(run_line(r2, ls[2]) == Some(r3));
                    assert(r3.stack.drop_last() =~= r.stack);
                    assert(run_line(r3, ls[3]) == Some(Regs { rax: r3.stack.last(), stack: r3.stack.drop_last(), ..r3 }));
                    lemma_run_four(r, ls);
                } else {
                    assert(ls =~= Seq::<Seq<char>>::empty());
                }
            },
            None => {
                assert(ls =~= Seq::<Seq<char>>::empty());
            },
        }
    }
}

/// A line made of 13 characters of text, a number, a space and the line's end: the number
/// reads back from index 13 up to that space.
proof fn lemma_number_line(pre: Seq<char>, n: int)
    requires
        pre.len() == 13,
    ensures
        ({
            let line = nline(pre, n, " \n"@);
            &&& line.len() >= 16
            &&& line.take(13) == pre
            &&& forall|k: int| 0 <= k < 13 ==> line[k] == pre[k]
            &&& (line[13] == '-' || is_digit(line[13]))
            &&& line.last() == '\n'
            &&& line[line.len() - 2] == ' '
            &&& int_text_value(line.subrange(13, line.len() - 2)) == Some(n)
        }),
{
    reveal_strlit(" \n");
    let line = nline(pre, n, " \n"@);
    let d = int_to_dec(n);
    lemma_int_dec(n);
    assert(line[13] == d[0]);
    assert(line.take(13) =~= pre);
    assert(line.subrange(13, line.len() - 2) =~= d);
}

/// Running lines one after the other: what the first part leaves, the second part starts
/// from.
proof fn lemma_run_append(r: Regs, a: Seq<Seq<char>>, b: Seq<Seq<char>>)
    ensures
        run_lines(r, a + b) == (match run_lines(r, a) { None => None, Some(r1) => run_lines(r1, b) }),
    decreases a.len(),
{
    if a.len() == 0 {
        assert(a + b =~= b);
    } else {
        assert((a + b)[0] == a[0]);
        assert((a + b).drop_first() =~= a.drop_first() + b);
        if let Some(r1) = run_line(r, a[0]) {
            lemma_run_append(r1, a.drop_first(), b);
        }
    }
}

/// The number of bytes that a line stores at `[rbp off]`: a byte from `al`, a 32-bit word
/// from `eax` or a 64-bit word from `rax`; 0 for a line that stores nothing there.
pub open spec fn stored_bytes(line: Seq<char>, off: int) -> int {
    if line == nline("    mov BYTE PTR [rbp "@, off, "], al\n"@) {
        1
    } else if line == nline("    mov [rbp "@, off, "], eax\n"@) {
        4
    } else if line == nline("    mov QWORD PTR [rbp "@, off, "], rax\n"@) {
        8
    } else {
        0
    }
}

/// Storing a value of a scalar type (`char`, `bool`, `int`, `float` or a pointer) adds one
/// line, which writes exactly as many bytes as the type is wide, and changes nothing else.
pub proof fn lemma_store_writes_the_size(g: GS, t: Type, off: i64)
    requires
        t is Char || t is Bool || t is Int || t is Float || t is Pointer,
    ensures
        sp_store_type(g, t, off) == emit(g, sp_store_type(g, t, off).body.last()),
        stored_bytes(sp_store_type(g, t, off).body.last(), off as int) == type_size(t),
{
    reveal_strlit("    mov BYTE PTR [rbp ");
    reveal_strlit("    mov [rbp ");
    reveal_strlit("    mov QWORD PTR [rbp ");
    let o = off as int;
    let byte = nline("    mov BYTE PTR [rbp "@, o, "], al\n"@);
    let word = nline("    mov [rbp "@, o, "], eax\n"@);
    let quad = nline("    mov QWORD PTR [rbp "@, o, "], rax\n"@);
    assert(byte[8] == 'B' && word[8] == '[' && quad[8] == 'Q');
    assert(sp_store_type(g, t, off).body.drop_last() =~= g.body);
}

/// A declaration of a scalar variable with a value places the variable in the slot of its
/// size right below the stack as it was, and its last line stores exactly that many bytes
/// there: the store fills the variable's slot and touches no neighbour.
pub proof fn lemma_declaration_fills_its_slot(t: Type, name: String, e: SExpr, g: GS)
    requires
        t is Char || t is Bool || t is Int || t is Float || t is Pointer,
        !(e is Empty),
    ensures
        crate::codegen::sp_gen_stmt(crate::ast::SStatement::Declaration(t, name, e), g) matches Ok(g1) ==> {
            &&& sp_lookup(g1, name@) matches Ok(v)
            &&& v.offset == g.stack - type_size(t)
            &&& v.var_type == t
            &&& stored_bytes(g1.body.last(), v.offset as int) == type_size(t)
        },
{
    crate::properties::lemma_expr_keeps(e, g);
    if let Ok(g1) = crate::codegen::sp_gen_stmt(crate::ast::SStatement::Declaration(t, name, e), g) {
        let ge = crate::codegen::sp_gen_expr(e, g)->Ok_0;
        let off = ge.stack - type_size(t);
        let g2 = crate::codegen::define(GS { stack: off, ..ge }, name@, SVar { offset: off as i64, var_type: t, fields: Seq::empty() });
        assert(g1 == sp_store_type(g2, t, off as i64));
        lemma_store_writes_the_size(g2, t, off as i64);
        assert(g1.entries == g2.entries);
    }
}

/// Passing a variable of array type as the `i`-th argument of a call loads its address
/// into `rax` and then moves the whole of `rax` into the 64-bit argument register of that
/// position: whatever `rax` holds, that register holds it afterwards.
pub proof fn lemma_array_argument_passes_address(args: Seq<SExpr>, i: int, g: GS, v: SVar, r: Regs)
    requires
        0 <= i < 6,
        i < args.len(),
        args[i] is Variable,
        sp_lookup(g, args[i]->Variable_0@) == Ok::<SVar, crate::codegen::CErr>(v),
        v.var_type is Array,
    ensures
        sp_call_plain(args, i, g) matches Ok(gf) ==> {
            &&& gf.body.len() >= g.body.len() + 2
            &&& gf.body[g.body.len() as int] == nline("    lea rax, [rbp "@, v.offset as int, "]\n"@)
            &&& run_line(r, gf.body[g.body.len() + 1int]) matches Some(r2)
            &&& arg_register(r2, i) == r.rax
        },
{
    if let Ok(gf) = sp_call_plain(args, i, g) {
        let g1 = emit(g, nline("    lea rax, [rbp "@, v.offset as int, "]\n"@));
        let g2 = emit(g1, sline("    mov "@, reg64(i), ", rax\n"@));
        assert(crate::codegen::sp_get_type(g, v.var_type, v.offset) == Ok::<GS, crate::codegen::CErr>(g1));
        assert(crate::codegen::sp_gen_expr(args[i], g) == Ok::<GS, crate::codegen::CErr>(g1));
        assert(sp_lookup(g1, args[i]->Variable_0@) == sp_lookup(g, args[i]->Variable_0@));
        assert(sp_call_plain(args, i, g) == sp_call_plain(args, i + 1, g2));
        lemma_call_plain_keeps(args, i + 1, g2);
        assert(gf.body[g.body.len() as int] == g2.body[g.body.len() as int]);
        assert(gf.body[g.body.len() + 1int] == g2.body[g.body.len() + 1int]);
        lemma_move_to_argument(r, i);
    }
}

/// Whether an argument is passed as a whole 64-bit address: an address taken with `&`, or
/// a variable of array type.
pub open spec fn passed_whole(g: GS, a: SExpr) -> bool {
    a is AddressOf || (a is Variable && (sp_lookup(g, a->Variable_0@) matches Ok(v) && v.var_type is Array))
}

/// Every argument of a call that is not itself a call reaches the argument register of its
/// position: right after the lines that compute it, one line moves `rax` into that register,
/// whole for an address, and as its low 32 bits for any other value.
pub proof fn lemma_argument_reaches_its_register(args: Seq<SExpr>, i: int, g: GS, r: Regs)
    requires
        0 <= i < 6,
        i < args.len(),
        !(args[i] is Call),
    ensures
        sp_call_plain(args, i, g) matches Ok(gf) ==> {
            &&& crate::codegen::sp_gen_expr(args[i], g) matches Ok(ge)
            &&& gf.body.len() > ge.body.len()
            &&& run_line(r, gf.body[ge.body.len() as int]) matches Some(r2)
            &&& arg_register(r2, i) == (if passed_whole(g, args[i]) { r.rax } else { low32(r.rax) })
        },
{
    if let Ok(gf) = sp_call_plain(args, i, g) {
        let ge = crate::codegen::sp_gen_expr(args[i], g)->Ok_0;
        crate::properties::lemma_expr_keeps(args[i], g);
        if passed_whole(g, args[i]) {
            let g2 = emit(ge, sline("    mov "@, reg64(i), ", rax\n"@));
            assert(sp_call_plain(args, i, g) == sp_call_plain(args, i + 1, g2));
            lemma_call_plain_keeps(args, i + 1, g2);
            assert(gf.body[ge.body.len() as int] == g2.body[ge.body.len() as int]);
            lemma_move_to_argument(r, i);
        } else {
            let g2 = emit(ge, sline("    mov "@, crate::codegen::reg32(i), ", eax\n"@));
            assert(sp_call_plain(args, i, g) == sp_call_plain(args, i + 1, g2));
            lemma_call_plain_keeps(args, i + 1, g2);
            assert(gf.body[ge.body.len() as int] == g2.body[ge.body.len() as int]);
            lemma_low_move_to_argument(r, i);
        }
    }
}

/// The move of the low 32 bits of `rax` into the argument register of position `i`.
proof fn lemma_low_move_to_argument(r: Regs, i: int)
    requires
        0 <= i < 6,
    ensures
        run_line(r, sline("    mov "@, crate::codegen::reg32(i), ", eax\n"@)) matches Some(r2) && arg_register(r2, i) == low32(r.rax),
{
    reveal_strlit("    mov ");
    reveal_strlit(", eax\n");
    reveal_strlit("edi");
    reveal_strlit("esi");
    reveal_strlit("edx");
    reveal_strlit("ecx");
    reveal_strlit("r8d");
    reveal_strlit("r9d");
    reveal_strlit("    mov edi, eax\n");
    reveal_strlit("    mov esi, eax\n");
    reveal_strlit("    mov edx, eax\n");
    reveal_strlit("    mov ecx, eax\n");
    reveal_strlit("    mov r8d, eax\n");
    reveal_strlit("    mov r9d, eax\n");
    let line = sline("    mov "@, crate::codegen::reg32(i), ", eax\n"@);
    if i == 0 {
        assert(line =~= "    mov edi, eax\n"@);
    } else if i == 1 {
        assert(line =~= "    mov esi, eax\n"@);
    } else if i == 2 {
        assert(line =~= "    mov edx, eax\n"@);
    } else if i == 3 {
        assert(line =~= "    mov ecx, eax\n"@);
    } else if i == 4 {
        assert(line =~= "    mov r8d, eax\n"@);
    } else {
        assert(line =~= "    mov r9d, eax\n"@);
    }
}

/// The move of `rax` into the 64-bit argument register of position `i`.
proof fn lemma_move_to_argument(r: Regs, i: int)
    requires
        0 <= i < 6,
    ensures
        run_line(r, sline("    mov "@, reg64(i), ", rax\n"@)) matches Some(r2) && arg_register(r2, i) == r.rax,
{
    reveal_strlit("    mov ");
    reveal_strlit(", rax\n");
    reveal_strlit("rdi");
    reveal_strlit("rsi");
    reveal_strlit("rdx");
    reveal_strlit("rcx");
    reveal_strlit("r8");
    reveal_strlit("r9");
    reveal_strlit("    mov rdi, rax\n");
    reveal_strlit("    mov rsi, rax\n");
    reveal_strlit("    mov rdx, rax\n");
    reveal_strlit("    mov rcx, rax\n");
    reveal_strlit("    mov r8, rax\n");
    reveal_strlit("    mov r9, rax\n");
    let line = sline("    mov "@, reg64(i), ", rax\n"@);
    if i == 0 {
        assert(line =~= "    mov rdi, rax\n"@);
    } else if i == 1 {
        assert(line =~= "    mov rsi, rax\n"@);
    } else if i == 2 {
        assert(line =~= "    mov rdx, rax\n"@);
    } else if i == 3 {
        assert(line =~= "    mov rcx, rax\n"@);
    } else if i == 4 {
        assert(line =~= "    mov r8, rax\n"@);
    } else {
        assert(line =~= "    mov r9, rax\n"@);
    }
}

proof fn lemma_run_one(r: Regs, ls: Seq<Seq<char>>)
    requires
        ls.len() == 1,
    ensures
        run_lines(r, ls) == (match run_line(r, ls[0]) { None => None, Some(r1) => Some(r1) }),
{
    reveal_with_fuel(run_lines, 2);
    assert(ls.drop_first().len() == 0);
}

proof fn lemma_run_two(r: Regs, ls: Seq<Seq<char>>)
    requires
        ls.len() == 2,
    ensures
        run_lines(r, ls) == (match run_line(r, ls[0]) {
            None => None,
            Some(r1) => match run_line(r1, ls[1]) { None => None, Some(r2) => Some(r2) },
        }),
{
    if let Some(r1) = run_line(r, ls[0]) {
        assert(ls.drop_first()[0] == ls[1]);
        assert(run_lines(r, ls) == run_lines(r1, ls.drop_first()));
        lemma_run_one(r1, ls.drop_first());
    }
}

proof fn lemma_run_four(r: Regs, ls: Seq<Seq<char>>)
    requires
        ls.len() == 4,
    ensures
        run_lines(r, ls) == (match run_line(r, ls[0]) {
            None => None,
            Some(r1) => match run_line(r1, ls[1]) {
                None => None,
                Some(r2) => match run_line(r2, ls[2]) {
                    None => None,
                    Some(r3) => match run_line(r3, ls[3]) { None => None, Some(r4) => Some(r4) },
                },
            },
        }),
{
    if let Some(r1) = run_line(r, ls[0]) {
        let t = ls.drop_first();
        assert(t[0] == ls[1] && t[1] == ls[2] && t[2] == ls[3]);
        assert(run_lines(r, ls) == run_lines(r1, t));
        if let Some(r2) = run_line(r1, t[0]) {
            let u = t.drop_first();
            assert(u[0] == ls[2] && u[1] == ls[3]);
            assert(run_lines(r1, t) == run_lines(r2, u));
            lemma_run_two(r2, u);
        }
    }
}

} // verus!
