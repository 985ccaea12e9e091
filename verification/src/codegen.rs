//! The code generator: the program tree becomes x86-64 assembly in Intel syntax.
//!
//! Each exec function is tied to a spec function of the same name with an `sp_` prefix
//! that states, over the mathematical form of the generator's state (`GS`), which lines are
//! written and how the tables change, or which error stops generation.
use vstd::prelude::*;
use crate::ast::{
    BinaryOp, Expr, Function, FunctionArgDeclaration, Program, SExpr, SFunction, SStatement,
    Statement, Type, checked_offset, copy_type, expr_view, exprs_view, function_view,
    functions_view, lemma_exprs_view_index, lemma_stmts_view_index, size_fits, stmt_view,
    stmts_view, type_size,
};
use crate::text::{concat3, concat5, i64_to_string, int_to_dec, owned, str_eq};

verus! {

/// A field of a structure type: its type, its name, and its place on the stack.
#[derive(Debug)]
pub struct StructField {
    pub var_type: Type,
    pub name: String,
    pub offset: i64,
}

/// What the generator knows of a variable: its place on the stack, its type, and, for a
/// structure type, its fields.
#[derive(Debug)]
pub struct VarInfo {
    pub offset: i64,
    pub var_type: Type,
    pub struct_fields: Vec<StructField>,
}

/// The variables in scope. Every definition is kept in the order it was made;
/// `scope_starts` holds, for each open scope, where its definitions begin. A name stands
/// for its latest definition in the open scopes.
pub struct VarTable {
    pub entries: Vec<(String, VarInfo)>,
    pub scope_starts: Vec<usize>,
    pub stack_offset: i64,
}

/// A finished function of the output: its header and its lines.
pub struct AssemblyStructureFunction {
    pub header: String,
    pub body: Vec<String>,
}

/// The state that tells the code for an operand of `+` or `-` that is a pointer.
pub struct GenContext {
    pub in_a_binary: bool,
    pub pointer_in_binary: bool,
    pub call_context: String,
    pub return_context: Option<(String, Type)>,
}

/// The whole state of the generator.
pub struct CodeGen {
    pub table: VarTable,
    /// The data section.
    pub data: String,
    /// The functions already finished.
    pub text: Vec<AssemblyStructureFunction>,
    /// The header of the function being generated.
    pub header: String,
    /// The lines of the function being generated.
    pub body: Vec<String>,
    pub context: GenContext,
    /// The next free label number.
    pub label_index: i64,
    /// Labels of `break` statements whose target is still to be placed.
    pub break_idx_vec: Vec<i64>,
    /// One entry per loop being generated.
    pub loop_check: Vec<bool>,
    /// The condition labels of the loops being generated, innermost last.
    pub cond_check_locs: Vec<i64>,
}

/// Why code generation stopped.
#[derive(Debug, PartialEq)]
pub enum CompileError {
    UndeclaredVariable { name: String },
    TypeNotImplemented { var_type: Type },
    /// A structure access on a variable that is not a structure, or a pointer adjustment
    /// for an operand that is not a pointer.
    NeverHappens,
    UnknownOperation,
    CannotDereference,
    UnknownExpression,
    CannotReassign { target: Expr },
    InvalidIfCondition,
    FieldNotDeclaration,
    BreakOutsideLoop,
    ContinueOutsideLoop,
    ArgumentTypeNotImplemented,
    /// A call or a function with more than six arguments.
    TooManyArguments,
    /// `else` as the first statement of a function.
    ElseWithoutCode,
    /// A size, a stack offset or a label number went out of the `i64` range.
    ArithmeticOverflow,
}

/// The mathematical form of a compile error.
pub enum CErr {
    UndeclaredVariable { name: Seq<char> },
    TypeNotImplemented { var_type: Type },
    NeverHappens,
    UnknownOperation,
    CannotDereference,
    UnknownExpression,
    CannotReassign { target: SExpr },
    InvalidIfCondition,
    FieldNotDeclaration,
    BreakOutsideLoop,
    ContinueOutsideLoop,
    ArgumentTypeNotImplemented,
    TooManyArguments,
    ElseWithoutCode,
    ArithmeticOverflow,
}

pub open spec fn cerr_view(e: CompileError) -> CErr {
    match e {
        CompileError::UndeclaredVariable { name } => CErr::UndeclaredVariable { name: name@ },
        CompileError::TypeNotImplemented { var_type } => CErr::TypeNotImplemented { var_type },
        CompileError::NeverHappens => CErr::NeverHappens,
        CompileError::UnknownOperation => CErr::UnknownOperation,
        CompileError::CannotDereference => CErr::CannotDereference,
        CompileError::UnknownExpression => CErr::UnknownExpression,
        CompileError::CannotReassign { target } => CErr::CannotReassign { target: expr_view(target) },
        CompileError::InvalidIfCondition => CErr::InvalidIfCondition,
        CompileError::FieldNotDeclaration => CErr::FieldNotDeclaration,
        CompileError::BreakOutsideLoop => CErr::BreakOutsideLoop,
        CompileError::ContinueOutsideLoop => CErr::ContinueOutsideLoop,
        CompileError::ArgumentTypeNotImplemented => CErr::ArgumentTypeNotImplemented,
        CompileError::TooManyArguments => CErr::TooManyArguments,
        CompileError::ElseWithoutCode => CErr::ElseWithoutCode,
        CompileError::ArithmeticOverflow => CErr::ArithmeticOverflow,
    }
}

/// The mathematical form of a variable's entry.
pub struct SVar {
    pub offset: i64,
    pub var_type: Type,
    pub fields: Seq<StructField>,
}

/// The mathematical form of the generator's state.
pub struct GS {
    pub entries: Seq<(Seq<char>, SVar)>,
    pub starts: Seq<int>,
    pub stack: int,
    pub data: Seq<char>,
    pub text: Seq<(Seq<char>, Seq<Seq<char>>)>,
    pub header: Seq<char>,
    pub body: Seq<Seq<char>>,
    pub in_bin: bool,
    pub ptr_in_bin: bool,
    pub call_ctx: Seq<char>,
    pub ret_ctx: Option<(Seq<char>, Type)>,
    pub labels: int,
    pub breaks: Seq<i64>,
    pub loops: Seq<bool>,
    pub conds: Seq<i64>,
}

pub open spec fn var_view(v: VarInfo) -> SVar {
    SVar { offset: v.offset, var_type: v.var_type, fields: v.struct_fields@ }
}

pub open spec fn lines_view(v: Seq<String>) -> Seq<Seq<char>> {
    Seq::new(v.len(), |i: int| v[i]@)
}

pub open spec fn entries_view(v: Seq<(String, VarInfo)>) -> Seq<(Seq<char>, SVar)> {
    Seq::new(v.len(), |i: int| (v[i].0@, var_view(v[i].1)))
}

pub open spec fn starts_view(v: Seq<usize>) -> Seq<int> {
    Seq::new(v.len(), |i: int| v[i] as int)
}

pub open spec fn text_view(v: Seq<AssemblyStructureFunction>) -> Seq<(Seq<char>, Seq<Seq<char>>)> {
    Seq::new(v.len(), |i: int| (v[i].header@, lines_view(v[i].body@)))
}

pub open spec fn ret_view(r: Option<(String, Type)>) -> Option<(Seq<char>, Type)> {
    match r {
        Some((s, t)) => Some((s@, t)),
        None => None,
    }
}

impl CodeGen {
    pub open spec fn gv(&self) -> GS {
        GS {
            entries: entries_view(self.table.entries@),
            starts: starts_view(self.table.scope_starts@),
            stack: self.table.stack_offset as int,
            data: self.data@,
            text: text_view(self.text@),
            header: self.header@,
            body: lines_view(self.body@),
            in_bin: self.context.in_a_binary,
            ptr_in_bin: self.context.pointer_in_binary,
            call_ctx: self.context.call_context@,
            ret_ctx: ret_view(self.context.return_context),
            labels: self.label_index as int,
            breaks: self.break_idx_vec@,
            loops: self.loop_check@,
            conds: self.cond_check_locs@,
        }
    }

    /// The table's scope marks lie within the definitions, in order.
    pub open spec fn wf(&self) -> bool {
        &&& self.table.scope_starts@.len() >= 1
        &&& forall|i: int| 0 <= i < self.table.scope_starts@.len() ==> #[trigger] self.table.scope_starts@[i] <= self.table.entries@.len()
        &&& forall|i: int, j: int| 0 <= i <= j < self.table.scope_starts@.len() ==> #[trigger] self.table.scope_starts@[i] <= #[trigger] self.table.scope_starts@[j]
    }
}

/// Whether a spec result is the error `e`.
pub open spec fn is_cerr<T>(r: Result<T, CErr>, e: CErr) -> bool {
    r == Err::<T, CErr>(e)
}

/// A line written to the current function.
pub open spec fn emit(g: GS, line: Seq<char>) -> GS {
    GS { body: g.body.push(line), ..g }
}

/// A line of text around a number.
pub open spec fn nline(pre: Seq<char>, n: int, post: Seq<char>) -> Seq<char> {
    pre + int_to_dec(n) + post
}

/// A line of text around a name.
pub open spec fn sline(pre: Seq<char>, s: Seq<char>, post: Seq<char>) -> Seq<char> {
    pre + s + post
}

/// The latest definition of a name.
pub open spec fn lookup(entries: Seq<(Seq<char>, SVar)>, name: Seq<char>) -> Option<SVar>
    decreases entries.len(),
{
    if entries.len() == 0 {
        None
    } else if entries.last().0 == name {
        Some(entries.last().1)
    } else {
        lookup(entries.drop_last(), name)
    }
}

/// `get_scope_variable`: the variable a name stands for, or the error for an undeclared
/// name.
pub open spec fn sp_lookup(g: GS, name: Seq<char>) -> Result<SVar, CErr> {
    match lookup(g.entries, name) {
        Some(v) => Ok(v),
        None => Err(CErr::UndeclaredVariable { name }),
    }
}

/// A definition added to the innermost scope.
pub open spec fn define(g: GS, name: Seq<char>, v: SVar) -> GS {
    GS { entries: g.entries.push((name, v)), ..g }
}

/// A new innermost scope.
pub open spec fn push_scope(g: GS) -> GS {
    GS { starts: g.starts.push(g.entries.len() as int), ..g }
}

/// The innermost scope closed: its definitions are forgotten.
pub open spec fn pop_scope(g: GS) -> GS {
    if g.starts.len() == 0 {
        g
    } else {
        GS { entries: g.entries.take(g.starts.last()), starts: g.starts.drop_last(), ..g }
    }
}

/// The size of a type as a number, or the error where computing it overflows.
pub open spec fn sp_size(t: Type) -> Result<i64, CErr> {
    if size_fits(t) {
        Ok(type_size(t) as i64)
    } else {
        Err(CErr::ArithmeticOverflow)
    }
}

/// `store_type`: the line that stores the value just computed into a variable of this type.
pub open spec fn sp_store_type(g: GS, t: Type, off: i64) -> GS {
    match t {
        Type::Bool | Type::Char => emit(g, nline("    mov BYTE PTR [rbp "@, off as int, "], al\n"@)),
        Type::Pointer(_) => emit(g, nline("    mov QWORD PTR [rbp "@, off as int, "], rax\n"@)),
        Type::Array(_, _) => g,
        _ => emit(g, nline("    mov [rbp "@, off as int, "], eax\n"@)),
    }
}

/// `get_type`: the line that loads a variable of this type.
pub open spec fn sp_get_type(g: GS, t: Type, off: i64) -> Result<GS, CErr> {
    match t {
        Type::Int => Ok(emit(g, nline("    mov eax, [rbp "@, off as int, "]\n"@))),
        Type::Char | Type::Bool => Ok(emit(g, nline("    movzx eax, BYTE PTR [rbp "@, off as int, "]\n"@))),
        Type::Pointer(_) => Ok(emit(g, nline("    mov rax, QWORD PTR [rbp "@, off as int, "]\n"@))),
        Type::Array(_, _) => Ok(emit(g, nline("    lea rax, [rbp "@, off as int, "]\n"@))),
        _ => Err(CErr::TypeNotImplemented { var_type: t }),
    }
}

/// The 64-bit argument registers.
pub open spec fn reg64(i: int) -> Seq<char> {
    if i == 0 { "rdi"@ } else if i == 1 { "rsi"@ } else if i == 2 { "rdx"@ } else if i == 3 { "rcx"@ } else if i == 4 { "r8"@ } else { "r9"@ }
}

/// The 32-bit argument registers.
pub open spec fn reg32(i: int) -> Seq<char> {
    if i == 0 { "edi"@ } else if i == 1 { "esi"@ } else if i == 2 { "edx"@ } else if i == 3 { "ecx"@ } else if i == 4 { "r8d"@ } else { "r9d"@ }
}

/// The 8-bit argument registers.
pub open spec fn reg8(i: int) -> Seq<char> {
    if i == 0 { "dil"@ } else if i == 1 { "sil"@ } else if i == 2 { "dl"@ } else if i == 3 { "cl"@ } else if i == 4 { "r8b"@ } else { "r9b"@ }
}

fn reg64_of(i: usize) -> (r: &'static str)
    requires
        i < 6,
    ensures
        r@ == reg64(i as int),
{
    if i == 0 { "rdi" } else if i == 1 { "rsi" } else if i == 2 { "rdx" } else if i == 3 { "rcx" } else if i == 4 { "r8" } else { "r9" }
}

fn reg32_of(i: usize) -> (r: &'static str)
    requires
        i < 6,
    ensures
        r@ == reg32(i as int),
{
    if i == 0 { "edi" } else if i == 1 { "esi" } else if i == 2 { "edx" } else if i == 3 { "ecx" } else if i == 4 { "r8d" } else { "r9d" }
}

fn reg8_of(i: usize) -> (r: &'static str)
    requires
        i < 6,
    ensures
        r@ == reg8(i as int),
{
    if i == 0 { "dil" } else if i == 1 { "sil" } else if i == 2 { "dl" } else if i == 3 { "cl" } else if i == 4 { "r8b" } else { "r9b" }
}

/// A line of text around a number.
fn num_line(pre: &str, n: i64, post: &str) -> (s: String)
    ensures
        s@ == nline(pre@, n as int, post@),
{
    let num = i64_to_string(n);
    concat3(pre, num.as_str(), post)
}

/// A copy of a structure field.
fn copy_field(f: &StructField) -> (r: StructField)
    ensures
        r == *f,
{
    StructField { var_type: copy_type(&f.var_type), name: f.name.clone(), offset: f.offset }
}

/// A copy of a list of structure fields.
fn copy_fields(v: &Vec<StructField>) -> (r: Vec<StructField>)
    ensures
        r@ == v@,
{
    let mut r: Vec<StructField> = Vec::new();
    let mut i: usize = 0;
    while i < v.len()
        invariant
            i <= v.len(),
            r@ == v@.take(i as int),
        decreases v.len() - i,
    {
        r.push(copy_field(&v[i]));
        i = i + 1;
        assert(r@ =~= v@.take(i as int));
    }
    assert(v@.take(v.len() as int) =~= v@);
    r
}

/// A copy of a variable's entry.
fn copy_var_info(v: &VarInfo) -> (r: VarInfo)
    ensures
        var_view(r) == var_view(*v),
{
    VarInfo { offset: v.offset, var_type: copy_type(&v.var_type), struct_fields: copy_fields(&v.struct_fields) }
}

impl CodeGen {
    /// Writes a line to the current function.
    pub fn emit(&mut self, line: String)
        ensures
            final(self).gv() == emit(old(self).gv(), line@),
            final(self).wf() == old(self).wf(),
            final(self).table == old(self).table,
    {
        let ghost before = self.body@;
        self.body.push(line);
        assert(lines_view(self.body@) =~= lines_view(before).push(line@));
    }

    /// Writes a line made of a number between two pieces of text.
    fn emit_num(&mut self, pre: &str, n: i64, post: &str)
        ensures
            final(self).gv() == emit(old(self).gv(), nline(pre@, n as int, post@)),
            final(self).wf() == old(self).wf(),
            final(self).table == old(self).table,
    {
        let line = num_line(pre, n, post);
        self.emit(line);
    }

    /// Writes a line made of a name between two pieces of text.
    fn emit_name(&mut self, pre: &str, s: &str, post: &str)
        ensures
            final(self).gv() == emit(old(self).gv(), sline(pre@, s@, post@)),
            final(self).wf() == old(self).wf(),
            final(self).table == old(self).table,
    {
        let line = concat3(pre, s, post);
        self.emit(line);
    }

    /// Writes a fixed line.
    fn emit_str(&mut self, s: &str)
        ensures
            final(self).gv() == emit(old(self).gv(), s@),
            final(self).wf() == old(self).wf(),
            final(self).table == old(self).table,
    {
        self.emit(owned(s));
    }
}

/// The correction of `+` and `-` when an operand is a pointer: the other operand is
/// multiplied by the size of what the pointer points to. `g` is the state after both
/// operands, with the right one in `eax` and the left one in `rcx`.
pub open spec fn sp_pointer_adjust(g: GS) -> Result<GS, CErr> {
    let g0 = GS { ptr_in_bin: false, ..g };
    match g0.ret_ctx {
        None => Ok(g0),
        Some((side, t)) => {
            if side == "left"@ {
                let g1 = emit(g0, "    push rcx\n"@);
                match t {
                    Type::Pointer(inner) => match sp_size(*inner) {
                        Err(e) => Err(e),
                        Ok(sz) => Ok(emit(emit(emit(g1, nline("    mov ecx, "@, sz as int, " \n"@)), "    imul eax, ecx\n"@), "    pop rcx\n"@)),
                    },
                    _ => Err(CErr::NeverHappens),
                }
            } else if side == "right"@ {
                let g1 = emit(g0, "    push rax\n"@);
                match t {
                    Type::Pointer(inner) => match sp_size(*inner) {
                        Err(e) => Err(e),
                        Ok(sz) => Ok(emit(emit(emit(g1, nline("    mov rax, "@, sz as int, " \n"@)), "    imul ecx, eax\n"@), "    pop rax\n"@)),
                    },
                    _ => Err(CErr::NeverHappens),
                }
            } else {
                Ok(g0)
            }
        },
    }
}

/// The lines of a binary operator, with the left operand in `ecx` and the right one in
/// `eax`; the result is left in `eax`.
pub open spec fn sp_op_lines(g: GS, op: BinaryOp) -> Result<GS, CErr> {
    match op {
        BinaryOp::PLUS => Ok(emit(g, "    add eax, ecx\n"@)),
        BinaryOp::MINUS => Ok(emit(emit(g, "    sub ecx, eax\n"@), "    mov eax, ecx\n"@)),
        BinaryOp::MULTIPLICATION => Ok(emit(g, "    imul rax, rcx\n"@)),
        BinaryOp::DIVISION => Ok(emit(emit(emit(emit(g, "    mov r10d, eax\n"@), "    mov eax, ecx\n"@), "    cdq\n"@), "    idiv r10d\n"@)),
        BinaryOp::UNKNOWN => Err(CErr::UnknownOperation),
        _ => {
            let set = match op {
                BinaryOp::EQUAL => "    sete al\n"@,
                BinaryOp::NEQUAL => "    setne al\n"@,
                BinaryOp::GREATER => "    setg al\n"@,
                BinaryOp::GREATEREQ => "    setge al\n"@,
                BinaryOp::LESSER => "    setl al\n"@,
                _ => "    setle al\n"@,
            };
            Ok(emit(emit(emit(emit(g, "    cmp ecx, eax\n"@), set), "    movzx eax, al\n"@), "    cmp eax, 0\n"@))
        },
    }
}

/// The loads of every field of a structure that has the name `fname`, in field order.
pub open spec fn sp_field_loads(g: GS, fields: Seq<StructField>, fname: Seq<char>) -> Result<GS, CErr>
    decreases fields.len(),
{
    if fields.len() == 0 {
        Ok(g)
    } else {
        match sp_field_loads(g, fields.drop_last(), fname) {
            Err(e) => Err(e),
            Ok(g1) => {
                let f = fields.last();
                if f.name@ == fname {
                    sp_get_type(g1, f.var_type, f.offset)
                } else {
                    Ok(g1)
                }
            },
        }
    }
}

/// The stores into every field of a structure that has the name `fname`, in field order.
pub open spec fn sp_field_stores(g: GS, fields: Seq<StructField>, fname: Seq<char>) -> GS
    decreases fields.len(),
{
    if fields.len() == 0 {
        g
    } else {
        let g1 = sp_field_stores(g, fields.drop_last(), fname);
        let f = fields.last();
        if f.name@ == fname {
            sp_store_type(g1, f.var_type, f.offset)
        } else {
            g1
        }
    }
}

/// The fields of the structure type of the variable `instance`.
pub open spec fn sp_struct_fields_of(g: GS, instance: Seq<char>) -> Result<Seq<StructField>, CErr> {
    match sp_lookup(g, instance) {
        Err(e) => Err(e),
        Ok(v) => match v.var_type {
            Type::Struct(sname) => match sp_lookup(g, sname@) {
                Err(e) => Err(e),
                Ok(sv) => Ok(sv.fields),
            },
            _ => Err(CErr::NeverHappens),
        },
    }
}

/// `gen_expr`: the lines that compute an expression; values end in `eax` (or `rax`).
pub open spec fn sp_gen_expr(e: SExpr, g: GS) -> Result<GS, CErr>
    decreases e, 0int, 0int,
{
    match e {
        SExpr::IntLiteral(n) => Ok(emit(g, nline("    mov eax, "@, n as int, "\n"@))),
        SExpr::BoolLiteral(b) => Ok(emit(g, nline("    mov eax, "@, if b { 1 } else { 0 }, "\n"@))),
        SExpr::CharLiteral(c) => Ok(emit(g, nline("    mov eax, "@, c as int, "\n"@))),
        SExpr::Binary(l, op, r) => {
            let g1 = GS { in_bin: true, call_ctx: "left"@, ..g };
            match sp_gen_expr(*l, g1) {
                Err(e) => Err(e),
                Ok(g2) => {
                    let g4 = GS { call_ctx: "right"@, ..emit(g2, "    push rax\n"@) };
                    match sp_gen_expr(*r, g4) {
                        Err(e) => Err(e),
                        Ok(g5) => {
                            let g6 = emit(g5, "    pop rcx\n"@);
                            let adj = if (op == BinaryOp::PLUS || op == BinaryOp::MINUS) && g6.ptr_in_bin {
                                sp_pointer_adjust(g6)
                            } else {
                                Ok(g6)
                            };
                            match adj {
                                Err(e) => Err(e),
                                Ok(g7) => match sp_op_lines(g7, op) {
                                    Err(e) => Err(e),
                                    Ok(g8) => Ok(GS { in_bin: false, ..g8 }),
                                },
                            }
                        },
                    }
                },
            }
        },
        SExpr::Variable(name) => match sp_lookup(g, name@) {
            Err(e) => Err(e),
            Ok(v) => {
                let g1 = if g.in_bin && v.var_type is Pointer {
                    GS { ptr_in_bin: true, ret_ctx: Some((g.call_ctx, v.var_type)), ..g }
                } else {
                    g
                };
                sp_get_type(g1, v.var_type, v.offset)
            },
        },
        SExpr::Call(name, args) => sp_gen_call(name@, args, g),
        SExpr::StringLiteral(text, idx) => {
            let d = g.data + nline(".LC"@, idx as int, ":\n"@) + sline("    .string \""@, text@, "\"\n"@);
            Ok(emit(GS { data: d, ..g }, nline("    mov rax, OFFSET FLAT: .LC"@, idx as int, "\n"@)))
        },
        SExpr::Dereference(name) => match sp_lookup(g, name@) {
            Err(e) => Err(e),
            Ok(v) => {
                let loaded = match v.var_type {
                    Type::Pointer(_) => Ok(emit(emit(g, nline("    mov rax, QWORD PTR [rbp "@, v.offset as int, "]\n"@)), "    movzx eax, BYTE PTR [rax]\n"@)),
                    Type::Array(_, _) => Ok(emit(g, nline("    movzx eax, BYTE PTR [rbp "@, v.offset as int, "]\n"@))),
                    _ => Err(CErr::CannotDereference),
                };
                match loaded {
                    Err(e) => Err(e),
                    Ok(g1) => Ok(emit(g1, "    movsx eax, al\n"@)),
                }
            },
        },
        SExpr::AddressOf(_) => Ok(emit(g, "    lea rax, [rbp-8]\n"@)),
        SExpr::Struct(instance, field) => match sp_struct_fields_of(g, instance@) {
            Err(e) => Err(e),
            Ok(fields) => sp_field_loads(g, fields, field@),
        },
        SExpr::SizeofVar(name) => match sp_lookup(g, name@) {
            Err(e) => Err(e),
            Ok(v) => match sp_size(v.var_type) {
                Err(e) => Err(e),
                Ok(sz) => Ok(emit(g, nline("    mov eax, "@, sz as int, "\n"@))),
            },
        },
        SExpr::SizeofType(t) => match sp_size(t) {
            Err(e) => Err(e),
            Ok(sz) => Ok(emit(g, nline("    mov eax, "@, sz as int, "\n"@))),
        },
        SExpr::Unknown => Err(CErr::UnknownExpression),
        SExpr::Empty => Ok(g),
    }
}

/// `gen_call`: arguments that are calls first, each result moved to its register; then
/// the other arguments in order, each moved to its register; then the call itself.
/// `printf` and `sprintf` get `eax` cleared first.
pub open spec fn sp_gen_call(name: Seq<char>, args: Seq<SExpr>, g: GS) -> Result<GS, CErr>
    decreases args, 3int, 0int,
{
    let moved = if args.len() > 0 {
        match sp_call_nested(args, 0, g) {
            Err(e) => Err(e),
            Ok(ga) => sp_call_plain(args, 0, ga),
        }
    } else {
        Ok(g)
    };
    match moved {
        Err(e) => Err(e),
        Ok(g1) => {
            let g2 = if name == "printf"@ || name == "sprintf"@ { emit(g1, "    xor eax, eax\n"@) } else { g1 };
            Ok(emit(g2, sline("    call "@, name, "\n"@)))
        },
    }
}

/// The arguments from `i` on that are calls.
pub open spec fn sp_call_nested(args: Seq<SExpr>, i: int, g: GS) -> Result<GS, CErr>
    decreases args, 2int, args.len() - i,
{
    if i < 0 || i >= args.len() {
        Ok(g)
    } else {
        match args[i] {
            SExpr::Call(n2, a2) => match sp_gen_call(n2@, a2, g) {
                Err(e) => Err(e),
                Ok(g1) => {
                    if i >= 6 {
                        Err(CErr::TooManyArguments)
                    } else {
                        sp_call_nested(args, i + 1, emit(g1, sline("    mov "@, reg32(i), ", eax\n"@)))
                    }
                },
            },
            _ => sp_call_nested(args, i + 1, g),
        }
    }
}

/// The arguments from `i` on that are not calls.
pub open spec fn sp_call_plain(args: Seq<SExpr>, i: int, g: GS) -> Result<GS, CErr>
    decreases args, 1int, args.len() - i,
{
    if i < 0 || i >= args.len() {
        Ok(g)
    } else {
        match args[i] {
            SExpr::Call(_, _) => sp_call_plain(args, i + 1, g),
            SExpr::AddressOf(_) => match sp_gen_expr(args[i], g) {
                Err(e) => Err(e),
                Ok(g1) => {
                    if i >= 6 {
                        Err(CErr::TooManyArguments)
                    } else {
                        sp_call_plain(args, i + 1, emit(g1, sline("    mov "@, reg64(i), ", rax\n"@)))
                    }
                },
            },
            SExpr::Variable(n) => match sp_gen_expr(args[i], g) {
                Err(e) => Err(e),
                Ok(g1) => match sp_lookup(g1, n@) {
                    Err(e) => Err(e),
                    Ok(v) => {
                        if i >= 6 {
                            Err(CErr::TooManyArguments)
                        } else {
                            let line = if v.var_type is Array {
                                sline("    mov "@, reg64(i), ", rax\n"@)
                            } else {
                                sline("    mov "@, reg32(i), ", eax\n"@)
                            };
                            sp_call_plain(args, i + 1, emit(g1, line))
                        }
                    },
                },
            },
            _ => match sp_gen_expr(args[i], g) {
                Err(e) => Err(e),
                Ok(g1) => {
                    if i >= 6 {
                        Err(CErr::TooManyArguments)
                    } else {
                        sp_call_plain(args, i + 1, emit(g1, sline("    mov "@, reg32(i), ", eax\n"@)))
                    }
                },
            },
        }
    }
}

proof fn lemma_lookup_step(ev: Seq<(Seq<char>, SVar)>, name: Seq<char>, i: int)
    requires
        0 < i <= ev.len(),
    ensures
        lookup(ev.take(i), name) == (if ev[i - 1].0 == name { Some(ev[i - 1].1) } else { lookup(ev.take(i - 1), name) }),
{
    assert(ev.take(i).drop_last() =~= ev.take(i - 1));
}

/// The variable that a name stands for: its latest definition in the open scopes.
pub fn get_scope_variable(gen: &CodeGen, var_name: &str) -> (r: Result<VarInfo, CompileError>)
    ensures
        match r {
            Ok(v) => sp_lookup(gen.gv(), var_name@) == Ok::<_, CErr>(var_view(v)),
            Err(e) => is_cerr(sp_lookup(gen.gv(), var_name@), cerr_view(e)),
        },
{
    let ghost ev = entries_view(gen.table.entries@);
    let mut i = gen.table.entries.len();
    assert(ev.take(i as int) =~= ev);
    while i > 0
        invariant
            i <= gen.table.entries@.len(),
            ev == entries_view(gen.table.entries@),
            lookup(ev, var_name@) == lookup(ev.take(i as int), var_name@),
        decreases i,
    {
        proof {
            lemma_lookup_step(ev, var_name@, i as int);
        }
        i = i - 1;
        if str_eq(gen.table.entries[i].0.as_str(), var_name) {
            return Ok(copy_var_info(&gen.table.entries[i].1));
        }
    }
    assert(ev.take(0) =~= Seq::<(Seq<char>, SVar)>::empty());
    Err(CompileError::UndeclaredVariable { name: owned(var_name) })
}

/// Writes the line that stores the value just computed into a variable of this type.
pub fn store_type(var_type: &Type, offset: i64, gen: &mut CodeGen)
    ensures
        final(gen).gv() == sp_store_type(old(gen).gv(), *var_type, offset),
        final(gen).table == old(gen).table,
{
    match var_type {
        Type::Bool | Type::Char => gen.emit_num("    mov BYTE PTR [rbp ", offset, "], al\n"),
        Type::Pointer(_) => gen.emit_num("    mov QWORD PTR [rbp ", offset, "], rax\n"),
        Type::Array(_, _) => {},
        _ => gen.emit_num("    mov [rbp ", offset, "], eax\n"),
    }
}

/// Writes the line that loads a variable of this type.
pub fn get_type(var_type: &Type, offset: i64, gen: &mut CodeGen) -> (r: Result<(), CompileError>)
    ensures
        match r {
            Ok(_) => sp_get_type(old(gen).gv(), *var_type, offset) == Ok::<_, CErr>(final(gen).gv()),
            Err(e) => is_cerr(sp_get_type(old(gen).gv(), *var_type, offset), cerr_view(e)),
        },
        final(gen).table == old(gen).table,
        r is Err ==> *final(gen) == *old(gen),
{
    match var_type {
        Type::Int => {
            gen.emit_num("    mov eax, [rbp ", offset, "]\n");
            Ok(())
        },
        Type::Char | Type::Bool => {
            gen.emit_num("    movzx eax, BYTE PTR [rbp ", offset, "]\n");
            Ok(())
        },
        Type::Pointer(_) => {
            gen.emit_num("    mov rax, QWORD PTR [rbp ", offset, "]\n");
            Ok(())
        },
        Type::Array(_, _) => {
            gen.emit_num("    lea rax, [rbp ", offset, "]\n");
            Ok(())
        },
        _ => Err(CompileError::TypeNotImplemented { var_type: copy_type(var_type) }),
    }
}

/// The size of a type, or the overflow error.
fn size_of(t: &Type) -> (r: Result<i64, CompileError>)
    ensures
        match r {
            Ok(v) => sp_size(*t) == Ok::<_, CErr>(v),
            Err(e) => is_cerr(sp_size(*t), cerr_view(e)),
        },
{
    match checked_offset(t) {
        Some(v) => Ok(v),
        None => Err(CompileError::ArithmeticOverflow),
    }
}

/// Writes the pointer correction of `+` and `-`.
fn pointer_adjust(gen: &mut CodeGen) -> (r: Result<(), CompileError>)
    ensures
        match r {
            Ok(_) => sp_pointer_adjust(old(gen).gv()) == Ok::<_, CErr>(final(gen).gv()),
            Err(e) => is_cerr(sp_pointer_adjust(old(gen).gv()), cerr_view(e)),
        },
        final(gen).table == old(gen).table,
{
    gen.context.pointer_in_binary = false;
    let ctx = match &gen.context.return_context {
        Some((side, t)) => Some((side.clone(), copy_type(t))),
        None => None,
    };
    match ctx {
        None => Ok(()),
        Some((side, t)) => {
            if str_eq(side.as_str(), "left") {
                gen.emit_str("    push rcx\n");
                match t {
                    Type::Pointer(inner) => {
                        let sz = size_of(&inner)?;
                        gen.emit_num("    mov ecx, ", sz, " \n");
                        gen.emit_str("    imul eax, ecx\n");
                        gen.emit_str("    pop rcx\n");
                        Ok(())
                    },
                    _ => Err(CompileError::NeverHappens),
                }
            } else if str_eq(side.as_str(), "right") {
                gen.emit_str("    push rax\n");
                match t {
                    Type::Pointer(inner) => {
                        let sz = size_of(&inner)?;
                        gen.emit_num("    mov rax, ", sz, " \n");
                        gen.emit_str("    imul ecx, eax\n");
                        gen.emit_str("    pop rax\n");
                        Ok(())
                    },
                    _ => Err(CompileError::NeverHappens),
                }
            } else {
                Ok(())
            }
        },
    }
}

/// Writes the lines of a binary operator.
fn op_lines(gen: &mut CodeGen, op: BinaryOp) -> (r: Result<(), CompileError>)
    ensures
        match r {
            Ok(_) => sp_op_lines(old(gen).gv(), op) == Ok::<_, CErr>(final(gen).gv()),
            Err(e) => is_cerr(sp_op_lines(old(gen).gv(), op), cerr_view(e)),
        },
        final(gen).table == old(gen).table,
{
    match op {
        BinaryOp::PLUS => {
            gen.emit_str("    add eax, ecx\n");
            Ok(())
        },
        BinaryOp::MINUS => {
            gen.emit_str("    sub ecx, eax\n");
            gen.emit_str("    mov eax, ecx\n");
            Ok(())
        },
        BinaryOp::MULTIPLICATION => {
            gen.emit_str("    imul rax, rcx\n");
            Ok(())
        },
        BinaryOp::DIVISION => {
            gen.emit_str("    mov r10d, eax\n");
            gen.emit_str("    mov eax, ecx\n");
            gen.emit_str("    cdq\n");
            gen.emit_str("    idiv r10d\n");
            Ok(())
        },
        BinaryOp::UNKNOWN => Err(CompileError::UnknownOperation),
        _ => {
            gen.emit_str("    cmp ecx, eax\n");
            match op {
                BinaryOp::EQUAL => gen.emit_str("    sete al\n"),
                BinaryOp::NEQUAL => gen.emit_str("    setne al\n"),
                BinaryOp::GREATER => gen.emit_str("    setg al\n"),
                BinaryOp::GREATEREQ => gen.emit_str("    setge al\n"),
                BinaryOp::LESSER => gen.emit_str("    setl al\n"),
                _ => gen.emit_str("    setle al\n"),
            }
            gen.emit_str("    movzx eax, al\n");
            gen.emit_str("    cmp eax, 0\n");
            Ok(())
        },
    }
}

/// The fields of the structure type of the variable `instance_name`.
fn struct_fields_of(gen: &CodeGen, instance_name: &String) -> (r: Result<Vec<StructField>, CompileError>)
    ensures
        match r {
            Ok(v) => sp_struct_fields_of(gen.gv(), instance_name@) == Ok::<_, CErr>(v@),
            Err(e) => is_cerr(sp_struct_fields_of(gen.gv(), instance_name@), cerr_view(e)),
        },
{
    let instance = get_scope_variable(gen, instance_name.as_str())?;
    match &instance.var_type {
        Type::Struct(struct_name) => {
            let struct_info = get_scope_variable(gen, struct_name.as_str())?;
            Ok(struct_info.struct_fields)
        },
        _ => Err(CompileError::NeverHappens),
    }
}

proof fn lemma_field_loads_err(g: GS, s: Seq<StructField>, fname: Seq<char>, j: int)
    requires
        0 <= j <= s.len(),
        sp_field_loads(g, s.take(j), fname) is Err,
    ensures
        sp_field_loads(g, s, fname) == sp_field_loads(g, s.take(j), fname),
    decreases s.len(),
{
    if j == s.len() {
        assert(s.take(j) =~= s);
    } else {
        assert(s.drop_last().take(j) =~= s.take(j));
        lemma_field_loads_err(g, s.drop_last(), fname, j);
    }
}

/// Writes the loads of the fields named `field_name`.
fn field_loads(gen: &mut CodeGen, fields: &Vec<StructField>, field_name: &String) -> (r: Result<(), CompileError>)
    ensures
        match r {
            Ok(_) => sp_field_loads(old(gen).gv(), fields@, field_name@) == Ok::<_, CErr>(final(gen).gv()),
            Err(e) => is_cerr(sp_field_loads(old(gen).gv(), fields@, field_name@), cerr_view(e)),
        },
        final(gen).table == old(gen).table,
{
    let ghost g0 = gen.gv();
    let ghost t0 = gen.table;
    let mut i: usize = 0;
    assert(fields@.take(0) =~= Seq::<StructField>::empty());
    while i < fields.len()
        invariant
            i <= fields@.len(),
            g0 == old(gen).gv(),
            t0 == old(gen).table,
            gen.table == t0,
            sp_field_loads(g0, fields@.take(i as int), field_name@) == Ok::<_, CErr>(gen.gv()),
        decreases fields.len() - i,
    {
        assert(fields@.take(i + 1).drop_last() =~= fields@.take(i as int));
        if str_eq(fields[i].name.as_str(), field_name.as_str()) {
            let loaded = get_type(&fields[i].var_type, fields[i].offset, gen);
            match loaded {
                Ok(_) => {},
                Err(e) => {
                    proof {
                        lemma_field_loads_err(g0, fields@, field_name@, i + 1);
                    }
                    return Err(e);
                },
            }
        }
        i = i + 1;
    }
    assert(fields@.take(fields.len() as int) =~= fields@);
    Ok(())
}

/// Writes the lines that compute an expression.
pub fn gen_expr(expr: &Expr, gen: &mut CodeGen) -> (r: Result<(), CompileError>)
    ensures
        match r {
            Ok(_) => sp_gen_expr(expr_view(*expr), old(gen).gv()) == Ok::<_, CErr>(final(gen).gv()),
            Err(e) => is_cerr(sp_gen_expr(expr_view(*expr), old(gen).gv()), cerr_view(e)),
        },
        final(gen).table == old(gen).table,
        r is Err && (*expr is Unknown || *expr is Variable || *expr is Dereference || *expr is SizeofVar
            || *expr is SizeofType) ==> *final(gen) == *old(gen),
    decreases *expr,
{
    match expr {
        Expr::IntLiteral(n) => {
            gen.emit_num("    mov eax, ", *n, "\n");
            Ok(())
        },
        Expr::BoolLiteral(b) => {
            gen.emit_num("    mov eax, ", if *b { 1 } else { 0 }, "\n");
            Ok(())
        },
        Expr::CharLiteral(c) => {
            gen.emit_num("    mov eax, ", *c as i64, "\n");
            Ok(())
        },
        Expr::Binary(left, op, right) => {
            gen.context.in_a_binary = true;
            gen.context.call_context = owned("left");
            gen_expr(left, gen)?;
            gen.emit_str("    push rax\n");
            gen.context.call_context = owned("right");
            gen_expr(right, gen)?;
            gen.emit_str("    pop rcx\n");
            if (*op == BinaryOp::PLUS || *op == BinaryOp::MINUS) && gen.context.pointer_in_binary {
                pointer_adjust(gen)?;
            }
            op_lines(gen, *op)?;
            gen.context.in_a_binary = false;
            Ok(())
        },
        Expr::Variable(name) => {
            let var_info = get_scope_variable(gen, name.as_str())?;
            if gen.context.in_a_binary {
                match &var_info.var_type {
                    Type::Pointer(_) => {
                        gen.context.pointer_in_binary = true;
                        gen.context.return_context = Some((gen.context.call_context.clone(), copy_type(&var_info.var_type)));
                    },
                    _ => {},
                }
            }
            get_type(&var_info.var_type, var_info.offset, gen)
        },
        Expr::Call(name, args) => gen_call(name, args, gen),
        Expr::StringLiteral(string, index) => {
            let label = num_line(".LC", *index, ":\n");
            let text = concat3("    .string \"", string.as_str(), "\"\n");
            gen.data.append(label.as_str());
            gen.data.append(text.as_str());
            gen.emit_num("    mov rax, OFFSET FLAT: .LC", *index, "\n");
            Ok(())
        },
        Expr::Dereference(name) => {
            let variable = get_scope_variable(gen, name.as_str())?;
            match &variable.var_type {
                Type::Pointer(_) => {
                    gen.emit_num("    mov rax, QWORD PTR [rbp ", variable.offset, "]\n");
                    gen.emit_str("    movzx eax, BYTE PTR [rax]\n");
                },
                Type::Array(_, _) => {
                    gen.emit_num("    movzx eax, BYTE PTR [rbp ", variable.offset, "]\n");
                },
                _ => {
                    return Err(CompileError::CannotDereference);
                },
            }
            gen.emit_str("    movsx eax, al\n");
            Ok(())
        },
        Expr::AddressOf(_) => {
            gen.emit_str("    lea rax, [rbp-8]\n");
            Ok(())
        },
        Expr::Struct(instance_name, field_name) => {
            let fields = struct_fields_of(gen, instance_name)?;
            field_loads(gen, &fields, field_name)
        },
        Expr::SizeofVar(var) => {
            let var_info = get_scope_variable(gen, var.as_str())?;
            let size = size_of(&var_info.var_type)?;
            gen.emit_num("    mov eax, ", size, "\n");
            Ok(())
        },
        Expr::SizeofType(var_type) => {
            let size = size_of(var_type)?;
            gen.emit_num("    mov eax, ", size, "\n");
            Ok(())
        },
        Expr::Unknown => Err(CompileError::UnknownExpression),
        Expr::Empty => Ok(()),
    }
}

/// Writes a call: arguments that are calls first, then the other arguments, then the
/// call itself.
pub fn gen_call(name: &String, args: &Vec<Expr>, gen: &mut CodeGen) -> (r: Result<(), CompileError>)
    ensures
        match r {
            Ok(_) => sp_gen_call(name@, exprs_view(args@), old(gen).gv()) == Ok::<_, CErr>(final(gen).gv()),
            Err(e) => is_cerr(sp_gen_call(name@, exprs_view(args@), old(gen).gv()), cerr_view(e)),
        },
        final(gen).table == old(gen).table,
    decreases *args,
{
    let ghost g0 = gen.gv();
    let ghost t0 = gen.table;
    let ghost av = exprs_view(args@);
    proof {
        crate::ast::lemma_exprs_view_len(args@);
    }
    if args.len() > 0 {
        let mut i: usize = 0;
        while i < args.len()
            invariant
                i <= args@.len(),
                args@.len() > 0,
                g0 == old(gen).gv(),
                t0 == old(gen).table,
                av == exprs_view(args@),
                av.len() == args@.len(),
                gen.table == t0,
                sp_call_nested(av, 0, g0) == sp_call_nested(av, i as int, gen.gv()),
            decreases args.len() - i,
        {
            proof {
                lemma_exprs_view_index(args@, i as int);
            }
            match &args[i] {
                Expr::Call(inner_name, inner_args) => {
                    gen_call(inner_name, inner_args, gen)?;
                    if i >= 6 {
                        return Err(CompileError::TooManyArguments);
                    }
                    gen.emit_name("    mov ", reg32_of(i), ", eax\n");
                },
                _ => {},
            }
            i = i + 1;
        }
        let ghost ga = gen.gv();
        let mut i: usize = 0;
        while i < args.len()
            invariant
                i <= args@.len(),
                args@.len() > 0,
                g0 == old(gen).gv(),
                t0 == old(gen).table,
                av == exprs_view(args@),
                av.len() == args@.len(),
                gen.table == t0,
                sp_call_nested(av, 0, g0) == Ok::<_, CErr>(ga),
                sp_call_plain(av, 0, ga) == sp_call_plain(av, i as int, gen.gv()),
            decreases args.len() - i,
        {
            proof {
                lemma_exprs_view_index(args@, i as int);
            }
            match &args[i] {
                Expr::AddressOf(_) => {
                    gen_expr(&args[i], gen)?;
                    if i >= 6 {
                        return Err(CompileError::TooManyArguments);
                    }
                    gen.emit_name("    mov ", reg64_of(i), ", rax\n");
                },
                Expr::Variable(var_name) => {
                    gen_expr(&args[i], gen)?;
                    let var = get_scope_variable(gen, var_name.as_str())?;
                    if i >= 6 {
                        return Err(CompileError::TooManyArguments);
                    }
                    match &var.var_type {
                        Type::Array(_, _) => gen.emit_name("    mov ", reg64_of(i), ", rax\n"),
                        _ => gen.emit_name("    mov ", reg32_of(i), ", eax\n"),
                    }
                },
                Expr::Call(_, _) => {},
                _ => {
                    gen_expr(&args[i], gen)?;
                    if i >= 6 {
                        return Err(CompileError::TooManyArguments);
                    }
                    gen.emit_name("    mov ", reg32_of(i), ", eax\n");
                },
            }
            i = i + 1;
        }
    }
    if str_eq(name.as_str(), "printf") || str_eq(name.as_str(), "sprintf") {
        gen.emit_str("    xor eax, eax\n");
    }
    gen.emit_name("    call ", name.as_str(), "\n");
    Ok(())
}

/// The layout of a structure's fields: each takes its size below the previous stack
/// offset. Gives the fields with their offsets and the stack offset after them.
pub open spec fn sp_struct_layout(fields: Seq<SStatement>, i: int, stack: int, acc: Seq<StructField>) -> Result<(Seq<StructField>, int), CErr>
    decreases fields.len() - i,
{
    if i < 0 || i >= fields.len() {
        Ok((acc, stack))
    } else {
        match fields[i] {
            SStatement::Declaration(t, fname, _) => match sp_size(t) {
                Err(e) => Err(e),
                Ok(sz) => {
                    let s2 = stack - sz;
                    if s2 < i64::MIN || s2 > i64::MAX {
                        Err(CErr::ArithmeticOverflow)
                    } else {
                        sp_struct_layout(fields, i + 1, s2, acc.push(StructField { var_type: t, name: fname, offset: s2 as i64 }))
                    }
                },
            },
            _ => Err(CErr::FieldNotDeclaration),
        }
    }
}

/// The label numbered `n` as a line of its own.
pub open spec fn label_line(n: int) -> Seq<char> {
    nline(".L"@, n, ":\n"@)
}

/// The condition test of an `if`.
pub open spec fn sp_if_condition(cond: SExpr, g: GS) -> Result<GS, CErr> {
    match cond {
        SExpr::Variable(name) => match sp_lookup(g, name@) {
            Err(e) => Err(e),
            Ok(v) => Ok(emit(g, nline("    cmp BYTE PTR [rbp "@, v.offset as int, "], 0\n"@))),
        },
        SExpr::IntLiteral(n) => Ok(emit(emit(g, nline("    mov eax, "@, n as int, "\n"@)), "    cmp eax, 0\n"@)),
        SExpr::Binary(_, _, _) => sp_gen_expr(cond, g),
        _ => Err(CErr::InvalidIfCondition),
    }
}

/// The end of a `while` loop after its condition: the target of a pending `break`, if
/// any, and the loop's entries dropped.
pub open spec fn while_end(g: GS) -> GS {
    let g1 = if g.breaks.len() > 0 {
        emit(GS { breaks: g.breaks.drop_last(), ..g }, nline(".L"@, g.breaks.last() as int, " :\n"@))
    } else {
        g
    };
    let g2 = GS {
        loops: if g1.loops.len() > 0 { g1.loops.drop_last() } else { g1.loops },
        conds: if g1.conds.len() > 0 { g1.conds.drop_last() } else { g1.conds },
        ..g1
    };
    pop_scope(g2)
}

/// `gen_statement`
pub open spec fn sp_gen_stmt(st: SStatement, g: GS) -> Result<GS, CErr>
    decreases st, 0int,
{
    match st {
        SStatement::Return(e) => match sp_gen_expr(e, g) {
            Err(e) => Err(e),
            Ok(g1) => Ok(emit(emit(emit(g1, "    mov rsp, rbp\n"@), "    pop rbp\n"@), "    ret"@)),
        },
        SStatement::Declaration(t, name, e) => match sp_gen_expr(e, g) {
            Err(e) => Err(e),
            Ok(g1) => match sp_size(t) {
                Err(e) => Err(e),
                Ok(sz) => {
                    let off = g1.stack - sz;
                    if off < i64::MIN || off > i64::MAX {
                        Err(CErr::ArithmeticOverflow)
                    } else {
                        let g2 = define(GS { stack: off, ..g1 }, name@, SVar { offset: off as i64, var_type: t, fields: Seq::empty() });
                        if e is Empty {
                            Ok(g2)
                        } else {
                            Ok(sp_store_type(g2, t, off as i64))
                        }
                    }
                },
            },
        },
        SStatement::Call(name, args) => sp_gen_call(name@, args, g),
        SStatement::Reassign(target, e) => match target {
            SExpr::Variable(name) => match sp_gen_expr(e, g) {
                Err(e) => Err(e),
                Ok(g1) => match sp_lookup(g1, name@) {
                    Err(e) => Err(e),
                    Ok(v) => Ok(emit(g1, nline("    mov [rbp "@, v.offset as int, "], eax\n"@))),
                },
            },
            SExpr::Struct(instance, field) => match sp_gen_expr(e, g) {
                Err(e) => Err(e),
                Ok(g1) => match sp_struct_fields_of(g1, instance@) {
                    Err(e) => Err(e),
                    Ok(fields) => Ok(sp_field_stores(g1, fields, field@)),
                },
            },
            _ => Err(CErr::CannotReassign { target }),
        },
        SStatement::If(cond, body, idx) => match sp_if_condition(cond, push_scope(g)) {
            Err(e) => Err(e),
            Ok(g1) => match sp_gen_stmts(body, 0, emit(g1, nline("    je .L"@, idx as int, "\n"@))) {
                Err(e) => Err(e),
                Ok(g2) => Ok(pop_scope(emit(g2, label_line(idx as int)))),
            },
        },
        SStatement::Else(body, idx) => {
            if g.body.len() == 0 {
                Err(CErr::ElseWithoutCode)
            } else {
                let g1 = GS { body: g.body.insert(g.body.len() - 1, nline("    jmp .L"@, idx as int, "\n"@)), ..g };
                match sp_gen_stmts(body, 0, push_scope(g1)) {
                    Err(e) => Err(e),
                    Ok(g2) => Ok(emit(pop_scope(g2), label_line(idx as int))),
                }
            }
        },
        SStatement::While(cond, body, idx) => {
            let g1 = emit(push_scope(GS { loops: g.loops.push(true), ..g }), nline("    jmp .L"@, idx as int, "\n"@));
            let g2 = GS { conds: g1.conds.push(idx), ..g1 };
            if g2.labels + 1 > i64::MAX {
                Err(CErr::ArithmeticOverflow)
            } else {
                let second = g2.labels;
                let g3 = emit(GS { labels: g2.labels + 1, ..g2 }, label_line(second));
                match sp_gen_stmts(body, 0, g3) {
                    Err(e) => Err(e),
                    Ok(g4) => match sp_gen_expr(cond, emit(g4, label_line(idx as int))) {
                        Err(e) => Err(e),
                        Ok(g5) => Ok(while_end(emit(g5, nline("    jne .L"@, second, "\n"@)))),
                    },
                }
            }
        },
        SStatement::Struct(name, fields) => match sp_struct_layout(fields, 0, g.stack, Seq::empty()) {
            Err(e) => Err(e),
            Ok((list, stack2)) => Ok(define(GS { stack: stack2, ..g }, name@, SVar { offset: stack2 as i64, var_type: Type::Struct(name), fields: list })),
        },
        SStatement::BlockScope(stmts) => match sp_gen_stmts(stmts, 0, push_scope(g)) {
            Err(e) => Err(e),
            Ok(g1) => Ok(pop_scope(g1)),
        },
        SStatement::Break(idx) => {
            if g.loops.len() == 0 {
                Err(CErr::BreakOutsideLoop)
            } else {
                Ok(emit(GS { breaks: g.breaks.push(idx), ..g }, nline("    jmp .L"@, idx as int, "\n"@)))
            }
        },
        SStatement::Continue => {
            if g.conds.len() == 0 {
                Err(CErr::ContinueOutsideLoop)
            } else {
                Ok(emit(GS { conds: g.conds.drop_last(), ..g }, nline("    jmp .L"@, g.conds.last() as int, "\n"@)))
            }
        },
        SStatement::Unknown => Ok(g),
    }
}

/// The statements from `i` on, in order.
pub open spec fn sp_gen_stmts(ss: Seq<SStatement>, i: int, g: GS) -> Result<GS, CErr>
    decreases ss, ss.len() - i,
{
    if i < 0 || i >= ss.len() {
        Ok(g)
    } else {
        match sp_gen_stmt(ss[i], g) {
            Err(e) => Err(e),
            Ok(g1) => sp_gen_stmts(ss, i + 1, g1),
        }
    }
}

/// A copy of an expression.
pub fn copy_expr(e: &Expr) -> (r: Expr)
    ensures
        expr_view(r) == expr_view(*e),
    decreases *e, 0int,
{
    match e {
        Expr::IntLiteral(n) => Expr::IntLiteral(*n),
        Expr::CharLiteral(c) => Expr::CharLiteral(*c),
        Expr::StringLiteral(s, i) => Expr::StringLiteral(s.clone(), *i),
        Expr::BoolLiteral(b) => Expr::BoolLiteral(*b),
        Expr::Variable(n) => Expr::Variable(n.clone()),
        Expr::Binary(l, op, r) => Expr::Binary(Box::new(copy_expr(l)), *op, Box::new(copy_expr(r))),
        Expr::Call(n, args) => Expr::Call(n.clone(), copy_exprs(args)),
        Expr::Dereference(n) => Expr::Dereference(n.clone()),
        Expr::AddressOf(n) => Expr::AddressOf(n.clone()),
        Expr::Struct(a, b) => Expr::Struct(a.clone(), b.clone()),
        Expr::SizeofType(t) => Expr::SizeofType(copy_type(t)),
        Expr::SizeofVar(n) => Expr::SizeofVar(n.clone()),
        Expr::Empty => Expr::Empty,
        Expr::Unknown => Expr::Unknown,
    }
}

/// A copy of a list of expressions.
pub fn copy_exprs(v: &Vec<Expr>) -> (r: Vec<Expr>)
    ensures
        exprs_view(r@) == exprs_view(v@),
    decreases *v, 1int,
{
    let mut r: Vec<Expr> = Vec::new();
    let mut i: usize = 0;
    assert(exprs_view(r@) =~= exprs_view(v@.take(0)));
    while i < v.len()
        invariant
            i <= v@.len(),
            exprs_view(r@) == exprs_view(v@.take(i as int)),
        decreases v.len() - i,
    {
        let c = copy_expr(&v[i]);
        let ghost before = r@;
        r.push(c);
        proof {
            crate::ast::lemma_exprs_view_push(before, c);
            crate::ast::lemma_exprs_view_push(v@.take(i as int), v@[i as int]);
            assert(v@.take(i as int).push(v@[i as int]) =~= v@.take(i + 1));
        }
        i = i + 1;
    }
    assert(v@.take(v.len() as int) =~= v@);
    r
}

impl CodeGen {
    /// Opens a new innermost scope.
    pub fn push_scope(&mut self)
        requires
            old(self).wf(),
        ensures
            final(self).gv() == push_scope(old(self).gv()),
            final(self).wf(),
            final(self).table.scope_starts@ == old(self).table.scope_starts@.push(old(self).table.entries@.len() as usize),
            final(self).table.entries@ == old(self).table.entries@,
    {
        let n = self.table.entries.len();
        let ghost before = self.table.scope_starts@;
        self.table.scope_starts.push(n);
        assert(starts_view(self.table.scope_starts@) =~= starts_view(before).push(n as int));
    }

    /// Closes the innermost scope and forgets its definitions.
    pub fn pop_scope(&mut self)
        requires
            old(self).wf(),
            old(self).table.scope_starts@.len() >= 2,
        ensures
            final(self).gv() == pop_scope(old(self).gv()),
            final(self).wf(),
            final(self).table.scope_starts@ == old(self).table.scope_starts@.drop_last(),
    {
        let ghost before = self.table.scope_starts@;
        let ghost entries_before = self.table.entries@;
        let start = match self.table.scope_starts.pop() {
            Some(v) => v,
            None => 0,
        };
        self.table.entries.truncate(start);
        assert(starts_view(self.table.scope_starts@) =~= starts_view(before).drop_last());
        assert(entries_view(self.table.entries@) =~= entries_view(entries_before).take(start as int));
        assert(starts_view(before).last() == start as int);
    }

    /// Adds a definition to the innermost scope.
    pub fn define(&mut self, name: String, info: VarInfo)
        requires
            old(self).wf(),
        ensures
            final(self).gv() == define(old(self).gv(), name@, var_view(info)),
            final(self).wf(),
            final(self).table.scope_starts@ == old(self).table.scope_starts@,
    {
        let ghost before = self.table.entries@;
        self.table.entries.push((name, info));
        assert(entries_view(self.table.entries@) =~= entries_view(before).push((name@, var_view(info))));
    }
}

/// Writes the stores into the fields named `field_name`.
fn field_stores(gen: &mut CodeGen, fields: &Vec<StructField>, field_name: &String)
    ensures
        final(gen).gv() == sp_field_stores(old(gen).gv(), fields@, field_name@),
        final(gen).table == old(gen).table,
{
    let ghost g0 = gen.gv();
    let ghost t0 = gen.table;
    let mut i: usize = 0;
    assert(fields@.take(0) =~= Seq::<StructField>::empty());
    while i < fields.len()
        invariant
            i <= fields@.len(),
            g0 == old(gen).gv(),
            t0 == old(gen).table,
            gen.table == t0,
            sp_field_stores(g0, fields@.take(i as int), field_name@) == gen.gv(),
        decreases fields.len() - i,
    {
        assert(fields@.take(i + 1).drop_last() =~= fields@.take(i as int));
        if str_eq(fields[i].name.as_str(), field_name.as_str()) {
            store_type(&fields[i].var_type, fields[i].offset, gen);
        }
        i = i + 1;
    }
    assert(fields@.take(fields.len() as int) =~= fields@);
}

/// Writes the test of an `if` condition.
fn if_condition(condition: &Expr, gen: &mut CodeGen) -> (r: Result<(), CompileError>)
    ensures
        match r {
            Ok(_) => sp_if_condition(expr_view(*condition), old(gen).gv()) == Ok::<_, CErr>(final(gen).gv()),
            Err(e) => is_cerr(sp_if_condition(expr_view(*condition), old(gen).gv()), cerr_view(e)),
        },
        final(gen).table == old(gen).table,
{
    match condition {
        Expr::Variable(name) => {
            let var = get_scope_variable(gen, name.as_str())?;
            gen.emit_num("    cmp BYTE PTR [rbp ", var.offset, "], 0\n");
            Ok(())
        },
        Expr::IntLiteral(integer) => {
            gen.emit_num("    mov eax, ", *integer, "\n");
            gen.emit_str("    cmp eax, 0\n");
            Ok(())
        },
        Expr::Binary(_, _, _) => gen_expr(condition, gen),
        _ => Err(CompileError::InvalidIfCondition),
    }
}

/// Writes a declaration.
fn gen_declaration(statement: &Statement, gen: &mut CodeGen) -> (r: Result<(), CompileError>)
    requires
        old(gen).wf(),
        statement is Declaration,
    ensures
        match r {
            Ok(_) => sp_gen_stmt(stmt_view(*statement), old(gen).gv()) == Ok::<_, CErr>(final(gen).gv())
                && final(gen).wf() && final(gen).table.scope_starts@ == old(gen).table.scope_starts@,
            Err(e) => is_cerr(sp_gen_stmt(stmt_view(*statement), old(gen).gv()), cerr_view(e)),
        },
{
    match statement {
        Statement::Declaration(var_type, name, expr) => {
            gen_expr(expr, gen)?;
            let size = size_of(var_type)?;
            let offset = match gen.table.stack_offset.checked_sub(size) {
                Some(v) => v,
                None => {
                    return Err(CompileError::ArithmeticOverflow);
                },
            };
            gen.table.stack_offset = offset;
            gen.define(name.clone(), VarInfo { offset: offset, var_type: copy_type(var_type), struct_fields: Vec::new() });
            if !matches!(expr, Expr::Empty) {
                store_type(var_type, offset, gen);
            }
            Ok(())
        },
        _ => Ok(()),
    }
}

/// Writes an assignment.
fn gen_reassign(statement: &Statement, gen: &mut CodeGen) -> (r: Result<(), CompileError>)
    requires
        old(gen).wf(),
        statement is Reassign,
    ensures
        match r {
            Ok(_) => sp_gen_stmt(stmt_view(*statement), old(gen).gv()) == Ok::<_, CErr>(final(gen).gv())
                && final(gen).wf() && final(gen).table.scope_starts@ == old(gen).table.scope_starts@,
            Err(e) => is_cerr(sp_gen_stmt(stmt_view(*statement), old(gen).gv()), cerr_view(e)),
        },
{
    match statement {
        Statement::Reassign(variable, expr) => match variable {
            Expr::Variable(name) => {
                gen_expr(expr, gen)?;
                let var = get_scope_variable(gen, name.as_str())?;
                gen.emit_num("    mov [rbp ", var.offset, "], eax\n");
                Ok(())
            },
            Expr::Struct(instance_name, field_name) => {
                gen_expr(expr, gen)?;
                let fields = struct_fields_of(gen, instance_name)?;
                field_stores(gen, &fields, field_name);
                Ok(())
            },
            _ => Err(CompileError::CannotReassign { target: copy_expr(variable) }),
        },
        _ => Ok(()),
    }
}

/// Writes a structure definition: its fields are laid out below the stack offset.
fn gen_struct(statement: &Statement, gen: &mut CodeGen) -> (r: Result<(), CompileError>)
    requires
        old(gen).wf(),
        statement is Struct,
    ensures
        match r {
            Ok(_) => sp_gen_stmt(stmt_view(*statement), old(gen).gv()) == Ok::<_, CErr>(final(gen).gv())
                && final(gen).wf() && final(gen).table.scope_starts@ == old(gen).table.scope_starts@,
            Err(e) => is_cerr(sp_gen_stmt(stmt_view(*statement), old(gen).gv()), cerr_view(e)),
        },
{
    match statement {
        Statement::Struct(name, fields) => {
            let ghost fv = stmts_view(fields@);
            let ghost g0 = gen.gv();
            proof {
                crate::ast::lemma_stmts_view_len(fields@);
            }
            let mut stack = gen.table.stack_offset;
            let mut fields_offset: Vec<StructField> = Vec::new();
            let mut i: usize = 0;
            while i < fields.len()
                invariant
                    i <= fields@.len(),
                    fv == stmts_view(fields@),
                    fv.len() == fields@.len(),
                    stmt_view(*statement) == SStatement::Struct(*name, fv),
                    g0 == old(gen).gv(),
                    gen.gv() == g0,
                    gen.table == old(gen).table,
                    sp_struct_layout(fv, 0, g0.stack, Seq::empty()) == sp_struct_layout(fv, i as int, stack as int, fields_offset@),
                decreases fields.len() - i,
            {
                proof {
                    lemma_stmts_view_index(fields@, i as int);
                }
                match &fields[i] {
                    Statement::Declaration(var_type, field_name, _) => {
                        let size = size_of(var_type)?;
                        stack = match stack.checked_sub(size) {
                            Some(v) => v,
                            None => {
                                return Err(CompileError::ArithmeticOverflow);
                            },
                        };
                        fields_offset.push(StructField { var_type: copy_type(var_type), name: field_name.clone(), offset: stack });
                    },
                    _ => {
                        return Err(CompileError::FieldNotDeclaration);
                    },
                }
                i = i + 1;
            }
            gen.table.stack_offset = stack;
            gen.define(name.clone(), VarInfo { offset: stack, var_type: Type::Struct(name.clone()), struct_fields: fields_offset });
            Ok(())
        },
        _ => Ok(()),
    }
}

/// Writes an `if`.
fn gen_if(statement: &Statement, gen: &mut CodeGen) -> (r: Result<(), CompileError>)
    requires
        old(gen).wf(),
        statement is If,
    ensures
        match r {
            Ok(_) => sp_gen_stmt(stmt_view(*statement), old(gen).gv()) == Ok::<_, CErr>(final(gen).gv())
                && final(gen).wf() && final(gen).table.scope_starts@ == old(gen).table.scope_starts@,
            Err(e) => is_cerr(sp_gen_stmt(stmt_view(*statement), old(gen).gv()), cerr_view(e)),
        },
    decreases *statement, 0int,
{
    match statement {
        Statement::If(condition, statement_body, index) => {
            gen.push_scope();
            if_condition(condition, gen)?;
            gen.emit_num("    je .L", *index, "\n");
            gen_statements(statement_body, gen)?;
            gen.emit_num(".L", *index, ":\n");
            gen.pop_scope();
            Ok(())
        },
        _ => Ok(()),
    }
}

/// Writes an `else`: a jump over it goes in before the last line written.
fn gen_else(statement: &Statement, gen: &mut CodeGen) -> (r: Result<(), CompileError>)
    requires
        old(gen).wf(),
        statement is Else,
    ensures
        match r {
            Ok(_) => sp_gen_stmt(stmt_view(*statement), old(gen).gv()) == Ok::<_, CErr>(final(gen).gv())
                && final(gen).wf() && final(gen).table.scope_starts@ == old(gen).table.scope_starts@,
            Err(e) => is_cerr(sp_gen_stmt(stmt_view(*statement), old(gen).gv()), cerr_view(e)),
        },
    decreases *statement, 0int,
{
    match statement {
        Statement::Else(body, index) => {
            if gen.body.len() == 0 {
                return Err(CompileError::ElseWithoutCode);
            }
            let at = gen.body.len() - 1;
            let line = num_line("    jmp .L", *index, "\n");
            let ghost before = gen.body@;
            let ghost lv = line@;
            gen.body.insert(at, line);
            assert(lines_view(gen.body@) =~= lines_view(before).insert(at as int, lv));
            gen.push_scope();
            gen_statements(body, gen)?;
            gen.pop_scope();
            gen.emit_num(".L", *index, ":\n");
            Ok(())
        },
        _ => Ok(()),
    }
}

/// Writes a `while` loop: a jump to the condition, the body under a new label, the
/// condition, and a jump back while it holds.
fn gen_while(statement: &Statement, gen: &mut CodeGen) -> (r: Result<(), CompileError>)
    requires
        old(gen).wf(),
        statement is While,
    ensures
        match r {
            Ok(_) => sp_gen_stmt(stmt_view(*statement), old(gen).gv()) == Ok::<_, CErr>(final(gen).gv())
                && final(gen).wf() && final(gen).table.scope_starts@ == old(gen).table.scope_starts@,
            Err(e) => is_cerr(sp_gen_stmt(stmt_view(*statement), old(gen).gv()), cerr_view(e)),
        },
    decreases *statement, 0int,
{
    match statement {
        Statement::While(condition, statement_body, index) => {
            gen.loop_check.push(true);
            gen.push_scope();
            gen.emit_num("    jmp .L", *index, "\n");
            gen.cond_check_locs.push(*index);
            if gen.label_index == i64::MAX {
                return Err(CompileError::ArithmeticOverflow);
            }
            let second_index = gen.label_index;
            gen.label_index = second_index + 1;
            gen.emit_num(".L", second_index, ":\n");
            gen_statements(statement_body, gen)?;
            gen.emit_num(".L", *index, ":\n");
            gen_expr(condition, gen)?;
            gen.emit_num("    jne .L", second_index, "\n");
            match gen.break_idx_vec.pop() {
                Some(break_idx) => gen.emit_num(".L", break_idx, " :\n"),
                None => {},
            }
            gen.loop_check.pop();
            gen.cond_check_locs.pop();
            gen.pop_scope();
            Ok(())
        },
        _ => Ok(()),
    }
}

/// Writes a block.
fn gen_block(statement: &Statement, gen: &mut CodeGen) -> (r: Result<(), CompileError>)
    requires
        old(gen).wf(),
        statement is BlockScope,
    ensures
        match r {
            Ok(_) => sp_gen_stmt(stmt_view(*statement), old(gen).gv()) == Ok::<_, CErr>(final(gen).gv())
                && final(gen).wf() && final(gen).table.scope_starts@ == old(gen).table.scope_starts@,
            Err(e) => is_cerr(sp_gen_stmt(stmt_view(*statement), old(gen).gv()), cerr_view(e)),
        },
    decreases *statement, 0int,
{
    match statement {
        Statement::BlockScope(statements) => {
            gen.push_scope();
            gen_statements(statements, gen)?;
            gen.pop_scope();
            Ok(())
        },
        _ => Ok(()),
    }
}

/// Writes a statement.
pub fn gen_statement(statement: &Statement, gen: &mut CodeGen) -> (r: Result<(), CompileError>)
    requires
        old(gen).wf(),
    ensures
        match r {
            Ok(_) => sp_gen_stmt(stmt_view(*statement), old(gen).gv()) == Ok::<_, CErr>(final(gen).gv())
                && final(gen).wf() && final(gen).table.scope_starts@ == old(gen).table.scope_starts@,
            Err(e) => is_cerr(sp_gen_stmt(stmt_view(*statement), old(gen).gv()), cerr_view(e)),
        },
        r is Err && (*statement is Break || *statement is Continue) ==> *final(gen) == *old(gen),
    decreases *statement, 1int,
{
    match statement {
        Statement::Return(expr) => {
            gen_expr(expr, gen)?;
            gen.emit_str("    mov rsp, rbp\n");
            gen.emit_str("    pop rbp\n");
            gen.emit_str("    ret");
            Ok(())
        },
        Statement::Declaration(_, _, _) => gen_declaration(statement, gen),
        Statement::Call(name, args) => gen_call(name, args, gen),
        Statement::Reassign(_, _) => gen_reassign(statement, gen),
        Statement::If(_, _, _) => gen_if(statement, gen),
        Statement::Else(_, _) => gen_else(statement, gen),
        Statement::While(_, _, _) => gen_while(statement, gen),
        Statement::Struct(_, _) => gen_struct(statement, gen),
        Statement::BlockScope(_) => gen_block(statement, gen),
        Statement::Break(idx) => {
            if gen.loop_check.len() == 0 {
                return Err(CompileError::BreakOutsideLoop);
            }
            gen.break_idx_vec.push(*idx);
            gen.emit_num("    jmp .L", *idx, "\n");
            Ok(())
        },
        Statement::Continue => {
            if gen.cond_check_locs.len() == 0 {
                return Err(CompileError::ContinueOutsideLoop);
            }
            match gen.cond_check_locs.pop() {
                Some(cond_loc) => {
                    gen.emit_num("    jmp .L", cond_loc, "\n");
                    Ok(())
                },
                None => Err(CompileError::ContinueOutsideLoop),
            }
        },
        Statement::Unknown => Ok(()),
    }
}

/// Writes statements in order.
pub fn gen_statements(statements: &Vec<Statement>, gen: &mut CodeGen) -> (r: Result<(), CompileError>)
    requires
        old(gen).wf(),
    ensures
        match r {
            Ok(_) => sp_gen_stmts(stmts_view(statements@), 0, old(gen).gv()) == Ok::<_, CErr>(final(gen).gv())
                && final(gen).wf() && final(gen).table.scope_starts@ == old(gen).table.scope_starts@,
            Err(e) => is_cerr(sp_gen_stmts(stmts_view(statements@), 0, old(gen).gv()), cerr_view(e)),
        },
    decreases *statements, 2int,
{
    let ghost sv = stmts_view(statements@);
    let ghost g0 = gen.gv();
    proof {
        crate::ast::lemma_stmts_view_len(statements@);
    }
    let mut i: usize = 0;
    while i < statements.len()
        invariant
            i <= statements@.len(),
            sv == stmts_view(statements@),
            sv.len() == statements@.len(),
            g0 == old(gen).gv(),
            gen.wf(),
            gen.table.scope_starts@ == old(gen).table.scope_starts@,
            sp_gen_stmts(sv, 0, g0) == sp_gen_stmts(sv, i as int, gen.gv()),
        decreases statements.len() - i,
    {
        proof {
            lemma_stmts_view_index(statements@, i as int);
        }
        gen_statement(&statements[i], gen)?;
        i = i + 1;
    }
    Ok(())
}

/// The frame size reserved for a function whose variables reach down to `stack`: the
/// space below the frame pointer rounded up to a multiple of 16.
pub open spec fn frame_size(stack: int) -> int {
    let t = -stack + 15;
    t - t % 16
}

/// `x & !15` keeps `x` rounded down to a multiple of 16.
proof fn lemma_align16(t: i64)
    ensures
        (t & !15i64) as int == t - t % 16,
{
    assert((t & 15i64) == t % 16) by (bit_vector);
    assert((t & !15i64) == t - (t & 15i64)) by (bit_vector);
}

/// The first lines of a function's header: its symbol and the frame pointer set up.
pub open spec fn function_header(name: Seq<char>) -> Seq<char> {
    "\n.global "@ + name + "\n"@ + name + ":\n    push rbp\n    mov rbp, rsp\n"@
}

/// The state in which a function's generation starts: one empty scope, nothing on the
/// stack, the header begun, no lines, a fresh context. Labels, loops and finished
/// functions carry over.
pub open spec fn fresh_function(g: GS, name: Seq<char>) -> GS {
    GS {
        entries: Seq::empty(),
        starts: seq![0int],
        stack: 0,
        header: function_header(name),
        body: Seq::empty(),
        in_bin: false,
        ptr_in_bin: false,
        call_ctx: Seq::empty(),
        ret_ctx: None,
        ..g
    }
}

/// The parameters from `i` on: each gets its place below the previous one and the line
/// that stores its register there.
pub open spec fn sp_gen_args(args: Seq<FunctionArgDeclaration>, i: int, g: GS) -> Result<GS, CErr>
    decreases args.len() - i,
{
    if i < 0 || i >= args.len() {
        Ok(g)
    } else {
        let t = args[i].var_type;
        match sp_size(t) {
            Err(e) => Err(e),
            Ok(sz) => {
                let off = g.stack - sz;
                if off < i64::MIN || off > i64::MAX {
                    Err(CErr::ArithmeticOverflow)
                } else {
                    let g1 = define(GS { stack: off, ..g }, args[i].name@, SVar { offset: off as i64, var_type: t, fields: Seq::empty() });
                    let line = match t {
                        Type::Char => Ok(sline(nline("    mov BYTE PTR [rbp "@, off, "], "@), reg8(i), "\n"@)),
                        Type::Int => Ok(sline(nline("    mov [rbp "@, off, "], "@), reg32(i), "\n"@)),
                        Type::Pointer(_) => Ok(sline(nline("    mov QWORD PTR [rbp "@, off, "], "@), reg64(i), "\n"@)),
                        _ => Err(CErr::ArgumentTypeNotImplemented),
                    };
                    match line {
                        Err(e) => Err(e),
                        Ok(l) => if i >= 6 {
                            Err(CErr::TooManyArguments)
                        } else {
                            sp_gen_args(args, i + 1, emit(g1, l))
                        },
                    }
                }
            },
        }
    }
}

/// `gen_function`: the parameters, then the body, then the frame size added to the
/// header, and the function appended to the finished ones.
pub open spec fn sp_gen_function(f: SFunction, g: GS) -> Result<GS, CErr> {
    match sp_gen_args(f.args, 0, fresh_function(g, f.name@)) {
        Err(e) => Err(e),
        Ok(g1) => match sp_gen_stmts(f.body, 0, g1) {
            Err(e) => Err(e),
            Ok(g2) => if -g2.stack + 16 > i64::MAX {
                Err(CErr::ArithmeticOverflow)
            } else {
                let header = g2.header + nline("    sub rsp, "@, frame_size(g2.stack), "\n\n"@);
                Ok(GS { text: g2.text.push((header, g2.body)), header: Seq::empty(), body: Seq::empty(), ..g2 })
            },
        },
    }
}

/// Writes the stores of the parameters into their places.
fn gen_args(args: &Vec<FunctionArgDeclaration>, gen: &mut CodeGen) -> (r: Result<(), CompileError>)
    requires
        old(gen).wf(),
    ensures
        match r {
            Ok(_) => sp_gen_args(args@, 0, old(gen).gv()) == Ok::<_, CErr>(final(gen).gv())
                && final(gen).wf() && final(gen).table.scope_starts@ == old(gen).table.scope_starts@,
            Err(e) => is_cerr(sp_gen_args(args@, 0, old(gen).gv()), cerr_view(e)),
        },
{
    let ghost g0 = gen.gv();
    let mut i: usize = 0;
    while i < args.len()
        invariant
            i <= args@.len(),
            g0 == old(gen).gv(),
            gen.wf(),
            gen.table.scope_starts@ == old(gen).table.scope_starts@,
            sp_gen_args(args@, 0, g0) == sp_gen_args(args@, i as int, gen.gv()),
        decreases args.len() - i,
    {
        let arg = &args[i];
        let size = match checked_offset(&arg.var_type) {
            Some(v) => v,
            None => return Err(CompileError::ArithmeticOverflow),
        };
        let off = match gen.table.stack_offset.checked_sub(size) {
            Some(v) => v,
            None => return Err(CompileError::ArithmeticOverflow),
        };
        gen.table.stack_offset = off;
        gen.define(arg.name.clone(), VarInfo { offset: off, var_type: copy_type(&arg.var_type), struct_fields: Vec::new() });
        let line = match &arg.var_type {
            Type::Char => {
                if i >= 6 {
                    return Err(CompileError::TooManyArguments);
                }
                let head = num_line("    mov BYTE PTR [rbp ", off, "], ");
                concat3(head.as_str(), reg8_of(i), "\n")
            },
            Type::Int => {
                if i >= 6 {
                    return Err(CompileError::TooManyArguments);
                }
                let head = num_line("    mov [rbp ", off, "], ");
                concat3(head.as_str(), reg32_of(i), "\n")
            },
            Type::Pointer(_) => {
                if i >= 6 {
                    return Err(CompileError::TooManyArguments);
                }
                let head = num_line("    mov QWORD PTR [rbp ", off, "], ");
                concat3(head.as_str(), reg64_of(i), "\n")
            },
            _ => return Err(CompileError::ArgumentTypeNotImplemented),
        };
        gen.emit(line);
        i = i + 1;
    }
    Ok(())
}

/// Generates one function and appends it to the finished ones.
pub fn gen_function(function: &Function, gen: &mut CodeGen) -> (r: Result<(), CompileError>)
    ensures
        match r {
            Ok(_) => sp_gen_function(function_view(*function), old(gen).gv()) == Ok::<_, CErr>(final(gen).gv())
                && final(gen).wf(),
            Err(e) => is_cerr(sp_gen_function(function_view(*function), old(gen).gv()), cerr_view(e)),
        },
{
    let mut starts: Vec<usize> = Vec::new();
    starts.push(0);
    gen.table = VarTable { entries: Vec::new(), scope_starts: starts, stack_offset: 0 };
    gen.header = concat5("\n.global ", function.name.as_str(), "\n", function.name.as_str(), ":\n    push rbp\n    mov rbp, rsp\n");
    gen.body = Vec::new();
    gen.context = GenContext { in_a_binary: false, pointer_in_binary: false, call_context: String::new(), return_context: None };
    assert(entries_view(gen.table.entries@) =~= Seq::empty());
    assert(starts_view(gen.table.scope_starts@) =~= seq![0int]);
    assert(lines_view(gen.body@) =~= Seq::empty());
    assert(gen.gv() == fresh_function(old(gen).gv(), function.name@));
    gen_args(&function.args, gen)?;
    gen_statements(&function.body, gen)?;
    let stack = gen.table.stack_offset;
    if stack < 16 - i64::MAX {
        return Err(CompileError::ArithmeticOverflow);
    }
    let t: i64 = -stack + 15;
    let frame: i64 = t & !15i64;
    proof {
        lemma_align16(t);
    }
    let mut header = String::new();
    std::mem::swap(&mut header, &mut gen.header);
    let sub = num_line("    sub rsp, ", frame, "\n\n");
    header.append(sub.as_str());
    let mut body: Vec<String> = Vec::new();
    std::mem::swap(&mut body, &mut gen.body);
    let ghost text_before = gen.text@;
    let done = AssemblyStructureFunction { header, body };
    gen.text.push(done);
    assert(text_view(gen.text@) =~= text_view(text_before).push((done.header@, lines_view(done.body@))));
    assert(lines_view(gen.body@) =~= Seq::empty());
    Ok(())
}

/// The functions from `i` on, in order.
pub open spec fn sp_gen_functions(fs: Seq<SFunction>, i: int, g: GS) -> Result<GS, CErr>
    decreases fs.len() - i,
{
    if i < 0 || i >= fs.len() {
        Ok(g)
    } else {
        match sp_gen_function(fs[i], g) {
            Err(e) => Err(e),
            Ok(g1) => sp_gen_functions(fs, i + 1, g1),
        }
    }
}

/// The state in which a program's generation starts; label numbers continue from
/// `labels`.
pub open spec fn initial_state(labels: int) -> GS {
    GS {
        entries: Seq::empty(),
        starts: seq![0int],
        stack: 0,
        data: ".intel_syntax noprefix\n\n"@,
        text: Seq::empty(),
        header: Seq::empty(),
        body: Seq::empty(),
        in_bin: false,
        ptr_in_bin: false,
        call_ctx: Seq::empty(),
        ret_ctx: None,
        labels,
        breaks: Seq::empty(),
        loops: Seq::empty(),
        conds: Seq::empty(),
    }
}

/// Lines written one after the other.
pub open spec fn concat_lines(lines: Seq<Seq<char>>) -> Seq<char>
    decreases lines.len(),
{
    if lines.len() == 0 {
        Seq::empty()
    } else {
        concat_lines(lines.drop_last()) + lines.last()
    }
}

/// The finished functions as text: each one's header, its lines, and an empty line.
pub open spec fn render_text(text: Seq<(Seq<char>, Seq<Seq<char>>)>) -> Seq<char>
    decreases text.len(),
{
    if text.len() == 0 {
        Seq::empty()
    } else {
        render_text(text.drop_last()) + text.last().0 + concat_lines(text.last().1) + "\n"@
    }
}

/// The assembly file: the data section, an empty line, then the functions.
pub open spec fn assembly(g: GS) -> Seq<char> {
    g.data + "\n"@ + render_text(g.text)
}

/// `gen_program`: the assembly text of a program, or the error that stops its generation.
pub open spec fn sp_gen_program(fs: Seq<SFunction>, labels: int) -> Result<Seq<char>, CErr> {
    match sp_gen_functions(fs, 0, initial_state(labels)) {
        Err(e) => Err(e),
        Ok(g) => Ok(assembly(g)),
    }
}

/// Writes lines one after the other onto `out`.
fn append_lines(out: &mut String, lines: &Vec<String>)
    ensures
        final(out)@ == old(out)@ + concat_lines(lines_view(lines@)),
{
    let ghost start = out@;
    let mut j: usize = 0;
    while j < lines.len()
        invariant
            j <= lines@.len(),
            start == old(out)@,
            out@ == start + concat_lines(lines_view(lines@.take(j as int))),
        decreases lines.len() - j,
    {
        assert(lines_view(lines@.take(j + 1)).drop_last() =~= lines_view(lines@.take(j as int)));
        out.append(lines[j].as_str());
        j = j + 1;
    }
    assert(lines@.take(lines.len() as int) =~= lines@);
}

impl CodeGen {
    /// A generator at the start of a program, whose label numbers continue from
    /// `label_start`.
    pub fn new(label_start: i64) -> (gen: CodeGen)
        ensures
            gen.gv() == initial_state(label_start as int),
            gen.wf(),
    {
        let mut starts: Vec<usize> = Vec::new();
        starts.push(0);
        let gen = CodeGen {
            table: VarTable { entries: Vec::new(), scope_starts: starts, stack_offset: 0 },
            data: owned(".intel_syntax noprefix\n\n"),
            text: Vec::new(),
            header: String::new(),
            body: Vec::new(),
            context: GenContext { in_a_binary: false, pointer_in_binary: false, call_context: String::new(), return_context: None },
            label_index: label_start,
            break_idx_vec: Vec::new(),
            loop_check: Vec::new(),
            cond_check_locs: Vec::new(),
        };
        assert(entries_view(gen.table.entries@) =~= Seq::empty());
        assert(starts_view(gen.table.scope_starts@) =~= seq![0int]);
        assert(lines_view(gen.body@) =~= Seq::empty());
        assert(text_view(gen.text@) =~= Seq::empty());
        gen
    }
}

/// Generates the assembly of a whole program. Label numbers continue from `label_start`,
/// the first number the parser did not hand out.
pub fn gen_program(program: &Program, label_start: i64) -> (r: Result<String, CompileError>)
    ensures
        match r {
            Ok(s) => sp_gen_program(functions_view(program.functions@), label_start as int) == Ok::<_, CErr>(s@),
            Err(e) => is_cerr(sp_gen_program(functions_view(program.functions@), label_start as int), cerr_view(e)),
        },
{
    let mut gen = CodeGen::new(label_start);
    let ghost fv = functions_view(program.functions@);
    let ghost g0 = gen.gv();
    let mut i: usize = 0;
    while i < program.functions.len()
        invariant
            i <= program.functions@.len(),
            fv == functions_view(program.functions@),
            g0 == initial_state(label_start as int),
            sp_gen_functions(fv, 0, g0) == sp_gen_functions(fv, i as int, gen.gv()),
        decreases program.functions.len() - i,
    {
        gen_function(&program.functions[i], &mut gen)?;
        i = i + 1;
    }
    let ghost tv = text_view(gen.text@);
    let mut out = String::new();
    out.append(gen.data.as_str());
    out.append("\n");
    let mut k: usize = 0;
    while k < gen.text.len()
        invariant
            k <= gen.text@.len(),
            tv == text_view(gen.text@),
            out@ == gen.data@ + "\n"@ + render_text(tv.take(k as int)),
        decreases gen.text.len() - k,
    {
        assert(tv.take(k + 1).drop_last() =~= tv.take(k as int));
        out.append(gen.text[k].header.as_str());
        append_lines(&mut out, &gen.text[k].body);
        out.append("\n");
        k = k + 1;
    }
    assert(tv.take(gen.text.len() as int) =~= tv);
    Ok(out)
}

} // verus!
