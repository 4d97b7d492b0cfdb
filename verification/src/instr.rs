//! The instructions that the compiler emits and their assembly text.

use crate::text::{decimal, numeral, push_decimal, push_numeral};
use vstd::prelude::*;
use vstd::string::StringExecFns;

verus! {

/// A 64-bit register.
#[derive(Clone, Copy, PartialEq, Eq, Structural, Debug)]
pub enum Reg {
    Rax,
    Rbx,
    Rcx,
    Rdx,
    Rsi,
    Rdi,
    Rsp,
    Rbp,
    R14,
    R15,
}

/// A word in memory at `offset` bytes from the address in `reg`.
#[derive(Clone, Copy, PartialEq, Eq, Structural, Debug)]
pub struct MemRef {
    pub reg: Reg,
    pub offset: i32,
}

/// A jump target or the name of a place in the code.
#[derive(Clone, Copy, PartialEq, Eq, Structural, Debug)]
pub enum Label {
    OurCodeStartsHere,
    InvalidArgument,
    Overflow,
    SnekPrint,
    FunStart(u32),
    IfElse(u32),
    IfEnd(u32),
    LoopStart(u32),
    LoopEnd(u32),
}

/// An operand with an immediate of at most 32 bits.
#[derive(Clone, Copy, PartialEq, Eq, Structural, Debug)]
pub enum Arg32 {
    Reg(Reg),
    Imm(i32),
    Mem(MemRef),
}

/// An operand with an immediate of up to 64 bits.
#[derive(Clone, Copy, PartialEq, Eq, Structural, Debug)]
pub enum Arg64 {
    Reg(Reg),
    Imm(i64),
    Mem(MemRef),
}

/// A source that may be stored to memory: a register or a 32-bit immediate.
#[derive(Clone, Copy, PartialEq, Eq, Structural, Debug)]
pub enum Reg32 {
    Reg(Reg),
    Imm(i32),
}

/// A place that takes a result.
#[derive(Clone, Copy, PartialEq, Eq, Structural, Debug)]
pub enum Loc {
    Reg(Reg),
    Mem(MemRef),
}

/// The operands of a move.
#[derive(Clone, Copy, PartialEq, Eq, Structural, Debug)]
pub enum MovArgs {
    ToReg(Reg, Arg64),
    ToMem(MemRef, Reg32),
}

/// The operands of a two-operand arithmetic or test instruction.
#[derive(Clone, Copy, PartialEq, Eq, Structural, Debug)]
pub enum BinArgs {
    ToReg(Reg, Arg32),
    ToMem(MemRef, Reg32),
}

/// A conditional move and its condition.
#[derive(Clone, Copy, PartialEq, Eq, Structural, Debug)]
pub enum CMov {
    E(Reg, Arg64),
    Z(Reg, Arg64),
    G(Reg, Arg64),
    GE(Reg, Arg64),
    L(Reg, Arg64),
    LE(Reg, Arg64),
}

/// The target of a jump or a call.
#[derive(Clone, Copy, PartialEq, Eq, Structural, Debug)]
pub enum JmpArg {
    Label(Label),
    Reg(Reg),
}

/// One line of assembly.
#[derive(Clone, Copy, PartialEq, Eq, Structural, Debug)]
pub enum Instr {
    Label(Label),
    Mov(MovArgs),
    CMov(CMov),
    Add(BinArgs),
    Sub(BinArgs),
    IMul(BinArgs),
    And(BinArgs),
    Xor(BinArgs),
    Sar(BinArgs),
    Cmp(BinArgs),
    Test(BinArgs),
    Push(Arg32),
    Pop(Loc),
    Jmp(JmpArg),
    Je(JmpArg),
    Jnz(JmpArg),
    Jo(JmpArg),
    Call(JmpArg),
    Ret,
}

/// The operand `a` as a 64-bit operand.
pub open spec fn widen(a: Arg32) -> Arg64 {
    match a {
        Arg32::Reg(r) => Arg64::Reg(r),
        Arg32::Imm(n) => Arg64::Imm(n as i64),
        Arg32::Mem(m) => Arg64::Mem(m),
    }
}

/// The operand `a` as a 64-bit operand.
pub fn arg64(a: Arg32) -> (r: Arg64)
    ensures
        r == widen(a),
{
    match a {
        Arg32::Reg(r) => Arg64::Reg(r),
        Arg32::Imm(n) => Arg64::Imm(n as i64),
        Arg32::Mem(m) => Arg64::Mem(m),
    }
}

/// The name of a register.
pub open spec fn reg_text(r: Reg) -> Seq<char> {
    match r {
        Reg::Rax => "rax"@,
        Reg::Rbx => "rbx"@,
        Reg::Rcx => "rcx"@,
        Reg::Rdx => "rdx"@,
        Reg::Rsi => "rsi"@,
        Reg::Rdi => "rdi"@,
        Reg::Rsp => "rsp"@,
        Reg::Rbp => "rbp"@,
        Reg::R14 => "r14"@,
        Reg::R15 => "r15"@,
    }
}

/// The text of a memory operand: `[reg + n]` or `[reg - n]`.
pub open spec fn mem_text(m: MemRef) -> Seq<char> {
    if m.offset >= 0 {
        "["@ + reg_text(m.reg) + " + "@ + numeral(m.offset as nat, 10) + "]"@
    } else {
        "["@ + reg_text(m.reg) + " - "@ + numeral((-m.offset) as nat, 10) + "]"@
    }
}

/// The text of a label.
pub open spec fn label_text(l: Label) -> Seq<char> {
    match l {
        Label::OurCodeStartsHere => "our_code_starts_here"@,
        Label::InvalidArgument => "invalid_argument"@,
        Label::Overflow => "overflow"@,
        Label::SnekPrint => "snek_print"@,
        Label::FunStart(f) => "fun_start_"@ + numeral(f as nat, 10),
        Label::IfElse(t) => "if_else_"@ + numeral(t as nat, 10),
        Label::IfEnd(t) => "if_end_"@ + numeral(t as nat, 10),
        Label::LoopStart(t) => "loop_start_"@ + numeral(t as nat, 10),
        Label::LoopEnd(t) => "loop_end_"@ + numeral(t as nat, 10),
    }
}

/// The text of a 32-bit operand.
pub open spec fn arg32_text(a: Arg32) -> Seq<char> {
    match a {
        Arg32::Reg(r) => reg_text(r),
        Arg32::Imm(n) => decimal(n as int),
        Arg32::Mem(m) => "qword "@ + mem_text(m),
    }
}

/// The text of a 64-bit operand.
pub open spec fn arg64_text(a: Arg64) -> Seq<char> {
    match a {
        Arg64::Reg(r) => reg_text(r),
        Arg64::Imm(n) => decimal(n as int),
        Arg64::Mem(m) => "qword "@ + mem_text(m),
    }
}

/// The text of a source that is stored to memory.
pub open spec fn reg32_text(a: Reg32) -> Seq<char> {
    match a {
        Reg32::Reg(r) => reg_text(r),
        Reg32::Imm(n) => decimal(n as int),
    }
}

/// The text of a result place.
pub open spec fn loc_text(l: Loc) -> Seq<char> {
    match l {
        Loc::Reg(r) => reg_text(r),
        Loc::Mem(m) => "qword "@ + mem_text(m),
    }
}

/// The text of the operands of a move: destination, comma, source.
pub open spec fn mov_text(a: MovArgs) -> Seq<char> {
    match a {
        MovArgs::ToReg(r, s) => reg_text(r) + ", "@ + arg64_text(s),
        MovArgs::ToMem(m, s) => "qword "@ + mem_text(m) + ", "@ + reg32_text(s),
    }
}

/// The text of the operands of a two-operand instruction.
pub open spec fn bin_text(a: BinArgs) -> Seq<char> {
    match a {
        BinArgs::ToReg(r, s) => reg_text(r) + ", "@ + arg32_text(s),
        BinArgs::ToMem(m, s) => "qword "@ + mem_text(m) + ", "@ + reg32_text(s),
    }
}

/// The text of a conditional move.
pub open spec fn cmov_text(c: CMov) -> Seq<char> {
    match c {
        CMov::E(r, s) => "cmove "@ + reg_text(r) + ", "@ + arg64_text(s),
        CMov::Z(r, s) => "cmovz "@ + reg_text(r) + ", "@ + arg64_text(s),
        CMov::G(r, s) => "cmovg "@ + reg_text(r) + ", "@ + arg64_text(s),
        CMov::GE(r, s) => "cmovge "@ + reg_text(r) + ", "@ + arg64_text(s),
        CMov::L(r, s) => "cmovl "@ + reg_text(r) + ", "@ + arg64_text(s),
        CMov::LE(r, s) => "cmovle "@ + reg_text(r) + ", "@ + arg64_text(s),
    }
}

/// The text of a jump target.
pub open spec fn jmp_text(j: JmpArg) -> Seq<char> {
    match j {
        JmpArg::Label(l) => label_text(l),
        JmpArg::Reg(r) => reg_text(r),
    }
}

/// The text of an instruction, without a line end.
pub open spec fn instr_text(i: Instr) -> Seq<char> {
    match i {
        Instr::Label(l) => label_text(l) + ":"@,
        Instr::Mov(a) => "mov "@ + mov_text(a),
        Instr::CMov(c) => cmov_text(c),
        Instr::Add(a) => "add "@ + bin_text(a),
        Instr::Sub(a) => "sub "@ + bin_text(a),
        Instr::IMul(a) => "imul "@ + bin_text(a),
        Instr::And(a) => "and "@ + bin_text(a),
        Instr::Xor(a) => "xor "@ + bin_text(a),
        Instr::Sar(a) => "sar "@ + bin_text(a),
        Instr::Cmp(a) => "cmp "@ + bin_text(a),
        Instr::Test(a) => "test "@ + bin_text(a),
        Instr::Push(a) => "push "@ + arg32_text(a),
        Instr::Pop(l) => "pop "@ + loc_text(l),
        Instr::Jmp(j) => "jmp "@ + jmp_text(j),
        Instr::Je(j) => "je "@ + jmp_text(j),
        Instr::Jnz(j) => "jnz "@ + jmp_text(j),
        Instr::Jo(j) => "jo "@ + jmp_text(j),
        Instr::Call(j) => "call "@ + jmp_text(j),
        Instr::Ret => "ret"@,
    }
}

/// The text of the first `k` instructions, one to a line, with a line end
/// between two lines and none after the last.
pub open spec fn listing(instrs: Seq<Instr>, k: int) -> Seq<char>
    decreases k,
{
    if k <= 0 {
        Seq::<char>::empty()
    } else if k == 1 {
        instr_text(instrs[0])
    } else {
        listing(instrs, k - 1) + "\n"@ + instr_text(instrs[k - 1])
    }
}

/// Appends the name of a register.
pub fn push_reg(out: &mut String, r: Reg)
    ensures
        final(out)@ == old(out)@ + reg_text(r),
{
    match r {
        Reg::Rax => out.append("rax"),
        Reg::Rbx => out.append("rbx"),
        Reg::Rcx => out.append("rcx"),
        Reg::Rdx => out.append("rdx"),
        Reg::Rsi => out.append("rsi"),
        Reg::Rdi => out.append("rdi"),
        Reg::Rsp => out.append("rsp"),
        Reg::Rbp => out.append("rbp"),
        Reg::R14 => out.append("r14"),
        Reg::R15 => out.append("r15"),
    }
}

/// Appends the text of a memory operand.
pub fn push_mem(out: &mut String, m: MemRef)
    ensures
        final(out)@ == old(out)@ + mem_text(m),
{
    out.append("[");
    push_reg(out, m.reg);
    if m.offset >= 0 {
        out.append(" + ");
        push_numeral(out, m.offset as u64, 10);
    } else {
        out.append(" - ");
        let n: i64 = -(m.offset as i64);
        push_numeral(out, n as u64, 10);
    }
    out.append("]");
    assert(out@ =~= old(out)@ + mem_text(m));
}

/// Appends `prefix` and the decimal text of `n`.
fn push_numbered(out: &mut String, prefix: &str, n: u32)
    ensures
        final(out)@ == old(out)@ + (prefix@ + numeral(n as nat, 10)),
{
    out.append(prefix);
    push_numeral(out, n as u64, 10);
    assert(out@ =~= old(out)@ + (prefix@ + numeral(n as nat, 10)));
}

/// Appends the text of a label.
pub fn push_label(out: &mut String, l: Label)
    ensures
        final(out)@ == old(out)@ + label_text(l),
{
    match l {
        Label::OurCodeStartsHere => out.append("our_code_starts_here"),
        Label::InvalidArgument => out.append("invalid_argument"),
        Label::Overflow => out.append("overflow"),
        Label::SnekPrint => out.append("snek_print"),
        Label::FunStart(f) => push_numbered(out, "fun_start_", f),
        Label::IfElse(t) => push_numbered(out, "if_else_", t),
        Label::IfEnd(t) => push_numbered(out, "if_end_", t),
        Label::LoopStart(t) => push_numbered(out, "loop_start_", t),
        Label::LoopEnd(t) => push_numbered(out, "loop_end_", t),
    }
}

/// Appends `qword` and the text of a memory operand.
fn push_qword(out: &mut String, m: MemRef)
    ensures
        final(out)@ == old(out)@ + ("qword "@ + mem_text(m)),
{
    out.append("qword ");
    push_mem(out, m);
    assert(out@ =~= old(out)@ + ("qword "@ + mem_text(m)));
}

/// Appends the text of a 32-bit operand.
pub fn push_arg32(out: &mut String, a: Arg32)
    ensures
        final(out)@ == old(out)@ + arg32_text(a),
{
    match a {
        Arg32::Reg(r) => push_reg(out, r),
        Arg32::Imm(n) => push_decimal(out, n as i64),
        Arg32::Mem(m) => push_qword(out, m),
    }
}

/// Appends the text of a 64-bit operand.
pub fn push_arg64(out: &mut String, a: Arg64)
    ensures
        final(out)@ == old(out)@ + arg64_text(a),
{
    match a {
        Arg64::Reg(r) => push_reg(out, r),
        Arg64::Imm(n) => push_decimal(out, n),
        Arg64::Mem(m) => push_qword(out, m),
    }
}

/// Appends the text of a source that is stored to memory.
pub fn push_reg32(out: &mut String, a: Reg32)
    ensures
        final(out)@ == old(out)@ + reg32_text(a),
{
    match a {
        Reg32::Reg(r) => push_reg(out, r),
        Reg32::Imm(n) => push_decimal(out, n as i64),
    }
}

/// Appends the text of a result place.
pub fn push_loc(out: &mut String, l: Loc)
    ensures
        final(out)@ == old(out)@ + loc_text(l),
{
    match l {
        Loc::Reg(r) => push_reg(out, r),
        Loc::Mem(m) => push_qword(out, m),
    }
}

/// Appends the text of the operands of a move.
pub fn push_mov(out: &mut String, a: MovArgs)
    ensures
        final(out)@ == old(out)@ + mov_text(a),
{
    match a {
        MovArgs::ToReg(r, s) => {
            push_reg(out, r);
            out.append(", ");
            push_arg64(out, s);
        },
        MovArgs::ToMem(m, s) => {
            push_qword(out, m);
            out.append(", ");
            push_reg32(out, s);
        },
    }
    assert(out@ =~= old(out)@ + mov_text(a));
}

/// Appends the text of the operands of a two-operand instruction.
pub fn push_bin(out: &mut String, a: BinArgs)
    ensures
        final(out)@ == old(out)@ + bin_text(a),
{
    match a {
        BinArgs::ToReg(r, s) => {
            push_reg(out, r);
            out.append(", ");
            push_arg32(out, s);
        },
        BinArgs::ToMem(m, s) => {
            push_qword(out, m);
            out.append(", ");
            push_reg32(out, s);
        },
    }
    assert(out@ =~= old(out)@ + bin_text(a));
}

/// Appends a mnemonic, a register, a comma and a 64-bit operand.
fn push_cond(out: &mut String, name: &str, r: Reg, s: Arg64)
    ensures
        final(out)@ == old(out)@ + (name@ + reg_text(r) + ", "@ + arg64_text(s)),
{
    out.append(name);
    push_reg(out, r);
    out.append(", ");
    push_arg64(out, s);
    assert(out@ =~= old(out)@ + (name@ + reg_text(r) + ", "@ + arg64_text(s)));
}

/// Appends the text of a conditional move.
pub fn push_cmov(out: &mut String, c: CMov)
    ensures
        final(out)@ == old(out)@ + cmov_text(c),
{
    match c {
        CMov::E(r, s) => push_cond(out, "cmove ", r, s),
        CMov::Z(r, s) => push_cond(out, "cmovz ", r, s),
        CMov::G(r, s) => push_cond(out, "cmovg ", r, s),
        CMov::GE(r, s) => push_cond(out, "cmovge ", r, s),
        CMov::L(r, s) => push_cond(out, "cmovl ", r, s),
        CMov::LE(r, s) => push_cond(out, "cmovle ", r, s),
    }
}

/// Appends the text of a jump target.
pub fn push_jmp(out: &mut String, j: JmpArg)
    ensures
        final(out)@ == old(out)@ + jmp_text(j),
{
    match j {
        JmpArg::Label(l) => push_label(out, l),
        JmpArg::Reg(r) => push_reg(out, r),
    }
}

/// Appends a mnemonic and the operands of a two-operand instruction.
fn push_op(out: &mut String, name: &str, a: BinArgs)
    ensures
        final(out)@ == old(out)@ + (name@ + bin_text(a)),
{
    out.append(name);
    push_bin(out, a);
    assert(out@ =~= old(out)@ + (name@ + bin_text(a)));
}

/// Appends a mnemonic and a jump target.
fn push_branch(out: &mut String, name: &str, j: JmpArg)
    ensures
        final(out)@ == old(out)@ + (name@ + jmp_text(j)),
{
    out.append(name);
    push_jmp(out, j);
    assert(out@ =~= old(out)@ + (name@ + jmp_text(j)));
}

/// Appends the text of an instruction, without a line end.
pub fn push_instr(out: &mut String, i: Instr)
    ensures
        final(out)@ == old(out)@ + instr_text(i),
{
    match i {
        Instr::Label(l) => {
            push_label(out, l);
            out.append(":");
            assert(out@ =~= old(out)@ + instr_text(i));
        },
        Instr::Mov(a) => {
            out.append("mov ");
            push_mov(out, a);
            assert(out@ =~= old(out)@ + instr_text(i));
        },
        Instr::CMov(c) => push_cmov(out, c),
        Instr::Add(a) => push_op(out, "add ", a),
        Instr::Sub(a) => push_op(out, "sub ", a),
        Instr::IMul(a) => push_op(out, "imul ", a),
        Instr::And(a) => push_op(out, "and ", a),
        Instr::Xor(a) => push_op(out, "xor ", a),
        Instr::Sar(a) => push_op(out, "sar ", a),
        Instr::Cmp(a) => push_op(out, "cmp ", a),
        Instr::Test(a) => push_op(out, "test ", a),
        Instr::Push(a) => {
            out.append("push ");
            push_arg32(out, a);
            assert(out@ =~= old(out)@ + instr_text(i));
        },
        Instr::Pop(l) => {
            out.append("pop ");
            push_loc(out, l);
            assert(out@ =~= old(out)@ + instr_text(i));
        },
        Instr::Jmp(j) => push_branch(out, "jmp ", j),
        Instr::Je(j) => push_branch(out, "je ", j),
        Instr::Jnz(j) => push_branch(out, "jnz ", j),
        Instr::Jo(j) => push_branch(out, "jo ", j),
        Instr::Call(j) => push_branch(out, "call ", j),
        Instr::Ret => out.append("ret"),
    }
}

/// The assembly text of `instrs`, one instruction to a line.
pub fn instrs_to_string(instrs: &Vec<Instr>) -> (r: String)
    ensures
        r@ == listing(instrs@, instrs@.len() as int),
{
    let mut out = String::new();
    let mut k: usize = 0;
    while k < instrs.len()
        invariant
            k <= instrs@.len(),
            out@ == listing(instrs@, k as int),
        decreases instrs@.len() - k,
    {
        let ghost before = out@;
        if k > 0 {
            out.append("\n");
        }
        push_instr(&mut out, instrs[k]);
        proof {
            if k > 0 {
                assert(out@ =~= before + "\n"@ + instr_text(instrs@[k as int]));
            } else {
                assert(out@ =~= instr_text(instrs@[0]));
            }
        }
        k += 1;
    }
    out
}

} // verus!
