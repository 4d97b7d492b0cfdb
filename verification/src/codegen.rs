//! What the compiler emits, as a function of the program: the compilation
//! scheme, stated over plain values.

use crate::context::{
    cx_add_binding, cx_fun, cx_lookup, cx_new, cx_next_local, cx_set_curr_lbl, Cx, MAX_SLOTS,
};
use crate::error::CompileError;
use crate::instr::{
    Arg32, Arg64, BinArgs, CMov, Instr, JmpArg, Label, Loc, MemRef, MovArgs, Reg, Reg32,
};
use crate::syntax::{
    bindings_of, depth_of, items_of, Binding, Expr, FunDecl, Op1, Op2, Prog, Symbol,
};
use vstd::prelude::*;

verus! {

/// The state of code generation: the instructions emitted so far and the
/// number of the next fresh label.
pub struct St {
    pub code: Seq<Instr>,
    pub tag: u32,
}

/// A comparison whose outcome a conditional move takes.
#[derive(Clone, Copy, PartialEq, Eq, Structural, Debug)]
pub enum Cond {
    E,
    G,
    GE,
    L,
    LE,
}

/// The immediate for the number `n`: twice `n`, as a signed 64-bit number that
/// wraps around.
pub open spec fn number_imm(n: i64) -> i64 {
    if -0x4000_0000_0000_0000 <= n < 0x4000_0000_0000_0000 {
        (2 * n) as i64
    } else if n >= 0 {
        (2 * n - 0x1_0000_0000_0000_0000) as i64
    } else {
        (2 * n + 0x1_0000_0000_0000_0000) as i64
    }
}

/// The immediate for a boolean: 7 for true, 3 for false.
pub open spec fn bool_imm(b: bool) -> i32 {
    if b {
        7
    } else {
        3
    }
}

/// The state after the instructions `is` are emitted.
pub open spec fn emit(st: St, is: Seq<Instr>) -> St {
    St { code: st.code + is, tag: st.tag }
}

/// The instructions that jump to the invalid-argument handler unless the
/// register holds a number.
pub open spec fn num_check(reg: Reg) -> Seq<Instr> {
    seq![
        Instr::Test(BinArgs::ToReg(reg, Arg32::Imm(1))),
        Instr::Jnz(JmpArg::Label(Label::InvalidArgument)),
    ]
}

/// The instructions that move `src` to `dst`: none for a register onto
/// itself, one move where the machine has one, else two by way of `rdx`.
pub open spec fn move_code(dst: Loc, src: Arg64) -> Seq<Instr> {
    match dst {
        Loc::Reg(reg) => {
            if src == Arg64::Reg(reg) {
                Seq::empty()
            } else {
                seq![Instr::Mov(MovArgs::ToReg(reg, src))]
            }
        },
        Loc::Mem(mem) => match src {
            Arg64::Reg(r) => seq![Instr::Mov(MovArgs::ToMem(mem, Reg32::Reg(r)))],
            Arg64::Imm(n) => {
                if i32::MIN <= n <= i32::MAX {
                    seq![Instr::Mov(MovArgs::ToMem(mem, Reg32::Imm(n as i32)))]
                } else {
                    seq![
                        Instr::Mov(MovArgs::ToReg(Reg::Rdx, Arg64::Imm(n))),
                        Instr::Mov(MovArgs::ToMem(mem, Reg32::Reg(Reg::Rdx))),
                    ]
                }
            },
            Arg64::Mem(m) => seq![
                Instr::Mov(MovArgs::ToReg(Reg::Rdx, Arg64::Mem(m))),
                Instr::Mov(MovArgs::ToMem(mem, Reg32::Reg(Reg::Rdx))),
            ],
        },
    }
}

/// The conditional move of `src` to `reg` for the comparison `c`.
pub open spec fn cond_move(c: Cond, reg: Reg, src: Arg64) -> CMov {
    match c {
        Cond::E => CMov::E(reg, src),
        Cond::G => CMov::G(reg, src),
        Cond::GE => CMov::GE(reg, src),
        Cond::L => CMov::L(reg, src),
        Cond::LE => CMov::LE(reg, src),
    }
}

/// The instructions that compare `rax` with `rcx` and leave in `rax` whether
/// the comparison `c` holds.
pub open spec fn compare_code(c: Cond) -> Seq<Instr> {
    seq![
        Instr::Cmp(BinArgs::ToReg(Reg::Rax, Arg32::Reg(Reg::Rcx))),
        Instr::Mov(MovArgs::ToReg(Reg::Rax, Arg64::Imm(bool_imm(false) as i64))),
        Instr::Mov(MovArgs::ToReg(Reg::Rcx, Arg64::Imm(bool_imm(true) as i64))),
        Instr::CMov(cond_move(c, Reg::Rax, Arg64::Reg(Reg::Rcx))),
    ]
}

/// The number of argument slots for a call with `n` arguments: `n` made even.
pub open spec fn aligned(n: int) -> int {
    if n % 2 == 0 {
        n
    } else {
        n + 1
    }
}

/// The number of slots for `locals` locals beside `preserved` saved registers:
/// `locals`, or one more if that makes the total even.
pub open spec fn frame_slots(locals: int, preserved: int) -> int {
    if (locals + preserved) % 2 == 0 {
        locals
    } else {
        locals + 1
    }
}

/// The pushes of the first `k` of the registers `regs`, in order.
pub open spec fn pushes(regs: Seq<Reg>, k: int) -> Seq<Instr>
    decreases k,
{
    if k <= 0 {
        Seq::empty()
    } else {
        pushes(regs, k - 1).push(Instr::Push(Arg32::Reg(regs[k - 1])))
    }
}

/// The pops of the last `k` of the registers `regs`, last register first.
pub open spec fn pops(regs: Seq<Reg>, k: int) -> Seq<Instr>
    decreases k,
{
    if k <= 0 {
        Seq::empty()
    } else {
        pops(regs, k - 1).push(Instr::Pop(Loc::Reg(regs[regs.len() - k])))
    }
}

/// The entry of a function: save the registers, set up the frame pointer, and
/// make room for the locals.
pub open spec fn entry_code(locals: u32, preserved: Seq<Reg>) -> Result<Seq<Instr>, CompileError> {
    if locals >= MAX_SLOTS {
        Err(CompileError::FrameTooLarge)
    } else {
        Ok(
            pushes(preserved, preserved.len() as int) + seq![
                Instr::Push(Arg32::Reg(Reg::Rbp)),
                Instr::Mov(MovArgs::ToReg(Reg::Rbp, Arg64::Reg(Reg::Rsp))),
                Instr::Sub(
                    BinArgs::ToReg(
                        Reg::Rsp,
                        Arg32::Imm((8 * frame_slots(locals as int, preserved.len() as int)) as i32),
                    ),
                ),
            ],
        )
    }
}

/// The exit of a function: pop
/// the saved registers, release the locals, restore the frame pointer, return.
pub open spec fn exit_code(locals: u32, preserved: Seq<Reg>) -> Result<Seq<Instr>, CompileError> {
    if locals >= MAX_SLOTS {
        Err(CompileError::FrameTooLarge)
    } else {
        Ok(
            pops(preserved, preserved.len() as int) + seq![
                Instr::Add(
                    BinArgs::ToReg(
                        Reg::Rsp,
                        Arg32::Imm((8 * frame_slots(locals as int, preserved.len() as int)) as i32),
                    ),
                ),
                Instr::Pop(Loc::Reg(Reg::Rbp)),
                Instr::Ret,
            ],
        )
    }
}

/// The names of the bindings, in order.
pub open spec fn names_of(bs: Seq<Binding>) -> Seq<Symbol> {
    Seq::new(bs.len(), |i: int| bs[i].name)
}

/// The numbers of the first `k` names.
pub open spec fn names_seen(names: Seq<Symbol>, k: int) -> Set<u32>
    decreases k,
{
    if k <= 0 {
        Set::empty()
    } else {
        names_seen(names, k - 1).insert(names[k - 1].id)
    }
}

/// The first of the first `k` names that repeats an earlier one, if there is one.
pub open spec fn dup_name(names: Seq<Symbol>, k: int) -> Option<Symbol>
    decreases k,
{
    if k <= 0 {
        None
    } else {
        match dup_name(names, k - 1) {
            Some(x) => Some(x),
            None => if names_seen(names, k - 1).contains(names[k - 1].id) {
                Some(names[k - 1])
            } else {
                None
            },
        }
    }
}

/// The number of parameters of each of the first `k` functions, by name.
pub open spec fn arities(funs: Seq<FunDecl>, k: int) -> Map<u32, usize>
    decreases k,
{
    if k <= 0 {
        Map::empty()
    } else {
        arities(funs, k - 1).insert(funs[k - 1].name.id, funs[k - 1].params@.len() as usize)
    }
}

/// The name of the first of the first `k` functions that has the name of an
/// earlier one, if there is one.
pub open spec fn dup_fun(funs: Seq<FunDecl>, k: int) -> Option<Symbol>
    decreases k,
{
    if k <= 0 {
        None
    } else {
        match dup_fun(funs, k - 1) {
            Some(x) => Some(x),
            None => if arities(funs, k - 1).dom().contains(funs[k - 1].name.id) {
                Some(funs[k - 1].name)
            } else {
                None
            },
        }
    }
}

/// The state after a fresh label number is taken, and that number.
pub open spec fn fresh(st: St) -> Result<(St, u32), CompileError> {
    if st.tag == u32::MAX {
        Err(CompileError::TooManyLabels)
    } else {
        Ok((St { code: st.code, tag: (st.tag + 1) as u32 }, st.tag))
    }
}

/// The instructions for the operator `op` applied to the value in `rax`.
pub open spec fn un_op_code(op: Op1) -> Seq<Instr> {
    match op {
        Op1::Add1 => num_check(Reg::Rax) + seq![
            Instr::Add(BinArgs::ToReg(Reg::Rax, Arg32::Imm(2))),
            Instr::Jo(JmpArg::Label(Label::Overflow)),
        ],
        Op1::Sub1 => num_check(Reg::Rax) + seq![
            Instr::Sub(BinArgs::ToReg(Reg::Rax, Arg32::Imm(2))),
            Instr::Jo(JmpArg::Label(Label::Overflow)),
        ],
        Op1::IsNum => seq![
            Instr::And(BinArgs::ToReg(Reg::Rax, Arg32::Imm(1))),
            Instr::Mov(MovArgs::ToReg(Reg::Rcx, Arg64::Imm(bool_imm(true) as i64))),
            Instr::Mov(MovArgs::ToReg(Reg::Rax, Arg64::Imm(bool_imm(false) as i64))),
            Instr::CMov(CMov::Z(Reg::Rax, Arg64::Reg(Reg::Rcx))),
        ],
        Op1::IsBool => seq![
            Instr::And(BinArgs::ToReg(Reg::Rax, Arg32::Imm(1))),
            Instr::Mov(MovArgs::ToReg(Reg::Rcx, Arg64::Imm(bool_imm(false) as i64))),
            Instr::Mov(MovArgs::ToReg(Reg::Rax, Arg64::Imm(bool_imm(true) as i64))),
            Instr::CMov(CMov::Z(Reg::Rax, Arg64::Reg(Reg::Rcx))),
        ],
        Op1::Print => seq![
            Instr::Mov(MovArgs::ToReg(Reg::Rdi, Arg64::Reg(Reg::Rax))),
            Instr::Call(JmpArg::Label(Label::SnekPrint)),
        ],
    }
}

/// The checks on the operands of `op`, which are in `rax` and `rcx`.
pub open spec fn bin_check_code(op: Op2) -> Seq<Instr> {
    match op {
        Op2::Equal => seq![
            Instr::Cmp(BinArgs::ToReg(Reg::Rdx, Arg32::Reg(Reg::Rax))),
            Instr::Xor(BinArgs::ToReg(Reg::Rdx, Arg32::Reg(Reg::Rcx))),
            Instr::Test(BinArgs::ToReg(Reg::Rdx, Arg32::Imm(1))),
            Instr::Jnz(JmpArg::Label(Label::InvalidArgument)),
        ],
        _ => num_check(Reg::Rax) + num_check(Reg::Rcx),
    }
}

/// The instructions for the operator `op` applied to the values in `rax` and `rcx`.
pub open spec fn bin_op_code(op: Op2) -> Seq<Instr> {
    match op {
        Op2::Plus => seq![
            Instr::Add(BinArgs::ToReg(Reg::Rax, Arg32::Reg(Reg::Rcx))),
            Instr::Jo(JmpArg::Label(Label::Overflow)),
        ],
        Op2::Minus => seq![
            Instr::Sub(BinArgs::ToReg(Reg::Rax, Arg32::Reg(Reg::Rcx))),
            Instr::Jo(JmpArg::Label(Label::Overflow)),
        ],
        Op2::Times => seq![
            Instr::Sar(BinArgs::ToReg(Reg::Rax, Arg32::Imm(1))),
            Instr::IMul(BinArgs::ToReg(Reg::Rax, Arg32::Reg(Reg::Rcx))),
            Instr::Jo(JmpArg::Label(Label::Overflow)),
        ],
        Op2::Equal => compare_code(Cond::E),
        Op2::Greater => compare_code(Cond::G),
        Op2::GreaterEqual => compare_code(Cond::GE),
        Op2::Less => compare_code(Cond::L),
        Op2::LessEqual => compare_code(Cond::LE),
    }
}

/// The state after the code for `e` is emitted, with its value going to `dst`;
/// or the first error met on the way.
pub open spec fn gen_expr(funs: Map<u32, usize>, cx: Cx, dst: Loc, e: Expr, st: St) -> Result<
    St,
    CompileError,
>
    decreases e, 1nat, 0nat,
{
    match e {
        Expr::Number(n) => Ok(emit(st, move_code(dst, Arg64::Imm(number_imm(n))))),
        Expr::Boolean(b) => Ok(emit(st, move_code(dst, Arg64::Imm(bool_imm(b) as i64)))),
        Expr::Var(x) => match cx_lookup(cx, x) {
            Ok(mem) => Ok(emit(st, move_code(dst, Arg64::Mem(mem)))),
            Err(err) => Err(err),
        },
        Expr::Let(bs, body) => match dup_name(names_of(bs@), bs@.len() as int) {
            Some(x) => Err(CompileError::DuplicateBinding(x)),
            None => match gen_bindings(funs, cx, e, bs@.len(), st) {
                Ok((cx2, st2)) => gen_expr(funs, cx2, dst, *body, st2),
                Err(err) => Err(err),
            },
        },
        Expr::UnOp(op, a) => match gen_expr(funs, cx, Loc::Reg(Reg::Rax), *a, st) {
            Ok(st1) => Ok(
                emit(emit(st1, un_op_code(op)), move_code(dst, Arg64::Reg(Reg::Rax))),
            ),
            Err(err) => Err(err),
        },
        Expr::BinOp(op, a, b) => match cx_next_local(cx) {
            Ok((nextcx, mem)) => match gen_expr(funs, cx, Loc::Mem(mem), *a, st) {
                Ok(st1) => match gen_expr(funs, nextcx, Loc::Reg(Reg::Rcx), *b, st1) {
                    Ok(st2) => Ok(
                        emit(
                            emit(
                                emit(
                                    emit(
                                        st2,
                                        seq![Instr::Mov(MovArgs::ToReg(Reg::Rax, Arg64::Mem(mem)))],
                                    ),
                                    bin_check_code(op),
                                ),
                                bin_op_code(op),
                            ),
                            move_code(dst, Arg64::Reg(Reg::Rax)),
                        ),
                    ),
                    Err(err) => Err(err),
                },
                Err(err) => Err(err),
            },
            Err(err) => Err(err),
        },
        Expr::If(c, t, f) => match fresh(st) {
            Ok((st0, tag)) => match gen_expr(funs, cx, Loc::Reg(Reg::Rax), *c, st0) {
                Ok(st1) => match gen_expr(
                    funs,
                    cx,
                    dst,
                    *t,
                    emit(
                        st1,
                        seq![
                            Instr::Cmp(BinArgs::ToReg(Reg::Rax, Arg32::Imm(bool_imm(false)))),
                            Instr::Je(JmpArg::Label(Label::IfElse(tag))),
                        ],
                    ),
                ) {
                    Ok(st2) => match gen_expr(
                        funs,
                        cx,
                        dst,
                        *f,
                        emit(
                            st2,
                            seq![
                                Instr::Jmp(JmpArg::Label(Label::IfEnd(tag))),
                                Instr::Label(Label::IfElse(tag)),
                            ],
                        ),
                    ) {
                        Ok(st3) => Ok(emit(st3, seq![Instr::Label(Label::IfEnd(tag))])),
                        Err(err) => Err(err),
                    },
                    Err(err) => Err(err),
                },
                Err(err) => Err(err),
            },
            Err(err) => Err(err),
        },
        Expr::Loop(a) => match fresh(st) {
            Ok((st0, tag)) => match gen_expr(
                funs,
                cx_set_curr_lbl(cx, Label::LoopEnd(tag)),
                dst,
                *a,
                emit(st0, seq![Instr::Label(Label::LoopStart(tag))]),
            ) {
                Ok(st1) => Ok(
                    emit(
                        st1,
                        seq![
                            Instr::Jmp(JmpArg::Label(Label::LoopStart(tag))),
                            Instr::Label(Label::LoopEnd(tag)),
                        ],
                    ),
                ),
                Err(err) => Err(err),
            },
            Err(err) => Err(err),
        },
        Expr::Break(a) => match cx.lbl {
            Some(lbl) => match gen_expr(funs, cx, dst, *a, st) {
                Ok(st1) => Ok(emit(st1, seq![Instr::Jmp(JmpArg::Label(lbl))])),
                Err(err) => Err(err),
            },
            None => Err(CompileError::BreakOutsideLoop),
        },
        Expr::SetVar(x, a) => match cx_lookup(cx, x) {
            Ok(mem) => match gen_expr(funs, cx, Loc::Mem(mem), *a, st) {
                Ok(st1) => Ok(emit(st1, move_code(dst, Arg64::Mem(mem)))),
                Err(err) => Err(err),
            },
            Err(err) => Err(err),
        },
        Expr::Block(es) => if es@.len() == 0 {
            Err(CompileError::EmptyBlock)
        } else {
            match gen_items(funs, cx, e, (es@.len() - 1) as nat, st) {
                Ok(st1) => gen_expr(funs, cx, dst, es@[es@.len() - 1], st1),
                Err(err) => Err(err),
            }
        },
        Expr::Call(f, args) => if !funs.dom().contains(f.id) {
            Err(CompileError::UndefinedFun(f))
        } else if args@.len() != funs[f.id] {
            Err(
                CompileError::WrongNumberOfArgs {
                    expected: funs[f.id],
                    got: args@.len() as usize,
                },
            )
        } else if args@.len() >= MAX_SLOTS {
            Err(CompileError::FrameTooLarge)
        } else {
            match gen_args(
                funs,
                cx,
                e,
                args@.len(),
                emit(
                    st,
                    seq![
                        Instr::Sub(
                            BinArgs::ToReg(
                                Reg::Rsp,
                                Arg32::Imm((8 * aligned(args@.len() as int)) as i32),
                            ),
                        ),
                    ],
                ),
            ) {
                Ok(st1) => Ok(
                    emit(
                        emit(
                            st1,
                            seq![
                                Instr::Call(JmpArg::Label(Label::FunStart(f.id))),
                                Instr::Add(
                                    BinArgs::ToReg(
                                        Reg::Rsp,
                                        Arg32::Imm((8 * aligned(args@.len() as int)) as i32),
                                    ),
                                ),
                            ],
                        ),
                        move_code(dst, Arg64::Reg(Reg::Rax)),
                    ),
                ),
                Err(err) => Err(err),
            }
        },
        Expr::Input => if cx.in_fun {
            Err(CompileError::InputInFun)
        } else {
            Ok(emit(st, move_code(dst, Arg64::Reg(Reg::R14))))
        },
        Expr::VecNew(size, elem) => match cx_next_local(cx) {
            Ok((nextcx, mem)) => match gen_expr(funs, cx, Loc::Mem(mem), *size, st) {
                Ok(st1) => match gen_expr(funs, nextcx, Loc::Reg(Reg::Rcx), *elem, st1) {
                    Ok(st2) => Ok(
                        emit(
                            emit(
                                st2,
                                seq![Instr::Mov(MovArgs::ToReg(Reg::Rax, Arg64::Mem(mem)))],
                            ),
                            num_check(Reg::Rax),
                        ),
                    ),
                    Err(err) => Err(err),
                },
                Err(err) => Err(err),
            },
            Err(err) => Err(err),
        },
    }
}

/// The context and the state after the first `k` bindings of the `let` `e`:
/// each value goes to a fresh slot, and each name is bound for the bindings
/// after it.
pub open spec fn gen_bindings(funs: Map<u32, usize>, cx: Cx, e: Expr, k: nat, st: St) -> Result<
    (Cx, St),
    CompileError,
>
    decreases e, 0nat, k,
{
    if k == 0 || k > bindings_of(e).len() {
        Ok((cx, st))
    } else {
        match gen_bindings(funs, cx, e, (k - 1) as nat, st) {
            Ok((cx1, st1)) => match cx_next_local(cx1) {
                Ok((nextcx, mem)) => match gen_expr(
                    funs,
                    cx1,
                    Loc::Mem(mem),
                    bindings_of(e)[k - 1].value,
                    st1,
                ) {
                    Ok(st2) => Ok(
                        (cx_add_binding(nextcx, bindings_of(e)[k - 1].name, mem.offset), st2),
                    ),
                    Err(err) => Err(err),
                },
                Err(err) => Err(err),
            },
            Err(err) => Err(err),
        }
    }
}

/// The state after the first `k` expressions of the block `e`, each with its
/// value going to `rcx`.
pub open spec fn gen_items(funs: Map<u32, usize>, cx: Cx, e: Expr, k: nat, st: St) -> Result<
    St,
    CompileError,
>
    decreases e, 0nat, k,
{
    if k == 0 || k > items_of(e).len() {
        Ok(st)
    } else {
        match gen_items(funs, cx, e, (k - 1) as nat, st) {
            Ok(st1) => gen_expr(funs, cx, Loc::Reg(Reg::Rcx), items_of(e)[k - 1], st1),
            Err(err) => Err(err),
        }
    }
}

/// The state after the first `k` arguments of the call `e`, the `i`-th with
/// its value going `8 * i` bytes above the stack pointer.
pub open spec fn gen_args(funs: Map<u32, usize>, cx: Cx, e: Expr, k: nat, st: St) -> Result<
    St,
    CompileError,
>
    decreases e, 0nat, k,
{
    if k == 0 || k > items_of(e).len() {
        Ok(st)
    } else {
        match gen_args(funs, cx, e, (k - 1) as nat, st) {
            Ok(st1) => gen_expr(
                funs,
                cx,
                Loc::Mem(MemRef { reg: Reg::Rsp, offset: (8 * (k - 1)) as i32 }),
                items_of(e)[k - 1],
                st1,
            ),
            Err(err) => Err(err),
        }
    }
}

/// The number of slots for the locals of `e`, or the error that they are too many.
pub open spec fn locals_of(e: Expr) -> Result<u32, CompileError> {
    if depth_of(e) >= MAX_SLOTS {
        Err(CompileError::FrameTooLarge)
    } else {
        Ok(depth_of(e) as u32)
    }
}

/// The state after the code of the function `f` is emitted.
pub open spec fn gen_fun(funs: Map<u32, usize>, f: FunDecl, st: St) -> Result<St, CompileError> {
    match dup_name(f.params@, f.params@.len() as int) {
        Some(x) => Err(CompileError::DuplicateBinding(x)),
        None => match locals_of(f.body) {
            Err(err) => Err(err),
            Ok(locals) => match entry_code(locals, Seq::empty()) {
                Err(err) => Err(err),
                Ok(entry) => match cx_fun(f.params@) {
                    Err(err) => Err(err),
                    Ok(cx) => match gen_expr(
                        funs,
                        cx,
                        Loc::Reg(Reg::Rax),
                        f.body,
                        emit(emit(st, seq![Instr::Label(Label::FunStart(f.name.id))]), entry),
                    ) {
                        Err(err) => Err(err),
                        Ok(st1) => match exit_code(locals, Seq::empty()) {
                            Err(err) => Err(err),
                            Ok(exit) => Ok(emit(st1, exit)),
                        },
                    },
                },
            },
        },
    }
}

/// The state after the code of the first `k` of the functions `fs` is emitted.
pub open spec fn gen_funs(funs: Map<u32, usize>, fs: Seq<FunDecl>, k: int, st: St) -> Result<
    St,
    CompileError,
>
    decreases k,
{
    if k <= 0 {
        Ok(st)
    } else {
        match gen_funs(funs, fs, k - 1, st) {
            Ok(st1) => gen_fun(funs, fs[k - 1], st1),
            Err(err) => Err(err),
        }
    }
}

/// The registers that the main expression's code saves and restores.
pub open spec fn main_preserved() -> Seq<Reg> {
    seq![Reg::R14, Reg::R15]
}

/// The instructions of the whole program: the functions, then the main
/// expression under the entry label; or the first error met.
pub open spec fn gen_prog(prg: Prog) -> Result<Seq<Instr>, CompileError> {
    match dup_fun(prg.funs@, prg.funs@.len() as int) {
        Some(x) => Err(CompileError::DuplicateFunction(x)),
        None => {
            let funs = arities(prg.funs@, prg.funs@.len() as int);
            match locals_of(prg.main) {
                Err(err) => Err(err),
                Ok(locals) => match gen_funs(
                    funs,
                    prg.funs@,
                    prg.funs@.len() as int,
                    St { code: Seq::empty(), tag: 0 },
                ) {
                    Err(err) => Err(err),
                    Ok(st1) => match entry_code(locals, main_preserved()) {
                        Err(err) => Err(err),
                        Ok(entry) => match gen_expr(
                            funs,
                            cx_new(),
                            Loc::Reg(Reg::Rax),
                            prg.main,
                            emit(
                                emit(
                                    emit(st1, seq![Instr::Label(Label::OurCodeStartsHere)]),
                                    entry,
                                ),
                                seq![
                                    Instr::Mov(MovArgs::ToReg(Reg::R14, Arg64::Reg(Reg::Rdi))),
                                    Instr::Mov(MovArgs::ToReg(Reg::R15, Arg64::Reg(Reg::Rsi))),
                                ],
                            ),
                        ) {
                            Err(err) => Err(err),
                            Ok(st2) => match exit_code(locals, main_preserved()) {
                                Err(err) => Err(err),
                                Ok(exit) => Ok(emit(st2, exit).code),
                            },
                        },
                    },
                },
            }
        },
    }
}

/// An error met in the bindings of a `let` is the error of all of them.
pub proof fn lemma_bindings_err(funs: Map<u32, usize>, cx: Cx, e: Expr, k: nat, n: nat, st: St)
    requires
        k <= n <= bindings_of(e).len(),
        gen_bindings(funs, cx, e, k, st) is Err,
    ensures
        gen_bindings(funs, cx, e, n, st) == gen_bindings(funs, cx, e, k, st),
    decreases n,
{
    if k < n {
        lemma_bindings_err(funs, cx, e, k, (n - 1) as nat, st);
    }
}

/// An error met in the expressions of a block is the error of all of them.
pub proof fn lemma_items_err(funs: Map<u32, usize>, cx: Cx, e: Expr, k: nat, n: nat, st: St)
    requires
        k <= n <= items_of(e).len(),
        gen_items(funs, cx, e, k, st) is Err,
    ensures
        gen_items(funs, cx, e, n, st) == gen_items(funs, cx, e, k, st),
    decreases n,
{
    if k < n {
        lemma_items_err(funs, cx, e, k, (n - 1) as nat, st);
    }
}

/// An error met in the arguments of a call is the error of all of them.
pub proof fn lemma_args_err(funs: Map<u32, usize>, cx: Cx, e: Expr, k: nat, n: nat, st: St)
    requires
        k <= n <= items_of(e).len(),
        gen_args(funs, cx, e, k, st) is Err,
    ensures
        gen_args(funs, cx, e, n, st) == gen_args(funs, cx, e, k, st),
    decreases n,
{
    if k < n {
        lemma_args_err(funs, cx, e, k, (n - 1) as nat, st);
    }
}

/// An error met in a function is the error of all the functions.
pub proof fn lemma_funs_err(funs: Map<u32, usize>, fs: Seq<FunDecl>, k: int, n: int, st: St)
    requires
        0 <= k <= n,
        gen_funs(funs, fs, k, st) is Err,
    ensures
        gen_funs(funs, fs, n, st) == gen_funs(funs, fs, k, st),
    decreases n,
{
    if k < n {
        lemma_funs_err(funs, fs, k, n - 1, st);
    }
}

/// Emitting two runs of instructions one after the other is emitting their
/// concatenation.
pub proof fn lemma_emit_twice(st: St, a: Seq<Instr>, b: Seq<Instr>)
    ensures
        emit(emit(st, a), b) == emit(st, a + b),
{
    assert((st.code + a) + b =~= st.code + (a + b));
}

} // verus!
