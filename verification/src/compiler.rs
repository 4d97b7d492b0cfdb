//! The compiler: from a program to its instructions and their text.

use crate::codegen::{
    aligned, arities, bin_check_code, bin_op_code, bool_imm, compare_code, dup_fun, dup_name, emit,
    entry_code, exit_code, frame_slots, fresh, gen_args, gen_bindings, gen_expr, gen_fun, gen_funs,
    gen_items, gen_prog, lemma_args_err, lemma_bindings_err, lemma_emit_twice, lemma_funs_err,
    lemma_items_err, locals_of, main_preserved, move_code, names_of, names_seen, num_check,
    number_imm, pops, pushes, un_op_code, Cond, St,
};
use crate::context::{Ctxt, Cx, MAX_SLOTS};
use crate::error::CompileError;
use crate::instr::{
    arg64, instrs_to_string, listing, Arg32, Arg64, BinArgs, CMov, Instr, JmpArg, Label, Loc,
    MemRef, MovArgs, Reg, Reg32,
};
use crate::syntax::{bindings_of, depth, items_of, Binding, Expr, FunDecl, Op1, Op2, Prog, Symbol};
use std::collections::HashMap;
use std::collections::HashSet;
use vstd::prelude::*;
use vstd::string::StringExecFns;

verus! {

/// The error for a name bound twice.
pub fn raise_duplicate_binding(id: Symbol) -> (e: CompileError)
    ensures
        e == CompileError::DuplicateBinding(id),
{
    CompileError::DuplicateBinding(id)
}

/// The error for a function name declared twice.
pub fn raise_duplicate_function(name: Symbol) -> (e: CompileError)
    ensures
        e == CompileError::DuplicateFunction(name),
{
    CompileError::DuplicateFunction(name)
}

/// The error for a variable that is not bound.
pub fn raise_unbound_identifier(id: Symbol) -> (e: CompileError)
    ensures
        e == CompileError::UnboundIdentifier(id),
{
    CompileError::UnboundIdentifier(id)
}

/// The error for a `break` outside every loop.
pub fn raise_break_outside_loop() -> (e: CompileError)
    ensures
        e == CompileError::BreakOutsideLoop,
{
    CompileError::BreakOutsideLoop
}

/// The error for `input` inside a function definition.
pub fn raise_input_in_fun() -> (e: CompileError)
    ensures
        e == CompileError::InputInFun,
{
    CompileError::InputInFun
}

/// The error for a call of a function that is not defined.
pub fn raise_undefined_fun(fun: Symbol) -> (e: CompileError)
    ensures
        e == CompileError::UndefinedFun(fun),
{
    CompileError::UndefinedFun(fun)
}

/// The error for a call with `got` arguments of a function that takes `expected`.
pub fn raise_worng_number_of_args(expected: usize, got: usize) -> (e: CompileError)
    ensures
        e == (CompileError::WrongNumberOfArgs { expected, got }),
{
    CompileError::WrongNumberOfArgs { expected, got }
}

/// The number of argument slots for a call with `n` arguments: `n` made even.
pub fn align_args(n: usize) -> (r: usize)
    requires
        n < usize::MAX,
    ensures
        r == aligned(n as int),
{
    if n % 2 == 0 {
        n
    } else {
        n + 1
    }
}

/// The number of slots for `locals` locals beside the saved registers
/// `preserved`: `locals`, or one more if that makes the total even.
pub fn stack_size(locals: u32, preserved: &Vec<Reg>) -> (r: u32)
    requires
        locals < u32::MAX,
    ensures
        r == frame_slots(locals as int, preserved@.len() as int),
{
    let odd_locals: bool = locals % 2 == 1;
    let odd_saved: bool = preserved.len() % 2 == 1;
    if odd_locals == odd_saved {
        locals
    } else {
        locals + 1
    }
}

/// The operand for the number `n`.
pub fn number_repr64(n: i64) -> (r: Arg64)
    ensures
        r == Arg64::Imm(number_imm(n)),
{
    if n >= -0x4000_0000_0000_0000 && n < 0x4000_0000_0000_0000 {
        Arg64::Imm(2 * n)
    } else if n >= 0 {
        Arg64::Imm(2 * ((n - 0x4000_0000_0000_0000) - 0x4000_0000_0000_0000))
    } else {
        Arg64::Imm(2 * ((n + 0x4000_0000_0000_0000) + 0x4000_0000_0000_0000))
    }
}

/// The operand for a boolean.
pub fn bool_repr32(b: bool) -> (r: Arg32)
    ensures
        r == Arg32::Imm(bool_imm(b)),
{
    Arg32::Imm(if b { 7 } else { 3 })
}

/// Once a name is found to repeat, it stays the first that does.
pub proof fn lemma_dup_name_stays(names: Seq<Symbol>, k: int, n: int)
    requires
        0 <= k <= n,
        dup_name(names, k) is Some,
    ensures
        dup_name(names, n) == dup_name(names, k),
    decreases n,
{
    if k < n {
        lemma_dup_name_stays(names, k, n - 1);
    }
}

/// The error that one of the names repeats an earlier one, if one does.
pub fn check_dup_bindings(names: &Vec<Symbol>) -> (r: Result<(), CompileError>)
    ensures
        r == match dup_name(names@, names@.len() as int) {
            Some(x) => Err::<(), CompileError>(CompileError::DuplicateBinding(x)),
            None => Ok::<(), CompileError>(()),
        },
{
    broadcast use vstd::std_specs::hash::group_hash_axioms;

    let mut seen: HashSet<u32> = HashSet::new();
    let mut i: usize = 0;
    while i < names.len()
        invariant
            i <= names@.len(),
            seen@ == names_seen(names@, i as int),
            dup_name(names@, i as int) is None,
        decreases names@.len() - i,
    {
        let name: Symbol = names[i];
        if !seen.insert(name.id) {
            proof {
                assert(dup_name(names@, i + 1) == Some(name));
                lemma_dup_name_stays(names@, i + 1, names@.len() as int);
            }
            return Err(raise_duplicate_binding(name));
        }
        i += 1;
    }
    Ok(())
}

/// The names of the bindings, in order.
pub fn binding_names(bs: &Vec<Binding>) -> (r: Vec<Symbol>)
    ensures
        r@ == names_of(bs@),
{
    let mut names: Vec<Symbol> = Vec::new();
    let mut i: usize = 0;
    while i < bs.len()
        invariant
            i <= bs@.len(),
            names@.len() == i,
            forall|j: int| 0 <= j < i ==> names@[j] == bs@[j].name,
        decreases bs@.len() - i,
    {
        names.push(bs[i].name);
        i += 1;
    }
    assert(names@ =~= names_of(bs@));
    names
}

/// Once a function name is found to repeat, it stays the first that does.
pub proof fn lemma_dup_fun_stays(funs: Seq<FunDecl>, k: int, n: int)
    requires
        0 <= k <= n,
        dup_fun(funs, k) is Some,
    ensures
        dup_fun(funs, n) == dup_fun(funs, k),
    decreases n,
{
    if k < n {
        lemma_dup_fun_stays(funs, k, n - 1);
    }
}

/// The number of parameters of each function by name, or the first function
/// name that is declared twice.
pub fn fun_arity_map(prg: &Prog) -> (r: Result<HashMap<u32, usize>, Symbol>)
    ensures
        match r {
            Ok(map) => dup_fun(prg.funs@, prg.funs@.len() as int) is None && map@ == arities(
                prg.funs@,
                prg.funs@.len() as int,
            ),
            Err(name) => dup_fun(prg.funs@, prg.funs@.len() as int) == Some(name),
        },
{
    broadcast use vstd::std_specs::hash::group_hash_axioms;

    let mut map: HashMap<u32, usize> = HashMap::new();
    let mut i: usize = 0;
    while i < prg.funs.len()
        invariant
            i <= prg.funs@.len(),
            map@ == arities(prg.funs@, i as int),
            dup_fun(prg.funs@, i as int) is None,
        decreases prg.funs@.len() - i,
    {
        let name: Symbol = prg.funs[i].name;
        let arity: usize = prg.funs[i].params.len();
        let had: Option<usize> = map.insert(name.id, arity);
        if had.is_some() {
            proof {
                assert(dup_fun(prg.funs@, i + 1) == Some(name));
                lemma_dup_fun_stays(prg.funs@, i + 1, prg.funs@.len() as int);
            }
            return Err(name);
        }
        i += 1;
    }
    Ok(map)
}

/// What a compiling step returned agrees with what the compilation scheme
/// gives: on success the state `got`, else the same error.
pub open spec fn done(r: Result<(), CompileError>, want: Result<St, CompileError>, got: St) -> bool {
    match r {
        Ok(_) => want == Ok::<St, CompileError>(got),
        Err(err) => want == Err::<St, CompileError>(err),
    }
}

/// What an emitting step returned agrees with the instructions `want` that it
/// was to emit: on success the state `after` is `before` with them appended,
/// else the error is the same.
pub open spec fn emitted(
    r: Result<(), CompileError>,
    want: Result<Seq<Instr>, CompileError>,
    before: St,
    after: St,
) -> bool {
    match r {
        Ok(_) => want matches Ok(c) && after == emit(before, c),
        Err(err) => want == Err::<Seq<Instr>, CompileError>(err),
    }
}

/// The state of a compilation: the next label number, the instructions
/// emitted so far, and the number of parameters of each function.
pub struct Session {
    pub tag: u32,
    pub instrs: Vec<Instr>,
    pub funs: HashMap<u32, usize>,
}

impl Session {
    /// The instructions emitted so far and the next label number.
    pub open spec fn st(&self) -> St {
        St { code: self.instrs@, tag: self.tag }
    }

    /// A session with nothing emitted.
    pub fn new(funs: HashMap<u32, usize>) -> (s: Session)
        ensures
            s.funs == funs,
            s.st() == (St { code: Seq::empty(), tag: 0 }),
    {
        Session { tag: 0, instrs: Vec::new(), funs }
    }

    /// Emits one instruction.
    pub fn append_instr(&mut self, instr: Instr)
        ensures
            final(self).funs == old(self).funs,
            final(self).st() == emit(old(self).st(), seq![instr]),
    {
        self.instrs.push(instr);
        assert(self.instrs@ =~= old(self).instrs@ + seq![instr]);
    }

    /// Emits the instructions `instrs`, in order.
    pub fn append_instrs(&mut self, instrs: Vec<Instr>)
        ensures
            final(self).funs == old(self).funs,
            final(self).st() == emit(old(self).st(), instrs@),
    {
        let mut rest = instrs;
        self.instrs.append(&mut rest);
    }

    /// Takes a fresh label number.
    pub fn next_tag(&mut self) -> (r: Result<u32, CompileError>)
        ensures
            final(self).funs == old(self).funs,
            match r {
                Ok(tag) => fresh(old(self).st()) == Ok::<(St, u32), CompileError>(
                    (final(self).st(), tag),
                ),
                Err(err) => fresh(old(self).st()) == Err::<(St, u32), CompileError>(err),
            },
    {
        if self.tag == u32::MAX {
            return Err(CompileError::TooManyLabels);
        }
        self.tag = self.tag + 1;
        Ok(self.tag - 1)
    }

    /// Emits the jump to the invalid-argument handler unless `reg` holds a number.
    pub fn check_is_num(&mut self, reg: Reg)
        ensures
            final(self).funs == old(self).funs,
            final(self).st() == emit(old(self).st(), num_check(reg)),
    {
        let v = vec![
            Instr::Test(BinArgs::ToReg(reg, Arg32::Imm(1))),
            Instr::Jnz(JmpArg::Label(Label::InvalidArgument)),
        ];
        assert(v@ =~= num_check(reg));
        self.append_instrs(v);
    }

    /// Emits the move of `src` to `dst`.
    pub fn move_to(&mut self, dst: Loc, src: Arg64)
        ensures
            final(self).funs == old(self).funs,
            final(self).st() == emit(old(self).st(), move_code(dst, src)),
    {
        match dst {
            Loc::Reg(reg) => {
                let same: bool = match src {
                    Arg64::Reg(r) => r == reg,
                    _ => false,
                };
                if same {
                    assert(self.instrs@ =~= old(self).instrs@ + move_code(dst, src));
                } else {
                    self.append_instr(Instr::Mov(MovArgs::ToReg(reg, src)));
                }
            },
            Loc::Mem(mem) => match src {
                Arg64::Reg(r) => self.append_instr(Instr::Mov(MovArgs::ToMem(mem, Reg32::Reg(r)))),
                Arg64::Imm(n) => {
                    if n >= -2147483648 && n <= 2147483647 {
                        self.append_instr(Instr::Mov(MovArgs::ToMem(mem, Reg32::Imm(n as i32))));
                    } else {
                        let v = vec![
                            Instr::Mov(MovArgs::ToReg(Reg::Rdx, Arg64::Imm(n))),
                            Instr::Mov(MovArgs::ToMem(mem, Reg32::Reg(Reg::Rdx))),
                        ];
                        assert(v@ =~= move_code(dst, src));
                        self.append_instrs(v);
                    }
                },
                Arg64::Mem(m) => {
                    let v = vec![
                        Instr::Mov(MovArgs::ToReg(Reg::Rdx, Arg64::Mem(m))),
                        Instr::Mov(MovArgs::ToMem(mem, Reg32::Reg(Reg::Rdx))),
                    ];
                    assert(v@ =~= move_code(dst, src));
                    self.append_instrs(v);
                },
            },
        }
    }

    /// Emits the comparison of `rax` with `rcx` that leaves in `rax` whether `c` holds.
    pub fn compile_cmp(&mut self, c: Cond)
        ensures
            final(self).funs == old(self).funs,
            final(self).st() == emit(old(self).st(), compare_code(c)),
    {
        let pick: CMov = match c {
            Cond::E => CMov::E(Reg::Rax, Arg64::Reg(Reg::Rcx)),
            Cond::G => CMov::G(Reg::Rax, Arg64::Reg(Reg::Rcx)),
            Cond::GE => CMov::GE(Reg::Rax, Arg64::Reg(Reg::Rcx)),
            Cond::L => CMov::L(Reg::Rax, Arg64::Reg(Reg::Rcx)),
            Cond::LE => CMov::LE(Reg::Rax, Arg64::Reg(Reg::Rcx)),
        };
        let v = vec![
            Instr::Cmp(BinArgs::ToReg(Reg::Rax, Arg32::Reg(Reg::Rcx))),
            Instr::Mov(MovArgs::ToReg(Reg::Rax, arg64(bool_repr32(false)))),
            Instr::Mov(MovArgs::ToReg(Reg::Rcx, arg64(bool_repr32(true)))),
            Instr::CMov(pick),
        ];
        assert(v@ =~= compare_code(c));
        self.append_instrs(v);
    }

    /// Emits the entry of a function with `locals` locals that saves the
    /// registers `preserved`.
    pub fn fun_entry(&mut self, locals: u32, preserved: &Vec<Reg>) -> (r: Result<(), CompileError>)
        ensures
            final(self).funs == old(self).funs,
            emitted(r, entry_code(locals, preserved@), old(self).st(), final(self).st()),
    {
        if locals >= MAX_SLOTS {
            return Err(CompileError::FrameTooLarge);
        }
        let size: u32 = stack_size(locals, preserved);
        let ghost before = self.instrs@;
        let mut i: usize = 0;
        while i < preserved.len()
            invariant
                i <= preserved@.len(),
                self.funs == old(self).funs,
                self.tag == old(self).tag,
                self.instrs@ == before + pushes(preserved@, i as int),
            decreases preserved@.len() - i,
        {
            self.append_instr(Instr::Push(Arg32::Reg(preserved[i])));
            assert(self.instrs@ =~= before + pushes(preserved@, i + 1));
            i += 1;
        }
        let v = vec![
            Instr::Push(Arg32::Reg(Reg::Rbp)),
            Instr::Mov(MovArgs::ToReg(Reg::Rbp, Arg64::Reg(Reg::Rsp))),
            Instr::Sub(BinArgs::ToReg(Reg::Rsp, Arg32::Imm(8 * (size as i32)))),
        ];
        let ghost tail = v@;
        self.append_instrs(v);
        proof {
            let all = pushes(preserved@, preserved@.len() as int) + tail;
            assert(self.instrs@ =~= before + all);
            assert(entry_code(locals, preserved@) matches Ok(c) && c =~= all);
        }
        Ok(())
    }

    /// Emits the exit of a function with `locals` locals that restores the
    /// registers `preserved`.
    pub fn fun_exit(&mut self, locals: u32, preserved: &Vec<Reg>) -> (r: Result<(), CompileError>)
        ensures
            final(self).funs == old(self).funs,
            emitted(r, exit_code(locals, preserved@), old(self).st(), final(self).st()),
    {
        if locals >= MAX_SLOTS {
            return Err(CompileError::FrameTooLarge);
        }
        let size: u32 = stack_size(locals, preserved);
        let ghost before = self.instrs@;
        let n: usize = preserved.len();
        let mut i: usize = 0;
        while i < n
            invariant
                i <= n,
                n == preserved@.len(),
                self.funs == old(self).funs,
                self.tag == old(self).tag,
                self.instrs@ == before + pops(preserved@, i as int),
            decreases n - i,
        {
            self.append_instr(Instr::Pop(Loc::Reg(preserved[n - 1 - i])));
            assert(self.instrs@ =~= before + pops(preserved@, i + 1));
            i += 1;
        }
        let v = vec![
            Instr::Add(BinArgs::ToReg(Reg::Rsp, Arg32::Imm(8 * (size as i32)))),
            Instr::Pop(Loc::Reg(Reg::Rbp)),
            Instr::Ret,
        ];
        let ghost tail = v@;
        self.append_instrs(v);
        proof {
            let all = pops(preserved@, preserved@.len() as int) + tail;
            assert(self.instrs@ =~= before + all);
            assert(exit_code(locals, preserved@) matches Ok(c) && c =~= all);
        }
        Ok(())
    }

    /// Emits the code for the expression `e`, with its value going to `dst`.
    pub fn compile_expr(&mut self, cx: &Ctxt, dst: Loc, e: &Expr) -> (r: Result<(), CompileError>)
        ensures
            final(self).funs == old(self).funs,
            done(r, gen_expr(old(self).funs@, cx@, dst, *e, old(self).st()), final(self).st()),
        decreases e, 1nat,
    {
        match e {
            Expr::Number(n) => {
                self.move_to(dst, number_repr64(*n));
                Ok(())
            },
            Expr::Boolean(b) => {
                self.move_to(dst, arg64(bool_repr32(*b)));
                Ok(())
            },
            Expr::Var(x) => match cx.lookup(*x) {
                Ok(mem) => {
                    self.move_to(dst, Arg64::Mem(mem));
                    Ok(())
                },
                Err(err) => Err(err),
            },
            Expr::Let(_, _) => self.compile_let(cx, dst, e),
            Expr::UnOp(_, _) => self.compile_un_op(cx, dst, e),
            Expr::BinOp(_, _, _) => self.compile_bin_op(cx, dst, e),
            Expr::If(_, _, _) => self.compile_if(cx, dst, e),
            Expr::Loop(a) => {
                let tag: u32 = match self.next_tag() {
                    Ok(t) => t,
                    Err(err) => {
                        return Err(err);
                    },
                };
                self.append_instr(Instr::Label(Label::LoopStart(tag)));
                let inner = cx.set_curr_lbl(Label::LoopEnd(tag));
                match self.compile_expr(&inner, dst, a) {
                    Ok(_) => {},
                    Err(err) => {
                        return Err(err);
                    },
                }
                let v = vec![
                    Instr::Jmp(JmpArg::Label(Label::LoopStart(tag))),
                    Instr::Label(Label::LoopEnd(tag)),
                ];
                self.append_instrs(v);
                Ok(())
            },
            Expr::Break(a) => match cx.curr_lbl {
                Some(lbl) => {
                    match self.compile_expr(cx, dst, a) {
                        Ok(_) => {},
                        Err(err) => {
                            return Err(err);
                        },
                    }
                    self.append_instr(Instr::Jmp(JmpArg::Label(lbl)));
                    Ok(())
                },
                None => Err(raise_break_outside_loop()),
            },
            Expr::SetVar(x, a) => {
                let mem: MemRef = match cx.lookup(*x) {
                    Ok(m) => m,
                    Err(err) => {
                        return Err(err);
                    },
                };
                match self.compile_expr(cx, Loc::Mem(mem), a) {
                    Ok(_) => {},
                    Err(err) => {
                        return Err(err);
                    },
                }
                self.move_to(dst, Arg64::Mem(mem));
                Ok(())
            },
            Expr::Block(_) => self.compile_block(cx, dst, e),
            Expr::Call(_, _) => self.compile_call(cx, dst, e),
            Expr::Input => {
                if cx.in_fun {
                    Err(raise_input_in_fun())
                } else {
                    self.move_to(dst, arg64(Arg32::Reg(Reg::R14)));
                    Ok(())
                }
            },
            Expr::VecNew(_, _) => self.compile_vec_new(cx, dst, e),
        }
    }

    /// Emits the code for the `let` expression `e`.
    #[verifier::loop_isolation(false)]
    fn compile_let(&mut self, cx: &Ctxt, dst: Loc, e: &Expr) -> (r: Result<(), CompileError>)
        requires
            e is Let,
        ensures
            final(self).funs == old(self).funs,
            done(r, gen_expr(old(self).funs@, cx@, dst, *e, old(self).st()), final(self).st()),
        decreases e, 0nat,
    {
        let ghost funs = self.funs@;
        let ghost st0 = self.st();
        match e {
            Expr::Let(bs, body) => {
                let names = binding_names(bs);
                match check_dup_bindings(&names) {
                    Ok(_) => {},
                    Err(err) => {
                        return Err(err);
                    },
                }
                let mut cur: Ctxt = cx.copy();
                let mut i: usize = 0;
                while i < bs.len()
                    invariant
                        i <= bs@.len(),
                        bindings_of(*e) == bs@,
                        self.funs == old(self).funs,
                        funs == old(self).funs@,
                        gen_bindings(funs, cx@, *e, i as nat, st0) == Ok::<(Cx, St), CompileError>(
                            (cur@, self.st()),
                        ),
                    decreases bs@.len() - i,
                {
                    let (nextcx, mem) = match cur.next_local() {
                        Ok(p) => p,
                        Err(err) => {
                            proof {
                                lemma_bindings_err(funs, cx@, *e, (i + 1) as nat, bs@.len(), st0);
                            }
                            return Err(err);
                        },
                    };
                    match self.compile_expr(&cur, Loc::Mem(mem), &bs[i].value) {
                        Ok(_) => {},
                        Err(err) => {
                            proof {
                                lemma_bindings_err(funs, cx@, *e, (i + 1) as nat, bs@.len(), st0);
                            }
                            return Err(err);
                        },
                    }
                    cur = nextcx.add_binding(bs[i].name, mem.offset);
                    i += 1;
                }
                self.compile_expr(&cur, dst, body)
            },
            _ => Ok(()),
        }
    }

    /// Emits the code for the one-operand expression `e`.
    fn compile_un_op(&mut self, cx: &Ctxt, target: Loc, e: &Expr) -> (r: Result<(), CompileError>)
        requires
            e is UnOp,
        ensures
            final(self).funs == old(self).funs,
            done(r, gen_expr(old(self).funs@, cx@, target, *e, old(self).st()), final(self).st()),
        decreases e, 0nat,
    {
        match e {
            Expr::UnOp(op, a) => {
                match self.compile_expr(cx, Loc::Reg(Reg::Rax), a) {
                    Ok(_) => {},
                    Err(err) => {
                        return Err(err);
                    },
                }
                let ghost st1 = self.st();
                match op {
                    Op1::Add1 => {
                        self.check_is_num(Reg::Rax);
                        let v = vec![
                            Instr::Add(BinArgs::ToReg(Reg::Rax, Arg32::Imm(2))),
                            Instr::Jo(JmpArg::Label(Label::Overflow)),
                        ];
                        proof {
                            lemma_emit_twice(st1, num_check(Reg::Rax), v@);
                        }
                        self.append_instrs(v);
                    },
                    Op1::Sub1 => {
                        self.check_is_num(Reg::Rax);
                        let v = vec![
                            Instr::Sub(BinArgs::ToReg(Reg::Rax, Arg32::Imm(2))),
                            Instr::Jo(JmpArg::Label(Label::Overflow)),
                        ];
                        proof {
                            lemma_emit_twice(st1, num_check(Reg::Rax), v@);
                        }
                        self.append_instrs(v);
                    },
                    Op1::IsNum => {
                        let v = vec![
                            Instr::And(BinArgs::ToReg(Reg::Rax, Arg32::Imm(1))),
                            Instr::Mov(MovArgs::ToReg(Reg::Rcx, arg64(bool_repr32(true)))),
                            Instr::Mov(MovArgs::ToReg(Reg::Rax, arg64(bool_repr32(false)))),
                            Instr::CMov(CMov::Z(Reg::Rax, Arg64::Reg(Reg::Rcx))),
                        ];
                        self.append_instrs(v);
                    },
                    Op1::IsBool => {
                        let v = vec![
                            Instr::And(BinArgs::ToReg(Reg::Rax, Arg32::Imm(1))),
                            Instr::Mov(MovArgs::ToReg(Reg::Rcx, arg64(bool_repr32(false)))),
                            Instr::Mov(MovArgs::ToReg(Reg::Rax, arg64(bool_repr32(true)))),
                            Instr::CMov(CMov::Z(Reg::Rax, Arg64::Reg(Reg::Rcx))),
                        ];
                        self.append_instrs(v);
                    },
                    Op1::Print => {
                        let v = vec![
                            Instr::Mov(MovArgs::ToReg(Reg::Rdi, Arg64::Reg(Reg::Rax))),
                            Instr::Call(JmpArg::Label(Label::SnekPrint)),
                        ];
                        self.append_instrs(v);
                    },
                }
                assert(self.st().code =~= emit(st1, un_op_code(*op)).code);
                self.move_to(target, Arg64::Reg(Reg::Rax));
                Ok(())
            },
            _ => Ok(()),
        }
    }

    /// Emits the code for the two-operand expression `e`.
    fn compile_bin_op(&mut self, cx: &Ctxt, dst: Loc, e: &Expr) -> (r: Result<(), CompileError>)
        requires
            e is BinOp,
        ensures
            final(self).funs == old(self).funs,
            done(r, gen_expr(old(self).funs@, cx@, dst, *e, old(self).st()), final(self).st()),
        decreases e, 0nat,
    {
        match e {
            Expr::BinOp(op, e1, e2) => {
                let (nextcx, mem) = match cx.next_local() {
                    Ok(p) => p,
                    Err(err) => {
                        return Err(err);
                    },
                };
                match self.compile_expr(cx, Loc::Mem(mem), e1) {
                    Ok(_) => {},
                    Err(err) => {
                        return Err(err);
                    },
                }
                match self.compile_expr(&nextcx, Loc::Reg(Reg::Rcx), e2) {
                    Ok(_) => {},
                    Err(err) => {
                        return Err(err);
                    },
                }
                self.append_instr(Instr::Mov(MovArgs::ToReg(Reg::Rax, Arg64::Mem(mem))));
                let ghost st3 = self.st();
                match op {
                    Op2::Equal => {
                        let v = vec![
                            Instr::Cmp(BinArgs::ToReg(Reg::Rdx, Arg32::Reg(Reg::Rax))),
                            Instr::Xor(BinArgs::ToReg(Reg::Rdx, Arg32::Reg(Reg::Rcx))),
                            Instr::Test(BinArgs::ToReg(Reg::Rdx, Arg32::Imm(1))),
                            Instr::Jnz(JmpArg::Label(Label::InvalidArgument)),
                        ];
                        self.append_instrs(v);
                    },
                    _ => {
                        self.check_is_num(Reg::Rax);
                        self.check_is_num(Reg::Rcx);
                        proof {
                            lemma_emit_twice(st3, num_check(Reg::Rax), num_check(Reg::Rcx));
                        }
                    },
                }
                assert(self.st().code =~= emit(st3, bin_check_code(*op)).code);
                let ghost st4 = self.st();
                match op {
                    Op2::Plus => {
                        let v = vec![
                            Instr::Add(BinArgs::ToReg(Reg::Rax, Arg32::Reg(Reg::Rcx))),
                            Instr::Jo(JmpArg::Label(Label::Overflow)),
                        ];
                        self.append_instrs(v);
                    },
                    Op2::Minus => {
                        let v = vec![
                            Instr::Sub(BinArgs::ToReg(Reg::Rax, Arg32::Reg(Reg::Rcx))),
                            Instr::Jo(JmpArg::Label(Label::Overflow)),
                        ];
                        self.append_instrs(v);
                    },
                    Op2::Times => {
                        let v = vec![
                            Instr::Sar(BinArgs::ToReg(Reg::Rax, Arg32::Imm(1))),
                            Instr::IMul(BinArgs::ToReg(Reg::Rax, Arg32::Reg(Reg::Rcx))),
                            Instr::Jo(JmpArg::Label(Label::Overflow)),
                        ];
                        self.append_instrs(v);
                    },
                    Op2::Equal => self.compile_cmp(Cond::E),
                    Op2::Greater => self.compile_cmp(Cond::G),
                    Op2::GreaterEqual => self.compile_cmp(Cond::GE),
                    Op2::Less => self.compile_cmp(Cond::L),
                    Op2::LessEqual => self.compile_cmp(Cond::LE),
                }
                assert(self.st().code =~= emit(st4, bin_op_code(*op)).code);
                self.move_to(dst, Arg64::Reg(Reg::Rax));
                Ok(())
            },
            _ => Ok(()),
        }
    }

    /// Emits the code for the conditional expression `e`.
    fn compile_if(&mut self, cx: &Ctxt, dst: Loc, e: &Expr) -> (r: Result<(), CompileError>)
        requires
            e is If,
        ensures
            final(self).funs == old(self).funs,
            done(r, gen_expr(old(self).funs@, cx@, dst, *e, old(self).st()), final(self).st()),
        decreases e, 0nat,
    {
        match e {
            Expr::If(e1, e2, e3) => {
                let tag: u32 = match self.next_tag() {
                    Ok(t) => t,
                    Err(err) => {
                        return Err(err);
                    },
                };
                match self.compile_expr(cx, Loc::Reg(Reg::Rax), e1) {
                    Ok(_) => {},
                    Err(err) => {
                        return Err(err);
                    },
                }
                let v = vec![
                    Instr::Cmp(BinArgs::ToReg(Reg::Rax, bool_repr32(false))),
                    Instr::Je(JmpArg::Label(Label::IfElse(tag))),
                ];
                self.append_instrs(v);
                match self.compile_expr(cx, dst, e2) {
                    Ok(_) => {},
                    Err(err) => {
                        return Err(err);
                    },
                }
                let v = vec![
                    Instr::Jmp(JmpArg::Label(Label::IfEnd(tag))),
                    Instr::Label(Label::IfElse(tag)),
                ];
                self.append_instrs(v);
                match self.compile_expr(cx, dst, e3) {
                    Ok(_) => {},
                    Err(err) => {
                        return Err(err);
                    },
                }
                self.append_instr(Instr::Label(Label::IfEnd(tag)));
                Ok(())
            },
            _ => Ok(()),
        }
    }

    /// Emits the code for the block `e`: all but the last expression with
    /// their values going to `rcx`, the last with its value going to `dst`.
    #[verifier::loop_isolation(false)]
    fn compile_block(&mut self, cx: &Ctxt, dst: Loc, e: &Expr) -> (r: Result<(), CompileError>)
        requires
            e is Block,
        ensures
            final(self).funs == old(self).funs,
            done(r, gen_expr(old(self).funs@, cx@, dst, *e, old(self).st()), final(self).st()),
        decreases e, 0nat,
    {
        let ghost funs = self.funs@;
        let ghost st0 = self.st();
        match e {
            Expr::Block(es) => {
                if es.len() == 0 {
                    return Err(CompileError::EmptyBlock);
                }
                let last: usize = es.len() - 1;
                let mut i: usize = 0;
                while i < last
                    invariant
                        i <= last,
                        last == es@.len() - 1,
                        items_of(*e) == es@,
                        self.funs == old(self).funs,
                        funs == old(self).funs@,
                        gen_items(funs, cx@, *e, i as nat, st0) == Ok::<St, CompileError>(self.st()),
                    decreases last - i,
                {
                    match self.compile_expr(cx, Loc::Reg(Reg::Rcx), &es[i]) {
                        Ok(_) => {},
                        Err(err) => {
                            proof {
                                lemma_items_err(funs, cx@, *e, (i + 1) as nat, last as nat, st0);
                            }
                            return Err(err);
                        },
                    }
                    i += 1;
                }
                self.compile_expr(cx, dst, &es[last])
            },
            _ => Ok(()),
        }
    }

    /// Emits the code for the call `e`: room for the arguments, the arguments,
    /// the call, and the release of the room.
    #[verifier::loop_isolation(false)]
    fn compile_call(&mut self, cx: &Ctxt, dst: Loc, e: &Expr) -> (r: Result<(), CompileError>)
        requires
            e is Call,
        ensures
            final(self).funs == old(self).funs,
            done(r, gen_expr(old(self).funs@, cx@, dst, *e, old(self).st()), final(self).st()),
        decreases e, 0nat,
    {
        broadcast use vstd::std_specs::hash::group_hash_axioms;

        let ghost funs = self.funs@;
        match e {
            Expr::Call(fun, args) => {
                let arity: usize = match self.funs.get(&fun.id) {
                    Some(a) => *a,
                    None => {
                        return Err(raise_undefined_fun(*fun));
                    },
                };
                if args.len() != arity {
                    return Err(raise_worng_number_of_args(arity, args.len()));
                }
                if args.len() >= MAX_SLOTS as usize {
                    return Err(CompileError::FrameTooLarge);
                }
                let nargs: i32 = align_args(args.len()) as i32;
                self.append_instr(Instr::Sub(BinArgs::ToReg(Reg::Rsp, Arg32::Imm(8 * nargs))));
                let ghost st0 = self.st();
                let mut i: usize = 0;
                while i < args.len()
                    invariant
                        i <= args@.len(),
                        args@.len() < MAX_SLOTS,
                        items_of(*e) == args@,
                        self.funs == old(self).funs,
                        funs == old(self).funs@,
                        gen_args(funs, cx@, *e, i as nat, st0) == Ok::<St, CompileError>(self.st()),
                    decreases args@.len() - i,
                {
                    let mem = MemRef { reg: Reg::Rsp, offset: 8 * (i as i32) };
                    match self.compile_expr(cx, Loc::Mem(mem), &args[i]) {
                        Ok(_) => {},
                        Err(err) => {
                            proof {
                                lemma_args_err(funs, cx@, *e, (i + 1) as nat, args@.len(), st0);
                            }
                            return Err(err);
                        },
                    }
                    i += 1;
                }
                let v = vec![
                    Instr::Call(JmpArg::Label(Label::FunStart(fun.id))),
                    Instr::Add(BinArgs::ToReg(Reg::Rsp, Arg32::Imm(8 * nargs))),
                ];
                self.append_instrs(v);
                self.move_to(dst, Arg64::Reg(Reg::Rax));
                Ok(())
            },
            _ => Ok(()),
        }
    }

    /// Emits the code for the vector expression `e`: the size to a fresh slot,
    /// the element to `rcx`, and the check that the size is a number.
    fn compile_vec_new(&mut self, cx: &Ctxt, dst: Loc, e: &Expr) -> (r: Result<(), CompileError>)
        requires
            e is VecNew,
        ensures
            final(self).funs == old(self).funs,
            done(r, gen_expr(old(self).funs@, cx@, dst, *e, old(self).st()), final(self).st()),
        decreases e, 0nat,
    {
        match e {
            Expr::VecNew(size, elem) => {
                let (nextcx, mem) = match cx.next_local() {
                    Ok(p) => p,
                    Err(err) => {
                        return Err(err);
                    },
                };
                match self.compile_expr(cx, Loc::Mem(mem), size) {
                    Ok(_) => {},
                    Err(err) => {
                        return Err(err);
                    },
                }
                match self.compile_expr(&nextcx, Loc::Reg(Reg::Rcx), elem) {
                    Ok(_) => {},
                    Err(err) => {
                        return Err(err);
                    },
                }
                self.append_instr(Instr::Mov(MovArgs::ToReg(Reg::Rax, Arg64::Mem(mem))));
                self.check_is_num(Reg::Rax);
                Ok(())
            },
            _ => Ok(()),
        }
    }

    /// Emits the code of the function `fun`: its label, its entry, its body with
    /// the value going to `rax`, and its exit.
    pub fn compile_fun(&mut self, fun: &FunDecl) -> (r: Result<(), CompileError>)
        ensures
            final(self).funs == old(self).funs,
            done(r, gen_fun(old(self).funs@, *fun, old(self).st()), final(self).st()),
    {
        match check_dup_bindings(&fun.params) {
            Ok(_) => {},
            Err(err) => {
                return Err(err);
            },
        }
        let locals: u32 = match frame_locals(&fun.body) {
            Ok(n) => n,
            Err(err) => {
                return Err(err);
            },
        };
        self.append_instr(Instr::Label(Label::FunStart(fun.name.id)));
        let ghost st1 = self.st();
        let none: Vec<Reg> = Vec::new();
        match self.fun_entry(locals, &none) {
            Ok(_) => {},
            Err(err) => {
                return Err(err);
            },
        }
        let cx: Ctxt = match Ctxt::fun(&fun.params) {
            Ok(c) => c,
            Err(err) => {
                return Err(err);
            },
        };
        match self.compile_expr(&cx, Loc::Reg(Reg::Rax), &fun.body) {
            Ok(_) => {},
            Err(err) => {
                return Err(err);
            },
        }
        self.fun_exit(locals, &none)
    }

    /// Emits the code of the functions `funs`, in order.
    pub fn compile_funs(&mut self, funs: &Vec<FunDecl>) -> (r: Result<(), CompileError>)
        ensures
            final(self).funs == old(self).funs,
            done(
                r,
                gen_funs(old(self).funs@, funs@, funs@.len() as int, old(self).st()),
                final(self).st(),
            ),
    {
        let ghost map = self.funs@;
        let ghost st0 = self.st();
        let mut i: usize = 0;
        while i < funs.len()
            invariant
                i <= funs@.len(),
                self.funs == old(self).funs,
                map == old(self).funs@,
                st0 == old(self).st(),
                gen_funs(map, funs@, i as int, st0) == Ok::<St, CompileError>(self.st()),
            decreases funs@.len() - i,
        {
            match self.compile_fun(&funs[i]) {
                Ok(_) => {},
                Err(err) => {
                    proof {
                        lemma_funs_err(map, funs@, i + 1, funs@.len() as int, st0);
                    }
                    return Err(err);
                },
            }
            i += 1;
        }
        Ok(())
    }
}

/// The number of slots for the locals of `e`, or the error that they are too many.
pub fn frame_locals(e: &Expr) -> (r: Result<u32, CompileError>)
    ensures
        r == locals_of(*e),
{
    match depth(e) {
        Some(d) => {
            if d >= MAX_SLOTS {
                Err(CompileError::FrameTooLarge)
            } else {
                Ok(d)
            }
        },
        None => Err(CompileError::FrameTooLarge),
    }
}

/// The text of a program whose instructions are `code`: the header, the
/// instructions one to a line, and the two error handlers.
pub open spec fn program_text(code: Seq<Instr>) -> Seq<char> {
    "\nsection .text\nextern snek_error\nextern snek_print\nglobal our_code_starts_here\n"@
        + listing(code, code.len() as int)
        + "\ninvalid_argument:\nmov edi, 1\ncall snek_error\noverflow:\nmov edi, 2\ncall snek_error\n"@
}

/// Emits the instructions of the program `prg`: its functions, then its main
/// expression under the entry label.
pub fn compile_prog(prg: &Prog) -> (r: Result<Vec<Instr>, CompileError>)
    ensures
        match r {
            Ok(code) => gen_prog(*prg) == Ok::<Seq<Instr>, CompileError>(code@),
            Err(err) => gen_prog(*prg) == Err::<Seq<Instr>, CompileError>(err),
        },
{
    let funs = match fun_arity_map(prg) {
        Ok(map) => map,
        Err(dup) => {
            return Err(raise_duplicate_function(dup));
        },
    };
    let mut sess = Session::new(funs);
    let locals: u32 = match frame_locals(&prg.main) {
        Ok(n) => n,
        Err(err) => {
            return Err(err);
        },
    };
    match sess.compile_funs(&prg.funs) {
        Ok(_) => {},
        Err(err) => {
            return Err(err);
        },
    }
    sess.append_instr(Instr::Label(Label::OurCodeStartsHere));
    let saved: Vec<Reg> = vec![Reg::R14, Reg::R15];
    assert(saved@ =~= main_preserved());
    match sess.fun_entry(locals, &saved) {
        Ok(_) => {},
        Err(err) => {
            return Err(err);
        },
    }
    let v = vec![
        Instr::Mov(MovArgs::ToReg(Reg::R14, Arg64::Reg(Reg::Rdi))),
        Instr::Mov(MovArgs::ToReg(Reg::R15, Arg64::Reg(Reg::Rsi))),
    ];
    sess.append_instrs(v);
    let cx = Ctxt::new();
    match sess.compile_expr(&cx, Loc::Reg(Reg::Rax), &prg.main) {
        Ok(_) => {},
        Err(err) => {
            return Err(err);
        },
    }
    match sess.fun_exit(locals, &saved) {
        Ok(_) => {},
        Err(err) => {
            return Err(err);
        },
    }
    Ok(sess.instrs)
}

/// Compiles the program `prg` to its text, or gives the first reason why it
/// is refused.
pub fn try_compile(prg: &Prog) -> (r: Result<String, CompileError>)
    ensures
        match r {
            Ok(text) => gen_prog(*prg) matches Ok(code) && text@ == program_text(code),
            Err(err) => gen_prog(*prg) == Err::<Seq<Instr>, CompileError>(err),
        },
{
    match compile_prog(prg) {
        Err(err) => Err(err),
        Ok(code) => {
            let mut text = String::from_str(
                "\nsection .text\nextern snek_error\nextern snek_print\nglobal our_code_starts_here\n",
            );
            let body = instrs_to_string(&code);
            text.append(body.as_str());
            text.append(
                "\ninvalid_argument:\nmov edi, 1\ncall snek_error\noverflow:\nmov edi, 2\ncall snek_error\n",
            );
            Ok(text)
        },
    }
}

/// Compiles the program `prg` to its text. The program must be one that is
/// not refused; `try_compile` tells whether it is, and why not.
pub fn compile(prg: &Prog) -> (text: String)
    requires
        gen_prog(*prg) is Ok,
    ensures
        gen_prog(*prg) matches Ok(code) && text@ == program_text(code),
{
    match try_compile(prg) {
        Ok(text) => text,
        Err(_) => vstd::pervasive::unreached(),
    }
}

} // verus!
