use snek::codegen::Cond;
use snek::compiler::{
    align_args, binding_names, bool_repr32, check_dup_bindings, compile, compile_prog,
    fun_arity_map, number_repr64, stack_size, try_compile, Session,
};
use snek::context::Ctxt;
use snek::error::CompileError;
use snek::instr::{
    arg64, instrs_to_string, Arg32, Arg64, BinArgs, CMov, Instr, JmpArg, Label, Loc, MemRef,
    MovArgs, Reg, Reg32,
};
use snek::syntax::{depth, Binding, Expr, FunDecl, Op1, Op2, Prog, Symbol};
use std::collections::HashMap;

fn sym(id: u32) -> Symbol {
    Symbol { id }
}

fn num(n: i64) -> Expr {
    Expr::Number(n)
}

fn var(id: u32) -> Expr {
    Expr::Var(sym(id))
}

fn bx(e: Expr) -> Box<Expr> {
    Box::new(e)
}

fn bind(id: u32, value: Expr) -> Binding {
    Binding { name: sym(id), value }
}

fn main_only(main: Expr) -> Prog {
    Prog { funs: vec![], main }
}

fn rbp(offset: i32) -> MemRef {
    MemRef { reg: Reg::Rbp, offset }
}

fn mov_reg(r: Reg, a: Arg64) -> Instr {
    Instr::Mov(MovArgs::ToReg(r, a))
}

fn mov_mem(m: MemRef, a: Reg32) -> Instr {
    Instr::Mov(MovArgs::ToMem(m, a))
}

fn jump_label(l: Label) -> JmpArg {
    JmpArg::Label(l)
}

fn num_check(r: Reg) -> Vec<Instr> {
    vec![
        Instr::Test(BinArgs::ToReg(r, Arg32::Imm(1))),
        Instr::Jnz(jump_label(Label::InvalidArgument)),
    ]
}

/// The instructions around the code of a main expression with `slots` frame slots.
fn in_main(slots: i32, body: Vec<Instr>) -> Vec<Instr> {
    let mut code = vec![
        Instr::Label(Label::OurCodeStartsHere),
        Instr::Push(Arg32::Reg(Reg::R14)),
        Instr::Push(Arg32::Reg(Reg::R15)),
        Instr::Push(Arg32::Reg(Reg::Rbp)),
        mov_reg(Reg::Rbp, Arg64::Reg(Reg::Rsp)),
        Instr::Sub(BinArgs::ToReg(Reg::Rsp, Arg32::Imm(8 * slots))),
        mov_reg(Reg::R14, Arg64::Reg(Reg::Rdi)),
        mov_reg(Reg::R15, Arg64::Reg(Reg::Rsi)),
    ];
    code.extend(body);
    code.extend(vec![
        Instr::Pop(Loc::Reg(Reg::R15)),
        Instr::Pop(Loc::Reg(Reg::R14)),
        Instr::Add(BinArgs::ToReg(Reg::Rsp, Arg32::Imm(8 * slots))),
        Instr::Pop(Loc::Reg(Reg::Rbp)),
        Instr::Ret,
    ]);
    code
}

fn main_code(main: Expr) -> Result<Vec<Instr>, CompileError> {
    compile_prog(&main_only(main))
}

#[test]
fn number_program_compiles_to_its_text() {
    let text = compile(&main_only(num(5)));
    assert_eq!(
        text,
        "\nsection .text\nextern snek_error\nextern snek_print\nglobal our_code_starts_here\nour_code_starts_here:\npush r14\npush r15\npush rbp\nmov rbp, rsp\nsub rsp, 0\nmov r14, rdi\nmov r15, rsi\nmov rax, 10\npop r15\npop r14\nadd rsp, 0\npop rbp\nret\ninvalid_argument:\nmov edi, 1\ncall snek_error\noverflow:\nmov edi, 2\ncall snek_error\n"
    );
    assert_eq!(try_compile(&main_only(num(5))), Ok(text));
}

#[test]
fn refusals_have_their_messages() {
    assert_eq!(CompileError::DuplicateFunction(sym(7)).message(), "duplicate function name 7");
    assert_eq!(CompileError::DuplicateBinding(sym(12)).message(), "duplicate binding 12");
    assert_eq!(
        CompileError::UnboundIdentifier(sym(0)).message(),
        "unbound variable identifier 0"
    );
    assert_eq!(CompileError::BreakOutsideLoop.message(), "break outside loop");
    assert_eq!(
        CompileError::InputInFun.message(),
        "cannot use input inside function definition"
    );
    assert_eq!(CompileError::UndefinedFun(sym(3)).message(), "function 3 not defined");
    assert_eq!(
        CompileError::WrongNumberOfArgs { expected: 2, got: 10 }.message(),
        "function takes 2 arguments but 10 were supplied"
    );
    assert_eq!(CompileError::EmptyBlock.message(), "block without an expression");
    assert_eq!(CompileError::FrameTooLarge.message(), "frame too large");
    assert_eq!(CompileError::TooManyLabels.message(), "too many labels");
}

#[test]
fn instructions_are_listed_one_to_a_line() {
    let code = vec![
        Instr::Label(Label::FunStart(3)),
        mov_mem(rbp(-16), Reg32::Imm(-4)),
        mov_reg(Reg::Rcx, Arg64::Mem(MemRef { reg: Reg::Rsp, offset: 8 })),
        Instr::CMov(CMov::GE(Reg::Rax, Arg64::Reg(Reg::Rcx))),
        Instr::IMul(BinArgs::ToMem(rbp(0), Reg32::Reg(Reg::Rdx))),
        Instr::Je(jump_label(Label::IfElse(12))),
        Instr::Jmp(JmpArg::Reg(Reg::Rbx)),
        Instr::Call(jump_label(Label::SnekPrint)),
        Instr::Pop(Loc::Mem(rbp(-8))),
        Instr::Label(Label::LoopEnd(0)),
        Instr::Ret,
    ];
    assert_eq!(
        instrs_to_string(&code),
        "fun_start_3:\nmov qword [rbp - 16], -4\nmov rcx, qword [rsp + 8]\ncmovge rax, rcx\nimul qword [rbp + 0], rdx\nje if_else_12\njmp rbx\ncall snek_print\npop qword [rbp - 8]\nloop_end_0:\nret"
    );
    assert_eq!(instrs_to_string(&vec![]), "");
    assert_eq!(instrs_to_string(&vec![Instr::Ret]), "ret");
}

#[test]
fn values_have_their_encodings() {
    assert_eq!(number_repr64(5), Arg64::Imm(10));
    assert_eq!(number_repr64(-1), Arg64::Imm(-2));
    assert_eq!(number_repr64(i64::MAX), Arg64::Imm(-2));
    assert_eq!(number_repr64(i64::MIN), Arg64::Imm(0));
    assert_eq!(number_repr64(0x4000_0000_0000_0000), Arg64::Imm(i64::MIN));
    assert_eq!(bool_repr32(true), Arg32::Imm(7));
    assert_eq!(bool_repr32(false), Arg32::Imm(3));
    assert_eq!(arg64(Arg32::Imm(-9)), Arg64::Imm(-9));
    assert_eq!(arg64(Arg32::Reg(Reg::Rsi)), Arg64::Reg(Reg::Rsi));
}

#[test]
fn constants_go_to_the_result_register() {
    assert_eq!(
        main_code(Expr::Boolean(true)),
        Ok(in_main(0, vec![mov_reg(Reg::Rax, Arg64::Imm(7))]))
    );
    assert_eq!(
        main_code(Expr::Boolean(false)),
        Ok(in_main(0, vec![mov_reg(Reg::Rax, Arg64::Imm(3))]))
    );
    assert_eq!(
        main_code(Expr::Input),
        Ok(in_main(0, vec![mov_reg(Reg::Rax, Arg64::Reg(Reg::R14))]))
    );
}

#[test]
fn let_binds_a_slot_and_the_body_finds_it() {
    let e = Expr::Let(
        vec![bind(1, num(5))],
        bx(Expr::BinOp(Op2::Plus, bx(var(1)), bx(num(1)))),
    );
    let mut body = vec![
        mov_mem(rbp(-8), Reg32::Imm(10)),
        mov_reg(Reg::Rdx, Arg64::Mem(rbp(-8))),
        mov_mem(rbp(-16), Reg32::Reg(Reg::Rdx)),
        mov_reg(Reg::Rcx, Arg64::Imm(2)),
        mov_reg(Reg::Rax, Arg64::Mem(rbp(-16))),
    ];
    body.extend(num_check(Reg::Rax));
    body.extend(num_check(Reg::Rcx));
    body.extend(vec![
        Instr::Add(BinArgs::ToReg(Reg::Rax, Arg32::Reg(Reg::Rcx))),
        Instr::Jo(jump_label(Label::Overflow)),
    ]);
    assert_eq!(main_code(e), Ok(in_main(2, body)));
}

#[test]
fn later_binding_sees_earlier_and_hides_outer() {
    let e = Expr::Let(
        vec![bind(1, num(1))],
        bx(Expr::Let(vec![bind(2, var(1)), bind(1, var(2))], bx(var(1)))),
    );
    let body = vec![
        mov_mem(rbp(-8), Reg32::Imm(2)),
        mov_reg(Reg::Rdx, Arg64::Mem(rbp(-8))),
        mov_mem(rbp(-16), Reg32::Reg(Reg::Rdx)),
        mov_reg(Reg::Rdx, Arg64::Mem(rbp(-16))),
        mov_mem(rbp(-24), Reg32::Reg(Reg::Rdx)),
        mov_reg(Reg::Rax, Arg64::Mem(rbp(-24))),
    ];
    assert_eq!(main_code(e), Ok(in_main(4, body)));
}

#[test]
fn large_number_goes_to_memory_by_way_of_a_register() {
    let e = Expr::Let(vec![bind(1, num(0x1_0000_0000))], bx(num(0)));
    let body = vec![
        mov_reg(Reg::Rdx, Arg64::Imm(0x2_0000_0000)),
        mov_mem(rbp(-8), Reg32::Reg(Reg::Rdx)),
        mov_reg(Reg::Rax, Arg64::Imm(0)),
    ];
    assert_eq!(main_code(e), Ok(in_main(2, body)));
}

#[test]
fn conditional_uses_two_labels_with_one_number() {
    let e = Expr::If(bx(Expr::Boolean(true)), bx(num(1)), bx(num(2)));
    let body = vec![
        mov_reg(Reg::Rax, Arg64::Imm(7)),
        Instr::Cmp(BinArgs::ToReg(Reg::Rax, Arg32::Imm(3))),
        Instr::Je(jump_label(Label::IfElse(0))),
        mov_reg(Reg::Rax, Arg64::Imm(2)),
        Instr::Jmp(jump_label(Label::IfEnd(0))),
        Instr::Label(Label::IfElse(0)),
        mov_reg(Reg::Rax, Arg64::Imm(4)),
        Instr::Label(Label::IfEnd(0)),
    ];
    assert_eq!(main_code(e), Ok(in_main(0, body)));
}

#[test]
fn loop_and_break_jump_to_the_loop_labels() {
    let e = Expr::Loop(bx(Expr::Loop(bx(Expr::Break(bx(num(3)))))));
    let body = vec![
        Instr::Label(Label::LoopStart(0)),
        Instr::Label(Label::LoopStart(1)),
        mov_reg(Reg::Rax, Arg64::Imm(6)),
        Instr::Jmp(jump_label(Label::LoopEnd(1))),
        Instr::Jmp(jump_label(Label::LoopStart(1))),
        Instr::Label(Label::LoopEnd(1)),
        Instr::Jmp(jump_label(Label::LoopStart(0))),
        Instr::Label(Label::LoopEnd(0)),
    ];
    assert_eq!(main_code(e), Ok(in_main(0, body)));
}

#[test]
fn set_stores_and_then_yields_the_variable() {
    let e = Expr::Let(vec![bind(4, num(0))], bx(Expr::SetVar(sym(4), bx(num(9)))));
    let body = vec![
        mov_mem(rbp(-8), Reg32::Imm(0)),
        mov_mem(rbp(-8), Reg32::Imm(18)),
        mov_reg(Reg::Rax, Arg64::Mem(rbp(-8))),
    ];
    assert_eq!(main_code(e), Ok(in_main(2, body)));
}

#[test]
fn block_sends_all_but_the_last_value_to_rcx() {
    let e = Expr::Block(vec![num(1), num(2), num(3)]);
    let body = vec![
        mov_reg(Reg::Rcx, Arg64::Imm(2)),
        mov_reg(Reg::Rcx, Arg64::Imm(4)),
        mov_reg(Reg::Rax, Arg64::Imm(6)),
    ];
    assert_eq!(main_code(e), Ok(in_main(0, body)));
}

#[test]
fn unary_operators_emit_their_code() {
    let mut add1 = vec![mov_reg(Reg::Rax, Arg64::Imm(2))];
    add1.extend(num_check(Reg::Rax));
    add1.extend(vec![
        Instr::Add(BinArgs::ToReg(Reg::Rax, Arg32::Imm(2))),
        Instr::Jo(jump_label(Label::Overflow)),
    ]);
    assert_eq!(main_code(Expr::UnOp(Op1::Add1, bx(num(1)))), Ok(in_main(0, add1)));
    let mut sub1 = vec![mov_reg(Reg::Rax, Arg64::Imm(2))];
    sub1.extend(num_check(Reg::Rax));
    sub1.extend(vec![
        Instr::Sub(BinArgs::ToReg(Reg::Rax, Arg32::Imm(2))),
        Instr::Jo(jump_label(Label::Overflow)),
    ]);
    assert_eq!(main_code(Expr::UnOp(Op1::Sub1, bx(num(1)))), Ok(in_main(0, sub1)));
    let is_num = vec![
        mov_reg(Reg::Rax, Arg64::Imm(2)),
        Instr::And(BinArgs::ToReg(Reg::Rax, Arg32::Imm(1))),
        mov_reg(Reg::Rcx, Arg64::Imm(7)),
        mov_reg(Reg::Rax, Arg64::Imm(3)),
        Instr::CMov(CMov::Z(Reg::Rax, Arg64::Reg(Reg::Rcx))),
    ];
    assert_eq!(main_code(Expr::UnOp(Op1::IsNum, bx(num(1)))), Ok(in_main(0, is_num)));
    let is_bool = vec![
        mov_reg(Reg::Rax, Arg64::Imm(2)),
        Instr::And(BinArgs::ToReg(Reg::Rax, Arg32::Imm(1))),
        mov_reg(Reg::Rcx, Arg64::Imm(3)),
        mov_reg(Reg::Rax, Arg64::Imm(7)),
        Instr::CMov(CMov::Z(Reg::Rax, Arg64::Reg(Reg::Rcx))),
    ];
    assert_eq!(main_code(Expr::UnOp(Op1::IsBool, bx(num(1)))), Ok(in_main(0, is_bool)));
    let print = vec![
        mov_reg(Reg::Rax, Arg64::Imm(2)),
        mov_reg(Reg::Rdi, Arg64::Reg(Reg::Rax)),
        Instr::Call(jump_label(Label::SnekPrint)),
    ];
    assert_eq!(main_code(Expr::UnOp(Op1::Print, bx(num(1)))), Ok(in_main(0, print)));
}

fn operands() -> Vec<Instr> {
    vec![
        mov_mem(rbp(-8), Reg32::Imm(2)),
        mov_reg(Reg::Rcx, Arg64::Imm(4)),
        mov_reg(Reg::Rax, Arg64::Mem(rbp(-8))),
    ]
}

fn comparison(pick: CMov) -> Vec<Instr> {
    vec![
        Instr::Cmp(BinArgs::ToReg(Reg::Rax, Arg32::Reg(Reg::Rcx))),
        mov_reg(Reg::Rax, Arg64::Imm(3)),
        mov_reg(Reg::Rcx, Arg64::Imm(7)),
        Instr::CMov(pick),
    ]
}

#[test]
fn arithmetic_operators_check_for_numbers_and_overflow() {
    let mut times = operands();
    times.extend(num_check(Reg::Rax));
    times.extend(num_check(Reg::Rcx));
    times.extend(vec![
        Instr::Sar(BinArgs::ToReg(Reg::Rax, Arg32::Imm(1))),
        Instr::IMul(BinArgs::ToReg(Reg::Rax, Arg32::Reg(Reg::Rcx))),
        Instr::Jo(jump_label(Label::Overflow)),
    ]);
    assert_eq!(
        main_code(Expr::BinOp(Op2::Times, bx(num(1)), bx(num(2)))),
        Ok(in_main(2, times))
    );
    let mut minus = operands();
    minus.extend(num_check(Reg::Rax));
    minus.extend(num_check(Reg::Rcx));
    minus.extend(vec![
        Instr::Sub(BinArgs::ToReg(Reg::Rax, Arg32::Reg(Reg::Rcx))),
        Instr::Jo(jump_label(Label::Overflow)),
    ]);
    assert_eq!(
        main_code(Expr::BinOp(Op2::Minus, bx(num(1)), bx(num(2)))),
        Ok(in_main(2, minus))
    );
}

#[test]
fn comparisons_pick_with_a_conditional_move() {
    let arg = Arg64::Reg(Reg::Rcx);
    for (op, pick) in [
        (Op2::Greater, CMov::G(Reg::Rax, arg)),
        (Op2::GreaterEqual, CMov::GE(Reg::Rax, arg)),
        (Op2::Less, CMov::L(Reg::Rax, arg)),
        (Op2::LessEqual, CMov::LE(Reg::Rax, arg)),
    ] {
        let mut code = operands();
        code.extend(num_check(Reg::Rax));
        code.extend(num_check(Reg::Rcx));
        code.extend(comparison(pick));
        assert_eq!(main_code(Expr::BinOp(op, bx(num(1)), bx(num(2)))), Ok(in_main(2, code)));
    }
    let mut equal = operands();
    equal.extend(vec![
        Instr::Cmp(BinArgs::ToReg(Reg::Rdx, Arg32::Reg(Reg::Rax))),
        Instr::Xor(BinArgs::ToReg(Reg::Rdx, Arg32::Reg(Reg::Rcx))),
        Instr::Test(BinArgs::ToReg(Reg::Rdx, Arg32::Imm(1))),
        Instr::Jnz(jump_label(Label::InvalidArgument)),
    ]);
    equal.extend(comparison(CMov::E(Reg::Rax, arg)));
    assert_eq!(
        main_code(Expr::BinOp(Op2::Equal, bx(num(1)), bx(num(2)))),
        Ok(in_main(2, equal))
    );
}

#[test]
fn session_emits_a_comparison() {
    let mut sess = Session::new(HashMap::new());
    sess.compile_cmp(Cond::L);
    assert_eq!(sess.instrs, comparison(CMov::L(Reg::Rax, Arg64::Reg(Reg::Rcx))));
    assert_eq!(sess.tag, 0);
}

#[test]
fn vector_expression_checks_its_size() {
    let mut body = vec![
        mov_mem(rbp(-8), Reg32::Imm(6)),
        mov_reg(Reg::Rcx, Arg64::Imm(0)),
        mov_reg(Reg::Rax, Arg64::Mem(rbp(-8))),
    ];
    body.extend(num_check(Reg::Rax));
    assert_eq!(main_code(Expr::VecNew(bx(num(3)), bx(num(0)))), Ok(in_main(2, body)));
}

#[test]
fn function_and_call_are_compiled() {
    let f = FunDecl { name: sym(7), params: vec![sym(1), sym(2)], body: var(2) };
    let g = FunDecl { name: sym(8), params: vec![sym(1)], body: var(1) };
    let prg = Prog {
        funs: vec![f, g],
        main: Expr::Block(vec![
            Expr::Call(sym(7), vec![num(1), num(2)]),
            Expr::Call(sym(8), vec![Expr::Boolean(false)]),
        ]),
    };
    let mut code = vec![
        Instr::Label(Label::FunStart(7)),
        Instr::Push(Arg32::Reg(Reg::Rbp)),
        mov_reg(Reg::Rbp, Arg64::Reg(Reg::Rsp)),
        Instr::Sub(BinArgs::ToReg(Reg::Rsp, Arg32::Imm(0))),
        mov_reg(Reg::Rax, Arg64::Mem(rbp(24))),
        Instr::Add(BinArgs::ToReg(Reg::Rsp, Arg32::Imm(0))),
        Instr::Pop(Loc::Reg(Reg::Rbp)),
        Instr::Ret,
        Instr::Label(Label::FunStart(8)),
        Instr::Push(Arg32::Reg(Reg::Rbp)),
        mov_reg(Reg::Rbp, Arg64::Reg(Reg::Rsp)),
        Instr::Sub(BinArgs::ToReg(Reg::Rsp, Arg32::Imm(0))),
        mov_reg(Reg::Rax, Arg64::Mem(rbp(16))),
        Instr::Add(BinArgs::ToReg(Reg::Rsp, Arg32::Imm(0))),
        Instr::Pop(Loc::Reg(Reg::Rbp)),
        Instr::Ret,
    ];
    code.extend(in_main(
        0,
        vec![
            Instr::Sub(BinArgs::ToReg(Reg::Rsp, Arg32::Imm(16))),
            mov_mem(MemRef { reg: Reg::Rsp, offset: 0 }, Reg32::Imm(2)),
            mov_mem(MemRef { reg: Reg::Rsp, offset: 8 }, Reg32::Imm(4)),
            Instr::Call(jump_label(Label::FunStart(7))),
            Instr::Add(BinArgs::ToReg(Reg::Rsp, Arg32::Imm(16))),
            mov_reg(Reg::Rcx, Arg64::Reg(Reg::Rax)),
            Instr::Sub(BinArgs::ToReg(Reg::Rsp, Arg32::Imm(16))),
            mov_mem(MemRef { reg: Reg::Rsp, offset: 0 }, Reg32::Imm(3)),
            Instr::Call(jump_label(Label::FunStart(8))),
            Instr::Add(BinArgs::ToReg(Reg::Rsp, Arg32::Imm(16))),
        ],
    ));
    assert_eq!(compile_prog(&prg), Ok(code));
}

#[test]
fn odd_frame_is_padded_to_an_even_number_of_slots() {
    let f = FunDecl {
        name: sym(1),
        params: vec![],
        body: Expr::BinOp(Op2::Plus, bx(num(0)), bx(num(0))),
    };
    let prg = Prog { funs: vec![f], main: num(0) };
    let code = compile_prog(&prg).unwrap();
    assert_eq!(code[3], Instr::Sub(BinArgs::ToReg(Reg::Rsp, Arg32::Imm(16))));
    assert_eq!(stack_size(1, &vec![]), 2);
    assert_eq!(stack_size(2, &vec![]), 2);
    assert_eq!(stack_size(1, &vec![Reg::R14]), 1);
    assert_eq!(stack_size(0, &vec![Reg::R14]), 1);
    assert_eq!(stack_size(3, &vec![Reg::R14, Reg::R15]), 4);
    assert_eq!(align_args(0), 0);
    assert_eq!(align_args(3), 4);
    assert_eq!(align_args(4), 4);
}

#[test]
fn depth_counts_the_slots_in_use_at_one_time() {
    assert_eq!(depth(&num(1)), Some(0));
    assert_eq!(depth(&Expr::BinOp(Op2::Plus, bx(num(1)), bx(num(2)))), Some(1));
    let nested = Expr::BinOp(
        Op2::Plus,
        bx(num(1)),
        bx(Expr::BinOp(Op2::Plus, bx(num(1)), bx(num(2)))),
    );
    assert_eq!(depth(&nested), Some(2));
    let left = Expr::BinOp(
        Op2::Plus,
        bx(Expr::BinOp(Op2::Plus, bx(num(1)), bx(num(2)))),
        bx(num(1)),
    );
    assert_eq!(depth(&left), Some(1));
    let lets = Expr::Let(
        vec![bind(1, num(1)), bind(2, Expr::VecNew(bx(num(1)), bx(num(1))))],
        bx(Expr::UnOp(Op1::Add1, bx(var(1)))),
    );
    assert_eq!(depth(&lets), Some(2));
    let block = Expr::Block(vec![num(1), Expr::Call(sym(1), vec![num(1), nested]), num(2)]);
    assert_eq!(depth(&block), Some(2));
    let cond = Expr::If(bx(num(1)), bx(Expr::Loop(bx(left))), bx(Expr::Break(bx(lets))));
    assert_eq!(depth(&cond), Some(2));
}

#[test]
fn duplicate_function_is_refused() {
    let f = FunDecl { name: sym(7), params: vec![], body: num(1) };
    let g = FunDecl { name: sym(8), params: vec![], body: var(99) };
    let h = FunDecl { name: sym(7), params: vec![sym(1)], body: num(1) };
    let prg = Prog { funs: vec![f, g, h], main: num(0) };
    assert_eq!(fun_arity_map(&prg), Err(sym(7)));
    assert_eq!(try_compile(&prg), Err(CompileError::DuplicateFunction(sym(7))));
}

#[test]
fn arity_map_holds_each_function() {
    let f = FunDecl { name: sym(7), params: vec![sym(1), sym(2)], body: num(1) };
    let g = FunDecl { name: sym(8), params: vec![], body: num(1) };
    let prg = Prog { funs: vec![f, g], main: num(0) };
    let map = fun_arity_map(&prg).unwrap();
    assert_eq!(map.len(), 2);
    assert_eq!(map.get(&7), Some(&2));
    assert_eq!(map.get(&8), Some(&0));
}

#[test]
fn duplicate_binding_is_refused() {
    let e = Expr::Let(vec![bind(1, num(1)), bind(2, num(2)), bind(1, num(3))], bx(num(0)));
    assert_eq!(main_code(e), Err(CompileError::DuplicateBinding(sym(1))));
    let f = FunDecl { name: sym(7), params: vec![sym(3), sym(4), sym(4), sym(3)], body: num(1) };
    let prg = Prog { funs: vec![f], main: num(0) };
    assert_eq!(try_compile(&prg), Err(CompileError::DuplicateBinding(sym(4))));
    assert_eq!(check_dup_bindings(&vec![sym(1), sym(2), sym(3)]), Ok(()));
    assert_eq!(check_dup_bindings(&vec![]), Ok(()));
    let names = binding_names(&vec![bind(5, num(1)), bind(6, num(2))]);
    assert_eq!(names, vec![sym(5), sym(6)]);
}

#[test]
fn unbound_identifier_is_refused() {
    assert_eq!(main_code(var(9)), Err(CompileError::UnboundIdentifier(sym(9))));
    let e = Expr::Let(vec![bind(1, var(1))], bx(num(0)));
    assert_eq!(main_code(e), Err(CompileError::UnboundIdentifier(sym(1))));
    let e = Expr::SetVar(sym(2), bx(num(0)));
    assert_eq!(main_code(e), Err(CompileError::UnboundIdentifier(sym(2))));
    let f = FunDecl { name: sym(7), params: vec![sym(1)], body: num(1) };
    let prg = Prog { funs: vec![f], main: var(1) };
    assert_eq!(try_compile(&prg), Err(CompileError::UnboundIdentifier(sym(1))));
}

#[test]
fn break_outside_loop_is_refused() {
    assert_eq!(main_code(Expr::Break(bx(num(1)))), Err(CompileError::BreakOutsideLoop));
    let e = Expr::Block(vec![Expr::Loop(bx(num(1))), Expr::Break(bx(num(1)))]);
    assert_eq!(main_code(e), Err(CompileError::BreakOutsideLoop));
}

#[test]
fn input_in_function_is_refused() {
    let f = FunDecl { name: sym(7), params: vec![], body: Expr::Input };
    let prg = Prog { funs: vec![f], main: Expr::Input };
    assert_eq!(try_compile(&prg), Err(CompileError::InputInFun));
}

#[test]
fn undefined_function_is_refused() {
    let e = Expr::Call(sym(3), vec![]);
    assert_eq!(main_code(e), Err(CompileError::UndefinedFun(sym(3))));
}

#[test]
fn wrong_number_of_arguments_is_refused() {
    let f = FunDecl { name: sym(7), params: vec![sym(1), sym(2)], body: num(1) };
    let prg = Prog { funs: vec![f], main: Expr::Call(sym(7), vec![num(1)]) };
    assert_eq!(
        try_compile(&prg),
        Err(CompileError::WrongNumberOfArgs { expected: 2, got: 1 })
    );
}

#[test]
fn empty_block_is_refused() {
    assert_eq!(main_code(Expr::Block(vec![])), Err(CompileError::EmptyBlock));
}

#[test]
fn first_error_in_evaluation_order_is_reported() {
    let e = Expr::BinOp(Op2::Plus, bx(var(1)), bx(Expr::Break(bx(num(1)))));
    assert_eq!(main_code(e), Err(CompileError::UnboundIdentifier(sym(1))));
    let e = Expr::BinOp(Op2::Plus, bx(Expr::Break(bx(num(1)))), bx(var(1)));
    assert_eq!(main_code(e), Err(CompileError::BreakOutsideLoop));
}

#[test]
fn frame_with_too_many_slots_is_refused() {
    let mut sess = Session::new(HashMap::new());
    assert_eq!(sess.fun_entry(268435455, &vec![]), Err(CompileError::FrameTooLarge));
    assert_eq!(sess.fun_exit(268435455, &vec![]), Err(CompileError::FrameTooLarge));
    assert_eq!(sess.fun_entry(268435454, &vec![]), Ok(()));
    assert_eq!(
        sess.instrs[2],
        Instr::Sub(BinArgs::ToReg(Reg::Rsp, Arg32::Imm(2147483632)))
    );
    let mut cx = Ctxt::new();
    cx.si = 268435455;
    assert!(matches!(cx.next_local(), Err(CompileError::FrameTooLarge)));
    cx.si = 268435454;
    let (next, mem) = cx.next_local().ok().unwrap();
    assert_eq!(next.si, 268435455);
    assert_eq!(mem, rbp(-2147483640));
}

#[test]
fn labels_run_out_after_the_last_number() {
    let mut sess = Session::new(HashMap::new());
    sess.tag = u32::MAX - 1;
    assert_eq!(sess.next_tag(), Ok(u32::MAX - 1));
    assert_eq!(sess.next_tag(), Err(CompileError::TooManyLabels));
    let cx = Ctxt::new();
    let e = Expr::Loop(bx(num(1)));
    assert_eq!(
        sess.compile_expr(&cx, Loc::Reg(Reg::Rax), &e),
        Err(CompileError::TooManyLabels)
    );
}

#[test]
fn context_keeps_bindings_apart() {
    let cx = Ctxt::new();
    let with_x = cx.add_binding(sym(1), -8);
    let with_y = with_x.add_binding(sym(2), -16);
    let shadow = with_y.add_binding(sym(1), -24);
    assert_eq!(cx.lookup(sym(1)), Err(CompileError::UnboundIdentifier(sym(1))));
    assert_eq!(with_x.lookup(sym(1)), Ok(rbp(-8)));
    assert_eq!(with_x.lookup(sym(2)), Err(CompileError::UnboundIdentifier(sym(2))));
    assert_eq!(with_y.lookup(sym(1)), Ok(rbp(-8)));
    assert_eq!(with_y.lookup(sym(2)), Ok(rbp(-16)));
    assert_eq!(shadow.lookup(sym(1)), Ok(rbp(-24)));
    assert_eq!(shadow.copy().lookup(sym(2)), Ok(rbp(-16)));
    let inner = shadow.set_curr_lbl(Label::LoopEnd(4));
    assert_eq!(inner.curr_lbl, Some(Label::LoopEnd(4)));
    assert_eq!(inner.lookup(sym(1)), Ok(rbp(-24)));
    assert_eq!(shadow.curr_lbl, None);
    let params = Ctxt::fun(&vec![sym(5), sym(6), sym(5)]).ok().unwrap();
    assert!(params.in_fun);
    assert_eq!(params.lookup(sym(6)), Ok(rbp(24)));
    assert_eq!(params.lookup(sym(5)), Ok(rbp(32)));
}
