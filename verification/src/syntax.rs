//! The programs that the compiler takes: expressions, function declarations,
//! and the number of stack slots an expression needs.

use vstd::prelude::*;

verus! {

/// An interned name: two names are the same if their numbers are.
#[derive(Clone, Copy, PartialEq, Eq, Structural, Debug)]
pub struct Symbol {
    pub id: u32,
}

/// The operators with one operand.
#[derive(Clone, Copy, PartialEq, Eq, Structural, Debug)]
pub enum Op1 {
    Add1,
    Sub1,
    IsNum,
    IsBool,
    Print,
}

/// The operators with two operands.
#[derive(Clone, Copy, PartialEq, Eq, Structural, Debug)]
pub enum Op2 {
    Plus,
    Minus,
    Times,
    Equal,
    Greater,
    GreaterEqual,
    Less,
    LessEqual,
}

/// One binding of a `let`: a name and the expression for its value.
#[derive(Debug)]
pub struct Binding {
    pub name: Symbol,
    pub value: Expr,
}

/// An expression of the source language.
#[derive(Debug)]
pub enum Expr {
    Number(i64),
    Boolean(bool),
    Var(Symbol),
    Let(Vec<Binding>, Box<Expr>),
    UnOp(Op1, Box<Expr>),
    BinOp(Op2, Box<Expr>, Box<Expr>),
    If(Box<Expr>, Box<Expr>, Box<Expr>),
    Loop(Box<Expr>),
    Break(Box<Expr>),
    SetVar(Symbol, Box<Expr>),
    Block(Vec<Expr>),
    Call(Symbol, Vec<Expr>),
    Input,
    VecNew(Box<Expr>, Box<Expr>),
}

/// A function declaration.
#[derive(Debug)]
pub struct FunDecl {
    pub name: Symbol,
    pub params: Vec<Symbol>,
    pub body: Expr,
}

/// A program: its functions and its main expression.
#[derive(Debug)]
pub struct Prog {
    pub funs: Vec<FunDecl>,
    pub main: Expr,
}

/// The larger of two numbers.
pub open spec fn max(a: nat, b: nat) -> nat {
    if a >= b {
        a
    } else {
        b
    }
}

/// The bindings of a `let`, and no bindings for any other expression.
pub open spec fn bindings_of(e: Expr) -> Seq<Binding> {
    match e {
        Expr::Let(bs, _) => bs@,
        _ => Seq::empty(),
    }
}

/// The expressions of a block or the arguments of a call, and none for any
/// other expression.
pub open spec fn items_of(e: Expr) -> Seq<Expr> {
    match e {
        Expr::Block(es) => es@,
        Expr::Call(_, args) => args@,
        _ => Seq::empty(),
    }
}

/// The number of stack slots that evaluating `e` needs at most at one time.
pub open spec fn depth_of(e: Expr) -> nat
    decreases e, 1nat, 0nat,
{
    match e {
        Expr::Number(_) => 0,
        Expr::Boolean(_) => 0,
        Expr::Var(_) => 0,
        Expr::Input => 0,
        Expr::Let(bs, body) => max(
            bindings_depth(e, bs@.len()),
            depth_of(*body) + bs@.len(),
        ),
        Expr::UnOp(_, a) => depth_of(*a),
        Expr::BinOp(_, a, b) => max(depth_of(*a), depth_of(*b) + 1),
        Expr::If(c, t, f) => max(depth_of(*c), max(depth_of(*t), depth_of(*f))),
        Expr::Loop(a) => depth_of(*a),
        Expr::Break(a) => depth_of(*a),
        Expr::SetVar(_, a) => depth_of(*a),
        Expr::Block(es) => items_depth(e, es@.len()),
        Expr::Call(_, args) => items_depth(e, args@.len()),
        Expr::VecNew(a, b) => max(depth_of(*a), depth_of(*b) + 1),
    }
}

/// The slots that the first `k` bindings of the `let` `e` need: the `i`-th is
/// evaluated while `i` earlier ones hold a slot each.
pub open spec fn bindings_depth(e: Expr, k: nat) -> nat
    decreases e, 0nat, k,
{
    if k == 0 || k > bindings_of(e).len() {
        0
    } else {
        max(
            bindings_depth(e, (k - 1) as nat),
            depth_of(bindings_of(e)[k - 1].value) + (k - 1) as nat,
        )
    }
}

/// The slots that the first `k` expressions of the block or call `e` need.
pub open spec fn items_depth(e: Expr, k: nat) -> nat
    decreases e, 0nat, k,
{
    if k == 0 || k > items_of(e).len() {
        0
    } else {
        max(items_depth(e, (k - 1) as nat), depth_of(items_of(e)[k - 1]))
    }
}

/// The number `n` as a 32-bit number, if it is one.
pub open spec fn fits32(n: nat) -> Option<u32> {
    if n <= u32::MAX {
        Some(n as u32)
    } else {
        None
    }
}

/// The larger of `an` and `bn + k`, if it is a 32-bit number, given both as
/// 32-bit numbers where they are such.
fn max_add(a: Option<u32>, b: Option<u32>, k: usize, Ghost(an): Ghost<nat>, Ghost(bn): Ghost<nat>) -> (r:
    Option<u32>)
    requires
        a == fits32(an),
        b == fits32(bn),
    ensures
        r == fits32(max(an, bn + k as nat)),
{
    match (a, b) {
        (Some(x), Some(y)) => {
            let room: u32 = u32::MAX - y;
            if k > room as usize {
                None
            } else {
                let s: u32 = y + k as u32;
                if x >= s {
                    Some(x)
                } else {
                    Some(s)
                }
            }
        },
        _ => None,
    }
}

/// The number of stack slots that evaluating `e` needs at most at one time, or
/// `None` if it is not a 32-bit number.
pub fn depth(e: &Expr) -> (r: Option<u32>)
    ensures
        r == fits32(depth_of(*e)),
    decreases e, 1nat,
{
    match e {
        Expr::Number(_) => Some(0),
        Expr::Boolean(_) => Some(0),
        Expr::Var(_) => Some(0),
        Expr::Input => Some(0),
        Expr::Let(bs, body) => {
            let mut acc: Option<u32> = Some(0);
            let mut i: usize = 0;
            while i < bs.len()
                invariant
                    i <= bs@.len(),
                    bindings_of(*e) == bs@,
                    acc == fits32(bindings_depth(*e, i as nat)),
                decreases bs@.len() - i,
            {
                let d = depth(&bs[i].value);
                acc = max_add(
                    acc,
                    d,
                    i,
                    Ghost(bindings_depth(*e, i as nat)),
                    Ghost(depth_of(bs@[i as int].value)),
                );
                i += 1;
            }
            let d = depth(body);
            let r = max_add(
                acc,
                d,
                bs.len(),
                Ghost(bindings_depth(*e, bs@.len())),
                Ghost(depth_of(**body)),
            );
            r
        },
        Expr::UnOp(_, a) => depth(a),
        Expr::BinOp(_, a, b) => {
            let da = depth(a);
            let db = depth(b);
            max_add(da, db, 1, Ghost(depth_of(**a)), Ghost(depth_of(**b)))
        },
        Expr::If(c, t, f) => {
            let dc = depth(c);
            let dt = depth(t);
            let df = depth(f);
            let m = max_add(dt, df, 0, Ghost(depth_of(**t)), Ghost(depth_of(**f)));
            max_add(
                dc,
                m,
                0,
                Ghost(depth_of(**c)),
                Ghost(max(depth_of(**t), depth_of(**f))),
            )
        },
        Expr::Loop(a) => depth(a),
        Expr::Break(a) => depth(a),
        Expr::SetVar(_, a) => depth(a),
        Expr::Block(es) => items_depth_exec(e, es),
        Expr::Call(_, args) => items_depth_exec(e, args),
        Expr::VecNew(a, b) => {
            let da = depth(a);
            let db = depth(b);
            max_add(da, db, 1, Ghost(depth_of(**a)), Ghost(depth_of(**b)))
        },
    }
}

/// The slots that the expressions `es` of the block or call `e` need.
fn items_depth_exec(e: &Expr, es: &Vec<Expr>) -> (r: Option<u32>)
    requires
        items_of(*e) == es@,
    ensures
        r == fits32(items_depth(*e, es@.len())),
    decreases e, 0nat,
{
    let mut acc: Option<u32> = Some(0);
    let mut i: usize = 0;
    while i < es.len()
        invariant
            i <= es@.len(),
            items_of(*e) == es@,
            acc == fits32(items_depth(*e, i as nat)),
        decreases es@.len() - i,
    {
        let d = depth(&es[i]);
        acc = max_add(
            d,
            acc,
            0,
            Ghost(depth_of(es@[i as int])),
            Ghost(items_depth(*e, i as nat)),
        );
        i += 1;
    }
    acc
}

} // verus!
