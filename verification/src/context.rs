//! The compile-time context of an expression: where each variable in scope
//! lives in the frame, how many slots are taken, and what encloses it.

use crate::compiler::raise_unbound_identifier;
use crate::error::CompileError;
use crate::instr::{Label, MemRef, Reg};
use crate::syntax::Symbol;
use vstd::prelude::*;

verus! {

#[verifier::external_type_specification]
#[verifier::external_body]
#[verifier::reject_recursive_types(K)]
#[verifier::reject_recursive_types(V)]
#[verifier::reject_recursive_types(S)]
pub struct ExImHashMap<K, V, S>(im::HashMap<K, V, S>);

/// The bindings that a persistent hash map of the crate `im` holds: for each
/// key that was inserted, the value inserted last.
pub uninterp spec fn env_entries(env: im::HashMap<u32, i32>) -> Map<u32, i32>;

/// No bindings.
pub open spec fn no_entries() -> Map<u32, i32> {
    Map::empty()
}

/// Calls `im::HashMap::new`: a map that holds nothing.
#[verifier::external_body]
fn env_new() -> (r: im::HashMap<u32, i32>)
    ensures
        env_entries(r) == no_entries(),
{
    im::HashMap::new()
}

/// Calls `im::HashMap::get`: the value bound to `key`, if there is one.
#[verifier::external_body]
fn env_get(env: &im::HashMap<u32, i32>, key: u32) -> (r: Option<i32>)
    ensures
        r == if env_entries(*env).dom().contains(key) {
            Some(env_entries(*env)[key])
        } else {
            None
        },
{
    match env.get(&key) {
        Some(v) => Some(*v),
        None => None,
    }
}

/// Calls `im::HashMap::update`: a new map that holds what `env` holds and
/// binds `key` to `value`, in place of an earlier binding of `key` if there was one.
#[verifier::external_body]
fn env_update(env: &im::HashMap<u32, i32>, key: u32, value: i32) -> (r: im::HashMap<u32, i32>)
    ensures
        env_entries(r) == env_entries(*env).insert(key, value),
{
    env.update(key, value)
}

/// Calls `im::HashMap::clone`: a map that holds what `env` holds.
#[verifier::external_body]
fn env_clone(env: &im::HashMap<u32, i32>) -> (r: im::HashMap<u32, i32>)
    ensures
        env_entries(r) == env_entries(*env),
{
    env.clone()
}

/// The largest number of frame slots whose byte offsets are 32-bit numbers.
pub const MAX_SLOTS: u32 = 268435455;

/// The context of an expression.
pub struct Ctxt {
    /// For each variable in scope, its offset from the frame pointer.
    pub env: im::HashMap<u32, i32>,
    /// The number of frame slots taken by locals.
    pub si: u32,
    /// The label after the innermost enclosing loop, if there is a loop.
    pub curr_lbl: Option<Label>,
    /// Whether the expression stands in a function definition.
    pub in_fun: bool,
}

/// What a context says, as plain values.
pub struct Cx {
    pub env: Map<u32, i32>,
    pub si: u32,
    pub lbl: Option<Label>,
    pub in_fun: bool,
}

impl View for Ctxt {
    type V = Cx;

    open spec fn view(&self) -> Cx {
        Cx { env: env_entries(self.env), si: self.si, lbl: self.curr_lbl, in_fun: self.in_fun }
    }
}

/// The frame slot at `offset` bytes from the frame pointer.
pub open spec fn frame_slot(offset: int) -> MemRef {
    MemRef { reg: Reg::Rbp, offset: offset as i32 }
}

/// The context of the main expression: nothing bound, no slot taken.
pub open spec fn cx_new() -> Cx {
    Cx { env: Map::empty(), si: 0, lbl: None, in_fun: false }
}

/// The bindings of the first `k` parameters: the `i`-th lives `8 * (i + 2)`
/// bytes above the frame pointer, and a later parameter hides an earlier one
/// of the same name.
pub open spec fn params_env(params: Seq<Symbol>, k: int) -> Map<u32, i32>
    decreases k,
{
    if k <= 0 {
        Map::empty()
    } else {
        params_env(params, k - 1).insert(params[k - 1].id, (8 * (k - 1 + 2)) as i32)
    }
}

/// The context of the body of a function with the parameters `params`.
pub open spec fn cx_fun(params: Seq<Symbol>) -> Result<Cx, CompileError> {
    if params.len() + 1 > MAX_SLOTS {
        Err(CompileError::FrameTooLarge)
    } else {
        Ok(Cx { env: params_env(params, params.len() as int), si: 0, lbl: None, in_fun: true })
    }
}

/// Where the variable `x` lives.
pub open spec fn cx_lookup(cx: Cx, x: Symbol) -> Result<MemRef, CompileError> {
    if cx.env.dom().contains(x.id) {
        Ok(frame_slot(cx.env[x.id] as int))
    } else {
        Err(CompileError::UnboundIdentifier(x))
    }
}

/// The context with one more slot taken, and that slot.
pub open spec fn cx_next_local(cx: Cx) -> Result<(Cx, MemRef), CompileError> {
    if cx.si >= MAX_SLOTS {
        Err(CompileError::FrameTooLarge)
    } else {
        Ok(
            (
                Cx { env: cx.env, si: (cx.si + 1) as u32, lbl: cx.lbl, in_fun: cx.in_fun },
                frame_slot(-8 * (cx.si + 1)),
            ),
        )
    }
}

/// The context in which `x` lives at `offset` bytes from the frame pointer.
pub open spec fn cx_add_binding(cx: Cx, x: Symbol, offset: i32) -> Cx {
    Cx { env: cx.env.insert(x.id, offset), si: cx.si, lbl: cx.lbl, in_fun: cx.in_fun }
}

/// The context inside a loop that ends at `lbl`.
pub open spec fn cx_set_curr_lbl(cx: Cx, lbl: Label) -> Cx {
    Cx { env: cx.env, si: cx.si, lbl: Some(lbl), in_fun: cx.in_fun }
}

impl Ctxt {
    /// The context of the main expression.
    pub fn new() -> (cx: Ctxt)
        ensures
            cx@ == cx_new(),
    {
        Ctxt { si: 0, curr_lbl: None, env: env_new(), in_fun: false }
    }

    /// The context of the body of a function with the parameters `params`.
    pub fn fun(params: &Vec<Symbol>) -> (r: Result<Ctxt, CompileError>)
        ensures
            match r {
                Ok(cx) => cx_fun(params@) == Ok::<Cx, CompileError>(cx@),
                Err(e) => cx_fun(params@) == Err::<Cx, CompileError>(e),
            },
    {
        if params.len() >= MAX_SLOTS as usize {
            return Err(CompileError::FrameTooLarge);
        }
        let mut env = env_new();
        let mut i: usize = 0;
        while i < params.len()
            invariant
                i <= params@.len(),
                params@.len() < MAX_SLOTS,
                env_entries(env) == params_env(params@, i as int),
            decreases params@.len() - i,
        {
            let offset: i32 = 8 * (i as i32 + 2);
            env = env_update(&env, params[i].id, offset);
            i += 1;
        }
        Ok(Ctxt { si: 0, curr_lbl: None, env, in_fun: true })
    }

    /// A copy of the context.
    pub fn copy(&self) -> (cx: Ctxt)
        ensures
            cx@ == self@,
    {
        Ctxt {
            env: env_clone(&self.env),
            si: self.si,
            curr_lbl: self.curr_lbl,
            in_fun: self.in_fun,
        }
    }

    /// Where the variable `x` lives, or the error that it is not bound.
    pub fn lookup(&self, x: Symbol) -> (r: Result<MemRef, CompileError>)
        ensures
            r == cx_lookup(self@, x),
    {
        match env_get(&self.env, x.id) {
            Some(offset) => Ok(MemRef { reg: Reg::Rbp, offset }),
            None => Err(raise_unbound_identifier(x)),
        }
    }

    /// The context inside a loop that ends at `lbl`.
    pub fn set_curr_lbl(&self, lbl: Label) -> (cx: Ctxt)
        ensures
            cx@ == cx_set_curr_lbl(self@, lbl),
    {
        Ctxt { env: env_clone(&self.env), si: self.si, curr_lbl: Some(lbl), in_fun: self.in_fun }
    }

    /// The context with one more slot taken, and that slot; or the error that
    /// the frame has no more slots.
    pub fn next_local(&self) -> (r: Result<(Ctxt, MemRef), CompileError>)
        ensures
            match r {
                Ok((cx, mem)) => cx_next_local(self@) == Ok::<(Cx, MemRef), CompileError>(
                    (cx@, mem),
                ),
                Err(e) => cx_next_local(self@) == Err::<(Cx, MemRef), CompileError>(e),
            },
    {
        if self.si >= MAX_SLOTS {
            return Err(CompileError::FrameTooLarge);
        }
        let si: i32 = (self.si + 1) as i32;
        Ok(
            (
                Ctxt {
                    env: env_clone(&self.env),
                    si: self.si + 1,
                    curr_lbl: self.curr_lbl,
                    in_fun: self.in_fun,
                },
                MemRef { reg: Reg::Rbp, offset: -(8 * si) },
            ),
        )
    }

    /// The context in which `x` lives at `offset` bytes from the frame pointer.
    pub fn add_binding(&self, x: Symbol, offset: i32) -> (cx: Ctxt)
        ensures
            cx@ == cx_add_binding(self@, x, offset),
    {
        Ctxt {
            env: env_update(&self.env, x.id, offset),
            si: self.si,
            curr_lbl: self.curr_lbl,
            in_fun: self.in_fun,
        }
    }
}

} // verus!
