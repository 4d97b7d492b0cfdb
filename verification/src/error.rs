//! The fatal error kinds of a running program and their exit codes.

use crate::syntax::Symbol;
use crate::text::{numeral, push_numeral};
use vstd::prelude::*;
use vstd::string::StringExecFns;

verus! {

/// Why a program is refused by the compiler.
#[derive(Clone, Copy, PartialEq, Eq, Structural, Debug)]
pub enum CompileError {
    /// Two functions have the same name.
    DuplicateFunction(Symbol),
    /// Two parameters of a function, or two bindings of a `let`, have the same name.
    DuplicateBinding(Symbol),
    /// A variable is used that is not bound.
    UnboundIdentifier(Symbol),
    /// A `break` stands outside every loop.
    BreakOutsideLoop,
    /// `input` is used inside a function definition.
    InputInFun,
    /// A function is called that is not defined.
    UndefinedFun(Symbol),
    /// A function is called with the wrong number of arguments.
    WrongNumberOfArgs { expected: usize, got: usize },
    /// A block holds no expression.
    EmptyBlock,
    /// A frame needs more slots, or a call more arguments, than an offset can address.
    FrameTooLarge,
    /// The program needs more labels than there are 32-bit numbers.
    TooManyLabels,
}

/// The kinds of fatal error. Each ends the program with its code as exit status.
#[derive(Clone, Copy, PartialEq, Eq, Structural, Debug)]
pub enum ErrCode {
    InvalidArgument,
    Overflow,
    IndexOutOfBounds,
    InvalidVecSize,
    OutOfMemory,
}

impl ErrCode {
    /// The numeric code of the kind, 1 to 5.
    pub open spec fn spec_code(self) -> int {
        match self {
            ErrCode::InvalidArgument => 1,
            ErrCode::Overflow => 2,
            ErrCode::IndexOutOfBounds => 3,
            ErrCode::InvalidVecSize => 4,
            ErrCode::OutOfMemory => 5,
        }
    }

    /// The numeric code of the kind, 1 to 5.
    pub fn code(self) -> (c: i64)
        ensures
            c == self.spec_code(),
    {
        match self {
            ErrCode::InvalidArgument => 1,
            ErrCode::Overflow => 2,
            ErrCode::IndexOutOfBounds => 3,
            ErrCode::InvalidVecSize => 4,
            ErrCode::OutOfMemory => 5,
        }
    }

    /// The kind with the numeric code `c`, if there is one.
    pub fn from_code(c: i64) -> (r: Option<ErrCode>)
        ensures
            match r {
                Some(e) => e.spec_code() == c,
                None => c < 1 || c > 5,
            },
    {
        if c == 1 {
            Some(ErrCode::InvalidArgument)
        } else if c == 2 {
            Some(ErrCode::Overflow)
        } else if c == 3 {
            Some(ErrCode::IndexOutOfBounds)
        } else if c == 4 {
            Some(ErrCode::InvalidVecSize)
        } else if c == 5 {
            Some(ErrCode::OutOfMemory)
        } else {
            None
        }
    }
}

impl CompileError {
    /// The one-line reason, with a name shown as its number.
    pub open spec fn text(self) -> Seq<char> {
        match self {
            CompileError::DuplicateFunction(name) => "duplicate function name "@ + numeral(
                name.id as nat,
                10,
            ),
            CompileError::DuplicateBinding(id) => "duplicate binding "@ + numeral(id.id as nat, 10),
            CompileError::UnboundIdentifier(id) => "unbound variable identifier "@ + numeral(
                id.id as nat,
                10,
            ),
            CompileError::BreakOutsideLoop => "break outside loop"@,
            CompileError::InputInFun => "cannot use input inside function definition"@,
            CompileError::UndefinedFun(fun) => "function "@ + numeral(fun.id as nat, 10)
                + " not defined"@,
            CompileError::WrongNumberOfArgs { expected, got } => "function takes "@ + numeral(
                expected as nat,
                10,
            ) + " arguments but "@ + numeral(got as nat, 10) + " were supplied"@,
            CompileError::EmptyBlock => "block without an expression"@,
            CompileError::FrameTooLarge => "frame too large"@,
            CompileError::TooManyLabels => "too many labels"@,
        }
    }

    /// The one-line reason, with a name shown as its number.
    pub fn message(&self) -> (r: String)
        ensures
            r@ == self.text(),
    {
        match self {
            CompileError::DuplicateFunction(name) => {
                let mut s = String::from_str("duplicate function name ");
                push_numeral(&mut s, name.id as u64, 10);
                s
            },
            CompileError::DuplicateBinding(id) => {
                let mut s = String::from_str("duplicate binding ");
                push_numeral(&mut s, id.id as u64, 10);
                s
            },
            CompileError::UnboundIdentifier(id) => {
                let mut s = String::from_str("unbound variable identifier ");
                push_numeral(&mut s, id.id as u64, 10);
                s
            },
            CompileError::BreakOutsideLoop => String::from_str("break outside loop"),
            CompileError::InputInFun => String::from_str(
                "cannot use input inside function definition",
            ),
            CompileError::UndefinedFun(fun) => {
                let mut s = String::from_str("function ");
                push_numeral(&mut s, fun.id as u64, 10);
                s.append(" not defined");
                s
            },
            CompileError::WrongNumberOfArgs { expected, got } => {
                let mut s = String::from_str("function takes ");
                push_numeral(&mut s, *expected as u64, 10);
                s.append(" arguments but ");
                push_numeral(&mut s, *got as u64, 10);
                s.append(" were supplied");
                s
            },
            CompileError::EmptyBlock => String::from_str("block without an expression"),
            CompileError::FrameTooLarge => String::from_str("frame too large"),
            CompileError::TooManyLabels => String::from_str("too many labels"),
        }
    }
}

} // verus!
