//! The bytecode instruction set, the compile-time primitive tags, and the
//! per-block compilation records.

use vstd::prelude::*;

verus! {

/// The reserved literals that push a VM-global singleton.
#[derive(Clone, Copy, Debug, PartialEq, Eq, Structural)]
pub enum Builtin {
    False,
    Nil,
    System,
    True,
}

/// The primitives the compiler can attach to a method whose body is declared
/// `primitive`.  `Value(n)` is block invocation with `n` arguments.
#[derive(Clone, Copy, Debug, PartialEq, Eq, Structural)]
pub enum Primitive {
    Add,
    And,
    AsString,
    BitXor,
    Class,
    Concatenate,
    Div,
    Equals,
    GreaterThan,
    GreaterThanEquals,
    Halt,
    Hashcode,
    Inspect,
    InstVarAt,
    InstVarAtPut,
    InstVarNamed,
    LessThan,
    LessThanEquals,
    Mod,
    Mul,
    Name,
    New,
    NotEquals,
    ObjectSize,
    Perform,
    PerformInSuperClass,
    PerformWithArguments,
    PerformWithArgumentsInSuperClass,
    PrintNewline,
    PrintString,
    RefEquals,
    Restart,
    Shl,
    Sqrt,
    Sub,
    Value(usize),
}

/// One bytecode instruction.  Indices refer to the tables of the `Class` that
/// owns the instruction stream.
#[derive(Clone, Copy, Debug, PartialEq, Eq, Structural)]
pub enum Instr {
    /// Push a fresh block capturing the current closure, then jump past the
    /// block's body.
    Block(usize),
    Builtin(Builtin),
    /// Non-local return to the activation whose closure is the current
    /// closure's n-th ancestor.
    ClosureReturn(usize),
    /// Push `consts[n]`.
    Const(usize),
    /// Push an integer literal.
    Int(isize),
    /// Push instance variable `n` of `self`.
    InstVarLookup(usize),
    /// Assign the top of stack (without popping) to instance variable `n`.
    InstVarSet(usize),
    Pop,
    Return,
    /// Perform the message send interned at `sends[n]`.
    Send(usize),
    /// Push the string literal interned at `strings[n]`.
    String(usize),
    /// Push variable `n` of the closure `d` levels out.
    VarLookup(usize, usize),
    /// Assign the top of stack (without popping) to variable `n` of the
    /// closure `d` levels out.
    VarSet(usize, usize),
}

/// The compilation record of one block literal, stored in the owning class.
#[derive(Clone, Copy, Debug, PartialEq, Eq, Structural)]
pub struct BlockInfo {
    pub bytecode_off: usize,
    pub bytecode_end: usize,
    pub num_params: usize,
    pub num_vars: usize,
    pub max_stack: usize,
}

} // verus!
