//! The micro-op representation: storage locations, operands and operations.
use vstd::prelude::*;

verus! {

/// A storage location: an address space, a byte offset in it and a size in
/// bytes. Two descriptors denote the same location exactly when all three
/// parts are equal.
#[derive(Clone, Copy, Debug, PartialEq, Eq, Structural)]
pub struct VarNode {
    pub space: u16,
    pub offset: u64,
    pub size: u16,
}

/// An input operand of a micro-op: a constant of a given size, or a
/// reference to a storage location.
#[derive(Clone, Copy, Debug, PartialEq, Eq, Structural)]
pub enum Value {
    Const(u64, u16),
    Var(VarNode),
}

/// The operation tag of a micro-op. `Load` and `Store` carry the address
/// space of the memory they access.
#[derive(Clone, Copy, Debug, PartialEq, Eq, Structural)]
pub enum Op {
    Copy,
    Load(u16),
    Store(u16),
    IntAdd,
    IntSub,
    IntMul,
    IntAnd,
    IntOr,
    IntXor,
    IntNot,
    IntNegate,
    IntLeft,
    IntRight,
    IntEqual,
    IntNotEqual,
    IntLess,
    IntSignedLess,
    IntCarry,
    IntSignedCarry,
    IntSignedBorrow,
    ZeroExtend,
    SignExtend,
    BoolNot,
    BoolAnd,
    BoolOr,
    PopCount,
    Branch,
    CondBranch,
    BranchIndirect,
    Call,
    Return,
    Other(u32),
}

/// One primitive semantic step: an operation, up to two inputs and an
/// optional output location.
#[derive(Clone, Copy, Debug, PartialEq, Eq, Structural)]
pub struct MicroOp {
    pub op: Op,
    pub first: Option<Value>,
    pub second: Option<Value>,
    pub output: Option<VarNode>,
}

impl MicroOp {
    /// Builds a micro-op from its parts.
    pub fn new(op: Op, first: Option<Value>, second: Option<Value>, output: Option<VarNode>) -> (r:
        MicroOp)
        ensures
            r == (MicroOp { op, first, second, output }),
    {
        MicroOp { op, first, second, output }
    }

    /// Whether this micro-op reads memory.
    pub fn is_load(&self) -> (r: bool)
        ensures
            r == (self.op is Load),
    {
        match self.op {
            Op::Load(_) => true,
            _ => false,
        }
    }

    /// Whether this micro-op writes memory.
    pub fn is_store(&self) -> (r: bool)
        ensures
            r == (self.op is Store),
    {
        match self.op {
            Op::Store(_) => true,
            _ => false,
        }
    }
}

} // verus!
