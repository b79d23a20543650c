//! The builtin operators of typed expressions and the operators of the
//! abstract representation they become.
use vstd::prelude::*;

verus! {

/// A builtin operator of a typed expression.
#[derive(Debug, Clone, Copy, PartialEq, Eq, Structural)]
pub enum BuiltinOp {
    Add,
    Sub,
    Mul,
    Div,
    Rem,
    Mod,
    Eq,
    Neq,
    Lt,
    Le,
    Gt,
    Ge,
    And,
    Or,
    Not,
    Neg,
    BitAnd,
    BitOr,
    BitXor,
    BitNot,
    Shl,
    Shr,
}

/// An operator of the abstract representation; the short-circuiting `And`
/// and `Or` have none.
#[derive(Debug, Clone, Copy, PartialEq, Eq, Structural)]
pub enum Op {
    Add,
    Sub,
    Mul,
    Div,
    Rem,
    Mod,
    Eq,
    Neq,
    Lt,
    Le,
    Gt,
    Ge,
    Not,
    Neg,
    BitAnd,
    BitOr,
    BitXor,
    BitNot,
    Shl,
    Shr,
}

/// The operator that `op` becomes, if it is not `And` or `Or`.
pub open spec fn op_of(op: BuiltinOp) -> Option<Op> {
    match op {
        BuiltinOp::Add => Some(Op::Add),
        BuiltinOp::Sub => Some(Op::Sub),
        BuiltinOp::Mul => Some(Op::Mul),
        BuiltinOp::Div => Some(Op::Div),
        BuiltinOp::Rem => Some(Op::Rem),
        BuiltinOp::Mod => Some(Op::Mod),
        BuiltinOp::Eq => Some(Op::Eq),
        BuiltinOp::Neq => Some(Op::Neq),
        BuiltinOp::Lt => Some(Op::Lt),
        BuiltinOp::Le => Some(Op::Le),
        BuiltinOp::Gt => Some(Op::Gt),
        BuiltinOp::Ge => Some(Op::Ge),
        BuiltinOp::Not => Some(Op::Not),
        BuiltinOp::Neg => Some(Op::Neg),
        BuiltinOp::BitAnd => Some(Op::BitAnd),
        BuiltinOp::BitOr => Some(Op::BitOr),
        BuiltinOp::BitXor => Some(Op::BitXor),
        BuiltinOp::BitNot => Some(Op::BitNot),
        BuiltinOp::Shl => Some(Op::Shl),
        BuiltinOp::Shr => Some(Op::Shr),
        BuiltinOp::And => None,
        BuiltinOp::Or => None,
    }
}

/// The operator of the abstract representation for `op`, which is neither
/// `And` nor `Or`: those short-circuit and are not operators there.
pub fn into_op(op: &BuiltinOp) -> (r: Op)
    requires
        op_of(*op) is Some,
    ensures
        op_of(*op) == Some(r),
{
    match op {
        BuiltinOp::Add => Op::Add,
        BuiltinOp::Sub => Op::Sub,
        BuiltinOp::Mul => Op::Mul,
        BuiltinOp::Div => Op::Div,
        BuiltinOp::Rem => Op::Rem,
        BuiltinOp::Mod => Op::Mod,
        BuiltinOp::Eq => Op::Eq,
        BuiltinOp::Neq => Op::Neq,
        BuiltinOp::Lt => Op::Lt,
        BuiltinOp::Le => Op::Le,
        BuiltinOp::Gt => Op::Gt,
        BuiltinOp::Ge => Op::Ge,
        BuiltinOp::Not => Op::Not,
        BuiltinOp::Neg => Op::Neg,
        BuiltinOp::BitAnd => Op::BitAnd,
        BuiltinOp::BitOr => Op::BitOr,
        BuiltinOp::BitXor => Op::BitXor,
        BuiltinOp::BitNot => Op::BitNot,
        BuiltinOp::Shl => Op::Shl,
        BuiltinOp::Shr => Op::Shr,
        BuiltinOp::And => Op::BitAnd,
        BuiltinOp::Or => Op::BitOr,
    }
}

} // verus!
