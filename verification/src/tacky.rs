//! Three-address code: the input of the back end.

use vstd::prelude::*;
use crate::ops::{BinaryOp, UnaryOp};

verus! {

/// A value of the three-address code.
///
/// ```text
/// val = Constant(int) | Var(identifier)
/// ```
#[derive(PartialEq, Eq, Structural, Debug, Clone, Copy)]
pub enum ValTacky {
    Const { int: i32 },
    TmpVar { no: u16 },
}

/// An instruction of the three-address code.
///
/// ```text
/// instruction = Return(val)
///             | Unary(unary_operator, val src, val dst)
///             | Binary(binary_operator, val src1, val src2, val dst)
/// ```
#[allow(inconsistent_fields)]
#[derive(PartialEq, Eq, Structural, Debug, Clone, Copy)]
pub enum InstructionTacky {
    Ret { v: ValTacky },
    Unary { op: UnaryOp, src: ValTacky, dst: ValTacky },
    Binary { op: BinaryOp, src1: ValTacky, src2: ValTacky, dst: ValTacky },
}

/// A function of the three-address code.
///
/// ```text
/// function_definition = Function(identifier, instruction* body)
/// ```
#[derive(PartialEq, Debug)]
pub struct FunDefTacky {
    pub identifier: String,
    pub instructions: Vec<InstructionTacky>,
}

/// A program of the three-address code.
///
/// ```text
/// program = Program(function_definition)
/// ```
#[derive(PartialEq, Debug)]
pub struct ProgramTacky {
    pub function: Box<FunDefTacky>,
}

impl ValTacky {
    /// Whether the value is the temporary `id`.
    pub open spec fn names(self, id: u16) -> bool {
        self == (ValTacky::TmpVar { no: id })
    }
}

impl InstructionTacky {
    /// Whether the instruction reads or writes the temporary `id`.
    pub open spec fn names(self, id: u16) -> bool {
        match self {
            InstructionTacky::Ret { v } => v.names(id),
            InstructionTacky::Unary { op, src, dst } => src.names(id) || dst.names(id),
            InstructionTacky::Binary { op, src1, src2, dst } => src1.names(id) || src2.names(id)
                || dst.names(id),
        }
    }
}

/// The temporaries that a body reads or writes.
pub open spec fn referenced(instrs: Seq<InstructionTacky>) -> Set<u16> {
    Set::new(|id: u16| exists|k: int| 0 <= k < instrs.len() && (#[trigger] instrs[k]).names(id))
}

} // verus!
