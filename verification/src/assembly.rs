//! The assembly tree: registers, operands, instructions, functions.

use vstd::prelude::*;
use crate::ops::{BinaryOp, UnaryOp};

verus! {

/// x86-64 registers that the generated code uses.
///
/// `AX` holds the return value, the dividend and the quotient; `DX` holds the
/// high half of the dividend and the remainder; `R10` and `R11` are scratch.
#[derive(PartialEq, Eq, Structural, Debug, Clone, Copy)]
pub enum Register {
    AX,
    R10,
    DX,
    R11,
}

/// x86-64 operand.
///
/// ```text
/// operand = Imm(int) | Reg(reg) | Pseudo(identifier) | Stack(int)
/// ```
///
/// `Pseudo` stands for a temporary that has no place yet. `Stack` is a byte
/// offset from the frame base.
#[derive(PartialEq, Eq, Structural, Debug, Clone, Copy)]
pub enum OperandAsm {
    Imm { int: i32 },
    Reg { r: Register },
    Pseudo { id: u16 },
    Stack { off: i32 },
}

/// x86-64 instruction.
///
/// ```text
/// instruction = Mov(operand src, operand dst)
///             | Unary(unary_operator, operand)
///             | Binary(binary_operator, operand, operand)
///             | Idiv(operand)
///             | Cdq
///             | AllocateStack(int)
///             | Ret
/// ```
#[derive(PartialEq, Eq, Structural, Debug, Clone, Copy)]
pub enum InstructionAsm {
    Mov { src: OperandAsm, dst: OperandAsm },
    Ret,
    Unary { unop: UnaryOp, operand: OperandAsm },
    AllocStack { off: i32 },
    Binary { binop: BinaryOp, src: OperandAsm, dst: OperandAsm },
    Idiv { operand: OperandAsm },
    Cdq,
}

/// x86-64 function definition.
///
/// ```text
/// function_definition = Function(identifier, instruction* body)
/// ```
#[derive(PartialEq, Debug)]
pub struct FunDefAsm {
    pub identifier: String,
    pub instructions: Vec<InstructionAsm>,
}

/// x86-64 program.
///
/// ```text
/// program = Program(function_definition)
/// ```
#[derive(PartialEq, Debug)]
pub struct ProgramAsm {
    pub function: Box<FunDefAsm>,
}

} // verus!
