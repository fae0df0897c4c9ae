//! Instruction selection: three-address code to machine instructions whose
//! operands may still name temporaries.

use vstd::prelude::*;
use crate::assembly::{InstructionAsm, OperandAsm, Register};
use crate::ops::BinaryOp;
use crate::seqs::lemma_flat_map_empty;
use crate::tacky::{InstructionTacky, ValTacky};

verus! {

/// The operand that stands for a value: a constant is an immediate, a
/// temporary is a pseudo operand of the same number.
pub open spec fn operand_of(tval: ValTacky) -> OperandAsm {
    match tval {
        ValTacky::Const { int: value } => OperandAsm::Imm { int: value },
        ValTacky::TmpVar { no } => OperandAsm::Pseudo { id: no },
    }
}

/// Translates a value of the three-address code into an operand.
pub fn translate_valtacky(tval: ValTacky) -> (operand: OperandAsm)
    ensures
        operand == operand_of(tval),
{
    match tval {
        ValTacky::Const { int: value } => OperandAsm::Imm { int: value },
        ValTacky::TmpVar { no } => OperandAsm::Pseudo { id: no },
    }
}

/// The register in which the divide instruction leaves the result that the
/// operator asks for: the quotient in `AX`, the remainder in `DX`.
pub open spec fn divide_result(op: BinaryOp) -> Register {
    if op is Remainder {
        Register::DX
    } else {
        Register::AX
    }
}

/// The machine instructions for one instruction of the three-address code.
///
/// - A return moves the value into `AX` and returns.
/// - A unary operator works in place, so the source is first copied into the
///   destination.
/// - Division and remainder load the dividend into `AX`, extend its sign into
///   `DX`, divide, and copy the result register into the destination.
/// - Every other binary operator copies the left operand into the destination
///   and combines the right operand into it.
pub open spec fn select_instr(instr: InstructionTacky) -> Seq<InstructionAsm> {
    match instr {
        InstructionTacky::Ret { v } => seq![
            InstructionAsm::Mov { src: operand_of(v), dst: OperandAsm::Reg { r: Register::AX } },
            InstructionAsm::Ret,
        ],
        InstructionTacky::Unary { op, src, dst } => seq![
            InstructionAsm::Mov { src: operand_of(src), dst: operand_of(dst) },
            InstructionAsm::Unary { unop: op, operand: operand_of(dst) },
        ],
        InstructionTacky::Binary { op, src1, src2, dst } => if op.uses_divide() {
            seq![
                InstructionAsm::Mov {
                    src: operand_of(src1),
                    dst: OperandAsm::Reg { r: Register::AX },
                },
                InstructionAsm::Cdq,
                InstructionAsm::Idiv { operand: operand_of(src2) },
                InstructionAsm::Mov {
                    src: OperandAsm::Reg { r: divide_result(op) },
                    dst: operand_of(dst),
                },
            ]
        } else {
            seq![
                InstructionAsm::Mov { src: operand_of(src1), dst: operand_of(dst) },
                InstructionAsm::Binary { binop: op, src: operand_of(src2), dst: operand_of(dst) },
            ]
        },
    }
}

/// The machine instructions for a whole body: the translations of its
/// instructions, in order.
pub open spec fn select(instrs: Seq<InstructionTacky>) -> Seq<InstructionAsm> {
    instrs.flat_map(|instr: InstructionTacky| select_instr(instr))
}

/// Translates a body of three-address code into machine instructions whose
/// operands may still be pseudo operands.
pub fn translate_with_pseudo(tacky_instrs: Vec<InstructionTacky>) -> (res: Vec<InstructionAsm>)
    ensures
        res@ == select(tacky_instrs@),
{
    let mut res: Vec<InstructionAsm> = Vec::new();
    let n: usize = tacky_instrs.len();
    let mut i: usize = 0;
    proof {
        lemma_flat_map_empty(|instr: InstructionTacky| select_instr(instr));
        assert(tacky_instrs@.take(0) =~= Seq::<InstructionTacky>::empty());
    }
    while i < n
        invariant
            n == tacky_instrs.len(),
            i <= n,
            res@ == select(tacky_instrs@.take(i as int)),
        decreases n - i,
    {
        let ghost before = res@;
        match tacky_instrs[i] {
            InstructionTacky::Ret { v } => {
                res.push(
                    InstructionAsm::Mov {
                        src: translate_valtacky(v),
                        dst: OperandAsm::Reg { r: Register::AX },
                    },
                );
                res.push(InstructionAsm::Ret);
            },
            InstructionTacky::Unary { op, src, dst } => {
                let src: OperandAsm = translate_valtacky(src);
                let dst: OperandAsm = translate_valtacky(dst);
                res.push(InstructionAsm::Mov { src, dst });
                res.push(InstructionAsm::Unary { unop: op, operand: dst });
            },
            InstructionTacky::Binary { op, src1, src2, dst } => {
                let src1: OperandAsm = translate_valtacky(src1);
                let src2: OperandAsm = translate_valtacky(src2);
                let dst: OperandAsm = translate_valtacky(dst);
                match op {
                    BinaryOp::Divide => {
                        res.push(
                            InstructionAsm::Mov { src: src1, dst: OperandAsm::Reg { r: Register::AX } },
                        );
                        res.push(InstructionAsm::Cdq);
                        res.push(InstructionAsm::Idiv { operand: src2 });
                        res.push(
                            InstructionAsm::Mov { src: OperandAsm::Reg { r: Register::AX }, dst },
                        );
                    },
                    BinaryOp::Remainder => {
                        res.push(
                            InstructionAsm::Mov { src: src1, dst: OperandAsm::Reg { r: Register::AX } },
                        );
                        res.push(InstructionAsm::Cdq);
                        res.push(InstructionAsm::Idiv { operand: src2 });
                        res.push(
                            InstructionAsm::Mov { src: OperandAsm::Reg { r: Register::DX }, dst },
                        );
                    },
                    _ => {
                        res.push(InstructionAsm::Mov { src: src1, dst });
                        res.push(InstructionAsm::Binary { binop: op, src: src2, dst });
                    },
                }
            },
        }
        proof {
            tacky_instrs@.lemma_flat_map_take_append(
                |instr: InstructionTacky| select_instr(instr),
                i as int,
            );
            assert(res@ =~= before + select_instr(tacky_instrs@[i as int]));
        }
        i = i + 1;
    }
    proof {
        assert(tacky_instrs@.take(n as int) =~= tacky_instrs@);
    }
    res
}

} // verus!
