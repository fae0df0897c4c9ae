use asmgen::assembly::{InstructionAsm, OperandAsm, Register};
use asmgen::ops::{BinaryOp, UnaryOp};
use asmgen::select::{translate_valtacky, translate_with_pseudo};
use asmgen::tacky::{InstructionTacky, ValTacky};

fn tmp(no: u16) -> ValTacky {
    ValTacky::TmpVar { no }
}

fn constant(int: i32) -> ValTacky {
    ValTacky::Const { int }
}

fn pseudo(id: u16) -> OperandAsm {
    OperandAsm::Pseudo { id }
}

fn imm(int: i32) -> OperandAsm {
    OperandAsm::Imm { int }
}

fn reg(r: Register) -> OperandAsm {
    OperandAsm::Reg { r }
}

#[test]
fn constant_becomes_immediate() {
    assert_eq!(translate_valtacky(constant(7)), imm(7));
    assert_eq!(translate_valtacky(constant(i32::MIN)), imm(i32::MIN));
}

#[test]
fn temporary_becomes_pseudo() {
    assert_eq!(translate_valtacky(tmp(3)), pseudo(3));
    assert_eq!(translate_valtacky(tmp(u16::MAX)), pseudo(u16::MAX));
}

#[test]
fn empty_body_selects_nothing() {
    assert_eq!(translate_with_pseudo(vec![]), vec![]);
}

#[test]
fn return_moves_value_into_ax() {
    let selected = translate_with_pseudo(vec![InstructionTacky::Ret { v: constant(2) }]);
    assert_eq!(
        selected,
        vec![
            InstructionAsm::Mov { src: imm(2), dst: reg(Register::AX) },
            InstructionAsm::Ret,
        ]
    );
}

#[test]
fn unary_copies_then_works_in_place() {
    let selected = translate_with_pseudo(vec![InstructionTacky::Unary {
        op: UnaryOp::Negate,
        src: constant(5),
        dst: tmp(0),
    }]);
    assert_eq!(
        selected,
        vec![
            InstructionAsm::Mov { src: imm(5), dst: pseudo(0) },
            InstructionAsm::Unary { unop: UnaryOp::Negate, operand: pseudo(0) },
        ]
    );
    let selected = translate_with_pseudo(vec![InstructionTacky::Unary {
        op: UnaryOp::BitwiseComplement,
        src: tmp(0),
        dst: tmp(1),
    }]);
    assert_eq!(
        selected,
        vec![
            InstructionAsm::Mov { src: pseudo(0), dst: pseudo(1) },
            InstructionAsm::Unary { unop: UnaryOp::BitwiseComplement, operand: pseudo(1) },
        ]
    );
}

#[test]
fn plain_binary_preloads_left_operand() {
    for op in [
        BinaryOp::Add,
        BinaryOp::Subtract,
        BinaryOp::Multiply,
        BinaryOp::BitwiseAnd,
        BinaryOp::BitwiseOr,
        BinaryOp::BitwiseXor,
    ] {
        let selected = translate_with_pseudo(vec![InstructionTacky::Binary {
            op,
            src1: tmp(0),
            src2: constant(3),
            dst: tmp(1),
        }]);
        assert_eq!(
            selected,
            vec![
                InstructionAsm::Mov { src: pseudo(0), dst: pseudo(1) },
                InstructionAsm::Binary { binop: op, src: imm(3), dst: pseudo(1) },
            ]
        );
    }
}

#[test]
fn divide_takes_quotient_from_ax() {
    let selected = translate_with_pseudo(vec![InstructionTacky::Binary {
        op: BinaryOp::Divide,
        src1: tmp(0),
        src2: tmp(1),
        dst: tmp(2),
    }]);
    assert_eq!(
        selected,
        vec![
            InstructionAsm::Mov { src: pseudo(0), dst: reg(Register::AX) },
            InstructionAsm::Cdq,
            InstructionAsm::Idiv { operand: pseudo(1) },
            InstructionAsm::Mov { src: reg(Register::AX), dst: pseudo(2) },
        ]
    );
}

#[test]
fn remainder_takes_result_from_dx() {
    let selected = translate_with_pseudo(vec![InstructionTacky::Binary {
        op: BinaryOp::Remainder,
        src1: constant(9),
        src2: constant(4),
        dst: tmp(0),
    }]);
    assert_eq!(
        selected,
        vec![
            InstructionAsm::Mov { src: imm(9), dst: reg(Register::AX) },
            InstructionAsm::Cdq,
            InstructionAsm::Idiv { operand: imm(4) },
            InstructionAsm::Mov { src: reg(Register::DX), dst: pseudo(0) },
        ]
    );
}

#[test]
fn translations_come_in_instruction_order() {
    let selected = translate_with_pseudo(vec![
        InstructionTacky::Unary { op: UnaryOp::Negate, src: constant(1), dst: tmp(0) },
        InstructionTacky::Ret { v: tmp(0) },
    ]);
    assert_eq!(
        selected,
        vec![
            InstructionAsm::Mov { src: imm(1), dst: pseudo(0) },
            InstructionAsm::Unary { unop: UnaryOp::Negate, operand: pseudo(0) },
            InstructionAsm::Mov { src: pseudo(0), dst: reg(Register::AX) },
            InstructionAsm::Ret,
        ]
    );
}
