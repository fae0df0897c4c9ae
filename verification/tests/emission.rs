use asmgen::assembly::{FunDefAsm, InstructionAsm, OperandAsm, ProgramAsm, Register};
use asmgen::emit::EmitError;
use asmgen::ops::{BinaryOp, UnaryOp};

fn stack(off: i32) -> OperandAsm {
    OperandAsm::Stack { off }
}

fn imm(int: i32) -> OperandAsm {
    OperandAsm::Imm { int }
}

fn reg(r: Register) -> OperandAsm {
    OperandAsm::Reg { r }
}

fn text_of(instr: InstructionAsm) -> String {
    instr.render().unwrap()
}

#[test]
fn register_names() {
    assert_eq!(Register::AX.render(), "%eax");
    assert_eq!(Register::R10.render(), "%r10d");
    assert_eq!(Register::DX.render(), "%edx");
    assert_eq!(Register::R11.render(), "%r11d");
}

#[test]
fn immediate_text() {
    assert_eq!(imm(0).render().unwrap(), "$0");
    assert_eq!(imm(7).render().unwrap(), "$7");
    assert_eq!(imm(10).render().unwrap(), "$10");
    assert_eq!(imm(-1).render().unwrap(), "$-1");
    assert_eq!(imm(1234567890).render().unwrap(), "$1234567890");
    assert_eq!(imm(i32::MAX).render().unwrap(), "$2147483647");
    assert_eq!(imm(i32::MIN).render().unwrap(), "$-2147483648");
}

#[test]
fn immediate_text_matches_std_formatting() {
    for value in [0, 1, 9, 10, 11, 99, 100, 101, 999, 1000, 65535, 65536, -9, -10, -100, -65536] {
        assert_eq!(imm(value).render().unwrap(), format!("${}", value));
        assert_eq!(stack(value).render().unwrap(), format!("{}(%rbp)", value));
    }
}

#[test]
fn stack_slot_text() {
    assert_eq!(stack(-4).render().unwrap(), "-4(%rbp)");
    assert_eq!(stack(-262144).render().unwrap(), "-262144(%rbp)");
    assert_eq!(stack(0).render().unwrap(), "0(%rbp)");
    assert_eq!(stack(8).render().unwrap(), "8(%rbp)");
}

#[test]
fn register_operand_text() {
    assert_eq!(reg(Register::AX).render().unwrap(), "%eax");
    assert_eq!(reg(Register::R11).render().unwrap(), "%r11d");
}

#[test]
fn pseudo_operand_has_no_text() {
    assert_eq!(
        OperandAsm::Pseudo { id: 12 }.render(),
        Err(EmitError::UnresolvedTemporary { id: 12 })
    );
}

#[test]
fn move_text() {
    assert_eq!(
        text_of(InstructionAsm::Mov { src: imm(2), dst: reg(Register::AX) }),
        "movl $2, %eax"
    );
    assert_eq!(
        text_of(InstructionAsm::Mov { src: stack(-4), dst: reg(Register::R10) }),
        "movl -4(%rbp), %r10d"
    );
}

#[test]
fn return_text_holds_epilogue() {
    assert_eq!(text_of(InstructionAsm::Ret), "movq %rbp, %rsp\n\tpopq %rbp\n\tret");
}

#[test]
fn unary_text() {
    assert_eq!(
        text_of(InstructionAsm::Unary { unop: UnaryOp::Negate, operand: stack(-4) }),
        "negl -4(%rbp)"
    );
    assert_eq!(
        text_of(InstructionAsm::Unary {
            unop: UnaryOp::BitwiseComplement,
            operand: reg(Register::AX),
        }),
        "notl %eax"
    );
}

#[test]
fn frame_allocation_text() {
    assert_eq!(text_of(InstructionAsm::AllocStack { off: -8 }), "subq $8, %rsp");
    assert_eq!(text_of(InstructionAsm::AllocStack { off: -262144 }), "subq $262144, %rsp");
    assert_eq!(text_of(InstructionAsm::AllocStack { off: 0 }), "subq $0, %rsp");
    assert_eq!(text_of(InstructionAsm::AllocStack { off: 16 }), "subq $-16, %rsp");
    assert_eq!(text_of(InstructionAsm::AllocStack { off: i32::MIN }), "subq $2147483648, %rsp");
}

#[test]
fn sign_extension_text() {
    assert_eq!(text_of(InstructionAsm::Cdq), "cdq");
}

#[test]
fn binary_text() {
    let cases = [
        (BinaryOp::Add, "addl $1, -4(%rbp)"),
        (BinaryOp::Subtract, "subl $1, -4(%rbp)"),
        (BinaryOp::Multiply, "imull $1, -4(%rbp)"),
        (BinaryOp::BitwiseAnd, "andl $1, -4(%rbp)"),
        (BinaryOp::BitwiseOr, "orl $1, -4(%rbp)"),
        (BinaryOp::BitwiseXor, "xorl $1, -4(%rbp)"),
    ];
    for (binop, expected) in cases {
        assert_eq!(text_of(InstructionAsm::Binary { binop, src: imm(1), dst: stack(-4) }), expected);
    }
}

#[test]
fn binary_division_has_no_text() {
    for binop in [BinaryOp::Divide, BinaryOp::Remainder] {
        assert_eq!(
            InstructionAsm::Binary { binop, src: imm(1), dst: stack(-4) }.render(),
            Err(EmitError::UnsupportedOperator { binop })
        );
    }
}

#[test]
fn operator_is_checked_before_operands() {
    assert_eq!(
        InstructionAsm::Binary {
            binop: BinaryOp::Divide,
            src: OperandAsm::Pseudo { id: 1 },
            dst: OperandAsm::Pseudo { id: 2 },
        }
        .render(),
        Err(EmitError::UnsupportedOperator { binop: BinaryOp::Divide })
    );
}

#[test]
fn divide_text() {
    assert_eq!(text_of(InstructionAsm::Idiv { operand: reg(Register::R10) }), "idivl %r10d");
    assert_eq!(text_of(InstructionAsm::Idiv { operand: stack(-12) }), "idivl -12(%rbp)");
}

#[test]
fn first_pseudo_operand_is_reported() {
    let a = OperandAsm::Pseudo { id: 1 };
    let b = OperandAsm::Pseudo { id: 2 };
    assert_eq!(
        InstructionAsm::Mov { src: a, dst: b }.render(),
        Err(EmitError::UnresolvedTemporary { id: 1 })
    );
    assert_eq!(
        InstructionAsm::Mov { src: imm(0), dst: b }.render(),
        Err(EmitError::UnresolvedTemporary { id: 2 })
    );
    assert_eq!(
        InstructionAsm::Binary { binop: BinaryOp::Add, src: a, dst: b }.render(),
        Err(EmitError::UnresolvedTemporary { id: 1 })
    );
    assert_eq!(
        InstructionAsm::Binary { binop: BinaryOp::Add, src: imm(0), dst: b }.render(),
        Err(EmitError::UnresolvedTemporary { id: 2 })
    );
    assert_eq!(
        InstructionAsm::Unary { unop: UnaryOp::Negate, operand: a }.render(),
        Err(EmitError::UnresolvedTemporary { id: 1 })
    );
    assert_eq!(
        InstructionAsm::Idiv { operand: b }.render(),
        Err(EmitError::UnresolvedTemporary { id: 2 })
    );
}

#[test]
fn function_text() {
    let fundef = FunDefAsm {
        identifier: String::from("main"),
        instructions: vec![
            InstructionAsm::AllocStack { off: -4 },
            InstructionAsm::Mov { src: imm(2), dst: stack(-4) },
            InstructionAsm::Unary { unop: UnaryOp::Negate, operand: stack(-4) },
            InstructionAsm::Mov { src: stack(-4), dst: reg(Register::AX) },
            InstructionAsm::Ret,
        ],
    };
    assert_eq!(
        fundef.render().unwrap(),
        "\t.globl main\nmain:\n\tpushq %rbp\n\tmovq %rsp, %rbp\
         \n\tsubq $4, %rsp\
         \n\tmovl $2, -4(%rbp)\
         \n\tnegl -4(%rbp)\
         \n\tmovl -4(%rbp), %eax\
         \n\tmovq %rbp, %rsp\n\tpopq %rbp\n\tret"
    );
}

#[test]
fn function_without_instructions() {
    let fundef = FunDefAsm { identifier: String::from("f"), instructions: vec![] };
    assert_eq!(fundef.render().unwrap(), "\t.globl f\nf:\n\tpushq %rbp\n\tmovq %rsp, %rbp");
}

#[test]
fn program_text_ends_with_stack_note() {
    let program = ProgramAsm {
        function: Box::new(FunDefAsm {
            identifier: String::from("main"),
            instructions: vec![
                InstructionAsm::Mov { src: imm(2), dst: reg(Register::AX) },
                InstructionAsm::Ret,
            ],
        }),
    };
    assert_eq!(
        program.render().unwrap(),
        "\t.globl main\nmain:\n\tpushq %rbp\n\tmovq %rsp, %rbp\
         \n\tmovl $2, %eax\
         \n\tmovq %rbp, %rsp\n\tpopq %rbp\n\tret\
         \n\t.section .note.GNU-stack,\"\",@progbits\n"
    );
}

#[test]
fn function_reports_first_instruction_without_text() {
    let fundef = FunDefAsm {
        identifier: String::from("main"),
        instructions: vec![
            InstructionAsm::Mov { src: imm(2), dst: reg(Register::AX) },
            InstructionAsm::Binary { binop: BinaryOp::Remainder, src: imm(1), dst: stack(-4) },
            InstructionAsm::Mov { src: OperandAsm::Pseudo { id: 3 }, dst: reg(Register::AX) },
            InstructionAsm::Ret,
        ],
    };
    assert_eq!(
        fundef.render(),
        Err(EmitError::UnsupportedOperator { binop: BinaryOp::Remainder })
    );
    let program = ProgramAsm {
        function: Box::new(FunDefAsm {
            identifier: String::from("main"),
            instructions: vec![
                InstructionAsm::Ret,
                InstructionAsm::Mov { src: OperandAsm::Pseudo { id: 3 }, dst: reg(Register::AX) },
                InstructionAsm::Binary { binop: BinaryOp::Divide, src: imm(1), dst: stack(-4) },
            ],
        }),
    };
    assert_eq!(program.render(), Err(EmitError::UnresolvedTemporary { id: 3 }));
}
