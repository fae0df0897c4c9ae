use asmgen::pipeline::gen_asm;
use asmgen::assembly::{InstructionAsm, OperandAsm, Register};
use asmgen::machine::Machine;
use asmgen::meaning::Halt;
use asmgen::ops::{BinaryOp, UnaryOp};
use asmgen::resolve::TmpVarResolver;
use asmgen::select::translate_with_pseudo;
use asmgen::tacky::{FunDefTacky, InstructionTacky, ProgramTacky, ValTacky};

fn tmp(no: u16) -> ValTacky {
    ValTacky::TmpVar { no }
}

fn constant(int: i32) -> ValTacky {
    ValTacky::Const { int }
}

fn stack(off: i32) -> OperandAsm {
    OperandAsm::Stack { off }
}

fn imm(int: i32) -> OperandAsm {
    OperandAsm::Imm { int }
}

fn reg(r: Register) -> OperandAsm {
    OperandAsm::Reg { r }
}

fn assign(no: u16, int: i32) -> InstructionTacky {
    InstructionTacky::Binary { op: BinaryOp::Add, src1: constant(int), src2: constant(0), dst: tmp(no) }
}

fn compile(instructions: Vec<InstructionTacky>) -> Vec<InstructionAsm> {
    let program = ProgramTacky {
        function: Box::new(FunDefTacky { identifier: String::from("main"), instructions }),
    };
    gen_asm(program).function.instructions
}

fn resolve_only(instructions: Vec<InstructionTacky>) -> Vec<InstructionAsm> {
    let mut resolver = TmpVarResolver::new();
    translate_with_pseudo(instructions)
        .into_iter()
        .map(|instr| resolver.resolve_temps(instr))
        .collect()
}

fn result_of(instructions: Vec<InstructionTacky>) -> Option<Halt> {
    Machine::new().run(&compile(instructions))
}

fn slot_of_rank(rank: i32) -> i32 {
    -4 * (rank + 1)
}

fn returned(value: i32) -> Option<Halt> {
    Some(Halt::Returned { value })
}

#[test]
fn fresh_machine_is_zeroed() {
    let machine = Machine::new();
    for r in [Register::AX, Register::R10, Register::DX, Register::R11] {
        assert_eq!(machine.register(r), 0);
    }
    assert_eq!(machine.slot(-4), 0);
    assert_eq!(machine.temp(3), 0);
    assert_eq!(machine.read(imm(9)), 9);
    assert_eq!(machine.read(stack(-8)), 0);
    assert_eq!(machine.read(OperandAsm::Pseudo { id: 0 }), 0);
}

#[test]
fn write_stores_everywhere_but_in_immediates() {
    let mut machine = Machine::new();
    assert!(machine.write(reg(Register::DX), 5));
    assert!(machine.write(stack(-4), 6));
    assert!(machine.write(OperandAsm::Pseudo { id: 1 }, 8));
    assert!(!machine.write(imm(1), 7));
    assert_eq!(machine.register(Register::DX), 5);
    assert_eq!(machine.register(Register::AX), 0);
    assert_eq!(machine.slot(-4), 6);
    assert_eq!(machine.slot(-8), 0);
    assert_eq!(machine.temp(1), 8);
    assert_eq!(machine.temp(0), 0);
    assert_eq!(machine.read(OperandAsm::Pseudo { id: 1 }), 8);
    assert_eq!(machine.read(stack(-4)), 6);
    assert_eq!(machine.read(reg(Register::DX)), 5);
}

#[test]
fn move_copies() {
    let mut machine = Machine::new();
    assert_eq!(machine.step(InstructionAsm::Mov { src: imm(3), dst: stack(-4) }), None);
    assert_eq!(machine.step(InstructionAsm::Mov { src: stack(-4), dst: reg(Register::AX) }), None);
    assert_eq!(machine.register(Register::AX), 3);
    assert_eq!(
        machine.step(InstructionAsm::Mov { src: imm(3), dst: imm(4) }),
        Some(Halt::Faulted)
    );
    assert_eq!(
        machine.step(InstructionAsm::Mov { src: stack(-4), dst: OperandAsm::Pseudo { id: 0 } }),
        None
    );
    assert_eq!(machine.temp(0), 3);
}

#[test]
fn unary_operators() {
    let mut machine = Machine::new();
    machine.write(reg(Register::AX), 5);
    machine.step(InstructionAsm::Unary { unop: UnaryOp::Negate, operand: reg(Register::AX) });
    assert_eq!(machine.register(Register::AX), -5);
    machine
        .step(InstructionAsm::Unary { unop: UnaryOp::BitwiseComplement, operand: reg(Register::AX) });
    assert_eq!(machine.register(Register::AX), 4);
    machine.write(reg(Register::AX), i32::MIN);
    machine.step(InstructionAsm::Unary { unop: UnaryOp::Negate, operand: reg(Register::AX) });
    assert_eq!(machine.register(Register::AX), i32::MIN);
}

#[test]
fn binary_operators_wrap() {
    let cases = [
        (BinaryOp::Add, 12, 10, 22),
        (BinaryOp::Subtract, 12, 10, 2),
        (BinaryOp::Subtract, 10, 12, -2),
        (BinaryOp::Multiply, 12, 10, 120),
        (BinaryOp::BitwiseAnd, 12, 10, 8),
        (BinaryOp::BitwiseOr, 12, 10, 14),
        (BinaryOp::BitwiseXor, 12, 10, 6),
        (BinaryOp::Add, i32::MAX, 1, i32::MIN),
        (BinaryOp::Subtract, i32::MIN, 1, i32::MAX),
        (BinaryOp::Multiply, 65536, 65536, 0),
        (BinaryOp::BitwiseAnd, -1, 10, 10),
    ];
    for (binop, left, right, expected) in cases {
        let mut machine = Machine::new();
        machine.write(stack(-4), left);
        assert_eq!(
            machine.step(InstructionAsm::Binary { binop, src: imm(right), dst: stack(-4) }),
            None
        );
        assert_eq!(machine.slot(-4), expected);
    }
}

#[test]
fn binary_division_is_no_instruction() {
    for binop in [BinaryOp::Divide, BinaryOp::Remainder] {
        let mut machine = Machine::new();
        assert_eq!(
            machine.step(InstructionAsm::Binary { binop, src: imm(1), dst: stack(-4) }),
            Some(Halt::Faulted)
        );
    }
}

#[test]
fn sign_extension_fills_dx() {
    let mut machine = Machine::new();
    machine.write(reg(Register::AX), -7);
    machine.write(reg(Register::DX), 99);
    assert_eq!(machine.step(InstructionAsm::Cdq), None);
    assert_eq!(machine.register(Register::DX), -1);
    machine.write(reg(Register::AX), 7);
    assert_eq!(machine.step(InstructionAsm::Cdq), None);
    assert_eq!(machine.register(Register::DX), 0);
}

#[test]
fn divide_rounds_toward_zero() {
    let cases = [(7, 2, 3, 1), (-7, 2, -3, -1), (7, -2, -3, 1), (-7, -2, 3, -1), (0, 5, 0, 0), (6, 3, 2, 0)];
    for (n, d, quotient, remainder) in cases {
        let mut machine = Machine::new();
        machine.write(reg(Register::AX), n);
        machine.step(InstructionAsm::Cdq);
        machine.write(stack(-4), d);
        assert_eq!(machine.step(InstructionAsm::Idiv { operand: stack(-4) }), None);
        assert_eq!(machine.register(Register::AX), quotient);
        assert_eq!(machine.register(Register::DX), remainder);
    }
}

#[test]
fn divide_takes_high_half_from_dx() {
    let mut machine = Machine::new();
    machine.write(reg(Register::DX), 1);
    machine.write(reg(Register::AX), 0);
    machine.write(reg(Register::R10), 4);
    assert_eq!(machine.step(InstructionAsm::Idiv { operand: reg(Register::R10) }), None);
    assert_eq!(machine.register(Register::AX), 1073741824);
    assert_eq!(machine.register(Register::DX), 0);
}

#[test]
fn divide_without_sign_extension_goes_wrong() {
    let mut machine = Machine::new();
    machine.write(reg(Register::AX), -7);
    machine.write(reg(Register::R10), 2);
    assert_eq!(machine.step(InstructionAsm::Idiv { operand: reg(Register::R10) }), None);
    assert_eq!(machine.register(Register::AX), 2147483644);
    assert_eq!(machine.register(Register::DX), 1);
}

#[test]
fn divide_faults() {
    let mut machine = Machine::new();
    machine.write(reg(Register::AX), 5);
    assert_eq!(machine.step(InstructionAsm::Idiv { operand: stack(-4) }), Some(Halt::Faulted));
    assert_eq!(machine.register(Register::AX), 5);

    let mut machine = Machine::new();
    machine.write(reg(Register::AX), i32::MIN);
    machine.step(InstructionAsm::Cdq);
    machine.write(reg(Register::R10), -1);
    assert_eq!(
        machine.step(InstructionAsm::Idiv { operand: reg(Register::R10) }),
        Some(Halt::Faulted)
    );

    let mut machine = Machine::new();
    machine.write(reg(Register::DX), i32::MIN);
    machine.write(reg(Register::R10), -1);
    assert_eq!(
        machine.step(InstructionAsm::Idiv { operand: reg(Register::R10) }),
        Some(Halt::Faulted)
    );

    let mut machine = Machine::new();
    machine.write(reg(Register::DX), 1);
    machine.write(reg(Register::R10), 1);
    assert_eq!(
        machine.step(InstructionAsm::Idiv { operand: reg(Register::R10) }),
        Some(Halt::Faulted)
    );
}

#[test]
fn frame_allocation_changes_nothing_visible() {
    let mut machine = Machine::new();
    machine.write(stack(-4), 3);
    assert_eq!(machine.step(InstructionAsm::AllocStack { off: -16 }), None);
    assert_eq!(machine.slot(-4), 3);
    assert_eq!(machine.register(Register::AX), 0);
}

#[test]
fn run_stops_at_first_return() {
    let mut machine = Machine::new();
    let halt = machine.run(&vec![
        InstructionAsm::Mov { src: imm(1), dst: reg(Register::AX) },
        InstructionAsm::Ret,
        InstructionAsm::Mov { src: imm(2), dst: reg(Register::AX) },
        InstructionAsm::Ret,
    ]);
    assert_eq!(halt, returned(1));
}

#[test]
fn run_without_return_reaches_the_end() {
    let mut machine = Machine::new();
    let halt = machine.run(&vec![
        InstructionAsm::Mov { src: imm(1), dst: reg(Register::AX) },
        InstructionAsm::Mov { src: imm(2), dst: stack(-4) },
    ]);
    assert_eq!(halt, None);
    assert_eq!(machine.register(Register::AX), 1);
    assert_eq!(machine.slot(-4), 2);
    assert_eq!(Machine::new().run(&vec![]), None);
}

#[test]
fn run_stops_at_fault() {
    let mut machine = Machine::new();
    let halt = machine.run(&vec![
        InstructionAsm::Mov { src: imm(1), dst: reg(Register::AX) },
        InstructionAsm::Idiv { operand: imm(0) },
        InstructionAsm::Ret,
    ]);
    assert_eq!(halt, Some(Halt::Faulted));
}

#[test]
fn product_survives_the_scratch_registers() {
    let body = vec![
        assign(0, 5),
        assign(1, 7),
        InstructionTacky::Binary { op: BinaryOp::Multiply, src1: tmp(0), src2: tmp(1), dst: tmp(2) },
        InstructionTacky::Ret { v: tmp(2) },
    ];
    assert_eq!(result_of(body), returned(35));
}

#[test]
fn division_keeps_the_sign() {
    let quotient = vec![
        assign(0, -7),
        assign(1, 2),
        InstructionTacky::Binary { op: BinaryOp::Divide, src1: tmp(0), src2: tmp(1), dst: tmp(2) },
        InstructionTacky::Ret { v: tmp(2) },
    ];
    assert_eq!(result_of(quotient), returned(-3));
    let remainder = vec![
        assign(0, -7),
        assign(1, 2),
        InstructionTacky::Binary { op: BinaryOp::Remainder, src1: tmp(0), src2: tmp(1), dst: tmp(2) },
        InstructionTacky::Ret { v: tmp(2) },
    ];
    assert_eq!(result_of(remainder), returned(-1));
}

#[test]
fn division_by_constant_keeps_the_sign() {
    let body = vec![
        InstructionTacky::Binary {
            op: BinaryOp::Divide,
            src1: constant(-7),
            src2: constant(2),
            dst: tmp(0),
        },
        InstructionTacky::Ret { v: tmp(0) },
    ];
    assert_eq!(result_of(body), returned(-3));
}

#[test]
fn three_temporaries_force_moves_between_slots() {
    let body = vec![
        assign(0, 10),
        assign(1, 4),
        InstructionTacky::Binary { op: BinaryOp::Subtract, src1: tmp(0), src2: tmp(1), dst: tmp(2) },
        InstructionTacky::Ret { v: tmp(2) },
    ];
    let both_slots = |instr: &InstructionAsm| match instr {
        InstructionAsm::Mov { src, dst } | InstructionAsm::Binary { src, dst, .. } => {
            matches!(src, OperandAsm::Stack { .. }) && matches!(dst, OperandAsm::Stack { .. })
        }
        _ => false,
    };
    let uses_scratch = |instr: &InstructionAsm| match instr {
        InstructionAsm::Mov { src, dst } | InstructionAsm::Binary { src, dst, .. } => {
            *src == reg(Register::R10) || *dst == reg(Register::R10)
        }
        _ => false,
    };
    let before = resolve_only(body.clone());
    assert!(before.iter().any(both_slots));
    assert!(!before.iter().any(uses_scratch));
    let after = compile(body.clone());
    assert!(!after.iter().any(both_slots));
    assert!(after.iter().any(uses_scratch));
    assert_eq!(Machine::new().run(&before), returned(6));
    assert_eq!(Machine::new().run(&after), returned(6));
}

#[test]
fn every_stage_returns_the_same_value() {
    let bodies = vec![
        (
            vec![
                assign(0, 5),
                assign(1, 7),
                InstructionTacky::Binary { op: BinaryOp::Multiply, src1: tmp(0), src2: tmp(1), dst: tmp(2) },
                InstructionTacky::Ret { v: tmp(2) },
            ],
            returned(35),
        ),
        (
            vec![
                InstructionTacky::Unary { op: UnaryOp::Negate, src: constant(7), dst: tmp(0) },
                InstructionTacky::Binary { op: BinaryOp::Remainder, src1: tmp(0), src2: constant(2), dst: tmp(1) },
                InstructionTacky::Unary { op: UnaryOp::BitwiseComplement, src: tmp(1), dst: tmp(1) },
                InstructionTacky::Ret { v: tmp(1) },
            ],
            returned(0),
        ),
        (
            vec![
                InstructionTacky::Binary { op: BinaryOp::Subtract, src1: tmp(3), src2: constant(1), dst: tmp(3) },
                InstructionTacky::Binary { op: BinaryOp::BitwiseAnd, src1: tmp(3), src2: constant(12), dst: tmp(4) },
                InstructionTacky::Binary { op: BinaryOp::BitwiseOr, src1: tmp(4), src2: tmp(3), dst: tmp(5) },
                InstructionTacky::Ret { v: tmp(5) },
            ],
            returned(-1),
        ),
        (
            vec![
                InstructionTacky::Binary { op: BinaryOp::Divide, src1: constant(i32::MIN), src2: constant(-1), dst: tmp(0) },
                InstructionTacky::Ret { v: tmp(0) },
            ],
            Some(Halt::Faulted),
        ),
        (
            vec![
                InstructionTacky::Unary { op: UnaryOp::Negate, src: constant(7), dst: constant(1) },
                InstructionTacky::Ret { v: constant(1) },
            ],
            Some(Halt::Faulted),
        ),
        (vec![assign(0, 1)], None),
    ];
    for (body, expected) in bodies {
        assert_eq!(Machine::new().run(&translate_with_pseudo(body.clone())), expected);
        assert_eq!(Machine::new().run(&resolve_only(body.clone())), expected);
        assert_eq!(Machine::new().run(&compile(body)), expected);
    }
}

#[test]
fn slots_end_with_the_values_of_the_temporaries() {
    let body = vec![
        assign(8, 3),
        InstructionTacky::Binary { op: BinaryOp::Multiply, src1: tmp(8), src2: tmp(8), dst: tmp(2) },
        InstructionTacky::Binary { op: BinaryOp::Subtract, src1: tmp(2), src2: constant(10), dst: tmp(5) },
    ];
    let mut with_temps = Machine::new();
    assert_eq!(with_temps.run(&translate_with_pseudo(body.clone())), None);
    assert_eq!(with_temps.temp(8), 3);
    assert_eq!(with_temps.temp(2), 9);
    assert_eq!(with_temps.temp(5), -1);
    let mut with_slots = Machine::new();
    assert_eq!(with_slots.run(&compile(body)), None);
    assert_eq!(with_slots.slot(slot_of_rank(0)), 3);
    assert_eq!(with_slots.slot(slot_of_rank(1)), 9);
    assert_eq!(with_slots.slot(slot_of_rank(2)), -1);
}

#[test]
fn second_source_in_the_destination_is_read_too_late() {
    let body = vec![
        assign(0, 10),
        assign(1, 4),
        InstructionTacky::Binary { op: BinaryOp::Subtract, src1: tmp(0), src2: tmp(1), dst: tmp(1) },
        InstructionTacky::Ret { v: tmp(1) },
    ];
    assert_eq!(result_of(body), returned(0));
}

#[test]
fn legalized_code_ends_as_resolved_code_does() {
    let bodies = vec![
        vec![
            assign(0, 6),
            InstructionTacky::Unary { op: UnaryOp::Negate, src: tmp(0), dst: tmp(1) },
            InstructionTacky::Binary { op: BinaryOp::Multiply, src1: tmp(1), src2: tmp(0), dst: tmp(2) },
            InstructionTacky::Binary { op: BinaryOp::BitwiseXor, src1: tmp(2), src2: tmp(1), dst: tmp(3) },
            InstructionTacky::Binary { op: BinaryOp::Remainder, src1: tmp(3), src2: constant(5), dst: tmp(4) },
            InstructionTacky::Ret { v: tmp(4) },
        ],
        vec![
            InstructionTacky::Binary { op: BinaryOp::Divide, src1: constant(1), src2: constant(0), dst: tmp(0) },
            InstructionTacky::Ret { v: tmp(0) },
        ],
        vec![assign(0, 1), assign(1, 2)],
    ];
    for body in bodies {
        let mut plain = Machine::new();
        let mut fixed = Machine::new();
        let plain_halt = plain.run(&resolve_only(body.clone()));
        let fixed_halt = fixed.run(&compile(body));
        assert_eq!(plain_halt, fixed_halt);
        if plain_halt.is_none() {
            assert_eq!(plain.register(Register::AX), fixed.register(Register::AX));
            assert_eq!(plain.register(Register::DX), fixed.register(Register::DX));
            for off in [-4, -8, -12] {
                assert_eq!(plain.slot(off), fixed.slot(off));
            }
        }
    }
}
