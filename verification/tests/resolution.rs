use asmgen::assembly::{InstructionAsm, OperandAsm, Register};
use asmgen::ops::{BinaryOp, UnaryOp};
use asmgen::resolve::{TmpVarResolver, MAX_TEMPORARIES, SLOT_BYTES};

fn pseudo(id: u16) -> OperandAsm {
    OperandAsm::Pseudo { id }
}

fn stack(off: i32) -> OperandAsm {
    OperandAsm::Stack { off }
}

#[test]
fn fresh_resolver_has_used_nothing() {
    let mut resolver = TmpVarResolver::new();
    assert_eq!(resolver.get_min_used(), 0);
}

#[test]
fn slot_constants() {
    assert_eq!(SLOT_BYTES, 4);
    assert_eq!(MAX_TEMPORARIES, 65536);
}

#[test]
fn first_temporary_gets_slot_below_frame_base() {
    let mut resolver = TmpVarResolver::new();
    assert_eq!(resolver.temp_to_stack(pseudo(9)), stack(-4));
    assert_eq!(resolver.get_min_used(), -4);
}

#[test]
fn slots_follow_order_of_first_occurrence() {
    let mut resolver = TmpVarResolver::new();
    assert_eq!(resolver.temp_to_stack(pseudo(7)), stack(-4));
    assert_eq!(resolver.temp_to_stack(pseudo(2)), stack(-8));
    assert_eq!(resolver.temp_to_stack(pseudo(7)), stack(-4));
    assert_eq!(resolver.temp_to_stack(pseudo(0)), stack(-12));
    assert_eq!(resolver.temp_to_stack(pseudo(2)), stack(-8));
    assert_eq!(resolver.get_min_used(), -12);
}

#[test]
fn other_operands_stay_as_they_are() {
    let mut resolver = TmpVarResolver::new();
    assert_eq!(
        resolver.temp_to_stack(OperandAsm::Imm { int: 5 }),
        OperandAsm::Imm { int: 5 }
    );
    assert_eq!(
        resolver.temp_to_stack(OperandAsm::Reg { r: Register::DX }),
        OperandAsm::Reg { r: Register::DX }
    );
    assert_eq!(resolver.temp_to_stack(stack(-40)), stack(-40));
    assert_eq!(resolver.get_min_used(), 0);
    assert_eq!(resolver.temp_to_stack(pseudo(1)), stack(-4));
}

#[test]
fn operands_are_resolved_left_to_right() {
    let mut resolver = TmpVarResolver::new();
    assert_eq!(
        resolver.resolve_temps(InstructionAsm::Mov { src: pseudo(3), dst: pseudo(1) }),
        InstructionAsm::Mov { src: stack(-4), dst: stack(-8) }
    );
    assert_eq!(
        resolver.resolve_temps(InstructionAsm::Binary {
            binop: BinaryOp::Add,
            src: pseudo(1),
            dst: pseudo(4),
        }),
        InstructionAsm::Binary { binop: BinaryOp::Add, src: stack(-8), dst: stack(-12) }
    );
    assert_eq!(resolver.get_min_used(), -12);
}

#[test]
fn same_temporary_twice_in_one_instruction() {
    let mut resolver = TmpVarResolver::new();
    assert_eq!(
        resolver.resolve_temps(InstructionAsm::Mov { src: pseudo(5), dst: pseudo(5) }),
        InstructionAsm::Mov { src: stack(-4), dst: stack(-4) }
    );
    assert_eq!(resolver.get_min_used(), -4);
}

#[test]
fn single_operand_instructions_are_resolved() {
    let mut resolver = TmpVarResolver::new();
    assert_eq!(
        resolver.resolve_temps(InstructionAsm::Unary {
            unop: UnaryOp::Negate,
            operand: pseudo(0),
        }),
        InstructionAsm::Unary { unop: UnaryOp::Negate, operand: stack(-4) }
    );
    assert_eq!(
        resolver.resolve_temps(InstructionAsm::Idiv { operand: pseudo(1) }),
        InstructionAsm::Idiv { operand: stack(-8) }
    );
}

#[test]
fn instructions_without_operands_pass() {
    let mut resolver = TmpVarResolver::new();
    assert_eq!(resolver.resolve_temps(InstructionAsm::Ret), InstructionAsm::Ret);
    assert_eq!(resolver.resolve_temps(InstructionAsm::Cdq), InstructionAsm::Cdq);
    assert_eq!(
        resolver.resolve_temps(InstructionAsm::AllocStack { off: -8 }),
        InstructionAsm::AllocStack { off: -8 }
    );
    assert_eq!(resolver.get_min_used(), 0);
}

#[test]
fn every_temporary_number_gets_a_slot_of_its_own() {
    let mut resolver = TmpVarResolver::new();
    let mut id: u16 = 0;
    loop {
        let expected = -4 * (i32::from(id) + 1);
        assert_eq!(resolver.temp_to_stack(pseudo(id)), stack(expected));
        if id == u16::MAX {
            break;
        }
        id += 1;
    }
    assert_eq!(resolver.get_min_used(), -262144);
    assert_eq!(resolver.temp_to_stack(pseudo(0)), stack(-4));
    assert_eq!(resolver.temp_to_stack(pseudo(u16::MAX)), stack(-262144));
    assert_eq!(resolver.get_min_used(), -262144);
}
