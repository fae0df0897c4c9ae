//! Legalization: instructions that the target cannot encode are rewritten to
//! go through a scratch register, and the frame is allocated.
//!
//! The target refuses three things: an instruction with two memory operands,
//! a multiply whose destination is in memory, and a divide by an immediate.
//! `R10` carries a source operand, `R11` carries the destination of a
//! multiply. Neither is live from one instruction to the next.

use vstd::prelude::*;
use crate::assembly::{InstructionAsm, OperandAsm, Register};
use crate::ops::BinaryOp;
use crate::seqs::{lemma_flat_map_all, lemma_flat_map_empty, lemma_flat_map_identity};

verus! {

/// The scratch register that carries a source operand.
pub open spec fn scratch_src() -> OperandAsm {
    OperandAsm::Reg { r: Register::R10 }
}

/// The scratch register that carries the destination of a multiply.
pub open spec fn scratch_dst() -> OperandAsm {
    OperandAsm::Reg { r: Register::R11 }
}

/// Whether both operands live in memory.
pub open spec fn both_in_memory(src: OperandAsm, dst: OperandAsm) -> bool {
    src is Stack && dst is Stack
}

/// Whether a rewrite applies to the instruction.
///
/// A multiply is always rewritten, whatever its destination.
pub open spec fn needs_rewrite(instr: InstructionAsm) -> bool {
    match instr {
        InstructionAsm::Mov { src, dst } => both_in_memory(src, dst),
        InstructionAsm::Binary { binop, src, dst } => binop is Multiply || both_in_memory(src, dst),
        InstructionAsm::Idiv { operand } => operand is Imm,
        _ => false,
    }
}

/// Whether the target can encode the instruction as it stands.
pub open spec fn obeys_placement(instr: InstructionAsm) -> bool {
    match instr {
        InstructionAsm::Mov { src, dst } => !both_in_memory(src, dst),
        InstructionAsm::Binary { binop, src, dst } => if binop is Multiply {
            !(dst is Stack)
        } else {
            !both_in_memory(src, dst)
        },
        InstructionAsm::Idiv { operand } => !(operand is Imm),
        _ => true,
    }
}

/// The instructions that stand for one instruction after legalization.
///
/// - A move from memory to memory loads `R10` and stores it.
/// - A multiply loads its destination into `R11`, multiplies into `R11` and
///   stores `R11` back.
/// - Any other binary instruction on two memory operands loads the source
///   into `R10` first.
/// - A divide by an immediate loads the immediate into `R10` first.
/// - Everything else stays as it is.
pub open spec fn legalize_instr(instr: InstructionAsm) -> Seq<InstructionAsm> {
    match instr {
        InstructionAsm::Mov { src, dst } => if both_in_memory(src, dst) {
            seq![
                InstructionAsm::Mov { src, dst: scratch_src() },
                InstructionAsm::Mov { src: scratch_src(), dst },
            ]
        } else {
            seq![instr]
        },
        InstructionAsm::Binary { binop, src, dst } => if binop is Multiply {
            seq![
                InstructionAsm::Mov { src: dst, dst: scratch_dst() },
                InstructionAsm::Binary { binop, src, dst: scratch_dst() },
                InstructionAsm::Mov { src: scratch_dst(), dst },
            ]
        } else if both_in_memory(src, dst) {
            seq![
                InstructionAsm::Mov { src, dst: scratch_src() },
                InstructionAsm::Binary { binop, src: scratch_src(), dst },
            ]
        } else {
            seq![instr]
        },
        InstructionAsm::Idiv { operand } => if operand is Imm {
            seq![
                InstructionAsm::Mov { src: operand, dst: scratch_src() },
                InstructionAsm::Idiv { operand: scratch_src() },
            ]
        } else {
            seq![instr]
        },
        _ => seq![instr],
    }
}

/// The legalized instructions of a body, without the frame allocation.
pub open spec fn legalize_body(instrs: Seq<InstructionAsm>) -> Seq<InstructionAsm> {
    instrs.flat_map(|instr: InstructionAsm| legalize_instr(instr))
}

/// The final instructions of a function: the frame allocation, unless the
/// frame is empty, then the legalized body.
///
/// `min_used` is the lowest offset given to a slot, zero if there is none.
pub open spec fn legalize(instrs: Seq<InstructionAsm>, min_used: i32) -> Seq<InstructionAsm> {
    if min_used != 0 {
        seq![InstructionAsm::AllocStack { off: min_used }] + legalize_body(instrs)
    } else {
        legalize_body(instrs)
    }
}

/// Appends the legalized form of a binary instruction to `instrs`. An
/// instruction of another kind appends nothing.
pub fn resolve_binary(instr: InstructionAsm, instrs: &mut Vec<InstructionAsm>)
    ensures
        final(instrs)@ == old(instrs)@ + (if instr is Binary {
            legalize_instr(instr)
        } else {
            Seq::empty()
        }),
{
    let ghost before = instrs@;
    match instr {
        InstructionAsm::Binary { binop, src, dst } => {
            match binop {
                BinaryOp::Multiply => {
                    instrs.push(
                        InstructionAsm::Mov { src: dst, dst: OperandAsm::Reg { r: Register::R11 } },
                    );
                    instrs.push(
                        InstructionAsm::Binary {
                            binop,
                            src,
                            dst: OperandAsm::Reg { r: Register::R11 },
                        },
                    );
                    instrs.push(
                        InstructionAsm::Mov { src: OperandAsm::Reg { r: Register::R11 }, dst },
                    );
                },
                _ => {
                    if is_stack(src) && is_stack(dst) {
                        instrs.push(
                            InstructionAsm::Mov { src, dst: OperandAsm::Reg { r: Register::R10 } },
                        );
                        instrs.push(
                            InstructionAsm::Binary {
                                binop,
                                src: OperandAsm::Reg { r: Register::R10 },
                                dst,
                            },
                        );
                    } else {
                        instrs.push(instr);
                    }
                },
            }
            assert(instrs@ =~= before + legalize_instr(instr));
        },
        _ => {
            assert(instrs@ =~= before + Seq::<InstructionAsm>::empty());
        },
    }
}

/// Whether the operand is a stack slot.
fn is_stack(operand: OperandAsm) -> (res: bool)
    ensures
        res == (operand is Stack),
{
    match operand {
        OperandAsm::Stack { off: _ } => true,
        _ => false,
    }
}

/// Fixes up instructions whose pseudo operands have been resolved, so that
/// every operand is one that its instruction accepts, and allocates the frame
/// in front of them when `min_used` is not zero.
pub fn fix_up_instrs(resolved_instrs: Vec<InstructionAsm>, min_used: i32) -> (res: Vec<
    InstructionAsm,
>)
    ensures
        res@ == legalize(resolved_instrs@, min_used),
{
    let mut res: Vec<InstructionAsm> = Vec::new();
    if min_used != 0 {
        res.push(InstructionAsm::AllocStack { off: min_used });
    }
    let ghost head = res@;
    let n: usize = resolved_instrs.len();
    let mut i: usize = 0;
    proof {
        lemma_flat_map_empty(|instr: InstructionAsm| legalize_instr(instr));
        assert(resolved_instrs@.take(0) =~= Seq::<InstructionAsm>::empty());
        assert(head + Seq::<InstructionAsm>::empty() =~= head);
    }
    while i < n
        invariant
            n == resolved_instrs.len(),
            i <= n,
            res@ == head + legalize_body(resolved_instrs@.take(i as int)),
        decreases n - i,
    {
        let ghost before = res@;
        let instr: InstructionAsm = resolved_instrs[i];
        match instr {
            InstructionAsm::Mov { src, dst } => {
                if is_stack(src) && is_stack(dst) {
                    res.push(InstructionAsm::Mov { src, dst: OperandAsm::Reg { r: Register::R10 } });
                    res.push(InstructionAsm::Mov { src: OperandAsm::Reg { r: Register::R10 }, dst });
                } else {
                    res.push(instr);
                }
            },
            InstructionAsm::Binary { binop: _, src: _, dst: _ } => {
                resolve_binary(instr, &mut res);
            },
            InstructionAsm::Idiv { operand } => {
                match operand {
                    OperandAsm::Imm { int: value } => {
                        res.push(
                            InstructionAsm::Mov {
                                src: OperandAsm::Imm { int: value },
                                dst: OperandAsm::Reg { r: Register::R10 },
                            },
                        );
                        res.push(
                            InstructionAsm::Idiv { operand: OperandAsm::Reg { r: Register::R10 } },
                        );
                    },
                    _ => {
                        res.push(instr);
                    },
                }
            },
            _ => {
                res.push(instr);
            },
        }
        proof {
            resolved_instrs@.lemma_flat_map_take_append(
                |instr: InstructionAsm| legalize_instr(instr),
                i as int,
            );
            assert(res@ =~= before + legalize_instr(instr));
            assert(res@ =~= head + legalize_body(resolved_instrs@.take(i + 1)));
        }
        i = i + 1;
    }
    proof {
        assert(resolved_instrs@.take(n as int) =~= resolved_instrs@);
        assert(Seq::<InstructionAsm>::empty() + legalize_body(resolved_instrs@) =~= legalize_body(
            resolved_instrs@,
        ));
    }
    res
}

/// A rewrite applies to an instruction exactly when legalization replaces it
/// by something else.
pub proof fn lemma_rewrite_changes(instr: InstructionAsm)
    ensures
        needs_rewrite(instr) <==> legalize_instr(instr) != seq![instr],
{
    if needs_rewrite(instr) {
        assert(legalize_instr(instr).len() != seq![instr].len());
    }
}

/// Every instruction that legalization gives out is one that the target can
/// encode: no instruction has two memory operands, no multiply writes to
/// memory, no divide takes an immediate.
pub proof fn lemma_legalized_obeys_placement(instrs: Seq<InstructionAsm>, min_used: i32)
    ensures
        forall|k: int|
            0 <= k < legalize(instrs, min_used).len() ==> obeys_placement(
                #[trigger] legalize(instrs, min_used)[k],
            ),
{
    let f = |instr: InstructionAsm| legalize_instr(instr);
    let p = |instr: InstructionAsm| obeys_placement(instr);
    assert forall|i: int, j: int| 0 <= i < instrs.len() && 0 <= j < f(instrs[i]).len() implies p(
        #[trigger] f(instrs[i])[j],
    ) by {}
    lemma_flat_map_all(instrs, f, p);
    let body = legalize_body(instrs);
    assert forall|k: int| 0 <= k < body.len() implies obeys_placement(#[trigger] body[k]) by {
        assert(p(instrs.flat_map(f)[k]));
    }
}

/// Legalization without a frame leaves a sequence alone to which no rewrite
/// applies.
pub proof fn lemma_legalize_fixed_point(instrs: Seq<InstructionAsm>)
    requires
        forall|k: int| 0 <= k < instrs.len() ==> !needs_rewrite(#[trigger] instrs[k]),
    ensures
        legalize(instrs, 0) == instrs,
{
    let f = |instr: InstructionAsm| legalize_instr(instr);
    assert forall|i: int| 0 <= i < instrs.len() implies #[trigger] f(instrs[i]) == seq![
        instrs[i],
    ] by {
        assert(!needs_rewrite(instrs[i]));
    }
    lemma_flat_map_identity(instrs, f);
}

/// Whether the instruction is a multiply.
pub open spec fn is_multiply(instr: InstructionAsm) -> bool {
    instr matches InstructionAsm::Binary { binop, .. } && binop is Multiply
}

/// Legalizing a second time, with no further frame to allocate, changes
/// nothing, as long as the body holds no multiply.
///
/// A multiply is rewritten whatever its destination, so the multiply that the
/// first pass leaves behind would be rewritten again.
pub proof fn lemma_legalize_idempotent(instrs: Seq<InstructionAsm>, min_used: i32)
    requires
        forall|k: int| 0 <= k < instrs.len() ==> !is_multiply(#[trigger] instrs[k]),
    ensures
        legalize(legalize(instrs, min_used), 0) == legalize(instrs, min_used),
{
    let f = |instr: InstructionAsm| legalize_instr(instr);
    let p = |instr: InstructionAsm| !needs_rewrite(instr);
    assert forall|i: int, j: int| 0 <= i < instrs.len() && 0 <= j < f(instrs[i]).len() implies p(
        #[trigger] f(instrs[i])[j],
    ) by {
        assert(!is_multiply(instrs[i]));
    }
    lemma_flat_map_all(instrs, f, p);
    let body = legalize_body(instrs);
    let once = legalize(instrs, min_used);
    assert forall|k: int| 0 <= k < once.len() implies !needs_rewrite(#[trigger] once[k]) by {
        if min_used != 0 {
            if k > 0 {
                assert(once[k] == body[k - 1]);
                assert(p(instrs.flat_map(f)[k - 1]));
            }
        } else {
            assert(p(instrs.flat_map(f)[k]));
        }
    }
    lemma_legalize_fixed_point(once);
}

} // verus!
