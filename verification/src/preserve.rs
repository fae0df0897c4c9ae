//! The stages keep what the code computes.
//!
//! Selection turns every instruction of the three-address code into machine
//! instructions that leave the temporaries as the instruction leaves them.
//! Resolution moves every temporary into a slot of its own. Legalization
//! changes the scratch registers only. Together: the final code returns what
//! the three-address code returns, and faults where it faults.

use vstd::prelude::*;
use crate::assembly::{InstructionAsm, OperandAsm, Register};
use crate::legalize::{
    legalize, legalize_body, legalize_instr, needs_rewrite, scratch_dst, scratch_src,
};
use crate::machine::{
    dividend, lemma_run_concat, lemma_run_four, lemma_run_one, lemma_run_three, lemma_run_two,
    run, step, store, State,
};
use crate::meaning::{all_keep_source, eval, eval_instr, keeps_source, temp_value, Halt};
use crate::ops::BinaryOp;
use crate::pipeline::{compile, lemma_selected_temps};
use crate::resolve::{
    covers, first_seen, frame_offset, instr_temps, lemma_covers_parts, lemma_distinct_ids_bounded,
    lemma_first_seen_distinct, lemma_note_seen, operand_temps, resolve, resolve_instr,
    resolve_operand, slot_offset, temps,
};
use crate::select::{operand_of, select, select_instr};
use crate::seqs::{lemma_flat_map_all, lemma_flat_map_contains, lemma_flat_map_empty};
use crate::tacky::{referenced, InstructionTacky, ValTacky};

verus! {

/// Whether the machine ends as the three-address code does: with the same
/// values in the temporaries, or for the same reason.
pub open spec fn tracks(machine: Result<State, Halt>, meaning: Result<Map<u16, i32>, Halt>) -> bool {
    match (machine, meaning) {
        (Ok(state), Ok(env)) => state.temps == env,
        (Err(left), Err(right)) => left == right,
        _ => false,
    }
}

/// The machine instructions selected for an instruction leave the temporaries
/// as the instruction leaves them, and stop where it stops.
pub proof fn lemma_selected_keeps_effect(state: State, instr: InstructionTacky)
    requires
        keeps_source(instr),
    ensures
        tracks(run(state, select_instr(instr)), eval_instr(state.temps, instr)),
{
    let run_of = select_instr(instr);
    match instr {
        InstructionTacky::Ret { v } => {
            lemma_run_two(state, run_of[0], run_of[1]);
            assert(run_of =~= seq![run_of[0], run_of[1]]);
        },
        InstructionTacky::Unary { op, src, dst } => {
            lemma_run_two(state, run_of[0], run_of[1]);
            assert(run_of =~= seq![run_of[0], run_of[1]]);
            match dst {
                ValTacky::TmpVar { no } => {
                    let value = state.read(operand_of(src));
                    let copied = State { temps: state.temps.insert(no, value), ..state };
                    assert(step(state, run_of[0]) == Ok::<State, Halt>(copied));
                    assert(copied.read(operand_of(dst)) == value);
                    assert(copied.temps.insert(no, op.apply(value)) =~= state.temps.insert(
                        no,
                        op.apply(value),
                    ));
                },
                _ => {},
            }
        },
        InstructionTacky::Binary { op, src1, src2, dst } => {
            if op.uses_divide() {
                lemma_divide_keeps_effect(state, op, src1, src2, dst);
            } else {
                lemma_run_two(state, run_of[0], run_of[1]);
                assert(run_of =~= seq![run_of[0], run_of[1]]);
                match dst {
                    ValTacky::TmpVar { no } => {
                        let left = state.read(operand_of(src1));
                        let right = state.read(operand_of(src2));
                        let copied = State { temps: state.temps.insert(no, left), ..state };
                        assert(step(state, run_of[0]) == Ok::<State, Halt>(copied));
                        assert(copied.read(operand_of(dst)) == left);
                        assert(copied.read(operand_of(src2)) == right);
                        let value = op.apply(left, right)->Some_0;
                        assert(copied.temps.insert(no, value) =~= state.temps.insert(no, value));
                    },
                    _ => {},
                }
            }
        },
    }
}

/// After the sign of `AX` was extended into `DX`, the dividend is the value
/// of `AX`.
pub proof fn lemma_sign_extended_dividend(ax: i32)
    ensures
        dividend(
            if ax < 0 {
                -1i32
            } else {
                0i32
            },
            ax,
        ) == ax,
{
}

/// The four instructions selected for a division or a remainder leave the
/// temporaries as the operator leaves them, and fault where it has no result.
proof fn lemma_divide_keeps_effect(
    state: State,
    op: BinaryOp,
    src1: ValTacky,
    src2: ValTacky,
    dst: ValTacky,
)
    requires
        op.uses_divide(),
    ensures
        tracks(
            run(state, select_instr(InstructionTacky::Binary { op, src1, src2, dst })),
            eval_instr(state.temps, InstructionTacky::Binary { op, src1, src2, dst }),
        ),
{
    let run_of = select_instr(InstructionTacky::Binary { op, src1, src2, dst });
    lemma_run_three(state, run_of[0], run_of[1], run_of[2]);
    lemma_run_four(state, run_of[0], run_of[1], run_of[2], run_of[3]);
    assert(run_of =~= seq![run_of[0], run_of[1], run_of[2], run_of[3]]);
    let left = state.read(operand_of(src1));
    let right = state.read(operand_of(src2));
    let loaded = State { ax: left, ..state };
    assert(step(state, run_of[0]) == Ok::<State, Halt>(loaded));
    let extended = State {
        dx: if left < 0 {
            -1i32
        } else {
            0i32
        },
        ..loaded
    };
    assert(step(loaded, run_of[1]) == Ok::<State, Halt>(extended));
    lemma_sign_extended_dividend(left);
    assert(extended.read(operand_of(src2)) == right);
}

/// The machine instructions selected for a body leave the temporaries as the
/// body leaves them, and stop where it stops.
pub proof fn lemma_selection_keeps_effect(state: State, instrs: Seq<InstructionTacky>)
    requires
        all_keep_source(instrs),
    ensures
        tracks(run(state, select(instrs)), eval(state.temps, instrs)),
    decreases instrs.len(),
{
    let pick = |instr: InstructionTacky| select_instr(instr);
    if instrs.len() == 0 {
        lemma_flat_map_empty(pick);
        assert(instrs =~= Seq::<InstructionTacky>::empty());
    } else {
        let init = instrs.drop_last();
        let last = instrs.last();
        assert(all_keep_source(init)) by {
            assert forall|k: int| 0 <= k < init.len() implies keeps_source(#[trigger] init[k]) by {
                assert(init[k] == instrs[k]);
            }
        }
        lemma_selection_keeps_effect(state, init);
        init.lemma_flat_map_push(pick, last);
        assert(init.push(last) =~= instrs);
        lemma_run_concat(state, select(init), select_instr(last));
        match run(state, select(init)) {
            Ok(middle) => {
                assert(keeps_source(instrs[instrs.len() - 1]));
                lemma_selected_keeps_effect(middle, last);
            },
            _ => {},
        }
    }
}

/// Whether `after` holds in its slots what `before` holds in its temporaries,
/// for the temporaries that `order` lists, and the same in its registers.
pub open spec fn housed(order: Seq<u16>, before: State, after: State) -> bool {
    &&& before.ax == after.ax
    &&& before.r10 == after.r10
    &&& before.dx == after.dx
    &&& before.r11 == after.r11
    &&& forall|id: u16|
        order.contains(id) ==> before.temp(id) == after.slot(#[trigger] slot_offset(order, id) as i32)
}

/// Whether the resolved code ends as the code with temporaries does: with
/// the temporaries housed in their slots, or for the same reason.
pub open spec fn housed_effect(
    order: Seq<u16>,
    before: Result<State, Halt>,
    after: Result<State, Halt>,
) -> bool {
    match (before, after) {
        (Ok(left), Ok(right)) => housed(order, left, right),
        (Err(left), Err(right)) => left == right,
        _ => false,
    }
}

/// Whether the operand is no stack slot.
pub open spec fn names_no_slot(operand: OperandAsm) -> bool {
    !(operand is Stack)
}

/// Whether the instruction names no stack slot.
pub open spec fn avoids_slots(instr: InstructionAsm) -> bool {
    match instr {
        InstructionAsm::Mov { src, dst } => names_no_slot(src) && names_no_slot(dst),
        InstructionAsm::Unary { unop, operand } => names_no_slot(operand),
        InstructionAsm::Binary { binop, src, dst } => names_no_slot(src) && names_no_slot(dst),
        InstructionAsm::Idiv { operand } => names_no_slot(operand),
        _ => true,
    }
}

/// Whether the instruction names no stack slot and only temporaries that
/// `order` lists.
pub open spec fn resolvable(order: Seq<u16>, instr: InstructionAsm) -> bool {
    covers(order, instr_temps(instr)) && avoids_slots(instr)
}

/// Two temporaries have two slots.
pub proof fn lemma_slots_apart(order: Seq<u16>, a: u16, b: u16)
    requires
        order.no_duplicates(),
        order.contains(a),
        order.contains(b),
        a != b,
    ensures
        slot_offset(order, a) as i32 != slot_offset(order, b) as i32,
{
    lemma_distinct_ids_bounded(order);
}

/// A resolved operand reads what the operand read.
pub proof fn lemma_resolved_read(order: Seq<u16>, before: State, after: State, operand: OperandAsm)
    requires
        housed(order, before, after),
        names_no_slot(operand),
        covers(order, operand_temps(operand)),
    ensures
        after.read(resolve_operand(order, operand)) == before.read(operand),
{
    match operand {
        OperandAsm::Pseudo { id } => {
            assert(operand_temps(operand)[0] == id);
        },
        _ => {},
    }
}

/// A write to a resolved operand leaves the temporaries housed.
pub proof fn lemma_resolved_write(
    order: Seq<u16>,
    before: State,
    after: State,
    operand: OperandAsm,
    value: i32,
)
    requires
        order.no_duplicates(),
        housed(order, before, after),
        names_no_slot(operand),
        covers(order, operand_temps(operand)),
    ensures
        housed_effect(
            order,
            store(before, operand, value),
            store(after, resolve_operand(order, operand), value),
        ),
{
    match operand {
        OperandAsm::Pseudo { id } => {
            assert(operand_temps(operand)[0] == id);
            let left = before.write(operand, value)->Some_0;
            let right = after.write(resolve_operand(order, operand), value)->Some_0;
            assert forall|other: u16| order.contains(other) implies left.temp(other) == right.slot(
                #[trigger] slot_offset(order, other) as i32,
            ) by {
                if other != id {
                    lemma_slots_apart(order, other, id);
                }
            }
        },
        _ => {},
    }
}

/// A resolved instruction has the effect of the instruction, with the
/// temporaries housed in their slots.
pub proof fn lemma_resolved_keeps_effect(
    order: Seq<u16>,
    before: State,
    after: State,
    instr: InstructionAsm,
)
    requires
        order.no_duplicates(),
        housed(order, before, after),
        resolvable(order, instr),
    ensures
        housed_effect(order, step(before, instr), step(after, resolve_instr(order, instr))),
{
    match instr {
        InstructionAsm::Mov { src, dst } => {
            lemma_covers_parts(order, operand_temps(src), operand_temps(dst));
            lemma_resolved_read(order, before, after, src);
            lemma_resolved_write(order, before, after, dst, before.read(src));
        },
        InstructionAsm::Unary { unop, operand } => {
            lemma_resolved_read(order, before, after, operand);
            lemma_resolved_write(order, before, after, operand, unop.apply(before.read(operand)));
        },
        InstructionAsm::Binary { binop, src, dst } => {
            lemma_covers_parts(order, operand_temps(src), operand_temps(dst));
            lemma_resolved_read(order, before, after, src);
            lemma_resolved_read(order, before, after, dst);
            if !binop.uses_divide() {
                let value = binop.apply(before.read(dst), before.read(src))->Some_0;
                lemma_resolved_write(order, before, after, dst, value);
            }
        },
        InstructionAsm::Idiv { operand } => {
            lemma_resolved_read(order, before, after, operand);
        },
        _ => {},
    }
}

/// The body with each temporary replaced by the slot that `order` gives it.
pub open spec fn resolve_with(order: Seq<u16>, instrs: Seq<InstructionAsm>) -> Seq<InstructionAsm> {
    instrs.map_values(|instr: InstructionAsm| resolve_instr(order, instr))
}

/// A resolved body has the effect of the body, with the temporaries housed in
/// their slots.
pub proof fn lemma_resolved_body_keeps_effect(
    order: Seq<u16>,
    before: State,
    after: State,
    instrs: Seq<InstructionAsm>,
)
    requires
        order.no_duplicates(),
        housed(order, before, after),
        forall|k: int| 0 <= k < instrs.len() ==> resolvable(order, #[trigger] instrs[k]),
    ensures
        housed_effect(order, run(before, instrs), run(after, resolve_with(order, instrs))),
    decreases instrs.len(),
{
    if instrs.len() > 0 {
        let init = instrs.drop_last();
        assert forall|k: int| 0 <= k < init.len() implies resolvable(order, #[trigger] init[k]) by {
            assert(init[k] == instrs[k]);
        }
        lemma_resolved_body_keeps_effect(order, before, after, init);
        assert(resolve_with(order, instrs).drop_last() =~= resolve_with(order, init));
        assert(resolvable(order, instrs[instrs.len() - 1]));
        match (run(before, init), run(after, resolve_with(order, init))) {
            (Ok(left), Ok(right)) => {
                lemma_resolved_keeps_effect(order, left, right, instrs.last());
            },
            _ => {},
        }
    }
}

/// Every machine instruction selected for a body can be resolved with the
/// slots that resolution of the body hands out.
pub proof fn lemma_selected_resolvable(instrs: Seq<InstructionTacky>)
    ensures
        forall|k: int|
            0 <= k < select(instrs).len() ==> resolvable(
                first_seen(temps(select(instrs))),
                #[trigger] select(instrs)[k],
            ),
{
    let selected = select(instrs);
    let order = first_seen(temps(selected));
    let ids = |instr: InstructionAsm| instr_temps(instr);
    lemma_note_seen(Seq::empty(), temps(selected));
    lemma_selected_avoids_slots(instrs);
    assert forall|k: int| 0 <= k < selected.len() implies resolvable(
        order,
        #[trigger] selected[k],
    ) by {
        assert forall|at: int| 0 <= at < instr_temps(selected[k]).len() implies order.contains(
            #[trigger] instr_temps(selected[k])[at],
        ) by {
            let id = instr_temps(selected[k])[at];
            lemma_flat_map_contains(selected, ids, id);
            assert(ids(selected[k]).contains(id));
            assert(temps(selected).contains(id));
        }
        assert(avoids_slots(selected[k]));
    }
}

/// Selection names no stack slot.
pub proof fn lemma_selected_avoids_slots(instrs: Seq<InstructionTacky>)
    ensures
        forall|k: int| 0 <= k < select(instrs).len() ==> avoids_slots(#[trigger] select(instrs)[k]),
{
    let pick = |instr: InstructionTacky| select_instr(instr);
    let free = |instr: InstructionAsm| avoids_slots(instr);
    assert forall|i: int, j: int|
        0 <= i < instrs.len() && 0 <= j < pick(instrs[i]).len() implies free(
        #[trigger] pick(instrs[i])[j],
    ) by {}
    lemma_flat_map_all(instrs, pick, free);
    assert forall|k: int| 0 <= k < select(instrs).len() implies avoids_slots(
        #[trigger] select(instrs)[k],
    ) by {
        assert(free(instrs.flat_map(pick)[k]));
    }
}

/// Whether two states differ in the scratch registers at most.
pub open spec fn agree(a: State, b: State) -> bool {
    &&& a.ax == b.ax
    &&& a.dx == b.dx
    &&& a.stack == b.stack
    &&& a.temps == b.temps
}

/// Whether two effects are the same but for the scratch registers.
pub open spec fn same_effect(a: Result<State, Halt>, b: Result<State, Halt>) -> bool {
    match (a, b) {
        (Ok(left), Ok(right)) => agree(left, right),
        (Err(left), Err(right)) => left == right,
        _ => false,
    }
}

/// Whether the operand is a scratch register.
pub open spec fn is_scratch(operand: OperandAsm) -> bool {
    operand matches OperandAsm::Reg { r } && (r is R10 || r is R11)
}

/// Whether the instruction leaves the scratch registers alone.
pub open spec fn avoids_scratch(instr: InstructionAsm) -> bool {
    match instr {
        InstructionAsm::Mov { src, dst } => !is_scratch(src) && !is_scratch(dst),
        InstructionAsm::Unary { unop, operand } => !is_scratch(operand),
        InstructionAsm::Binary { binop, src, dst } => !is_scratch(src) && !is_scratch(dst),
        InstructionAsm::Idiv { operand } => !is_scratch(operand),
        _ => true,
    }
}

/// An instruction that leaves the scratch registers alone does not depend on
/// them.
pub proof fn lemma_step_ignores_scratch(a: State, b: State, instr: InstructionAsm)
    requires
        agree(a, b),
        avoids_scratch(instr),
    ensures
        same_effect(step(a, instr), step(b, instr)),
{
}

/// What stands for an instruction after legalization has the effect of the
/// instruction, but for the scratch registers.
pub proof fn lemma_rewrite_keeps_effect(a: State, b: State, instr: InstructionAsm)
    requires
        agree(a, b),
        avoids_scratch(instr),
    ensures
        same_effect(run(a, legalize_instr(instr)), step(b, instr)),
{
    if needs_rewrite(instr) {
        match instr {
            InstructionAsm::Mov { src, dst } => {
                lemma_run_two(
                    a,
                    InstructionAsm::Mov { src, dst: scratch_src() },
                    InstructionAsm::Mov { src: scratch_src(), dst },
                );
            },
            InstructionAsm::Binary { binop, src, dst } => {
                if binop is Multiply {
                    lemma_multiply_keeps_effect(a, b, src, dst);
                } else {
                    lemma_run_two(
                        a,
                        InstructionAsm::Mov { src, dst: scratch_src() },
                        InstructionAsm::Binary { binop, src: scratch_src(), dst },
                    );
                }
            },
            InstructionAsm::Idiv { operand } => {
                lemma_run_two(
                    a,
                    InstructionAsm::Mov { src: operand, dst: scratch_src() },
                    InstructionAsm::Idiv { operand: scratch_src() },
                );
            },
            _ => {},
        }
    } else {
        lemma_run_one(a, instr);
        lemma_step_ignores_scratch(a, b, instr);
    }
}

/// A multiply through the scratch register has the effect of the multiply.
proof fn lemma_multiply_keeps_effect(a: State, b: State, src: OperandAsm, dst: OperandAsm)
    requires
        agree(a, b),
        !is_scratch(src),
        !is_scratch(dst),
    ensures
        same_effect(
            run(a, legalize_instr(InstructionAsm::Binary { binop: BinaryOp::Multiply, src, dst })),
            step(b, InstructionAsm::Binary { binop: BinaryOp::Multiply, src, dst }),
        ),
{
    let load = InstructionAsm::Mov { src: dst, dst: scratch_dst() };
    let multiply = InstructionAsm::Binary { binop: BinaryOp::Multiply, src, dst: scratch_dst() };
    let store = InstructionAsm::Mov { src: scratch_dst(), dst };
    lemma_run_three(a, load, multiply, store);
    let left = b.read(dst);
    let right = b.read(src);
    assert(a.read(src) == right);
    assert(a.read(dst) == left);
    let loaded = a.with_register(Register::R11, left);
    assert(step(a, load) == Ok::<State, Halt>(loaded));
    assert(loaded.read(src) == right);
    let multiplied = loaded.with_register(Register::R11, left.wrapping_mul(right));
    assert(step(loaded, multiply) == Ok::<State, Halt>(multiplied));
}

/// Whether every instruction of the body leaves the scratch registers alone.
pub open spec fn all_avoid_scratch(instrs: Seq<InstructionAsm>) -> bool {
    forall|k: int| 0 <= k < instrs.len() ==> avoids_scratch(#[trigger] instrs[k])
}

/// A legalized body has the effect of the body it was made from, but for the
/// scratch registers.
pub proof fn lemma_legalized_body_keeps_effect(a: State, b: State, instrs: Seq<InstructionAsm>)
    requires
        agree(a, b),
        all_avoid_scratch(instrs),
    ensures
        same_effect(run(a, legalize_body(instrs)), run(b, instrs)),
    decreases instrs.len(),
{
    let fix = |instr: InstructionAsm| legalize_instr(instr);
    if instrs.len() == 0 {
        lemma_flat_map_empty(fix);
        assert(instrs =~= Seq::<InstructionAsm>::empty());
    } else {
        let init = instrs.drop_last();
        let last = instrs.last();
        assert(all_avoid_scratch(init)) by {
            assert forall|k: int| 0 <= k < init.len() implies avoids_scratch(#[trigger] init[k]) by {
                assert(init[k] == instrs[k]);
            }
        }
        lemma_legalized_body_keeps_effect(a, b, init);
        init.lemma_flat_map_push(fix, last);
        assert(init.push(last) =~= instrs);
        lemma_run_concat(a, legalize_body(init), legalize_instr(last));
        match (run(a, legalize_body(init)), run(b, init)) {
            (Ok(left), Ok(right)) => {
                assert(avoids_scratch(instrs[instrs.len() - 1]));
                lemma_rewrite_keeps_effect(left, right, last);
            },
            _ => {},
        }
    }
}

/// No rewrite changes what the code computes: the legalized code, frame
/// allocation included, has the effect of the code it was made from, but for
/// the scratch registers. The code must not itself use them.
pub proof fn lemma_legalize_keeps_effect(
    a: State,
    b: State,
    instrs: Seq<InstructionAsm>,
    min_used: i32,
)
    requires
        agree(a, b),
        all_avoid_scratch(instrs),
    ensures
        same_effect(run(a, legalize(instrs, min_used)), run(b, instrs)),
{
    lemma_legalized_body_keeps_effect(a, b, instrs);
    if min_used != 0 {
        let alloc = InstructionAsm::AllocStack { off: min_used };
        lemma_run_one(a, alloc);
        lemma_run_concat(a, seq![alloc], legalize_body(instrs));
    }
}

/// The code that selection and resolution give leaves the scratch registers
/// alone.
pub proof fn lemma_resolved_avoids_scratch(instrs: Seq<InstructionTacky>)
    ensures
        all_avoid_scratch(resolve(select(instrs))),
{
    let selected = select(instrs);
    let pick = |instr: InstructionTacky| select_instr(instr);
    let clean = |instr: InstructionAsm| avoids_scratch(instr);
    assert forall|i: int, j: int|
        0 <= i < instrs.len() && 0 <= j < pick(instrs[i]).len() implies clean(
        #[trigger] pick(instrs[i])[j],
    ) by {}
    lemma_flat_map_all(instrs, pick, clean);
    assert forall|k: int| 0 <= k < resolve(selected).len() implies avoids_scratch(
        #[trigger] resolve(selected)[k],
    ) by {
        assert(clean(instrs.flat_map(pick)[k]));
    }
}

/// Legalization does not change what a function computes: from any state, the
/// final code ends as the resolved code does, in a state that differs in the
/// scratch registers at most, or with the same return value, or with a fault
/// where the resolved code faults.
pub proof fn lemma_compile_keeps_effect(instrs: Seq<InstructionTacky>, state: State)
    ensures
        same_effect(run(state, compile(instrs)), run(state, resolve(select(instrs)))),
{
    let selected = select(instrs);
    lemma_resolved_avoids_scratch(instrs);
    lemma_legalize_keeps_effect(state, state, resolve(selected), frame_offset(selected) as i32);
}

/// The slot that compiling a body gives to a temporary that the body names.
pub open spec fn slot_of(instrs: Seq<InstructionTacky>, id: u16) -> i32 {
    slot_offset(first_seen(temps(select(instrs))), id) as i32
}

/// Whether the slots of `state` hold the values that `env` gives to the
/// temporaries that the body names.
pub open spec fn slots_hold(instrs: Seq<InstructionTacky>, env: Map<u16, i32>, state: State) -> bool {
    forall|id: u16|
        referenced(instrs).contains(id) ==> temp_value(env, id) == state.slot(
            #[trigger] slot_of(instrs, id),
        )
}

/// Whether the compiled code ends as the three-address code does: with the
/// values of the temporaries in their slots, or for the same reason.
pub open spec fn same_meaning(
    instrs: Seq<InstructionTacky>,
    meaning: Result<Map<u16, i32>, Halt>,
    machine: Result<State, Halt>,
) -> bool {
    match (meaning, machine) {
        (Ok(env), Ok(state)) => slots_hold(instrs, env, state),
        (Err(left), Err(right)) => left == right,
        _ => false,
    }
}

/// The compiled code computes what the three-address code computes.
///
/// Started in a state whose slots hold the values of the temporaries, the
/// compiled code returns the value that the three-address code returns,
/// faults where it faults, and where it runs to its end leaves the value of
/// every temporary in the slot of that temporary.
///
/// The body must keep the second source of every binary operator apart from
/// the destination: the destination is overwritten with the first source
/// before the second is read.
pub proof fn lemma_compile_keeps_meaning(
    instrs: Seq<InstructionTacky>,
    env: Map<u16, i32>,
    state: State,
)
    requires
        all_keep_source(instrs),
        slots_hold(instrs, env, state),
    ensures
        same_meaning(instrs, eval(env, instrs), run(state, compile(instrs))),
{
    let selected = select(instrs);
    let order = first_seen(temps(selected));
    let start = State { temps: env, ..state };
    lemma_selection_keeps_effect(start, instrs);
    lemma_first_seen_distinct(temps(selected));
    lemma_selected_temps(instrs);
    assert forall|id: u16| order.contains(id) <==> referenced(instrs).contains(id) by {
        assert(order.to_set().contains(id) <==> temps(selected).to_set().contains(id));
    }
    assert(housed(order, start, state)) by {
        assert forall|id: u16| order.contains(id) implies start.temp(id) == state.slot(
            #[trigger] slot_offset(order, id) as i32,
        ) by {
            assert(state.slot(slot_of(instrs, id)) == temp_value(env, id));
        }
    }
    lemma_selected_resolvable(instrs);
    lemma_resolved_body_keeps_effect(order, start, state, selected);
    assert(resolve_with(order, selected) =~= resolve(selected));
    lemma_compile_keeps_effect(instrs, state);
    match (run(start, selected), run(state, compile(instrs))) {
        (Ok(middle), Ok(last)) => {
            let housed_in = run(state, resolve(selected))->Ok_0;
            assert forall|id: u16| referenced(instrs).contains(id) implies temp_value(
                eval(env, instrs)->Ok_0,
                id,
            ) == last.slot(#[trigger] slot_of(instrs, id)) by {
                assert(middle.temp(id) == housed_in.slot(slot_offset(order, id) as i32));
            }
        },
        _ => {},
    }
}

/// On a machine on which nothing was written yet, the compiled code returns
/// the value that the three-address code returns when every temporary starts
/// at zero, and faults where it faults.
pub proof fn lemma_compile_keeps_result(instrs: Seq<InstructionTacky>, state: State)
    requires
        all_keep_source(instrs),
        state.stack == Map::<i32, i32>::empty(),
    ensures
        eval(Map::empty(), instrs) is Err ==> run(state, compile(instrs)) == Err::<State, Halt>(
            eval(Map::empty(), instrs)->Err_0,
        ),
        eval(Map::empty(), instrs) is Ok ==> run(state, compile(instrs)) is Ok,
{
    lemma_compile_keeps_meaning(instrs, Map::empty(), state);
}

} // verus!
