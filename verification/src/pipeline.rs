//! The pipeline: selection, resolution and legalization, one after the other.

use vstd::prelude::*;
use crate::assembly::{FunDefAsm, InstructionAsm, ProgramAsm};
use crate::emit::{instr_error, program_text, renderable};
use crate::legalize::{
    fix_up_instrs, legalize, legalize_body, legalize_instr, lemma_legalized_obeys_placement,
    obeys_placement,
};
use crate::resolve::{
    covers, first_seen, frame_offset, instr_temps, lemma_covers_grows, lemma_distinct_ids_bounded,
    lemma_first_seen_distinct, lemma_note_seen, lemma_note_seen_concat,
    lemma_resolve_instr_stable, resolve, resolve_instr, temps, TmpVarResolver, MAX_TEMPORARIES,
    SLOT_BYTES,
};
use crate::select::{select, select_instr, translate_with_pseudo};
use crate::seqs::{lemma_flat_map_all, lemma_flat_map_contains, lemma_flat_map_empty};
use crate::tacky::{referenced, FunDefTacky, InstructionTacky, ProgramTacky};

verus! {

/// The final instructions for a body of three-address code: its machine
/// instructions are selected, their temporaries are given slots, and the
/// result is legalized behind the allocation of the frame that the slots
/// take up.
pub open spec fn compile(instrs: Seq<InstructionTacky>) -> Seq<InstructionAsm> {
    let selected = select(instrs);
    legalize(resolve(selected), frame_offset(selected) as i32)
}

/// Whether the instructions are fit for the assembler: none names a
/// temporary, each can be encoded by the target, and each has a text.
pub open spec fn is_final(instrs: Seq<InstructionAsm>) -> bool {
    &&& forall|k: int| 0 <= k < instrs.len() ==> is_resolved(#[trigger] instrs[k])
    &&& forall|k: int| 0 <= k < instrs.len() ==> obeys_placement(#[trigger] instrs[k])
    &&& renderable(instrs)
}

/// Generates the assembly program for a program of three-address code. The
/// program is fit for the assembler, whatever the three-address code.
pub fn gen_asm(tacky_prog: ProgramTacky) -> (asm_prog: ProgramAsm)
    ensures
        generated_from(asm_prog, tacky_prog),
        is_final(asm_prog.function.instructions@),
{
    ProgramAsm { function: Box::new(translate_fundef(*tacky_prog.function)) }
}

/// Generates the assembly function for a function of three-address code. The
/// name is kept, and the instructions are fit for the assembler.
pub fn translate_fundef(tacky_fundef: FunDefTacky) -> (asm_fundef: FunDefAsm)
    ensures
        asm_fundef.identifier@ == tacky_fundef.identifier@,
        asm_fundef.instructions@ == compile(tacky_fundef.instructions@),
        is_final(asm_fundef.instructions@),
{
    proof {
        lemma_compile_resolved(tacky_fundef.instructions@);
        lemma_compile_obeys_placement(tacky_fundef.instructions@);
        lemma_compile_renderable(tacky_fundef.instructions@);
    }
    let FunDefTacky { identifier, instructions } = tacky_fundef;
    let pseudo_instrs: Vec<InstructionAsm> = translate_with_pseudo(instructions);
    let mut tmp_resolver: TmpVarResolver = TmpVarResolver::new();
    let mut resolved_instrs: Vec<InstructionAsm> = Vec::new();
    let n: usize = pseudo_instrs.len();
    let mut i: usize = 0;
    proof {
        lemma_flat_map_empty(|instr: InstructionAsm| instr_temps(instr));
        assert(pseudo_instrs@.take(0) =~= Seq::<InstructionAsm>::empty());
    }
    while i < n
        invariant
            n == pseudo_instrs.len(),
            i <= n,
            tmp_resolver.wf(),
            tmp_resolver.order() == first_seen(temps(pseudo_instrs@.take(i as int))),
            resolved_instrs@.len() == i,
            forall|j: int|
                0 <= j < i ==> covers(tmp_resolver.order(), instr_temps(#[trigger] pseudo_instrs@[j])),
            forall|j: int|
                0 <= j < i ==> #[trigger] resolved_instrs@[j] == resolve_instr(
                    tmp_resolver.order(),
                    pseudo_instrs@[j],
                ),
        decreases n - i,
    {
        let ghost known = tmp_resolver.order();
        let instr: InstructionAsm = pseudo_instrs[i];
        let resolved: InstructionAsm = tmp_resolver.resolve_temps(instr);
        proof {
            let order = tmp_resolver.order();
            let met = temps(pseudo_instrs@.take(i as int));
            tmp_resolver.lemma_slots();
            pseudo_instrs@.lemma_flat_map_take_append(
                |instr: InstructionAsm| instr_temps(instr),
                i as int,
            );
            lemma_note_seen_concat(Seq::empty(), met, instr_temps(instr));
            lemma_note_seen(Seq::empty(), met);
            lemma_note_seen(known, instr_temps(instr));
            assert forall|j: int| 0 <= j < i implies covers(
                order,
                instr_temps(#[trigger] pseudo_instrs@[j]),
            ) by {
                lemma_covers_grows(known, order, instr_temps(pseudo_instrs@[j]));
            }
            assert forall|j: int| 0 <= j < i implies #[trigger] resolved_instrs@[j]
                == resolve_instr(order, pseudo_instrs@[j]) by {
                lemma_resolve_instr_stable(known, order, pseudo_instrs@[j]);
            }
        }
        resolved_instrs.push(resolved);
        i = i + 1;
    }
    proof {
        assert(pseudo_instrs@.take(n as int) =~= pseudo_instrs@);
        assert(resolved_instrs@ =~= resolve(pseudo_instrs@));
        tmp_resolver.lemma_slots();
    }
    let fixed_instrs: Vec<InstructionAsm> = fix_up_instrs(
        resolved_instrs,
        tmp_resolver.get_min_used(),
    );
    FunDefAsm { identifier, instructions: fixed_instrs }
}

/// Whether the instruction names no temporary.
pub open spec fn is_resolved(instr: InstructionAsm) -> bool {
    instr_temps(instr).len() == 0
}

/// The bytes of the frame that a body needs: four for each temporary that it
/// reads or writes.
pub open spec fn frame_bytes(instrs: Seq<InstructionTacky>) -> int {
    SLOT_BYTES * referenced(instrs).len()
}

/// What selection never gives out: a frame allocation, or a binary
/// instruction for division or remainder.
spec fn is_plain(instr: InstructionAsm) -> bool {
    &&& !(instr is AllocStack)
    &&& instr matches InstructionAsm::Binary { binop, .. } ==> !binop.uses_divide()
}

/// Selection refers to the temporaries that the body refers to, and to no
/// others.
pub proof fn lemma_selected_temps(instrs: Seq<InstructionTacky>)
    ensures
        temps(select(instrs)).to_set() == referenced(instrs),
{
    let pick = |instr: InstructionTacky| select_instr(instr);
    let ids = |instr: InstructionAsm| instr_temps(instr);
    let selected = select(instrs);
    assert forall|id: u16| temps(selected).contains(id) <==> referenced(instrs).contains(id) by {
        lemma_flat_map_contains(selected, ids, id);
        if temps(selected).contains(id) {
            let j = choose|j: int| 0 <= j < selected.len() && (#[trigger] ids(selected[j])).contains(id);
            lemma_flat_map_contains(instrs, pick, selected[j]);
            let k = choose|k: int|
                0 <= k < instrs.len() && (#[trigger] pick(instrs[k])).contains(selected[j]);
            let at = pick(instrs[k]).index_of(selected[j]);
            let hit = instr_temps(selected[j]).index_of(id);
            assert(instr_temps(pick(instrs[k])[at])[hit] == id);
            assert(instrs[k].names(id));
        }
        if referenced(instrs).contains(id) {
            let k = choose|k: int| 0 <= k < instrs.len() && (#[trigger] instrs[k]).names(id);
            let run = select_instr(instrs[k]);
            let at = choose|at: int| 0 <= at < run.len() && instr_temps(run[at]).contains(id);
            assert(exists|at: int| 0 <= at < run.len() && instr_temps(run[at]).contains(id)) by {
                lemma_selected_names(instrs[k], id);
            }
            assert(pick(instrs[k]).contains(run[at]));
            lemma_flat_map_contains(instrs, pick, run[at]);
            let j = selected.index_of(run[at]);
            assert(ids(selected[j]).contains(id));
        }
    }
    assert(temps(selected).to_set() =~= referenced(instrs));
}

/// A temporary that an instruction of the three-address code names is
/// named by one of the machine instructions selected for it.
proof fn lemma_selected_names(instr: InstructionTacky, id: u16)
    requires
        instr.names(id),
    ensures
        exists|at: int|
            0 <= at < select_instr(instr).len() && instr_temps(select_instr(instr)[at]).contains(
                id,
            ),
{
    let run = select_instr(instr);
    let one = seq![id];
    assert(one[0] == id);
    match instr {
        InstructionTacky::Ret { v } => {
            assert(instr_temps(run[0]) =~= one);
        },
        InstructionTacky::Unary { op, src, dst } => {
            if dst.names(id) {
                assert(instr_temps(run[1]) =~= one);
            } else {
                assert(instr_temps(run[0])[0] == id);
            }
        },
        InstructionTacky::Binary { op, src1, src2, dst } => {
            if op.uses_divide() {
                if src1.names(id) {
                    assert(instr_temps(run[0]) =~= one);
                } else if src2.names(id) {
                    assert(instr_temps(run[2]) =~= one);
                } else {
                    assert(instr_temps(run[3]) =~= one);
                }
            } else {
                if dst.names(id) {
                    assert(instr_temps(run[1])[instr_temps(run[1]).len() - 1] == id);
                } else if src1.names(id) {
                    assert(instr_temps(run[0])[0] == id);
                } else {
                    assert(instr_temps(run[1])[0] == id);
                }
            }
        },
    }
}

/// The body of a compiled function, behind the frame allocation, names no
/// temporary, and holds neither a frame allocation nor a binary instruction
/// for division or remainder.
proof fn lemma_body_shape(instrs: Seq<InstructionTacky>)
    ensures
        forall|k: int|
            0 <= k < legalize_body(resolve(select(instrs))).len() ==> {
                let instr = #[trigger] legalize_body(resolve(select(instrs)))[k];
                is_resolved(instr) && is_plain(instr)
            },
{
    let selected = select(instrs);
    let resolved = resolve(selected);
    let pick = |instr: InstructionTacky| select_instr(instr);
    let plain = |instr: InstructionAsm| is_plain(instr);
    assert forall|i: int, j: int|
        0 <= i < instrs.len() && 0 <= j < pick(instrs[i]).len() implies plain(
        #[trigger] pick(instrs[i])[j],
    ) by {}
    lemma_flat_map_all(instrs, pick, plain);
    let fix = |instr: InstructionAsm| legalize_instr(instr);
    let done = |instr: InstructionAsm| is_resolved(instr) && is_plain(instr);
    assert forall|i: int, j: int|
        0 <= i < resolved.len() && 0 <= j < fix(resolved[i]).len() implies done(
        #[trigger] fix(resolved[i])[j],
    ) by {
        assert(plain(instrs.flat_map(pick)[i]));
        assert(is_plain(selected[i]));
    }
    lemma_flat_map_all(resolved, fix, done);
    assert forall|k: int| 0 <= k < legalize_body(resolved).len() implies {
        let instr = #[trigger] legalize_body(resolved)[k];
        is_resolved(instr) && is_plain(instr)
    } by {
        assert(done(resolved.flat_map(fix)[k]));
    }
}

/// No temporary is left in what the pipeline gives out.
pub proof fn lemma_compile_resolved(instrs: Seq<InstructionTacky>)
    ensures
        forall|k: int| 0 <= k < compile(instrs).len() ==> is_resolved(#[trigger] compile(instrs)[k]),
{
    lemma_body_shape(instrs);
    let body = legalize_body(resolve(select(instrs)));
    assert forall|k: int| 0 <= k < compile(instrs).len() implies is_resolved(
        #[trigger] compile(instrs)[k],
    ) by {
        if compile(instrs).len() == body.len() {
            assert(compile(instrs)[k] == body[k]);
        } else if k > 0 {
            assert(compile(instrs)[k] == body[k - 1]);
        }
    }
}

/// Every instruction that the pipeline gives out has a text, so rendering its
/// output does not fail.
pub proof fn lemma_compile_renderable(instrs: Seq<InstructionTacky>)
    ensures
        renderable(compile(instrs)),
{
    lemma_body_shape(instrs);
    let body = legalize_body(resolve(select(instrs)));
    assert forall|k: int| 0 <= k < compile(instrs).len() implies instr_error(
        #[trigger] compile(instrs)[k],
    ) is None by {
        if compile(instrs).len() == body.len() {
            assert(compile(instrs)[k] == body[k]);
            assert(is_resolved(body[k]) && is_plain(body[k]));
            lemma_resolved_renders(body[k]);
        } else if k > 0 {
            assert(compile(instrs)[k] == body[k - 1]);
            assert(is_resolved(body[k - 1]) && is_plain(body[k - 1]));
            lemma_resolved_renders(body[k - 1]);
        }
    }
}

/// An instruction that names no temporary and is no binary instruction for
/// division or remainder has a text.
proof fn lemma_resolved_renders(instr: InstructionAsm)
    requires
        is_resolved(instr),
        is_plain(instr),
    ensures
        instr_error(instr) is None,
{
}

/// Every instruction that the pipeline gives out is one that the target can
/// encode.
pub proof fn lemma_compile_obeys_placement(instrs: Seq<InstructionTacky>)
    ensures
        forall|k: int|
            0 <= k < compile(instrs).len() ==> obeys_placement(#[trigger] compile(instrs)[k]),
{
    let selected = select(instrs);
    lemma_legalized_obeys_placement(resolve(selected), frame_offset(selected) as i32);
}

/// The frame takes four bytes for each temporary that the body reads or
/// writes. A body that names a temporary begins with the allocation of that
/// frame, and allocates nowhere else; a body that names none does not
/// allocate at all.
pub proof fn lemma_frame_sizing(instrs: Seq<InstructionTacky>)
    ensures
        referenced(instrs).finite(),
        0 <= frame_bytes(instrs) <= SLOT_BYTES * MAX_TEMPORARIES,
        frame_offset(select(instrs)) == -frame_bytes(instrs),
        frame_bytes(instrs) > 0 ==> compile(instrs).len() > 0 && compile(instrs)[0] == (
        InstructionAsm::AllocStack { off: (-frame_bytes(instrs)) as i32 }),
        forall|k: int|
            0 <= k < compile(instrs).len() && (#[trigger] compile(instrs)[k]) is AllocStack ==> k
                == 0 && frame_bytes(instrs) > 0,
{
    let selected = select(instrs);
    lemma_selected_temps(instrs);
    lemma_first_seen_distinct(temps(selected));
    lemma_distinct_ids_bounded(first_seen(temps(selected)));
    vstd::seq_lib::seq_to_set_is_finite(temps(selected));
    lemma_body_shape(instrs);
    let body = legalize_body(resolve(selected));
    assert forall|k: int|
        0 <= k < compile(instrs).len() && (#[trigger] compile(instrs)[k]) is AllocStack implies k
        == 0 && frame_bytes(instrs) > 0 by {
        if compile(instrs).len() == body.len() {
            assert(compile(instrs)[k] == body[k]);
            assert(is_plain(body[k]));
        } else if k > 0 {
            assert(compile(instrs)[k] == body[k - 1]);
            assert(is_plain(body[k - 1]));
        }
    }
}

/// Whether `asm_prog` is what `gen_asm` gives for `tacky_prog`.
pub open spec fn generated_from(asm_prog: ProgramAsm, tacky_prog: ProgramTacky) -> bool {
    &&& asm_prog.function.identifier@ == tacky_prog.function.identifier@
    &&& asm_prog.function.instructions@ == compile(tacky_prog.function.instructions@)
}

/// The same three-address code gives the same assembly: two programs
/// generated from it have the same name, the same instructions and the same
/// text.
pub proof fn lemma_generation_deterministic(
    tacky_prog: ProgramTacky,
    first: ProgramAsm,
    second: ProgramAsm,
)
    requires
        generated_from(first, tacky_prog),
        generated_from(second, tacky_prog),
    ensures
        first.function.identifier@ == second.function.identifier@,
        first.function.instructions@ == second.function.instructions@,
        program_text(first.function.identifier@, first.function.instructions@) == program_text(
            second.function.identifier@,
            second.function.instructions@,
        ),
{
}

} // verus!
