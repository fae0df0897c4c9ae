//! Resolution of temporaries: every pseudo operand is given a slot of the
//! frame.
//!
//! Slots are handed out in the order in which the temporaries are first met,
//! going through the instructions in order and through the operands of each
//! from left to right. The first temporary gets the slot at offset -4, the
//! next the one at -8, and so on. A slot is never given to a second
//! temporary.

use std::collections::HashMap;
use vstd::prelude::*;
use vstd::set_lib::{lemma_int_range, lemma_len_subset, set_int_range};
use crate::assembly::{InstructionAsm, OperandAsm};

verus! {

/// Size of a slot in bytes.
pub const SLOT_BYTES: i32 = 4;

/// A `u16` can name this many temporaries.
pub const MAX_TEMPORARIES: i32 = 65536;

/// The temporary that an operand names, if it names one.
pub open spec fn operand_temps(operand: OperandAsm) -> Seq<u16> {
    match operand {
        OperandAsm::Pseudo { id } => seq![id],
        _ => Seq::empty(),
    }
}

/// The temporaries that an instruction names, operand by operand from left
/// to right.
pub open spec fn instr_temps(instr: InstructionAsm) -> Seq<u16> {
    match instr {
        InstructionAsm::Mov { src, dst } => operand_temps(src) + operand_temps(dst),
        InstructionAsm::Unary { unop, operand } => operand_temps(operand),
        InstructionAsm::Binary { binop, src, dst } => operand_temps(src) + operand_temps(dst),
        InstructionAsm::Idiv { operand } => operand_temps(operand),
        _ => Seq::empty(),
    }
}

/// The temporaries that a body names, in the order in which resolution meets
/// them, with repetitions.
pub open spec fn temps(instrs: Seq<InstructionAsm>) -> Seq<u16> {
    instrs.flat_map(|instr: InstructionAsm| instr_temps(instr))
}

/// The temporaries known after `ids` have been met, in the order in which
/// they were first met. `order` holds those known before.
pub open spec fn note_seen(order: Seq<u16>, ids: Seq<u16>) -> Seq<u16>
    decreases ids.len(),
{
    if ids.len() == 0 {
        order
    } else {
        let before = note_seen(order, ids.drop_last());
        if before.contains(ids.last()) {
            before
        } else {
            before.push(ids.last())
        }
    }
}

/// The distinct temporaries among `ids`, each at the place of its first
/// occurrence.
pub open spec fn first_seen(ids: Seq<u16>) -> Seq<u16> {
    note_seen(Seq::empty(), ids)
}

/// The offset of the slot of `id`, where `order` lists the temporaries in the
/// order in which they were first met: -4 for the first, -8 for the second.
pub open spec fn slot_offset(order: Seq<u16>, id: u16) -> int {
    -SLOT_BYTES * (order.index_of(id) + 1)
}

/// The lowest offset in use when `count` temporaries have a slot; zero when
/// none has.
pub open spec fn lowest_offset(count: nat) -> int {
    -SLOT_BYTES * count
}

/// The operand with its temporary replaced by the slot of that temporary.
pub open spec fn resolve_operand(order: Seq<u16>, operand: OperandAsm) -> OperandAsm {
    match operand {
        OperandAsm::Pseudo { id } => OperandAsm::Stack { off: slot_offset(order, id) as i32 },
        _ => operand,
    }
}

/// The instruction with each temporary replaced by its slot.
pub open spec fn resolve_instr(order: Seq<u16>, instr: InstructionAsm) -> InstructionAsm {
    match instr {
        InstructionAsm::Mov { src, dst } => InstructionAsm::Mov {
            src: resolve_operand(order, src),
            dst: resolve_operand(order, dst),
        },
        InstructionAsm::Unary { unop, operand } => InstructionAsm::Unary {
            unop,
            operand: resolve_operand(order, operand),
        },
        InstructionAsm::Binary { binop, src, dst } => InstructionAsm::Binary {
            binop,
            src: resolve_operand(order, src),
            dst: resolve_operand(order, dst),
        },
        InstructionAsm::Idiv { operand } => InstructionAsm::Idiv {
            operand: resolve_operand(order, operand),
        },
        _ => instr,
    }
}

/// The body with each temporary replaced by its slot.
pub open spec fn resolve(instrs: Seq<InstructionAsm>) -> Seq<InstructionAsm> {
    instrs.map_values(|instr: InstructionAsm| resolve_instr(first_seen(temps(instrs)), instr))
}

/// The lowest offset that resolution of the body uses; zero when the body
/// names no temporary.
pub open spec fn frame_offset(instrs: Seq<InstructionAsm>) -> int {
    lowest_offset(first_seen(temps(instrs)).len())
}

/// Whether every one of `ids` is listed in `order`.
pub open spec fn covers(order: Seq<u16>, ids: Seq<u16>) -> bool {
    forall|k: int| 0 <= k < ids.len() ==> order.contains(#[trigger] ids[k])
}

/// Whether `order` begins with `start`.
pub open spec fn begins_with(order: Seq<u16>, start: Seq<u16>) -> bool {
    &&& start.len() <= order.len()
    &&& forall|k: int| 0 <= k < start.len() ==> #[trigger] order[k] == start[k]
}

/// In a list without repetitions, an element has one place only.
pub proof fn lemma_index_of_unique(order: Seq<u16>, k: int)
    requires
        order.no_duplicates(),
        0 <= k < order.len(),
    ensures
        order.index_of(order[k]) == k,
{
    let found = order.index_of(order[k]);
    assert(0 <= found < order.len() && order[found] == order[k]);
}

/// Meeting more temporaries keeps those already known at their places, adds
/// the new ones behind them, and repeats none.
pub proof fn lemma_note_seen(order: Seq<u16>, ids: Seq<u16>)
    requires
        order.no_duplicates(),
    ensures
        note_seen(order, ids).no_duplicates(),
        begins_with(note_seen(order, ids), order),
        covers(note_seen(order, ids), ids),
        forall|id: u16|
            note_seen(order, ids).contains(id) <==> order.contains(id) || ids.contains(id),
    decreases ids.len(),
{
    let after = note_seen(order, ids);
    if ids.len() > 0 {
        let init = ids.drop_last();
        let last = ids.last();
        let before = note_seen(order, init);
        lemma_note_seen(order, init);
        assert forall|k: int| 0 <= k < ids.len() implies after.contains(#[trigger] ids[k]) by {
            if k < init.len() {
                assert(ids[k] == init[k]);
                let at = before.index_of(init[k]);
                assert(after[at] == init[k]);
            } else if before.contains(last) {
            } else {
                assert(after[before.len() as int] == last);
            }
        }
        assert forall|id: u16| after.contains(id) <==> order.contains(id) || ids.contains(
            id,
        ) by {
            if after.contains(id) {
                let at = after.index_of(id);
                if at < before.len() {
                    assert(before[at] == id);
                    if init.contains(id) {
                        let j = init.index_of(id);
                        assert(ids[j] == id);
                    }
                } else {
                    assert(ids[ids.len() - 1] == id);
                }
            }
            if order.contains(id) {
                let at = order.index_of(id);
                assert(after[at] == id);
            }
            if ids.contains(id) {
                let j = ids.index_of(id);
                assert(after.contains(ids[j]));
            }
        }
    }
}

/// Temporaries met one run after another are noted as if met in one run.
pub proof fn lemma_note_seen_concat(order: Seq<u16>, a: Seq<u16>, b: Seq<u16>)
    ensures
        note_seen(order, a + b) == note_seen(note_seen(order, a), b),
    decreases b.len(),
{
    if b.len() == 0 {
        assert(a + b =~= a);
    } else {
        lemma_note_seen_concat(order, a, b.drop_last());
        assert((a + b).drop_last() =~= a + b.drop_last());
    }
}

/// A single temporary is added at the end unless it is known already.
pub proof fn lemma_note_seen_one(order: Seq<u16>, id: u16)
    ensures
        note_seen(order, seq![id]) == if order.contains(id) {
            order
        } else {
            order.push(id)
        },
{
    assert(seq![id].drop_last() =~= Seq::<u16>::empty());
    assert(note_seen(order, Seq::<u16>::empty()) == order);
}

/// A temporary keeps its slot when the list of known temporaries grows.
pub proof fn lemma_slot_stable(start: Seq<u16>, order: Seq<u16>, id: u16)
    requires
        order.no_duplicates(),
        begins_with(order, start),
        start.contains(id),
    ensures
        slot_offset(order, id) == slot_offset(start, id),
{
    let at = start.index_of(id);
    assert(order[at] == id);
    lemma_index_of_unique(order, at);
}

/// An operand resolves to the same operand when the list of known
/// temporaries grows, provided its own temporary was known before.
pub proof fn lemma_resolve_operand_stable(start: Seq<u16>, order: Seq<u16>, operand: OperandAsm)
    requires
        order.no_duplicates(),
        begins_with(order, start),
        covers(start, operand_temps(operand)),
    ensures
        resolve_operand(order, operand) == resolve_operand(start, operand),
{
    match operand {
        OperandAsm::Pseudo { id } => {
            assert(operand_temps(operand)[0] == id);
            lemma_slot_stable(start, order, id);
        },
        _ => {},
    }
}

/// An instruction resolves to the same instruction when the list of known
/// temporaries grows, provided its own temporaries were known before.
pub proof fn lemma_resolve_instr_stable(start: Seq<u16>, order: Seq<u16>, instr: InstructionAsm)
    requires
        order.no_duplicates(),
        begins_with(order, start),
        covers(start, instr_temps(instr)),
    ensures
        resolve_instr(order, instr) == resolve_instr(start, instr),
{
    match instr {
        InstructionAsm::Mov { src, dst } => {
            lemma_covers_parts(start, operand_temps(src), operand_temps(dst));
            lemma_resolve_operand_stable(start, order, src);
            lemma_resolve_operand_stable(start, order, dst);
        },
        InstructionAsm::Unary { unop, operand } => {
            lemma_resolve_operand_stable(start, order, operand);
        },
        InstructionAsm::Binary { binop, src, dst } => {
            lemma_covers_parts(start, operand_temps(src), operand_temps(dst));
            lemma_resolve_operand_stable(start, order, src);
            lemma_resolve_operand_stable(start, order, dst);
        },
        InstructionAsm::Idiv { operand } => {
            lemma_resolve_operand_stable(start, order, operand);
        },
        _ => {},
    }
}

/// A list covers a concatenation exactly when it covers both parts.
pub proof fn lemma_covers_parts(order: Seq<u16>, a: Seq<u16>, b: Seq<u16>)
    ensures
        covers(order, a + b) <==> covers(order, a) && covers(order, b),
{
    if covers(order, a + b) {
        assert forall|k: int| 0 <= k < a.len() implies order.contains(#[trigger] a[k]) by {
            assert((a + b)[k] == a[k]);
        }
        assert forall|k: int| 0 <= k < b.len() implies order.contains(#[trigger] b[k]) by {
            assert((a + b)[a.len() + k] == b[k]);
        }
    }
    if covers(order, a) && covers(order, b) {
        assert forall|k: int| 0 <= k < (a + b).len() implies order.contains(
            #[trigger] (a + b)[k],
        ) by {
            if k < a.len() {
                assert((a + b)[k] == a[k]);
            } else {
                assert((a + b)[k] == b[k - a.len()]);
            }
        }
    }
}

/// A longer list covers what a list that it begins with covers.
pub proof fn lemma_covers_grows(start: Seq<u16>, order: Seq<u16>, ids: Seq<u16>)
    requires
        begins_with(order, start),
        covers(start, ids),
    ensures
        covers(order, ids),
{
    assert forall|k: int| 0 <= k < ids.len() implies order.contains(#[trigger] ids[k]) by {
        let at = start.index_of(ids[k]);
        assert(order[at] == ids[k]);
    }
}

/// The list of first occurrences repeats nothing and holds exactly the
/// temporaries that occur, so it is as long as there are distinct ones.
pub proof fn lemma_first_seen_distinct(ids: Seq<u16>)
    ensures
        first_seen(ids).no_duplicates(),
        first_seen(ids).to_set() == ids.to_set(),
        first_seen(ids).len() == ids.to_set().len(),
{
    lemma_note_seen(Seq::empty(), ids);
    assert(first_seen(ids).to_set() =~= ids.to_set());
    first_seen(ids).unique_seq_to_set();
}

/// No more than 65536 temporaries can be told apart.
pub proof fn lemma_distinct_ids_bounded(order: Seq<u16>)
    requires
        order.no_duplicates(),
    ensures
        order.len() <= MAX_TEMPORARIES,
{
    let widen = |id: u16| id as int;
    let wide = order.map_values(widen);
    assert(vstd::relations::injective(widen));
    order.lemma_no_duplicates_injective(widen);
    wide.unique_seq_to_set();
    lemma_int_range(0, 65536);
    assert(wide.to_set().subset_of(set_int_range(0, 65536))) by {
        assert forall|x: int| wide.to_set().contains(x) implies set_int_range(0, 65536).contains(
            x,
        ) by {
            let at = wide.index_of(x);
            assert(wide[at] == order[at] as int);
        }
    }
    lemma_len_subset(wide.to_set(), set_int_range(0, 65536));
}

/// Resolves pseudo operands to stack slots, one operand at a time.
///
/// It remembers the slot of every temporary that it has met, and the lowest
/// offset that it has handed out.
pub struct TmpVarResolver {
    min: i32,
    min_used: i32,
    id_to_off: HashMap<u16, i32>,
    order: Ghost<Seq<u16>>,
}

impl TmpVarResolver {
    /// The temporaries met so far, in the order in which they were first met.
    pub closed spec fn order(&self) -> Seq<u16> {
        self.order@
    }

    /// The slots handed out so far.
    pub closed spec fn slots(&self) -> Map<u16, i32> {
        self.id_to_off@
    }

    /// The table holds exactly the temporaries met so far, each with the slot
    /// that its place in the order gives it, and the two offsets follow the
    /// number of slots handed out.
    pub closed spec fn wf(&self) -> bool {
        &&& self.order@.no_duplicates()
        &&& self.id_to_off@.dom() =~= self.order@.to_set()
        &&& forall|k: int|
            0 <= k < self.order@.len() ==> #[trigger] self.id_to_off@[self.order@[k]]
                == -SLOT_BYTES * (k + 1)
        &&& self.min == lowest_offset(self.order@.len()) - SLOT_BYTES
        &&& self.min_used == lowest_offset(self.order@.len())
    }

    /// What `wf` says of the table, for those who cannot see inside.
    pub proof fn lemma_slots(&self)
        requires
            self.wf(),
        ensures
            self.order().no_duplicates(),
            self.order().len() <= MAX_TEMPORARIES,
            forall|id: u16| self.slots().contains_key(id) <==> self.order().contains(id),
            forall|id: u16|
                self.order().contains(id) ==> #[trigger] self.slots()[id] == slot_offset(
                    self.order(),
                    id,
                ),
    {
        lemma_distinct_ids_bounded(self.order@);
        assert forall|id: u16| self.order@.contains(id) implies #[trigger] self.id_to_off@[id]
            == slot_offset(self.order@, id) by {
            let at = self.order@.index_of(id);
            assert(self.id_to_off@[self.order@[at]] == -SLOT_BYTES * (at + 1));
        }
        assert forall|id: u16| self.id_to_off@.contains_key(id) <==> self.order@.contains(id) by {
            assert(self.id_to_off@.dom().contains(id) == self.order@.to_set().contains(id));
        }
    }

    /// A resolver that has met no temporary.
    pub fn new() -> (resolver: Self)
        ensures
            resolver.wf(),
            resolver.order() == Seq::<u16>::empty(),
    {
        TmpVarResolver {
            min: -SLOT_BYTES,
            min_used: 0,
            id_to_off: HashMap::new(),
            order: Ghost(Seq::empty()),
        }
    }

    /// The lowest offset handed out so far; zero if no slot was handed out.
    pub fn get_min_used(&mut self) -> (min_used: i32)
        requires
            old(self).wf(),
        ensures
            *final(self) == *old(self),
            min_used == lowest_offset(old(self).order().len()),
    {
        self.min_used
    }

    /// Resolves the operands of an instruction, from left to right.
    pub fn resolve_temps(&mut self, instr: InstructionAsm) -> (resolved: InstructionAsm)
        requires
            old(self).wf(),
        ensures
            final(self).wf(),
            final(self).order() == note_seen(old(self).order(), instr_temps(instr)),
            resolved == resolve_instr(final(self).order(), instr),
    {
        let ghost start = self.order@;
        match instr {
            InstructionAsm::Mov { src, dst } => {
                let src_slot: OperandAsm = self.temp_to_stack(src);
                let ghost middle = self.order@;
                let dst_slot: OperandAsm = self.temp_to_stack(dst);
                proof {
                    lemma_note_seen_concat(start, operand_temps(src), operand_temps(dst));
                    lemma_note_seen(start, operand_temps(src));
                    lemma_note_seen(middle, operand_temps(dst));
                    lemma_resolve_operand_stable(middle, self.order@, src);
                }
                InstructionAsm::Mov { src: src_slot, dst: dst_slot }
            },
            InstructionAsm::Unary { unop, operand } => InstructionAsm::Unary {
                unop,
                operand: self.temp_to_stack(operand),
            },
            InstructionAsm::Binary { binop, src, dst } => {
                let src_slot: OperandAsm = self.temp_to_stack(src);
                let ghost middle = self.order@;
                let dst_slot: OperandAsm = self.temp_to_stack(dst);
                proof {
                    lemma_note_seen_concat(start, operand_temps(src), operand_temps(dst));
                    lemma_note_seen(start, operand_temps(src));
                    lemma_note_seen(middle, operand_temps(dst));
                    lemma_resolve_operand_stable(middle, self.order@, src);
                }
                InstructionAsm::Binary { binop, src: src_slot, dst: dst_slot }
            },
            InstructionAsm::Idiv { operand } => InstructionAsm::Idiv {
                operand: self.temp_to_stack(operand),
            },
            _ => instr,
        }
    }

    /// Resolves one operand: a temporary met before gets the slot that it was
    /// given then, a new one gets the next slot below, and any other operand
    /// stays as it is.
    pub fn temp_to_stack(&mut self, operand: OperandAsm) -> (resolved: OperandAsm)
        requires
            old(self).wf(),
        ensures
            final(self).wf(),
            final(self).order() == note_seen(old(self).order(), operand_temps(operand)),
            resolved == resolve_operand(final(self).order(), operand),
    {
        match operand {
            OperandAsm::Pseudo { id } => {
                proof {
                    lemma_note_seen_one(self.order@, id);
                    self.lemma_slots();
                }
                match self.id_to_off.get(&id) {
                    Some(off) => OperandAsm::Stack { off: *off },
                    None => {
                        let ghost known = self.order@;
                        proof {
                            assert(known.push(id).no_duplicates());
                            lemma_distinct_ids_bounded(known.push(id));
                        }
                        self.min_used = self.min;
                        self.min = self.min - SLOT_BYTES;
                        self.id_to_off.insert(id, self.min_used);
                        self.order = Ghost(known.push(id));
                        proof {
                            lemma_index_of_unique(self.order@, known.len() as int);
                            assert(self.id_to_off@.dom() =~= self.order@.to_set()) by {
                                assert forall|x: u16|
                                    self.order@.to_set().contains(x) <==> known.to_set().contains(x)
                                        || x == id by {
                                    if known.contains(x) {
                                        let at = known.index_of(x);
                                        assert(self.order@[at] == x);
                                    }
                                    if x == id {
                                        assert(self.order@[known.len() as int] == x);
                                    }
                                }
                            }
                        }
                        OperandAsm::Stack { off: self.min_used }
                    },
                }
            },
            _ => operand,
        }
    }
}

} // verus!
