//! What three-address code computes.
//!
//! A body runs on an environment that gives every temporary a value; a
//! temporary that was never assigned holds zero. The body is taken as it
//! comes: nothing checks that a temporary is assigned once only.

use vstd::prelude::*;
use crate::tacky::{InstructionTacky, ValTacky};

verus! {

/// Why a run of instructions stops before its end.
#[derive(PartialEq, Eq, Structural, Debug, Clone, Copy)]
pub enum Halt {
    /// A return was reached, with this value.
    Returned { value: i32 },
    /// An instruction could not be carried out: it writes to a constant, it
    /// divides by zero, the quotient of its division does not fit, or it is a
    /// binary machine instruction for division or remainder, which the target
    /// does not have.
    Faulted,
}

/// The value of a temporary; zero if it was never assigned.
pub open spec fn temp_value(env: Map<u16, i32>, no: u16) -> i32 {
    if env.contains_key(no) {
        env[no]
    } else {
        0
    }
}

/// The value of a value.
pub open spec fn value_of(env: Map<u16, i32>, tval: ValTacky) -> i32 {
    match tval {
        ValTacky::Const { int: value } => value,
        ValTacky::TmpVar { no } => temp_value(env, no),
    }
}

/// The environment after `value` was assigned to `dst`. Nothing can be
/// assigned to a constant.
pub open spec fn assign(env: Map<u16, i32>, dst: ValTacky, value: i32) -> Result<
    Map<u16, i32>,
    Halt,
> {
    match dst {
        ValTacky::TmpVar { no } => Ok(env.insert(no, value)),
        ValTacky::Const { int: _ } => Err(Halt::Faulted),
    }
}

/// The effect of one instruction: the environment that it leaves, or the
/// reason why the run stops at it.
pub open spec fn eval_instr(env: Map<u16, i32>, instr: InstructionTacky) -> Result<
    Map<u16, i32>,
    Halt,
> {
    match instr {
        InstructionTacky::Ret { v } => Err(Halt::Returned { value: value_of(env, v) }),
        InstructionTacky::Unary { op, src, dst } => assign(env, dst, op.apply(value_of(env, src))),
        InstructionTacky::Binary { op, src1, src2, dst } => match op.apply(
            value_of(env, src1),
            value_of(env, src2),
        ) {
            Some(value) => assign(env, dst, value),
            None => Err(Halt::Faulted),
        },
    }
}

/// The effect of a body: the environment at its end, or the reason why the
/// run stops before.
pub open spec fn eval(env: Map<u16, i32>, instrs: Seq<InstructionTacky>) -> Result<
    Map<u16, i32>,
    Halt,
>
    decreases instrs.len(),
{
    if instrs.len() == 0 {
        Ok(env)
    } else {
        match eval(env, instrs.drop_last()) {
            Ok(middle) => eval_instr(middle, instrs.last()),
            Err(halt) => Err(halt),
        }
    }
}

/// Whether the instruction keeps its second source apart from its
/// destination, where that matters: a binary operator with an instruction of
/// its own copies the first source into the destination before it reads the
/// second.
pub open spec fn keeps_source(instr: InstructionTacky) -> bool {
    instr matches InstructionTacky::Binary { op, src1, src2, dst } ==> op.uses_divide() || src2
        != dst
}

/// Whether every instruction of the body keeps its second source apart from
/// its destination.
pub open spec fn all_keep_source(instrs: Seq<InstructionTacky>) -> bool {
    forall|k: int| 0 <= k < instrs.len() ==> keeps_source(#[trigger] instrs[k])
}

} // verus!
