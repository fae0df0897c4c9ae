//! What the instructions do: a model of the part of the machine that the
//! generated code can see.
//!
//! The model has the four registers and the slots of one frame. For code
//! whose temporaries have no slot yet, it also has a cell for every
//! temporary. All arithmetic is on 32-bit values and wraps. The stack pointer
//! is left out: allocating the frame changes nothing that the instructions
//! can read.

use std::collections::HashMap;
use vstd::arithmetic::div_mod::{lemma_div_of0, lemma_mod_pos_bound};
use vstd::prelude::*;
use crate::assembly::{InstructionAsm, OperandAsm, Register};
use crate::meaning::{temp_value, Halt};
use crate::ops::{divides, magnitude, quotient, remainder, BinaryOp, UnaryOp};

verus! {

/// The registers, the frame and the temporaries.
pub struct State {
    pub ax: i32,
    pub r10: i32,
    pub dx: i32,
    pub r11: i32,
    /// The slots that have been written, by offset from the frame base.
    pub stack: Map<i32, i32>,
    /// The temporaries that have been written.
    pub temps: Map<u16, i32>,
}

impl State {
    /// The value of a register.
    pub open spec fn register(self, r: Register) -> i32 {
        match r {
            Register::AX => self.ax,
            Register::R10 => self.r10,
            Register::DX => self.dx,
            Register::R11 => self.r11,
        }
    }

    /// The state with a register set to `value`.
    pub open spec fn with_register(self, r: Register, value: i32) -> State {
        match r {
            Register::AX => State { ax: value, ..self },
            Register::R10 => State { r10: value, ..self },
            Register::DX => State { dx: value, ..self },
            Register::R11 => State { r11: value, ..self },
        }
    }

    /// The value of a slot; zero if it was never written.
    pub open spec fn slot(self, off: i32) -> i32 {
        if self.stack.contains_key(off) {
            self.stack[off]
        } else {
            0
        }
    }

    /// The value of a temporary; zero if it was never written.
    pub open spec fn temp(self, id: u16) -> i32 {
        temp_value(self.temps, id)
    }

    /// The value of an operand.
    pub open spec fn read(self, operand: OperandAsm) -> i32 {
        match operand {
            OperandAsm::Imm { int: value } => value,
            OperandAsm::Reg { r } => self.register(r),
            OperandAsm::Stack { off } => self.slot(off),
            OperandAsm::Pseudo { id } => self.temp(id),
        }
    }

    /// The state with `value` stored in an operand. Nothing can be stored in
    /// an immediate.
    pub open spec fn write(self, operand: OperandAsm, value: i32) -> Option<State> {
        match operand {
            OperandAsm::Reg { r } => Some(self.with_register(r, value)),
            OperandAsm::Stack { off } => Some(State { stack: self.stack.insert(off, value), ..self }),
            OperandAsm::Pseudo { id } => Some(State { temps: self.temps.insert(id, value), ..self }),
            OperandAsm::Imm { int: _ } => None,
        }
    }
}

/// The 64-bit dividend that the divide instruction takes: `DX` is its high
/// half, `AX` its low half.
pub open spec fn dividend(dx: i32, ax: i32) -> int {
    dx * 0x1_0000_0000 + (if ax < 0 {
        ax + 0x1_0000_0000
    } else {
        ax as int
    })
}

/// Writes `value` to an operand, or faults where that cannot be done.
pub open spec fn store(state: State, operand: OperandAsm, value: i32) -> Result<State, Halt> {
    match state.write(operand, value) {
        Some(next) => Ok(next),
        None => Err(Halt::Faulted),
    }
}

/// The effect of one instruction: the state that it leaves, or the reason
/// why the run stops at it.
pub open spec fn step(state: State, instr: InstructionAsm) -> Result<State, Halt> {
    match instr {
        InstructionAsm::Mov { src, dst } => store(state, dst, state.read(src)),
        InstructionAsm::Ret => Err(Halt::Returned { value: state.ax }),
        InstructionAsm::Unary { unop, operand } => store(
            state,
            operand,
            unop.apply(state.read(operand)),
        ),
        InstructionAsm::AllocStack { off } => Ok(state),
        InstructionAsm::Binary { binop, src, dst } => if binop.uses_divide() {
            Err(Halt::Faulted)
        } else {
            match binop.apply(state.read(dst), state.read(src)) {
                Some(value) => store(state, dst, value),
                None => Err(Halt::Faulted),
            }
        },
        InstructionAsm::Idiv { operand } => {
            let n = dividend(state.dx, state.ax);
            let d = state.read(operand) as int;
            if divides(n, d) {
                Ok(State { ax: quotient(n, d) as i32, dx: remainder(n, d) as i32, ..state })
            } else {
                Err(Halt::Faulted)
            }
        },
        InstructionAsm::Cdq => Ok(
            State {
                dx: if state.ax < 0 {
                    -1i32
                } else {
                    0i32
                },
                ..state
            },
        ),
    }
}

/// The effect of a run of instructions, one after the other: the state at
/// its end, or the reason why it stops before.
pub open spec fn run(state: State, instrs: Seq<InstructionAsm>) -> Result<State, Halt>
    decreases instrs.len(),
{
    if instrs.len() == 0 {
        Ok(state)
    } else {
        match run(state, instrs.drop_last()) {
            Ok(middle) => step(middle, instrs.last()),
            Err(halt) => Err(halt),
        }
    }
}

/// A single instruction runs as it steps.
pub proof fn lemma_run_one(state: State, instr: InstructionAsm)
    ensures
        run(state, seq![instr]) == step(state, instr),
{
    assert(seq![instr].drop_last() =~= Seq::<InstructionAsm>::empty());
    assert(run(state, Seq::<InstructionAsm>::empty()) == Ok::<State, Halt>(state));
}

/// One more instruction at the end steps from where the run before it ends.
pub proof fn lemma_run_push(state: State, instrs: Seq<InstructionAsm>, instr: InstructionAsm)
    ensures
        run(state, instrs.push(instr)) == match run(state, instrs) {
            Ok(middle) => step(middle, instr),
            Err(halt) => Err(halt),
        },
{
    assert(instrs.push(instr).drop_last() =~= instrs);
}

/// A run of two parts is the run of the second from where the first ends.
pub proof fn lemma_run_concat(state: State, first: Seq<InstructionAsm>, second: Seq<InstructionAsm>)
    ensures
        run(state, first + second) == match run(state, first) {
            Ok(middle) => run(middle, second),
            Err(halt) => Err(halt),
        },
    decreases second.len(),
{
    if second.len() == 0 {
        assert(first + second =~= first);
    } else {
        lemma_run_concat(state, first, second.drop_last());
        assert((first + second).drop_last() =~= first + second.drop_last());
    }
}

/// Two instructions run as one step after the other.
pub proof fn lemma_run_two(state: State, first: InstructionAsm, second: InstructionAsm)
    ensures
        run(state, seq![first, second]) == match step(state, first) {
            Ok(middle) => step(middle, second),
            Err(halt) => Err(halt),
        },
{
    lemma_run_one(state, first);
    lemma_run_push(state, seq![first], second);
    assert(seq![first].push(second) =~= seq![first, second]);
}

/// Three instructions run as one step after the other.
pub proof fn lemma_run_three(
    state: State,
    first: InstructionAsm,
    second: InstructionAsm,
    third: InstructionAsm,
)
    ensures
        run(state, seq![first, second, third]) == match step(state, first) {
            Ok(middle) => match step(middle, second) {
                Ok(late) => step(late, third),
                Err(halt) => Err(halt),
            },
            Err(halt) => Err(halt),
        },
{
    lemma_run_two(state, first, second);
    lemma_run_push(state, seq![first, second], third);
    assert(seq![first, second].push(third) =~= seq![first, second, third]);
}

/// Four instructions run as one step after the other.
pub proof fn lemma_run_four(
    state: State,
    first: InstructionAsm,
    second: InstructionAsm,
    third: InstructionAsm,
    fourth: InstructionAsm,
)
    ensures
        run(state, seq![first, second, third, fourth]) == match run(
            state,
            seq![first, second, third],
        ) {
            Ok(late) => step(late, fourth),
            Err(halt) => Err(halt),
        },
{
    lemma_run_push(state, seq![first, second, third], fourth);
    assert(seq![first, second, third].push(fourth) =~= seq![first, second, third, fourth]);
}

/// A run that stops within its first `k` instructions stops there whatever
/// follows.
pub proof fn lemma_run_stops(state: State, instrs: Seq<InstructionAsm>, k: int)
    requires
        0 <= k <= instrs.len(),
        run(state, instrs.take(k)) is Err,
    ensures
        run(state, instrs) == run(state, instrs.take(k)),
{
    lemma_run_concat(state, instrs.take(k), instrs.skip(k));
    assert(instrs.take(k) + instrs.skip(k) =~= instrs);
}

/// A machine that carries instructions out.
pub struct Machine {
    ax: i32,
    r10: i32,
    dx: i32,
    r11: i32,
    stack: HashMap<i32, i32>,
    temps: HashMap<u16, i32>,
}

impl View for Machine {
    type V = State;

    closed spec fn view(&self) -> State {
        State {
            ax: self.ax,
            r10: self.r10,
            dx: self.dx,
            r11: self.r11,
            stack: self.stack@,
            temps: self.temps@,
        }
    }
}

impl Machine {
    /// A machine with zero in every register and nothing written.
    pub fn new() -> (machine: Machine)
        ensures
            machine@ == (State {
                ax: 0,
                r10: 0,
                dx: 0,
                r11: 0,
                stack: Map::empty(),
                temps: Map::empty(),
            }),
    {
        Machine { ax: 0, r10: 0, dx: 0, r11: 0, stack: HashMap::new(), temps: HashMap::new() }
    }

    /// The value of a register.
    pub fn register(&self, r: Register) -> (value: i32)
        ensures
            value == self@.register(r),
    {
        match r {
            Register::AX => self.ax,
            Register::R10 => self.r10,
            Register::DX => self.dx,
            Register::R11 => self.r11,
        }
    }

    /// The value of a slot; zero if it was never written.
    pub fn slot(&self, off: i32) -> (value: i32)
        ensures
            value == self@.slot(off),
    {
        match self.stack.get(&off) {
            Some(value) => *value,
            None => 0,
        }
    }

    /// The value of a temporary; zero if it was never written.
    pub fn temp(&self, id: u16) -> (value: i32)
        ensures
            value == self@.temp(id),
    {
        match self.temps.get(&id) {
            Some(value) => *value,
            None => 0,
        }
    }

    /// The value of an operand.
    pub fn read(&self, operand: OperandAsm) -> (value: i32)
        ensures
            value == self@.read(operand),
    {
        match operand {
            OperandAsm::Imm { int: value } => value,
            OperandAsm::Reg { r } => self.register(r),
            OperandAsm::Stack { off } => self.slot(off),
            OperandAsm::Pseudo { id } => self.temp(id),
        }
    }

    /// Stores `value` in an operand and says whether that could be done.
    /// Where it could not, the machine is as it was.
    pub fn write(&mut self, operand: OperandAsm, value: i32) -> (stored: bool)
        ensures
            match old(self)@.write(operand, value) {
                Some(next) => stored && final(self)@ == next,
                None => !stored && final(self)@ == old(self)@,
            },
    {
        match operand {
            OperandAsm::Reg { r } => {
                match r {
                    Register::AX => {
                        self.ax = value;
                    },
                    Register::R10 => {
                        self.r10 = value;
                    },
                    Register::DX => {
                        self.dx = value;
                    },
                    Register::R11 => {
                        self.r11 = value;
                    },
                }
                true
            },
            OperandAsm::Stack { off } => {
                self.stack.insert(off, value);
                true
            },
            OperandAsm::Pseudo { id } => {
                self.temps.insert(id, value);
                true
            },
            OperandAsm::Imm { int: _ } => false,
        }
    }

    /// Stores `value` in an operand; the result is a fault where that cannot
    /// be done.
    fn store(&mut self, operand: OperandAsm, value: i32) -> (halt: Option<Halt>)
        ensures
            match store(old(self)@, operand, value) {
                Ok(next) => halt is None && final(self)@ == next,
                Err(reason) => halt == Some(reason) && final(self)@ == old(self)@,
            },
    {
        if self.write(operand, value) {
            None
        } else {
            Some(Halt::Faulted)
        }
    }

    /// Carries one instruction out. The result is the reason why the run
    /// stops at this instruction, if it does; the machine is then as it was.
    pub fn step(&mut self, instr: InstructionAsm) -> (halt: Option<Halt>)
        ensures
            match step(old(self)@, instr) {
                Ok(next) => halt is None && final(self)@ == next,
                Err(reason) => halt == Some(reason) && final(self)@ == old(self)@,
            },
    {
        match instr {
            InstructionAsm::Mov { src, dst } => {
                let value: i32 = self.read(src);
                self.store(dst, value)
            },
            InstructionAsm::Ret => Some(Halt::Returned { value: self.ax }),
            InstructionAsm::Unary { unop, operand } => {
                let value: i32 = self.read(operand);
                let result: i32 = match unop {
                    UnaryOp::Negate => 0i32.wrapping_sub(value),
                    UnaryOp::BitwiseComplement => !value,
                };
                self.store(operand, result)
            },
            InstructionAsm::AllocStack { off: _ } => None,
            InstructionAsm::Binary { binop, src, dst } => {
                let right: i32 = self.read(src);
                let left: i32 = self.read(dst);
                let result: Option<i32> = match binop {
                    BinaryOp::Add => Some(left.wrapping_add(right)),
                    BinaryOp::Subtract => Some(left.wrapping_sub(right)),
                    BinaryOp::Multiply => Some(left.wrapping_mul(right)),
                    BinaryOp::BitwiseAnd => Some(left & right),
                    BinaryOp::BitwiseOr => Some(left | right),
                    BinaryOp::BitwiseXor => Some(left ^ right),
                    _ => None,
                };
                match result {
                    Some(value) => self.store(dst, value),
                    None => Some(Halt::Faulted),
                }
            },
            InstructionAsm::Idiv { operand } => {
                let divisor: i32 = self.read(operand);
                let low: i64 = if self.ax < 0 {
                    self.ax as i64 + 0x1_0000_0000
                } else {
                    self.ax as i64
                };
                let n: i64 = (self.dx as i64) * 0x1_0000_0000 + low;
                match divide(n, divisor) {
                    Some((q, r)) => {
                        self.ax = q;
                        self.dx = r;
                        None
                    },
                    None => Some(Halt::Faulted),
                }
            },
            InstructionAsm::Cdq => {
                self.dx = if self.ax < 0 {
                    -1
                } else {
                    0
                };
                None
            },
        }
    }

    /// Carries instructions out one after the other, up to the first that
    /// stops the run. The result is the reason why the run stops, if it does.
    pub fn run(&mut self, instrs: &Vec<InstructionAsm>) -> (halt: Option<Halt>)
        ensures
            match run(old(self)@, instrs@) {
                Ok(last) => halt is None && final(self)@ == last,
                Err(reason) => halt == Some(reason),
            },
    {
        let n: usize = instrs.len();
        let mut i: usize = 0;
        assert(instrs@.take(0) =~= Seq::<InstructionAsm>::empty());
        while i < n
            invariant
                n == instrs.len(),
                i <= n,
                run(old(self)@, instrs@.take(i as int)) == Ok::<State, Halt>(self@),
            decreases n - i,
        {
            let halt: Option<Halt> = self.step(instrs[i]);
            proof {
                assert(instrs@.take(i + 1).drop_last() =~= instrs@.take(i as int));
            }
            if halt.is_some() {
                proof {
                    lemma_run_stops(old(self)@, instrs@, i + 1);
                }
                return halt;
            }
            i = i + 1;
        }
        assert(instrs@.take(n as int) =~= instrs@);
        None
    }
}

/// The quotient and the remainder that the divide instruction leaves, or
/// nothing where it faults: the divisor is zero, or the quotient does not fit
/// in 32 bits.
fn divide(n: i64, divisor: i32) -> (res: Option<(i32, i32)>)
    ensures
        res == if divides(n as int, divisor as int) {
            Some(
                (quotient(n as int, divisor as int) as i32, remainder(n as int, divisor as int) as i32),
            )
        } else {
            None
        },
{
    proof {
        if divisor != 0 {
            lemma_div_of0(magnitude(divisor as int));
            lemma_mod_pos_bound(magnitude(n as int), magnitude(divisor as int));
        }
    }
    match (n.checked_div(divisor as i64), n.checked_rem(divisor as i64)) {
        (Some(q), Some(r)) => {
            if q < -0x8000_0000 || q > 0x7fff_ffff {
                None
            } else {
                Some((q as i32, r as i32))
            }
        },
        _ => None,
    }
}

} // verus!
