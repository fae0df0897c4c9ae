//! The emitter: the assembly tree as text for the GNU assembler, in AT&T
//! syntax.
//!
//! Two things cannot be written down: an operand that still names a
//! temporary, and a binary instruction for division or remainder, which the
//! target does not have. Rendering reports either as an error.

use vstd::prelude::*;
use crate::assembly::{FunDefAsm, InstructionAsm, OperandAsm, ProgramAsm, Register};
use crate::ops::{BinaryOp, UnaryOp};
use crate::seqs::lemma_flat_map_empty;

verus! {

/// Why a piece of the assembly tree has no text.
#[derive(PartialEq, Eq, Structural, Debug, Clone, Copy)]
pub enum EmitError {
    /// An operand still names a temporary.
    UnresolvedTemporary { id: u16 },
    /// A binary instruction carries an operator that has no instruction.
    UnsupportedOperator { binop: BinaryOp },
}

/// The character for a decimal digit.
pub open spec fn digit(d: int) -> char {
    if d == 0 {
        '0'
    } else if d == 1 {
        '1'
    } else if d == 2 {
        '2'
    } else if d == 3 {
        '3'
    } else if d == 4 {
        '4'
    } else if d == 5 {
        '5'
    } else if d == 6 {
        '6'
    } else if d == 7 {
        '7'
    } else if d == 8 {
        '8'
    } else {
        '9'
    }
}

/// The decimal digits of a natural number, without leading zeros.
pub open spec fn decimal_digits(n: nat) -> Seq<char>
    decreases n,
{
    if n < 10 {
        seq![digit(n as int)]
    } else {
        decimal_digits(n / 10).push(digit((n % 10) as int))
    }
}

/// The decimal notation of an integer, with a minus sign if it is negative.
pub open spec fn decimal(n: int) -> Seq<char> {
    if n < 0 {
        seq!['-'] + decimal_digits((-n) as nat)
    } else {
        decimal_digits(n as nat)
    }
}

/// The name of a register as a 32-bit operand.
pub open spec fn register_text(r: Register) -> Seq<char> {
    match r {
        Register::AX => "%eax"@,
        Register::R10 => "%r10d"@,
        Register::DX => "%edx"@,
        Register::R11 => "%r11d"@,
    }
}

/// The error that rendering an operand gives, if it gives one.
pub open spec fn operand_error(operand: OperandAsm) -> Option<EmitError> {
    match operand {
        OperandAsm::Pseudo { id } => Some(EmitError::UnresolvedTemporary { id }),
        _ => None,
    }
}

/// The text of an operand: `$5` for an immediate, the register's name for a
/// register, `-8(%rbp)` for a stack slot. A pseudo operand has none.
pub open spec fn operand_text(operand: OperandAsm) -> Seq<char> {
    match operand {
        OperandAsm::Imm { int: value } => "$"@ + decimal(value as int),
        OperandAsm::Reg { r } => register_text(r),
        OperandAsm::Stack { off } => decimal(off as int) + "(%rbp)"@,
        OperandAsm::Pseudo { id } => Seq::empty(),
    }
}

/// The mnemonic of a unary operator.
pub open spec fn unary_mnemonic(unop: UnaryOp) -> Seq<char> {
    match unop {
        UnaryOp::Negate => "negl "@,
        UnaryOp::BitwiseComplement => "notl "@,
    }
}

/// The mnemonic of a binary operator that has an instruction of its own.
pub open spec fn binary_mnemonic(binop: BinaryOp) -> Seq<char> {
    match binop {
        BinaryOp::Add => "addl "@,
        BinaryOp::Subtract => "subl "@,
        BinaryOp::Multiply => "imull "@,
        BinaryOp::BitwiseAnd => "andl "@,
        BinaryOp::BitwiseOr => "orl "@,
        BinaryOp::BitwiseXor => "xorl "@,
        _ => Seq::empty(),
    }
}

/// The error that rendering an instruction gives, if it gives one: that of
/// its operator, else that of its first operand that has one.
pub open spec fn instr_error(instr: InstructionAsm) -> Option<EmitError> {
    match instr {
        InstructionAsm::Mov { src, dst } => if operand_error(src) is Some {
            operand_error(src)
        } else {
            operand_error(dst)
        },
        InstructionAsm::Unary { unop, operand } => operand_error(operand),
        InstructionAsm::Binary { binop, src, dst } => if binop.uses_divide() {
            Some(EmitError::UnsupportedOperator { binop })
        } else if operand_error(src) is Some {
            operand_error(src)
        } else {
            operand_error(dst)
        },
        InstructionAsm::Idiv { operand } => operand_error(operand),
        _ => None,
    }
}

/// The text of an instruction. A return comes with the epilogue that takes
/// the frame down. The frame allocation subtracts the size of the frame, the
/// negated offset, from the stack pointer.
pub open spec fn instr_text(instr: InstructionAsm) -> Seq<char> {
    match instr {
        InstructionAsm::Mov { src, dst } => "movl "@ + operand_text(src) + ", "@ + operand_text(dst),
        InstructionAsm::Ret => "movq %rbp, %rsp\n\tpopq %rbp\n\tret"@,
        InstructionAsm::Unary { unop, operand } => unary_mnemonic(unop) + operand_text(operand),
        InstructionAsm::AllocStack { off } => "subq $"@ + decimal(-(off as int)) + ", %rsp"@,
        InstructionAsm::Cdq => "cdq"@,
        InstructionAsm::Binary { binop, src, dst } => binary_mnemonic(binop) + operand_text(src)
            + ", "@ + operand_text(dst),
        InstructionAsm::Idiv { operand } => "idivl "@ + operand_text(operand),
    }
}

/// The line of an instruction: a line break, a tab, the instruction.
pub open spec fn instr_line(instr: InstructionAsm) -> Seq<char> {
    "\n\t"@ + instr_text(instr)
}

/// The lines of a body.
pub open spec fn body_text(instrs: Seq<InstructionAsm>) -> Seq<char> {
    instrs.flat_map(|instr: InstructionAsm| instr_line(instr))
}

/// Whether every instruction of the body has a text.
pub open spec fn renderable(instrs: Seq<InstructionAsm>) -> bool {
    forall|k: int| 0 <= k < instrs.len() ==> instr_error(#[trigger] instrs[k]) is None
}

/// Whether `error` is the error of the first instruction of the body that has
/// no text.
pub open spec fn is_first_error(instrs: Seq<InstructionAsm>, error: EmitError) -> bool {
    exists|k: int|
        0 <= k < instrs.len() && instr_error(#[trigger] instrs[k]) == Some(error) && renderable(
            instrs.take(k),
        )
}

/// The text of a function: the directive that makes the name global, the
/// label, the prologue that sets the frame up, and the body.
pub open spec fn fundef_text(identifier: Seq<char>, instrs: Seq<InstructionAsm>) -> Seq<char> {
    "\t.globl "@ + identifier + "\n"@ + identifier + ":\n\tpushq %rbp\n\tmovq %rsp, %rbp"@
        + body_text(instrs)
}

/// The text of a program: its function, then the note that the object needs
/// no executable stack.
pub open spec fn program_text(identifier: Seq<char>, instrs: Seq<InstructionAsm>) -> Seq<char> {
    fundef_text(identifier, instrs) + "\n\t.section .note.GNU-stack,\"\",@progbits\n"@
}

/// The string of one decimal digit.
fn digit_str(d: u32) -> (text: &'static str)
    requires
        d < 10,
    ensures
        text@ == seq![digit(d as int)],
{
    proof {
        reveal_strlit("0");
        reveal_strlit("1");
        reveal_strlit("2");
        reveal_strlit("3");
        reveal_strlit("4");
        reveal_strlit("5");
        reveal_strlit("6");
        reveal_strlit("7");
        reveal_strlit("8");
        reveal_strlit("9");
    }
    let text: &'static str = match d {
        0 => "0",
        1 => "1",
        2 => "2",
        3 => "3",
        4 => "4",
        5 => "5",
        6 => "6",
        7 => "7",
        8 => "8",
        _ => "9",
    };
    assert(text@ =~= seq![digit(d as int)]);
    text
}

/// Appends the decimal digits of `n`.
fn append_digits(text: &mut String, n: u64)
    ensures
        final(text)@ == old(text)@ + decimal_digits(n as nat),
    decreases n,
{
    let ghost before = text@;
    if n >= 10 {
        append_digits(text, n / 10);
    }
    text.append(digit_str((n % 10) as u32));
    assert(text@ =~= before + decimal_digits(n as nat));
}

/// Appends the decimal notation of `n`.
fn append_decimal(text: &mut String, n: i64)
    requires
        n > i64::MIN,
    ensures
        final(text)@ == old(text)@ + decimal(n as int),
{
    let ghost before = text@;
    if n < 0 {
        proof {
            reveal_strlit("-");
        }
        text.append("-");
        append_digits(text, (-n) as u64);
        assert(text@ =~= before + decimal(n as int));
    } else {
        append_digits(text, n as u64);
    }
}

impl Register {
    /// The name of the register as a 32-bit operand.
    pub fn render(&self) -> (text: String)
        ensures
            text@ == register_text(*self),
    {
        match self {
            Register::AX => String::from_str("%eax"),
            Register::R10 => String::from_str("%r10d"),
            Register::DX => String::from_str("%edx"),
            Register::R11 => String::from_str("%r11d"),
        }
    }
}

impl OperandAsm {
    /// The text of the operand, or the error that it still names a temporary.
    pub fn render(&self) -> (res: Result<String, EmitError>)
        ensures
            match res {
                Ok(text) => operand_error(*self) is None && text@ == operand_text(*self),
                Err(error) => operand_error(*self) == Some(error),
            },
    {
        match self {
            OperandAsm::Imm { int: value } => {
                let mut text: String = String::from_str("$");
                append_decimal(&mut text, *value as i64);
                Ok(text)
            },
            OperandAsm::Reg { r } => Ok(r.render()),
            OperandAsm::Stack { off } => {
                let mut text: String = String::new();
                append_decimal(&mut text, *off as i64);
                text.append("(%rbp)");
                assert(text@ =~= operand_text(*self));
                Ok(text)
            },
            OperandAsm::Pseudo { id } => Err(EmitError::UnresolvedTemporary { id: *id }),
        }
    }
}

/// The text of an instruction with two operands behind its mnemonic.
fn render_pair(mnemonic: &str, src: &OperandAsm, dst: &OperandAsm) -> (res: Result<
    String,
    EmitError,
>)
    ensures
        match res {
            Ok(text) => operand_error(*src) is None && operand_error(*dst) is None && text@
                == mnemonic@ + operand_text(*src) + ", "@ + operand_text(*dst),
            Err(error) => if operand_error(*src) is Some {
                operand_error(*src) == Some(error)
            } else {
                operand_error(*dst) == Some(error)
            },
        },
{
    let mut text: String = String::from_str(mnemonic);
    match src.render() {
        Ok(src_text) => {
            text.append(src_text.as_str());
        },
        Err(error) => {
            return Err(error);
        },
    }
    text.append(", ");
    match dst.render() {
        Ok(dst_text) => {
            text.append(dst_text.as_str());
        },
        Err(error) => {
            return Err(error);
        },
    }
    Ok(text)
}

/// The text of an instruction with one operand behind its mnemonic.
fn render_single(mnemonic: &str, operand: &OperandAsm) -> (res: Result<String, EmitError>)
    ensures
        match res {
            Ok(text) => operand_error(*operand) is None && text@ == mnemonic@ + operand_text(
                *operand,
            ),
            Err(error) => operand_error(*operand) == Some(error),
        },
{
    let mut text: String = String::from_str(mnemonic);
    match operand.render() {
        Ok(operand_text) => {
            text.append(operand_text.as_str());
        },
        Err(error) => {
            return Err(error);
        },
    }
    Ok(text)
}

impl InstructionAsm {
    /// The text of the instruction, or the reason why it has none.
    pub fn render(&self) -> (res: Result<String, EmitError>)
        ensures
            match res {
                Ok(text) => instr_error(*self) is None && text@ == instr_text(*self),
                Err(error) => instr_error(*self) == Some(error),
            },
    {
        match self {
            InstructionAsm::Mov { src, dst } => render_pair("movl ", src, dst),
            InstructionAsm::Ret => Ok(String::from_str("movq %rbp, %rsp\n\tpopq %rbp\n\tret")),
            InstructionAsm::Unary { unop, operand } => match unop {
                UnaryOp::Negate => render_single("negl ", operand),
                UnaryOp::BitwiseComplement => render_single("notl ", operand),
            },
            InstructionAsm::AllocStack { off } => {
                let mut text: String = String::from_str("subq $");
                append_decimal(&mut text, -(*off as i64));
                text.append(", %rsp");
                Ok(text)
            },
            InstructionAsm::Cdq => Ok(String::from_str("cdq")),
            InstructionAsm::Binary { binop, src, dst } => match binop {
                BinaryOp::Add => render_pair("addl ", src, dst),
                BinaryOp::Subtract => render_pair("subl ", src, dst),
                BinaryOp::Multiply => render_pair("imull ", src, dst),
                BinaryOp::BitwiseAnd => render_pair("andl ", src, dst),
                BinaryOp::BitwiseOr => render_pair("orl ", src, dst),
                BinaryOp::BitwiseXor => render_pair("xorl ", src, dst),
                _ => Err(EmitError::UnsupportedOperator { binop: *binop }),
            },
            InstructionAsm::Idiv { operand } => render_single("idivl ", operand),
        }
    }
}

impl FunDefAsm {
    /// The text of the function, or the error of its first instruction that
    /// has no text.
    pub fn render(&self) -> (res: Result<String, EmitError>)
        ensures
            match res {
                Ok(text) => renderable(self.instructions@) && text@ == fundef_text(
                    self.identifier@,
                    self.instructions@,
                ),
                Err(error) => is_first_error(self.instructions@, error),
            },
    {
        let mut text: String = String::from_str("\t.globl ");
        text.append(self.identifier.as_str());
        text.append("\n");
        text.append(self.identifier.as_str());
        text.append(":\n\tpushq %rbp\n\tmovq %rsp, %rbp");
        let ghost head = text@;
        let n: usize = self.instructions.len();
        let mut i: usize = 0;
        proof {
            lemma_flat_map_empty(|instr: InstructionAsm| instr_line(instr));
            assert(self.instructions@.take(0) =~= Seq::<InstructionAsm>::empty());
            assert(head + Seq::<char>::empty() =~= head);
        }
        while i < n
            invariant
                n == self.instructions.len(),
                i <= n,
                renderable(self.instructions@.take(i as int)),
                text@ == head + body_text(self.instructions@.take(i as int)),
            decreases n - i,
        {
            let ghost before = text@;
            match self.instructions[i].render() {
                Ok(instr_text) => {
                    text.append("\n\t");
                    text.append(instr_text.as_str());
                },
                Err(error) => {
                    return Err(error);
                },
            }
            proof {
                self.instructions@.lemma_flat_map_take_append(
                    |instr: InstructionAsm| instr_line(instr),
                    i as int,
                );
                assert(text@ =~= before + instr_line(self.instructions@[i as int]));
                assert(text@ =~= head + body_text(self.instructions@.take(i + 1)));
                assert forall|k: int| 0 <= k < i + 1 implies instr_error(
                    #[trigger] self.instructions@.take(i + 1)[k],
                ) is None by {
                    if k < i {
                        assert(self.instructions@.take(i as int)[k] == self.instructions@[k]);
                    }
                }
            }
            i = i + 1;
        }
        proof {
            assert(self.instructions@.take(n as int) =~= self.instructions@);
        }
        Ok(text)
    }
}

impl ProgramAsm {
    /// The text of the program, or the error of its first instruction that
    /// has no text.
    pub fn render(&self) -> (res: Result<String, EmitError>)
        ensures
            match res {
                Ok(text) => renderable(self.function.instructions@) && text@ == program_text(
                    self.function.identifier@,
                    self.function.instructions@,
                ),
                Err(error) => is_first_error(self.function.instructions@, error),
            },
    {
        match self.function.render() {
            Ok(mut text) => {
                text.append("\n\t.section .note.GNU-stack,\"\",@progbits\n");
                Ok(text)
            },
            Err(error) => Err(error),
        }
    }
}

} // verus!
