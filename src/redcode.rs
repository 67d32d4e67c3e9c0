//! Data structures describing Redcode instructions.

use vstd::prelude::*;

verus! {

/// An address in the core, always in `[0, size)`
pub type Address = usize;

/// A signed distance from an `Address`
pub type Offset = isize;

/// Identifies a warrior within a match: its load index
pub type Pid = usize;

/// Identity token keying a warrior's private storage
pub type Pin = isize;

/// A program is a list of instructions
pub type Program = Vec<Instruction>;

/// The operation an instruction performs
#[derive(Clone, Copy, Debug, PartialEq, Eq, Structural)]
pub enum OpCode {
    Dat,
    Mov,
    Add,
    Sub,
    Mul,
    Div,
    Mod,
    Jmp,
    Jmz,
    Jmn,
    Djn,
    Spl,
    /// Skip if equal (also written SEQ)
    Cmp,
    Sne,
    Slt,
    Ldp,
    Stp,
    Nop,
}

/// Selects which halves of the operand instructions take part
#[derive(Clone, Copy, Debug, PartialEq, Eq, Structural)]
pub enum OpMode {
    /// a.A => b.A
    A,
    /// a.B => b.B
    B,
    /// a.A => b.B
    AB,
    /// a.B => b.A
    BA,
    /// (a.A, a.B) => (b.A, b.B)
    F,
    /// (a.A, a.B) => (b.B, b.A)
    X,
    /// the whole instruction
    I,
}

/// How an operand's offset is interpreted
#[derive(Clone, Copy, Debug, PartialEq, Eq, Structural)]
pub enum AddressingMode {
    /// `#`
    Immediate,
    /// `$`
    Direct,
    /// `*`
    AIndirect,
    /// `@`
    BIndirect,
    /// `{`
    AIndirectPreDecrement,
    /// `<`
    BIndirectPreDecrement,
    /// `}`
    AIndirectPostIncrement,
    /// `>`
    BIndirectPostIncrement,
}

/// Opcode together with its mode
#[derive(Clone, Copy, Debug, PartialEq, Eq, Structural)]
pub struct OpField {
    pub code: OpCode,
    pub mode: OpMode,
}

/// One operand: an addressing mode and a signed offset
#[derive(Clone, Copy, Debug, PartialEq, Eq, Structural)]
pub struct Field {
    pub offset: Offset,
    pub mode: AddressingMode,
}

/// One Redcode word
#[derive(Clone, Copy, Debug, PartialEq, Eq, Structural)]
pub struct Instruction {
    pub op: OpField,
    pub a: Field,
    pub b: Field,
}

/// `DAT.F #0, #0`, the content of an empty cell
pub open spec fn dat_zero() -> Instruction {
    Instruction {
        op: OpField { code: OpCode::Dat, mode: OpMode::F },
        a: Field { offset: 0, mode: AddressingMode::Immediate },
        b: Field { offset: 0, mode: AddressingMode::Immediate },
    }
}

impl Instruction {
    /// Build an instruction from its opcode, mode and two operands
    pub fn new(
        code: OpCode,
        mode: OpMode,
        a_mode: AddressingMode,
        a_offset: Offset,
        b_mode: AddressingMode,
        b_offset: Offset,
    ) -> (r: Instruction)
        ensures
            r.op == (OpField { code, mode }),
            r.a == (Field { offset: a_offset, mode: a_mode }),
            r.b == (Field { offset: b_offset, mode: b_mode }),
    {
        Instruction {
            op: OpField { code, mode },
            a: Field { offset: a_offset, mode: a_mode },
            b: Field { offset: b_offset, mode: b_mode },
        }
    }

    /// `DAT.F #0, #0`
    pub fn dat_zero() -> (r: Instruction)
        ensures
            r == dat_zero(),
    {
        Instruction::new(OpCode::Dat, OpMode::F, AddressingMode::Immediate, 0, AddressingMode::Immediate, 0)
    }
}

impl Default for Instruction {
    fn default() -> (r: Instruction)
        ensures
            r == dat_zero(),
    {
        Instruction::dat_zero()
    }
}

} // verus!
