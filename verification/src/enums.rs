//! The symbolic opcode tables for the two dispatch levels, and the decoding
//! of an instruction word into the handler it selects.
//!
//! An instruction word is one 8-byte word. Its low 3 bits select the
//! first-level class; the designated extended class (7) discards those bits,
//! shifts right by 3 and takes the low 6 bits of the result as the
//! second-level opcode. Non-extended classes interpret the remaining high
//! bits directly as an immediate or a program-counter-relative offset.

use vstd::prelude::*;

verus! {

/// First-level (compact) instructions, selected by the low 3 bits of the
/// instruction word. Class 7 is the extended class and class 6 is
/// unassigned; neither is named here.
#[derive(Clone, Copy, PartialEq, Eq, Structural, Debug)]
pub enum Op {
    CallI,
    PushI,
    PushrelI,
    JumpI,
    JumpzI,
    Trap,
}

/// Second-level instructions, selected by the 6 bits above the extended
/// class bits. Opcodes past `DupR` are recognized but unimplemented: they
/// always deoptimize.
#[allow(non_camel_case_types)]
#[derive(Clone, Copy, PartialEq, Eq, Structural, Debug)]
pub enum Insn {
    Nop,
    Not,
    And,
    Or,
    Xor,
    LShift,
    RShift,
    ARShift,
    Pop,
    Dup,
    SetSlot,
    Swap,
    Jump,
    JumpZ,
    Call,
    Ret,
    Load,
    Store,
    Load1,
    Store1,
    Load2,
    Store2,
    Load4,
    Store4,
    Neg,
    Add,
    Mul,
    DivMod,
    UDivMod,
    Eq,
    Lt,
    ULt,
    PushR,
    PopR,
    DupR,
    Catch,
    Throw,
    Break,
    Word_Bytes,
    Get_M0,
    Get_MSize,
    Get_SSize,
    Get_SP,
    Set_SP,
    Get_DSize,
    Get_DP,
    Set_DP,
    Get_Handler_SP,
}

/// The first-level class number of `op`.
pub open spec fn spec_op_code(op: Op) -> u64 {
    match op {
        Op::CallI => 0,
        Op::PushI => 1,
        Op::PushrelI => 2,
        Op::JumpI => 3,
        Op::JumpzI => 4,
        Op::Trap => 5,
    }
}

/// The second-level opcode number of `insn`.
pub open spec fn spec_insn_code(insn: Insn) -> u64 {
    match insn {
        Insn::Nop => 0x00,
        Insn::Not => 0x01,
        Insn::And => 0x02,
        Insn::Or => 0x03,
        Insn::Xor => 0x04,
        Insn::LShift => 0x05,
        Insn::RShift => 0x06,
        Insn::ARShift => 0x07,
        Insn::Pop => 0x08,
        Insn::Dup => 0x09,
        Insn::SetSlot => 0x0a,
        Insn::Swap => 0x0b,
        Insn::Jump => 0x0c,
        Insn::JumpZ => 0x0d,
        Insn::Call => 0x0e,
        Insn::Ret => 0x0f,
        Insn::Load => 0x10,
        Insn::Store => 0x11,
        Insn::Load1 => 0x12,
        Insn::Store1 => 0x13,
        Insn::Load2 => 0x14,
        Insn::Store2 => 0x15,
        Insn::Load4 => 0x16,
        Insn::Store4 => 0x17,
        Insn::Neg => 0x18,
        Insn::Add => 0x19,
        Insn::Mul => 0x1a,
        Insn::DivMod => 0x1b,
        Insn::UDivMod => 0x1c,
        Insn::Eq => 0x1d,
        Insn::Lt => 0x1e,
        Insn::ULt => 0x1f,
        Insn::PushR => 0x20,
        Insn::PopR => 0x21,
        Insn::DupR => 0x22,
        Insn::Catch => 0x23,
        Insn::Throw => 0x24,
        Insn::Break => 0x25,
        Insn::Word_Bytes => 0x26,
        Insn::Get_M0 => 0x27,
        Insn::Get_MSize => 0x28,
        Insn::Get_SSize => 0x29,
        Insn::Get_SP => 0x2a,
        Insn::Set_SP => 0x2b,
        Insn::Get_DSize => 0x2c,
        Insn::Get_DP => 0x2d,
        Insn::Set_DP => 0x2e,
        Insn::Get_Handler_SP => 0x2f,
    }
}

impl Op {
    /// The first-level class number.
    pub fn code(self) -> (r: u64)
        ensures
            r == spec_op_code(self),
    {
        match self {
            Op::CallI => 0,
            Op::PushI => 1,
            Op::PushrelI => 2,
            Op::JumpI => 3,
            Op::JumpzI => 4,
            Op::Trap => 5,
        }
    }
}

impl Insn {
    /// The second-level opcode number.
    pub fn code(self) -> (r: u64)
        ensures
            r == spec_insn_code(self),
    {
        match self {
            Insn::Nop => 0x00,
            Insn::Not => 0x01,
            Insn::And => 0x02,
            Insn::Or => 0x03,
            Insn::Xor => 0x04,
            Insn::LShift => 0x05,
            Insn::RShift => 0x06,
            Insn::ARShift => 0x07,
            Insn::Pop => 0x08,
            Insn::Dup => 0x09,
            Insn::SetSlot => 0x0a,
            Insn::Swap => 0x0b,
            Insn::Jump => 0x0c,
            Insn::JumpZ => 0x0d,
            Insn::Call => 0x0e,
            Insn::Ret => 0x0f,
            Insn::Load => 0x10,
            Insn::Store => 0x11,
            Insn::Load1 => 0x12,
            Insn::Store1 => 0x13,
            Insn::Load2 => 0x14,
            Insn::Store2 => 0x15,
            Insn::Load4 => 0x16,
            Insn::Store4 => 0x17,
            Insn::Neg => 0x18,
            Insn::Add => 0x19,
            Insn::Mul => 0x1a,
            Insn::DivMod => 0x1b,
            Insn::UDivMod => 0x1c,
            Insn::Eq => 0x1d,
            Insn::Lt => 0x1e,
            Insn::ULt => 0x1f,
            Insn::PushR => 0x20,
            Insn::PopR => 0x21,
            Insn::DupR => 0x22,
            Insn::Catch => 0x23,
            Insn::Throw => 0x24,
            Insn::Break => 0x25,
            Insn::Word_Bytes => 0x26,
            Insn::Get_M0 => 0x27,
            Insn::Get_MSize => 0x28,
            Insn::Get_SSize => 0x29,
            Insn::Get_SP => 0x2a,
            Insn::Set_SP => 0x2b,
            Insn::Get_DSize => 0x2c,
            Insn::Get_DP => 0x2d,
            Insn::Set_DP => 0x2e,
            Insn::Get_Handler_SP => 0x2f,
        }
    }
}

/// The handler an instruction word selects: a first-level handler, a
/// second-level handler, or the deoptimization handler. `decode` is a total
/// function, so every word selects exactly one of these.
#[derive(Clone, Copy, PartialEq, Eq, Structural, Debug)]
pub enum Dispatch {
    /// A populated first-level handler. `Trap`'s handler is the
    /// deoptimization transfer itself.
    Compact(Op),
    /// A populated second-level handler.
    Extended(Insn),
    /// No populated handler: the word deoptimizes.
    Deopt,
}

/// The second-level instruction with opcode number `i`, if any.
pub open spec fn insn_from_code(i: u64) -> Option<Insn> {
    if i == 0x00 {
        Some(Insn::Nop)
    } else if i == 0x01 {
        Some(Insn::Not)
    } else if i == 0x02 {
        Some(Insn::And)
    } else if i == 0x03 {
        Some(Insn::Or)
    } else if i == 0x04 {
        Some(Insn::Xor)
    } else if i == 0x05 {
        Some(Insn::LShift)
    } else if i == 0x06 {
        Some(Insn::RShift)
    } else if i == 0x07 {
        Some(Insn::ARShift)
    } else if i == 0x08 {
        Some(Insn::Pop)
    } else if i == 0x09 {
        Some(Insn::Dup)
    } else if i == 0x0a {
        Some(Insn::SetSlot)
    } else if i == 0x0b {
        Some(Insn::Swap)
    } else if i == 0x0c {
        Some(Insn::Jump)
    } else if i == 0x0d {
        Some(Insn::JumpZ)
    } else if i == 0x0e {
        Some(Insn::Call)
    } else if i == 0x0f {
        Some(Insn::Ret)
    } else if i == 0x10 {
        Some(Insn::Load)
    } else if i == 0x11 {
        Some(Insn::Store)
    } else if i == 0x12 {
        Some(Insn::Load1)
    } else if i == 0x13 {
        Some(Insn::Store1)
    } else if i == 0x14 {
        Some(Insn::Load2)
    } else if i == 0x15 {
        Some(Insn::Store2)
    } else if i == 0x16 {
        Some(Insn::Load4)
    } else if i == 0x17 {
        Some(Insn::Store4)
    } else if i == 0x18 {
        Some(Insn::Neg)
    } else if i == 0x19 {
        Some(Insn::Add)
    } else if i == 0x1a {
        Some(Insn::Mul)
    } else if i == 0x1b {
        Some(Insn::DivMod)
    } else if i == 0x1c {
        Some(Insn::UDivMod)
    } else if i == 0x1d {
        Some(Insn::Eq)
    } else if i == 0x1e {
        Some(Insn::Lt)
    } else if i == 0x1f {
        Some(Insn::ULt)
    } else if i == 0x20 {
        Some(Insn::PushR)
    } else if i == 0x21 {
        Some(Insn::PopR)
    } else if i == 0x22 {
        Some(Insn::DupR)
    } else if i == 0x23 {
        Some(Insn::Catch)
    } else if i == 0x24 {
        Some(Insn::Throw)
    } else if i == 0x25 {
        Some(Insn::Break)
    } else if i == 0x26 {
        Some(Insn::Word_Bytes)
    } else if i == 0x27 {
        Some(Insn::Get_M0)
    } else if i == 0x28 {
        Some(Insn::Get_MSize)
    } else if i == 0x29 {
        Some(Insn::Get_SSize)
    } else if i == 0x2a {
        Some(Insn::Get_SP)
    } else if i == 0x2b {
        Some(Insn::Set_SP)
    } else if i == 0x2c {
        Some(Insn::Get_DSize)
    } else if i == 0x2d {
        Some(Insn::Get_DP)
    } else if i == 0x2e {
        Some(Insn::Set_DP)
    } else if i == 0x2f {
        Some(Insn::Get_Handler_SP)
    } else {
        None
    }
}

/// The first-level instruction with class number `c`, if any. Classes 6
/// and 7 name no compact instruction.
pub open spec fn op_from_code(c: u64) -> Option<Op> {
    if c == 0 {
        Some(Op::CallI)
    } else if c == 1 {
        Some(Op::PushI)
    } else if c == 2 {
        Some(Op::PushrelI)
    } else if c == 3 {
        Some(Op::JumpI)
    } else if c == 4 {
        Some(Op::JumpzI)
    } else if c == 5 {
        Some(Op::Trap)
    } else {
        None
    }
}

/// The handler the instruction word `w` selects: exactly one first-level
/// handler, second-level handler or deoptimization transfer. Opcodes the
/// tables leave unpopulated — class 6, the reserved second-level range and
/// the unimplemented instructions past `DupR` — decode to `Deopt`.
pub open spec fn decode(w: u64) -> Dispatch {
    let c = w & 7;
    if c < 7 {
        match op_from_code(c) {
            Some(op) => Dispatch::Compact(op),
            None => Dispatch::Deopt,
        }
    } else {
        let i = (w >> 3) & 63;
        match insn_from_code(i) {
            Some(insn) => if spec_insn_code(insn) <= 0x22 {
                Dispatch::Extended(insn)
            } else {
                Dispatch::Deopt
            },
            None => Dispatch::Deopt,
        }
    }
}

} // verus!
