//! The data model of engine-level code: micro-operations ([`Action`]),
//! extended basic blocks ([`Ebb`]) and multi-way branches ([`Switch`]).
//!
//! The compilation engine that finally turns these blocks into native code
//! works on its own mirror of this model; the machine definition here is
//! built, and verified, entirely over these plain values. All arithmetic
//! actions operate at the fixed machine-word precision of 64 bits.

use vstd::prelude::*;

verus! {

/// A native working register. The machine definition reserves `Temp` as the
/// single designated scratch register; it never holds state that is live
/// across an instruction boundary.
#[derive(Clone, Copy, PartialEq, Eq, Structural, Debug)]
pub enum Reg {
    /// The global scratch register.
    Temp,
    /// General working register 1.
    R1,
    /// General working register 2.
    R2,
    /// The virtual machine's program counter.
    Pc,
    /// Base of the return stack.
    S0,
    /// Return-stack pointer (held biased: "top of stack", not "next free").
    Sp,
    /// Size of the return stack.
    SSize,
    /// Base of the data stack.
    D0,
    /// Data-stack pointer (held biased: "top of stack", not "next free").
    Dp,
    /// Size of the data stack.
    DSize,
    /// The instruction word being decoded.
    Opcode,
    /// Scratch register for computed conditions.
    Test,
}

/// Names a value that persists while the engine is not running. The machine
/// uses a single global, which holds the address of the host state record.
#[derive(Clone, Copy, PartialEq, Eq, Structural, Debug)]
pub struct Global(pub usize);

/// An operand: either a working register or a persistent global.
#[derive(Clone, Copy, PartialEq, Eq, Structural, Debug)]
pub enum Variable {
    Register(Reg),
    Global(Global),
}

/// Unary arithmetic operations, at 64-bit precision.
#[derive(Clone, Copy, PartialEq, Eq, Structural, Debug)]
pub enum UnaryOp {
    Abs,
    Negate,
    Not,
}

/// Binary arithmetic and logical operations, at 64-bit precision.
/// The comparisons `Lt`, `Ult` and `Eq` compute a `0`/`1` flag.
#[derive(Clone, Copy, PartialEq, Eq, Structural, Debug)]
pub enum BinaryOp {
    Add,
    Sub,
    Mul,
    UDiv,
    SDiv,
    Lsl,
    Lsr,
    Asr,
    And,
    Or,
    Xor,
    Lt,
    Ult,
    Eq,
}

/// The number of bytes transferred by a memory access.
#[derive(Clone, Copy, PartialEq, Eq, Structural, Debug)]
pub enum Width {
    One,
    Two,
    Four,
    Eight,
}

/// The base-2 logarithm of the number of bytes `w` transfers.
pub open spec fn spec_log2_bytes(w: Width) -> u64 {
    match w {
        Width::One => 0,
        Width::Two => 1,
        Width::Four => 2,
        Width::Eight => 3,
    }
}

/// The number of bytes `w` transfers.
pub open spec fn spec_width_bytes(w: Width) -> u64 {
    match w {
        Width::One => 1,
        Width::Two => 2,
        Width::Four => 4,
        Width::Eight => 8,
    }
}

impl Width {
    /// The base-2 logarithm of the number of bytes transferred.
    pub fn log2_bytes(self) -> (r: u64)
        ensures
            r == spec_log2_bytes(self),
    {
        match self {
            Width::One => 0,
            Width::Two => 1,
            Width::Four => 2,
            Width::Eight => 3,
        }
    }

    /// The number of bytes transferred.
    pub fn bytes(self) -> (r: u64)
        ensures
            r == spec_width_bytes(self),
    {
        match self {
            Width::One => 1,
            Width::Two => 2,
            Width::Four => 4,
            Width::Eight => 8,
        }
    }
}

/// A tag partitioning memory operations into disjoint, non-aliasing groups.
/// Operations tagged with different classes touch disjoint memory and may be
/// freely reordered by the engine; operations sharing a class keep program
/// order. Every load and store must carry the class of the region it
/// actually touches.
#[derive(Clone, Copy, PartialEq, Eq, Structural, Debug)]
pub enum AliasClass {
    /// The guest data stack.
    DataStack,
    /// The guest return stack.
    ReturnStack,
    /// General memory, including the code the program counter walks.
    Memory,
    /// The host state record.
    HostRecord,
}

/// One micro-operation. The destination register, where there is one, comes
/// first. All arithmetic is at 64-bit precision.
#[derive(Clone, Copy, PartialEq, Eq, Structural, Debug)]
pub enum Action {
    /// `dest <- src`.
    Move(Variable, Variable),
    /// `dest <- constant`.
    Constant(Reg, i64),
    /// `dest <- op(src)`.
    Unary(UnaryOp, Reg, Variable),
    /// `dest <- op(src1, src2)`.
    Binary(BinaryOp, Reg, Variable, Variable),
    /// `dest <- [addr]`, reading `width` bytes in the given alias class.
    Load(Reg, Variable, Width, AliasClass),
    /// `dest <- addr; [addr] <- src`, writing `width` bytes in the given
    /// alias class. `dest` exists to make the engine allocate a scratch
    /// register for the address.
    Store(Reg, Variable, Variable, Width, AliasClass),
    /// Hand `src` to a diagnostic probe; no other effect.
    Debug(Variable),
}

/// A multi-way branch: selects `cases[discriminant]` when the discriminant's
/// value is in range, and `default_` otherwise, so every discriminant value
/// selects exactly one continuation.
pub struct Switch<T> {
    pub discriminant: Variable,
    pub cases: Vec<Ebb<T>>,
    pub default_: Box<Ebb<T>>,
}

/// How control leaves an [`Ebb`]: either a direct transfer to a named entry
/// point, or a [`Switch`]. There is no fall-through past an ending.
pub enum Ending<T> {
    /// Control transfers to a pre-existing entry point.
    Leaf(T),
    /// Control diverges.
    Switch(Switch<T>),
}

/// An extended basic block: a straight-line action sequence terminated by
/// exactly one [`Ending`].
pub struct Ebb<T> {
    pub actions: Vec<Action>,
    pub ending: Ending<T>,
}

impl<T> Switch<T> {
    /// Selects `cases[discriminant]` if in range, and `default_` otherwise.
    pub fn new(discriminant: Variable, cases: Vec<Ebb<T>>, default_: Ebb<T>) -> (r: Switch<T>)
        ensures
            r.discriminant == discriminant,
            r.cases == cases,
            *r.default_ == default_,
    {
        Switch { discriminant, cases, default_: Box::new(default_) }
    }

    /// Selects `if_true` when `condition` is non-zero, and `if_false` when it
    /// is zero.
    pub fn if_(condition: Variable, if_true: Ebb<T>, if_false: Ebb<T>) -> (r: Switch<T>)
        ensures
            r.discriminant == condition,
            r.cases@ =~= seq![if_false],
            *r.default_ == if_true,
    {
        Switch::new(condition, vec![if_false], if_true)
    }
}

} // verus!
