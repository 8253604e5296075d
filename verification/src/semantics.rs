//! The meaning of engine-level code: a state model and a semantics for
//! [`Action`] sequences, endings and whole extended basic blocks.
//!
//! The state keeps one region per alias class — data stack, return stack,
//! general memory (which includes the code the program counter walks) and
//! the host state record — reflecting the rule that operations tagged with
//! different classes touch disjoint memory. Accesses are executed in program
//! order, which is one of the orders the engine is permitted to produce.
//!
//! Partiality is explicit: an action that the model gives no meaning (a
//! division by zero the handlers must guard against, an out-of-range access,
//! a write to a global) yields `None`. Shift amounts are taken modulo the
//! word size, as the supported native targets do.

use vstd::prelude::*;

use crate::code::{spec_width_bytes, Action, AliasClass, BinaryOp, Ebb, Ending, Global, Reg, Switch, UnaryOp,
    Variable, Width};
use crate::registers::{record_read, record_write, Registers};

verus! {

/// The values of the twelve native working registers.
#[derive(Clone, Copy, PartialEq, Eq, Structural, Debug)]
pub struct RegBank {
    pub temp: u64,
    pub r1: u64,
    pub r2: u64,
    pub pc: u64,
    pub s0: u64,
    pub sp: u64,
    pub ssize: u64,
    pub d0: u64,
    pub dp: u64,
    pub dsize: u64,
    pub opcode: u64,
    pub test: u64,
}

/// The value register `r` holds in bank `b`.
pub open spec fn read_reg(b: RegBank, r: Reg) -> u64 {
    match r {
        Reg::Temp => b.temp,
        Reg::R1 => b.r1,
        Reg::R2 => b.r2,
        Reg::Pc => b.pc,
        Reg::S0 => b.s0,
        Reg::Sp => b.sp,
        Reg::SSize => b.ssize,
        Reg::D0 => b.d0,
        Reg::Dp => b.dp,
        Reg::DSize => b.dsize,
        Reg::Opcode => b.opcode,
        Reg::Test => b.test,
    }
}

/// Bank `b` with register `r` set to `v`.
pub open spec fn write_reg(b: RegBank, r: Reg, v: u64) -> RegBank {
    match r {
        Reg::Temp => RegBank { temp: v, ..b },
        Reg::R1 => RegBank { r1: v, ..b },
        Reg::R2 => RegBank { r2: v, ..b },
        Reg::Pc => RegBank { pc: v, ..b },
        Reg::S0 => RegBank { s0: v, ..b },
        Reg::Sp => RegBank { sp: v, ..b },
        Reg::SSize => RegBank { ssize: v, ..b },
        Reg::D0 => RegBank { d0: v, ..b },
        Reg::Dp => RegBank { dp: v, ..b },
        Reg::DSize => RegBank { dsize: v, ..b },
        Reg::Opcode => RegBank { opcode: v, ..b },
        Reg::Test => RegBank { test: v, ..b },
    }
}

/// The machine state the action semantics runs over. Each alias class has
/// its own region: the two stacks hold whole 8-byte slots and are addressed
/// relative to their base addresses; general memory is a byte region
/// addressed from zero; the host state record is addressed relative to the
/// base held in global 0.
#[verifier::ext_equal]
pub struct MachineState {
    /// The native working registers.
    pub regs: RegBank,
    /// The value of global 0: the address of the host state record.
    pub g0: u64,
    /// The host state record.
    pub record: Registers,
    /// Base address of the data-stack region.
    pub dbase: u64,
    /// The data-stack region: slot `k` lives at address `dbase + 8 * k`.
    pub dstack: Seq<u64>,
    /// Base address of the return-stack region.
    pub rbase: u64,
    /// The return-stack region: slot `k` lives at address `rbase + 8 * k`.
    pub rstack: Seq<u64>,
    /// General memory, one byte per address, addresses `0 .. mem.len()`.
    pub mem: Seq<u8>,
}

/// State `s` with register `r` set to `v`.
pub open spec fn with_reg(s: MachineState, r: Reg, v: u64) -> MachineState {
    MachineState { regs: write_reg(s.regs, r, v), ..s }
}

/// `x` reduced to the 64-bit machine word it denotes.
pub open spec fn w64(x: int) -> u64 {
    (x % 0x1_0000_0000_0000_0000) as u64
}

/// `x` with the sign of its 64-bit pattern, as an unbounded integer.
pub open spec fn as_signed(x: u64) -> int {
    x as i64 as int
}

/// The absolute value of `x`.
pub open spec fn abs_i(x: int) -> int {
    if x < 0 {
        -x
    } else {
        x
    }
}

/// Division truncated towards zero, as native signed division rounds.
pub open spec fn tdiv(x: int, y: int) -> int {
    if (x < 0) != (y < 0) {
        -(abs_i(x) / abs_i(y))
    } else {
        abs_i(x) / abs_i(y)
    }
}

/// The value a variable denotes: a register's content, or the single
/// persistent global. Only global 0 exists.
pub open spec fn eval_var(s: MachineState, v: Variable) -> Option<u64> {
    match v {
        Variable::Register(r) => Some(read_reg(s.regs, r)),
        Variable::Global(g) => if g == (Global(0)) {
            Some(s.g0)
        } else {
            None
        },
    }
}

/// The result of a unary operation on `a`, at 64-bit precision.
pub open spec fn unary_sem(op: UnaryOp, a: u64) -> u64 {
    match op {
        UnaryOp::Abs => w64(abs_i(as_signed(a))),
        UnaryOp::Negate => w64(0 - a as int),
        UnaryOp::Not => !a,
    }
}

/// The result of a binary operation on `a` and `b`, at 64-bit precision.
/// Division is truncated; the divisions the handlers must guard against
/// (divisor zero, and the one overflowing signed case) have no meaning.
/// Comparisons yield a `0`/`1` flag.
pub open spec fn binary_sem(op: BinaryOp, a: u64, b: u64) -> Option<u64> {
    match op {
        BinaryOp::Add => Some(w64(a + b)),
        BinaryOp::Sub => Some(w64(a - b)),
        BinaryOp::Mul => Some(w64(a * b)),
        BinaryOp::UDiv => if b == 0 {
            None
        } else {
            Some(a / b)
        },
        BinaryOp::SDiv => if b == 0 || (as_signed(a) == i64::MIN && as_signed(b) == -1) {
            None
        } else {
            Some(w64(tdiv(as_signed(a), as_signed(b))))
        },
        BinaryOp::Lsl => Some(a << (b & 63)),
        BinaryOp::Lsr => Some(a >> (b & 63)),
        BinaryOp::Asr => Some(((a as i64) >> (b & 63)) as u64),
        BinaryOp::And => Some(a & b),
        BinaryOp::Or => Some(a | b),
        BinaryOp::Xor => Some(a ^ b),
        BinaryOp::Lt => if (a as i64) < (b as i64) {
            Some(1)
        } else {
            Some(0)
        },
        BinaryOp::Ult => if a < b {
            Some(1)
        } else {
            Some(0)
        },
        BinaryOp::Eq => if a == b {
            Some(1)
        } else {
            Some(0)
        },
    }
}

/// `256 ^ n`: the number of values `n` bytes can hold.
pub open spec fn p8(n: nat) -> int
    decreases n,
{
    if n == 0 {
        1
    } else {
        256 * p8((n - 1) as nat)
    }
}

/// The little-endian value of the `n` bytes of `m` starting at address `a`.
pub open spec fn rd(m: Seq<u8>, a: int, n: nat) -> int
    decreases n,
{
    if n == 0 {
        0
    } else {
        m[a] + 256 * rd(m, a + 1, (n - 1) as nat)
    }
}

/// `m` with the low `n` bytes of `v` written little-endian at address `a`.
pub open spec fn wr(m: Seq<u8>, a: int, v: int, n: nat) -> Seq<u8>
    decreases n,
{
    if n == 0 {
        m
    } else {
        wr(m.update(a, (v % 256) as u8), a + 1, v / 256, (n - 1) as nat)
    }
}

/// The 8-byte stack slot at address `a` of the stack region based at
/// `base`, if `a` is an in-range, slot-aligned address and the access is
/// word-sized.
pub open spec fn stack_slot(base: u64, len: int, a: u64, width: Width) -> Option<int> {
    let off = a as int - base as int;
    if width == Width::Eight && off >= 0 && off % 8 == 0 && off / 8 < len {
        Some(off / 8)
    } else {
        None
    }
}

/// The value a load of `width` bytes at address `a`, tagged with `class`,
/// reads from state `s`.
pub open spec fn class_load(s: MachineState, class: AliasClass, a: u64, width: Width) -> Option<
    u64,
> {
    match class {
        AliasClass::DataStack => match stack_slot(s.dbase, s.dstack.len() as int, a, width) {
            Some(k) => Some(s.dstack[k]),
            None => None,
        },
        AliasClass::ReturnStack => match stack_slot(s.rbase, s.rstack.len() as int, a, width) {
            Some(k) => Some(s.rstack[k]),
            None => None,
        },
        AliasClass::HostRecord => if width == Width::Eight {
            record_read(s.record, a as int - s.g0 as int)
        } else {
            None
        },
        AliasClass::Memory => if a + spec_width_bytes(width) <= s.mem.len() {
            Some(rd(s.mem, a as int, spec_width_bytes(width) as nat) as u64)
        } else {
            None
        },
    }
}

/// State `s` after a store of the low `width` bytes of `v` at address `a`,
/// tagged with `class`. Only the region of `class` changes.
pub open spec fn class_store(
    s: MachineState,
    class: AliasClass,
    a: u64,
    width: Width,
    v: u64,
) -> Option<MachineState> {
    match class {
        AliasClass::DataStack => match stack_slot(s.dbase, s.dstack.len() as int, a, width) {
            Some(k) => Some(MachineState { dstack: s.dstack.update(k, v), ..s }),
            None => None,
        },
        AliasClass::ReturnStack => match stack_slot(s.rbase, s.rstack.len() as int, a, width) {
            Some(k) => Some(MachineState { rstack: s.rstack.update(k, v), ..s }),
            None => None,
        },
        AliasClass::HostRecord => if width == Width::Eight {
            match record_write(s.record, a as int - s.g0 as int, v) {
                Some(rec) => Some(MachineState { record: rec, ..s }),
                None => None,
            }
        } else {
            None
        },
        AliasClass::Memory => if a + spec_width_bytes(width) <= s.mem.len() {
            Some(MachineState { mem: wr(s.mem, a as int, v as int, spec_width_bytes(width) as nat), ..s })
        } else {
            None
        },
    }
}

/// The state after one action, or `None` where the model gives the action
/// no meaning.
pub open spec fn step_action(s: MachineState, action: Action) -> Option<MachineState> {
    match action {
        Action::Move(dest, src) => match (dest, eval_var(s, src)) {
            (Variable::Register(r), Some(v)) => Some(with_reg(s, r, v)),
            _ => None,
        },
        Action::Constant(dest, value) => Some(with_reg(s, dest, value as u64)),
        Action::Unary(op, dest, src) => match eval_var(s, src) {
            Some(a) => Some(with_reg(s, dest, unary_sem(op, a))),
            None => None,
        },
        Action::Binary(op, dest, src1, src2) => match (eval_var(s, src1), eval_var(s, src2)) {
            (Some(a), Some(b)) => match binary_sem(op, a, b) {
                Some(v) => Some(with_reg(s, dest, v)),
                None => None,
            },
            _ => None,
        },
        Action::Load(dest, addr, width, class) => match eval_var(s, addr) {
            Some(a) => match class_load(s, class, a, width) {
                Some(v) => Some(with_reg(s, dest, v)),
                None => None,
            },
            None => None,
        },
        Action::Store(dest, src, addr, width, class) => match (
            eval_var(s, src),
            eval_var(s, addr),
        ) {
            (Some(v), Some(a)) => match class_store(s, class, a, width, v) {
                Some(s2) => Some(with_reg(s2, dest, a)),
                None => None,
            },
            _ => None,
        },
        Action::Debug(src) => match eval_var(s, src) {
            Some(_) => Some(s),
            None => None,
        },
    }
}

/// The state after the actions `acts[i ..]`, run in order from `s`.
pub open spec fn run_actions_from(s: MachineState, acts: Seq<Action>, i: int) -> Option<
    MachineState,
>
    decreases acts.len() - i,
{
    if i < 0 || i > acts.len() {
        None
    } else if i == acts.len() {
        Some(s)
    } else {
        match step_action(s, acts[i]) {
            Some(s2) => run_actions_from(s2, acts, i + 1),
            None => None,
        }
    }
}

/// The state after the whole action sequence `acts`, run in order from `s`.
pub open spec fn run_actions(s: MachineState, acts: Seq<Action>) -> Option<MachineState> {
    run_actions_from(s, acts, 0)
}

/// Where control goes when `ending` is reached in state `s`: the entry
/// point transferred to, and the state on arrival. A switch selects the
/// case at the discriminant's value and routes any out-of-range value to
/// the default, so every value selects exactly one continuation.
pub open spec fn run_ending<T>(s: MachineState, ending: Ending<T>) -> Option<(MachineState, T)>
    decreases ending,
{
    match ending {
        Ending::Leaf(t) => Some((s, t)),
        Ending::Switch(sw) => match eval_var(s, sw.discriminant) {
            Some(d) => if d < sw.cases@.len() {
                run_ebb(s, sw.cases@[d as int])
            } else {
                run_ebb(s, *sw.default_)
            },
            None => None,
        },
    }
}

/// The entry point an extended basic block transfers to when run from `s`,
/// and the state on arrival; `None` where some action has no meaning.
pub open spec fn run_ebb<T>(s: MachineState, ebb: Ebb<T>) -> Option<(MachineState, T)>
    decreases ebb,
{
    match run_actions(s, ebb.actions@) {
        Some(s1) => run_ending(s1, ebb.ending),
        None => None,
    }
}

/// Reading back the `n` bytes just written at `a` yields the written value,
/// reduced to `n` bytes; `n` bytes hold exactly the values below `p8(n)`.
pub proof fn lemma_rd_wr_same(m: Seq<u8>, a: int, v: int, n: nat)
    requires
        0 <= a,
        a + n <= m.len(),
        0 <= v,
    ensures
        rd(wr(m, a, v, n), a, n) == v % p8(n),
    decreases n,
{
    lemma_p8_positive(n);
    if n == 0 {
        assert(v % 1 == 0) by (nonlinear_arith);
    } else {
        let m1 = m.update(a, (v % 256) as u8);
        let w = wr(m1, a + 1, v / 256, (n - 1) as nat);
        lemma_rd_wr_same(m1, a + 1, v / 256, (n - 1) as nat);
        lemma_wr_frame(m1, a + 1, v / 256, (n - 1) as nat);
        assert(w[a] == m1[a]);
        assert(w[a] == v % 256);
        lemma_p8_positive((n - 1) as nat);
        vstd::arithmetic::div_mod::lemma_mod_breakdown(v, 256, p8((n - 1) as nat));
        assert(p8(n) == 256 * p8((n - 1) as nat));
    }
}

/// Writing `n` bytes at `a` changes no byte outside `a .. a + n`, and keeps
/// the region's length.
pub proof fn lemma_wr_frame(m: Seq<u8>, a: int, v: int, n: nat)
    requires
        0 <= a,
        a + n <= m.len(),
    ensures
        wr(m, a, v, n).len() == m.len(),
        forall|j: int|
            0 <= j < m.len() && !(a <= j < a + n) ==> wr(m, a, v, n)[j] == m[j],
    decreases n,
{
    if n > 0 {
        let m1 = m.update(a, (v % 256) as u8);
        lemma_wr_frame(m1, a + 1, v / 256, (n - 1) as nat);
        assert forall|j: int| 0 <= j < m.len() && !(a <= j < a + n) implies wr(
            m,
            a,
            v,
            n,
        )[j] == m[j] by {
            assert(wr(m, a, v, n) == wr(m1, a + 1, v / 256, (n - 1) as nat));
            assert(m1[j] == m[j]);
        }
    }
}

/// `p8` is positive.
pub proof fn lemma_p8_positive(n: nat)
    ensures
        p8(n) >= 1,
    decreases n,
{
    if n > 0 {
        lemma_p8_positive((n - 1) as nat);
    }
}

/// `n` bytes read little-endian always denote a value below `p8(n)`.
pub proof fn lemma_rd_bound(m: Seq<u8>, a: int, n: nat)
    ensures
        0 <= rd(m, a, n) < p8(n),
    decreases n,
{
    if n > 0 {
        lemma_rd_bound(m, a + 1, (n - 1) as nat);
        assert(m[a] < 256);
        assert(256 * rd(m, a + 1, (n - 1) as nat) <= 256 * (p8((n - 1) as nat) - 1))
            by (nonlinear_arith)
            requires rd(m, a + 1, (n - 1) as nat) <= p8((n - 1) as nat) - 1;
    }
}

} // verus!
