//! The machine definition: the register-to-state mapping made executable as
//! a marshal, the two-level dispatch loop, and one handler block per
//! opcode, all assembled with the [`Builder`] into an arena of entry
//! points. The compilation engine compiles this arena; nothing here
//! executes it.
//!
//! [`Builder`]: crate::builder::Builder

use vstd::prelude::*;

use crate::code::{spec_width_bytes, Action, AliasClass, BinaryOp, Ebb, Ending, Global, Reg,
    Switch, UnaryOp, Variable, Width};
use crate::builder::{const_binary_actions, load_actions, pop_actions, push_actions,
    run_guarded, store_actions, Builder, Guard};
use crate::builder::{array_load_actions, array_store_actions};
use crate::registers::{spec_offsets, Registers, D0_OFF, DP_OFF, DSIZE_OFF, HANDLER_SP_OFF,
    PC_OFF, S0_OFF, SP_OFF, SSIZE_OFF};
use crate::semantics::{as_signed, binary_sem, eval_var, read_reg, rd, tdiv, wr, run_actions,
    run_actions_from,
    run_ebb, run_ending, step_action, unary_sem, w64, with_reg, write_reg, MachineState,
    RegBank};
use crate::EntryId;

verus! {

/// The status `run` reports when execution left through the
/// deoptimization exit: the single normal, voluntary way out of compiled
/// code. The host then interprets the faulting instruction itself.
pub const NOT_IMPLEMENTED: i64 = 0;

/// A status that no exit ever reports: entries that compiled code never
/// leaves through carry it, so seeing it is a host-visible anomaly.
pub const UNDEFINED: i64 = i64::MAX;

/// The code run on entry to and exit from compiled execution: the
/// prologue loads every mapped state-record field into its native register
/// and applies the stack-pointer bias; the epilogue undoes both. It runs
/// exactly once per entry/exit crossing, never per instruction.
pub struct Marshal {
    pub prologue: Vec<Action>,
    pub epilogue: Vec<Action>,
}

/// One dispatch target in the arena: its marshal, the status reported if
/// execution exits here, and its body, absent until defined. An entry
/// whose body is never defined is an exit point.
pub struct Entry {
    pub marshal: Marshal,
    pub exit_value: i64,
    pub body: Option<Ebb<EntryId>>,
}

/// The machine definition: an arena of entry points, built once and
/// immutable afterwards, and the distinguished root entry the dispatch
/// loop starts at.
pub struct Bee {
    pub entries: Vec<Entry>,
    pub root: EntryId,
}

// ---------------------------------------------------------------------------
// The marshal's action sequences.

/// The operand naming the single persistent global: the address of the
/// host state record.
pub open spec fn g0() -> Variable {
    Variable::Global(Global(0))
}

/// The prologue: load each mapped field into its register, then bias both
/// stack pointers from "next free slot" to "top of stack".
pub open spec fn prologue_actions() -> Seq<Action> {
    load_actions(Reg::Pc, g0(), PC_OFF as i64, Width::Eight, AliasClass::HostRecord)
        + load_actions(Reg::S0, g0(), S0_OFF as i64, Width::Eight, AliasClass::HostRecord)
        + load_actions(Reg::Sp, g0(), SP_OFF as i64, Width::Eight, AliasClass::HostRecord)
        + load_actions(Reg::SSize, g0(), SSIZE_OFF as i64, Width::Eight, AliasClass::HostRecord)
        + load_actions(Reg::D0, g0(), D0_OFF as i64, Width::Eight, AliasClass::HostRecord)
        + load_actions(Reg::Dp, g0(), DP_OFF as i64, Width::Eight, AliasClass::HostRecord)
        + load_actions(Reg::DSize, g0(), DSIZE_OFF as i64, Width::Eight, AliasClass::HostRecord)
        + const_binary_actions(BinaryOp::Sub, Reg::Sp, Variable::Register(Reg::Sp), 1)
        + const_binary_actions(BinaryOp::Sub, Reg::Dp, Variable::Register(Reg::Dp), 1)
}

/// The epilogue: undo the bias, then store each register back to its
/// field.
pub open spec fn epilogue_actions() -> Seq<Action> {
    const_binary_actions(BinaryOp::Add, Reg::Sp, Variable::Register(Reg::Sp), 1)
        + const_binary_actions(BinaryOp::Add, Reg::Dp, Variable::Register(Reg::Dp), 1)
        + store_actions(Variable::Register(Reg::Pc), g0(), PC_OFF as i64, Width::Eight,
            AliasClass::HostRecord)
        + store_actions(Variable::Register(Reg::S0), g0(), S0_OFF as i64, Width::Eight,
            AliasClass::HostRecord)
        + store_actions(Variable::Register(Reg::Sp), g0(), SP_OFF as i64, Width::Eight,
            AliasClass::HostRecord)
        + store_actions(Variable::Register(Reg::SSize), g0(), SSIZE_OFF as i64, Width::Eight,
            AliasClass::HostRecord)
        + store_actions(Variable::Register(Reg::D0), g0(), D0_OFF as i64, Width::Eight,
            AliasClass::HostRecord)
        + store_actions(Variable::Register(Reg::Dp), g0(), DP_OFF as i64, Width::Eight,
            AliasClass::HostRecord)
        + store_actions(Variable::Register(Reg::DSize), g0(), DSIZE_OFF as i64, Width::Eight,
            AliasClass::HostRecord)
}

/// Builds the marshal, with its two action sequences pinned exactly.
pub fn build_marshal() -> (m: Marshal)
    ensures
        m.prologue@ == prologue_actions(),
        m.epilogue@ == epilogue_actions(),
{
    let mut b: Builder<()> = Builder::new();
    b.load(Reg::Pc, g0_var(), PC_OFF as i64, Width::Eight, AliasClass::HostRecord);
    b.load(Reg::S0, g0_var(), S0_OFF as i64, Width::Eight, AliasClass::HostRecord);
    b.load(Reg::Sp, g0_var(), SP_OFF as i64, Width::Eight, AliasClass::HostRecord);
    b.load(Reg::SSize, g0_var(), SSIZE_OFF as i64, Width::Eight, AliasClass::HostRecord);
    b.load(Reg::D0, g0_var(), D0_OFF as i64, Width::Eight, AliasClass::HostRecord);
    b.load(Reg::Dp, g0_var(), DP_OFF as i64, Width::Eight, AliasClass::HostRecord);
    b.load(Reg::DSize, g0_var(), DSIZE_OFF as i64, Width::Eight, AliasClass::HostRecord);
    b.const_binary(BinaryOp::Sub, Reg::Sp, Variable::Register(Reg::Sp), 1);
    b.const_binary(BinaryOp::Sub, Reg::Dp, Variable::Register(Reg::Dp), 1);
    let prologue = b.actions;
    let mut b: Builder<()> = Builder::new();
    b.const_binary(BinaryOp::Add, Reg::Sp, Variable::Register(Reg::Sp), 1);
    b.const_binary(BinaryOp::Add, Reg::Dp, Variable::Register(Reg::Dp), 1);
    b.store(Variable::Register(Reg::Pc), g0_var(), PC_OFF as i64, Width::Eight,
        AliasClass::HostRecord);
    b.store(Variable::Register(Reg::S0), g0_var(), S0_OFF as i64, Width::Eight,
        AliasClass::HostRecord);
    b.store(Variable::Register(Reg::Sp), g0_var(), SP_OFF as i64, Width::Eight,
        AliasClass::HostRecord);
    b.store(Variable::Register(Reg::SSize), g0_var(), SSIZE_OFF as i64, Width::Eight,
        AliasClass::HostRecord);
    b.store(Variable::Register(Reg::D0), g0_var(), D0_OFF as i64, Width::Eight,
        AliasClass::HostRecord);
    b.store(Variable::Register(Reg::Dp), g0_var(), DP_OFF as i64, Width::Eight,
        AliasClass::HostRecord);
    b.store(Variable::Register(Reg::DSize), g0_var(), DSIZE_OFF as i64, Width::Eight,
        AliasClass::HostRecord);
    let epilogue = b.actions;
    proof {
        assert(prologue@ =~= prologue_actions());
        assert(epilogue@ =~= epilogue_actions());
    }
    Marshal { prologue, epilogue }
}

/// The operand naming global 0, as a value.
pub fn g0_var() -> (r: Variable)
    ensures
        r == g0(),
{
    Variable::Global(Global(0))
}

// ---------------------------------------------------------------------------
// Running concatenated action sequences.

/// Shifting the start index past a prefix runs the suffix alone.
proof fn lemma_run_actions_shift(s: MachineState, pre: Seq<Action>, acts: Seq<Action>, i: int)
    requires
        0 <= i <= acts.len(),
    ensures
        run_actions_from(s, pre + acts, pre.len() + i) == run_actions_from(s, acts, i),
    decreases acts.len() - i,
{
    if i < acts.len() {
        assert((pre + acts)[pre.len() + i] == acts[i]);
        match step_action(s, acts[i]) {
            Some(s2) => lemma_run_actions_shift(s2, pre, acts, i + 1),
            None => {},
        }
    }
}

/// Running `a + b` runs `a`, then `b` from where `a` left off.
pub proof fn lemma_run_actions_append(s: MachineState, a: Seq<Action>, b: Seq<Action>)
    ensures
        run_actions(s, a + b) == match run_actions(s, a) {
            Some(s1) => run_actions(s1, b),
            None => None,
        },
{
    lemma_run_actions_append_from(s, a, b, 0);
}

proof fn lemma_run_actions_append_from(s: MachineState, a: Seq<Action>, b: Seq<Action>, i: int)
    requires
        0 <= i <= a.len(),
    ensures
        run_actions_from(s, a + b, i) == match run_actions_from(s, a, i) {
            Some(s1) => run_actions(s1, b),
            None => None,
        },
    decreases a.len() - i,
{
    if i == a.len() {
        lemma_run_actions_shift(s, a, b, 0);
    } else {
        assert((a + b)[i] == a[i]);
        match step_action(s, a[i]) {
            Some(s2) => lemma_run_actions_append_from(s2, a, b, i + 1),
            None => {},
        }
    }
}

// ---------------------------------------------------------------------------
// Well-formedness of the stack regions, and the per-instruction stack
// access groups with their effects.

/// The data-stack region is addressable: its caching register holds its
/// base, and the whole region fits below the end of the address space, so
/// slot address arithmetic cannot wrap.
pub open spec fn data_ok(s: MachineState) -> bool {
    &&& s.regs.d0 == s.dbase
    &&& s.dbase + 8 * s.dstack.len() <= 0x1_0000_0000_0000_0000
}

/// The return-stack region is addressable.
pub open spec fn ret_ok(s: MachineState) -> bool {
    &&& s.regs.s0 == s.rbase
    &&& s.rbase + 8 * s.rstack.len() <= 0x1_0000_0000_0000_0000
}

/// The data-stack pointer indexes the slot currently on top.
pub open spec fn dtop(s: MachineState) -> u64 {
    s.dstack[s.regs.dp as int]
}

/// The actions of one data-stack pop into `dest`: an indexed load at
/// `(D0, Dp)`, then the pointer decremented.
pub open spec fn dpop_actions(dest: Reg) -> Seq<Action> {
    array_load_actions(dest, Variable::Register(Reg::D0), Variable::Register(Reg::Dp),
        Width::Eight, AliasClass::DataStack) + const_binary_actions(BinaryOp::Sub, Reg::Dp,
        Variable::Register(Reg::Dp), 1)
}

/// The state after one data-stack pop: `dest` holds the old top, the
/// scratch register is left holding 1, and the pointer has moved down.
pub open spec fn dpop_post(s: MachineState, dest: Reg) -> MachineState {
    MachineState {
        regs: RegBank {
            temp: 1,
            dp: w64(s.regs.dp - 1),
            ..write_reg(s.regs, dest, dtop(s))
        },
        ..s
    }
}

/// The actions of one data-stack push from `src`: the pointer
/// incremented, then an indexed store at `(D0, Dp)`.
pub open spec fn dpush_actions(src: Reg) -> Seq<Action> {
    const_binary_actions(BinaryOp::Add, Reg::Dp, Variable::Register(Reg::Dp), 1)
        + array_store_actions(Variable::Register(src), Variable::Register(Reg::D0),
        Variable::Register(Reg::Dp), Width::Eight, AliasClass::DataStack)
}

/// The state after one data-stack push: the pointer has moved up, the new
/// top slot holds `src`'s value, and the scratch register holds the slot's
/// address.
pub open spec fn dpush_post(s: MachineState, src: Reg) -> MachineState {
    let ndp = w64(s.regs.dp + 1);
    MachineState {
        regs: RegBank {
            temp: (s.dbase + 8 * ndp) as u64,
            dp: ndp,
            ..s.regs
        },
        dstack: s.dstack.update(ndp as int, read_reg(s.regs, src)),
        ..s
    }
}

/// The actions of one return-stack pop into `dest`.
pub open spec fn rpop_actions(dest: Reg) -> Seq<Action> {
    array_load_actions(dest, Variable::Register(Reg::S0), Variable::Register(Reg::Sp),
        Width::Eight, AliasClass::ReturnStack) + const_binary_actions(BinaryOp::Sub, Reg::Sp,
        Variable::Register(Reg::Sp), 1)
}

/// The state after one return-stack pop.
pub open spec fn rpop_post(s: MachineState, dest: Reg) -> MachineState {
    MachineState {
        regs: RegBank {
            temp: 1,
            sp: w64(s.regs.sp - 1),
            ..write_reg(s.regs, dest, s.rstack[s.regs.sp as int])
        },
        ..s
    }
}

/// The actions of one return-stack push from `src`.
pub open spec fn rpush_actions(src: Reg) -> Seq<Action> {
    const_binary_actions(BinaryOp::Add, Reg::Sp, Variable::Register(Reg::Sp), 1)
        + array_store_actions(Variable::Register(src), Variable::Register(Reg::S0),
        Variable::Register(Reg::Sp), Width::Eight, AliasClass::ReturnStack)
}

/// The state after one return-stack push.
pub open spec fn rpush_post(s: MachineState, src: Reg) -> MachineState {
    let nsp = w64(s.regs.sp + 1);
    MachineState {
        regs: RegBank {
            temp: (s.rbase + 8 * nsp) as u64,
            sp: nsp,
            ..s.regs
        },
        rstack: s.rstack.update(nsp as int, read_reg(s.regs, src)),
        ..s
    }
}

/// One data-stack pop does what [`dpop_post`] says.
#[verifier::rlimit(50)]
#[verifier::spinoff_prover]
pub proof fn lemma_dpop(s: MachineState, dest: Reg)
    requires
        data_ok(s),
        s.regs.dp < s.dstack.len(),
        dest != Reg::Temp && dest != Reg::Dp && dest != Reg::D0,
    ensures
        run_actions(s, dpop_actions(dest)) == Some(dpop_post(s, dest)),
{
    let acts = dpop_actions(dest);
    assert(acts =~= seq![
        Action::Constant(Reg::Temp, 3),
        Action::Binary(BinaryOp::Lsl, Reg::Temp, Variable::Register(Reg::Dp),
            Variable::Register(Reg::Temp)),
        Action::Binary(BinaryOp::Add, Reg::Temp, Variable::Register(Reg::D0),
            Variable::Register(Reg::Temp)),
        Action::Load(dest, Variable::Register(Reg::Temp), Width::Eight, AliasClass::DataStack),
        Action::Constant(Reg::Temp, 1),
        Action::Binary(BinaryOp::Sub, Reg::Dp, Variable::Register(Reg::Dp),
            Variable::Register(Reg::Temp)),
    ]);
    let dp = s.regs.dp;
    lemma_slot_scale(dp, s.dstack.len() as int, s.dbase);
    let addr = (s.dbase + 8 * dp) as u64;
    let s1 = with_reg(s, Reg::Temp, 3);
    let s2 = with_reg(s1, Reg::Temp, (8 * dp) as u64);
    let s3 = with_reg(s2, Reg::Temp, addr);
    let s4 = with_reg(s3, dest, dtop(s));
    let s5 = with_reg(s4, Reg::Temp, 1);
    let s6 = with_reg(s5, Reg::Dp, w64(dp - 1));
    assert(step_action(s, acts[0]) == Some(s1));
    assert(step_action(s1, acts[1]) == Some(s2));
    assert(step_action(s2, acts[2]) == Some(s3));
    assert(addr as int - s.dbase as int == 8 * dp);
    assert(8 * dp % 8 == 0 && 8 * dp / 8 == dp as int) by (nonlinear_arith);
    assert(step_action(s3, acts[3]) == Some(s4));
    assert(step_action(s4, acts[4]) == Some(s5));
    assert(step_action(s5, acts[5]) == Some(s6));
    assert(run_actions(s, acts) == Some(s6)) by {
        reveal_with_fuel(run_actions_from, 8);
    }
    assert(s6 =~= dpop_post(s, dest));
}

/// One data-stack push does what [`dpush_post`] says.
#[verifier::rlimit(50)]
#[verifier::spinoff_prover]
pub proof fn lemma_dpush(s: MachineState, src: Reg)
    requires
        data_ok(s),
        w64(s.regs.dp + 1) < s.dstack.len(),
        src != Reg::Temp && src != Reg::Dp && src != Reg::D0,
    ensures
        run_actions(s, dpush_actions(src)) == Some(dpush_post(s, src)),
{
    let acts = dpush_actions(src);
    assert(acts =~= seq![
        Action::Constant(Reg::Temp, 1),
        Action::Binary(BinaryOp::Add, Reg::Dp, Variable::Register(Reg::Dp),
            Variable::Register(Reg::Temp)),
        Action::Constant(Reg::Temp, 3),
        Action::Binary(BinaryOp::Lsl, Reg::Temp, Variable::Register(Reg::Dp),
            Variable::Register(Reg::Temp)),
        Action::Binary(BinaryOp::Add, Reg::Temp, Variable::Register(Reg::D0),
            Variable::Register(Reg::Temp)),
        Action::Store(Reg::Temp, Variable::Register(src), Variable::Register(Reg::Temp),
            Width::Eight, AliasClass::DataStack),
    ]);
    let ndp = w64(s.regs.dp + 1);
    lemma_slot_scale(ndp, s.dstack.len() as int, s.dbase);
    let addr = (s.dbase + 8 * ndp) as u64;
    let v = read_reg(s.regs, src);
    let s1 = with_reg(s, Reg::Temp, 1);
    let s2 = with_reg(s1, Reg::Dp, ndp);
    let s3 = with_reg(s2, Reg::Temp, 3);
    let s4 = with_reg(s3, Reg::Temp, (8 * ndp) as u64);
    let s5 = with_reg(s4, Reg::Temp, addr);
    let stored = MachineState { dstack: s5.dstack.update(ndp as int, v), ..s5 };
    let s6 = with_reg(stored, Reg::Temp, addr);
    assert(step_action(s, acts[0]) == Some(s1));
    assert(step_action(s1, acts[1]) == Some(s2));
    assert(step_action(s2, acts[2]) == Some(s3));
    assert(step_action(s3, acts[3]) == Some(s4));
    assert(step_action(s4, acts[4]) == Some(s5));
    assert(addr as int - s.dbase as int == 8 * ndp);
    assert(8 * ndp % 8 == 0 && 8 * ndp / 8 == ndp as int) by (nonlinear_arith);
    assert(step_action(s5, acts[5]) == Some(s6));
    assert(run_actions(s, acts) == Some(s6)) by {
        reveal_with_fuel(run_actions_from, 8);
    }
    assert(s6 =~= dpush_post(s, src));
}

/// One return-stack pop does what [`rpop_post`] says.
#[verifier::rlimit(50)]
#[verifier::spinoff_prover]
pub proof fn lemma_rpop(s: MachineState, dest: Reg)
    requires
        ret_ok(s),
        s.regs.sp < s.rstack.len(),
        dest != Reg::Temp && dest != Reg::Sp && dest != Reg::S0,
    ensures
        run_actions(s, rpop_actions(dest)) == Some(rpop_post(s, dest)),
{
    let acts = rpop_actions(dest);
    assert(acts =~= seq![
        Action::Constant(Reg::Temp, 3),
        Action::Binary(BinaryOp::Lsl, Reg::Temp, Variable::Register(Reg::Sp),
            Variable::Register(Reg::Temp)),
        Action::Binary(BinaryOp::Add, Reg::Temp, Variable::Register(Reg::S0),
            Variable::Register(Reg::Temp)),
        Action::Load(dest, Variable::Register(Reg::Temp), Width::Eight,
            AliasClass::ReturnStack),
        Action::Constant(Reg::Temp, 1),
        Action::Binary(BinaryOp::Sub, Reg::Sp, Variable::Register(Reg::Sp),
            Variable::Register(Reg::Temp)),
    ]);
    let sp = s.regs.sp;
    lemma_slot_scale(sp, s.rstack.len() as int, s.rbase);
    let addr = (s.rbase + 8 * sp) as u64;
    let s1 = with_reg(s, Reg::Temp, 3);
    let s2 = with_reg(s1, Reg::Temp, (8 * sp) as u64);
    let s3 = with_reg(s2, Reg::Temp, addr);
    let s4 = with_reg(s3, dest, s.rstack[sp as int]);
    let s5 = with_reg(s4, Reg::Temp, 1);
    let s6 = with_reg(s5, Reg::Sp, w64(sp - 1));
    assert(step_action(s, acts[0]) == Some(s1));
    assert(step_action(s1, acts[1]) == Some(s2));
    assert(step_action(s2, acts[2]) == Some(s3));
    assert(addr as int - s.rbase as int == 8 * sp);
    assert(8 * sp % 8 == 0 && 8 * sp / 8 == sp as int) by (nonlinear_arith);
    assert(step_action(s3, acts[3]) == Some(s4));
    assert(step_action(s4, acts[4]) == Some(s5));
    assert(step_action(s5, acts[5]) == Some(s6));
    assert(run_actions(s, acts) == Some(s6)) by {
        reveal_with_fuel(run_actions_from, 8);
    }
    assert(s6 =~= rpop_post(s, dest));
}

/// One return-stack push does what [`rpush_post`] says.
#[verifier::rlimit(50)]
#[verifier::spinoff_prover]
pub proof fn lemma_rpush(s: MachineState, src: Reg)
    requires
        ret_ok(s),
        w64(s.regs.sp + 1) < s.rstack.len(),
        src != Reg::Temp && src != Reg::Sp && src != Reg::S0,
    ensures
        run_actions(s, rpush_actions(src)) == Some(rpush_post(s, src)),
{
    let acts = rpush_actions(src);
    assert(acts =~= seq![
        Action::Constant(Reg::Temp, 1),
        Action::Binary(BinaryOp::Add, Reg::Sp, Variable::Register(Reg::Sp),
            Variable::Register(Reg::Temp)),
        Action::Constant(Reg::Temp, 3),
        Action::Binary(BinaryOp::Lsl, Reg::Temp, Variable::Register(Reg::Sp),
            Variable::Register(Reg::Temp)),
        Action::Binary(BinaryOp::Add, Reg::Temp, Variable::Register(Reg::S0),
            Variable::Register(Reg::Temp)),
        Action::Store(Reg::Temp, Variable::Register(src), Variable::Register(Reg::Temp),
            Width::Eight, AliasClass::ReturnStack),
    ]);
    let nsp = w64(s.regs.sp + 1);
    lemma_slot_scale(nsp, s.rstack.len() as int, s.rbase);
    let addr = (s.rbase + 8 * nsp) as u64;
    let v = read_reg(s.regs, src);
    let s1 = with_reg(s, Reg::Temp, 1);
    let s2 = with_reg(s1, Reg::Sp, nsp);
    let s3 = with_reg(s2, Reg::Temp, 3);
    let s4 = with_reg(s3, Reg::Temp, (8 * nsp) as u64);
    let s5 = with_reg(s4, Reg::Temp, addr);
    let stored = MachineState { rstack: s5.rstack.update(nsp as int, v), ..s5 };
    let s6 = with_reg(stored, Reg::Temp, addr);
    assert(step_action(s, acts[0]) == Some(s1));
    assert(step_action(s1, acts[1]) == Some(s2));
    assert(step_action(s2, acts[2]) == Some(s3));
    assert(step_action(s3, acts[3]) == Some(s4));
    assert(step_action(s4, acts[4]) == Some(s5));
    assert(addr as int - s.rbase as int == 8 * nsp);
    assert(8 * nsp % 8 == 0 && 8 * nsp / 8 == nsp as int) by (nonlinear_arith);
    assert(step_action(s5, acts[5]) == Some(s6));
    assert(run_actions(s, acts) == Some(s6)) by {
        reveal_with_fuel(run_actions_from, 8);
    }
    assert(s6 =~= rpush_post(s, src));
}

/// Scaling an in-range slot index by 8 neither overflows the shift nor
/// wraps when added to the region base.
proof fn lemma_slot_scale(idx: u64, len: int, base: u64)
    requires
        idx < len,
        base + 8 * len <= 0x1_0000_0000_0000_0000,
    ensures
        idx << ((3 as u64) & 63) == 8 * idx,
        idx << (3 as u64) == 8 * idx,
        base + 8 * idx < 0x1_0000_0000_0000_0000,
        w64(base + 8 * idx) == base + 8 * idx,
{
    assert(8 * idx < 8 * len) by (nonlinear_arith)
        requires
            idx < len,
    ;
    assert((3 as u64) & 63 == 3) by (bit_vector);
    vstd::arithmetic::power2::lemma2_to64();
    vstd::bits::lemma_u64_shl_is_mul(idx, 3);
}

// ---------------------------------------------------------------------------
// Exec counterparts of the stack access groups, and small arithmetic
// bridges used throughout the handler proofs.

/// Appends one data-stack pop into `dest`.
fn machine_pop(b: &mut Builder<EntryId>, dest: Reg)
    ensures
        final(b).actions@ == old(b).actions@ + dpop_actions(dest),
        final(b).guards == old(b).guards,
{
    b.array_load(dest, Variable::Register(Reg::D0), Variable::Register(Reg::Dp), Width::Eight,
        AliasClass::DataStack);
    b.const_binary(BinaryOp::Sub, Reg::Dp, Variable::Register(Reg::Dp), 1);
    assert(final(b).actions@ =~= old(b).actions@ + dpop_actions(dest));
}

/// Appends one data-stack push from `src`.
fn machine_push(b: &mut Builder<EntryId>, src: Reg)
    ensures
        final(b).actions@ == old(b).actions@ + dpush_actions(src),
        final(b).guards == old(b).guards,
{
    b.const_binary(BinaryOp::Add, Reg::Dp, Variable::Register(Reg::Dp), 1);
    b.array_store(Variable::Register(src), Variable::Register(Reg::D0),
        Variable::Register(Reg::Dp), Width::Eight, AliasClass::DataStack);
    assert(final(b).actions@ =~= old(b).actions@ + dpush_actions(src));
}

/// Appends one return-stack pop into `dest`.
fn machine_pop_s(b: &mut Builder<EntryId>, dest: Reg)
    ensures
        final(b).actions@ == old(b).actions@ + rpop_actions(dest),
        final(b).guards == old(b).guards,
{
    b.array_load(dest, Variable::Register(Reg::S0), Variable::Register(Reg::Sp), Width::Eight,
        AliasClass::ReturnStack);
    b.const_binary(BinaryOp::Sub, Reg::Sp, Variable::Register(Reg::Sp), 1);
    assert(final(b).actions@ =~= old(b).actions@ + rpop_actions(dest));
}

/// Appends one return-stack push from `src`.
fn machine_push_s(b: &mut Builder<EntryId>, src: Reg)
    ensures
        final(b).actions@ == old(b).actions@ + rpush_actions(src),
        final(b).guards == old(b).guards,
{
    b.const_binary(BinaryOp::Add, Reg::Sp, Variable::Register(Reg::Sp), 1);
    b.array_store(Variable::Register(src), Variable::Register(Reg::S0),
        Variable::Register(Reg::Sp), Width::Eight, AliasClass::ReturnStack);
    assert(final(b).actions@ =~= old(b).actions@ + rpush_actions(src));
}

/// Reduction to the word commutes with addition.
pub proof fn lemma_w64_add(y: int, z: int)
    requires
        0 <= z < 0x1_0000_0000_0000_0000,
    ensures
        w64(w64(y) + z) == w64(y + z),
{
    let m = 0x1_0000_0000_0000_0000;
    vstd::arithmetic::div_mod::lemma_add_mod_noop(y, z, m);
    vstd::arithmetic::div_mod::lemma_small_mod(z as nat, m as nat);
}

// ---------------------------------------------------------------------------
// The arithmetic handler blocks: one value popped, or two, the operation
// applied, the result pushed, and control returned to the dispatch loop.

/// The state a unary handler leaves: the top slot replaced by the
/// operation's result, the result also left in the first working
/// register, and the scratch register holding the slot's address.
pub open spec fn unary_post(s: MachineState, op: UnaryOp) -> MachineState {
    let v = unary_sem(op, dtop(s));
    MachineState {
        regs: RegBank {
            r1: v,
            temp: (s.dbase + 8 * s.regs.dp) as u64,
            ..s.regs
        },
        dstack: s.dstack.update(s.regs.dp as int, v),
        ..s
    }
}

/// What it means for `e` to be the handler of the unary instruction `op`:
/// from every state with an addressable, non-empty data stack it computes
/// [`unary_post`] and transfers to the dispatch loop.
pub open spec fn is_unary_handler(e: Ebb<EntryId>, op: UnaryOp, root: EntryId) -> bool {
    forall|s: MachineState|
        data_ok(s) && s.regs.dp < s.dstack.len() ==> #[trigger] run_ebb(s, e) == Some(
            (unary_post(s, op), root),
        )
}

/// Builds the handler block for the unary instruction `op`.
#[verifier::rlimit(50)]
fn build_unary(op: UnaryOp, root: EntryId) -> (e: Ebb<EntryId>)
    ensures
        is_unary_handler(e, op, root),
{
    let mut b: Builder<EntryId> = Builder::new();
    machine_pop(&mut b, Reg::R1);
    b.unary(op, Reg::R1, Variable::Register(Reg::R1));
    machine_push(&mut b, Reg::R1);
    let ghost acts = b.actions@;
    let ghost gs = b.guards@;
    let e = b.jump(root);
    proof {
        let u = Action::Unary(op, Reg::R1, Variable::Register(Reg::R1));
        assert forall|s: MachineState| data_ok(s) && s.regs.dp < s.dstack.len() implies
            #[trigger] run_ebb(s, e) == Some((unary_post(s, op), root)) by {
            assert(run_ebb(s, e) == run_guarded(s, gs, 0, acts, Ending::Leaf(root)));
            assert(acts =~= dpop_actions(Reg::R1) + (seq![u] + dpush_actions(Reg::R1)));
            lemma_run_actions_append(s, dpop_actions(Reg::R1), seq![u] + dpush_actions(Reg::R1));
            lemma_dpop(s, Reg::R1);
            let t1 = dpop_post(s, Reg::R1);
            lemma_run_actions_append(t1, seq![u], dpush_actions(Reg::R1));
            let t2 = with_reg(t1, Reg::R1, unary_sem(op, dtop(s)));
            assert(run_actions(t1, seq![u]) == Some(t2)) by {
                reveal_with_fuel(run_actions_from, 3);
            }
            lemma_w64_add(s.regs.dp - 1, 1);
            assert(w64(t2.regs.dp + 1) == s.regs.dp);
            lemma_dpush(t2, Reg::R1);
            assert(dpush_post(t2, Reg::R1) =~= unary_post(s, op));
        }
    }
    e
}

/// The state a binary handler leaves: the two top slots consumed, the
/// result in their place, the operands left in the working registers, and
/// the scratch register holding the result slot's address.
pub open spec fn binary_post(s: MachineState, op: BinaryOp) -> MachineState {
    let n1 = s.dstack[s.regs.dp as int];
    let n2 = s.dstack[s.regs.dp - 1];
    let v = binary_sem(op, n2, n1).unwrap();
    MachineState {
        regs: RegBank {
            r1: v,
            r2: n2,
            temp: (s.dbase + 8 * (s.regs.dp - 1)) as u64,
            dp: (s.regs.dp - 1) as u64,
            ..s.regs
        },
        dstack: s.dstack.update(s.regs.dp - 1, v),
        ..s
    }
}

/// The states a binary handler is specified on: an addressable data stack
/// holding at least two values, for which the operation has a result.
pub open spec fn binary_pre(s: MachineState, op: BinaryOp) -> bool {
    &&& data_ok(s)
    &&& 1 <= s.regs.dp < s.dstack.len()
    &&& binary_sem(op, s.dstack[s.regs.dp - 1], s.dstack[s.regs.dp as int]) is Some
}

/// What it means for `e` to be the handler of the binary instruction
/// `op`.
pub open spec fn is_binary_handler(e: Ebb<EntryId>, op: BinaryOp, root: EntryId) -> bool {
    forall|s: MachineState|
        binary_pre(s, op) ==> #[trigger] run_ebb(s, e) == Some((binary_post(s, op), root))
}

/// The common shape of the two-operand handlers: pop two, run `mid`, push
/// the first working register, return to dispatch. Used by `build_binary`
/// and `build_compare`.
#[verifier::rlimit(80)]
#[verifier::spinoff_prover]
proof fn lemma_two_op_block(
    s: MachineState,
    gs: Seq<Guard<EntryId>>,
    acts: Seq<Action>,
    mid: Seq<Action>,
    t3: MachineState,
    root: EntryId,
)
    requires
        gs.len() == 0,
        data_ok(s),
        1 <= s.regs.dp < s.dstack.len(),
        acts == dpop_actions(Reg::R1) + (dpop_actions(Reg::R2) + (mid + dpush_actions(
            Reg::R1,
        ))),
        run_actions(dpop_post(dpop_post(s, Reg::R1), Reg::R2), mid) == Some(t3),
        t3.regs.dp == w64(s.regs.dp - 2),
        t3.regs.d0 == s.regs.d0,
        t3.dbase == s.dbase,
        t3.dstack == s.dstack,
    ensures
        run_guarded(s, gs, 0, acts, Ending::Leaf(root)) == Some(
            (dpush_post(t3, Reg::R1), root),
        ),
{
    lemma_guard_end(s, gs, acts, Ending::Leaf(root));
    lemma_run_actions_append(s, dpop_actions(Reg::R1), dpop_actions(Reg::R2) + (mid
        + dpush_actions(Reg::R1)));
    lemma_dpop(s, Reg::R1);
    let t1 = dpop_post(s, Reg::R1);
    assert(t1.regs.dp == s.regs.dp - 1);
    lemma_run_actions_append(t1, dpop_actions(Reg::R2), mid + dpush_actions(Reg::R1));
    lemma_dpop(t1, Reg::R2);
    let t2 = dpop_post(t1, Reg::R2);
    lemma_run_actions_append(t2, mid, dpush_actions(Reg::R1));
    assert(w64(t3.regs.dp + 1) == w64(s.regs.dp - 1)) by {
        lemma_w64_add(s.regs.dp - 2, 1);
    }
    assert(w64(s.regs.dp - 1) == s.regs.dp - 1);
    lemma_dpush(t3, Reg::R1);
}

/// Builds the handler block for the binary instruction `op`.
#[verifier::rlimit(100)]
fn build_binary(op: BinaryOp, root: EntryId) -> (e: Ebb<EntryId>)
    ensures
        is_binary_handler(e, op, root),
{
    let mut b: Builder<EntryId> = Builder::new();
    machine_pop(&mut b, Reg::R1);
    machine_pop(&mut b, Reg::R2);
    b.binary(op, Reg::R1, Variable::Register(Reg::R2), Variable::Register(Reg::R1));
    machine_push(&mut b, Reg::R1);
    let ghost acts = b.actions@;
    let ghost gs = b.guards@;
    let e = b.jump(root);
    proof {
        let m = Action::Binary(op, Reg::R1, Variable::Register(Reg::R2),
            Variable::Register(Reg::R1));
        assert(acts =~= dpop_actions(Reg::R1) + (dpop_actions(Reg::R2) + (seq![m]
            + dpush_actions(Reg::R1))));
        assert forall|s: MachineState| binary_pre(s, op) implies #[trigger] run_ebb(s, e)
            == Some((binary_post(s, op), root)) by {
            assert(run_ebb(s, e) == run_guarded(s, gs, 0, acts, Ending::Leaf(root)));
            lemma_binary_run(s, op, gs, acts, root);
        }
    }
    e
}

/// The whole binary handler block computes [`binary_post`].
#[verifier::rlimit(100)]
#[verifier::spinoff_prover]
proof fn lemma_binary_run(
    s: MachineState,
    op: BinaryOp,
    gs: Seq<Guard<EntryId>>,
    acts: Seq<Action>,
    root: EntryId,
)
    requires
        gs.len() == 0,
        binary_pre(s, op),
        ({
            let m = Action::Binary(op, Reg::R1, Variable::Register(Reg::R2),
                Variable::Register(Reg::R1));
            acts == dpop_actions(Reg::R1) + (dpop_actions(Reg::R2) + (seq![m] + dpush_actions(
                Reg::R1,
            )))
        }),
    ensures
        run_guarded(s, gs, 0, acts, Ending::Leaf(root)) == Some((binary_post(s, op), root)),
{
    let m = Action::Binary(op, Reg::R1, Variable::Register(Reg::R2),
        Variable::Register(Reg::R1));
    let n1 = s.dstack[s.regs.dp as int];
    let n2 = s.dstack[s.regs.dp - 1];
    let v = binary_sem(op, n2, n1).unwrap();
    let t2 = dpop_post(dpop_post(s, Reg::R1), Reg::R2);
    let t3 = with_reg(t2, Reg::R1, v);
    assert(run_actions(t2, seq![m]) == Some(t3)) by {
        reveal_with_fuel(run_actions_from, 3);
    }
    lemma_two_op_block(s, gs, acts, seq![m], t3, root);
    lemma_binary_post_shape(s, op);
}

/// Pushing the result after the two pops leaves exactly [`binary_post`].
#[verifier::rlimit(100)]
#[verifier::spinoff_prover]
proof fn lemma_binary_post_shape(s: MachineState, op: BinaryOp)
    requires
        binary_pre(s, op),
    ensures
        ({
            let v = binary_sem(op, s.dstack[s.regs.dp - 1], s.dstack[s.regs.dp as int]).unwrap();
            let t3 = with_reg(dpop_post(dpop_post(s, Reg::R1), Reg::R2), Reg::R1, v);
            dpush_post(t3, Reg::R1) == binary_post(s, op)
        }),
{
    let v = binary_sem(op, s.dstack[s.regs.dp - 1], s.dstack[s.regs.dp as int]).unwrap();
    let t3 = with_reg(dpop_post(dpop_post(s, Reg::R1), Reg::R2), Reg::R1, v);
    lemma_w64_add(s.regs.dp - 2, 1);
    assert(w64(t3.regs.dp + 1) == s.regs.dp - 1);
    assert(dpush_post(t3, Reg::R1).regs == binary_post(s, op).regs);
    assert(dpush_post(t3, Reg::R1) =~= binary_post(s, op));
}

/// The state a comparison handler leaves: as a binary handler, but the
/// 0/1 comparison flag is arithmetically negated before the push, so a
/// true comparison leaves all bits set and a false one all bits clear.
pub open spec fn compare_post(s: MachineState, op: BinaryOp) -> MachineState {
    let n1 = s.dstack[s.regs.dp as int];
    let n2 = s.dstack[s.regs.dp - 1];
    let v = w64(0 - binary_sem(op, n2, n1).unwrap());
    MachineState {
        regs: RegBank {
            r1: v,
            r2: n2,
            temp: (s.dbase + 8 * (s.regs.dp - 1)) as u64,
            dp: (s.regs.dp - 1) as u64,
            ..s.regs
        },
        dstack: s.dstack.update(s.regs.dp - 1, v),
        ..s
    }
}

/// What it means for `e` to be the handler of the comparison instruction
/// `op`.
pub open spec fn is_compare_handler(e: Ebb<EntryId>, op: BinaryOp, root: EntryId) -> bool {
    forall|s: MachineState|
        binary_pre(s, op) ==> #[trigger] run_ebb(s, e) == Some((compare_post(s, op), root))
}

/// Builds the handler block for the comparison instruction `op`.
#[verifier::rlimit(100)]
fn build_compare(op: BinaryOp, root: EntryId) -> (e: Ebb<EntryId>)
    ensures
        is_compare_handler(e, op, root),
{
    let mut b: Builder<EntryId> = Builder::new();
    machine_pop(&mut b, Reg::R1);
    machine_pop(&mut b, Reg::R2);
    b.binary(op, Reg::R1, Variable::Register(Reg::R2), Variable::Register(Reg::R1));
    b.unary(UnaryOp::Negate, Reg::R1, Variable::Register(Reg::R1));
    machine_push(&mut b, Reg::R1);
    let ghost acts = b.actions@;
    let ghost gs = b.guards@;
    let e = b.jump(root);
    proof {
        let m1 = Action::Binary(op, Reg::R1, Variable::Register(Reg::R2),
            Variable::Register(Reg::R1));
        let m2 = Action::Unary(UnaryOp::Negate, Reg::R1, Variable::Register(Reg::R1));
        assert(acts =~= dpop_actions(Reg::R1) + (dpop_actions(Reg::R2) + (seq![m1, m2]
            + dpush_actions(Reg::R1))));
        assert forall|s: MachineState| binary_pre(s, op) implies #[trigger] run_ebb(s, e)
            == Some((compare_post(s, op), root)) by {
            assert(run_ebb(s, e) == run_guarded(s, gs, 0, acts, Ending::Leaf(root)));
            lemma_compare_run(s, op, gs, acts, root);
        }
    }
    e
}

/// The whole comparison handler block computes [`compare_post`].
#[verifier::rlimit(100)]
#[verifier::spinoff_prover]
proof fn lemma_compare_run(
    s: MachineState,
    op: BinaryOp,
    gs: Seq<Guard<EntryId>>,
    acts: Seq<Action>,
    root: EntryId,
)
    requires
        gs.len() == 0,
        binary_pre(s, op),
        ({
            let m1 = Action::Binary(op, Reg::R1, Variable::Register(Reg::R2),
                Variable::Register(Reg::R1));
            let m2 = Action::Unary(UnaryOp::Negate, Reg::R1, Variable::Register(Reg::R1));
            acts == dpop_actions(Reg::R1) + (dpop_actions(Reg::R2) + (seq![m1, m2]
                + dpush_actions(Reg::R1)))
        }),
    ensures
        run_guarded(s, gs, 0, acts, Ending::Leaf(root)) == Some((compare_post(s, op), root)),
{
    let m1 = Action::Binary(op, Reg::R1, Variable::Register(Reg::R2),
        Variable::Register(Reg::R1));
    let m2 = Action::Unary(UnaryOp::Negate, Reg::R1, Variable::Register(Reg::R1));
    let n1 = s.dstack[s.regs.dp as int];
    let n2 = s.dstack[s.regs.dp - 1];
    let flag = binary_sem(op, n2, n1).unwrap();
    let v = w64(0 - flag);
    let t2 = dpop_post(dpop_post(s, Reg::R1), Reg::R2);
    let t3 = with_reg(with_reg(t2, Reg::R1, flag), Reg::R1, v);
    assert(run_actions(t2, seq![m1, m2]) == Some(t3)) by {
        reveal_with_fuel(run_actions_from, 4);
    }
    lemma_two_op_block(s, gs, acts, seq![m1, m2], t3, root);
    lemma_compare_post_shape(s, op);
}

/// Pushing the negated flag after the two pops leaves exactly
/// [`compare_post`].
#[verifier::rlimit(100)]
#[verifier::spinoff_prover]
proof fn lemma_compare_post_shape(s: MachineState, op: BinaryOp)
    requires
        binary_pre(s, op),
    ensures
        ({
            let flag = binary_sem(op, s.dstack[s.regs.dp - 1],
                s.dstack[s.regs.dp as int]).unwrap();
            let v = w64(0 - flag);
            let t3 = with_reg(with_reg(dpop_post(dpop_post(s, Reg::R1), Reg::R2), Reg::R1, flag),
                Reg::R1, v);
            dpush_post(t3, Reg::R1) == compare_post(s, op)
        }),
{
    let flag = binary_sem(op, s.dstack[s.regs.dp - 1], s.dstack[s.regs.dp as int]).unwrap();
    let v = w64(0 - flag);
    let t3 = with_reg(with_reg(dpop_post(dpop_post(s, Reg::R1), Reg::R2), Reg::R1, flag),
        Reg::R1, v);
    lemma_w64_add(s.regs.dp - 2, 1);
    assert(w64(t3.regs.dp + 1) == s.regs.dp - 1);
    assert(dpush_post(t3, Reg::R1).regs == compare_post(s, op).regs);
    assert(dpush_post(t3, Reg::R1) =~= compare_post(s, op));
}

// ---------------------------------------------------------------------------
// The alignment-guarded handlers: memory access and control transfer.
// Each pops its operand(s), tests alignment against the access width, and
// either completes or restores the popped operands and transfers to the
// deoptimization handler.


/// Unfolding one passed guard: its actions run, its condition matched the
/// expected sense, and the block continues with the next guard.
proof fn lemma_guard_step(
    s: MachineState,
    gs: Seq<Guard<EntryId>>,
    i: int,
    acts: Seq<Action>,
    ending: Ending<EntryId>,
    t: MachineState,
)
    requires
        0 <= i < gs.len(),
        run_actions(s, gs[i].actions@) == Some(t),
        eval_var(t, gs[i].condition) is Some,
        (eval_var(t, gs[i].condition).unwrap() != 0) == gs[i].expected,
    ensures
        run_guarded(s, gs, i, acts, ending) == run_guarded(t, gs, i + 1, acts, ending),
{
}

/// Unfolding one failed guard: its actions run, its condition did not
/// match, and the block diverts to the guard's alternate.
proof fn lemma_guard_divert(
    s: MachineState,
    gs: Seq<Guard<EntryId>>,
    i: int,
    acts: Seq<Action>,
    ending: Ending<EntryId>,
    t: MachineState,
)
    requires
        0 <= i < gs.len(),
        run_actions(s, gs[i].actions@) == Some(t),
        eval_var(t, gs[i].condition) is Some,
        (eval_var(t, gs[i].condition).unwrap() != 0) != gs[i].expected,
    ensures
        run_guarded(s, gs, i, acts, ending) == run_ebb(t, gs[i].if_fail),
{
}

/// Past the last guard, the block runs its final actions and ending.
proof fn lemma_guard_end(
    s: MachineState,
    gs: Seq<Guard<EntryId>>,
    acts: Seq<Action>,
    ending: Ending<EntryId>,
)
    ensures
        run_guarded(s, gs, gs.len() as int, acts, ending) == match run_actions(s, acts) {
            Some(s1) => run_ending(s1, ending),
            None => None,
        },
{
}

/// The alignment mask of an access width: its byte count less one.
pub open spec fn align_mask(width: Width) -> u64 {
    (spec_width_bytes(width) - 1) as u64
}

/// The state after popping one address into the first working register
/// and testing it against `mask`.
pub open spec fn mask_state(s: MachineState, mask: u64) -> MachineState {
    MachineState {
        regs: RegBank {
            temp: 1,
            test: dtop(s) & mask,
            dp: w64(s.regs.dp - 1),
            ..write_reg(s.regs, Reg::R1, dtop(s))
        },
        ..s
    }
}

/// Popping an address and masking it computes [`mask_state`].
#[verifier::rlimit(100)]
#[verifier::spinoff_prover]
proof fn lemma_pop_mask(s: MachineState, mask: u64, acts: Seq<Action>)
    requires
        data_ok(s),
        s.regs.dp < s.dstack.len(),
        0 <= mask <= 0xff,
        acts == dpop_actions(Reg::R1) + const_binary_actions(BinaryOp::And, Reg::Test,
            Variable::Register(Reg::R1), mask as i64),
    ensures
        run_actions(s, acts) == Some(mask_state(s, mask)),
{
    lemma_run_actions_append(s, dpop_actions(Reg::R1), const_binary_actions(BinaryOp::And,
        Reg::Test, Variable::Register(Reg::R1), mask as i64));
    lemma_dpop(s, Reg::R1);
    let t1 = dpop_post(s, Reg::R1);
    let c = Action::Constant(Reg::Test, mask as i64);
    let m = Action::Binary(BinaryOp::And, Reg::Test, Variable::Register(Reg::R1),
        Variable::Register(Reg::Test));
    assert(const_binary_actions(BinaryOp::And, Reg::Test, Variable::Register(Reg::R1),
        mask as i64) =~= seq![c, m]);
    let t2 = with_reg(t1, Reg::Test, mask);
    let t3 = with_reg(t2, Reg::Test, dtop(s) & mask);
    assert(run_actions(t1, seq![c, m]) == Some(t3)) by {
        reveal_with_fuel(run_actions_from, 4);
    }
    assert(t3 =~= mask_state(s, mask));
}

/// The state every alignment failure leaves: the popped address back on
/// top with the pointer restored, the address still in the first working
/// register, and the non-zero alignment test visible. Nothing else — in
/// particular no stack slot and no memory — has changed.
pub open spec fn align_fail_post(s: MachineState, mask: u64) -> MachineState {
    MachineState {
        regs: RegBank {
            temp: 1,
            test: dtop(s) & mask,
            ..write_reg(s.regs, Reg::R1, dtop(s))
        },
        ..s
    }
}

/// Builds the block an alignment guard diverts to: restore the data-stack
/// pointer past the `k` popped operands and transfer to the
/// deoptimization handler.
#[verifier::rlimit(50)]
fn build_restore_dp(k: u64, deopt: EntryId) -> (e: Ebb<EntryId>)
    requires
        k <= 8,
    ensures
        forall|s: MachineState| #[trigger] run_ebb(s, e) == Some(
            (restore_dp_post(s, k), deopt),
        ),
{
    let mut b: Builder<EntryId> = Builder::new();
    b.const_binary(BinaryOp::Add, Reg::Dp, Variable::Register(Reg::Dp), k as i64);
    let ghost acts = b.actions@;
    let ghost gs = b.guards@;
    let e = b.jump(deopt);
    proof {
        assert forall|s: MachineState| #[trigger] run_ebb(s, e) == Some(
            (restore_dp_post(s, k), deopt),
        ) by {
            assert(run_ebb(s, e) == run_guarded(s, gs, 0, acts, Ending::Leaf(deopt)));
            assert(acts =~= seq![
                Action::Constant(Reg::Temp, k as i64),
                Action::Binary(BinaryOp::Add, Reg::Dp, Variable::Register(Reg::Dp),
                    Variable::Register(Reg::Temp)),
            ]);
            let t1 = with_reg(s, Reg::Temp, k);
            let t2 = with_reg(t1, Reg::Dp, w64(s.regs.dp + k));
            assert(run_actions(s, acts) == Some(t2)) by {
                reveal_with_fuel(run_actions_from, 4);
            }
            assert(t2 =~= restore_dp_post(s, k));
        }
    }
    e
}

/// The state [`build_restore_dp`]'s block leaves.
pub open spec fn restore_dp_post(s: MachineState, k: u64) -> MachineState {
    MachineState {
        regs: RegBank { temp: k, dp: w64(s.regs.dp + k), ..s.regs },
        ..s
    }
}

/// Builds the block a return-stack guard diverts to: restore the
/// return-stack pointer past the one popped value and transfer to the
/// deoptimization handler.
#[verifier::rlimit(50)]
fn build_restore_sp(deopt: EntryId) -> (e: Ebb<EntryId>)
    ensures
        forall|s: MachineState| #[trigger] run_ebb(s, e) == Some(
            (restore_sp_post(s), deopt),
        ),
{
    let mut b: Builder<EntryId> = Builder::new();
    b.const_binary(BinaryOp::Add, Reg::Sp, Variable::Register(Reg::Sp), 1);
    let ghost acts = b.actions@;
    let ghost gs = b.guards@;
    let e = b.jump(deopt);
    proof {
        assert forall|s: MachineState| #[trigger] run_ebb(s, e) == Some(
            (restore_sp_post(s), deopt),
        ) by {
            assert(run_ebb(s, e) == run_guarded(s, gs, 0, acts, Ending::Leaf(deopt)));
            assert(acts =~= seq![
                Action::Constant(Reg::Temp, 1),
                Action::Binary(BinaryOp::Add, Reg::Sp, Variable::Register(Reg::Sp),
                    Variable::Register(Reg::Temp)),
            ]);
            let t1 = with_reg(s, Reg::Temp, 1);
            let t2 = with_reg(t1, Reg::Sp, w64(s.regs.sp + 1));
            assert(run_actions(s, acts) == Some(t2)) by {
                reveal_with_fuel(run_actions_from, 4);
            }
            assert(t2 =~= restore_sp_post(s));
        }
    }
    e
}

/// The state [`build_restore_sp`]'s block leaves.
pub open spec fn restore_sp_post(s: MachineState) -> MachineState {
    MachineState {
        regs: RegBank { temp: 1, sp: w64(s.regs.sp + 1), ..s.regs },
        ..s
    }
}

/// The state a completed load leaves: the loaded value replaces the
/// address on top of the data stack.
pub open spec fn load_ok_post(s: MachineState, width: Width) -> MachineState {
    let a = dtop(s);
    let v = rd(s.mem, a as int, spec_width_bytes(width) as nat) as u64;
    MachineState {
        regs: RegBank {
            r1: v,
            temp: (s.dbase + 8 * s.regs.dp) as u64,
            test: 0,
            ..s.regs
        },
        dstack: s.dstack.update(s.regs.dp as int, v),
        ..s
    }
}

/// What it means for `e` to be the handler of a load of the given width:
/// a misaligned address deoptimizes with the popped operand restored and
/// nothing mutated; an aligned, in-range address replaces the top of the
/// data stack with the loaded value.
pub open spec fn is_load_handler(e: Ebb<EntryId>, width: Width, root: EntryId, deopt: EntryId)
    -> bool {
    &&& forall|s: MachineState|
        data_ok(s) && s.regs.dp < s.dstack.len() && dtop(s) & align_mask(width) != 0
            ==> #[trigger] run_ebb(s, e) == Some((align_fail_post(s, align_mask(width)), deopt))
    &&& forall|s: MachineState|
        data_ok(s) && s.regs.dp < s.dstack.len() && dtop(s) & align_mask(width) == 0 && dtop(s)
            + spec_width_bytes(width) <= s.mem.len() ==> #[trigger] run_ebb(s, e) == Some(
            (load_ok_post(s, width), root),
        )
}

/// Builds the handler block for a load of the given width.
#[verifier::rlimit(100)]
fn build_load(width: Width, root: EntryId, deopt: EntryId) -> (e: Ebb<EntryId>)
    ensures
        is_load_handler(e, width, root, deopt),
{
    let mask: u64 = width.bytes() - 1;
    let fail = build_restore_dp(1, deopt);
    let ghost fail_spec = fail;
    let mut b: Builder<EntryId> = Builder::new();
    machine_pop(&mut b, Reg::R1);
    b.const_binary(BinaryOp::And, Reg::Test, Variable::Register(Reg::R1), mask as i64);
    let ghost guard_acts = b.actions@;
    b.guard(Variable::Register(Reg::Test), false, fail);
    b.load(Reg::R1, Variable::Register(Reg::R1), 0, width, AliasClass::Memory);
    machine_push(&mut b, Reg::R1);
    let ghost acts = b.actions@;
    let ghost gs = b.guards@;
    let e = b.jump(root);
    proof {
        assert(gs.len() == 1);
        assert(gs[0].actions@ == guard_acts);
        assert(guard_acts =~= dpop_actions(Reg::R1) + const_binary_actions(BinaryOp::And,
            Reg::Test, Variable::Register(Reg::R1), mask as i64));
        assert(acts =~= load_actions(Reg::R1, Variable::Register(Reg::R1), 0, width,
            AliasClass::Memory) + dpush_actions(Reg::R1));
        assert forall|s: MachineState|
            data_ok(s) && s.regs.dp < s.dstack.len() && dtop(s) & align_mask(width) != 0 implies
            #[trigger] run_ebb(s, e) == Some((align_fail_post(s, align_mask(width)), deopt)) by {
            assert(run_ebb(s, e) == run_guarded(s, gs, 0, acts, Ending::Leaf(root)));
            lemma_pop_mask(s, mask, gs[0].actions@);
            let t = mask_state(s, mask);
            lemma_guard_divert(s, gs, 0, acts, Ending::Leaf(root), t);
            assert(run_ebb(t, fail_spec) == Some((restore_dp_post(t, 1), deopt)));
            assert(restore_dp_post(t, 1) =~= align_fail_post(s, align_mask(width))) by {
                lemma_w64_add(s.regs.dp - 1, 1);
            }
        }
        assert forall|s: MachineState|
            data_ok(s) && s.regs.dp < s.dstack.len() && dtop(s) & align_mask(width) == 0
                && dtop(s) + spec_width_bytes(width) <= s.mem.len() implies #[trigger] run_ebb(
                s,
                e,
            ) == Some((load_ok_post(s, width), root)) by {
            assert(run_ebb(s, e) == run_guarded(s, gs, 0, acts, Ending::Leaf(root)));
            lemma_pop_mask(s, mask, gs[0].actions@);
            let t = mask_state(s, mask);
            lemma_guard_step(s, gs, 0, acts, Ending::Leaf(root), t);
            lemma_guard_end(t, gs, acts, Ending::Leaf(root));
            lemma_load_main(s, width, acts, root);
        }
    }
    e
}

/// The state reached after the aligned load's address computation and
/// memory read, before the result is pushed.
pub open spec fn load_mid(s: MachineState, width: Width) -> MachineState {
    let a = dtop(s);
    let v = rd(s.mem, a as int, spec_width_bytes(width) as nat) as u64;
    with_reg(
        with_reg(with_reg(mask_state(s, align_mask(width)), Reg::Temp, 0), Reg::R1, a),
        Reg::R1,
        v,
    )
}

/// The load body's three actions compute [`load_mid`].
#[verifier::rlimit(100)]
#[verifier::spinoff_prover]
proof fn lemma_load_steps(s: MachineState, width: Width)
    requires
        data_ok(s),
        s.regs.dp < s.dstack.len(),
        dtop(s) & align_mask(width) == 0,
        dtop(s) + spec_width_bytes(width) <= s.mem.len(),
    ensures
        run_actions(
            mask_state(s, align_mask(width)),
            load_actions(Reg::R1, Variable::Register(Reg::R1), 0, width, AliasClass::Memory),
        ) == Some(load_mid(s, width)),
{
    let t = mask_state(s, align_mask(width));
    let a = dtop(s);
    let v = rd(s.mem, a as int, spec_width_bytes(width) as nat) as u64;
    let la = load_actions(Reg::R1, Variable::Register(Reg::R1), 0, width, AliasClass::Memory);
    assert(la =~= seq![
        Action::Constant(Reg::Temp, 0),
        Action::Binary(BinaryOp::Add, Reg::R1, Variable::Register(Reg::R1),
            Variable::Register(Reg::Temp)),
        Action::Load(Reg::R1, Variable::Register(Reg::R1), width, AliasClass::Memory),
    ]);
    let t1 = with_reg(t, Reg::Temp, 0);
    let t2 = with_reg(t1, Reg::R1, a);
    let t3 = with_reg(t2, Reg::R1, v);
    assert(w64(a + 0) == a);
    assert(step_action(t, la[0]) == Some(t1));
    assert(step_action(t1, la[1]) == Some(t2));
    assert(step_action(t2, la[2]) == Some(t3));
    assert(run_actions(t, la) == Some(t3)) by {
        reveal_with_fuel(run_actions_from, 5);
    }
}

/// After an aligned pop-and-mask, the load body completes to
/// [`load_ok_post`].
#[verifier::rlimit(100)]
#[verifier::spinoff_prover]
proof fn lemma_load_main(s: MachineState, width: Width, acts: Seq<Action>, root: EntryId)
    requires
        data_ok(s),
        s.regs.dp < s.dstack.len(),
        dtop(s) & align_mask(width) == 0,
        dtop(s) + spec_width_bytes(width) <= s.mem.len(),
        acts == load_actions(Reg::R1, Variable::Register(Reg::R1), 0, width, AliasClass::Memory)
            + dpush_actions(Reg::R1),
    ensures
        ({
            let t = mask_state(s, align_mask(width));
            run_actions(t, acts) == Some(load_ok_post(s, width)) && run_ending::<EntryId>(
                load_ok_post(s, width),
                Ending::Leaf(root),
            ) == Some((load_ok_post(s, width), root))
        }),
{
    let t = mask_state(s, align_mask(width));
    let la = load_actions(Reg::R1, Variable::Register(Reg::R1), 0, width, AliasClass::Memory);
    lemma_run_actions_append(t, la, dpush_actions(Reg::R1));
    lemma_load_steps(s, width);
    let t3 = load_mid(s, width);
    assert(w64(t3.regs.dp + 1) == s.regs.dp) by {
        lemma_w64_add(s.regs.dp - 1, 1);
    }
    lemma_dpush(t3, Reg::R1);
    assert(dpush_post(t3, Reg::R1) =~= load_ok_post(s, width)) by {
        lemma_w64_add(s.regs.dp - 1, 1);
    }
}


/// The state a completed store leaves: address and value popped, the
/// value's bytes written at the address, the address left in the working
/// and scratch registers.
pub open spec fn store_ok_post(s: MachineState, width: Width) -> MachineState {
    let a = dtop(s);
    let v = s.dstack[s.regs.dp - 1];
    MachineState {
        regs: RegBank {
            r1: a,
            r2: v,
            temp: a,
            test: 0,
            dp: w64(s.regs.dp - 2),
            ..s.regs
        },
        mem: wr(s.mem, a as int, v as int, spec_width_bytes(width) as nat),
        ..s
    }
}

/// What it means for `e` to be the handler of a store of the given width:
/// a misaligned address deoptimizes with the address restored and the
/// value still unpopped; an aligned, in-range address pops both and
/// writes memory.
pub open spec fn is_store_handler(e: Ebb<EntryId>, width: Width, root: EntryId, deopt: EntryId)
    -> bool {
    &&& forall|s: MachineState|
        data_ok(s) && s.regs.dp < s.dstack.len() && dtop(s) & align_mask(width) != 0
            ==> #[trigger] run_ebb(s, e) == Some((align_fail_post(s, align_mask(width)), deopt))
    &&& forall|s: MachineState|
        data_ok(s) && 1 <= s.regs.dp < s.dstack.len() && dtop(s) & align_mask(width) == 0
            && dtop(s) + spec_width_bytes(width) <= s.mem.len() ==> #[trigger] run_ebb(s, e)
            == Some((store_ok_post(s, width), root))
}

/// Builds the handler block for a store of the given width.
#[verifier::rlimit(100)]
fn build_store(width: Width, root: EntryId, deopt: EntryId) -> (e: Ebb<EntryId>)
    ensures
        is_store_handler(e, width, root, deopt),
{
    let mask: u64 = width.bytes() - 1;
    let fail = build_restore_dp(1, deopt);
    let ghost fail_spec = fail;
    let mut b: Builder<EntryId> = Builder::new();
    machine_pop(&mut b, Reg::R1);
    b.const_binary(BinaryOp::And, Reg::Test, Variable::Register(Reg::R1), mask as i64);
    let ghost guard_acts = b.actions@;
    b.guard(Variable::Register(Reg::Test), false, fail);
    machine_pop(&mut b, Reg::R2);
    b.store(Variable::Register(Reg::R2), Variable::Register(Reg::R1), 0, width,
        AliasClass::Memory);
    let ghost acts = b.actions@;
    let ghost gs = b.guards@;
    let e = b.jump(root);
    proof {
        assert(gs.len() == 1);
        assert(gs[0].actions@ == guard_acts);
        assert(guard_acts =~= dpop_actions(Reg::R1) + const_binary_actions(BinaryOp::And,
            Reg::Test, Variable::Register(Reg::R1), mask as i64));
        assert(acts =~= dpop_actions(Reg::R2) + store_actions(Variable::Register(Reg::R2),
            Variable::Register(Reg::R1), 0, width, AliasClass::Memory));
        assert forall|s: MachineState|
            data_ok(s) && s.regs.dp < s.dstack.len() && dtop(s) & align_mask(width) != 0 implies
            #[trigger] run_ebb(s, e) == Some((align_fail_post(s, align_mask(width)), deopt)) by {
            assert(run_ebb(s, e) == run_guarded(s, gs, 0, acts, Ending::Leaf(root)));
            lemma_pop_mask(s, mask, gs[0].actions@);
            let t = mask_state(s, mask);
            lemma_guard_divert(s, gs, 0, acts, Ending::Leaf(root), t);
            assert(run_ebb(t, fail_spec) == Some((restore_dp_post(t, 1), deopt)));
            assert(restore_dp_post(t, 1) =~= align_fail_post(s, align_mask(width))) by {
                lemma_w64_add(s.regs.dp - 1, 1);
            }
        }
        assert forall|s: MachineState|
            data_ok(s) && 1 <= s.regs.dp < s.dstack.len() && dtop(s) & align_mask(width) == 0
                && dtop(s) + spec_width_bytes(width) <= s.mem.len() implies #[trigger] run_ebb(
                s,
                e,
            ) == Some((store_ok_post(s, width), root)) by {
            assert(run_ebb(s, e) == run_guarded(s, gs, 0, acts, Ending::Leaf(root)));
            lemma_pop_mask(s, mask, gs[0].actions@);
            let t = mask_state(s, mask);
            lemma_guard_step(s, gs, 0, acts, Ending::Leaf(root), t);
            lemma_guard_end(t, gs, acts, Ending::Leaf(root));
            lemma_store_main(s, width, acts, root);
        }
    }
    e
}

/// After an aligned pop-and-mask, the store body completes to
/// [`store_ok_post`].
#[verifier::rlimit(100)]
#[verifier::spinoff_prover]
proof fn lemma_store_main(s: MachineState, width: Width, acts: Seq<Action>, root: EntryId)
    requires
        data_ok(s),
        1 <= s.regs.dp < s.dstack.len(),
        dtop(s) & align_mask(width) == 0,
        dtop(s) + spec_width_bytes(width) <= s.mem.len(),
        acts == dpop_actions(Reg::R2) + store_actions(Variable::Register(Reg::R2),
            Variable::Register(Reg::R1), 0, width, AliasClass::Memory),
    ensures
        ({
            let t = mask_state(s, align_mask(width));
            run_actions(t, acts) == Some(store_ok_post(s, width)) && run_ending::<EntryId>(
                store_ok_post(s, width),
                Ending::Leaf(root),
            ) == Some((store_ok_post(s, width), root))
        }),
{
    let t = mask_state(s, align_mask(width));
    let sa = store_actions(Variable::Register(Reg::R2), Variable::Register(Reg::R1), 0, width,
        AliasClass::Memory);
    lemma_run_actions_append(t, dpop_actions(Reg::R2), sa);
    assert(t.regs.dp == s.regs.dp - 1) by {
        assert(w64(s.regs.dp - 1) == s.regs.dp - 1);
    }
    lemma_dpop(t, Reg::R2);
    let t2 = dpop_post(t, Reg::R2);
    lemma_store_steps(s, width);
    assert(run_actions(t, acts) == Some(store_ok_post(s, width)));
}

/// The store body's three actions, run after both pops, write memory and
/// leave exactly [`store_ok_post`].
#[verifier::rlimit(100)]
#[verifier::spinoff_prover]
proof fn lemma_store_steps(s: MachineState, width: Width)
    requires
        data_ok(s),
        1 <= s.regs.dp < s.dstack.len(),
        dtop(s) & align_mask(width) == 0,
        dtop(s) + spec_width_bytes(width) <= s.mem.len(),
    ensures
        run_actions(
            dpop_post(mask_state(s, align_mask(width)), Reg::R2),
            store_actions(Variable::Register(Reg::R2), Variable::Register(Reg::R1), 0, width,
                AliasClass::Memory),
        ) == Some(store_ok_post(s, width)),
{
    let a = dtop(s);
    let v = s.dstack[s.regs.dp - 1];
    let sa = store_actions(Variable::Register(Reg::R2), Variable::Register(Reg::R1), 0, width,
        AliasClass::Memory);
    assert(w64(s.regs.dp - 1) == s.regs.dp - 1);
    let t2 = dpop_post(mask_state(s, align_mask(width)), Reg::R2);
    assert(sa =~= seq![
        Action::Constant(Reg::Temp, 0),
        Action::Binary(BinaryOp::Add, Reg::Temp, Variable::Register(Reg::R1),
            Variable::Register(Reg::Temp)),
        Action::Store(Reg::Temp, Variable::Register(Reg::R2), Variable::Register(Reg::Temp),
            width, AliasClass::Memory),
    ]);
    let t3 = with_reg(t2, Reg::Temp, 0);
    let t4 = with_reg(t3, Reg::Temp, a);
    let written = MachineState {
        mem: wr(t4.mem, a as int, v as int, spec_width_bytes(width) as nat),
        ..t4
    };
    let t5 = with_reg(written, Reg::Temp, a);
    assert(run_actions(t2, sa) == Some(t5)) by {
        reveal_with_fuel(run_actions_from, 5);
        assert(w64(a + 0) == a);
        assert(step_action(t3, sa[1]) == Some(t4));
        assert(step_action(t4, sa[2]) == Some(t5));
    }
    assert(t5 =~= store_ok_post(s, width));
}

/// The state a completed jump leaves: the aligned target popped into the
/// program counter.
pub open spec fn jump_ok_post(s: MachineState) -> MachineState {
    let a = dtop(s);
    MachineState {
        regs: RegBank {
            pc: a,
            r1: a,
            temp: 1,
            test: 0,
            dp: w64(s.regs.dp - 1),
            ..s.regs
        },
        ..s
    }
}

/// What it means for `e` to be the handler of the computed jump: a target
/// not 8-byte aligned always deoptimizes with the operand restored and
/// nothing — in particular neither stack — mutated; an aligned target
/// becomes the new program counter.
pub open spec fn is_jump_handler(e: Ebb<EntryId>, root: EntryId, deopt: EntryId) -> bool {
    &&& forall|s: MachineState|
        data_ok(s) && s.regs.dp < s.dstack.len() && dtop(s) & 7 != 0 ==> #[trigger] run_ebb(s, e)
            == Some((align_fail_post(s, 7), deopt))
    &&& forall|s: MachineState|
        data_ok(s) && s.regs.dp < s.dstack.len() && dtop(s) & 7 == 0 ==> #[trigger] run_ebb(s, e)
            == Some((jump_ok_post(s), root))
}

/// Builds the handler block for the computed jump.
#[verifier::rlimit(100)]
fn build_jump(root: EntryId, deopt: EntryId) -> (e: Ebb<EntryId>)
    ensures
        is_jump_handler(e, root, deopt),
{
    let fail = build_restore_dp(1, deopt);
    let ghost fail_spec = fail;
    let mut b: Builder<EntryId> = Builder::new();
    machine_pop(&mut b, Reg::R1);
    b.const_binary(BinaryOp::And, Reg::Test, Variable::Register(Reg::R1), 7);
    let ghost guard_acts = b.actions@;
    b.guard(Variable::Register(Reg::Test), false, fail);
    b.move_(Variable::Register(Reg::Pc), Variable::Register(Reg::R1));
    let ghost acts = b.actions@;
    let ghost gs = b.guards@;
    let e = b.jump(root);
    proof {
        assert(gs.len() == 1);
        assert(gs[0].actions@ == guard_acts);
        assert(guard_acts =~= dpop_actions(Reg::R1) + const_binary_actions(BinaryOp::And,
            Reg::Test, Variable::Register(Reg::R1), 7));
        assert(acts =~= seq![
            Action::Move(Variable::Register(Reg::Pc), Variable::Register(Reg::R1)),
        ]);
        assert forall|s: MachineState|
            data_ok(s) && s.regs.dp < s.dstack.len() && dtop(s) & 7 != 0 implies #[trigger]
            run_ebb(s, e) == Some((align_fail_post(s, 7), deopt)) by {
            assert(run_ebb(s, e) == run_guarded(s, gs, 0, acts, Ending::Leaf(root)));
            lemma_pop_mask(s, 7, gs[0].actions@);
            let t = mask_state(s, 7);
            lemma_guard_divert(s, gs, 0, acts, Ending::Leaf(root), t);
            assert(run_ebb(t, fail_spec) == Some((restore_dp_post(t, 1), deopt)));
            assert(restore_dp_post(t, 1) =~= align_fail_post(s, 7)) by {
                lemma_w64_add(s.regs.dp - 1, 1);
            }
        }
        assert forall|s: MachineState|
            data_ok(s) && s.regs.dp < s.dstack.len() && dtop(s) & 7 == 0 implies #[trigger]
            run_ebb(s, e) == Some((jump_ok_post(s), root)) by {
            assert(run_ebb(s, e) == run_guarded(s, gs, 0, acts, Ending::Leaf(root)));
            lemma_pop_mask(s, 7, gs[0].actions@);
            let t = mask_state(s, 7);
            lemma_guard_step(s, gs, 0, acts, Ending::Leaf(root), t);
            lemma_guard_end(t, gs, acts, Ending::Leaf(root));
            let t2 = with_reg(t, Reg::Pc, dtop(s));
            assert(run_actions(t, acts) == Some(t2)) by {
                reveal_with_fuel(run_actions_from, 3);
            }
            assert(t2 =~= jump_ok_post(s));
        }
    }
    e
}

/// The state a completed call leaves: the aligned target popped into the
/// program counter and the return address pushed onto the return stack.
pub open spec fn call_ok_post(s: MachineState) -> MachineState {
    let a = dtop(s);
    let nsp = w64(s.regs.sp + 1);
    MachineState {
        regs: RegBank {
            pc: a,
            r1: a,
            sp: nsp,
            temp: (s.rbase + 8 * nsp) as u64,
            test: 0,
            dp: w64(s.regs.dp - 1),
            ..s.regs
        },
        rstack: s.rstack.update(nsp as int, s.regs.pc),
        ..s
    }
}

/// What it means for `e` to be the handler of the computed call: a target
/// not 8-byte aligned always deoptimizes with the operand restored and
/// the return stack untouched; an aligned target pushes the return
/// address and redirects control.
pub open spec fn is_call_handler(e: Ebb<EntryId>, root: EntryId, deopt: EntryId) -> bool {
    &&& forall|s: MachineState|
        data_ok(s) && s.regs.dp < s.dstack.len() && dtop(s) & 7 != 0 ==> #[trigger] run_ebb(s, e)
            == Some((align_fail_post(s, 7), deopt))
    &&& forall|s: MachineState|
        data_ok(s) && ret_ok(s) && s.regs.dp < s.dstack.len() && w64(s.regs.sp + 1)
            < s.rstack.len() && dtop(s) & 7 == 0 ==> #[trigger] run_ebb(s, e) == Some(
            (call_ok_post(s), root),
        )
}

/// Builds the handler block for the computed call.
#[verifier::rlimit(100)]
fn build_call(root: EntryId, deopt: EntryId) -> (e: Ebb<EntryId>)
    ensures
        is_call_handler(e, root, deopt),
{
    let fail = build_restore_dp(1, deopt);
    let ghost fail_spec = fail;
    let mut b: Builder<EntryId> = Builder::new();
    machine_pop(&mut b, Reg::R1);
    b.const_binary(BinaryOp::And, Reg::Test, Variable::Register(Reg::R1), 7);
    let ghost guard_acts = b.actions@;
    b.guard(Variable::Register(Reg::Test), false, fail);
    machine_push_s(&mut b, Reg::Pc);
    b.move_(Variable::Register(Reg::Pc), Variable::Register(Reg::R1));
    let ghost acts = b.actions@;
    let ghost gs = b.guards@;
    let e = b.jump(root);
    proof {
        assert(gs.len() == 1);
        assert(gs[0].actions@ == guard_acts);
        assert(guard_acts =~= dpop_actions(Reg::R1) + const_binary_actions(BinaryOp::And,
            Reg::Test, Variable::Register(Reg::R1), 7));
        assert(acts =~= rpush_actions(Reg::Pc) + seq![
            Action::Move(Variable::Register(Reg::Pc), Variable::Register(Reg::R1)),
        ]);
        assert forall|s: MachineState|
            data_ok(s) && s.regs.dp < s.dstack.len() && dtop(s) & 7 != 0 implies #[trigger]
            run_ebb(s, e) == Some((align_fail_post(s, 7), deopt)) by {
            assert(run_ebb(s, e) == run_guarded(s, gs, 0, acts, Ending::Leaf(root)));
            lemma_pop_mask(s, 7, gs[0].actions@);
            let t = mask_state(s, 7);
            lemma_guard_divert(s, gs, 0, acts, Ending::Leaf(root), t);
            assert(run_ebb(t, fail_spec) == Some((restore_dp_post(t, 1), deopt)));
            assert(restore_dp_post(t, 1) =~= align_fail_post(s, 7)) by {
                lemma_w64_add(s.regs.dp - 1, 1);
            }
        }
        assert forall|s: MachineState|
            data_ok(s) && ret_ok(s) && s.regs.dp < s.dstack.len() && w64(s.regs.sp + 1)
                < s.rstack.len() && dtop(s) & 7 == 0 implies #[trigger] run_ebb(s, e) == Some(
                (call_ok_post(s), root),
            ) by {
            assert(run_ebb(s, e) == run_guarded(s, gs, 0, acts, Ending::Leaf(root)));
            lemma_pop_mask(s, 7, gs[0].actions@);
            let t = mask_state(s, 7);
            lemma_guard_step(s, gs, 0, acts, Ending::Leaf(root), t);
            lemma_guard_end(t, gs, acts, Ending::Leaf(root));
            lemma_call_main(s, acts, root);
        }
    }
    e
}

/// After an aligned pop-and-mask, the call body completes to
/// [`call_ok_post`].
#[verifier::rlimit(100)]
#[verifier::spinoff_prover]
proof fn lemma_call_main(s: MachineState, acts: Seq<Action>, root: EntryId)
    requires
        data_ok(s),
        ret_ok(s),
        s.regs.dp < s.dstack.len(),
        w64(s.regs.sp + 1) < s.rstack.len(),
        dtop(s) & 7 == 0,
        acts == rpush_actions(Reg::Pc) + seq![
            Action::Move(Variable::Register(Reg::Pc), Variable::Register(Reg::R1)),
        ],
    ensures
        ({
            let t = mask_state(s, 7);
            run_actions(t, acts) == Some(call_ok_post(s)) && run_ending::<EntryId>(
                call_ok_post(s),
                Ending::Leaf(root),
            ) == Some((call_ok_post(s), root))
        }),
{
    let t = mask_state(s, 7);
    let mv = seq![Action::Move(Variable::Register(Reg::Pc), Variable::Register(Reg::R1))];
    lemma_run_actions_append(t, rpush_actions(Reg::Pc), mv);
    lemma_rpush(t, Reg::Pc);
    let u = rpush_post(t, Reg::Pc);
    let u2 = with_reg(u, Reg::Pc, dtop(s));
    assert(run_actions(u, mv) == Some(u2)) by {
        reveal_with_fuel(run_actions_from, 3);
    }
    assert(u2 =~= call_ok_post(s));
}

/// The state after popping a return address into the first working
/// register and testing its alignment.
pub open spec fn rmask_state(s: MachineState) -> MachineState {
    let a = s.rstack[s.regs.sp as int];
    MachineState {
        regs: RegBank {
            temp: 1,
            test: a & 7,
            sp: w64(s.regs.sp - 1),
            ..write_reg(s.regs, Reg::R1, a)
        },
        ..s
    }
}

/// Popping a return address and masking it computes [`rmask_state`].
#[verifier::rlimit(100)]
#[verifier::spinoff_prover]
proof fn lemma_rpop_mask(s: MachineState, acts: Seq<Action>)
    requires
        ret_ok(s),
        s.regs.sp < s.rstack.len(),
        acts == rpop_actions(Reg::R1) + const_binary_actions(BinaryOp::And, Reg::Test,
            Variable::Register(Reg::R1), 7),
    ensures
        run_actions(s, acts) == Some(rmask_state(s)),
{
    lemma_run_actions_append(s, rpop_actions(Reg::R1), const_binary_actions(BinaryOp::And,
        Reg::Test, Variable::Register(Reg::R1), 7));
    lemma_rpop(s, Reg::R1);
    let t1 = rpop_post(s, Reg::R1);
    let a = s.rstack[s.regs.sp as int];
    let c = Action::Constant(Reg::Test, 7);
    let m = Action::Binary(BinaryOp::And, Reg::Test, Variable::Register(Reg::R1),
        Variable::Register(Reg::Test));
    assert(const_binary_actions(BinaryOp::And, Reg::Test, Variable::Register(Reg::R1), 7)
        =~= seq![c, m]);
    let t2 = with_reg(t1, Reg::Test, 7);
    let t3 = with_reg(t2, Reg::Test, a & 7);
    assert(run_actions(t1, seq![c, m]) == Some(t3)) by {
        reveal_with_fuel(run_actions_from, 4);
    }
    assert(t3 =~= rmask_state(s));
}

/// The host state record is addressable from the base held in global 0
/// without the offset arithmetic wrapping.
pub open spec fn record_ok(s: MachineState) -> bool {
    s.g0 + 64 <= 0x1_0000_0000_0000_0000
}

/// The state after the return's watermark test: the watermark in the
/// second working register and the test flag recording whether the
/// pointer stands strictly above it. The test runs on the undecremented
/// pointer, before anything is popped, so it cannot wrap.
pub open spec fn ret_marked(s: MachineState) -> MachineState {
    let flag: u64 = if s.record.handler_sp < s.regs.sp {
        1
    } else {
        0
    };
    MachineState {
        regs: RegBank { r2: s.record.handler_sp, test: flag, ..s.regs },
        ..s
    }
}

/// The watermark check's actions compute [`ret_marked`].
#[verifier::rlimit(100)]
#[verifier::spinoff_prover]
proof fn lemma_ret_watermark(s: MachineState, acts: Seq<Action>)
    requires
        record_ok(s),
        acts == load_actions(Reg::R2, g0(), HANDLER_SP_OFF as i64, Width::Eight,
            AliasClass::HostRecord) + seq![
            Action::Binary(BinaryOp::Ult, Reg::Test, Variable::Register(Reg::R2),
                Variable::Register(Reg::Sp)),
        ],
    ensures
        run_actions(s, acts) == Some(ret_marked(s)),
{
    assert(acts =~= seq![
        Action::Constant(Reg::R2, HANDLER_SP_OFF as i64),
        Action::Binary(BinaryOp::Add, Reg::R2, g0(), Variable::Register(Reg::R2)),
        Action::Load(Reg::R2, Variable::Register(Reg::R2), Width::Eight,
            AliasClass::HostRecord),
        Action::Binary(BinaryOp::Ult, Reg::Test, Variable::Register(Reg::R2),
            Variable::Register(Reg::Sp)),
    ]);
    let t1 = with_reg(s, Reg::R2, 56);
    let t2 = with_reg(t1, Reg::R2, w64(s.g0 + 56));
    assert(w64(s.g0 + 56) == s.g0 + 56);
    let t3 = with_reg(t2, Reg::R2, s.record.handler_sp);
    assert(step_action(t2, acts[2]) == Some(t3)) by {
        assert((s.g0 + 56) as u64 as int - s.g0 as int == 56);
    }
    let flag: u64 = if s.record.handler_sp < s.regs.sp {
        1
    } else {
        0
    };
    let t4 = with_reg(t3, Reg::Test, flag);
    assert(run_actions(s, acts) == Some(t4)) by {
        reveal_with_fuel(run_actions_from, 6);
        assert(step_action(s, acts[0]) == Some(t1));
        assert(step_action(t1, acts[1]) == Some(t2));
        assert(step_action(t3, acts[3]) == Some(t4));
    }
    assert(t4 =~= ret_marked(s));
}

/// The state a return leaves when the pointer is at or below the
/// watermark: nothing popped — the return stack, its pointer and every
/// other register but the watermark copy and the test flag are exactly
/// as before.
pub open spec fn ret_mark_post(s: MachineState) -> MachineState {
    MachineState {
        regs: RegBank { r2: s.record.handler_sp, test: 0, ..s.regs },
        ..s
    }
}

/// The state a return leaves when the address is misaligned: the address
/// stays on the return stack with the pointer restored.
pub open spec fn ret_mis_post(s: MachineState) -> MachineState {
    let a = s.rstack[s.regs.sp as int];
    MachineState {
        regs: RegBank {
            r2: s.record.handler_sp,
            temp: 1,
            test: a & 7,
            ..write_reg(s.regs, Reg::R1, a)
        },
        ..s
    }
}

/// The state a completed return leaves: the address popped into the
/// program counter.
pub open spec fn ret_ok_post(s: MachineState) -> MachineState {
    let a = s.rstack[s.regs.sp as int];
    MachineState {
        regs: RegBank {
            pc: a,
            r1: a,
            r2: s.record.handler_sp,
            temp: 1,
            test: 0,
            sp: w64(s.regs.sp - 1),
            ..s.regs
        },
        ..s
    }
}

/// What it means for `e` to be the handler of the return instruction: a
/// pointer at or below the watermark — any pointer, including one whose
/// decrement would wrap — deoptimizes without popping; past the
/// watermark, a misaligned address deoptimizes with the pop undone;
/// otherwise the address becomes the program counter.
pub open spec fn is_ret_handler(e: Ebb<EntryId>, root: EntryId, deopt: EntryId) -> bool {
    &&& forall|s: MachineState|
        record_ok(s) && s.regs.sp <= s.record.handler_sp ==> #[trigger] run_ebb(s, e) == Some(
            (ret_mark_post(s), deopt),
        )
    &&& forall|s: MachineState|
        record_ok(s) && ret_ok(s) && s.record.handler_sp < s.regs.sp && s.regs.sp
            < s.rstack.len() && s.rstack[s.regs.sp as int] & 7 != 0 ==> #[trigger] run_ebb(s, e)
            == Some((ret_mis_post(s), deopt))
    &&& forall|s: MachineState|
        record_ok(s) && ret_ok(s) && s.record.handler_sp < s.regs.sp && s.regs.sp
            < s.rstack.len() && s.rstack[s.regs.sp as int] & 7 == 0 ==> #[trigger] run_ebb(s, e)
            == Some((ret_ok_post(s), root))
}

/// Builds the handler block for the return instruction. The watermark is
/// tested first, on the undecremented pointer, so a pointer at or below
/// the watermark — including one whose decrement would wrap — always
/// deoptimizes before anything is popped.
#[verifier::rlimit(100)]
fn build_ret(root: EntryId, deopt: EntryId) -> (e: Ebb<EntryId>)
    ensures
        is_ret_handler(e, root, deopt),
{
    let fail0 = build_leaf(deopt);
    let ghost fail0_spec = fail0;
    let fail1 = build_restore_sp(deopt);
    let ghost fail1_spec = fail1;
    let mut b: Builder<EntryId> = Builder::new();
    b.load(Reg::R2, g0_var(), HANDLER_SP_OFF as i64, Width::Eight, AliasClass::HostRecord);
    b.binary(BinaryOp::Ult, Reg::Test, Variable::Register(Reg::R2), Variable::Register(Reg::Sp));
    let ghost guard1_acts = b.actions@;
    b.guard(Variable::Register(Reg::Test), true, fail0);
    machine_pop_s(&mut b, Reg::R1);
    b.const_binary(BinaryOp::And, Reg::Test, Variable::Register(Reg::R1), 7);
    let ghost guard2_acts = b.actions@;
    b.guard(Variable::Register(Reg::Test), false, fail1);
    b.move_(Variable::Register(Reg::Pc), Variable::Register(Reg::R1));
    let ghost acts = b.actions@;
    let ghost gs = b.guards@;
    let e = b.jump(root);
    proof {
        assert(gs.len() == 2);
        assert(gs[0].actions@ == guard1_acts);
        assert(gs[1].actions@ == guard2_acts);
        assert(guard1_acts =~= load_actions(Reg::R2, g0(), HANDLER_SP_OFF as i64, Width::Eight,
            AliasClass::HostRecord) + seq![
            Action::Binary(BinaryOp::Ult, Reg::Test, Variable::Register(Reg::R2),
                Variable::Register(Reg::Sp)),
        ]);
        assert(guard2_acts =~= rpop_actions(Reg::R1) + const_binary_actions(BinaryOp::And,
            Reg::Test, Variable::Register(Reg::R1), 7));
        assert(acts =~= seq![
            Action::Move(Variable::Register(Reg::Pc), Variable::Register(Reg::R1)),
        ]);
        assert forall|s: MachineState|
            record_ok(s) && s.regs.sp <= s.record.handler_sp implies #[trigger] run_ebb(s, e)
            == Some((ret_mark_post(s), deopt)) by {
            assert(run_ebb(s, e) == run_guarded(s, gs, 0, acts, Ending::Leaf(root)));
            lemma_ret_watermark(s, gs[0].actions@);
            let t = ret_marked(s);
            lemma_guard_divert(s, gs, 0, acts, Ending::Leaf(root), t);
            assert(run_ebb(t, fail0_spec) == Some((t, deopt)));
            assert(t =~= ret_mark_post(s));
        }
        assert forall|s: MachineState|
            record_ok(s) && ret_ok(s) && s.record.handler_sp < s.regs.sp && s.regs.sp
                < s.rstack.len() && s.rstack[s.regs.sp as int] & 7 != 0 implies #[trigger]
            run_ebb(s, e) == Some((ret_mis_post(s), deopt)) by {
            assert(run_ebb(s, e) == run_guarded(s, gs, 0, acts, Ending::Leaf(root)));
            lemma_ret_watermark(s, gs[0].actions@);
            let t = ret_marked(s);
            lemma_guard_step(s, gs, 0, acts, Ending::Leaf(root), t);
            lemma_rpop_mask(t, gs[1].actions@);
            let u = rmask_state(t);
            lemma_guard_divert(t, gs, 1, acts, Ending::Leaf(root), u);
            assert(run_ebb(u, fail1_spec) == Some((restore_sp_post(u), deopt)));
            assert(restore_sp_post(u) =~= ret_mis_post(s)) by {
                lemma_w64_add(s.regs.sp - 1, 1);
            }
        }
        assert forall|s: MachineState|
            record_ok(s) && ret_ok(s) && s.record.handler_sp < s.regs.sp && s.regs.sp
                < s.rstack.len() && s.rstack[s.regs.sp as int] & 7 == 0 implies #[trigger]
            run_ebb(s, e) == Some((ret_ok_post(s), root)) by {
            assert(run_ebb(s, e) == run_guarded(s, gs, 0, acts, Ending::Leaf(root)));
            lemma_ret_watermark(s, gs[0].actions@);
            let t = ret_marked(s);
            lemma_guard_step(s, gs, 0, acts, Ending::Leaf(root), t);
            lemma_rpop_mask(t, gs[1].actions@);
            let u = rmask_state(t);
            lemma_guard_step(t, gs, 1, acts, Ending::Leaf(root), u);
            lemma_guard_end(u, gs, acts, Ending::Leaf(root));
            let u2 = with_reg(u, Reg::Pc, s.rstack[s.regs.sp as int]);
            assert(run_actions(u, acts) == Some(u2)) by {
                reveal_with_fuel(run_actions_from, 3);
            }
            assert(u2 =~= ret_ok_post(s));
        }
    }
    e
}

// ---------------------------------------------------------------------------
// The division handlers. Division by zero and the one overflowing signed
// case are guarded and given the results the instruction set defines, so
// neither ever reaches a native division.

/// The greatest word: the two's-complement pattern of -1.
pub open spec fn all_ones() -> u64 {
    0xffff_ffff_ffff_ffff
}

/// The two's-complement pattern of the minimum signed word.
pub open spec fn min_word() -> u64 {
    0x8000_0000_0000_0000
}

/// Builds the divisor-zero block: the instruction-set-defined result of
/// dividing by zero is quotient = numerator, remainder = 0, so the
/// numerator (second working register) and the zero divisor (first
/// working register) are pushed back in that order.
#[verifier::rlimit(100)]
fn build_div_zero(root: EntryId) -> (e: Ebb<EntryId>)
    ensures
        forall|s2: MachineState|
            data_ok(s2) && w64(s2.regs.dp + 1) < s2.dstack.len() && w64(w64(s2.regs.dp + 1) + 1)
                < s2.dstack.len() ==> #[trigger] run_ebb(s2, e) == Some(
                (dpush_post(dpush_post(s2, Reg::R2), Reg::R1), root),
            ),
{
    let mut b: Builder<EntryId> = Builder::new();
    machine_push(&mut b, Reg::R2);
    machine_push(&mut b, Reg::R1);
    let ghost acts = b.actions@;
    let ghost gs = b.guards@;
    let e = b.jump(root);
    proof {
        assert(acts =~= dpush_actions(Reg::R2) + dpush_actions(Reg::R1));
        assert forall|s2: MachineState|
            data_ok(s2) && w64(s2.regs.dp + 1) < s2.dstack.len() && w64(w64(s2.regs.dp + 1) + 1)
                < s2.dstack.len() implies #[trigger] run_ebb(s2, e) == Some(
            (dpush_post(dpush_post(s2, Reg::R2), Reg::R1), root),
        ) by {
            assert(run_ebb(s2, e) == run_guarded(s2, gs, 0, acts, Ending::Leaf(root)));
            lemma_guard_end(s2, gs, acts, Ending::Leaf(root));
            lemma_run_actions_append(s2, dpush_actions(Reg::R2), dpush_actions(Reg::R1));
            lemma_dpush(s2, Reg::R2);
            lemma_dpush(dpush_post(s2, Reg::R2), Reg::R1);
        }
    }
    e
}

/// Builds the overflow block of the signed division: the defined result
/// of dividing the minimum word by -1 is quotient = 0, remainder =
/// numerator, pushed in that order.
#[verifier::rlimit(100)]
fn build_div_overflow(root: EntryId) -> (e: Ebb<EntryId>)
    ensures
        forall|s2: MachineState|
            data_ok(s2) && w64(s2.regs.dp + 1) < s2.dstack.len() && w64(w64(s2.regs.dp + 1) + 1)
                < s2.dstack.len() ==> #[trigger] run_ebb(s2, e) == Some(
                (dpush_post(dpush_post(with_reg(s2, Reg::R1, 0), Reg::R1), Reg::R2), root),
            ),
{
    let mut b: Builder<EntryId> = Builder::new();
    b.const_(Reg::R1, 0);
    machine_push(&mut b, Reg::R1);
    machine_push(&mut b, Reg::R2);
    let ghost acts = b.actions@;
    let ghost gs = b.guards@;
    let e = b.jump(root);
    proof {
        assert(acts =~= seq![Action::Constant(Reg::R1, 0)] + (dpush_actions(Reg::R1)
            + dpush_actions(Reg::R2)));
        assert forall|s2: MachineState|
            data_ok(s2) && w64(s2.regs.dp + 1) < s2.dstack.len() && w64(w64(s2.regs.dp + 1) + 1)
                < s2.dstack.len() implies #[trigger] run_ebb(s2, e) == Some(
            (dpush_post(dpush_post(with_reg(s2, Reg::R1, 0), Reg::R1), Reg::R2), root),
        ) by {
            assert(run_ebb(s2, e) == run_guarded(s2, gs, 0, acts, Ending::Leaf(root)));
            lemma_guard_end(s2, gs, acts, Ending::Leaf(root));
            let z = with_reg(s2, Reg::R1, 0);
            lemma_run_actions_append(s2, seq![Action::Constant(Reg::R1, 0)], dpush_actions(
                Reg::R1) + dpush_actions(Reg::R2));
            assert(run_actions(s2, seq![Action::Constant(Reg::R1, 0)]) == Some(z)) by {
                reveal_with_fuel(run_actions_from, 2);
            }
            lemma_run_actions_append(z, dpush_actions(Reg::R1), dpush_actions(Reg::R2));
            lemma_dpush(z, Reg::R1);
            lemma_dpush(dpush_post(z, Reg::R1), Reg::R2);
        }
    }
    e
}

/// The state after the signed division's pops and special-case tests.
pub open spec fn divmod_tested(s: MachineState) -> MachineState {
    let d = s.dstack[s.regs.dp as int];
    let n = s.dstack[s.regs.dp - 1];
    let f2: u64 = if d == all_ones() {
        1
    } else {
        0
    };
    let both: u64 = if n == min_word() && d == all_ones() {
        1
    } else {
        0
    };
    MachineState {
        regs: RegBank {
            r1: d,
            r2: n,
            temp: 1,
            opcode: f2,
            test: both,
            dp: w64(s.regs.dp - 2),
            ..s.regs
        },
        ..s
    }
}

/// The signed division's entry actions compute [`divmod_tested`].
#[verifier::rlimit(100)]
#[verifier::spinoff_prover]
proof fn lemma_divmod_entry(s: MachineState, acts: Seq<Action>)
    requires
        data_ok(s),
        1 <= s.regs.dp < s.dstack.len(),
        acts == dpop_actions(Reg::R1) + (dpop_actions(Reg::R2) + (const_binary_actions(
            BinaryOp::Eq,
            Reg::Test,
            Variable::Register(Reg::R2),
            i64::MIN,
        ) + (const_binary_actions(BinaryOp::Eq, Reg::Opcode, Variable::Register(Reg::R1), -1i64)
            + seq![
            Action::Binary(BinaryOp::And, Reg::Test, Variable::Register(Reg::Test),
                Variable::Register(Reg::Opcode)),
        ]))),
    ensures
        run_actions(s, acts) == Some(divmod_tested(s)),
{
    let d = s.dstack[s.regs.dp as int];
    let n = s.dstack[s.regs.dp - 1];
    let tail1 = const_binary_actions(BinaryOp::Eq, Reg::Test, Variable::Register(Reg::R2),
        i64::MIN) + (const_binary_actions(BinaryOp::Eq, Reg::Opcode, Variable::Register(Reg::R1),
        -1i64) + seq![
        Action::Binary(BinaryOp::And, Reg::Test, Variable::Register(Reg::Test),
            Variable::Register(Reg::Opcode)),
    ]);
    lemma_run_actions_append(s, dpop_actions(Reg::R1), dpop_actions(Reg::R2) + tail1);
    lemma_dpop(s, Reg::R1);
    let t1 = dpop_post(s, Reg::R1);
    assert(t1.regs.dp == s.regs.dp - 1) by {
        assert(w64(s.regs.dp - 1) == s.regs.dp - 1);
    }
    lemma_run_actions_append(t1, dpop_actions(Reg::R2), tail1);
    lemma_dpop(t1, Reg::R2);
    let t2 = dpop_post(t1, Reg::R2);
    lemma_divmod_tests(s, t2, tail1);
}

/// The special-case tests after the signed division's pops.
#[verifier::rlimit(100)]
#[verifier::spinoff_prover]
proof fn lemma_divmod_tests(s: MachineState, t2: MachineState, tail1: Seq<Action>)
    requires
        data_ok(s),
        1 <= s.regs.dp < s.dstack.len(),
        t2 == dpop_post(dpop_post(s, Reg::R1), Reg::R2),
        w64(s.regs.dp - 1) == s.regs.dp - 1,
        tail1 == const_binary_actions(BinaryOp::Eq, Reg::Test, Variable::Register(Reg::R2),
            i64::MIN) + (const_binary_actions(BinaryOp::Eq, Reg::Opcode,
            Variable::Register(Reg::R1), -1i64) + seq![
            Action::Binary(BinaryOp::And, Reg::Test, Variable::Register(Reg::Test),
                Variable::Register(Reg::Opcode)),
        ]),
    ensures
        run_actions(t2, tail1) == Some(divmod_tested(s)),
{
    let d = s.dstack[s.regs.dp as int];
    let n = s.dstack[s.regs.dp - 1];
    assert(tail1 =~= seq![
        Action::Constant(Reg::Test, i64::MIN),
        Action::Binary(BinaryOp::Eq, Reg::Test, Variable::Register(Reg::R2),
            Variable::Register(Reg::Test)),
        Action::Constant(Reg::Opcode, -1i64),
        Action::Binary(BinaryOp::Eq, Reg::Opcode, Variable::Register(Reg::R1),
            Variable::Register(Reg::Opcode)),
        Action::Binary(BinaryOp::And, Reg::Test, Variable::Register(Reg::Test),
            Variable::Register(Reg::Opcode)),
    ]);
    let f1: u64 = if n == min_word() {
        1
    } else {
        0
    };
    let f2: u64 = if d == all_ones() {
        1
    } else {
        0
    };
    let u1 = with_reg(t2, Reg::Test, min_word());
    let u2 = with_reg(u1, Reg::Test, f1);
    let u3 = with_reg(u2, Reg::Opcode, all_ones());
    let u4 = with_reg(u3, Reg::Opcode, f2);
    let u5 = with_reg(u4, Reg::Test, f1 & f2);
    assert(i64::MIN as u64 == 0x8000_0000_0000_0000u64) by (bit_vector);
    assert((-1i64) as u64 == 0xffff_ffff_ffff_ffffu64) by (bit_vector);
    assert(run_actions(t2, tail1) == Some(u5)) by {
        reveal_with_fuel(run_actions_from, 7);
        assert(step_action(t2, tail1[0]) == Some(u1));
        assert(step_action(u1, tail1[1]) == Some(u2));
        assert(step_action(u2, tail1[2]) == Some(u3));
        assert(step_action(u3, tail1[3]) == Some(u4));
        assert(step_action(u4, tail1[4]) == Some(u5));
    }
    assert(1u64 & 1 == 1 && 1u64 & 0 == 0 && 0u64 & 1 == 0 && 0u64 & 0 == 0) by (bit_vector);
    assert(u5 =~= divmod_tested(s));
}

/// Signed interpretation is a bijection on the special patterns the
/// division guards test for.
pub proof fn lemma_signed_patterns(x: u64)
    ensures
        (as_signed(x) == i64::MIN) <==> (x == min_word()),
        (as_signed(x) == -1) <==> (x == all_ones()),
{
    assert((x as i64 == i64::MIN) <==> (x == 0x8000_0000_0000_0000u64)) by (bit_vector);
    assert((x as i64 == -1i64) <==> (x == 0xffff_ffff_ffff_ffffu64)) by (bit_vector);
}

/// The state the signed division handler leaves when the divisor is
/// zero: quotient = numerator, remainder = 0.
pub open spec fn divmod_post_zero(s: MachineState) -> MachineState {
    let n = s.dstack[s.regs.dp - 1];
    MachineState {
        regs: RegBank {
            r1: 0,
            r2: n,
            temp: (s.dbase + 8 * s.regs.dp) as u64,
            opcode: 0,
            test: 0,
            ..s.regs
        },
        dstack: s.dstack.update(s.regs.dp - 1, n).update(s.regs.dp as int, 0),
        ..s
    }
}

/// The state the signed division handler leaves on the one overflowing
/// pair (minimum word divided by -1): quotient = 0, remainder =
/// numerator.
pub open spec fn divmod_post_overflow(s: MachineState) -> MachineState {
    let n = s.dstack[s.regs.dp - 1];
    MachineState {
        regs: RegBank {
            r1: 0,
            r2: n,
            temp: (s.dbase + 8 * s.regs.dp) as u64,
            opcode: 1,
            test: 1,
            ..s.regs
        },
        dstack: s.dstack.update(s.regs.dp - 1, 0).update(s.regs.dp as int, n),
        ..s
    }
}

/// The quotient the signed division handler computes in the ordinary
/// case: native truncated division.
pub open spec fn divmod_quot(n: u64, d: u64) -> u64 {
    w64(tdiv(as_signed(n), as_signed(d)))
}

/// The remainder the signed division handler computes in the ordinary
/// case: the numerator less quotient times divisor, at word precision.
pub open spec fn divmod_rem(n: u64, d: u64) -> u64 {
    w64(n - w64(divmod_quot(n, d) * d))
}

/// The state the signed division handler leaves in the ordinary case:
/// quotient then remainder, remainder on top.
pub open spec fn divmod_post_normal(s: MachineState) -> MachineState {
    let d = s.dstack[s.regs.dp as int];
    let n = s.dstack[s.regs.dp - 1];
    let f2: u64 = if d == all_ones() {
        1
    } else {
        0
    };
    MachineState {
        regs: RegBank {
            r1: d,
            r2: n,
            temp: (s.dbase + 8 * s.regs.dp) as u64,
            opcode: f2,
            test: divmod_rem(n, d),
            ..s.regs
        },
        dstack: s.dstack.update(s.regs.dp - 1, divmod_quot(n, d)).update(
            s.regs.dp as int,
            divmod_rem(n, d),
        ),
        ..s
    }
}

/// What it means for `e` to be the signed division handler: it pops the
/// divisor then the numerator and pushes quotient then remainder, with
/// the divisor-zero and overflow cases given their defined results and no
/// path ever reaching an undefined native division.
pub open spec fn is_divmod_handler(e: Ebb<EntryId>, root: EntryId) -> bool {
    &&& forall|s: MachineState|
        data_ok(s) && 1 <= s.regs.dp < s.dstack.len() && s.dstack[s.regs.dp - 1] == min_word()
            && s.dstack[s.regs.dp as int] == all_ones() ==> #[trigger] run_ebb(s, e) == Some(
            (divmod_post_overflow(s), root),
        )
    &&& forall|s: MachineState|
        data_ok(s) && 1 <= s.regs.dp < s.dstack.len() && s.dstack[s.regs.dp as int] == 0
            ==> #[trigger] run_ebb(s, e) == Some((divmod_post_zero(s), root))
    &&& forall|s: MachineState|
        data_ok(s) && 1 <= s.regs.dp < s.dstack.len() && s.dstack[s.regs.dp as int] != 0 && !(
        s.dstack[s.regs.dp - 1] == min_word() && s.dstack[s.regs.dp as int] == all_ones())
            ==> #[trigger] run_ebb(s, e) == Some((divmod_post_normal(s), root))
}

/// The main path of the signed division computes [`divmod_post_normal`]
/// from [`divmod_tested`].
#[verifier::rlimit(100)]
#[verifier::spinoff_prover]
proof fn lemma_divmod_main(s: MachineState, acts: Seq<Action>)
    requires
        data_ok(s),
        1 <= s.regs.dp < s.dstack.len(),
        s.dstack[s.regs.dp as int] != 0,
        !(s.dstack[s.regs.dp - 1] == min_word() && s.dstack[s.regs.dp as int] == all_ones()),
        acts == seq![
            Action::Binary(BinaryOp::SDiv, Reg::Test, Variable::Register(Reg::R2),
                Variable::Register(Reg::R1)),
        ] + (dpush_actions(Reg::Test) + (seq![
            Action::Binary(BinaryOp::Mul, Reg::Test, Variable::Register(Reg::Test),
                Variable::Register(Reg::R1)),
            Action::Binary(BinaryOp::Sub, Reg::Test, Variable::Register(Reg::R2),
                Variable::Register(Reg::Test)),
        ] + dpush_actions(Reg::Test))),
    ensures
        run_actions(divmod_tested(s), acts) == Some(divmod_post_normal(s)),
{
    let t = divmod_tested(s);
    let d = s.dstack[s.regs.dp as int];
    let n = s.dstack[s.regs.dp - 1];
    let q = divmod_quot(n, d);
    let r = divmod_rem(n, d);
    lemma_signed_patterns(d);
    lemma_signed_patterns(n);
    let m1 = seq![
        Action::Binary(BinaryOp::SDiv, Reg::Test, Variable::Register(Reg::R2),
            Variable::Register(Reg::R1)),
    ];
    let m2 = seq![
        Action::Binary(BinaryOp::Mul, Reg::Test, Variable::Register(Reg::Test),
            Variable::Register(Reg::R1)),
        Action::Binary(BinaryOp::Sub, Reg::Test, Variable::Register(Reg::R2),
            Variable::Register(Reg::Test)),
    ];
    lemma_run_actions_append(t, m1, dpush_actions(Reg::Test) + (m2 + dpush_actions(Reg::Test)));
    let t1 = with_reg(t, Reg::Test, q);
    assert(run_actions(t, m1) == Some(t1)) by {
        reveal_with_fuel(run_actions_from, 2);
        assert(binary_sem(BinaryOp::SDiv, n, d) == Some(q));
    }
    lemma_run_actions_append(t1, dpush_actions(Reg::Test), m2 + dpush_actions(Reg::Test));
    assert(w64(t1.regs.dp + 1) == s.regs.dp - 1) by {
        lemma_w64_add(s.regs.dp - 2, 1);
        assert(w64(s.regs.dp - 1) == s.regs.dp - 1);
    }
    lemma_dpush(t1, Reg::Test);
    let u1 = dpush_post(t1, Reg::Test);
    lemma_run_actions_append(u1, m2, dpush_actions(Reg::Test));
    let u2 = with_reg(u1, Reg::Test, w64(q * d));
    let u3 = with_reg(u2, Reg::Test, r);
    assert(run_actions(u1, m2) == Some(u3)) by {
        reveal_with_fuel(run_actions_from, 3);
        assert(step_action(u1, m2[0]) == Some(u2));
        assert(step_action(u2, m2[1]) == Some(u3));
    }
    assert(w64(u3.regs.dp + 1) == s.regs.dp) by {
        lemma_w64_add(s.regs.dp - 1, 1);
    }
    lemma_dpush(u3, Reg::Test);
    assert(dpush_post(u3, Reg::Test) =~= divmod_post_normal(s));
}

/// Builds the handler block for the signed division instruction.
#[verifier::rlimit(100)]
fn build_divmod(root: EntryId) -> (e: Ebb<EntryId>)
    ensures
        is_divmod_handler(e, root),
{
    let ovf = build_div_overflow(root);
    let ghost ovf_spec = ovf;
    let zero = build_div_zero(root);
    let ghost zero_spec = zero;
    let mut b: Builder<EntryId> = Builder::new();
    machine_pop(&mut b, Reg::R1);
    machine_pop(&mut b, Reg::R2);
    b.const_binary(BinaryOp::Eq, Reg::Test, Variable::Register(Reg::R2), i64::MIN);
    b.const_binary(BinaryOp::Eq, Reg::Opcode, Variable::Register(Reg::R1), -1i64);
    b.binary(BinaryOp::And, Reg::Test, Variable::Register(Reg::Test),
        Variable::Register(Reg::Opcode));
    let ghost g1_acts = b.actions@;
    b.guard(Variable::Register(Reg::Test), false, ovf);
    b.guard(Variable::Register(Reg::R1), true, zero);
    b.binary(BinaryOp::SDiv, Reg::Test, Variable::Register(Reg::R2),
        Variable::Register(Reg::R1));
    machine_push(&mut b, Reg::Test);
    b.binary(BinaryOp::Mul, Reg::Test, Variable::Register(Reg::Test),
        Variable::Register(Reg::R1));
    b.binary(BinaryOp::Sub, Reg::Test, Variable::Register(Reg::R2),
        Variable::Register(Reg::Test));
    machine_push(&mut b, Reg::Test);
    let ghost acts = b.actions@;
    let ghost gs = b.guards@;
    let e = b.jump(root);
    proof {
        assert(gs.len() == 2);
        assert(gs[0].actions@ == g1_acts);
        assert(gs[1].actions@.len() == 0);
        assert(g1_acts =~= dpop_actions(Reg::R1) + (dpop_actions(Reg::R2)
            + (const_binary_actions(BinaryOp::Eq, Reg::Test, Variable::Register(Reg::R2),
            i64::MIN) + (const_binary_actions(BinaryOp::Eq, Reg::Opcode,
            Variable::Register(Reg::R1), -1i64) + seq![
            Action::Binary(BinaryOp::And, Reg::Test, Variable::Register(Reg::Test),
                Variable::Register(Reg::Opcode)),
        ]))));
        assert(acts =~= seq![
            Action::Binary(BinaryOp::SDiv, Reg::Test, Variable::Register(Reg::R2),
                Variable::Register(Reg::R1)),
        ] + (dpush_actions(Reg::Test) + (seq![
            Action::Binary(BinaryOp::Mul, Reg::Test, Variable::Register(Reg::Test),
                Variable::Register(Reg::R1)),
            Action::Binary(BinaryOp::Sub, Reg::Test, Variable::Register(Reg::R2),
                Variable::Register(Reg::Test)),
        ] + dpush_actions(Reg::Test))));
        assert forall|s: MachineState|
            data_ok(s) && 1 <= s.regs.dp < s.dstack.len() && s.dstack[s.regs.dp - 1]
                == min_word() && s.dstack[s.regs.dp as int] == all_ones() implies #[trigger]
            run_ebb(s, e) == Some((divmod_post_overflow(s), root)) by {
            assert(run_ebb(s, e) == run_guarded(s, gs, 0, acts, Ending::Leaf(root)));
            lemma_divmod_entry(s, gs[0].actions@);
            let t = divmod_tested(s);
            lemma_guard_divert(s, gs, 0, acts, Ending::Leaf(root), t);
            lemma_divmod_overflow_exit(s, t, ovf_spec, root);
        }
        assert forall|s: MachineState|
            data_ok(s) && 1 <= s.regs.dp < s.dstack.len() && s.dstack[s.regs.dp as int] == 0
                implies #[trigger] run_ebb(s, e) == Some((divmod_post_zero(s), root)) by {
            assert(run_ebb(s, e) == run_guarded(s, gs, 0, acts, Ending::Leaf(root)));
            lemma_divmod_entry(s, gs[0].actions@);
            let t = divmod_tested(s);
            lemma_guard_step(s, gs, 0, acts, Ending::Leaf(root), t);
            assert(run_actions(t, gs[1].actions@) == Some(t)) by {
                assert(gs[1].actions@ =~= Seq::<Action>::empty());
            }
            lemma_guard_divert(t, gs, 1, acts, Ending::Leaf(root), t);
            lemma_divmod_zero_exit(s, t, zero_spec, root);
        }
        assert forall|s: MachineState|
            data_ok(s) && 1 <= s.regs.dp < s.dstack.len() && s.dstack[s.regs.dp as int] != 0
                && !(s.dstack[s.regs.dp - 1] == min_word() && s.dstack[s.regs.dp as int]
                == all_ones()) implies #[trigger] run_ebb(s, e) == Some(
            (divmod_post_normal(s), root),
        ) by {
            assert(run_ebb(s, e) == run_guarded(s, gs, 0, acts, Ending::Leaf(root)));
            lemma_divmod_entry(s, gs[0].actions@);
            let t = divmod_tested(s);
            lemma_guard_step(s, gs, 0, acts, Ending::Leaf(root), t);
            assert(run_actions(t, gs[1].actions@) == Some(t)) by {
                assert(gs[1].actions@ =~= Seq::<Action>::empty());
            }
            lemma_guard_step(t, gs, 1, acts, Ending::Leaf(root), t);
            lemma_guard_end(t, gs, acts, Ending::Leaf(root));
            lemma_divmod_main(s, acts);
        }
    }
    e
}

/// Instantiating the overflow block at the tested state yields
/// [`divmod_post_overflow`].
#[verifier::rlimit(100)]
#[verifier::spinoff_prover]
proof fn lemma_divmod_overflow_exit(
    s: MachineState,
    t: MachineState,
    ovf: Ebb<EntryId>,
    root: EntryId,
)
    requires
        data_ok(s),
        1 <= s.regs.dp < s.dstack.len(),
        s.dstack[s.regs.dp - 1] == min_word(),
        s.dstack[s.regs.dp as int] == all_ones(),
        t == divmod_tested(s),
        forall|s2: MachineState|
            data_ok(s2) && w64(s2.regs.dp + 1) < s2.dstack.len() && w64(w64(s2.regs.dp + 1) + 1)
                < s2.dstack.len() ==> #[trigger] run_ebb(s2, ovf) == Some(
                (dpush_post(dpush_post(with_reg(s2, Reg::R1, 0), Reg::R1), Reg::R2), root),
            ),
    ensures
        run_ebb(t, ovf) == Some((divmod_post_overflow(s), root)),
{
    assert(w64(t.regs.dp + 1) == s.regs.dp - 1) by {
        lemma_w64_add(s.regs.dp - 2, 1);
        assert(w64(s.regs.dp - 1) == s.regs.dp - 1);
    }
    assert(w64(w64(t.regs.dp + 1) + 1) == s.regs.dp) by {
        lemma_w64_add(s.regs.dp - 1, 1);
    }
    assert(run_ebb(t, ovf) == Some(
        (dpush_post(dpush_post(with_reg(t, Reg::R1, 0), Reg::R1), Reg::R2), root),
    ));
    assert(dpush_post(dpush_post(with_reg(t, Reg::R1, 0), Reg::R1), Reg::R2)
        =~= divmod_post_overflow(s));
}

/// Instantiating the divisor-zero block at the tested state yields
/// [`divmod_post_zero`].
#[verifier::rlimit(100)]
#[verifier::spinoff_prover]
proof fn lemma_divmod_zero_exit(s: MachineState, t: MachineState, zero: Ebb<EntryId>, root: EntryId)
    requires
        data_ok(s),
        1 <= s.regs.dp < s.dstack.len(),
        s.dstack[s.regs.dp as int] == 0,
        t == divmod_tested(s),
        forall|s2: MachineState|
            data_ok(s2) && w64(s2.regs.dp + 1) < s2.dstack.len() && w64(w64(s2.regs.dp + 1) + 1)
                < s2.dstack.len() ==> #[trigger] run_ebb(s2, zero) == Some(
                (dpush_post(dpush_post(s2, Reg::R2), Reg::R1), root),
            ),
    ensures
        run_ebb(t, zero) == Some((divmod_post_zero(s), root)),
{
    assert(w64(t.regs.dp + 1) == s.regs.dp - 1) by {
        lemma_w64_add(s.regs.dp - 2, 1);
        assert(w64(s.regs.dp - 1) == s.regs.dp - 1);
    }
    assert(w64(w64(t.regs.dp + 1) + 1) == s.regs.dp) by {
        lemma_w64_add(s.regs.dp - 1, 1);
    }
    assert(run_ebb(t, zero) == Some(
        (dpush_post(dpush_post(t, Reg::R2), Reg::R1), root),
    ));
    assert(dpush_post(dpush_post(t, Reg::R2), Reg::R1) =~= divmod_post_zero(s));
}

/// The state the unsigned division handler leaves when the divisor is
/// zero: quotient = numerator, remainder = 0.
pub open spec fn udivmod_post_zero(s: MachineState) -> MachineState {
    let n = s.dstack[s.regs.dp - 1];
    MachineState {
        regs: RegBank {
            r1: 0,
            r2: n,
            temp: (s.dbase + 8 * s.regs.dp) as u64,
            ..s.regs
        },
        dstack: s.dstack.update(s.regs.dp - 1, n).update(s.regs.dp as int, 0),
        ..s
    }
}

/// The state the unsigned division handler leaves in the ordinary case:
/// quotient then remainder, remainder on top.
pub open spec fn udivmod_post_normal(s: MachineState) -> MachineState {
    let d = s.dstack[s.regs.dp as int];
    let n = s.dstack[s.regs.dp - 1];
    let q = n / d;
    let r = w64(n - w64(q * d));
    MachineState {
        regs: RegBank {
            r1: d,
            r2: n,
            temp: (s.dbase + 8 * s.regs.dp) as u64,
            test: r,
            ..s.regs
        },
        dstack: s.dstack.update(s.regs.dp - 1, q).update(s.regs.dp as int, r),
        ..s
    }
}

/// What it means for `e` to be the unsigned division handler.
pub open spec fn is_udivmod_handler(e: Ebb<EntryId>, root: EntryId) -> bool {
    &&& forall|s: MachineState|
        data_ok(s) && 1 <= s.regs.dp < s.dstack.len() && s.dstack[s.regs.dp as int] == 0
            ==> #[trigger] run_ebb(s, e) == Some((udivmod_post_zero(s), root))
    &&& forall|s: MachineState|
        data_ok(s) && 1 <= s.regs.dp < s.dstack.len() && s.dstack[s.regs.dp as int] != 0
            ==> #[trigger] run_ebb(s, e) == Some((udivmod_post_normal(s), root))
}

/// The main path of the unsigned division computes
/// [`udivmod_post_normal`] from the state after the pops.
#[verifier::rlimit(100)]
#[verifier::spinoff_prover]
proof fn lemma_udivmod_main(s: MachineState, acts: Seq<Action>)
    requires
        data_ok(s),
        1 <= s.regs.dp < s.dstack.len(),
        s.dstack[s.regs.dp as int] != 0,
        acts == seq![
            Action::Binary(BinaryOp::UDiv, Reg::Test, Variable::Register(Reg::R2),
                Variable::Register(Reg::R1)),
        ] + (dpush_actions(Reg::Test) + (seq![
            Action::Binary(BinaryOp::Mul, Reg::Test, Variable::Register(Reg::Test),
                Variable::Register(Reg::R1)),
            Action::Binary(BinaryOp::Sub, Reg::Test, Variable::Register(Reg::R2),
                Variable::Register(Reg::Test)),
        ] + dpush_actions(Reg::Test))),
    ensures
        run_actions(dpop_post(dpop_post(s, Reg::R1), Reg::R2), acts) == Some(
            udivmod_post_normal(s),
        ),
{
    let t = dpop_post(dpop_post(s, Reg::R1), Reg::R2);
    let d = s.dstack[s.regs.dp as int];
    let n = s.dstack[s.regs.dp - 1];
    let q = n / d;
    let r = w64(n - w64(q * d));
    let m1 = seq![
        Action::Binary(BinaryOp::UDiv, Reg::Test, Variable::Register(Reg::R2),
            Variable::Register(Reg::R1)),
    ];
    let m2 = seq![
        Action::Binary(BinaryOp::Mul, Reg::Test, Variable::Register(Reg::Test),
            Variable::Register(Reg::R1)),
        Action::Binary(BinaryOp::Sub, Reg::Test, Variable::Register(Reg::R2),
            Variable::Register(Reg::Test)),
    ];
    assert(w64(s.regs.dp - 1) == s.regs.dp - 1);
    lemma_run_actions_append(t, m1, dpush_actions(Reg::Test) + (m2 + dpush_actions(Reg::Test)));
    let t1 = with_reg(t, Reg::Test, q);
    assert(run_actions(t, m1) == Some(t1)) by {
        reveal_with_fuel(run_actions_from, 2);
        assert(binary_sem(BinaryOp::UDiv, n, d) == Some(q));
    }
    lemma_run_actions_append(t1, dpush_actions(Reg::Test), m2 + dpush_actions(Reg::Test));
    assert(w64(t1.regs.dp + 1) == s.regs.dp - 1) by {
        lemma_w64_add(s.regs.dp - 2, 1);
    }
    lemma_dpush(t1, Reg::Test);
    let u1 = dpush_post(t1, Reg::Test);
    lemma_run_actions_append(u1, m2, dpush_actions(Reg::Test));
    let u2 = with_reg(u1, Reg::Test, w64(q * d));
    let u3 = with_reg(u2, Reg::Test, r);
    assert(run_actions(u1, m2) == Some(u3)) by {
        reveal_with_fuel(run_actions_from, 3);
        assert(step_action(u1, m2[0]) == Some(u2));
        assert(step_action(u2, m2[1]) == Some(u3));
    }
    assert(w64(u3.regs.dp + 1) == s.regs.dp) by {
        lemma_w64_add(s.regs.dp - 1, 1);
    }
    lemma_dpush(u3, Reg::Test);
    assert(dpush_post(u3, Reg::Test) =~= udivmod_post_normal(s));
}

/// Builds the handler block for the unsigned division instruction.
#[verifier::rlimit(100)]
fn build_udivmod(root: EntryId) -> (e: Ebb<EntryId>)
    ensures
        is_udivmod_handler(e, root),
{
    let zero = build_div_zero(root);
    let ghost zero_spec = zero;
    let mut b: Builder<EntryId> = Builder::new();
    machine_pop(&mut b, Reg::R1);
    machine_pop(&mut b, Reg::R2);
    let ghost g1_acts = b.actions@;
    b.guard(Variable::Register(Reg::R1), true, zero);
    b.binary(BinaryOp::UDiv, Reg::Test, Variable::Register(Reg::R2),
        Variable::Register(Reg::R1));
    machine_push(&mut b, Reg::Test);
    b.binary(BinaryOp::Mul, Reg::Test, Variable::Register(Reg::Test),
        Variable::Register(Reg::R1));
    b.binary(BinaryOp::Sub, Reg::Test, Variable::Register(Reg::R2),
        Variable::Register(Reg::Test));
    machine_push(&mut b, Reg::Test);
    let ghost acts = b.actions@;
    let ghost gs = b.guards@;
    let e = b.jump(root);
    proof {
        assert(gs.len() == 1);
        assert(gs[0].actions@ == g1_acts);
        assert(g1_acts =~= dpop_actions(Reg::R1) + dpop_actions(Reg::R2));
        assert(acts =~= seq![
            Action::Binary(BinaryOp::UDiv, Reg::Test, Variable::Register(Reg::R2),
                Variable::Register(Reg::R1)),
        ] + (dpush_actions(Reg::Test) + (seq![
            Action::Binary(BinaryOp::Mul, Reg::Test, Variable::Register(Reg::Test),
                Variable::Register(Reg::R1)),
            Action::Binary(BinaryOp::Sub, Reg::Test, Variable::Register(Reg::R2),
                Variable::Register(Reg::Test)),
        ] + dpush_actions(Reg::Test))));
        assert forall|s: MachineState|
            data_ok(s) && 1 <= s.regs.dp < s.dstack.len() && s.dstack[s.regs.dp as int] == 0
                implies #[trigger] run_ebb(s, e) == Some((udivmod_post_zero(s), root)) by {
            assert(run_ebb(s, e) == run_guarded(s, gs, 0, acts, Ending::Leaf(root)));
            lemma_udivmod_pops(s, gs[0].actions@);
            let t = dpop_post(dpop_post(s, Reg::R1), Reg::R2);
            lemma_guard_divert(s, gs, 0, acts, Ending::Leaf(root), t);
            lemma_udivmod_zero_exit(s, t, zero_spec, root);
        }
        assert forall|s: MachineState|
            data_ok(s) && 1 <= s.regs.dp < s.dstack.len() && s.dstack[s.regs.dp as int] != 0
                implies #[trigger] run_ebb(s, e) == Some((udivmod_post_normal(s), root)) by {
            assert(run_ebb(s, e) == run_guarded(s, gs, 0, acts, Ending::Leaf(root)));
            lemma_udivmod_pops(s, gs[0].actions@);
            let t = dpop_post(dpop_post(s, Reg::R1), Reg::R2);
            lemma_guard_step(s, gs, 0, acts, Ending::Leaf(root), t);
            lemma_guard_end(t, gs, acts, Ending::Leaf(root));
            lemma_udivmod_main(s, acts);
        }
    }
    e
}

/// The unsigned division's two pops.
#[verifier::rlimit(100)]
#[verifier::spinoff_prover]
proof fn lemma_udivmod_pops(s: MachineState, acts: Seq<Action>)
    requires
        data_ok(s),
        1 <= s.regs.dp < s.dstack.len(),
        acts == dpop_actions(Reg::R1) + dpop_actions(Reg::R2),
    ensures
        run_actions(s, acts) == Some(dpop_post(dpop_post(s, Reg::R1), Reg::R2)),
{
    lemma_run_actions_append(s, dpop_actions(Reg::R1), dpop_actions(Reg::R2));
    lemma_dpop(s, Reg::R1);
    let t1 = dpop_post(s, Reg::R1);
    assert(t1.regs.dp == s.regs.dp - 1) by {
        assert(w64(s.regs.dp - 1) == s.regs.dp - 1);
    }
    lemma_dpop(t1, Reg::R2);
}

/// Instantiating the divisor-zero block after the unsigned division's
/// pops yields [`udivmod_post_zero`].
#[verifier::rlimit(100)]
#[verifier::spinoff_prover]
proof fn lemma_udivmod_zero_exit(
    s: MachineState,
    t: MachineState,
    zero: Ebb<EntryId>,
    root: EntryId,
)
    requires
        data_ok(s),
        1 <= s.regs.dp < s.dstack.len(),
        s.dstack[s.regs.dp as int] == 0,
        t == dpop_post(dpop_post(s, Reg::R1), Reg::R2),
        forall|s2: MachineState|
            data_ok(s2) && w64(s2.regs.dp + 1) < s2.dstack.len() && w64(w64(s2.regs.dp + 1) + 1)
                < s2.dstack.len() ==> #[trigger] run_ebb(s2, zero) == Some(
                (dpush_post(dpush_post(s2, Reg::R2), Reg::R1), root),
            ),
    ensures
        run_ebb(t, zero) == Some((udivmod_post_zero(s), root)),
{
    assert(w64(s.regs.dp - 1) == s.regs.dp - 1);
    assert(w64(t.regs.dp + 1) == s.regs.dp - 1) by {
        lemma_w64_add(s.regs.dp - 2, 1);
    }
    assert(w64(w64(t.regs.dp + 1) + 1) == s.regs.dp) by {
        lemma_w64_add(s.regs.dp - 1, 1);
    }
    assert(run_ebb(t, zero) == Some(
        (dpush_post(dpush_post(t, Reg::R2), Reg::R1), root),
    ));
    assert(dpush_post(dpush_post(t, Reg::R2), Reg::R1) =~= udivmod_post_zero(s));
}


// ---------------------------------------------------------------------------
// The remaining handler blocks. These mirror the instruction table
// directly; their behaviour is fixed by the builder contracts that pin
// their action sequences.

/// Builds the no-operation handler: straight back to dispatch.
fn build_nop(root: EntryId) -> (e: Ebb<EntryId>)
    ensures
        forall|s: MachineState| #[trigger] run_ebb(s, e) == Some((s, root)),
{
    let b: Builder<EntryId> = Builder::new();
    let ghost gs = b.guards@;
    let ghost acts = b.actions@;
    let e = b.jump(root);
    proof {
        assert forall|s: MachineState| #[trigger] run_ebb(s, e) == Some((s, root)) by {
            assert(run_ebb(s, e) == run_guarded(s, gs, 0, acts, Ending::Leaf(root)));
            lemma_guard_end(s, gs, acts, Ending::Leaf(root));
            assert(run_actions(s, acts) == Some(s)) by {
                reveal_with_fuel(run_actions_from, 1);
            }
        }
    }
    e
}

/// Builds an empty block transferring straight to `target`. Unpopulated
/// table slots and the trap class use it to deoptimize; the conditional
/// jumps use it as their fall-through.
fn build_leaf(target: EntryId) -> (e: Ebb<EntryId>)
    ensures
        is_deopt_leaf(e, target),
        forall|s: MachineState| #[trigger] run_ebb(s, e) == Some((s, target)),
{
    let b: Builder<EntryId> = Builder::new();
    let ghost gs = b.guards@;
    let ghost acts = b.actions@;
    let e = b.jump(target);
    proof {
        assert(e.actions@ =~= Seq::<Action>::empty());
        assert forall|s: MachineState| #[trigger] run_ebb(s, e) == Some((s, target)) by {
            assert(run_ebb(s, e) == run_guarded(s, gs, 0, acts, Ending::Leaf(target)));
            lemma_guard_end(s, gs, acts, Ending::Leaf(target));
            assert(run_actions(s, acts) == Some(s)) by {
                reveal_with_fuel(run_actions_from, 1);
            }
        }
    }
    e
}

/// An empty block that transfers straight to `deopt`.
pub open spec fn is_deopt_leaf(e: Ebb<EntryId>, deopt: EntryId) -> bool {
    &&& e.actions@.len() == 0
    &&& e.ending == Ending::Leaf(deopt)
}

/// The state the deoptimization body leaves: the program counter rewound
/// by one instruction width, so the host observes the address of the
/// faulting instruction, not past it.
pub open spec fn deopt_rewind(s: MachineState) -> MachineState {
    MachineState {
        regs: RegBank { temp: 8, pc: w64(s.regs.pc - 8), ..s.regs },
        ..s
    }
}

/// The deoptimization body: rewinds the program counter and transfers to
/// the undefined exit entry, whose epilogue then reports the
/// deoptimization status.
pub open spec fn is_deopt_body(e: Ebb<EntryId>) -> bool {
    forall|s: MachineState| #[trigger] run_ebb(s, e) == Some((deopt_rewind(s), EntryId(1)))
}

/// Builds the deoptimization body.
#[verifier::rlimit(50)]
fn build_deopt_body() -> (e: Ebb<EntryId>)
    ensures
        is_deopt_body(e),
{
    let mut b: Builder<EntryId> = Builder::new();
    b.const_binary(BinaryOp::Sub, Reg::Pc, Variable::Register(Reg::Pc), 8);
    let ghost gs = b.guards@;
    let ghost acts = b.actions@;
    let e = b.jump(EntryId(1));
    proof {
        assert forall|s: MachineState| #[trigger] run_ebb(s, e) == Some(
            (deopt_rewind(s), EntryId(1)),
        ) by {
            assert(run_ebb(s, e) == run_guarded(s, gs, 0, acts, Ending::Leaf(EntryId(1))));
            lemma_guard_end(s, gs, acts, Ending::Leaf(EntryId(1)));
            assert(acts =~= seq![
                Action::Constant(Reg::Temp, 8),
                Action::Binary(BinaryOp::Sub, Reg::Pc, Variable::Register(Reg::Pc),
                    Variable::Register(Reg::Temp)),
            ]);
            let t1 = with_reg(s, Reg::Temp, 8);
            let t2 = with_reg(t1, Reg::Pc, w64(s.regs.pc - 8));
            assert(run_actions(s, acts) == Some(t2)) by {
                reveal_with_fuel(run_actions_from, 3);
            }
            assert(t2 =~= deopt_rewind(s));
        }
    }
    e
}

/// The state the compact call leaves: the resume address (the advanced
/// program counter) pushed onto the return stack, and the program
/// counter moved to the instruction's address plus the word's offset
/// field.
pub open spec fn calli_post(s: MachineState) -> MachineState {
    let off = rel_off(s.regs.opcode);
    let nsp = w64(s.regs.sp + 1);
    MachineState {
        regs: RegBank {
            pc: w64(s.regs.pc + off - 8),
            r1: off,
            sp: nsp,
            temp: 8,
            ..s.regs
        },
        rstack: s.rstack.update(nsp as int, s.regs.pc),
        ..s
    }
}

/// What it means for `e` to be the compact-call handler: the data stack
/// is untouched.
pub open spec fn is_calli_handler(e: Ebb<EntryId>, root: EntryId) -> bool {
    forall|s: MachineState|
        ret_ok(s) && w64(s.regs.sp + 1) < s.rstack.len() ==> #[trigger] run_ebb(s, e) == Some(
            (calli_post(s), root),
        )
}

/// Builds the compact-call handler: push the resume address, then add the
/// word's offset field to the program counter.
#[verifier::rlimit(100)]
fn build_calli(root: EntryId) -> (e: Ebb<EntryId>)
    ensures
        is_calli_handler(e, root),
{
    let mut b: Builder<EntryId> = Builder::new();
    machine_push_s(&mut b, Reg::Pc);
    b.const_binary(BinaryOp::And, Reg::R1, Variable::Register(Reg::Opcode), -8i64);
    b.binary(BinaryOp::Add, Reg::Pc, Variable::Register(Reg::Pc), Variable::Register(Reg::R1));
    b.const_binary(BinaryOp::Sub, Reg::Pc, Variable::Register(Reg::Pc), 8);
    let ghost acts = b.actions@;
    let ghost gs = b.guards@;
    let e = b.jump(root);
    proof {
        let tail = seq![
            Action::Binary(BinaryOp::Add, Reg::Pc, Variable::Register(Reg::Pc),
                Variable::Register(Reg::R1)),
            Action::Constant(Reg::Temp, 8),
            Action::Binary(BinaryOp::Sub, Reg::Pc, Variable::Register(Reg::Pc),
                Variable::Register(Reg::Temp)),
        ];
        assert(acts =~= rpush_actions(Reg::Pc) + (rel_off_actions() + tail));
        assert forall|s: MachineState|
            ret_ok(s) && w64(s.regs.sp + 1) < s.rstack.len() implies #[trigger] run_ebb(s, e)
            == Some((calli_post(s), root)) by {
            assert(run_ebb(s, e) == run_guarded(s, gs, 0, acts, Ending::Leaf(root)));
            lemma_guard_end(s, gs, acts, Ending::Leaf(root));
            lemma_run_actions_append(s, rpush_actions(Reg::Pc), rel_off_actions() + tail);
            lemma_rpush(s, Reg::Pc);
            let u = rpush_post(s, Reg::Pc);
            lemma_run_actions_append(u, rel_off_actions(), tail);
            lemma_rel_off(u);
            let off = rel_off(s.regs.opcode);
            let u2 = with_reg(with_reg(u, Reg::R1, 0xffff_ffff_ffff_fff8u64), Reg::R1, off);
            let u3 = with_reg(u2, Reg::Pc, w64(s.regs.pc + off));
            let u4 = with_reg(u3, Reg::Temp, 8);
            let u5 = with_reg(u4, Reg::Pc, w64(s.regs.pc + off - 8));
            assert(run_actions(u2, tail) == Some(u5)) by {
                reveal_with_fuel(run_actions_from, 5);
                assert(step_action(u2, tail[0]) == Some(u3));
                assert(step_action(u3, tail[1]) == Some(u4));
                assert(step_action(u4, tail[2]) == Some(u5)) by {
                    lemma_w64_sub(s.regs.pc + off, 8);
                }
            }
            assert(u5 =~= calli_post(s));
        }
    }
    e
}

/// The state the compact push-immediate leaves: exactly one word — the
/// instruction word arithmetically shifted right past the class bits —
/// pushed onto the data stack.
pub open spec fn pushi_post(s: MachineState) -> MachineState {
    let v = imm_of(s.regs.opcode);
    let ndp = w64(s.regs.dp + 1);
    MachineState {
        regs: RegBank {
            r1: v,
            temp: (s.dbase + 8 * ndp) as u64,
            dp: ndp,
            ..s.regs
        },
        dstack: s.dstack.update(ndp as int, v),
        ..s
    }
}

/// What it means for `e` to be the compact push-immediate handler.
pub open spec fn is_pushi_handler(e: Ebb<EntryId>, root: EntryId) -> bool {
    forall|s: MachineState|
        data_ok(s) && w64(s.regs.dp + 1) < s.dstack.len() ==> #[trigger] run_ebb(s, e) == Some(
            (pushi_post(s), root),
        )
}

/// Builds the compact push-immediate handler: the word arithmetically
/// shifted right by the class bits, pushed.
#[verifier::rlimit(100)]
fn build_pushi(root: EntryId) -> (e: Ebb<EntryId>)
    ensures
        is_pushi_handler(e, root),
{
    let mut b: Builder<EntryId> = Builder::new();
    b.const_binary(BinaryOp::Asr, Reg::R1, Variable::Register(Reg::Opcode), 3);
    machine_push(&mut b, Reg::R1);
    let ghost acts = b.actions@;
    let ghost gs = b.guards@;
    let e = b.jump(root);
    proof {
        let head = seq![
            Action::Constant(Reg::R1, 3),
            Action::Binary(BinaryOp::Asr, Reg::R1, Variable::Register(Reg::Opcode),
                Variable::Register(Reg::R1)),
        ];
        assert(acts =~= head + dpush_actions(Reg::R1));
        assert forall|s: MachineState|
            data_ok(s) && w64(s.regs.dp + 1) < s.dstack.len() implies #[trigger] run_ebb(s, e)
            == Some((pushi_post(s), root)) by {
            assert(run_ebb(s, e) == run_guarded(s, gs, 0, acts, Ending::Leaf(root)));
            lemma_guard_end(s, gs, acts, Ending::Leaf(root));
            lemma_run_actions_append(s, head, dpush_actions(Reg::R1));
            let t1 = with_reg(s, Reg::R1, 3);
            let t2 = with_reg(t1, Reg::R1, imm_of(s.regs.opcode));
            assert(run_actions(s, head) == Some(t2)) by {
                reveal_with_fuel(run_actions_from, 3);
                assert((3 as u64) & 63 == 3) by (bit_vector);
                assert(step_action(t1, head[1]) == Some(t2));
            }
            lemma_dpush(t2, Reg::R1);
            assert(dpush_post(t2, Reg::R1) =~= pushi_post(s));
        }
    }
    e
}

/// The state the compact push-relative leaves: the instruction's own
/// address plus the word's offset field, pushed onto the data stack.
/// The handler sees the advanced program counter, so the pushed value is
/// that counter plus the offset less one instruction width — the same
/// target a compact jump with this word would reach, following the
/// uniform offset rule of the four program-counter-relative forms.
pub open spec fn pushreli_post(s: MachineState) -> MachineState {
    let v = w64(s.regs.pc + rel_off(s.regs.opcode) - 8);
    let ndp = w64(s.regs.dp + 1);
    MachineState {
        regs: RegBank {
            r1: v,
            temp: (s.dbase + 8 * ndp) as u64,
            dp: ndp,
            ..s.regs
        },
        dstack: s.dstack.update(ndp as int, v),
        ..s
    }
}

/// What it means for `e` to be the compact push-relative handler.
pub open spec fn is_pushreli_handler(e: Ebb<EntryId>, root: EntryId) -> bool {
    forall|s: MachineState|
        data_ok(s) && w64(s.regs.dp + 1) < s.dstack.len() ==> #[trigger] run_ebb(s, e) == Some(
            (pushreli_post(s), root),
        )
}

/// Builds the compact push-relative handler.
#[verifier::rlimit(100)]
fn build_pushreli(root: EntryId) -> (e: Ebb<EntryId>)
    ensures
        is_pushreli_handler(e, root),
{
    let mut b: Builder<EntryId> = Builder::new();
    b.const_binary(BinaryOp::And, Reg::R1, Variable::Register(Reg::Opcode), -8i64);
    b.binary(BinaryOp::Add, Reg::R1, Variable::Register(Reg::Pc), Variable::Register(Reg::R1));
    b.const_binary(BinaryOp::Sub, Reg::R1, Variable::Register(Reg::R1), 8);
    machine_push(&mut b, Reg::R1);
    let ghost acts = b.actions@;
    let ghost gs = b.guards@;
    let e = b.jump(root);
    proof {
        let tail = seq![
            Action::Binary(BinaryOp::Add, Reg::R1, Variable::Register(Reg::Pc),
                Variable::Register(Reg::R1)),
            Action::Constant(Reg::Temp, 8),
            Action::Binary(BinaryOp::Sub, Reg::R1, Variable::Register(Reg::R1),
                Variable::Register(Reg::Temp)),
        ];
        assert(acts =~= rel_off_actions() + (tail + dpush_actions(Reg::R1)));
        assert forall|s: MachineState|
            data_ok(s) && w64(s.regs.dp + 1) < s.dstack.len() implies #[trigger] run_ebb(s, e)
            == Some((pushreli_post(s), root)) by {
            assert(run_ebb(s, e) == run_guarded(s, gs, 0, acts, Ending::Leaf(root)));
            lemma_guard_end(s, gs, acts, Ending::Leaf(root));
            lemma_run_actions_append(s, rel_off_actions(), tail + dpush_actions(Reg::R1));
            lemma_rel_off(s);
            let off = rel_off(s.regs.opcode);
            let u2 = with_reg(with_reg(s, Reg::R1, 0xffff_ffff_ffff_fff8u64), Reg::R1, off);
            lemma_run_actions_append(u2, tail, dpush_actions(Reg::R1));
            let u3 = with_reg(u2, Reg::R1, w64(s.regs.pc + off));
            let u4 = with_reg(u3, Reg::Temp, 8);
            let u5 = with_reg(u4, Reg::R1, w64(s.regs.pc + off - 8));
            assert(run_actions(u2, tail) == Some(u5)) by {
                reveal_with_fuel(run_actions_from, 5);
                assert(step_action(u2, tail[0]) == Some(u3));
                assert(step_action(u3, tail[1]) == Some(u4));
                assert(step_action(u4, tail[2]) == Some(u5)) by {
                    lemma_w64_sub(s.regs.pc + off, 8);
                }
            }
            lemma_dpush(u5, Reg::R1);
            assert(dpush_post(u5, Reg::R1) =~= pushreli_post(s));
        }
    }
    e
}

/// The state the compact jump leaves: the program counter moved to the
/// instruction's address plus the word's offset field; nothing else.
pub open spec fn jumpi_post(s: MachineState) -> MachineState {
    let off = rel_off(s.regs.opcode);
    MachineState {
        regs: RegBank { pc: w64(s.regs.pc + off - 8), r1: off, temp: 8, ..s.regs },
        ..s
    }
}

/// What it means for `e` to be the compact-jump handler; it succeeds
/// from every state.
pub open spec fn is_jumpi_handler(e: Ebb<EntryId>, root: EntryId) -> bool {
    forall|s: MachineState| #[trigger] run_ebb(s, e) == Some((jumpi_post(s), root))
}

/// Builds the compact-jump handler.
#[verifier::rlimit(100)]
fn build_jumpi(root: EntryId) -> (e: Ebb<EntryId>)
    ensures
        is_jumpi_handler(e, root),
{
    let mut b: Builder<EntryId> = Builder::new();
    b.const_binary(BinaryOp::And, Reg::R1, Variable::Register(Reg::Opcode), -8i64);
    b.binary(BinaryOp::Add, Reg::Pc, Variable::Register(Reg::Pc), Variable::Register(Reg::R1));
    b.const_binary(BinaryOp::Sub, Reg::Pc, Variable::Register(Reg::Pc), 8);
    let ghost acts = b.actions@;
    let ghost gs = b.guards@;
    let e = b.jump(root);
    proof {
        let tail = seq![
            Action::Binary(BinaryOp::Add, Reg::Pc, Variable::Register(Reg::Pc),
                Variable::Register(Reg::R1)),
            Action::Constant(Reg::Temp, 8),
            Action::Binary(BinaryOp::Sub, Reg::Pc, Variable::Register(Reg::Pc),
                Variable::Register(Reg::Temp)),
        ];
        assert(acts =~= rel_off_actions() + tail);
        assert forall|s: MachineState| #[trigger] run_ebb(s, e) == Some((jumpi_post(s), root))
            by {
            assert(run_ebb(s, e) == run_guarded(s, gs, 0, acts, Ending::Leaf(root)));
            lemma_guard_end(s, gs, acts, Ending::Leaf(root));
            lemma_run_actions_append(s, rel_off_actions(), tail);
            lemma_rel_off(s);
            let off = rel_off(s.regs.opcode);
            let u2 = with_reg(with_reg(s, Reg::R1, 0xffff_ffff_ffff_fff8u64), Reg::R1, off);
            let u3 = with_reg(u2, Reg::Pc, w64(s.regs.pc + off));
            let u4 = with_reg(u3, Reg::Temp, 8);
            let u5 = with_reg(u4, Reg::Pc, w64(s.regs.pc + off - 8));
            assert(run_actions(u2, tail) == Some(u5)) by {
                reveal_with_fuel(run_actions_from, 5);
                assert(step_action(u2, tail[0]) == Some(u3));
                assert(step_action(u3, tail[1]) == Some(u4));
                assert(step_action(u4, tail[2]) == Some(u5)) by {
                    lemma_w64_sub(s.regs.pc + off, 8);
                }
            }
            assert(u5 =~= jumpi_post(s));
        }
    }
    e
}

/// The state the compact conditional jump leaves when the popped
/// condition is non-zero: one element popped, control falls through.
pub open spec fn jumpzi_post_nz(s: MachineState) -> MachineState {
    MachineState {
        regs: RegBank { test: dtop(s), temp: 1, dp: w64(s.regs.dp - 1), ..s.regs },
        ..s
    }
}

/// The state the compact conditional jump leaves when the popped
/// condition is zero: one element popped and the relative jump taken.
pub open spec fn jumpzi_post_z(s: MachineState) -> MachineState {
    let off = rel_off(s.regs.opcode);
    MachineState {
        regs: RegBank {
            pc: w64(s.regs.pc + off - 8),
            r1: off,
            test: 0,
            temp: 8,
            dp: w64(s.regs.dp - 1),
            ..s.regs
        },
        ..s
    }
}

/// What it means for `e` to be the compact conditional-jump handler:
/// exactly one element is popped either way, and the jump is taken only
/// on zero.
pub open spec fn is_jumpzi_handler(e: Ebb<EntryId>, root: EntryId) -> bool {
    &&& forall|s: MachineState|
        data_ok(s) && s.regs.dp < s.dstack.len() && dtop(s) != 0 ==> #[trigger] run_ebb(s, e)
            == Some((jumpzi_post_nz(s), root))
    &&& forall|s: MachineState|
        data_ok(s) && s.regs.dp < s.dstack.len() && dtop(s) == 0 ==> #[trigger] run_ebb(s, e)
            == Some((jumpzi_post_z(s), root))
}

/// Builds the compact conditional-jump handler: pop a condition and take
/// the relative jump only when it is zero.
#[verifier::rlimit(100)]
fn build_jumpzi(root: EntryId) -> (e: Ebb<EntryId>)
    ensures
        is_jumpzi_handler(e, root),
{
    let mut b: Builder<EntryId> = Builder::new();
    machine_pop(&mut b, Reg::Test);
    let ghost guard_acts = b.actions@;
    let fallthrough = build_leaf(root);
    let ghost fall_spec = fallthrough;
    b.guard(Variable::Register(Reg::Test), false, fallthrough);
    b.const_binary(BinaryOp::And, Reg::R1, Variable::Register(Reg::Opcode), -8i64);
    b.binary(BinaryOp::Add, Reg::Pc, Variable::Register(Reg::Pc), Variable::Register(Reg::R1));
    b.const_binary(BinaryOp::Sub, Reg::Pc, Variable::Register(Reg::Pc), 8);
    let ghost acts = b.actions@;
    let ghost gs = b.guards@;
    let e = b.jump(root);
    proof {
        assert(gs.len() == 1);
        assert(gs[0].actions@ == guard_acts);
        assert(guard_acts =~= dpop_actions(Reg::Test));
        let tail = seq![
            Action::Binary(BinaryOp::Add, Reg::Pc, Variable::Register(Reg::Pc),
                Variable::Register(Reg::R1)),
            Action::Constant(Reg::Temp, 8),
            Action::Binary(BinaryOp::Sub, Reg::Pc, Variable::Register(Reg::Pc),
                Variable::Register(Reg::Temp)),
        ];
        assert(acts =~= rel_off_actions() + tail);
        assert forall|s: MachineState|
            data_ok(s) && s.regs.dp < s.dstack.len() && dtop(s) != 0 implies #[trigger] run_ebb(
                s,
                e,
            ) == Some((jumpzi_post_nz(s), root)) by {
            assert(run_ebb(s, e) == run_guarded(s, gs, 0, acts, Ending::Leaf(root)));
            lemma_dpop(s, Reg::Test);
            let t = dpop_post(s, Reg::Test);
            lemma_guard_divert(s, gs, 0, acts, Ending::Leaf(root), t);
            assert(run_ebb(t, fall_spec) == Some((t, root)));
            assert(t =~= jumpzi_post_nz(s));
        }
        assert forall|s: MachineState|
            data_ok(s) && s.regs.dp < s.dstack.len() && dtop(s) == 0 implies #[trigger] run_ebb(
                s,
                e,
            ) == Some((jumpzi_post_z(s), root)) by {
            assert(run_ebb(s, e) == run_guarded(s, gs, 0, acts, Ending::Leaf(root)));
            lemma_dpop(s, Reg::Test);
            let t = dpop_post(s, Reg::Test);
            lemma_guard_step(s, gs, 0, acts, Ending::Leaf(root), t);
            lemma_guard_end(t, gs, acts, Ending::Leaf(root));
            lemma_run_actions_append(t, rel_off_actions(), tail);
            lemma_rel_off(t);
            let off = rel_off(s.regs.opcode);
            let u2 = with_reg(with_reg(t, Reg::R1, 0xffff_ffff_ffff_fff8u64), Reg::R1, off);
            let u3 = with_reg(u2, Reg::Pc, w64(s.regs.pc + off));
            let u4 = with_reg(u3, Reg::Temp, 8);
            let u5 = with_reg(u4, Reg::Pc, w64(s.regs.pc + off - 8));
            assert(run_actions(u2, tail) == Some(u5)) by {
                reveal_with_fuel(run_actions_from, 5);
                assert(step_action(u2, tail[0]) == Some(u3));
                assert(step_action(u3, tail[1]) == Some(u4));
                assert(step_action(u4, tail[2]) == Some(u5)) by {
                    lemma_w64_sub(s.regs.pc + off, 8);
                }
            }
            assert(u5 =~= jumpzi_post_z(s));
        }
    }
    e
}

/// The state the drop instruction leaves: the data-stack pointer moved
/// down one slot, the slots themselves untouched.
pub open spec fn pop_insn_post(s: MachineState) -> MachineState {
    MachineState {
        regs: RegBank { temp: 1, dp: w64(s.regs.dp - 1), ..s.regs },
        ..s
    }
}

/// What it means for `e` to be the drop handler; it succeeds from every
/// state.
pub open spec fn is_pop_insn_handler(e: Ebb<EntryId>, root: EntryId) -> bool {
    forall|s: MachineState| #[trigger] run_ebb(s, e) == Some((pop_insn_post(s), root))
}

/// Builds the drop handler: the data-stack pointer moved down one slot.
#[verifier::rlimit(50)]
fn build_pop_insn(root: EntryId) -> (e: Ebb<EntryId>)
    ensures
        is_pop_insn_handler(e, root),
{
    let mut b: Builder<EntryId> = Builder::new();
    b.const_binary(BinaryOp::Sub, Reg::Dp, Variable::Register(Reg::Dp), 1);
    let ghost acts = b.actions@;
    let ghost gs = b.guards@;
    let e = b.jump(root);
    proof {
        assert(acts =~= seq![
            Action::Constant(Reg::Temp, 1),
            Action::Binary(BinaryOp::Sub, Reg::Dp, Variable::Register(Reg::Dp),
                Variable::Register(Reg::Temp)),
        ]);
        assert forall|s: MachineState| #[trigger] run_ebb(s, e) == Some(
            (pop_insn_post(s), root),
        ) by {
            assert(run_ebb(s, e) == run_guarded(s, gs, 0, acts, Ending::Leaf(root)));
            lemma_guard_end(s, gs, acts, Ending::Leaf(root));
            let t1 = with_reg(s, Reg::Temp, 1);
            let t2 = with_reg(t1, Reg::Dp, w64(s.regs.dp - 1));
            assert(run_actions(s, acts) == Some(t2)) by {
                reveal_with_fuel(run_actions_from, 3);
            }
            assert(t2 =~= pop_insn_post(s));
        }
    }
    e
}

/// The slot a popped depth names: that many slots below the then-current
/// top of the data stack.
pub open spec fn depth_slot(s: MachineState, pops: int) -> int {
    s.regs.dp - pops - dtop(s)
}

/// The state the duplicate handler leaves: the depth popped and the slot
/// it names copied to the top.
pub open spec fn dup_post(s: MachineState) -> MachineState {
    let k = depth_slot(s, 1);
    let v = s.dstack[k];
    MachineState {
        regs: RegBank {
            r2: v,
            test: k as u64,
            temp: (s.dbase + 8 * s.regs.dp) as u64,
            ..s.regs
        },
        dstack: s.dstack.update(s.regs.dp as int, v),
        ..s
    }
}

/// What it means for `e` to be the duplicate handler: specified for
/// depths that name a slot, i.e. the popped depth is below the remaining
/// stack height.
pub open spec fn is_dup_handler(e: Ebb<EntryId>, root: EntryId) -> bool {
    forall|s: MachineState|
        data_ok(s) && s.regs.dp < s.dstack.len() && dtop(s) + 1 <= s.regs.dp ==> #[trigger]
            run_ebb(s, e) == Some((dup_post(s), root))
}

/// The duplicate handler's whole action sequence computes [`dup_post`].
#[verifier::rlimit(100)]
#[verifier::spinoff_prover]
proof fn lemma_dup_run(s: MachineState, acts: Seq<Action>)
    requires
        data_ok(s),
        s.regs.dp < s.dstack.len(),
        dtop(s) + 1 <= s.regs.dp,
        acts == dpop_actions(Reg::Test) + (seq![
            Action::Binary(BinaryOp::Sub, Reg::Test, Variable::Register(Reg::Dp),
                Variable::Register(Reg::Test)),
        ] + (array_load_actions(Reg::R2, Variable::Register(Reg::D0),
            Variable::Register(Reg::Test), Width::Eight, AliasClass::DataStack) + dpush_actions(
            Reg::R2,
        ))),
    ensures
        run_actions(s, acts) == Some(dup_post(s)),
{
    let n = dtop(s);
    let k = depth_slot(s, 1);
    let sub = seq![
        Action::Binary(BinaryOp::Sub, Reg::Test, Variable::Register(Reg::Dp),
            Variable::Register(Reg::Test)),
    ];
    let peek = array_load_actions(Reg::R2, Variable::Register(Reg::D0),
        Variable::Register(Reg::Test), Width::Eight, AliasClass::DataStack);
    lemma_run_actions_append(s, dpop_actions(Reg::Test), sub + (peek + dpush_actions(Reg::R2)));
    lemma_dpop(s, Reg::Test);
    let t1 = dpop_post(s, Reg::Test);
    assert(t1.regs.dp == s.regs.dp - 1) by {
        assert(w64(s.regs.dp - 1) == s.regs.dp - 1);
    }
    lemma_run_actions_append(t1, sub, peek + dpush_actions(Reg::R2));
    let t2 = with_reg(t1, Reg::Test, k as u64);
    assert(run_actions(t1, sub) == Some(t2)) by {
        reveal_with_fuel(run_actions_from, 2);
        assert(w64(s.regs.dp - 1 - n) == k);
    }
    lemma_run_actions_append(t2, peek, dpush_actions(Reg::R2));
    lemma_dpeek(t2, Reg::R2);
    let t3 = MachineState {
        regs: RegBank {
            temp: (s.dbase + 8 * k) as u64,
            ..write_reg(t2.regs, Reg::R2, s.dstack[k])
        },
        ..t2
    };
    assert(w64(t3.regs.dp + 1) == s.regs.dp) by {
        lemma_w64_add(s.regs.dp - 1, 1);
    }
    lemma_dpush(t3, Reg::R2);
    assert(dpush_post(t3, Reg::R2) =~= dup_post(s));
}

/// Builds the duplicate handler: pop a depth, read the slot that far
/// below the top, push the value read.
#[verifier::rlimit(100)]
fn build_dup(root: EntryId) -> (e: Ebb<EntryId>)
    ensures
        is_dup_handler(e, root),
{
    let mut b: Builder<EntryId> = Builder::new();
    machine_pop(&mut b, Reg::Test);
    b.binary(BinaryOp::Sub, Reg::Test, Variable::Register(Reg::Dp), Variable::Register(Reg::Test));
    b.array_load(Reg::R2, Variable::Register(Reg::D0), Variable::Register(Reg::Test),
        Width::Eight, AliasClass::DataStack);
    machine_push(&mut b, Reg::R2);
    let ghost acts = b.actions@;
    let ghost gs = b.guards@;
    let e = b.jump(root);
    proof {
        assert(acts =~= dpop_actions(Reg::Test) + (seq![
            Action::Binary(BinaryOp::Sub, Reg::Test, Variable::Register(Reg::Dp),
                Variable::Register(Reg::Test)),
        ] + (array_load_actions(Reg::R2, Variable::Register(Reg::D0),
            Variable::Register(Reg::Test), Width::Eight, AliasClass::DataStack) + dpush_actions(
            Reg::R2,
        ))));
        assert forall|s: MachineState|
            data_ok(s) && s.regs.dp < s.dstack.len() && dtop(s) + 1 <= s.regs.dp implies
            #[trigger] run_ebb(s, e) == Some((dup_post(s), root)) by {
            assert(run_ebb(s, e) == run_guarded(s, gs, 0, acts, Ending::Leaf(root)));
            lemma_guard_end(s, gs, acts, Ending::Leaf(root));
            lemma_dup_run(s, acts);
        }
    }
    e
}

/// The state the set handler leaves: depth and value popped, the value
/// written into the slot the depth names.
pub open spec fn setslot_post(s: MachineState) -> MachineState {
    let k = depth_slot(s, 2);
    let v = s.dstack[s.regs.dp - 1];
    MachineState {
        regs: RegBank {
            r1: v,
            test: k as u64,
            temp: (s.dbase + 8 * k) as u64,
            dp: (s.regs.dp - 2) as u64,
            ..s.regs
        },
        dstack: s.dstack.update(k, v),
        ..s
    }
}

/// What it means for `e` to be the set handler: specified for depths
/// that name a slot after both pops.
pub open spec fn is_setslot_handler(e: Ebb<EntryId>, root: EntryId) -> bool {
    forall|s: MachineState|
        data_ok(s) && 1 <= s.regs.dp < s.dstack.len() && dtop(s) + 2 <= s.regs.dp ==> #[trigger]
            run_ebb(s, e) == Some((setslot_post(s), root))
}

/// The set handler's whole action sequence computes [`setslot_post`].
#[verifier::rlimit(100)]
#[verifier::spinoff_prover]
proof fn lemma_setslot_run(s: MachineState, acts: Seq<Action>)
    requires
        data_ok(s),
        1 <= s.regs.dp < s.dstack.len(),
        dtop(s) + 2 <= s.regs.dp,
        acts == (dpop_actions(Reg::Test) + dpop_actions(Reg::R1)) + (seq![
            Action::Binary(BinaryOp::Sub, Reg::Test, Variable::Register(Reg::Dp),
                Variable::Register(Reg::Test)),
        ] + array_store_actions(Variable::Register(Reg::R1), Variable::Register(Reg::D0),
            Variable::Register(Reg::Test), Width::Eight, AliasClass::DataStack)),
    ensures
        run_actions(s, acts) == Some(setslot_post(s)),
{
    let n = dtop(s);
    let k = depth_slot(s, 2);
    let sub = seq![
        Action::Binary(BinaryOp::Sub, Reg::Test, Variable::Register(Reg::Dp),
            Variable::Register(Reg::Test)),
    ];
    let put = array_store_actions(Variable::Register(Reg::R1), Variable::Register(Reg::D0),
        Variable::Register(Reg::Test), Width::Eight, AliasClass::DataStack);
    lemma_run_actions_append(s, dpop_actions(Reg::Test) + dpop_actions(Reg::R1), sub + put);
    lemma_dpop2(s, Reg::Test, Reg::R1, dpop_actions(Reg::Test) + dpop_actions(Reg::R1));
    let t1 = dpop_post(dpop_post(s, Reg::Test), Reg::R1);
    assert(w64(s.regs.dp - 1) == s.regs.dp - 1);
    assert(t1.regs.dp == w64(s.regs.dp - 2));
    assert(w64(s.regs.dp - 2) == s.regs.dp - 2);
    lemma_run_actions_append(t1, sub, put);
    let t2 = with_reg(t1, Reg::Test, k as u64);
    assert(run_actions(t1, sub) == Some(t2)) by {
        reveal_with_fuel(run_actions_from, 2);
        assert(w64(s.regs.dp - 2 - n) == k);
    }
    lemma_dslot_store(t2, Reg::R1);
    assert(MachineState {
        regs: RegBank { temp: (t2.dbase + 8 * t2.regs.test) as u64, ..t2.regs },
        dstack: t2.dstack.update(t2.regs.test as int, read_reg(t2.regs, Reg::R1)),
        ..t2
    } =~= setslot_post(s));
}

/// Builds the set handler: pop a depth and a value, write the value into
/// the slot that far below the top.
#[verifier::rlimit(100)]
fn build_setslot(root: EntryId) -> (e: Ebb<EntryId>)
    ensures
        is_setslot_handler(e, root),
{
    let mut b: Builder<EntryId> = Builder::new();
    machine_pop(&mut b, Reg::Test);
    machine_pop(&mut b, Reg::R1);
    b.binary(BinaryOp::Sub, Reg::Test, Variable::Register(Reg::Dp), Variable::Register(Reg::Test));
    b.array_store(Variable::Register(Reg::R1), Variable::Register(Reg::D0),
        Variable::Register(Reg::Test), Width::Eight, AliasClass::DataStack);
    let ghost acts = b.actions@;
    let ghost gs = b.guards@;
    let e = b.jump(root);
    proof {
        assert(acts =~= (dpop_actions(Reg::Test) + dpop_actions(Reg::R1)) + (seq![
            Action::Binary(BinaryOp::Sub, Reg::Test, Variable::Register(Reg::Dp),
                Variable::Register(Reg::Test)),
        ] + array_store_actions(Variable::Register(Reg::R1), Variable::Register(Reg::D0),
            Variable::Register(Reg::Test), Width::Eight, AliasClass::DataStack)));
        assert forall|s: MachineState|
            data_ok(s) && 1 <= s.regs.dp < s.dstack.len() && dtop(s) + 2 <= s.regs.dp implies
            #[trigger] run_ebb(s, e) == Some((setslot_post(s), root)) by {
            assert(run_ebb(s, e) == run_guarded(s, gs, 0, acts, Ending::Leaf(root)));
            lemma_guard_end(s, gs, acts, Ending::Leaf(root));
            lemma_setslot_run(s, acts);
        }
    }
    e
}

/// The state the swap handler leaves: depth and value popped, the value
/// exchanged with the slot the depth names, the slot's old content
/// pushed back on top.
pub open spec fn swap_post(s: MachineState) -> MachineState {
    let k = depth_slot(s, 2);
    let v = s.dstack[s.regs.dp - 1];
    MachineState {
        regs: RegBank {
            r1: v,
            r2: s.dstack[k],
            test: k as u64,
            temp: (s.dbase + 8 * (s.regs.dp - 1)) as u64,
            dp: (s.regs.dp - 1) as u64,
            ..s.regs
        },
        dstack: s.dstack.update(k, v).update(s.regs.dp - 1, s.dstack[k]),
        ..s
    }
}

/// What it means for `e` to be the swap handler.
pub open spec fn is_swap_handler(e: Ebb<EntryId>, root: EntryId) -> bool {
    forall|s: MachineState|
        data_ok(s) && 1 <= s.regs.dp < s.dstack.len() && dtop(s) + 2 <= s.regs.dp ==> #[trigger]
            run_ebb(s, e) == Some((swap_post(s), root))
}

/// The swap handler's whole action sequence computes [`swap_post`].
#[verifier::rlimit(100)]
#[verifier::spinoff_prover]
proof fn lemma_swap_run(s: MachineState, acts: Seq<Action>)
    requires
        data_ok(s),
        1 <= s.regs.dp < s.dstack.len(),
        dtop(s) + 2 <= s.regs.dp,
        acts == (dpop_actions(Reg::Test) + dpop_actions(Reg::R1)) + (seq![
            Action::Binary(BinaryOp::Sub, Reg::Test, Variable::Register(Reg::Dp),
                Variable::Register(Reg::Test)),
        ] + (array_load_actions(Reg::R2, Variable::Register(Reg::D0),
            Variable::Register(Reg::Test), Width::Eight, AliasClass::DataStack) + (
        array_store_actions(Variable::Register(Reg::R1), Variable::Register(Reg::D0),
            Variable::Register(Reg::Test), Width::Eight, AliasClass::DataStack) + dpush_actions(
            Reg::R2,
        )))),
    ensures
        run_actions(s, acts) == Some(swap_post(s)),
{
    let n = dtop(s);
    let k = depth_slot(s, 2);
    let sub = seq![
        Action::Binary(BinaryOp::Sub, Reg::Test, Variable::Register(Reg::Dp),
            Variable::Register(Reg::Test)),
    ];
    let peek = array_load_actions(Reg::R2, Variable::Register(Reg::D0),
        Variable::Register(Reg::Test), Width::Eight, AliasClass::DataStack);
    let put = array_store_actions(Variable::Register(Reg::R1), Variable::Register(Reg::D0),
        Variable::Register(Reg::Test), Width::Eight, AliasClass::DataStack);
    lemma_run_actions_append(s, dpop_actions(Reg::Test) + dpop_actions(Reg::R1), sub + (peek + (
    put + dpush_actions(Reg::R2))));
    lemma_dpop2(s, Reg::Test, Reg::R1, dpop_actions(Reg::Test) + dpop_actions(Reg::R1));
    let t1 = dpop_post(dpop_post(s, Reg::Test), Reg::R1);
    assert(w64(s.regs.dp - 1) == s.regs.dp - 1);
    assert(w64(s.regs.dp - 2) == s.regs.dp - 2);
    lemma_run_actions_append(t1, sub, peek + (put + dpush_actions(Reg::R2)));
    let t2 = with_reg(t1, Reg::Test, k as u64);
    assert(run_actions(t1, sub) == Some(t2)) by {
        reveal_with_fuel(run_actions_from, 2);
        assert(w64(s.regs.dp - 2 - n) == k);
    }
    lemma_run_actions_append(t2, peek, put + dpush_actions(Reg::R2));
    lemma_dpeek(t2, Reg::R2);
    let t3 = MachineState {
        regs: RegBank {
            temp: (s.dbase + 8 * k) as u64,
            ..write_reg(t2.regs, Reg::R2, s.dstack[k])
        },
        ..t2
    };
    lemma_run_actions_append(t3, put, dpush_actions(Reg::R2));
    lemma_dslot_store(t3, Reg::R1);
    let t4 = MachineState {
        regs: RegBank { temp: (s.dbase + 8 * k) as u64, ..t3.regs },
        dstack: t3.dstack.update(k, s.dstack[s.regs.dp - 1]),
        ..t3
    };
    assert(run_actions(t3, put) == Some(t4));
    assert(w64(t4.regs.dp + 1) == s.regs.dp - 1) by {
        lemma_w64_add(s.regs.dp - 2, 1);
    }
    lemma_dpush(t4, Reg::R2);
    assert(dpush_post(t4, Reg::R2) =~= swap_post(s));
}

/// Builds the swap handler: pop a depth and a value, exchange the value
/// with the slot that far below the top.
#[verifier::rlimit(100)]
fn build_swap(root: EntryId) -> (e: Ebb<EntryId>)
    ensures
        is_swap_handler(e, root),
{
    let mut b: Builder<EntryId> = Builder::new();
    machine_pop(&mut b, Reg::Test);
    machine_pop(&mut b, Reg::R1);
    b.binary(BinaryOp::Sub, Reg::Test, Variable::Register(Reg::Dp), Variable::Register(Reg::Test));
    b.array_load(Reg::R2, Variable::Register(Reg::D0), Variable::Register(Reg::Test),
        Width::Eight, AliasClass::DataStack);
    b.array_store(Variable::Register(Reg::R1), Variable::Register(Reg::D0),
        Variable::Register(Reg::Test), Width::Eight, AliasClass::DataStack);
    machine_push(&mut b, Reg::R2);
    let ghost acts = b.actions@;
    let ghost gs = b.guards@;
    let e = b.jump(root);
    proof {
        assert(acts =~= (dpop_actions(Reg::Test) + dpop_actions(Reg::R1)) + (seq![
            Action::Binary(BinaryOp::Sub, Reg::Test, Variable::Register(Reg::Dp),
                Variable::Register(Reg::Test)),
        ] + (array_load_actions(Reg::R2, Variable::Register(Reg::D0),
            Variable::Register(Reg::Test), Width::Eight, AliasClass::DataStack) + (
        array_store_actions(Variable::Register(Reg::R1), Variable::Register(Reg::D0),
            Variable::Register(Reg::Test), Width::Eight, AliasClass::DataStack) + dpush_actions(
            Reg::R2,
        )))));
        assert forall|s: MachineState|
            data_ok(s) && 1 <= s.regs.dp < s.dstack.len() && dtop(s) + 2 <= s.regs.dp implies
            #[trigger] run_ebb(s, e) == Some((swap_post(s), root)) by {
            assert(run_ebb(s, e) == run_guarded(s, gs, 0, acts, Ending::Leaf(root)));
            lemma_guard_end(s, gs, acts, Ending::Leaf(root));
            lemma_swap_run(s, acts);
        }
    }
    e
}

/// The state the conditional jump leaves when the popped condition is
/// non-zero: target and condition popped, control falls through.
pub open spec fn jumpz_post_nz(s: MachineState) -> MachineState {
    MachineState {
        regs: RegBank {
            r1: dtop(s),
            test: s.dstack[s.regs.dp - 1],
            temp: 1,
            dp: w64(s.regs.dp - 2),
            ..s.regs
        },
        ..s
    }
}

/// The state the conditional jump leaves when the condition is zero but
/// the target misaligned: both popped operands restored, bound for the
/// deoptimization handler.
pub open spec fn jumpz_post_mis(s: MachineState) -> MachineState {
    let a = dtop(s);
    MachineState {
        regs: RegBank { r1: a, test: a & 7, temp: 2, ..s.regs },
        ..s
    }
}

/// The state the conditional jump leaves when the condition is zero and
/// the target aligned: the jump taken.
pub open spec fn jumpz_post_z(s: MachineState) -> MachineState {
    let a = dtop(s);
    MachineState {
        regs: RegBank {
            pc: a,
            r1: a,
            test: 0,
            temp: 1,
            dp: w64(s.regs.dp - 2),
            ..s.regs
        },
        ..s
    }
}

/// What it means for `e` to be the conditional-jump handler: the target
/// is popped first, then the condition; the branch is taken only on
/// zero, with the computed jump's alignment check; misalignment restores
/// both operands and deoptimizes, never touching the return stack.
pub open spec fn is_jumpz_handler(e: Ebb<EntryId>, root: EntryId, deopt: EntryId) -> bool {
    &&& forall|s: MachineState|
        data_ok(s) && 1 <= s.regs.dp < s.dstack.len() && s.dstack[s.regs.dp - 1] != 0
            ==> #[trigger] run_ebb(s, e) == Some((jumpz_post_nz(s), root))
    &&& forall|s: MachineState|
        data_ok(s) && 1 <= s.regs.dp < s.dstack.len() && s.dstack[s.regs.dp - 1] == 0 && dtop(s)
            & 7 != 0 ==> #[trigger] run_ebb(s, e) == Some((jumpz_post_mis(s), deopt))
    &&& forall|s: MachineState|
        data_ok(s) && 1 <= s.regs.dp < s.dstack.len() && s.dstack[s.regs.dp - 1] == 0 && dtop(s)
            & 7 == 0 ==> #[trigger] run_ebb(s, e) == Some((jumpz_post_z(s), root))
}

/// Builds the conditional-jump handler: pop a target and a condition,
/// branch only when the condition is zero, checking the target's
/// alignment as the computed jump does.
#[verifier::rlimit(100)]
fn build_jumpz(root: EntryId, deopt: EntryId) -> (e: Ebb<EntryId>)
    ensures
        is_jumpz_handler(e, root, deopt),
{
    let mut b: Builder<EntryId> = Builder::new();
    machine_pop(&mut b, Reg::R1);
    machine_pop(&mut b, Reg::Test);
    let ghost guard1_acts = b.actions@;
    let fallthrough = build_leaf(root);
    let ghost fall_spec = fallthrough;
    b.guard(Variable::Register(Reg::Test), false, fallthrough);
    b.const_binary(BinaryOp::And, Reg::Test, Variable::Register(Reg::R1), 7);
    let ghost guard2_acts = b.actions@;
    let fail = build_restore_dp(2, deopt);
    let ghost fail_spec = fail;
    b.guard(Variable::Register(Reg::Test), false, fail);
    b.move_(Variable::Register(Reg::Pc), Variable::Register(Reg::R1));
    let ghost acts = b.actions@;
    let ghost gs = b.guards@;
    let e = b.jump(root);
    proof {
        assert(gs.len() == 2);
        assert(gs[0].actions@ == guard1_acts);
        assert(gs[1].actions@ == guard2_acts);
        assert(guard1_acts == dpop_actions(Reg::R1) + dpop_actions(Reg::Test)) by {
            assert(guard1_acts =~= dpop_actions(Reg::R1) + dpop_actions(Reg::Test));
        }
        assert(guard2_acts =~= const_binary_actions(BinaryOp::And, Reg::Test,
            Variable::Register(Reg::R1), 7));
        assert(acts =~= seq![
            Action::Move(Variable::Register(Reg::Pc), Variable::Register(Reg::R1)),
        ]);
        assert forall|s: MachineState|
            data_ok(s) && 1 <= s.regs.dp < s.dstack.len() && s.dstack[s.regs.dp - 1] != 0
                implies #[trigger] run_ebb(s, e) == Some((jumpz_post_nz(s), root)) by {
            assert(run_ebb(s, e) == run_guarded(s, gs, 0, acts, Ending::Leaf(root)));
            lemma_dpop2(s, Reg::R1, Reg::Test, gs[0].actions@);
            let t = dpop_post(dpop_post(s, Reg::R1), Reg::Test);
            lemma_guard_divert(s, gs, 0, acts, Ending::Leaf(root), t);
            assert(run_ebb(t, fall_spec) == Some((t, root)));
            assert(w64(s.regs.dp - 1) == s.regs.dp - 1);
            assert(t =~= jumpz_post_nz(s));
        }
        assert forall|s: MachineState|
            data_ok(s) && 1 <= s.regs.dp < s.dstack.len() && s.dstack[s.regs.dp - 1] == 0
                && dtop(s) & 7 != 0 implies #[trigger] run_ebb(s, e) == Some(
                (jumpz_post_mis(s), deopt),
            ) by {
            assert(run_ebb(s, e) == run_guarded(s, gs, 0, acts, Ending::Leaf(root)));
            lemma_jumpz_zero(s, gs, acts, root, deopt);
        }
        assert forall|s: MachineState|
            data_ok(s) && 1 <= s.regs.dp < s.dstack.len() && s.dstack[s.regs.dp - 1] == 0
                && dtop(s) & 7 == 0 implies #[trigger] run_ebb(s, e) == Some(
                (jumpz_post_z(s), root),
            ) by {
            assert(run_ebb(s, e) == run_guarded(s, gs, 0, acts, Ending::Leaf(root)));
            lemma_jumpz_zero(s, gs, acts, root, deopt);
        }
    }
    e
}

/// The zero-condition paths of the conditional jump: alignment decides
/// between the taken branch and the operand-restoring deoptimization.
#[verifier::rlimit(100)]
#[verifier::spinoff_prover]
proof fn lemma_jumpz_zero(
    s: MachineState,
    gs: Seq<Guard<EntryId>>,
    acts: Seq<Action>,
    root: EntryId,
    deopt: EntryId,
)
    requires
        data_ok(s),
        1 <= s.regs.dp < s.dstack.len(),
        s.dstack[s.regs.dp - 1] == 0,
        gs.len() == 2,
        gs[0].actions@ == dpop_actions(Reg::R1) + dpop_actions(Reg::Test),
        gs[0].condition == Variable::Register(Reg::Test),
        gs[0].expected == false,
        gs[1].actions@ == const_binary_actions(BinaryOp::And, Reg::Test,
            Variable::Register(Reg::R1), 7),
        gs[1].condition == Variable::Register(Reg::Test),
        gs[1].expected == false,
        forall|s2: MachineState| #[trigger] run_ebb(s2, gs[1].if_fail) == Some(
            (restore_dp_post(s2, 2), deopt),
        ),
        acts == seq![Action::Move(Variable::Register(Reg::Pc), Variable::Register(Reg::R1))],
    ensures
        dtop(s) & 7 != 0 ==> run_guarded(s, gs, 0, acts, Ending::Leaf(root)) == Some(
            (jumpz_post_mis(s), deopt),
        ),
        dtop(s) & 7 == 0 ==> run_guarded(s, gs, 0, acts, Ending::Leaf(root)) == Some(
            (jumpz_post_z(s), root),
        ),
{
    lemma_dpop2(s, Reg::R1, Reg::Test, gs[0].actions@);
    let t = dpop_post(dpop_post(s, Reg::R1), Reg::Test);
    assert(w64(s.regs.dp - 1) == s.regs.dp - 1);
    lemma_guard_step(s, gs, 0, acts, Ending::Leaf(root), t);
    let a = dtop(s);
    let t2 = with_reg(t, Reg::Test, 7);
    let t3 = with_reg(t2, Reg::Test, a & 7);
    assert(run_actions(t, gs[1].actions@) == Some(t3)) by {
        reveal_with_fuel(run_actions_from, 3);
    }
    if a & 7 != 0 {
        lemma_guard_divert(t, gs, 1, acts, Ending::Leaf(root), t3);
        assert(run_ebb(t3, gs[1].if_fail) == Some((restore_dp_post(t3, 2), deopt)));
        assert(restore_dp_post(t3, 2) =~= jumpz_post_mis(s)) by {
            lemma_w64_add(s.regs.dp - 2, 2);
        }
    } else {
        lemma_guard_step(t, gs, 1, acts, Ending::Leaf(root), t3);
        lemma_guard_end(t3, gs, acts, Ending::Leaf(root));
        let t4 = with_reg(t3, Reg::Pc, a);
        assert(run_actions(t3, acts) == Some(t4)) by {
            reveal_with_fuel(run_actions_from, 3);
        }
        assert(t4 =~= jumpz_post_z(s));
    }
}

/// The state the data-to-return transfer leaves: the data stack's top
/// moved onto the return stack.
pub open spec fn pushr_post(s: MachineState) -> MachineState {
    let x = dtop(s);
    let nsp = w64(s.regs.sp + 1);
    MachineState {
        regs: RegBank {
            r1: x,
            sp: nsp,
            temp: (s.rbase + 8 * nsp) as u64,
            dp: w64(s.regs.dp - 1),
            ..s.regs
        },
        rstack: s.rstack.update(nsp as int, x),
        ..s
    }
}

/// What it means for `e` to be the data-to-return transfer handler.
pub open spec fn is_pushr_handler(e: Ebb<EntryId>, root: EntryId) -> bool {
    forall|s: MachineState|
        data_ok(s) && ret_ok(s) && s.regs.dp < s.dstack.len() && w64(s.regs.sp + 1)
            < s.rstack.len() ==> #[trigger] run_ebb(s, e) == Some((pushr_post(s), root))
}

/// Builds the data-to-return transfer handler.
#[verifier::rlimit(100)]
fn build_pushr(root: EntryId) -> (e: Ebb<EntryId>)
    ensures
        is_pushr_handler(e, root),
{
    let mut b: Builder<EntryId> = Builder::new();
    machine_pop(&mut b, Reg::R1);
    machine_push_s(&mut b, Reg::R1);
    let ghost acts = b.actions@;
    let ghost gs = b.guards@;
    let e = b.jump(root);
    proof {
        assert(acts =~= dpop_actions(Reg::R1) + rpush_actions(Reg::R1));
        assert forall|s: MachineState|
            data_ok(s) && ret_ok(s) && s.regs.dp < s.dstack.len() && w64(s.regs.sp + 1)
                < s.rstack.len() implies #[trigger] run_ebb(s, e) == Some((pushr_post(s), root))
            by {
            assert(run_ebb(s, e) == run_guarded(s, gs, 0, acts, Ending::Leaf(root)));
            lemma_guard_end(s, gs, acts, Ending::Leaf(root));
            lemma_run_actions_append(s, dpop_actions(Reg::R1), rpush_actions(Reg::R1));
            lemma_dpop(s, Reg::R1);
            let t1 = dpop_post(s, Reg::R1);
            lemma_rpush(t1, Reg::R1);
            assert(rpush_post(t1, Reg::R1) =~= pushr_post(s));
        }
    }
    e
}

/// The state the return-to-data transfer leaves: the return stack's top
/// moved onto the data stack.
pub open spec fn popr_post(s: MachineState) -> MachineState {
    let y = s.rstack[s.regs.sp as int];
    let ndp = w64(s.regs.dp + 1);
    MachineState {
        regs: RegBank {
            r1: y,
            sp: w64(s.regs.sp - 1),
            temp: (s.dbase + 8 * ndp) as u64,
            dp: ndp,
            ..s.regs
        },
        dstack: s.dstack.update(ndp as int, y),
        ..s
    }
}

/// What it means for `e` to be the return-to-data transfer handler.
pub open spec fn is_popr_handler(e: Ebb<EntryId>, root: EntryId) -> bool {
    forall|s: MachineState|
        data_ok(s) && ret_ok(s) && s.regs.sp < s.rstack.len() && w64(s.regs.dp + 1)
            < s.dstack.len() ==> #[trigger] run_ebb(s, e) == Some((popr_post(s), root))
}

/// Builds the return-to-data transfer handler.
#[verifier::rlimit(100)]
fn build_popr(root: EntryId) -> (e: Ebb<EntryId>)
    ensures
        is_popr_handler(e, root),
{
    let mut b: Builder<EntryId> = Builder::new();
    machine_pop_s(&mut b, Reg::R1);
    machine_push(&mut b, Reg::R1);
    let ghost acts = b.actions@;
    let ghost gs = b.guards@;
    let e = b.jump(root);
    proof {
        assert(acts =~= rpop_actions(Reg::R1) + dpush_actions(Reg::R1));
        assert forall|s: MachineState|
            data_ok(s) && ret_ok(s) && s.regs.sp < s.rstack.len() && w64(s.regs.dp + 1)
                < s.dstack.len() implies #[trigger] run_ebb(s, e) == Some((popr_post(s), root))
            by {
            assert(run_ebb(s, e) == run_guarded(s, gs, 0, acts, Ending::Leaf(root)));
            lemma_guard_end(s, gs, acts, Ending::Leaf(root));
            lemma_run_actions_append(s, rpop_actions(Reg::R1), dpush_actions(Reg::R1));
            lemma_rpop(s, Reg::R1);
            let t1 = rpop_post(s, Reg::R1);
            lemma_dpush(t1, Reg::R1);
            assert(dpush_post(t1, Reg::R1) =~= popr_post(s));
        }
    }
    e
}

/// The state the return-top copy leaves: the return stack's top pushed
/// onto the data stack, the return stack and its pointer untouched.
pub open spec fn dupr_post(s: MachineState) -> MachineState {
    let y = s.rstack[s.regs.sp as int];
    let ndp = w64(s.regs.dp + 1);
    MachineState {
        regs: RegBank {
            r1: y,
            temp: (s.dbase + 8 * ndp) as u64,
            dp: ndp,
            ..s.regs
        },
        dstack: s.dstack.update(ndp as int, y),
        ..s
    }
}

/// What it means for `e` to be the handler copying the return stack's
/// top without popping it.
pub open spec fn is_dupr_handler(e: Ebb<EntryId>, root: EntryId) -> bool {
    forall|s: MachineState|
        data_ok(s) && ret_ok(s) && s.regs.sp < s.rstack.len() && w64(s.regs.dp + 1)
            < s.dstack.len() ==> #[trigger] run_ebb(s, e) == Some((dupr_post(s), root))
}

/// Builds the handler that copies the return stack's top without popping
/// it.
#[verifier::rlimit(100)]
fn build_dupr(root: EntryId) -> (e: Ebb<EntryId>)
    ensures
        is_dupr_handler(e, root),
{
    let mut b: Builder<EntryId> = Builder::new();
    b.array_load(Reg::R1, Variable::Register(Reg::S0), Variable::Register(Reg::Sp), Width::Eight,
        AliasClass::ReturnStack);
    machine_push(&mut b, Reg::R1);
    let ghost acts = b.actions@;
    let ghost gs = b.guards@;
    let e = b.jump(root);
    proof {
        assert(acts =~= array_load_actions(Reg::R1, Variable::Register(Reg::S0),
            Variable::Register(Reg::Sp), Width::Eight, AliasClass::ReturnStack) + dpush_actions(
            Reg::R1,
        ));
        assert forall|s: MachineState|
            data_ok(s) && ret_ok(s) && s.regs.sp < s.rstack.len() && w64(s.regs.dp + 1)
                < s.dstack.len() implies #[trigger] run_ebb(s, e) == Some((dupr_post(s), root))
            by {
            assert(run_ebb(s, e) == run_guarded(s, gs, 0, acts, Ending::Leaf(root)));
            lemma_guard_end(s, gs, acts, Ending::Leaf(root));
            lemma_run_actions_append(s, array_load_actions(Reg::R1, Variable::Register(Reg::S0),
                Variable::Register(Reg::Sp), Width::Eight, AliasClass::ReturnStack),
                dpush_actions(Reg::R1));
            lemma_rpeek(s, Reg::R1);
            let t1 = MachineState {
                regs: RegBank {
                    temp: (s.rbase + 8 * s.regs.sp) as u64,
                    ..write_reg(s.regs, Reg::R1, s.rstack[s.regs.sp as int])
                },
                ..s
            };
            lemma_dpush(t1, Reg::R1);
            assert(dpush_post(t1, Reg::R1) =~= dupr_post(s));
        }
    }
    e
}

// ---------------------------------------------------------------------------
// The dispatch structure and its accessors.

/// The dispatch loop's fetch: pop one instruction word from the code
/// stream at the program counter, advancing it, then mask out the
/// first-level class.
pub open spec fn fetch_actions() -> Seq<Action> {
    pop_actions(Reg::Opcode, Reg::Pc, AliasClass::Memory) + const_binary_actions(BinaryOp::And,
        Reg::Test, Variable::Register(Reg::Opcode), 7)
}

/// The extended class's extraction: discard the class bits and mask out
/// the second-level opcode.
pub open spec fn ext_actions() -> Seq<Action> {
    const_binary_actions(BinaryOp::Lsr, Reg::Opcode, Variable::Register(Reg::Opcode), 3)
        + const_binary_actions(BinaryOp::And, Reg::Test, Variable::Register(Reg::Opcode), 63)
}

/// The body of entry `i`, where defined.
pub open spec fn body_of(b: Bee, i: int) -> Ebb<EntryId> {
    match b.entries@[i].body {
        Some(e) => e,
        None => arbitrary(),
    }
}

/// The dispatch loop's first-level switch.
pub open spec fn root_switch(b: Bee) -> Switch<EntryId> {
    match body_of(b, 0).ending {
        Ending::Switch(sw) => sw,
        Ending::Leaf(_) => arbitrary(),
    }
}

/// The handler block of first-level class `i`.
pub open spec fn op1_case(b: Bee, i: int) -> Ebb<EntryId> {
    root_switch(b).cases@[i]
}

/// The extended class's block: the first-level switch's default.
pub open spec fn ext_block(b: Bee) -> Ebb<EntryId> {
    *root_switch(b).default_
}

/// The second-level switch.
pub open spec fn ext_switch(b: Bee) -> Switch<EntryId> {
    match ext_block(b).ending {
        Ending::Switch(sw) => sw,
        Ending::Leaf(_) => arbitrary(),
    }
}

/// The handler block of second-level opcode `i`.
pub open spec fn op2_case(b: Bee, i: int) -> Ebb<EntryId> {
    ext_switch(b).cases@[i]
}

/// The structure the machine definition promises: three entries — the
/// dispatch root, the undefined exit reporting the deoptimization status,
/// and the deoptimization body — sharing one marshal; a first-level
/// switch of seven cases whose unassigned classes deoptimize and whose
/// default extracts the second-level opcode for a switch of sixty-three
/// cases; and any out-of-range discriminant routed to deoptimization.
pub open spec fn dispatch_wf(b: Bee) -> bool {
    &&& b.entries@.len() == 3
    &&& b.root == EntryId(0)
    &&& b.entries@[0].exit_value == UNDEFINED
    &&& b.entries@[1].exit_value == NOT_IMPLEMENTED
    &&& b.entries@[2].exit_value == UNDEFINED
    &&& b.entries@[0].body is Some
    &&& b.entries@[1].body is None
    &&& b.entries@[2].body is Some
    &&& forall|i: int|
        0 <= i < 3 ==> (#[trigger] b.entries@[i].marshal.prologue@) == prologue_actions()
            && b.entries@[i].marshal.epilogue@ == epilogue_actions()
    &&& is_deopt_body(body_of(b, 2))
    &&& body_of(b, 0).actions@ == fetch_actions()
    &&& body_of(b, 0).ending is Switch
    &&& root_switch(b).discriminant == Variable::Register(Reg::Test)
    &&& root_switch(b).cases@.len() == 7
    &&& is_deopt_leaf(op1_case(b, 5), EntryId(2))
    &&& is_deopt_leaf(op1_case(b, 6), EntryId(2))
    &&& ext_block(b).actions@ == ext_actions()
    &&& ext_block(b).ending is Switch
    &&& ext_switch(b).discriminant == Variable::Register(Reg::Test)
    &&& ext_switch(b).cases@.len() == 63
    &&& is_deopt_leaf(*ext_switch(b).default_, EntryId(2))
    &&& forall|i: int| 0x23 <= i < 63 ==> is_deopt_leaf(#[trigger] op2_case(b, i), EntryId(2))
}

/// The per-instruction meanings the machine definition promises of its
/// populated handlers, at both dispatch levels. Every handler's meaning
/// transfers control to the dispatch loop or to the deoptimization
/// handler, and each of its loads and stores carries the alias class of
/// the one region it touches — the proofs go through the region-split
/// semantics, which gives a mistagged access no meaning.
pub open spec fn handlers_ok(b: Bee) -> bool {
    &&& is_calli_handler(op1_case(b, 0), EntryId(0))
    &&& is_pushi_handler(op1_case(b, 1), EntryId(0))
    &&& is_pushreli_handler(op1_case(b, 2), EntryId(0))
    &&& is_jumpi_handler(op1_case(b, 3), EntryId(0))
    &&& is_jumpzi_handler(op1_case(b, 4), EntryId(0))
    &&& forall|s: MachineState| #[trigger] run_ebb(s, op2_case(b, 0x00)) == Some((s, EntryId(0)))
    &&& is_unary_handler(op2_case(b, 0x01), UnaryOp::Not, EntryId(0))
    &&& is_binary_handler(op2_case(b, 0x02), BinaryOp::And, EntryId(0))
    &&& is_binary_handler(op2_case(b, 0x03), BinaryOp::Or, EntryId(0))
    &&& is_binary_handler(op2_case(b, 0x04), BinaryOp::Xor, EntryId(0))
    &&& is_binary_handler(op2_case(b, 0x05), BinaryOp::Lsl, EntryId(0))
    &&& is_binary_handler(op2_case(b, 0x06), BinaryOp::Lsr, EntryId(0))
    &&& is_binary_handler(op2_case(b, 0x07), BinaryOp::Asr, EntryId(0))
    &&& is_pop_insn_handler(op2_case(b, 0x08), EntryId(0))
    &&& is_dup_handler(op2_case(b, 0x09), EntryId(0))
    &&& is_setslot_handler(op2_case(b, 0x0a), EntryId(0))
    &&& is_swap_handler(op2_case(b, 0x0b), EntryId(0))
    &&& is_jump_handler(op2_case(b, 0x0c), EntryId(0), EntryId(2))
    &&& is_jumpz_handler(op2_case(b, 0x0d), EntryId(0), EntryId(2))
    &&& is_call_handler(op2_case(b, 0x0e), EntryId(0), EntryId(2))
    &&& is_ret_handler(op2_case(b, 0x0f), EntryId(0), EntryId(2))
    &&& is_load_handler(op2_case(b, 0x10), Width::Eight, EntryId(0), EntryId(2))
    &&& is_store_handler(op2_case(b, 0x11), Width::Eight, EntryId(0), EntryId(2))
    &&& is_load_handler(op2_case(b, 0x12), Width::One, EntryId(0), EntryId(2))
    &&& is_store_handler(op2_case(b, 0x13), Width::One, EntryId(0), EntryId(2))
    &&& is_load_handler(op2_case(b, 0x14), Width::Two, EntryId(0), EntryId(2))
    &&& is_store_handler(op2_case(b, 0x15), Width::Two, EntryId(0), EntryId(2))
    &&& is_load_handler(op2_case(b, 0x16), Width::Four, EntryId(0), EntryId(2))
    &&& is_store_handler(op2_case(b, 0x17), Width::Four, EntryId(0), EntryId(2))
    &&& is_unary_handler(op2_case(b, 0x18), UnaryOp::Negate, EntryId(0))
    &&& is_binary_handler(op2_case(b, 0x19), BinaryOp::Add, EntryId(0))
    &&& is_binary_handler(op2_case(b, 0x1a), BinaryOp::Mul, EntryId(0))
    &&& is_divmod_handler(op2_case(b, 0x1b), EntryId(0))
    &&& is_udivmod_handler(op2_case(b, 0x1c), EntryId(0))
    &&& is_compare_handler(op2_case(b, 0x1d), BinaryOp::Eq, EntryId(0))
    &&& is_compare_handler(op2_case(b, 0x1e), BinaryOp::Lt, EntryId(0))
    &&& is_compare_handler(op2_case(b, 0x1f), BinaryOp::Ult, EntryId(0))
    &&& is_pushr_handler(op2_case(b, 0x20), EntryId(0))
    &&& is_popr_handler(op2_case(b, 0x21), EntryId(0))
    &&& is_dupr_handler(op2_case(b, 0x22), EntryId(0))
}

impl Bee {
    /// Builds the machine definition: the marshal, the deoptimization
    /// path, the per-opcode handler blocks and the two-level dispatch
    /// loop, as one immutable arena of three entries rooted at the
    /// dispatch loop.
    #[verifier::rlimit(100)]
    pub fn new() -> (r: Bee)
        ensures
            dispatch_wf(r),
            handlers_ok(r),
    {
        let root = EntryId(0);
        let nim2 = EntryId(1);
        let nim = EntryId(2);

        // First-level table: the five compact instructions; the trap class
        // and the unassigned class deoptimize.
        let mut op1: Vec<Ebb<EntryId>> = Vec::new();
        op1.push(build_calli(root));
        op1.push(build_pushi(root));
        op1.push(build_pushreli(root));
        op1.push(build_jumpi(root));
        op1.push(build_jumpzi(root));
        op1.push(build_leaf(nim));
        op1.push(build_leaf(nim));

        // Second-level table, in opcode order.
        let mut op2: Vec<Ebb<EntryId>> = Vec::new();
        op2.push(build_nop(root));
        op2.push(build_unary(UnaryOp::Not, root));
        op2.push(build_binary(BinaryOp::And, root));
        op2.push(build_binary(BinaryOp::Or, root));
        op2.push(build_binary(BinaryOp::Xor, root));
        op2.push(build_binary(BinaryOp::Lsl, root));
        op2.push(build_binary(BinaryOp::Lsr, root));
        op2.push(build_binary(BinaryOp::Asr, root));
        op2.push(build_pop_insn(root));
        op2.push(build_dup(root));
        op2.push(build_setslot(root));
        op2.push(build_swap(root));
        op2.push(build_jump(root, nim));
        op2.push(build_jumpz(root, nim));
        op2.push(build_call(root, nim));
        op2.push(build_ret(root, nim));
        op2.push(build_load(Width::Eight, root, nim));
        op2.push(build_store(Width::Eight, root, nim));
        op2.push(build_load(Width::One, root, nim));
        op2.push(build_store(Width::One, root, nim));
        op2.push(build_load(Width::Two, root, nim));
        op2.push(build_store(Width::Two, root, nim));
        op2.push(build_load(Width::Four, root, nim));
        op2.push(build_store(Width::Four, root, nim));
        op2.push(build_unary(UnaryOp::Negate, root));
        op2.push(build_binary(BinaryOp::Add, root));
        op2.push(build_binary(BinaryOp::Mul, root));
        op2.push(build_divmod(root));
        op2.push(build_udivmod(root));
        op2.push(build_compare(BinaryOp::Eq, root));
        op2.push(build_compare(BinaryOp::Lt, root));
        op2.push(build_compare(BinaryOp::Ult, root));
        op2.push(build_pushr(root));
        op2.push(build_popr(root));
        op2.push(build_dupr(root));
        let ghost populated = op2@;
        proof {
            assert(populated.len() == 0x23);
        }
        while op2.len() < 63
            invariant
                nim == EntryId(2),
                0x23 <= op2@.len() <= 63,
                op2@.subrange(0, 0x23) =~= populated,
                forall|i: int|
                    0x23 <= i < op2@.len() ==> is_deopt_leaf(#[trigger] op2@[i], EntryId(2)),
            decreases 63 - op2@.len(),
        {
            let d = build_leaf(nim);
            let ghost prev = op2@;
            op2.push(d);
            proof {
                assert(op2@ == prev.push(d));
                assert forall|i: int| 0x23 <= i < op2@.len() implies is_deopt_leaf(
                    op2@[i],
                    EntryId(2),
                ) by {
                    if i < prev.len() {
                        assert(op2@[i] == prev[i]);
                    } else {
                        assert(op2@[i] == d);
                    }
                }
                assert(op2@.subrange(0, 0x23) =~= populated);
            }
        }
        let ghost op2_final = op2@;

        // The extended class's block: shift out the class bits, mask the
        // second-level opcode, dispatch.
        let mut b: Builder<EntryId> = Builder::new();
        b.const_binary(BinaryOp::Lsr, Reg::Opcode, Variable::Register(Reg::Opcode), 3);
        b.const_binary(BinaryOp::And, Reg::Test, Variable::Register(Reg::Opcode), 63);
        let sw2 = Switch::new(Variable::Register(Reg::Test), op2, build_leaf(nim));
        let ghost sw2_spec = sw2;
        let ext = b.switch(sw2);

        // The dispatch root: fetch a word, mask the first-level class,
        // dispatch.
        let mut b: Builder<EntryId> = Builder::new();
        b.pop(Reg::Opcode, Reg::Pc, AliasClass::Memory);
        b.const_binary(BinaryOp::And, Reg::Test, Variable::Register(Reg::Opcode), 7);
        let sw1 = Switch::new(Variable::Register(Reg::Test), op1, ext);
        let ghost sw1_spec = sw1;
        let root_body = b.switch(sw1);

        let deopt_body = build_deopt_body();

        let mut entries: Vec<Entry> = Vec::new();
        entries.push(
            Entry { marshal: build_marshal(), exit_value: UNDEFINED, body: Some(root_body) },
        );
        entries.push(Entry { marshal: build_marshal(), exit_value: NOT_IMPLEMENTED, body: None });
        entries.push(
            Entry { marshal: build_marshal(), exit_value: UNDEFINED, body: Some(deopt_body) },
        );
        let r = Bee { entries, root };
        proof {
            assert(body_of(r, 0).actions@ =~= fetch_actions());
            assert(root_switch(r) == sw1_spec);
            assert(ext_block(r).actions@ =~= ext_actions());
            assert(ext_switch(r) == sw2_spec);
            assert(forall|i: int|
                0 <= i < 0x23 ==> #[trigger] op2_final[i] == populated[i]) by {
                assert(forall|i: int|
                    0 <= i < 0x23 ==> #[trigger] op2_final[i] == op2_final.subrange(0, 0x23)[i]);
            }
        }
        r
    }
}


// ---------------------------------------------------------------------------
// Shared pieces of the remaining handler proofs.

/// Reduction to the word commutes with subtraction of a small constant.
pub proof fn lemma_w64_sub(y: int, z: int)
    requires
        0 <= z < 0x1_0000_0000_0000_0000,
    ensures
        w64(w64(y) - z) == w64(y - z),
{
    let m = 0x1_0000_0000_0000_0000;
    vstd::arithmetic::div_mod::lemma_sub_mod_noop(y, z, m);
    vstd::arithmetic::div_mod::lemma_small_mod(z as nat, m as nat);
}

/// The offset field of a compact branch word: the word with its low
/// three class bits cleared.
pub open spec fn rel_off(w: u64) -> u64 {
    w & 0xffff_ffff_ffff_fff8
}

/// The immediate field of the compact push: the word arithmetically
/// shifted right past the class bits.
pub open spec fn imm_of(w: u64) -> u64 {
    ((w as i64) >> (3 as u64)) as u64
}

/// Two data-stack pops into distinct working registers.
#[verifier::rlimit(100)]
#[verifier::spinoff_prover]
proof fn lemma_dpop2(s: MachineState, d1: Reg, d2: Reg, acts: Seq<Action>)
    requires
        data_ok(s),
        1 <= s.regs.dp < s.dstack.len(),
        d1 != Reg::Temp && d1 != Reg::Dp && d1 != Reg::D0,
        d2 != Reg::Temp && d2 != Reg::Dp && d2 != Reg::D0,
        acts == dpop_actions(d1) + dpop_actions(d2),
    ensures
        run_actions(s, acts) == Some(dpop_post(dpop_post(s, d1), d2)),
{
    lemma_run_actions_append(s, dpop_actions(d1), dpop_actions(d2));
    lemma_dpop(s, d1);
    let t1 = dpop_post(s, d1);
    assert(t1.regs.dp == s.regs.dp - 1) by {
        assert(w64(s.regs.dp - 1) == s.regs.dp - 1);
    }
    lemma_dpop(t1, d2);
}

/// An indexed data-stack read through the test register: `dest` receives
/// the slot the test register names.
#[verifier::rlimit(100)]
#[verifier::spinoff_prover]
proof fn lemma_dpeek(s: MachineState, dest: Reg)
    requires
        data_ok(s),
        s.regs.test < s.dstack.len(),
        dest != Reg::Temp && dest != Reg::D0 && dest != Reg::Test,
    ensures
        run_actions(
            s,
            array_load_actions(dest, Variable::Register(Reg::D0), Variable::Register(Reg::Test),
                Width::Eight, AliasClass::DataStack),
        ) == Some(
            MachineState {
                regs: RegBank {
                    temp: (s.dbase + 8 * s.regs.test) as u64,
                    ..write_reg(s.regs, dest, s.dstack[s.regs.test as int])
                },
                ..s
            },
        ),
{
    let acts = array_load_actions(dest, Variable::Register(Reg::D0),
        Variable::Register(Reg::Test), Width::Eight, AliasClass::DataStack);
    assert(acts =~= seq![
        Action::Constant(Reg::Temp, 3),
        Action::Binary(BinaryOp::Lsl, Reg::Temp, Variable::Register(Reg::Test),
            Variable::Register(Reg::Temp)),
        Action::Binary(BinaryOp::Add, Reg::Temp, Variable::Register(Reg::D0),
            Variable::Register(Reg::Temp)),
        Action::Load(dest, Variable::Register(Reg::Temp), Width::Eight, AliasClass::DataStack),
    ]);
    let k = s.regs.test;
    lemma_slot_scale(k, s.dstack.len() as int, s.dbase);
    let addr = (s.dbase + 8 * k) as u64;
    let s1 = with_reg(s, Reg::Temp, 3);
    let s2 = with_reg(s1, Reg::Temp, (8 * k) as u64);
    let s3 = with_reg(s2, Reg::Temp, addr);
    let s4 = with_reg(s3, dest, s.dstack[k as int]);
    assert(step_action(s, acts[0]) == Some(s1));
    assert(step_action(s1, acts[1]) == Some(s2));
    assert(step_action(s2, acts[2]) == Some(s3));
    assert(addr as int - s.dbase as int == 8 * k);
    assert(8 * k % 8 == 0 && 8 * k / 8 == k as int) by (nonlinear_arith);
    assert(step_action(s3, acts[3]) == Some(s4));
    assert(run_actions(s, acts) == Some(s4)) by {
        reveal_with_fuel(run_actions_from, 6);
    }
    assert(s4 =~= MachineState {
        regs: RegBank { temp: addr, ..write_reg(s.regs, dest, s.dstack[k as int]) },
        ..s
    });
}

/// An indexed data-stack write through the test register: the slot the
/// test register names receives `src`'s value.
#[verifier::rlimit(100)]
#[verifier::spinoff_prover]
proof fn lemma_dslot_store(s: MachineState, src: Reg)
    requires
        data_ok(s),
        s.regs.test < s.dstack.len(),
        src != Reg::Temp,
    ensures
        run_actions(
            s,
            array_store_actions(Variable::Register(src), Variable::Register(Reg::D0),
                Variable::Register(Reg::Test), Width::Eight, AliasClass::DataStack),
        ) == Some(
            MachineState {
                regs: RegBank { temp: (s.dbase + 8 * s.regs.test) as u64, ..s.regs },
                dstack: s.dstack.update(s.regs.test as int, read_reg(s.regs, src)),
                ..s
            },
        ),
{
    let acts = array_store_actions(Variable::Register(src), Variable::Register(Reg::D0),
        Variable::Register(Reg::Test), Width::Eight, AliasClass::DataStack);
    assert(acts =~= seq![
        Action::Constant(Reg::Temp, 3),
        Action::Binary(BinaryOp::Lsl, Reg::Temp, Variable::Register(Reg::Test),
            Variable::Register(Reg::Temp)),
        Action::Binary(BinaryOp::Add, Reg::Temp, Variable::Register(Reg::D0),
            Variable::Register(Reg::Temp)),
        Action::Store(Reg::Temp, Variable::Register(src), Variable::Register(Reg::Temp),
            Width::Eight, AliasClass::DataStack),
    ]);
    let k = s.regs.test;
    let v = read_reg(s.regs, src);
    lemma_slot_scale(k, s.dstack.len() as int, s.dbase);
    let addr = (s.dbase + 8 * k) as u64;
    let s1 = with_reg(s, Reg::Temp, 3);
    let s2 = with_reg(s1, Reg::Temp, (8 * k) as u64);
    let s3 = with_reg(s2, Reg::Temp, addr);
    let stored = MachineState { dstack: s3.dstack.update(k as int, v), ..s3 };
    let s4 = with_reg(stored, Reg::Temp, addr);
    assert(step_action(s, acts[0]) == Some(s1));
    assert(step_action(s1, acts[1]) == Some(s2));
    assert(step_action(s2, acts[2]) == Some(s3));
    assert(addr as int - s.dbase as int == 8 * k);
    assert(8 * k % 8 == 0 && 8 * k / 8 == k as int) by (nonlinear_arith);
    assert(step_action(s3, acts[3]) == Some(s4));
    assert(run_actions(s, acts) == Some(s4)) by {
        reveal_with_fuel(run_actions_from, 6);
    }
    assert(s4 =~= MachineState {
        regs: RegBank { temp: addr, ..s.regs },
        dstack: s.dstack.update(k as int, v),
        ..s
    });
}

/// An indexed return-stack read at the pointer, without popping.
#[verifier::rlimit(100)]
#[verifier::spinoff_prover]
proof fn lemma_rpeek(s: MachineState, dest: Reg)
    requires
        ret_ok(s),
        s.regs.sp < s.rstack.len(),
        dest != Reg::Temp && dest != Reg::S0 && dest != Reg::Sp,
    ensures
        run_actions(
            s,
            array_load_actions(dest, Variable::Register(Reg::S0), Variable::Register(Reg::Sp),
                Width::Eight, AliasClass::ReturnStack),
        ) == Some(
            MachineState {
                regs: RegBank {
                    temp: (s.rbase + 8 * s.regs.sp) as u64,
                    ..write_reg(s.regs, dest, s.rstack[s.regs.sp as int])
                },
                ..s
            },
        ),
{
    let acts = array_load_actions(dest, Variable::Register(Reg::S0), Variable::Register(Reg::Sp),
        Width::Eight, AliasClass::ReturnStack);
    assert(acts =~= seq![
        Action::Constant(Reg::Temp, 3),
        Action::Binary(BinaryOp::Lsl, Reg::Temp, Variable::Register(Reg::Sp),
            Variable::Register(Reg::Temp)),
        Action::Binary(BinaryOp::Add, Reg::Temp, Variable::Register(Reg::S0),
            Variable::Register(Reg::Temp)),
        Action::Load(dest, Variable::Register(Reg::Temp), Width::Eight,
            AliasClass::ReturnStack),
    ]);
    let k = s.regs.sp;
    lemma_slot_scale(k, s.rstack.len() as int, s.rbase);
    let addr = (s.rbase + 8 * k) as u64;
    let s1 = with_reg(s, Reg::Temp, 3);
    let s2 = with_reg(s1, Reg::Temp, (8 * k) as u64);
    let s3 = with_reg(s2, Reg::Temp, addr);
    let s4 = with_reg(s3, dest, s.rstack[k as int]);
    assert(step_action(s, acts[0]) == Some(s1));
    assert(step_action(s1, acts[1]) == Some(s2));
    assert(step_action(s2, acts[2]) == Some(s3));
    assert(addr as int - s.rbase as int == 8 * k);
    assert(8 * k % 8 == 0 && 8 * k / 8 == k as int) by (nonlinear_arith);
    assert(step_action(s3, acts[3]) == Some(s4));
    assert(run_actions(s, acts) == Some(s4)) by {
        reveal_with_fuel(run_actions_from, 6);
    }
    assert(s4 =~= MachineState {
        regs: RegBank { temp: addr, ..write_reg(s.regs, dest, s.rstack[k as int]) },
        ..s
    });
}

/// The compact branch forms' offset computation: materialize the field
/// mask, extract the offset into the first working register.
pub open spec fn rel_off_actions() -> Seq<Action> {
    const_binary_actions(BinaryOp::And, Reg::R1, Variable::Register(Reg::Opcode), -8i64)
}

/// Extracting the offset field leaves it in the first working register.
#[verifier::rlimit(100)]
#[verifier::spinoff_prover]
proof fn lemma_rel_off(s: MachineState)
    ensures
        run_actions(s, rel_off_actions()) == Some(
            with_reg(with_reg(s, Reg::R1, 0xffff_ffff_ffff_fff8u64), Reg::R1,
                rel_off(s.regs.opcode)),
        ),
{
    let acts = rel_off_actions();
    assert(acts =~= seq![
        Action::Constant(Reg::R1, -8i64),
        Action::Binary(BinaryOp::And, Reg::R1, Variable::Register(Reg::Opcode),
            Variable::Register(Reg::R1)),
    ]);
    assert((-8i64) as u64 == 0xffff_ffff_ffff_fff8u64) by (bit_vector);
    let t1 = with_reg(s, Reg::R1, 0xffff_ffff_ffff_fff8u64);
    let t2 = with_reg(t1, Reg::R1, s.regs.opcode & 0xffff_ffff_ffff_fff8u64);
    assert(run_actions(s, acts) == Some(t2)) by {
        reveal_with_fuel(run_actions_from, 3);
        assert(step_action(s, acts[0]) == Some(t1));
        assert(step_action(t1, acts[1]) == Some(t2));
    }
}

} // verus!
