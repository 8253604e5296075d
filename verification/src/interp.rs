//! A reference interpreter for the machine definition: it executes the
//! arena of blocks directly over the action semantics' state model, so
//! programs can be run against exactly the meaning the laws are proved
//! over, without any compilation engine.

use vstd::prelude::*;

use crate::code::{Action, AliasClass, BinaryOp, Ebb, Ending, Reg, UnaryOp, Variable, Width};
use crate::machine::{Bee, Entry};
use crate::registers::{record_read, record_write, Registers};
use crate::semantics::{binary_sem, class_load, class_store, eval_var, p8, rd, read_reg,
    run_actions, run_actions_from, run_ebb, stack_slot, step_action, unary_sem, w64, wr,
    write_reg, MachineState, RegBank};
use crate::semantics::{lemma_p8_positive, lemma_rd_bound};
use crate::EntryId;

verus! {

/// The concrete machine state the interpreter runs over; its view is the
/// [`MachineState`] of the action semantics.
pub struct VmState {
    /// The native working registers.
    pub regs: RegBank,
    /// The value of global 0: the address of the host state record.
    pub g0: u64,
    /// The host state record.
    pub record: Registers,
    /// Base address of the data-stack region.
    pub dbase: u64,
    /// The data-stack region.
    pub dstack: Vec<u64>,
    /// Base address of the return-stack region.
    pub rbase: u64,
    /// The return-stack region.
    pub rstack: Vec<u64>,
    /// General memory, including the code the program counter walks.
    pub mem: Vec<u8>,
}

impl View for VmState {
    type V = MachineState;

    open spec fn view(&self) -> MachineState {
        MachineState {
            regs: self.regs,
            g0: self.g0,
            record: self.record,
            dbase: self.dbase,
            dstack: self.dstack@,
            rbase: self.rbase,
            rstack: self.rstack@,
            mem: self.mem@,
        }
    }
}

/// The value register `r` holds.
fn get_reg(b: &RegBank, r: Reg) -> (v: u64)
    ensures
        v == read_reg(*b, r),
{
    match r {
        Reg::Temp => b.temp,
        Reg::R1 => b.r1,
        Reg::R2 => b.r2,
        Reg::Pc => b.pc,
        Reg::S0 => b.s0,
        Reg::Sp => b.sp,
        Reg::SSize => b.ssize,
        Reg::D0 => b.d0,
        Reg::Dp => b.dp,
        Reg::DSize => b.dsize,
        Reg::Opcode => b.opcode,
        Reg::Test => b.test,
    }
}

/// Sets register `r` to `v`.
fn set_reg(b: &mut RegBank, r: Reg, v: u64)
    ensures
        *final(b) == write_reg(*old(b), r, v),
{
    match r {
        Reg::Temp => b.temp = v,
        Reg::R1 => b.r1 = v,
        Reg::R2 => b.r2 = v,
        Reg::Pc => b.pc = v,
        Reg::S0 => b.s0 = v,
        Reg::Sp => b.sp = v,
        Reg::SSize => b.ssize = v,
        Reg::D0 => b.d0 = v,
        Reg::Dp => b.dp = v,
        Reg::DSize => b.dsize = v,
        Reg::Opcode => b.opcode = v,
        Reg::Test => b.test = v,
    }
}

/// The value an operand denotes, if it denotes one.
fn eval_operand(st: &VmState, v: Variable) -> (r: Option<u64>)
    ensures
        r == eval_var(st@, v),
{
    match v {
        Variable::Register(rg) => Some(get_reg(&st.regs, rg)),
        Variable::Global(g) => if g.0 == 0 {
            Some(st.g0)
        } else {
            None
        },
    }
}

/// How the signed view of a word relates to its unsigned pattern.
proof fn lemma_signed_bridge(a: u64)
    ensures
        a < 0x8000_0000_0000_0000u64 ==> crate::semantics::as_signed(a) == a,
        a >= 0x8000_0000_0000_0000u64 ==> crate::semantics::as_signed(a) == a
            - 0x1_0000_0000_0000_0000,
{
    assert(a < 0x8000_0000_0000_0000u64 ==> a as i64 == a) by (bit_vector);
    assert(a >= 0x8000_0000_0000_0000u64 ==> a as i64 == a - 0x1_0000_0000_0000_0000)
        by (bit_vector);
}

/// Truncated signed division, computed on magnitudes, for operands the
/// division handlers permit.
#[verifier::rlimit(50)]
fn sdiv_exec(a: u64, b: u64) -> (r: u64)
    requires
        crate::semantics::as_signed(b) != 0,
        !(crate::semantics::as_signed(a) == i64::MIN && crate::semantics::as_signed(b) == -1),
    ensures
        r == w64(crate::semantics::tdiv(crate::semantics::as_signed(a),
            crate::semantics::as_signed(b))),
{
    proof {
        lemma_signed_bridge(a);
        lemma_signed_bridge(b);
    }
    let neg_a = a >= 0x8000_0000_0000_0000;
    let neg_b = b >= 0x8000_0000_0000_0000;
    let ma: u64 = if neg_a {
        0u64.wrapping_sub(a)
    } else {
        a
    };
    let mb: u64 = if neg_b {
        0u64.wrapping_sub(b)
    } else {
        b
    };
    proof {
        assert(ma == crate::semantics::abs_i(crate::semantics::as_signed(a)));
        assert(mb == crate::semantics::abs_i(crate::semantics::as_signed(b)));
        assert(mb != 0);
    }
    let mq: u64 = ma / mb;
    if neg_a != neg_b {
        0u64.wrapping_sub(mq)
    } else {
        mq
    }
}

/// The result of a binary operation, as [`binary_sem`] gives it.
#[verifier::rlimit(50)]
fn exec_binary(op: BinaryOp, a: u64, b: u64) -> (r: Option<u64>)
    ensures
        r == binary_sem(op, a, b),
{
    match op {
        BinaryOp::Add => Some(a.wrapping_add(b)),
        BinaryOp::Sub => Some(a.wrapping_sub(b)),
        BinaryOp::Mul => Some(a.wrapping_mul(b)),
        BinaryOp::UDiv => if b == 0 {
            None
        } else {
            Some(a / b)
        },
        BinaryOp::SDiv => {
            proof {
                lemma_signed_bridge(a);
                lemma_signed_bridge(b);
                crate::machine::lemma_signed_patterns(a);
                crate::machine::lemma_signed_patterns(b);
            }
            if (b as i64) == 0 || ((a as i64) == i64::MIN && (b as i64) == -1) {
                None
            } else {
                Some(sdiv_exec(a, b))
            }
        },
        BinaryOp::Lsl => {
            proof {
                lemma_shift_amount(b);
            }
            Some(a << (b & 63))
        },
        BinaryOp::Lsr => {
            proof {
                lemma_shift_amount(b);
            }
            Some(a >> (b & 63))
        },
        BinaryOp::Asr => {
            proof {
                lemma_shift_amount(b);
            }
            Some(((a as i64) >> (b & 63)) as u64)
        },
        BinaryOp::And => Some(a & b),
        BinaryOp::Or => Some(a | b),
        BinaryOp::Xor => Some(a ^ b),
        BinaryOp::Lt => if (a as i64) < (b as i64) {
            Some(1)
        } else {
            Some(0)
        },
        BinaryOp::Ult => if a < b {
            Some(1)
        } else {
            Some(0)
        },
        BinaryOp::Eq => if a == b {
            Some(1)
        } else {
            Some(0)
        },
    }
}

/// A masked shift count stays below the word size.
proof fn lemma_shift_amount(b: u64)
    ensures
        b & 63 < 64,
{
    assert(b & 63 < 64) by (bit_vector);
}

/// The result of a unary operation, as [`unary_sem`] gives it.
fn exec_unary(op: UnaryOp, a: u64) -> (r: u64)
    ensures
        r == unary_sem(op, a),
{
    match op {
        UnaryOp::Abs => {
            let xs = a as i64;
            let r: u64 = if xs >= 0 {
                a
            } else {
                0u64.wrapping_sub(a)
            };
            proof {
                lemma_abs_pattern(a);
            }
            r
        },
        UnaryOp::Negate => 0u64.wrapping_sub(a),
        UnaryOp::Not => !a,
    }
}

/// The wrapping absolute value matches the unsigned negation pattern.
proof fn lemma_abs_pattern(a: u64)
    ensures
        (a as i64) >= 0 ==> unary_sem(UnaryOp::Abs, a) == a,
        (a as i64) < 0 ==> unary_sem(UnaryOp::Abs, a) == w64(0 - a),
{
    if a as i64 >= 0 {
        assert((a as i64) >= 0 ==> a <= 0x7fff_ffff_ffff_ffffu64) by (bit_vector);
    } else {
        assert((a as i64) < 0 ==> a >= 0x8000_0000_0000_0000u64) by (bit_vector);
        assert((a as i64) < 0 ==> a as i64 == a - 0x1_0000_0000_0000_0000) by (bit_vector);
    }
}

/// Reads the little-endian value of `n` bytes at `a`.
fn read_bytes(mem: &Vec<u8>, a: u64, n: u64) -> (v: u64)
    requires
        n <= 8,
        a + n <= mem@.len(),
    ensures
        v == rd(mem@, a as int, n as nat),
{
    proof {
        lemma_rd_bound(mem@, a as int, n as nat);
        lemma_p8_le(n as nat);
    }
    let len: usize = mem.len();
    let mut v: u64 = 0;
    let mut i: u64 = n;
    while i > 0
        invariant
            i <= n <= 8,
            a + n <= len,
            len == mem@.len(),
            len <= usize::MAX,
            v == rd(mem@, a + i, (n - i) as nat),
            v < p8((n - i) as nat),
            p8((n - i) as nat) <= p8(8),
            p8(8) == 0x1_0000_0000_0000_0000,
        decreases i,
    {
        i = i - 1;
        proof {
            lemma_rd_bound(mem@, a + i + 1, (n - i - 1) as nat);
            lemma_rd_bound(mem@, a + i, (n - i) as nat);
            lemma_p8_le((n - i) as nat);
            lemma_p8_pos((n - i - 1) as nat);
            assert(p8((n - i) as nat) == 256 * p8((n - i - 1) as nat));
            assert(rd(mem@, a + i, (n - i) as nat) == mem@[a + i] + 256 * rd(
                mem@,
                a + i + 1,
                (n - i - 1) as nat,
            ));
            assert(v * 256 + 255 < p8((n - i) as nat)) by (nonlinear_arith)
                requires
                    v < p8((n - i - 1) as nat),
                    p8((n - i) as nat) == 256 * p8((n - i - 1) as nat),
            ;
        }
        let idx: usize = (a + i) as usize;
        v = v * 256 + (mem[idx] as u64);
    }
    proof {
        lemma_rd_bound(mem@, a as int, 0);
    }
    v
}

/// `p8` grows with its argument, up to the word size.
proof fn lemma_p8_le(n: nat)
    requires
        n <= 8,
    ensures
        p8(n) <= p8(8),
        p8(8) == 0x1_0000_0000_0000_0000,
    decreases 8 - n,
{
    assert(p8(8) == 0x1_0000_0000_0000_0000) by {
        reveal_with_fuel(p8, 9);
    }
    if n < 8 {
        lemma_p8_le(n + 1);
        lemma_p8_pos(n);
    }
}

/// `p8` is positive.
proof fn lemma_p8_pos(n: nat)
    ensures
        p8(n) >= 1,
{
    lemma_p8_positive(n);
}

/// Writes the low `n` bytes of `v` little-endian at `a`.
fn write_bytes(mem: &mut Vec<u8>, a: u64, v: u64, n: u64)
    requires
        n <= 8,
        a + n <= old(mem)@.len(),
    ensures
        final(mem)@ == wr(old(mem)@, a as int, v as int, n as nat),
{
    let len: usize = mem.len();
    let mut i: u64 = 0;
    let mut cur: u64 = v;
    while i < n
        invariant
            i <= n <= 8,
            a + n <= len,
            len == mem@.len(),
            len <= usize::MAX,
            mem@.len() == old(mem)@.len(),
            wr(old(mem)@, a as int, v as int, n as nat) == wr(
                mem@,
                a + i,
                cur as int,
                (n - i) as nat,
            ),
        decreases n - i,
    {
        proof {
            assert(wr(mem@, a + i, cur as int, (n - i) as nat) == wr(
                mem@.update(a + i, ((cur as int) % 256) as u8),
                a + i + 1,
                cur as int / 256,
                (n - i - 1) as nat,
            ));
        }
        let b: u8 = (cur % 256) as u8;
        let idx: usize = (a + i) as usize;
        mem[idx] = b;
        cur = cur / 256;
        i = i + 1;
    }
}

/// Performs a load in the given alias class, as [`class_load`] gives it.
fn exec_class_load(st: &VmState, class: AliasClass, a: u64, width: Width) -> (r: Option<u64>)
    ensures
        r == class_load(st@, class, a, width),
{
    match class {
        AliasClass::DataStack => match slot_index(st.dbase, st.dstack.len(), a, width) {
            Some(k) => Some(st.dstack[k]),
            None => None,
        },
        AliasClass::ReturnStack => match slot_index(st.rbase, st.rstack.len(), a, width) {
            Some(k) => Some(st.rstack[k]),
            None => None,
        },
        AliasClass::HostRecord => if matches!(width, Width::Eight) {
            record_get(&st.record, a, st.g0)
        } else {
            None
        },
        AliasClass::Memory => {
            let n = width.bytes();
            let len = st.mem.len() as u64;
            if n <= len && a <= len - n {
                proof {
                    lemma_rd_bound(st.mem@, a as int, crate::code::spec_width_bytes(width) as nat);
                    lemma_p8_le(crate::code::spec_width_bytes(width) as nat);
                }
                Some(read_bytes(&st.mem, a, n))
            } else {
                None
            }
        },
    }
}

/// The in-range, aligned slot index of address `a`, as [`stack_slot`]
/// gives it.
fn slot_index(base: u64, len: usize, a: u64, width: Width) -> (r: Option<usize>)
    ensures
        match r {
            Some(k) => stack_slot(base, len as int, a, width) == Some(k as int),
            None => stack_slot(base, len as int, a, width) is None,
        },
{
    if !matches!(width, Width::Eight) {
        return None;
    }
    if a < base {
        return None;
    }
    let off = a - base;
    if off % 8 != 0 {
        return None;
    }
    let k = off / 8;
    if k < len as u64 {
        Some(k as usize)
    } else {
        None
    }
}

/// The record field addressed at `a` relative to the record base `g0`, as
/// [`record_read`] gives it.
fn record_get(rec: &Registers, a: u64, g0: u64) -> (r: Option<u64>)
    ensures
        r == record_read(*rec, a as int - g0 as int),
{
    if a < g0 {
        return None;
    }
    let off = a - g0;
    if off == 0 {
        Some(rec.pc)
    } else if off == 8 {
        Some(rec.s0)
    } else if off == 16 {
        Some(rec.ssize)
    } else if off == 24 {
        Some(rec.sp)
    } else if off == 32 {
        Some(rec.d0)
    } else if off == 40 {
        Some(rec.dsize)
    } else if off == 48 {
        Some(rec.dp)
    } else if off == 56 {
        Some(rec.handler_sp)
    } else {
        None
    }
}

/// Writes the record field addressed at `a`, as [`record_write`] gives
/// it.
fn record_set(rec: &mut Registers, a: u64, g0: u64, v: u64) -> (ok: bool)
    ensures
        match record_write(*old(rec), a as int - g0 as int, v) {
            Some(r2) => ok && *final(rec) == r2,
            None => !ok && *final(rec) == *old(rec),
        },
{
    if a < g0 {
        return false;
    }
    let off = a - g0;
    if off == 0 {
        rec.pc = v;
    } else if off == 8 {
        rec.s0 = v;
    } else if off == 16 {
        rec.ssize = v;
    } else if off == 24 {
        rec.sp = v;
    } else if off == 32 {
        rec.d0 = v;
    } else if off == 40 {
        rec.dsize = v;
    } else if off == 48 {
        rec.dp = v;
    } else if off == 56 {
        rec.handler_sp = v;
    } else {
        return false;
    }
    true
}

/// Performs a store in the given alias class, as [`class_store`] gives
/// it.
#[verifier::rlimit(50)]
fn exec_class_store(st: &mut VmState, class: AliasClass, a: u64, width: Width, v: u64) -> (ok:
    bool)
    ensures
        match class_store(old(st)@, class, a, width, v) {
            Some(t) => ok && final(st)@ == t,
            None => !ok && final(st)@ == old(st)@,
        },
{
    match class {
        AliasClass::DataStack => match slot_index(st.dbase, st.dstack.len(), a, width) {
            Some(k) => {
                st.dstack[k] = v;
                true
            },
            None => false,
        },
        AliasClass::ReturnStack => match slot_index(st.rbase, st.rstack.len(), a, width) {
            Some(k) => {
                st.rstack[k] = v;
                true
            },
            None => false,
        },
        AliasClass::HostRecord => {
            if !matches!(width, Width::Eight) {
                return false;
            }
            record_set(&mut st.record, a, st.g0, v)
        },
        AliasClass::Memory => {
            let n = width.bytes();
            let len = st.mem.len() as u64;
            if n <= len && a <= len - n {
                write_bytes(&mut st.mem, a, v, n);
                true
            } else {
                false
            }
        },
    }
}

/// Performs one action, as [`step_action`] gives it.
#[verifier::rlimit(50)]
pub fn do_action(st: &mut VmState, action: &Action) -> (ok: bool)
    ensures
        match step_action(old(st)@, *action) {
            Some(t) => ok && final(st)@ == t,
            None => !ok,
        },
{
    match action {
        Action::Move(dest, src) => match (dest, eval_operand(st, *src)) {
            (Variable::Register(r), Some(v)) => {
                set_reg(&mut st.regs, *r, v);
                true
            },
            _ => false,
        },
        Action::Constant(dest, value) => {
            set_reg(&mut st.regs, *dest, *value as u64);
            true
        },
        Action::Unary(op, dest, src) => match eval_operand(st, *src) {
            Some(a) => {
                let v = exec_unary(*op, a);
                set_reg(&mut st.regs, *dest, v);
                true
            },
            None => false,
        },
        Action::Binary(op, dest, src1, src2) => match (
            eval_operand(st, *src1),
            eval_operand(st, *src2),
        ) {
            (Some(a), Some(b)) => match exec_binary(*op, a, b) {
                Some(v) => {
                    set_reg(&mut st.regs, *dest, v);
                    true
                },
                None => false,
            },
            _ => false,
        },
        Action::Load(dest, addr, width, class) => match eval_operand(st, *addr) {
            Some(a) => match exec_class_load(st, *class, a, *width) {
                Some(v) => {
                    set_reg(&mut st.regs, *dest, v);
                    true
                },
                None => false,
            },
            None => false,
        },
        Action::Store(dest, src, addr, width, class) => match (
            eval_operand(st, *src),
            eval_operand(st, *addr),
        ) {
            (Some(v), Some(a)) => {
                if exec_class_store(st, *class, a, *width, v) {
                    set_reg(&mut st.regs, *dest, a);
                    true
                } else {
                    false
                }
            },
            _ => false,
        },
        Action::Debug(src) => match eval_operand(st, *src) {
            Some(_) => true,
            None => false,
        },
    }
}

/// Runs an action sequence in order; `false` means some action had no
/// meaning and the state is no longer tracked.
pub fn do_actions(st: &mut VmState, actions: &Vec<Action>) -> (ok: bool)
    ensures
        match run_actions(old(st)@, actions@) {
            Some(t) => ok && final(st)@ == t,
            None => !ok,
        },
{
    let mut i: usize = 0;
    while i < actions.len()
        invariant
            i <= actions@.len(),
            run_actions(old(st)@, actions@) == run_actions_from(st@, actions@, i as int),
        decreases actions@.len() - i,
    {
        let ok = do_action(st, &actions[i]);
        if !ok {
            return false;
        }
        i = i + 1;
    }
    true
}

/// Runs one extended basic block from the current state, returning the
/// entry point control transfers to, as [`run_ebb`] gives it.
pub fn exec_ebb(st: &mut VmState, ebb: &Ebb<EntryId>) -> (r: Option<EntryId>)
    ensures
        match run_ebb(old(st)@, *ebb) {
            Some((t, id)) => r == Some(id) && final(st)@ == t,
            None => r is None,
        },
    decreases *ebb,
{
    if !do_actions(st, &ebb.actions) {
        return None;
    }
    match &ebb.ending {
        Ending::Leaf(t) => Some(*t),
        Ending::Switch(sw) => match eval_operand(st, sw.discriminant) {
            Some(d) => {
                if d < sw.cases.len() as u64 {
                    exec_ebb(st, &sw.cases[d as usize])
                } else {
                    exec_ebb(st, &sw.default_)
                }
            },
            None => None,
        },
    }
}

/// What running the machine means: enter through the root's prologue,
/// follow block transfers until an undefined entry is reached, run its
/// epilogue, and report its exit status. `None` means the budget ran out
/// or some action had no meaning.
pub open spec fn machine_run(b: Bee, s: MachineState, fuel: nat) -> Option<(MachineState, i64)> {
    if b.root.0 >= b.entries@.len() {
        None
    } else {
        match run_actions(s, b.entries@[b.root.0 as int].marshal.prologue@) {
            Some(s1) => entries_run(b.entries@, s1, b.root, fuel),
            None => None,
        }
    }
}

/// Following block transfers from entry `id` for at most `fuel` steps.
pub open spec fn entries_run(entries: Seq<Entry>, s: MachineState, id: EntryId, fuel: nat)
    -> Option<(MachineState, i64)>
    decreases fuel,
{
    if id.0 >= entries.len() {
        None
    } else {
        let e = entries[id.0 as int];
        match e.body {
            None => match run_actions(s, e.marshal.epilogue@) {
                Some(s1) => Some((s1, e.exit_value)),
                None => None,
            },
            Some(body) => if fuel == 0 {
                None
            } else {
                match run_ebb(s, body) {
                    Some((s1, next)) => entries_run(entries, s1, next, (fuel - 1) as nat),
                    None => None,
                }
            },
        }
    }
}

/// Runs the machine definition from its root entry until an exit entry
/// is reached, as [`machine_run`] gives it: the caller's state record and
/// regions play the host's part, and the returned status distinguishes
/// the deoptimization exit from every other.
pub fn run_machine(b: &Bee, st: &mut VmState, fuel: u64) -> (r: Option<i64>)
    ensures
        match machine_run(*b, old(st)@, fuel as nat) {
            Some((t, status)) => r == Some(status) && final(st)@ == t,
            None => r is None,
        },
{
    if b.root.0 >= b.entries.len() {
        return None;
    }
    if !do_actions(st, &b.entries[b.root.0].marshal.prologue) {
        return None;
    }
    let mut id: EntryId = b.root;
    let mut left: u64 = fuel;
    loop
        invariant
            machine_run(*b, old(st)@, fuel as nat) == entries_run(
                b.entries@,
                st@,
                id,
                left as nat,
            ),
        decreases left,
    {
        if id.0 >= b.entries.len() {
            return None;
        }
        let e = &b.entries[id.0];
        match &e.body {
            None => {
                if !do_actions(st, &e.marshal.epilogue) {
                    return None;
                }
                return Some(e.exit_value);
            },
            Some(body) => {
                if left == 0 {
                    return None;
                }
                match exec_ebb(st, body) {
                    Some(next) => {
                        id = next;
                        left = left - 1;
                    },
                    None => {
                        return None;
                    },
                }
            },
        }
    }
}

} // verus!
