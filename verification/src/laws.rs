//! The machine definition's laws: what the dispatch loop and the handler
//! blocks guarantee, stated over the action semantics and proved from the
//! contracts of the builders in [`machine`].
//!
//! [`machine`]: crate::machine

use vstd::prelude::*;

use crate::code::{Action, AliasClass, BinaryOp, Ebb, Reg, Variable, Width};
use crate::builder::{pop_actions, push_actions};
use crate::enums::{decode, spec_insn_code, spec_op_code, Dispatch};
use crate::machine::{binary_post, binary_pre, pushi_post};
use crate::machine::{align_fail_post, align_mask, all_ones, body_of, compare_post, data_ok,
    deopt_rewind, dispatch_wf, divmod_post_overflow, divmod_post_zero, dtop, ext_actions,
    ext_block, ext_switch, fetch_actions, handlers_ok, is_deopt_leaf, lemma_run_actions_append,
    lemma_w64_add, min_word, op1_case, op2_case, record_ok, ret_mark_post, ret_mis_post, ret_ok,
    root_switch, udivmod_post_zero, Bee};
use crate::semantics::{binary_sem, lemma_rd_bound, lemma_rd_wr_same, lemma_wr_frame, p8, rd,
    read_reg, run_actions, run_actions_from, run_ebb, run_ending, step_action, w64, wr,
    with_reg, write_reg, MachineState, RegBank};
use crate::EntryId;

verus! {

/// The state after the dispatch loop's fetch of word `w`: the word in the
/// opcode register, the program counter advanced past it, and the
/// first-level class in the test register.
pub open spec fn fetch1_state(s: MachineState, w: u64) -> MachineState {
    MachineState {
        regs: RegBank {
            opcode: w,
            pc: w64(s.regs.pc + 8),
            temp: 8,
            test: w & 7,
            ..s.regs
        },
        ..s
    }
}

/// The state after the extended class's extraction: the word shifted past
/// the class bits and the second-level opcode in the test register.
pub open spec fn fetch2_state(s: MachineState, w: u64) -> MachineState {
    MachineState {
        regs: RegBank {
            opcode: w >> 3,
            pc: w64(s.regs.pc + 8),
            temp: 3,
            test: (w >> 3) & 63,
            ..s.regs
        },
        ..s
    }
}

/// The states the dispatch law speaks from: the program counter addresses
/// a whole instruction word inside the code region.
pub open spec fn fetch_pre(s: MachineState) -> bool {
    s.regs.pc + 8 <= s.mem.len()
}

/// An empty deoptimization-transfer block transfers without changing the
/// state.
proof fn lemma_run_deopt_leaf(s: MachineState, e: Ebb<EntryId>, d: EntryId)
    requires
        is_deopt_leaf(e, d),
    ensures
        run_ebb(s, e) == Some((s, d)),
{
    assert(run_actions(s, e.actions@) == Some(s)) by {
        reveal_with_fuel(run_actions_from, 1);
    }
}

/// The fetch actions compute [`fetch1_state`].
#[verifier::rlimit(100)]
#[verifier::spinoff_prover]
proof fn lemma_fetch(s: MachineState, w: u64)
    requires
        fetch_pre(s),
        rd(s.mem, s.regs.pc as int, 8) == w,
    ensures
        run_actions(s, fetch_actions()) == Some(fetch1_state(s, w)),
{
    let acts = fetch_actions();
    assert(acts =~= seq![
        Action::Constant(Reg::Opcode, 0),
        Action::Binary(crate::code::BinaryOp::Add, Reg::Opcode, Variable::Register(Reg::Pc),
            Variable::Register(Reg::Opcode)),
        Action::Load(Reg::Opcode, Variable::Register(Reg::Opcode), Width::Eight,
            AliasClass::Memory),
        Action::Constant(Reg::Temp, 8),
        Action::Binary(crate::code::BinaryOp::Add, Reg::Pc, Variable::Register(Reg::Pc),
            Variable::Register(Reg::Temp)),
        Action::Constant(Reg::Test, 7),
        Action::Binary(crate::code::BinaryOp::And, Reg::Test, Variable::Register(Reg::Opcode),
            Variable::Register(Reg::Test)),
    ]);
    let pc = s.regs.pc;
    let t1 = with_reg(s, Reg::Opcode, 0);
    let t2 = with_reg(t1, Reg::Opcode, pc);
    let t3 = with_reg(t2, Reg::Opcode, w);
    let t4 = with_reg(t3, Reg::Temp, 8);
    let t5 = with_reg(t4, Reg::Pc, w64(pc + 8));
    let t6 = with_reg(t5, Reg::Test, 7);
    let t7 = with_reg(t6, Reg::Test, w & 7);
    assert(w64(pc + 0) == pc);
    assert(step_action(s, acts[0]) == Some(t1));
    assert(step_action(t1, acts[1]) == Some(t2));
    assert(step_action(t2, acts[2]) == Some(t3)) by {
        lemma_rd_bound(s.mem, pc as int, 8);
        assert(p8(8) == 0x1_0000_0000_0000_0000) by {
            reveal_with_fuel(p8, 9);
        }
    }
    assert(step_action(t3, acts[3]) == Some(t4));
    assert(step_action(t4, acts[4]) == Some(t5));
    assert(step_action(t5, acts[5]) == Some(t6));
    assert(step_action(t6, acts[6]) == Some(t7));
    assert(run_actions(s, acts) == Some(t7)) by {
        reveal_with_fuel(run_actions_from, 9);
    }
    assert(t7 =~= fetch1_state(s, w));
}

/// The extended extraction computes [`fetch2_state`] from
/// [`fetch1_state`].
#[verifier::rlimit(100)]
#[verifier::spinoff_prover]
proof fn lemma_ext_extract(s: MachineState, w: u64)
    ensures
        run_actions(fetch1_state(s, w), ext_actions()) == Some(fetch2_state(s, w)),
{
    let acts = ext_actions();
    let t = fetch1_state(s, w);
    assert(acts =~= seq![
        Action::Constant(Reg::Temp, 3),
        Action::Binary(crate::code::BinaryOp::Lsr, Reg::Opcode, Variable::Register(Reg::Opcode),
            Variable::Register(Reg::Temp)),
        Action::Constant(Reg::Test, 63),
        Action::Binary(crate::code::BinaryOp::And, Reg::Test, Variable::Register(Reg::Opcode),
            Variable::Register(Reg::Test)),
    ]);
    let t1 = with_reg(t, Reg::Temp, 3);
    let t2 = with_reg(t1, Reg::Opcode, w >> 3);
    let t3 = with_reg(t2, Reg::Test, 63);
    let t4 = with_reg(t3, Reg::Test, (w >> 3) & 63);
    assert((3 as u64) & 63 == 3) by (bit_vector);
    assert(step_action(t, acts[0]) == Some(t1));
    assert(step_action(t1, acts[1]) == Some(t2));
    assert(step_action(t2, acts[2]) == Some(t3));
    assert(step_action(t3, acts[3]) == Some(t4));
    assert(run_actions(t, acts) == Some(t4)) by {
        reveal_with_fuel(run_actions_from, 6);
    }
    assert(t4 =~= fetch2_state(s, w));
}

/// Dispatch reaches exactly one handler. For every instruction word `w`,
/// running the dispatch root fetches the word and then transfers to
/// exactly one place, determined by `w` alone: the first-level handler of
/// the word's class; or, for the extended class, the second-level handler
/// of the word's opcode; or, for the unassigned class, the unpopulated
/// trap class and the out-of-range second-level discriminant, the
/// deoptimization handler. No word selects zero handlers and none selects
/// more than one.
#[verifier::rlimit(100)]
pub proof fn lemma_dispatch_exactly_one(b: Bee, s: MachineState, w: u64)
    requires
        dispatch_wf(b),
        fetch_pre(s),
        rd(s.mem, s.regs.pc as int, 8) == w,
    ensures
        ({
            let c = w & 7;
            let i = (w >> 3) & 63;
            &&& c < 5 ==> run_ebb(s, body_of(b, 0)) == run_ebb(
                fetch1_state(s, w),
                op1_case(b, c as int),
            )
            &&& (c == 5 || c == 6) ==> run_ebb(s, body_of(b, 0)) == Some(
                (fetch1_state(s, w), EntryId(2)),
            )
            &&& c == 7 && i < 63 ==> run_ebb(s, body_of(b, 0)) == run_ebb(
                fetch2_state(s, w),
                op2_case(b, i as int),
            )
            &&& c == 7 && i == 63 ==> run_ebb(s, body_of(b, 0)) == Some(
                (fetch2_state(s, w), EntryId(2)),
            )
        }),
{
    let c = w & 7;
    let i = (w >> 3) & 63;
    assert(w & 7 <= 7) by (bit_vector);
    assert((w >> 3) & 63 <= 63) by (bit_vector);
    lemma_fetch(s, w);
    let t = fetch1_state(s, w);
    let sw = root_switch(b);
    assert(run_ebb(s, body_of(b, 0)) == run_ending(t, body_of(b, 0).ending));
    if c < 7 {
        assert(run_ending(t, body_of(b, 0).ending) == run_ebb(t, op1_case(b, c as int)));
        if c == 5 || c == 6 {
            lemma_run_deopt_leaf(t, op1_case(b, c as int), EntryId(2));
        }
    } else {
        assert(run_ending(t, body_of(b, 0).ending) == run_ebb(t, ext_block(b)));
        lemma_ext_extract(s, w);
        let u = fetch2_state(s, w);
        assert(run_ebb(t, ext_block(b)) == run_ending(u, ext_block(b).ending));
        if i < 63 {
            assert(run_ending(u, ext_block(b).ending) == run_ebb(u, op2_case(b, i as int)));
        } else {
            assert(run_ending(u, ext_block(b).ending) == run_ebb(u, *ext_switch(b).default_));
            lemma_run_deopt_leaf(u, *ext_switch(b).default_, EntryId(2));
        }
    }
}

/// The decoding of an instruction word names exactly the slot the
/// dispatch tree reaches: a compact instruction's class slot, an
/// implemented extended instruction's opcode slot, or — for the
/// unassigned class, the trap class's unpopulated slot and every
/// reserved or unimplemented opcode — the deoptimization handler. With
/// [`lemma_dispatch_exactly_one`], every instruction word reaches the one
/// handler its decoding names.
pub proof fn lemma_decode_names_the_slot(w: u64)
    ensures
        ({
            let c = w & 7;
            let i = (w >> 3) & 63;
            match decode(w) {
                Dispatch::Compact(op) => c == spec_op_code(op) && c <= 5,
                Dispatch::Extended(insn) => c == 7 && i == spec_insn_code(insn)
                    && spec_insn_code(insn) <= 0x22,
                Dispatch::Deopt => c == 6 || (c == 7 && i >= 0x23),
            }
        }),
{
    assert(w & 7 <= 7) by (bit_vector);
    assert((w >> 3) & 63 <= 63) by (bit_vector);
}

/// A push immediately followed by a pop hands the pushed word back
/// unchanged, for the full word range, and restores the stack pointer and
/// all surrounding memory exactly; only the eight bytes of the slot below
/// the restored pointer now hold the pushed word's bytes.
#[verifier::rlimit(100)]
#[verifier::spinoff_prover]
pub proof fn lemma_push_pop_roundtrip(s: MachineState, src: Reg, dest: Reg, sp: Reg)
    requires
        sp != Reg::Temp,
        src != Reg::Temp,
        dest != Reg::Temp,
        src != sp,
        dest != sp,
        8 <= read_reg(s.regs, sp),
        read_reg(s.regs, sp) <= s.mem.len(),
    ensures
        ({
            let x = read_reg(s.regs, src);
            let a = read_reg(s.regs, sp) - 8;
            let t = MachineState {
                regs: RegBank { temp: 8, ..write_reg(s.regs, dest, x) },
                mem: wr(s.mem, a, x as int, 8),
                ..s
            };
            &&& run_actions(
                s,
                push_actions(Variable::Register(src), sp, AliasClass::Memory) + pop_actions(
                    dest,
                    sp,
                    AliasClass::Memory,
                ),
            ) == Some(t)
            &&& read_reg(t.regs, dest) == x
            &&& read_reg(t.regs, sp) == read_reg(s.regs, sp)
            &&& t.mem.len() == s.mem.len()
            &&& rd(t.mem, a, 8) == x
            &&& forall|j: int| 0 <= j < s.mem.len() && !(a <= j < a + 8) ==> t.mem[j] == s.mem[j]
        }),
{
    let x = read_reg(s.regs, src);
    let spv = read_reg(s.regs, sp);
    let a = spv - 8;
    let pa = push_actions(Variable::Register(src), sp, AliasClass::Memory);
    let qa = pop_actions(dest, sp, AliasClass::Memory);
    assert(pa =~= seq![
        Action::Constant(Reg::Temp, 8),
        Action::Binary(crate::code::BinaryOp::Sub, sp, Variable::Register(sp),
            Variable::Register(Reg::Temp)),
        Action::Constant(Reg::Temp, 0),
        Action::Binary(crate::code::BinaryOp::Add, Reg::Temp, Variable::Register(sp),
            Variable::Register(Reg::Temp)),
        Action::Store(Reg::Temp, Variable::Register(src), Variable::Register(Reg::Temp),
            Width::Eight, AliasClass::Memory),
    ]);
    assert(qa =~= seq![
        Action::Constant(dest, 0),
        Action::Binary(crate::code::BinaryOp::Add, dest, Variable::Register(sp),
            Variable::Register(dest)),
        Action::Load(dest, Variable::Register(dest), Width::Eight, AliasClass::Memory),
        Action::Constant(Reg::Temp, 8),
        Action::Binary(crate::code::BinaryOp::Add, sp, Variable::Register(sp),
            Variable::Register(Reg::Temp)),
    ]);
    lemma_run_actions_append(s, pa, qa);
    assert(w64(spv - 8) == a);
    let m2 = wr(s.mem, a, x as int, 8);
    lemma_wr_frame(s.mem, a, x as int, 8);
    lemma_rd_wr_same(s.mem, a, x as int, 8);
    assert(p8(8) == 0x1_0000_0000_0000_0000) by {
        reveal_with_fuel(p8, 9);
    }
    assert(rd(m2, a, 8) == x);
    let u1 = with_reg(s, Reg::Temp, 8);
    let u2 = with_reg(u1, sp, a as u64);
    let u3 = with_reg(u2, Reg::Temp, 0);
    let u4 = with_reg(u3, Reg::Temp, a as u64);
    let u5 = with_reg(MachineState { mem: m2, ..u4 }, Reg::Temp, a as u64);
    assert(w64(a + 0) == a);
    assert(step_action(s, pa[0]) == Some(u1));
    assert(step_action(u1, pa[1]) == Some(u2));
    assert(step_action(u2, pa[2]) == Some(u3));
    assert(step_action(u3, pa[3]) == Some(u4));
    assert(step_action(u4, pa[4]) == Some(u5));
    assert(run_actions(s, pa) == Some(u5)) by {
        reveal_with_fuel(run_actions_from, 7);
    }
    let v1 = with_reg(u5, dest, 0);
    let v2 = with_reg(v1, dest, a as u64);
    let v3 = with_reg(v2, dest, x);
    let v4 = with_reg(v3, Reg::Temp, 8);
    let v5 = with_reg(v4, sp, spv as u64);
    assert(step_action(u5, qa[0]) == Some(v1));
    assert(step_action(v1, qa[1]) == Some(v2));
    assert(step_action(v2, qa[2]) == Some(v3));
    assert(step_action(v3, qa[3]) == Some(v4));
    assert(step_action(v4, qa[4]) == Some(v5)) by {
        assert(w64(a + 8) == spv);
    }
    assert(run_actions(u5, qa) == Some(v5)) by {
        reveal_with_fuel(run_actions_from, 7);
    }
    let t = MachineState {
        regs: RegBank { temp: 8, ..write_reg(s.regs, dest, x) },
        mem: m2,
        ..s
    };
    assert(v5 =~= t);
}

/// Dividing by zero, signed or unsigned, traps nothing and yields
/// quotient = numerator, remainder = 0 (remainder on top), for every
/// numerator.
pub proof fn lemma_divmod_by_zero(b: Bee, s: MachineState)
    requires
        handlers_ok(b),
        data_ok(s),
        1 <= s.regs.dp < s.dstack.len(),
        s.dstack[s.regs.dp as int] == 0,
    ensures
        run_ebb(s, op2_case(b, 0x1b)) == Some((divmod_post_zero(s), EntryId(0))),
        run_ebb(s, op2_case(b, 0x1c)) == Some((udivmod_post_zero(s), EntryId(0))),
        divmod_post_zero(s).dstack[s.regs.dp - 1] == s.dstack[s.regs.dp - 1],
        divmod_post_zero(s).dstack[s.regs.dp as int] == 0,
        udivmod_post_zero(s).dstack[s.regs.dp - 1] == s.dstack[s.regs.dp - 1],
        udivmod_post_zero(s).dstack[s.regs.dp as int] == 0,
        divmod_post_zero(s).regs.pc == s.regs.pc,
        udivmod_post_zero(s).regs.pc == s.regs.pc,
{
}

/// Dividing the minimum signed word by -1 yields quotient = 0,
/// remainder = the numerator, instead of an overflowing division.
pub proof fn lemma_divmod_overflow(b: Bee, s: MachineState)
    requires
        handlers_ok(b),
        data_ok(s),
        1 <= s.regs.dp < s.dstack.len(),
        s.dstack[s.regs.dp - 1] == min_word(),
        s.dstack[s.regs.dp as int] == all_ones(),
    ensures
        run_ebb(s, op2_case(b, 0x1b)) == Some((divmod_post_overflow(s), EntryId(0))),
        divmod_post_overflow(s).dstack[s.regs.dp - 1] == 0,
        divmod_post_overflow(s).dstack[s.regs.dp as int] == min_word(),
{
}

/// Comparing two equal words for equality leaves all bits set; comparing
/// two unequal words leaves all bits clear.
pub proof fn lemma_eq_all_bits(b: Bee, s: MachineState)
    requires
        handlers_ok(b),
        data_ok(s),
        1 <= s.regs.dp < s.dstack.len(),
    ensures
        run_ebb(s, op2_case(b, 0x1d)) == Some((compare_post(s, crate::code::BinaryOp::Eq),
            EntryId(0))),
        s.dstack[s.regs.dp - 1] == s.dstack[s.regs.dp as int] ==> compare_post(
            s,
            crate::code::BinaryOp::Eq,
        ).dstack[s.regs.dp - 1] == all_ones(),
        s.dstack[s.regs.dp - 1] != s.dstack[s.regs.dp as int] ==> compare_post(
            s,
            crate::code::BinaryOp::Eq,
        ).dstack[s.regs.dp - 1] == 0,
{
    let n1 = s.dstack[s.regs.dp as int];
    let n2 = s.dstack[s.regs.dp - 1];
    if n1 == n2 {
        assert(w64(0 - 1) == all_ones());
    } else {
        assert(w64(0 - 0) == 0);
    }
}

/// A misaligned memory access deoptimizes with every popped operand
/// restored — the data stack, return stack and memory are exactly as
/// before — and, after the deoptimization body runs, the program counter
/// is back at the faulting instruction.
pub proof fn lemma_misaligned_access_deopt(b: Bee, s: MachineState, slot: int)
    requires
        dispatch_wf(b),
        handlers_ok(b),
        data_ok(s),
        s.regs.dp < s.dstack.len(),
        slot == 0x10 || slot == 0x11 || slot == 0x12 || slot == 0x13 || slot == 0x14 || slot
            == 0x15 || slot == 0x16 || slot == 0x17,
        ({
            let width = if slot == 0x10 || slot == 0x11 {
                Width::Eight
            } else if slot == 0x12 || slot == 0x13 {
                Width::One
            } else if slot == 0x14 || slot == 0x15 {
                Width::Two
            } else {
                Width::Four
            };
            dtop(s) & align_mask(width) != 0
        }),
    ensures
        ({
            let width = if slot == 0x10 || slot == 0x11 {
                Width::Eight
            } else if slot == 0x12 || slot == 0x13 {
                Width::One
            } else if slot == 0x14 || slot == 0x15 {
                Width::Two
            } else {
                Width::Four
            };
            let t = align_fail_post(s, align_mask(width));
            &&& run_ebb(s, op2_case(b, slot)) == Some((t, EntryId(2)))
            &&& t.dstack == s.dstack
            &&& t.rstack == s.rstack
            &&& t.mem == s.mem
            &&& t.regs.dp == s.regs.dp
            &&& t.regs.sp == s.regs.sp
            &&& run_ebb(t, body_of(b, 2)) == Some((deopt_rewind(t), EntryId(1)))
            &&& deopt_rewind(t).regs.pc == w64(s.regs.pc - 8)
        }),
{
}

/// A return with the return-stack pointer at or below the watermark
/// deoptimizes without popping, for every pointer value: the watermark
/// is tested before the pop, on the undecremented pointer, so the
/// return stack, its pointer and the data stack are exactly as before.
pub proof fn lemma_ret_watermark_deopt(b: Bee, s: MachineState)
    requires
        handlers_ok(b),
        record_ok(s),
        s.regs.sp <= s.record.handler_sp,
    ensures
        run_ebb(s, op2_case(b, 0x0f)) == Some((ret_mark_post(s), EntryId(2))),
        ret_mark_post(s).rstack == s.rstack,
        ret_mark_post(s).regs.sp == s.regs.sp,
        ret_mark_post(s).regs.pc == s.regs.pc,
        ret_mark_post(s).dstack == s.dstack,
        ret_mark_post(s).regs.dp == s.regs.dp,
{
}

/// A computed jump, call or return to a target that is not 8-byte
/// aligned always deoptimizes, restores the popped operand, and never
/// mutates the return stack.
pub proof fn lemma_misaligned_target_deopt(b: Bee, s: MachineState)
    requires
        dispatch_wf(b),
        handlers_ok(b),
    ensures
        data_ok(s) && s.regs.dp < s.dstack.len() && dtop(s) & 7 != 0 ==> run_ebb(
            s,
            op2_case(b, 0x0c),
        ) == Some((align_fail_post(s, 7), EntryId(2))) && run_ebb(s, op2_case(b, 0x0e)) == Some(
            (align_fail_post(s, 7), EntryId(2)),
        ) && align_fail_post(s, 7).rstack == s.rstack && align_fail_post(s, 7).dstack == s.dstack
            && align_fail_post(s, 7).regs.dp == s.regs.dp && align_fail_post(s, 7).regs.sp
            == s.regs.sp,
        record_ok(s) && ret_ok(s) && s.record.handler_sp < s.regs.sp && s.regs.sp
            < s.rstack.len() && s.rstack[s.regs.sp as int] & 7 != 0 ==> run_ebb(
            s,
            op2_case(b, 0x0f),
        ) == Some((ret_mis_post(s), EntryId(2))) && ret_mis_post(s).rstack == s.rstack
            && ret_mis_post(s).regs.sp == s.regs.sp,
{
}


/// One dispatch step of a push-immediate word: the fetch selects the
/// compact push handler, which pushes the word's immediate and returns
/// to the dispatch loop.
pub proof fn lemma_pushi_step(b: Bee, s: MachineState, w: u64)
    requires
        dispatch_wf(b),
        handlers_ok(b),
        data_ok(s),
        s.regs.pc + 8 <= s.mem.len(),
        s.regs.pc + 8 < 0x1_0000_0000_0000_0000,
        rd(s.mem, s.regs.pc as int, 8) == w,
        w & 7 == 1,
        s.regs.dp + 1 < s.dstack.len(),
    ensures
        run_ebb(s, body_of(b, 0)) == Some((pushi_post(fetch1_state(s, w)), EntryId(0))),
        ({
            let t = pushi_post(fetch1_state(s, w));
            &&& t.regs.pc == s.regs.pc + 8
            &&& t.regs.dp == s.regs.dp + 1
            &&& t.dstack == s.dstack.update(s.regs.dp + 1, crate::machine::imm_of(w))
            &&& t.rstack == s.rstack
            &&& t.mem == s.mem
            &&& data_ok(t)
        }),
{
    lemma_dispatch_exactly_one(b, s, w);
    let f1 = fetch1_state(s, w);
    assert(data_ok(f1));
    assert(w64(f1.regs.dp + 1) == s.regs.dp + 1);
    assert(run_ebb(f1, op1_case(b, 1)) == Some((pushi_post(f1), EntryId(0))));
    assert(w64(s.regs.pc + 8) == s.regs.pc + 8);
}

/// End to end: the program `PushI 5, PushI 3, Add` — the words 0x29,
/// 0x19, 0xcf — runs through three dispatch rounds and leaves the data
/// stack one deeper with 8 on top, the return stack untouched and the
/// program counter past the three words.
#[verifier::rlimit(100)]
#[verifier::spinoff_prover]
pub proof fn lemma_add_program(b: Bee, s: MachineState)
    requires
        dispatch_wf(b),
        handlers_ok(b),
        data_ok(s),
        s.regs.pc + 24 <= s.mem.len(),
        s.regs.pc + 24 < 0x1_0000_0000_0000_0000,
        rd(s.mem, s.regs.pc as int, 8) == 0x29,
        rd(s.mem, s.regs.pc + 8, 8) == 0x19,
        rd(s.mem, s.regs.pc + 16, 8) == 0xcf,
        s.regs.dp + 2 < s.dstack.len(),
    ensures
        ({
            let t1 = pushi_post(fetch1_state(s, 0x29));
            let t2 = pushi_post(fetch1_state(t1, 0x19));
            let t3 = binary_post(fetch2_state(t2, 0xcf), BinaryOp::Add);
            &&& run_ebb(s, body_of(b, 0)) == Some((t1, EntryId(0)))
            &&& run_ebb(t1, body_of(b, 0)) == Some((t2, EntryId(0)))
            &&& run_ebb(t2, body_of(b, 0)) == Some((t3, EntryId(0)))
            &&& t3.regs.dp == s.regs.dp + 1
            &&& t3.dstack[s.regs.dp + 1] == 8
            &&& t3.rstack == s.rstack
            &&& t3.mem == s.mem
            &&& t3.regs.pc == s.regs.pc + 24
        }),
{
    assert(0x29u64 & 7 == 1 && 0x19u64 & 7 == 1 && 0xcfu64 & 7 == 7 && (0xcfu64 >> 3) & 63
        == 0x19 && ((0x29u64 as i64) >> (3 as u64)) as u64 == 5 && ((0x19u64 as i64) >> (
    3 as u64)) as u64 == 3) by (bit_vector);
    lemma_pushi_step(b, s, 0x29);
    let t1 = pushi_post(fetch1_state(s, 0x29));
    lemma_pushi_step(b, t1, 0x19);
    let t2 = pushi_post(fetch1_state(t1, 0x19));
    lemma_dispatch_exactly_one(b, t2, 0xcf);
    let f3 = fetch2_state(t2, 0xcf);
    assert(binary_pre(f3, BinaryOp::Add)) by {
        assert(f3.dstack[f3.regs.dp as int] == 3);
        assert(f3.dstack[f3.regs.dp - 1] == 5);
    }
    let t3 = binary_post(f3, BinaryOp::Add);
    assert(run_ebb(f3, op2_case(b, 0x19)) == Some((t3, EntryId(0))));
    assert(t3.dstack[s.regs.dp + 1] == 8) by {
        assert(binary_sem(BinaryOp::Add, 5, 3) == Some(w64(8int)));
        assert(w64(8int) == 8);
    }
    assert(w64(t2.regs.pc + 8) == s.regs.pc + 24);
}

/// End to end: the program `PushI 7, PushI 0, DivMod` — the words 0x39,
/// 0x01, 0xdf — runs with divisor zero and no trap: the stack ends two
/// deeper with quotient 7 below remainder 0 on top, and control returns
/// to the dispatch loop.
#[verifier::rlimit(100)]
#[verifier::spinoff_prover]
pub proof fn lemma_divmod_zero_program(b: Bee, s: MachineState)
    requires
        dispatch_wf(b),
        handlers_ok(b),
        data_ok(s),
        s.regs.pc + 24 <= s.mem.len(),
        s.regs.pc + 24 < 0x1_0000_0000_0000_0000,
        rd(s.mem, s.regs.pc as int, 8) == 0x39,
        rd(s.mem, s.regs.pc + 8, 8) == 0x01,
        rd(s.mem, s.regs.pc + 16, 8) == 0xdf,
        s.regs.dp + 2 < s.dstack.len(),
    ensures
        ({
            let t1 = pushi_post(fetch1_state(s, 0x39));
            let t2 = pushi_post(fetch1_state(t1, 0x01));
            let t3 = divmod_post_zero(fetch2_state(t2, 0xdf));
            &&& run_ebb(s, body_of(b, 0)) == Some((t1, EntryId(0)))
            &&& run_ebb(t1, body_of(b, 0)) == Some((t2, EntryId(0)))
            &&& run_ebb(t2, body_of(b, 0)) == Some((t3, EntryId(0)))
            &&& t3.regs.dp == s.regs.dp + 2
            &&& t3.dstack[s.regs.dp + 1] == 7
            &&& t3.dstack[s.regs.dp + 2] == 0
            &&& t3.rstack == s.rstack
            &&& t3.regs.pc == s.regs.pc + 24
        }),
{
    assert(0x39u64 & 7 == 1 && 0x01u64 & 7 == 1 && 0xdfu64 & 7 == 7 && (0xdfu64 >> 3) & 63
        == 0x1b && ((0x39u64 as i64) >> (3 as u64)) as u64 == 7 && ((0x01u64 as i64) >> (
    3 as u64)) as u64 == 0) by (bit_vector);
    lemma_pushi_step(b, s, 0x39);
    let t1 = pushi_post(fetch1_state(s, 0x39));
    lemma_pushi_step(b, t1, 0x01);
    let t2 = pushi_post(fetch1_state(t1, 0x01));
    lemma_dispatch_exactly_one(b, t2, 0xdf);
    let f3 = fetch2_state(t2, 0xdf);
    assert(data_ok(f3) && 1 <= f3.regs.dp < f3.dstack.len() && f3.dstack[f3.regs.dp as int]
        == 0);
    let t3 = divmod_post_zero(f3);
    assert(run_ebb(f3, op2_case(b, 0x1b)) == Some((t3, EntryId(0))));
    assert(f3.dstack[f3.regs.dp - 1] == 7);
    assert(w64(t2.regs.pc + 8) == s.regs.pc + 24);
}

} // verus!
