//! End-to-end runs of the machine definition through the reference
//! interpreter, plus unit checks of the opcode tables, the builder and the
//! state-record layout.

use mijit_bee::code::{AliasClass, Ebb, Reg, Variable, Width};
use mijit_bee::builder::Builder;
use mijit_bee::enums::{Insn, Op};
use mijit_bee::interp::{do_actions, exec_ebb, run_machine, VmState};
use mijit_bee::machine::Bee;
use mijit_bee::registers::{offsets, Registers};
use mijit_bee::semantics::RegBank;
use mijit_bee::EntryId;

const DBASE: u64 = 0x2000;
const RBASE: u64 = 0x3000;
const G0: u64 = 0x100;

fn zero_regs() -> RegBank {
    RegBank {
        temp: 0,
        r1: 0,
        r2: 0,
        pc: 0,
        s0: 0,
        sp: 0,
        ssize: 0,
        d0: 0,
        dp: 0,
        dsize: 0,
        opcode: 0,
        test: 0,
    }
}

/// A fresh state: the program's words laid out from address 0, `dstack`
/// elements already on the data stack, `rstack` elements on the return
/// stack, and the record in the host's "next free slot" convention.
fn mk_state(program: &[u64], dstack: &[u64], rstack: &[u64], handler_sp: u64) -> VmState {
    let mut mem: Vec<u8> = Vec::new();
    for w in program {
        for k in 0..8 {
            mem.push(((w >> (8 * k)) & 0xff) as u8);
        }
    }
    mem.resize(128, 0);
    let mut d: Vec<u64> = dstack.to_vec();
    d.resize(16, 0);
    let mut r: Vec<u64> = rstack.to_vec();
    r.resize(16, 0);
    VmState {
        regs: zero_regs(),
        g0: G0,
        record: Registers {
            pc: 0,
            s0: RBASE,
            ssize: 16,
            sp: rstack.len() as u64,
            d0: DBASE,
            dsize: 16,
            dp: dstack.len() as u64,
            handler_sp,
        },
        dbase: DBASE,
        dstack: d,
        rbase: RBASE,
        rstack: r,
        mem,
    }
}

fn ext(i: u64) -> u64 {
    (i << 3) | 7
}

fn push_i(x: i64) -> u64 {
    ((x as u64) << 3) | 1
}

const TRAP: u64 = 5;

#[test]
fn add_program_leaves_eight() {
    let bee = Bee::new();
    let mut st = mk_state(&[push_i(5), push_i(3), ext(0x19), TRAP], &[], &[], 0);
    let r = run_machine(&bee, &mut st, 100);
    assert_eq!(r, Some(0));
    assert_eq!(st.record.dp, 1);
    assert_eq!(st.dstack[0], 8);
    // The trap word is at byte 24 and the rewound program counter names it.
    assert_eq!(st.record.pc, 24);
}

#[test]
fn divmod_by_zero_is_no_trap() {
    let bee = Bee::new();
    let mut st = mk_state(&[push_i(7), push_i(0), ext(0x1b), TRAP], &[], &[], 0);
    let r = run_machine(&bee, &mut st, 100);
    assert_eq!(r, Some(0));
    assert_eq!(st.record.dp, 2);
    assert_eq!(st.dstack[0], 7); // quotient = numerator
    assert_eq!(st.dstack[1], 0); // remainder = 0, on top
}

#[test]
fn udivmod_by_zero_is_no_trap() {
    let bee = Bee::new();
    let mut st = mk_state(&[push_i(9), push_i(0), ext(0x1c), TRAP], &[], &[], 0);
    let r = run_machine(&bee, &mut st, 100);
    assert_eq!(r, Some(0));
    assert_eq!(st.record.dp, 2);
    assert_eq!(st.dstack[0], 9);
    assert_eq!(st.dstack[1], 0);
}

#[test]
fn divmod_ordinary_quotient_and_remainder() {
    let bee = Bee::new();
    let mut st = mk_state(&[push_i(7), push_i(2), ext(0x1b), TRAP], &[], &[], 0);
    let r = run_machine(&bee, &mut st, 100);
    assert_eq!(r, Some(0));
    assert_eq!(st.dstack[0], 3);
    assert_eq!(st.dstack[1], 1);
}

#[test]
fn divmod_negative_truncates_toward_zero() {
    let bee = Bee::new();
    let mut st = mk_state(&[push_i(-7), push_i(2), ext(0x1b), TRAP], &[], &[], 0);
    let r = run_machine(&bee, &mut st, 100);
    assert_eq!(r, Some(0));
    assert_eq!(st.dstack[0], (-3i64) as u64);
    assert_eq!(st.dstack[1], (-1i64) as u64);
}

#[test]
fn divmod_min_by_minus_one_defined() {
    let bee = Bee::new();
    let min = i64::MIN as u64;
    let minus_one = (-1i64) as u64;
    let mut st = mk_state(&[ext(0x1b), TRAP], &[min, minus_one], &[], 0);
    let r = run_machine(&bee, &mut st, 100);
    assert_eq!(r, Some(0));
    assert_eq!(st.record.dp, 2);
    assert_eq!(st.dstack[0], 0); // quotient = 0
    assert_eq!(st.dstack[1], min); // remainder = numerator, on top
}

#[test]
fn eq_equal_leaves_all_bits_set() {
    let bee = Bee::new();
    let mut st = mk_state(&[ext(0x1d), TRAP], &[42, 42], &[], 0);
    let r = run_machine(&bee, &mut st, 100);
    assert_eq!(r, Some(0));
    assert_eq!(st.record.dp, 1);
    assert_eq!(st.dstack[0], u64::MAX);
}

#[test]
fn eq_unequal_leaves_all_bits_clear() {
    let bee = Bee::new();
    let mut st = mk_state(&[ext(0x1d), TRAP], &[42, 43], &[], 0);
    let r = run_machine(&bee, &mut st, 100);
    assert_eq!(r, Some(0));
    assert_eq!(st.dstack[0], 0);
}

#[test]
fn misaligned_load_deoptimizes_and_restores() {
    let bee = Bee::new();
    // Address 3 is not 8-byte aligned.
    let mut st = mk_state(&[ext(0x10), TRAP], &[3], &[], 0);
    let r = run_machine(&bee, &mut st, 100);
    assert_eq!(r, Some(0));
    // The popped address is back on the stack and the program counter is
    // back at the faulting instruction.
    assert_eq!(st.record.dp, 1);
    assert_eq!(st.dstack[0], 3);
    assert_eq!(st.record.pc, 0);
}

#[test]
fn misaligned_store_keeps_value_and_memory() {
    let bee = Bee::new();
    // A two-byte store at an odd address: the value stays unpopped and no
    // byte of memory changes.
    let mut st = mk_state(&[ext(0x15), TRAP], &[99, 3], &[], 0);
    let before = st.mem.clone();
    let r = run_machine(&bee, &mut st, 100);
    assert_eq!(r, Some(0));
    assert_eq!(st.record.dp, 2);
    assert_eq!(st.dstack[0], 99);
    assert_eq!(st.dstack[1], 3);
    assert_eq!(st.record.pc, 0);
    assert_eq!(st.mem, before);
}

#[test]
fn aligned_store_and_load_round_trip() {
    let bee = Bee::new();
    // Store 0xabcd at byte 64 (past the program), then load it back.
    let mut st = mk_state(&[push_i(0xabcd), push_i(64), ext(0x11), push_i(64), ext(0x10),
        TRAP], &[], &[], 0);
    let r = run_machine(&bee, &mut st, 100);
    assert_eq!(r, Some(0));
    assert_eq!(st.record.dp, 1);
    assert_eq!(st.dstack[0], 0xabcd);
    assert_eq!(st.mem[64], 0xcd);
    assert_eq!(st.mem[65], 0xab);
    assert_eq!(st.mem[66], 0);
}

#[test]
fn jump_misaligned_deoptimizes_without_stack_change() {
    let bee = Bee::new();
    let mut st = mk_state(&[ext(0x0c), TRAP], &[12], &[7, 7], 0);
    let r = run_machine(&bee, &mut st, 100);
    assert_eq!(r, Some(0));
    assert_eq!(st.record.dp, 1);
    assert_eq!(st.dstack[0], 12);
    assert_eq!(st.record.sp, 2);
    assert_eq!(st.rstack[0], 7);
    assert_eq!(st.rstack[1], 7);
    assert_eq!(st.record.pc, 0);
}

#[test]
fn jump_aligned_redirects() {
    let bee = Bee::new();
    // Word 0 jumps to byte 16, where a trap sits.
    let mut st = mk_state(&[ext(0x0c), TRAP, TRAP], &[16], &[], 0);
    let r = run_machine(&bee, &mut st, 100);
    assert_eq!(r, Some(0));
    assert_eq!(st.record.pc, 16);
    assert_eq!(st.record.dp, 0);
}

#[test]
fn call_pushes_return_address() {
    let bee = Bee::new();
    let mut st = mk_state(&[ext(0x0e), TRAP, TRAP], &[16], &[], 0);
    let r = run_machine(&bee, &mut st, 100);
    assert_eq!(r, Some(0));
    assert_eq!(st.record.pc, 16);
    assert_eq!(st.record.sp, 1);
    // The return address is the word after the call.
    assert_eq!(st.rstack[0], 8);
}

#[test]
fn ret_at_watermark_deoptimizes_without_popping() {
    let bee = Bee::new();
    // Return stack holds three aligned addresses; the watermark says the
    // pointer may not recede below 3.
    let mut st = mk_state(&[ext(0x0f), TRAP], &[], &[8, 16, 24], 3);
    let r = run_machine(&bee, &mut st, 100);
    assert_eq!(r, Some(0));
    assert_eq!(st.record.sp, 3);
    assert_eq!(st.rstack[2], 24);
    assert_eq!(st.record.pc, 0);
}

#[test]
fn ret_above_watermark_returns() {
    let bee = Bee::new();
    let mut st = mk_state(&[ext(0x0f), TRAP, TRAP, TRAP], &[], &[8, 16, 24], 1);
    let r = run_machine(&bee, &mut st, 100);
    assert_eq!(r, Some(0));
    assert_eq!(st.record.sp, 2);
    assert_eq!(st.record.pc, 24);
}

#[test]
fn ret_misaligned_deoptimizes_without_popping() {
    let bee = Bee::new();
    let mut st = mk_state(&[ext(0x0f), TRAP], &[], &[8, 16, 25], 0);
    let r = run_machine(&bee, &mut st, 100);
    assert_eq!(r, Some(0));
    assert_eq!(st.record.sp, 3);
    assert_eq!(st.rstack[2], 25);
    assert_eq!(st.record.pc, 0);
}

#[test]
fn unknown_opcode_deoptimizes() {
    let bee = Bee::new();
    // Second-level opcode 0x3e is reserved.
    let mut st = mk_state(&[ext(0x3e)], &[], &[], 0);
    let r = run_machine(&bee, &mut st, 100);
    assert_eq!(r, Some(0));
    assert_eq!(st.record.pc, 0);
}

#[test]
fn trap_always_deoptimizes() {
    let bee = Bee::new();
    let mut st = mk_state(&[TRAP], &[5], &[], 0);
    let r = run_machine(&bee, &mut st, 100);
    assert_eq!(r, Some(0));
    assert_eq!(st.record.pc, 0);
    assert_eq!(st.record.dp, 1);
    assert_eq!(st.dstack[0], 5);
}

#[test]
fn jumpz_taken_only_on_zero() {
    let bee = Bee::new();
    // Condition 0: jump to 24 (a trap).
    let mut st = mk_state(&[ext(0x0d), TRAP, TRAP, TRAP], &[0, 24], &[], 0);
    let r = run_machine(&bee, &mut st, 100);
    assert_eq!(r, Some(0));
    assert_eq!(st.record.pc, 24);
    assert_eq!(st.record.dp, 0);
    // Condition non-zero: fall through to the next word.
    let mut st2 = mk_state(&[ext(0x0d), TRAP, TRAP, TRAP], &[1, 24], &[], 0);
    let r2 = run_machine(&bee, &mut st2, 100);
    assert_eq!(r2, Some(0));
    assert_eq!(st2.record.pc, 8);
    assert_eq!(st2.record.dp, 0);
}

#[test]
fn compact_jumpi_is_relative() {
    let bee = Bee::new();
    // JumpI with offset field 16: the word is (16 | 3); target is
    // pc_after - 8 + 16 = 16, a trap.
    let mut st = mk_state(&[16 | 3, TRAP, TRAP], &[], &[], 0);
    let r = run_machine(&bee, &mut st, 100);
    assert_eq!(r, Some(0));
    assert_eq!(st.record.pc, 16);
}

#[test]
fn builder_guard_diverts_on_mismatch() {
    // A block that guards on Test == 0 and falls through to entry 0, with
    // entry 1 as the alternate.
    let mut b: Builder<EntryId> = Builder::new();
    b.const_(Reg::R1, 11);
    let alt: Builder<EntryId> = Builder::new();
    b.guard(Variable::Register(Reg::Test), false, alt.jump(EntryId(1)));
    b.const_(Reg::R1, 22);
    let e: Ebb<EntryId> = b.jump(EntryId(0));
    let bee = Bee::new();
    let mut st = mk_state(&[TRAP], &[], &[], 0);
    st.regs.test = 0;
    let r = exec_ebb(&mut st, &e);
    assert_eq!(r, Some(EntryId(0)));
    assert_eq!(st.regs.r1, 22);
    let mut st2 = mk_state(&[TRAP], &[], &[], 0);
    st2.regs.test = 9;
    let r2 = exec_ebb(&mut st2, &e);
    assert_eq!(r2, Some(EntryId(1)));
    assert_eq!(st2.regs.r1, 11);
    let _ = bee;
}

#[test]
fn builder_push_pop_round_trip() {
    // Builder-level push then pop through general memory hands the word
    // back and restores the stack pointer.
    let mut b: Builder<EntryId> = Builder::new();
    b.push(Variable::Register(Reg::R1), Reg::R2, AliasClass::Memory);
    b.pop(Reg::Opcode, Reg::R2, AliasClass::Memory);
    let mut st = mk_state(&[0, 0, 0, 0], &[], &[], 0);
    st.regs.r1 = 0xfeed_beef_cafe_f00d;
    st.regs.r2 = 24;
    let ok = do_actions(&mut st, &b.actions);
    assert!(ok);
    assert_eq!(st.regs.opcode, 0xfeed_beef_cafe_f00d);
    assert_eq!(st.regs.r2, 24);
    // Bytes outside the written slot are untouched.
    for j in 0..16 {
        assert_eq!(st.mem[j], 0);
    }
    assert_eq!(st.mem[16], 0x0d);
}

#[test]
fn opcode_tables_match_the_encoding() {
    assert_eq!(Op::CallI.code(), 0);
    assert_eq!(Op::PushI.code(), 1);
    assert_eq!(Op::PushrelI.code(), 2);
    assert_eq!(Op::JumpI.code(), 3);
    assert_eq!(Op::JumpzI.code(), 4);
    assert_eq!(Op::Trap.code(), 5);
    assert_eq!(Insn::Nop.code(), 0x00);
    assert_eq!(Insn::Jump.code(), 0x0c);
    assert_eq!(Insn::Ret.code(), 0x0f);
    assert_eq!(Insn::DivMod.code(), 0x1b);
    assert_eq!(Insn::UDivMod.code(), 0x1c);
    assert_eq!(Insn::Eq.code(), 0x1d);
    assert_eq!(Insn::DupR.code(), 0x22);
    assert_eq!(Insn::Get_Handler_SP.code(), 0x2f);
}

#[test]
fn record_offsets_are_the_fixed_layout() {
    let table = offsets();
    assert_eq!(table.len(), 7);
    assert_eq!(table[0], (Reg::Pc, 0));
    assert_eq!(table[1], (Reg::S0, 8));
    assert_eq!(table[2], (Reg::Sp, 24));
    assert_eq!(table[3], (Reg::SSize, 16));
    assert_eq!(table[4], (Reg::D0, 32));
    assert_eq!(table[5], (Reg::Dp, 48));
    assert_eq!(table[6], (Reg::DSize, 40));
}

#[test]
fn width_bytes_and_logs() {
    assert_eq!(Width::One.bytes(), 1);
    assert_eq!(Width::Two.bytes(), 2);
    assert_eq!(Width::Four.bytes(), 4);
    assert_eq!(Width::Eight.bytes(), 8);
    assert_eq!(Width::One.log2_bytes(), 0);
    assert_eq!(Width::Eight.log2_bytes(), 3);
}

#[test]
fn stack_shuffles() {
    let bee = Bee::new();
    // Dup(1): copy the slot one below the top.
    let mut st = mk_state(&[push_i(1), ext(0x09), TRAP], &[10, 20], &[], 0);
    let r = run_machine(&bee, &mut st, 100);
    assert_eq!(r, Some(0));
    assert_eq!(st.record.dp, 3);
    assert_eq!(st.dstack[2], 10);
    // PushR then PopR moves a value across and back.
    let mut st2 = mk_state(&[ext(0x20), ext(0x21), TRAP], &[77], &[], 0);
    let r2 = run_machine(&bee, &mut st2, 100);
    assert_eq!(r2, Some(0));
    assert_eq!(st2.record.dp, 1);
    assert_eq!(st2.dstack[0], 77);
}

#[test]
fn ret_one_element_at_watermark_deoptimizes() {
    let bee = Bee::new();
    // One element on the return stack — the host pointer is 1, so the
    // biased pointer is 0 — and a positive watermark: the watermark test
    // runs before the pop and cannot wrap, so Ret deoptimizes with the
    // element still in place.
    let mut st = mk_state(&[ext(0x0f), TRAP], &[], &[8], 5);
    let r = run_machine(&bee, &mut st, 100);
    assert_eq!(r, Some(0));
    assert_eq!(st.record.sp, 1);
    assert_eq!(st.rstack[0], 8);
    assert_eq!(st.record.pc, 0);
}

#[test]
fn ret_empty_stack_zero_watermark_deoptimizes() {
    let bee = Bee::new();
    // Biased pointer 0 with watermark 0: at the watermark, so still a
    // deoptimization, with nothing popped.
    let mut st = mk_state(&[ext(0x0f), TRAP], &[], &[8], 0);
    let r = run_machine(&bee, &mut st, 100);
    assert_eq!(r, Some(0));
    assert_eq!(st.record.sp, 1);
    assert_eq!(st.record.pc, 0);
}

#[test]
fn compact_calli_pushes_resume_address() {
    let bee = Bee::new();
    // CallI with offset 16 at address 0: pushes the resume address 8 and
    // transfers to byte 16, where a trap sits.
    let mut st = mk_state(&[16 | 0, TRAP, TRAP], &[], &[], 0);
    let r = run_machine(&bee, &mut st, 100);
    assert_eq!(r, Some(0));
    assert_eq!(st.record.pc, 16);
    assert_eq!(st.record.sp, 1);
    assert_eq!(st.rstack[0], 8);
}

#[test]
fn compact_pushreli_pushes_the_branch_target() {
    let bee = Bee::new();
    // PushrelI with offset 16 at address 0 pushes 16: the same address a
    // compact jump with this word would reach.
    let mut st = mk_state(&[16 | 2, TRAP], &[], &[], 0);
    let r = run_machine(&bee, &mut st, 100);
    assert_eq!(r, Some(0));
    assert_eq!(st.record.dp, 1);
    assert_eq!(st.dstack[0], 16);
    assert_eq!(st.record.pc, 8);
}

#[test]
fn compact_jumpzi_branches_only_on_zero() {
    let bee = Bee::new();
    let mut st = mk_state(&[16 | 4, TRAP, TRAP], &[0], &[], 0);
    let r = run_machine(&bee, &mut st, 100);
    assert_eq!(r, Some(0));
    assert_eq!(st.record.pc, 16);
    assert_eq!(st.record.dp, 0);
    let mut st2 = mk_state(&[16 | 4, TRAP, TRAP], &[1], &[], 0);
    let r2 = run_machine(&bee, &mut st2, 100);
    assert_eq!(r2, Some(0));
    assert_eq!(st2.record.pc, 8);
    assert_eq!(st2.record.dp, 0);
}

#[test]
fn setslot_writes_below_the_top() {
    let bee = Bee::new();
    // Set(1): pops the depth and the value, writes the value one slot
    // below the then-current top.
    let mut st = mk_state(&[ext(0x0a), TRAP], &[10, 20, 99, 1], &[], 0);
    let r = run_machine(&bee, &mut st, 100);
    assert_eq!(r, Some(0));
    assert_eq!(st.record.dp, 2);
    assert_eq!(st.dstack[0], 99);
    assert_eq!(st.dstack[1], 20);
}

#[test]
fn swap_exchanges_with_the_slot_below() {
    let bee = Bee::new();
    let mut st = mk_state(&[ext(0x0b), TRAP], &[10, 20, 99, 1], &[], 0);
    let r = run_machine(&bee, &mut st, 100);
    assert_eq!(r, Some(0));
    assert_eq!(st.record.dp, 3);
    assert_eq!(st.dstack[0], 99);
    assert_eq!(st.dstack[1], 20);
    assert_eq!(st.dstack[2], 10);
}
