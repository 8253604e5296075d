//! The host state record: the persistent virtual-machine fields that live in
//! host-owned memory, and the fixed table mapping each field to the native
//! register that caches it while compiled code runs.

use vstd::prelude::*;

use crate::code::Reg;

verus! {

/// Byte offset of the program counter in the host state record.
pub const PC_OFF: u64 = 0;
/// Byte offset of the return-stack base.
pub const S0_OFF: u64 = 8;
/// Byte offset of the return-stack size.
pub const SSIZE_OFF: u64 = 16;
/// Byte offset of the return-stack pointer.
pub const SP_OFF: u64 = 24;
/// Byte offset of the data-stack base.
pub const D0_OFF: u64 = 32;
/// Byte offset of the data-stack size.
pub const DSIZE_OFF: u64 = 40;
/// Byte offset of the data-stack pointer.
pub const DP_OFF: u64 = 48;
/// Byte offset of the return-stack watermark.
pub const HANDLER_SP_OFF: u64 = 56;

/// The host state record. It is owned and allocated by the host and has a
/// fixed layout: eight word-sized fields, in this order, at byte offsets
/// 0, 8, ..., 56. Compiled code addresses it through a single base pointer
/// and reads or writes it only via loads and stores tagged with the
/// host-record alias class, plus the marshal. Pointer-valued fields are held
/// here as plain machine-word addresses.
#[derive(Clone, Copy, PartialEq, Eq, Structural, Debug)]
pub struct Registers {
    /// The program counter: address of the next instruction word.
    pub pc: u64,
    /// Base address of the return stack.
    pub s0: u64,
    /// Number of slots in the return stack.
    pub ssize: u64,
    /// Return-stack pointer, in the host's "next free slot" convention.
    pub sp: u64,
    /// Base address of the data stack.
    pub d0: u64,
    /// Number of slots in the data stack.
    pub dsize: u64,
    /// Data-stack pointer, in the host's "next free slot" convention.
    pub dp: u64,
    /// Watermark: lower bound on the return-stack pointer, preventing
    /// returns past a handler-frame boundary.
    pub handler_sp: u64,
}

/// The field of the record at byte offset `off`, or `None` if `off` is not
/// a field offset.
pub open spec fn record_read(rec: Registers, off: int) -> Option<u64> {
    if off == PC_OFF {
        Some(rec.pc)
    } else if off == S0_OFF {
        Some(rec.s0)
    } else if off == SSIZE_OFF {
        Some(rec.ssize)
    } else if off == SP_OFF {
        Some(rec.sp)
    } else if off == D0_OFF {
        Some(rec.d0)
    } else if off == DSIZE_OFF {
        Some(rec.dsize)
    } else if off == DP_OFF {
        Some(rec.dp)
    } else if off == HANDLER_SP_OFF {
        Some(rec.handler_sp)
    } else {
        None
    }
}

/// The record with the field at byte offset `off` replaced by `v`, or
/// `None` if `off` is not a field offset.
pub open spec fn record_write(rec: Registers, off: int, v: u64) -> Option<Registers> {
    if off == PC_OFF {
        Some(Registers { pc: v, ..rec })
    } else if off == S0_OFF {
        Some(Registers { s0: v, ..rec })
    } else if off == SSIZE_OFF {
        Some(Registers { ssize: v, ..rec })
    } else if off == SP_OFF {
        Some(Registers { sp: v, ..rec })
    } else if off == D0_OFF {
        Some(Registers { d0: v, ..rec })
    } else if off == DSIZE_OFF {
        Some(Registers { dsize: v, ..rec })
    } else if off == DP_OFF {
        Some(Registers { dp: v, ..rec })
    } else if off == HANDLER_SP_OFF {
        Some(Registers { handler_sp: v, ..rec })
    } else {
        None
    }
}

/// The fixed table of record fields cached in native registers across an
/// instruction boundary: each entry pairs the caching register with the
/// field's byte offset. The watermark is not cached; it is loaded on demand.
pub open spec fn spec_offsets() -> Seq<(Reg, u64)> {
    seq![
        (Reg::Pc, PC_OFF),
        (Reg::S0, S0_OFF),
        (Reg::Sp, SP_OFF),
        (Reg::SSize, SSIZE_OFF),
        (Reg::D0, D0_OFF),
        (Reg::Dp, DP_OFF),
        (Reg::DSize, DSIZE_OFF),
    ]
}

/// The record fields held in native registers, as (register, byte offset).
pub fn offsets() -> (r: Vec<(Reg, u64)>)
    ensures
        r@ =~= spec_offsets(),
{
    let mut v: Vec<(Reg, u64)> = Vec::new();
    v.push((Reg::Pc, PC_OFF));
    v.push((Reg::S0, S0_OFF));
    v.push((Reg::Sp, SP_OFF));
    v.push((Reg::SSize, SSIZE_OFF));
    v.push((Reg::D0, D0_OFF));
    v.push((Reg::Dp, DP_OFF));
    v.push((Reg::DSize, DSIZE_OFF));
    v
}

} // verus!
