//! The definition of a JIT-compiled, stack-based virtual machine: a
//! builder for guarded, multi-way control-flow blocks; a machine
//! definition assembled with it — register-to-state mapping, two-level
//! instruction dispatch and per-instruction handlers with edge-case-exact
//! arithmetic, alignment checks and deoptimization; an action semantics
//! the handlers are proved against; and a reference interpreter that runs
//! programs over that same semantics. Compiling and executing the
//! finished graph is the compilation engine's job, outside this crate.

use vstd::prelude::*;

pub mod builder;
pub mod code;
pub mod enums;
pub mod interp;
pub mod laws;
pub mod machine;
pub mod registers;
pub mod semantics;

verus! {

/// A handle naming a dispatch target in the compilation engine's arena.
/// Handles are allocated before their bodies are defined, so that mutually
/// referential blocks can be built without forward references.
#[derive(Clone, Copy, PartialEq, Eq, Structural, Debug)]
pub struct EntryId(pub usize);

} // verus!
