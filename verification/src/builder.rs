//! A utility for assembling one extended basic block per top-level call,
//! without manual graph threading.
//!
//! Operations append [`Action`]s; [`Builder::guard`] records a deferred
//! conditional branch; finalizing folds the pending guards, last pushed
//! first, into nested two-way switches around the final [`Ending`]. The
//! net effect, stated by [`run_guarded`] and proved of every finalizer, is
//! that guards run in their original declaration order, each either falling
//! through or diverting to its alternate, and the final ending is reached
//! only once every guard has passed.

use vstd::prelude::*;

use crate::code::{Action, AliasClass, BinaryOp, Ebb, Ending, Reg, Switch, UnaryOp, Variable,
    Width};
use crate::code::spec_log2_bytes;
use crate::semantics::{eval_var, run_actions, run_ebb, run_ending, MachineState};

verus! {

/// Everything that was built up to and including one call to
/// [`Builder::guard`]: the captured action prefix, the condition, the
/// expected sense, and the alternate block run when the guard fails.
pub struct Guard<T> {
    pub actions: Vec<Action>,
    pub condition: Variable,
    pub expected: bool,
    pub if_fail: Ebb<T>,
}

/// Builds one [`Ebb`]. `T` names the entry points the finished block can
/// transfer to. A builder is transient: created per block and consumed by
/// one of the finalizers.
pub struct Builder<T> {
    /// The actions generated since the last call to `guard`.
    pub actions: Vec<Action>,
    /// One record per call to `guard`, in declaration order.
    pub guards: Vec<Guard<T>>,
}

/// The meaning a finalized block is proved to have: run the guards
/// `guards[i ..]` in declaration order — for each, run its captured action
/// prefix, then either continue (condition matched its expected sense) or
/// divert to its alternate block — and once all guards have passed, run the
/// final `actions` and transfer through `ending`.
pub open spec fn run_guarded<T>(
    s: MachineState,
    guards: Seq<Guard<T>>,
    i: int,
    actions: Seq<Action>,
    ending: Ending<T>,
) -> Option<(MachineState, T)>
    decreases guards.len() - i,
{
    if i < 0 || i > guards.len() {
        None
    } else if i == guards.len() {
        match run_actions(s, actions) {
            Some(s1) => run_ending(s1, ending),
            None => None,
        }
    } else {
        let g = guards[i];
        match run_actions(s, g.actions@) {
            Some(s1) => match eval_var(s1, g.condition) {
                Some(v) => if (v != 0) == g.expected {
                    run_guarded(s1, guards, i + 1, actions, ending)
                } else {
                    run_ebb(s1, g.if_fail)
                },
                None => None,
            },
            None => None,
        }
    }
}

/// The register `const_binary` materializes its immediate into: the
/// destination where that preserves the live source, and the designated
/// scratch register otherwise.
pub open spec fn scratch_for(dest: Reg, src: Variable) -> Reg {
    if src != Variable::Register(dest) {
        dest
    } else {
        Reg::Temp
    }
}

/// The two actions `const_binary` appends.
pub open spec fn const_binary_actions(op: BinaryOp, dest: Reg, src: Variable, value: i64) -> Seq<
    Action,
> {
    let t = scratch_for(dest, src);
    seq![
        Action::Constant(t, value),
        Action::Binary(op, dest, src, Variable::Register(t)),
    ]
}

/// The three actions `load` appends.
pub open spec fn load_actions(
    dest: Reg,
    base: Variable,
    offset: i64,
    width: Width,
    class: AliasClass,
) -> Seq<Action> {
    const_binary_actions(BinaryOp::Add, dest, base, offset) + seq![
        Action::Load(dest, Variable::Register(dest), width, class),
    ]
}

/// The three actions `store` appends.
pub open spec fn store_actions(
    src: Variable,
    base: Variable,
    offset: i64,
    width: Width,
    class: AliasClass,
) -> Seq<Action> {
    const_binary_actions(BinaryOp::Add, Reg::Temp, base, offset) + seq![
        Action::Store(Reg::Temp, src, Variable::Register(Reg::Temp), width, class),
    ]
}

/// The four actions `array_load` appends.
pub open spec fn array_load_actions(
    dest: Reg,
    base: Variable,
    index: Variable,
    width: Width,
    class: AliasClass,
) -> Seq<Action> {
    const_binary_actions(BinaryOp::Lsl, Reg::Temp, index, spec_log2_bytes(width) as i64) + seq![
        Action::Binary(BinaryOp::Add, Reg::Temp, base, Variable::Register(Reg::Temp)),
        Action::Load(dest, Variable::Register(Reg::Temp), width, class),
    ]
}

/// The four actions `array_store` appends.
pub open spec fn array_store_actions(
    src: Variable,
    base: Variable,
    index: Variable,
    width: Width,
    class: AliasClass,
) -> Seq<Action> {
    const_binary_actions(BinaryOp::Lsl, Reg::Temp, index, spec_log2_bytes(width) as i64) + seq![
        Action::Binary(BinaryOp::Add, Reg::Temp, base, Variable::Register(Reg::Temp)),
        Action::Store(Reg::Temp, src, Variable::Register(Reg::Temp), width, class),
    ]
}

/// The five actions `pop` appends: an 8-byte load through the stack
/// pointer, then the pointer advanced past the popped slot.
pub open spec fn pop_actions(dest: Reg, sp: Reg, class: AliasClass) -> Seq<Action> {
    load_actions(dest, Variable::Register(sp), 0, Width::Eight, class)
        + const_binary_actions(BinaryOp::Add, sp, Variable::Register(sp), 8)
}

/// The five actions `push` appends: the stack pointer retreated to a fresh
/// slot, then an 8-byte store through it.
pub open spec fn push_actions(src: Variable, sp: Reg, class: AliasClass) -> Seq<Action> {
    const_binary_actions(BinaryOp::Sub, sp, Variable::Register(sp), 8)
        + store_actions(src, Variable::Register(sp), 0, Width::Eight, class)
}


/// Builds one block by handing a fresh builder to `callback` and
/// returning the block it finishes.
pub fn build<T, F: FnOnce(Builder<T>) -> Ebb<T>>(callback: F) -> (r: Ebb<T>)
    requires
        forall|b: Builder<T>|
            b.actions@ =~= Seq::<Action>::empty() && b.guards@ =~= Seq::<Guard<T>>::empty()
                ==> #[trigger] call_requires(callback, (b,)),
    ensures
        exists|b: Builder<T>|
            b.actions@ =~= Seq::<Action>::empty() && b.guards@ =~= Seq::<Guard<T>>::empty()
                && #[trigger] call_ensures(callback, (b,), r),
{
    let b: Builder<T> = Builder::new();
    let ghost b0 = b;
    let r = callback(b);
    proof {
        assert(call_ensures(callback, (b0,), r));
    }
    r
}

/// Builds one straight-line action sequence: hands a fresh builder to
/// `callback` and returns the actions of the builder it gives back.
pub fn build_block<F: FnOnce(Builder<()>) -> Builder<()>>(callback: F) -> (r: Vec<Action>)
    requires
        forall|b: Builder<()>|
            b.actions@ =~= Seq::<Action>::empty() && b.guards@ =~= Seq::<Guard<()>>::empty()
                ==> #[trigger] call_requires(callback, (b,)),
    ensures
        exists|b: Builder<()>, b2: Builder<()>|
            b.actions@ =~= Seq::<Action>::empty() && b.guards@ =~= Seq::<Guard<()>>::empty()
                && #[trigger] call_ensures(callback, (b,), b2) && r == b2.actions,
{
    let b: Builder<()> = Builder::new();
    let ghost b0 = b;
    let b2 = callback(b);
    proof {
        assert(call_ensures(callback, (b0,), b2));
    }
    b2.actions
}

impl<T> Builder<T> {
    /// A fresh builder with no actions and no pending guards.
    pub fn new() -> (r: Builder<T>)
        ensures
            r.actions@ =~= Seq::<Action>::empty(),
            r.guards@ =~= Seq::<Guard<T>>::empty(),
    {
        Builder { actions: Vec::new(), guards: Vec::new() }
    }

    /// Appends a register-to-register (or global-to-register) copy.
    pub fn move_(&mut self, dest: Variable, src: Variable)
        ensures
            final(self).actions@ == old(self).actions@.push(Action::Move(dest, src)),
            final(self).guards == old(self).guards,
    {
        self.actions.push(Action::Move(dest, src));
    }

    /// Appends loading the immediate `value` into `dest`.
    pub fn const_(&mut self, dest: Reg, value: i64)
        ensures
            final(self).actions@ == old(self).actions@.push(Action::Constant(dest, value)),
            final(self).guards == old(self).guards,
    {
        self.actions.push(Action::Constant(dest, value));
    }

    /// Appends a unary arithmetic action at word precision.
    pub fn unary(&mut self, op: UnaryOp, dest: Reg, src: Variable)
        ensures
            final(self).actions@ == old(self).actions@.push(Action::Unary(op, dest, src)),
            final(self).guards == old(self).guards,
    {
        self.actions.push(Action::Unary(op, dest, src));
    }

    /// Appends a binary arithmetic action at word precision.
    pub fn binary(&mut self, op: BinaryOp, dest: Reg, src1: Variable, src2: Variable)
        ensures
            final(self).actions@ == old(self).actions@.push(
                Action::Binary(op, dest, src1, src2),
            ),
            final(self).guards == old(self).guards,
    {
        self.actions.push(Action::Binary(op, dest, src1, src2));
    }

    /// Appends materializing `value` into a scratch register, then a binary
    /// action combining `src` with it into `dest`. The scratch is `dest`
    /// itself when that preserves the live source, and the designated
    /// global scratch register otherwise; a call that leaves no such
    /// register is a build-time defect and is excluded by precondition.
    pub fn const_binary(&mut self, op: BinaryOp, dest: Reg, src: Variable, value: i64)
        requires
            !(src == Variable::Register(dest) && dest == Reg::Temp),
        ensures
            final(self).actions@ == old(self).actions@ + const_binary_actions(
                op,
                dest,
                src,
                value,
            ),
            final(self).guards == old(self).guards,
    {
        let temp = if src != Variable::Register(dest) {
            dest
        } else {
            Reg::Temp
        };
        self.const_(temp, value);
        self.binary(op, dest, src, Variable::Register(temp));
        assert(final(self).actions@ =~= old(self).actions@ + const_binary_actions(
            op,
            dest,
            src,
            value,
        ));
    }

    /// Appends computing `base + offset` into `dest`, then an 8-, 4-, 2- or
    /// 1-byte load through it. The scratch register is corrupted when
    /// `dest == base`.
    pub fn load(&mut self, dest: Reg, base: Variable, offset: i64, width: Width, class: AliasClass)
        requires
            !(base == Variable::Register(dest) && dest == Reg::Temp),
        ensures
            final(self).actions@ == old(self).actions@ + load_actions(
                dest,
                base,
                offset,
                width,
                class,
            ),
            final(self).guards == old(self).guards,
    {
        self.const_binary(BinaryOp::Add, dest, base, offset);
        self.actions.push(Action::Load(dest, Variable::Register(dest), width, class));
        assert(final(self).actions@ =~= old(self).actions@ + load_actions(
            dest,
            base,
            offset,
            width,
            class,
        ));
    }

    /// Appends computing `base + offset` into the scratch register, then a
    /// store through it. The scratch register is always corrupted.
    pub fn store(
        &mut self,
        src: Variable,
        base: Variable,
        offset: i64,
        width: Width,
        class: AliasClass,
    )
        requires
            base != Variable::Register(Reg::Temp),
        ensures
            final(self).actions@ == old(self).actions@ + store_actions(
                src,
                base,
                offset,
                width,
                class,
            ),
            final(self).guards == old(self).guards,
    {
        self.const_binary(BinaryOp::Add, Reg::Temp, base, offset);
        self.actions.push(
            Action::Store(Reg::Temp, src, Variable::Register(Reg::Temp), width, class),
        );
        assert(final(self).actions@ =~= old(self).actions@ + store_actions(
            src,
            base,
            offset,
            width,
            class,
        ));
    }

    /// Appends a load at effective address `base + (index << log2(width))`.
    /// The scratch register is always corrupted.
    pub fn array_load(
        &mut self,
        dest: Reg,
        base: Variable,
        index: Variable,
        width: Width,
        class: AliasClass,
    )
        requires
            index != Variable::Register(Reg::Temp),
        ensures
            final(self).actions@ == old(self).actions@ + array_load_actions(
                dest,
                base,
                index,
                width,
                class,
            ),
            final(self).guards == old(self).guards,
    {
        self.const_binary(BinaryOp::Lsl, Reg::Temp, index, width.log2_bytes() as i64);
        self.binary(BinaryOp::Add, Reg::Temp, base, Variable::Register(Reg::Temp));
        self.actions.push(Action::Load(dest, Variable::Register(Reg::Temp), width, class));
        assert(final(self).actions@ =~= old(self).actions@ + array_load_actions(
            dest,
            base,
            index,
            width,
            class,
        ));
    }

    /// Appends a store at effective address `base + (index << log2(width))`.
    /// The scratch register is always corrupted.
    pub fn array_store(
        &mut self,
        src: Variable,
        base: Variable,
        index: Variable,
        width: Width,
        class: AliasClass,
    )
        requires
            index != Variable::Register(Reg::Temp),
        ensures
            final(self).actions@ == old(self).actions@ + array_store_actions(
                src,
                base,
                index,
                width,
                class,
            ),
            final(self).guards == old(self).guards,
    {
        self.const_binary(BinaryOp::Lsl, Reg::Temp, index, width.log2_bytes() as i64);
        self.binary(BinaryOp::Add, Reg::Temp, base, Variable::Register(Reg::Temp));
        self.actions.push(
            Action::Store(Reg::Temp, src, Variable::Register(Reg::Temp), width, class),
        );
        assert(final(self).actions@ =~= old(self).actions@ + array_store_actions(
            src,
            base,
            index,
            width,
            class,
        ));
    }

    /// Appends popping one 8-byte element: a load through `sp`, then `sp`
    /// advanced past the slot. The scratch register is corrupted.
    pub fn pop(&mut self, dest: Reg, sp: Reg, class: AliasClass)
        requires
            sp != Reg::Temp,
        ensures
            final(self).actions@ == old(self).actions@ + pop_actions(dest, sp, class),
            final(self).guards == old(self).guards,
    {
        self.load(dest, Variable::Register(sp), 0, Width::Eight, class);
        self.const_binary(BinaryOp::Add, sp, Variable::Register(sp), 8);
        assert(final(self).actions@ =~= old(self).actions@ + pop_actions(dest, sp, class));
    }

    /// Appends pushing one 8-byte element: `sp` retreated to a fresh slot,
    /// then a store through it. The scratch register is corrupted.
    pub fn push(&mut self, src: Variable, sp: Reg, class: AliasClass)
        requires
            sp != Reg::Temp,
        ensures
            final(self).actions@ == old(self).actions@ + push_actions(src, sp, class),
            final(self).guards == old(self).guards,
    {
        self.const_binary(BinaryOp::Sub, sp, Variable::Register(sp), 8);
        self.store(src, Variable::Register(sp), 0, Width::Eight, class);
        assert(final(self).actions@ =~= old(self).actions@ + push_actions(src, sp, class));
    }

    /// Appends a diagnostic probe of `src`; no control-flow effect.
    pub fn debug(&mut self, src: Variable)
        ensures
            final(self).actions@ == old(self).actions@.push(Action::Debug(src)),
            final(self).guards == old(self).guards,
    {
        self.actions.push(Action::Debug(src));
    }

    /// Records a deferred conditional branch: snapshots and clears the
    /// current action buffer into a pending guard. At run time, if
    /// `condition` does not match `expected`, the block diverts to
    /// `if_fail`; subsequent actions accumulate fresh.
    pub fn guard(&mut self, condition: Variable, expected: bool, if_fail: Ebb<T>)
        ensures
            final(self).actions@ =~= Seq::<Action>::empty(),
            final(self).guards@ == old(self).guards@.push(
                Guard { actions: old(self).actions, condition, expected, if_fail },
            ),
    {
        let mut actions: Vec<Action> = Vec::new();
        core::mem::swap(&mut actions, &mut self.actions);
        self.guards.push(Guard { actions, condition, expected, if_fail });
    }

    /// Consumes the builder and returns the finished block: the innermost
    /// block is the last action buffer with the given ending, and each
    /// pending guard, taken last pushed first, wraps it in a two-way switch
    /// whose matching branch continues inward and whose other branch is the
    /// guard's alternate. The finished block therefore runs the guards in
    /// declaration order, as [`run_guarded`] states.
    pub fn ending(self, ending: Ending<T>) -> (r: Ebb<T>)
        ensures
            forall|s: MachineState| #[trigger] run_ebb(s, r) == run_guarded(
                s,
                self.guards@,
                0,
                self.actions@,
                ending,
            ),
            self.guards@.len() == 0 ==> r.actions == self.actions && r.ending == ending,
    {
        let Builder { actions, mut guards } = self;
        let ghost all_guards = guards@;
        let ghost final_actions = actions@;
        let ghost final_ending = ending;
        let mut ret = Ebb { actions, ending };
        let ghost ret0 = ret;
        proof {
            assert forall|s: MachineState| #[trigger] run_ebb(s, ret) == run_guarded(
                s,
                all_guards,
                all_guards.len() as int,
                final_actions,
                final_ending,
            ) by {
                assert(run_ebb(s, ret) == match run_actions(s, final_actions) {
                    Some(s1) => run_ending(s1, final_ending),
                    None => None,
                });
            }
        }
        proof {
            assert(all_guards.subrange(0, all_guards.len() as int) =~= all_guards);
        }
        while guards.len() > 0
            invariant
                guards@.len() <= all_guards.len(),
                guards@ =~= all_guards.subrange(0, guards@.len() as int),
                all_guards.len() == 0 ==> ret == ret0,
                forall|s: MachineState| #[trigger] run_ebb(s, ret) == run_guarded(
                    s,
                    all_guards,
                    guards@.len() as int,
                    final_actions,
                    final_ending,
                ),
            decreases guards.len(),
        {
            let ghost k = guards@.len() as int;
            let ghost pre = guards@;
            let g = match guards.pop() {
                Some(g) => g,
                None => {
                    proof {
                        assert(false);
                    }
                    unreached()
                },
            };
            proof {
                assert(pre[k - 1] == all_guards.subrange(0, k)[k - 1]);
                assert(g == all_guards[k - 1]);
                assert(guards@ =~= all_guards.subrange(0, k - 1)) by {
                    assert(guards@ =~= pre.drop_last());
                    assert forall|j: int| 0 <= j < k - 1 implies pre.drop_last()[j]
                        == all_guards.subrange(0, k - 1)[j] by {
                        assert(pre[j] == all_guards.subrange(0, k)[j]);
                    }
                }
            }
            let Guard { actions: g_actions, condition, expected, if_fail } = g;
            let ghost g_spec = Guard { actions: g_actions, condition, expected, if_fail };
            let ghost old_ret = ret;
            let sw = if expected {
                Switch::if_(condition, ret, if_fail)
            } else {
                Switch::if_(condition, if_fail, ret)
            };
            ret = Ebb { actions: g_actions, ending: Ending::Switch(sw) };
            proof {
                assert forall|s: MachineState| #[trigger] run_ebb(s, ret) == run_guarded(
                    s,
                    all_guards,
                    k - 1,
                    final_actions,
                    final_ending,
                ) by {
                    lemma_guard_wrap(
                        s,
                        all_guards,
                        k - 1,
                        final_actions,
                        final_ending,
                        old_ret,
                        ret,
                        g_spec,
                        sw,
                    );
                }
            }
        }
        proof {
            assert(all_guards =~= self.guards@);
            assert(guards@.len() == 0);
        }
        ret
    }

    /// Finalizes with a direct transfer to `target`.
    pub fn jump(self, target: T) -> (r: Ebb<T>)
        ensures
            forall|s: MachineState| #[trigger] run_ebb(s, r) == run_guarded(
                s,
                self.guards@,
                0,
                self.actions@,
                Ending::Leaf(target),
            ),
            self.guards@.len() == 0 ==> r.actions == self.actions && r.ending == Ending::Leaf(
                target,
            ),
    {
        self.ending(Ending::Leaf(target))
    }

    /// Finalizes with the given multi-way switch.
    pub fn switch(self, switch: Switch<T>) -> (r: Ebb<T>)
        ensures
            forall|s: MachineState| #[trigger] run_ebb(s, r) == run_guarded(
                s,
                self.guards@,
                0,
                self.actions@,
                Ending::Switch(switch),
            ),
            self.guards@.len() == 0 ==> r.actions == self.actions && r.ending == Ending::Switch(
                switch,
            ),
    {
        self.ending(Ending::Switch(switch))
    }

    /// Finalizes with a switch that selects `cases[discriminant]` when the
    /// discriminant's value is in range and `default_` otherwise.
    pub fn index(self, discriminant: Variable, cases: Vec<Ebb<T>>, default_: Ebb<T>) -> (r: Ebb<
        T,
    >)
        ensures
            exists|sw: Switch<T>|
                sw.discriminant == discriminant && sw.cases == cases && *sw.default_ == default_
                    && forall|s: MachineState| #[trigger] run_ebb(s, r) == run_guarded(
                    s,
                    self.guards@,
                    0,
                    self.actions@,
                    Ending::Switch(sw),
                ),
    {
        self.switch(Switch::new(discriminant, cases, default_))
    }

    /// Finalizes with a symmetric two-way switch: `if_true` when
    /// `condition` is non-zero, `if_false` when it is zero. Contrast with
    /// `guard`, which favours one outcome.
    pub fn if_(self, condition: Variable, if_true: Ebb<T>, if_false: Ebb<T>) -> (r: Ebb<T>)
        ensures
            exists|sw: Switch<T>|
                sw.discriminant == condition && sw.cases@ =~= seq![if_false] && *sw.default_
                    == if_true && forall|s: MachineState| #[trigger] run_ebb(s, r) == run_guarded(
                    s,
                    self.guards@,
                    0,
                    self.actions@,
                    Ending::Switch(sw),
                ),
    {
        self.switch(Switch::if_(condition, if_true, if_false))
    }
}

/// One step of the guard fold: wrapping the partially built block in the
/// two-way switch for guard `guards[i]` realizes running that guard first.
proof fn lemma_guard_wrap<T>(
    s: MachineState,
    guards: Seq<Guard<T>>,
    i: int,
    actions: Seq<Action>,
    ending: Ending<T>,
    inner: Ebb<T>,
    wrapped: Ebb<T>,
    g: Guard<T>,
    sw: Switch<T>,
)
    requires
        0 <= i < guards.len(),
        g == guards[i],
        forall|s2: MachineState| #[trigger] run_ebb(s2, inner) == run_guarded(
            s2,
            guards,
            i + 1,
            actions,
            ending,
        ),
        sw.discriminant == g.condition,
        g.expected ==> sw.cases@ =~= seq![g.if_fail] && *sw.default_ == inner,
        !g.expected ==> sw.cases@ =~= seq![inner] && *sw.default_ == g.if_fail,
        wrapped.actions == g.actions,
        wrapped.ending == Ending::Switch(sw),
    ensures
        run_ebb(s, wrapped) == run_guarded(s, guards, i, actions, ending),
{
    match run_actions(s, g.actions@) {
        Some(s1) => {
            match eval_var(s1, g.condition) {
                Some(v) => {
                    if v == 0 {
                        assert(v < sw.cases@.len());
                        if g.expected {
                            assert(run_ebb(s, wrapped) == run_ebb(s1, g.if_fail));
                        } else {
                            assert(run_ebb(s, wrapped) == run_ebb(s1, inner));
                        }
                    } else {
                        assert(!(v < sw.cases@.len()));
                        if g.expected {
                            assert(run_ebb(s, wrapped) == run_ebb(s1, inner));
                        } else {
                            assert(run_ebb(s, wrapped) == run_ebb(s1, g.if_fail));
                        }
                    }
                },
                None => {},
            }
        },
        None => {},
    }
}

} // verus!
