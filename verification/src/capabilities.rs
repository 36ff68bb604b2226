//! The capabilities that a container loses.

use crate::host::{Op, OpView, ReplyView};
use crate::plan::{
    attempt, ending, law_fallback, law_good_ending, must, unskippable, OnFailure, OnFailureView,
    Plan, Step, StepView,
};
use vstd::prelude::*;

verus! {

/// A capability that the runtime takes away.
#[derive(Debug, Clone, Copy, PartialEq, Eq, Structural)]
pub enum Capability {
    /// The "root of all capabilities".
    SysAdmin,
    /// Load kernel modules.
    SysModule,
    /// Raw I/O port access.
    SysRawio,
    /// Reboot.
    SysBoot,
    /// Set the system clock.
    SysTime,
    /// Reconfigure networking.
    NetAdmin,
    /// Raw sockets (spoofing).
    NetRaw,
    /// Create device nodes.
    Mknod,
    /// Trace/inject into other processes.
    SysPtrace,
}

/// One of the sets of capabilities that a process has.
#[derive(Debug, Clone, Copy, PartialEq, Eq, Structural)]
pub enum CapSet {
    Bounding,
    Ambient,
    Effective,
    Permitted,
    Inheritable,
}

/// Dangerous capabilities we strip from the container before exec. Dropping
/// these from the bounding set means the process can never regain them, even
/// via setuid binaries.
pub open spec fn dangerous() -> Seq<Capability> {
    seq![
        Capability::SysAdmin,
        Capability::SysModule,
        Capability::SysRawio,
        Capability::SysBoot,
        Capability::SysTime,
        Capability::NetAdmin,
        Capability::NetRaw,
        Capability::Mknod,
        Capability::SysPtrace,
    ]
}

fn dangerous_list() -> (r: Vec<Capability>)
    ensures
        r@ == dangerous(),
{
    let r: Vec<Capability> = vec![
        Capability::SysAdmin,
        Capability::SysModule,
        Capability::SysRawio,
        Capability::SysBoot,
        Capability::SysTime,
        Capability::NetAdmin,
        Capability::NetRaw,
        Capability::Mknod,
        Capability::SysPtrace,
    ];
    assert(r@ =~= dangerous());
    r
}

/// Number of capabilities the runtime drops.
pub fn dropped_count() -> (n: usize)
    ensures
        n == dangerous().len(),
        n == 9,
{
    dangerous_list().len()
}

/// The sets that a dangerous capability leaves one by one. The bounding set comes first,
/// so that the capability cannot be acquired again, and the permitted set only behind the
/// effective one, which may hold nothing else.
pub open spec fn left_sets() -> Seq<CapSet> {
    seq![CapSet::Bounding, CapSet::Ambient, CapSet::Effective, CapSet::Permitted]
}

/// The step that takes `capability` out of `set`.
pub open spec fn drop_step(set: CapSet, capability: Capability) -> StepView {
    attempt(OpView::DropCapability { set, capability }, 1)
}

/// The step behind a drop that failed: `capability` must not be in `set` all the same.
pub open spec fn check_step(set: CapSet, capability: Capability) -> StepView {
    must(
        OpView::LacksCapability { set, capability },
        OnFailureView::Config("drop dangerous caps"@),
    )
}

/// The steps after which `capability` is in no set but the inheritable one.
pub open spec fn drops_of(capability: Capability) -> Seq<StepView> {
    seq![
        drop_step(CapSet::Bounding, capability),
        check_step(CapSet::Bounding, capability),
        drop_step(CapSet::Ambient, capability),
        check_step(CapSet::Ambient, capability),
        drop_step(CapSet::Effective, capability),
        check_step(CapSet::Effective, capability),
        drop_step(CapSet::Permitted, capability),
        check_step(CapSet::Permitted, capability),
    ]
}

/// The steps that drop the capabilities of `list`.
pub open spec fn drops(list: Seq<Capability>) -> Seq<StepView>
    decreases list.len(),
{
    if list.len() == 0 {
        Seq::empty()
    } else {
        drops(list.drop_last()) + drops_of(list.last())
    }
}

/// The plan that drops every dangerous capability from every set: the inheritable
/// set is cleared entirely, for children need nothing inherited.
pub open spec fn drop_plan() -> Seq<StepView> {
    drops(dangerous()).push(
        must(
            OpView::ClearCapabilities(CapSet::Inheritable),
            OnFailureView::Config("clear inheritable caps"@),
        ),
    )
}

fn push_drop(plan: &mut Plan, set: CapSet, capability: Capability)
    ensures
        final(plan)@ == old(plan)@.push(drop_step(set, capability)).push(
            check_step(set, capability),
        ),
{
    plan.push(Step::attempt(Op::DropCapability { set, capability }, 1));
    plan.push(
        Step::must(
            Op::LacksCapability { set, capability },
            OnFailure::Config("drop dangerous caps".to_owned()),
        ),
    );
}

/// Drop the dangerous capabilities from every set (bounding + inheritable +
/// permitted + effective + ambient). Call after privileged setup, before exec.
///
/// A drop that fails is passed over only where the capability is not in the set. On a
/// kernel without an ambient set no capability is in that set.
pub fn drop_dangerous() -> (plan: Plan)
    ensures
        plan@ == drop_plan(),
{
    let list: Vec<Capability> = dangerous_list();
    let mut plan: Plan = Plan::new();
    assert(dangerous().take(0) =~= Seq::<Capability>::empty());
    for i in 0..list.len()
        invariant
            list@ == dangerous(),
            plan@ == drops(dangerous().take(i as int)),
    {
        let capability: Capability = list[i];
        let ghost before = plan@;
        push_drop(&mut plan, CapSet::Bounding, capability);
        push_drop(&mut plan, CapSet::Ambient, capability);
        push_drop(&mut plan, CapSet::Effective, capability);
        push_drop(&mut plan, CapSet::Permitted, capability);
        proof {
            assert(plan@ =~= before + drops_of(capability));
            assert(dangerous().take(i + 1).drop_last() =~= dangerous().take(i as int));
            assert(dangerous().take(i + 1).last() == capability);
        }
    }
    assert(dangerous().take(dangerous().len() as int) =~= dangerous());
    plan.push(
        Step::must(
            Op::ClearCapabilities(CapSet::Inheritable),
            OnFailure::Config("clear inheritable caps".to_owned()),
        ),
    );
    plan
}

proof fn lemma_drops(list: Seq<Capability>, k: int, s: int)
    requires
        0 <= k < list.len(),
        0 <= s < 4,
    ensures
        drops(list).len() == 8 * list.len(),
        drops(list)[8 * k + 2 * s] == drop_step(left_sets()[s], list[k]),
        drops(list)[8 * k + 2 * s + 1] == check_step(left_sets()[s], list[k]),
    decreases list.len(),
{
    let less = list.drop_last();
    let d = drops(list);
    lemma_drops_len(list);
    lemma_drops_len(less);
    assert(d == drops(less) + drops_of(list.last()));
    if k < less.len() {
        lemma_drops(less, k, s);
        assert(list[k] == less[k]);
        assert(d[8 * k + 2 * s] == drops(less)[8 * k + 2 * s]);
        assert(d[8 * k + 2 * s + 1] == drops(less)[8 * k + 2 * s + 1]);
    } else {
        assert(d[8 * k + 2 * s] == drops_of(list[k])[2 * s]);
        assert(d[8 * k + 2 * s + 1] == drops_of(list[k])[2 * s + 1]);
    }
}

proof fn lemma_drops_len(list: Seq<Capability>)
    ensures
        drops(list).len() == 8 * list.len(),
    decreases list.len(),
{
    if list.len() > 0 {
        lemma_drops_len(list.drop_last());
    }
}

/// Every dangerous capability leaves each of the sets in turn, and behind each drop
/// stands the look whether it is gone; last of all the inheritable set is cleared.
pub proof fn law_every_set(k: int, s: int)
    requires
        0 <= k < dangerous().len(),
        0 <= s < 4,
    ensures
        drop_plan().len() == 73,
        drop_plan()[8 * k + 2 * s] == drop_step(left_sets()[s], dangerous()[k]),
        drop_plan()[8 * k + 2 * s + 1] == check_step(left_sets()[s], dangerous()[k]),
        drop_plan()[72].op == OpView::ClearCapabilities(CapSet::Inheritable),
        !(drop_plan()[72].on_failure is Ignore),
        drop_plan()[72].skip == 0,
{
    lemma_drops(dangerous(), k, s);
    let d = drops(dangerous());
    assert(drop_plan()[8 * k + 2 * s] == d[8 * k + 2 * s]);
    assert(drop_plan()[8 * k + 2 * s + 1] == d[8 * k + 2 * s + 1]);
}

/// At every position of the plan but the last stands a drop or a look, in turn.
pub proof fn law_drops_and_looks(j: int)
    requires
        0 <= j < 72,
    ensures
        drop_plan().len() == 73,
        j % 2 == 0 ==> drop_plan()[j].skip == 1 && drop_plan()[j].op is DropCapability,
        j % 2 == 1 ==> drop_plan()[j].skip == 0 && drop_plan()[j].op is LacksCapability,
{
    let k = j / 8;
    let s = (j % 8) / 2;
    law_every_set(k, s);
    assert(j == 8 * k + 2 * s + j % 2);
}

/// No drop is ever skipped, nor the clearing of the inheritable set.
pub proof fn law_no_drop_skipped(i: int)
    requires
        0 <= i <= 72 && i % 2 == 0 || i == 73,
    ensures
        unskippable(drop_plan(), i),
{
    law_every_set(0, 0);
    assert forall|k: int| 0 <= k < i implies k + 1 + (#[trigger] drop_plan()[k]).skip <= i by {
        if k < 72 {
            law_drops_and_looks(k);
        }
    }
}

/// Where the plan ends well, every dangerous capability is gone from every set: it was
/// taken out of the set, or seen not to be in it, and the inheritable set was cleared.
pub proof fn law_dangerous_gone(answers: spec_fn(int) -> ReplyView, k: int, s: int)
    requires
        ending(drop_plan(), 0, answers) is Ok,
        0 <= k < dangerous().len(),
        0 <= s < 4,
    ensures
        answers(8 * k + 2 * s) is Done || answers(8 * k + 2 * s + 1) is Done,
        answers(72) is Done,
{
    law_every_set(k, s);
    law_no_drop_skipped(8 * k + 2 * s);
    law_fallback(drop_plan(), 0, answers, 8 * k + 2 * s);
    law_no_drop_skipped(72);
    law_good_ending(drop_plan(), 0, answers, 72);
}

} // verus!
