//! The order in which a container process sets itself up, and that it does nothing else.

use crate::capabilities::{
    check_step, drop_plan, drop_step, law_drops_and_looks, law_every_set, CapSet, Capability,
};
use crate::config::ContainerConfigView;
use crate::container::{
    child_steps, close_step, grandchild_steps, hardening_steps, moving_steps, part_steps,
    MiddleCourse, MiddleStageView, MiddleView,
};
use crate::guarantees::{
    asked, hardening_at, law_only_fallbacks_saved, lemma_shape, middle_run, root_at, Event,
};
use crate::host::{MountKind, Namespace, OpView, Pipe, PipeEnd, ReplyView, WaitStatus};
use crate::plan::{unskippable, Course, OnFailureView, PlanRunView, StepView};
use crate::rootfs::{law_volumes_closed, rootfs_steps, volume_target, volumes_steps};
use vstd::prelude::*;

verus! {

/// Whether the operations `ops` were done one after the other: each at a later place of
/// the history than the one before.
pub open spec fn done_in_order(history: Seq<Event>, ops: Seq<OpView>) -> bool {
    exists|w: Seq<int>| places(history, ops, w)
}

/// Whether `w` gives the places at which the operations `ops` were done, in order.
pub open spec fn places(history: Seq<Event>, ops: Seq<OpView>, w: Seq<int>) -> bool {
    &&& w.len() == ops.len()
    &&& forall|i: int|
        0 <= i < w.len() ==> 0 <= #[trigger] w[i] < history.len() && history[w[i]].0 == ops[i]
            && history[w[i]].1 is Done
    &&& forall|i: int, j: int| 0 <= i < j < w.len() ==> w[i] < w[j]
}

// Where the steps of a plan stand in a history.

/// Whether `w` gives the places, from `from` on, at which a plan took its steps before
/// `at`, as far as nothing can save them.
pub open spec fn fits(
    history: Seq<Event>,
    steps: Seq<StepView>,
    at: int,
    from: int,
    w: Seq<int>,
) -> bool {
    &&& w.len() == at
    &&& forall|i: int|
        0 <= i < at && i < steps.len() && #[trigger] unskippable(steps, i) ==> {
            &&& from <= w[i] < history.len()
            &&& history[w[i]].0 == steps[i].op
            &&& steps[i].on_failure is Ignore || history[w[i]].1 is Done
        }
    &&& forall|i: int, j: int|
        0 <= i < j < at && j < steps.len() && #[trigger] unskippable(steps, i)
            && #[trigger] unskippable(steps, j) ==> w[i] < w[j]
}

/// Whether a plan took its steps before `at` in their order, from `from` on.
pub open spec fn paced(history: Seq<Event>, steps: Seq<StepView>, at: int, from: int) -> bool {
    exists|w: Seq<int>| fits(history, steps, at, from, w)
}

/// A plan that goes on keeps the order of its steps.
pub proof fn lemma_pace(history: Seq<Event>, run: PlanRunView, reply: ReplyView, from: int)
    requires
        run.wf(),
        0 <= from <= history.len(),
        paced(history, run.steps, run.at, from),
    ensures
        match run.next(reply) {
            Course::Ask(next) => next.steps == run.steps && next.wf() && paced(
                history.push((run.op(), reply)),
                run.steps,
                next.at,
                from,
            ),
            Course::Ended(Ok(_)) => paced(
                history.push((run.op(), reply)),
                run.steps,
                run.steps.len() as int,
                from,
            ),
            Course::Ended(Err(_)) => true,
        },
{
    let steps = run.steps;
    let at = run.at;
    let longer = history.push((run.op(), reply));
    let w = choose|w: Seq<int>| fits(history, steps, at, from, w);
    let bound = match run.next(reply) {
        Course::Ask(next) => next.at,
        Course::Ended(_) => steps.len() as int,
    };
    let n = history.len() as int;
    let v = Seq::new(
        bound as nat,
        |i: int|
            if i < at {
                w[i]
            } else {
                n
            },
    );
    if !(run.next(reply) matches Course::Ended(Err(_))) {
        assert forall|i: int|
            0 <= i < bound && i < steps.len() && #[trigger] unskippable(steps, i) implies {
            &&& from <= v[i] < longer.len()
            &&& longer[v[i]].0 == steps[i].op
            &&& steps[i].on_failure is Ignore || longer[v[i]].1 is Done
        } by {
            if i < at {
                assert(longer[w[i]] == history[w[i]]);
            } else if i > at {
                assert(at + 1 + steps[at].skip <= i);
            }
        }
        assert forall|i: int, j: int|
            0 <= i < j < bound && j < steps.len() && #[trigger] unskippable(steps, i)
                && #[trigger] unskippable(steps, j) implies v[i] < v[j] by {
            if j > at {
                assert(at + 1 + steps[at].skip <= j);
            }
        }
        assert(fits(longer, steps, bound, from, v));
    }
}

/// A plan that begins has taken no step.
pub proof fn lemma_pace_begins(history: Seq<Event>, steps: Seq<StepView>, from: int)
    ensures
        paced(history, steps, 0, from),
{
    assert(fits(history, steps, 0, from, Seq::empty()));
}

/// What was done stays done, whatever follows.
pub proof fn lemma_pace_stays(
    history: Seq<Event>,
    event: Event,
    steps: Seq<StepView>,
    at: int,
    from: int,
)
    requires
        0 <= from,
    ensures
        paced(history, steps, at, from) ==> paced(history.push(event), steps, at, from),
{
    if paced(history, steps, at, from) {
        let longer = history.push(event);
        let w = choose|w: Seq<int>| fits(history, steps, at, from, w);
        assert forall|i: int|
            0 <= i < at && i < steps.len() && #[trigger] unskippable(steps, i) implies {
            &&& from <= w[i] < longer.len()
            &&& longer[w[i]].0 == steps[i].op
            &&& steps[i].on_failure is Ignore || longer[w[i]].1 is Done
        } by {
            assert(longer[w[i]] == history[w[i]]);
        }
        assert(fits(longer, steps, at, from, w));
    }
}

/// Steps of a plan that were all taken, and must be done, were done in their order.
pub proof fn lemma_done_in_order(
    history: Seq<Event>,
    steps: Seq<StepView>,
    from: int,
    chosen: Seq<int>,
    ops: Seq<OpView>,
)
    requires
        0 <= from,
        paced(history, steps, steps.len() as int, from),
        chosen.len() == ops.len(),
        forall|i: int|
            0 <= i < chosen.len() ==> {
                &&& 0 <= #[trigger] chosen[i] < steps.len()
                &&& unskippable(steps, chosen[i])
                &&& !(steps[chosen[i]].on_failure is Ignore)
                &&& steps[chosen[i]].op == ops[i]
            },
        forall|i: int, j: int| 0 <= i < j < chosen.len() ==> chosen[i] < chosen[j],
    ensures
        done_in_order(history, ops),
{
    let w = choose|w: Seq<int>| fits(history, steps, steps.len() as int, from, w);
    let v = Seq::new(chosen.len(), |i: int| w[chosen[i]]);
    assert forall|i: int| 0 <= i < v.len() implies 0 <= #[trigger] v[i] < history.len()
        && history[v[i]].0 == ops[i] && history[v[i]].1 is Done by {
        assert(unskippable(steps, chosen[i]));
    }
    assert forall|i: int, j: int| 0 <= i < j < v.len() implies v[i] < v[j] by {
        assert(unskippable(steps, chosen[i]) && unskippable(steps, chosen[j]));
    }
    assert(places(history, ops, v));
}

/// Steps of a plan that were all taken after the operation `first` was done at `k`, and
/// must be done, were done in their order after it.
pub proof fn lemma_done_after(
    history: Seq<Event>,
    k: int,
    first: OpView,
    steps: Seq<StepView>,
    chosen: Seq<int>,
    ops: Seq<OpView>,
)
    requires
        0 <= k < history.len(),
        history[k] == (first, ReplyView::Done),
        paced(history, steps, steps.len() as int, k + 1),
        chosen.len() == ops.len(),
        forall|i: int|
            0 <= i < chosen.len() ==> {
                &&& 0 <= #[trigger] chosen[i] < steps.len()
                &&& unskippable(steps, chosen[i])
                &&& !(steps[chosen[i]].on_failure is Ignore)
                &&& steps[chosen[i]].op == ops[i]
            },
        forall|i: int, j: int| 0 <= i < j < chosen.len() ==> chosen[i] < chosen[j],
    ensures
        done_in_order(history, seq![first] + ops),
{
    let from = k + 1;
    let w = choose|w: Seq<int>| fits(history, steps, steps.len() as int, from, w);
    let v = Seq::new(
        chosen.len() + 1,
        |i: int|
            if i == 0 {
                k
            } else {
                w[chosen[i - 1]]
            },
    );
    let all = seq![first] + ops;
    assert forall|i: int| 0 <= i < v.len() implies 0 <= #[trigger] v[i] < history.len()
        && history[v[i]].0 == all[i] && history[v[i]].1 is Done by {
        if i > 0 {
            let c = chosen[i - 1];
            assert(unskippable(steps, c));
            assert(all[i] == ops[i - 1]);
        }
    }
    assert forall|i: int, j: int| 0 <= i < j < v.len() implies v[i] < v[j] by {
        let d = chosen[j - 1];
        assert(unskippable(steps, d));
        if i > 0 {
            let c = chosen[i - 1];
            assert(unskippable(steps, c));
        }
    }
    assert(places(history, all, v));
}

// The middle process and the container process.

/// The namespaces that a container gets of its own.
pub open spec fn own_namespaces() -> OpView {
    OpView::Unshare(
        seq![Namespace::Pid, Namespace::Mount, Namespace::Uts, Namespace::Ipc, Namespace::Net],
    )
}

spec fn middle_paced(
    cfg: ContainerConfigView,
    course: MiddleCourse,
    history: Seq<Event>,
) -> bool {
    course matches MiddleCourse::Ask(m) ==> {
        &&& m.cfg == cfg
        &&& m.wf()
        &&& match m.stage {
            MiddleStageView::Part(run) => run.steps == part_steps() && run.at == history.len(),
            MiddleStageView::Unshare(op) => op == own_namespaces() && history.len() == 2,
            MiddleStageView::Fork(op) => {
                &&& op is Fork
                &&& history.len() == 3
                &&& history[2] == (own_namespaces(), ReplyView::Done)
            },
            MiddleStageView::Setup(run) => {
                &&& run.steps == child_steps(cfg)
                &&& history.len() >= 4
                &&& history[2] == (own_namespaces(), ReplyView::Done)
                &&& history[3] == (OpView::Fork, ReplyView::Child)
                &&& paced(history, run.steps, run.at, 4)
            },
            MiddleStageView::Exec(op) => {
                &&& op == OpView::Exec { command: cfg.command, env: cfg.env }
                &&& history.len() >= 4
                &&& history[2] == (own_namespaces(), ReplyView::Done)
                &&& history[3] == (OpView::Fork, ReplyView::Child)
                &&& paced(history, child_steps(cfg), child_steps(cfg).len() as int, 4)
            },
            MiddleStageView::Report { op, pid } => op == OpView::SendPid(pid),
            MiddleStageView::Wait(op) => op is Wait,
            MiddleStageView::Complain { op, .. } => op is Complain,
        }
    }
}

proof fn lemma_middle_step(
    cfg: ContainerConfigView,
    m: MiddleView,
    history: Seq<Event>,
    reply: ReplyView,
)
    requires
        middle_paced(cfg, MiddleCourse::Ask(m), history),
    ensures
        middle_paced(cfg, m.next(reply), history.push((m.op(), reply))),
{
    let longer = history.push((m.op(), reply));
    if history.len() > 3 {
        assert(longer[2] == history[2] && longer[3] == history[3]);
    }
    match m.stage {
        MiddleStageView::Fork(_) => {
            assert(longer[2] == history[2]);
            lemma_pace_begins(longer, child_steps(cfg), 4);
            assert(child_steps(cfg).len() > 0);
        },
        MiddleStageView::Setup(run) => {
            lemma_pace(history, run, reply, 4);
        },
        _ => {},
    }
}

proof fn lemma_middle_paced(cfg: ContainerConfigView, answers: spec_fn(int) -> ReplyView, n: nat)
    ensures
        middle_paced(cfg, middle_run(cfg, answers, n).0, middle_run(cfg, answers, n).1),
    decreases n,
{
    if n > 0 {
        lemma_middle_paced(cfg, answers, (n - 1) as nat);
        let before = middle_run(cfg, answers, (n - 1) as nat);
        if let MiddleCourse::Ask(m) = before.0 {
            lemma_middle_step(cfg, m, before.1, answers(n - 1));
        }
    }
}

/// What is done before the command of a container runs, in this order.
pub open spec fn entry(cfg: ContainerConfigView) -> Seq<OpView> {
    seq![
        OpView::Unshare(
            seq![
                Namespace::Pid,
                Namespace::Mount,
                Namespace::Uts,
                Namespace::Ipc,
                Namespace::Net,
            ],
        ),
        OpView::AwaitRelease,
        OpView::SetHostname(cfg.hostname),
        OpView::Mount { source: None, target: "/"@, fstype: None, kind: MountKind::Private },
        OpView::Mount {
            source: Some(cfg.rootfs),
            target: cfg.rootfs,
            fstype: None,
            kind: MountKind::Bind,
        },
        OpView::ChangeDir(cfg.rootfs),
        OpView::MakeDirs(".oldroot"@),
        OpView::PivotRoot { new_root: "."@, put_old: ".oldroot"@ },
        OpView::ChangeDir("/"@),
        OpView::Detach("/.oldroot"@),
        OpView::Mount {
            source: Some("proc"@),
            target: "/proc"@,
            fstype: Some("proc"@),
            kind: MountKind::Plain,
        },
        OpView::ChangeDir("/"@),
    ]
}

/// The place of the operation at position `i` of [`entry`] in the setup of a container
/// process.
spec fn entry_at(cfg: ContainerConfigView, i: int) -> int {
    if i == 1 {
        1
    } else if i == 2 {
        2
    } else if i <= 9 {
        root_at(cfg) + i - 3
    } else if i == 10 {
        root_at(cfg) + 9
    } else {
        root_at(cfg) + 19
    }
}

proof fn lemma_entry_step(cfg: ContainerConfigView, i: int)
    requires
        1 <= i < 12,
    ensures
        ({
            let at = entry_at(cfg, i);
            &&& 0 <= at < child_steps(cfg).len()
            &&& unskippable(child_steps(cfg), at)
            &&& child_steps(cfg)[at].op == entry(cfg)[i]
            &&& !(child_steps(cfg)[at].on_failure is Ignore)
        }),
{
    let all = child_steps(cfg);
    let r = rootfs_steps(cfg.rootfs);
    let at = entry_at(cfg, i);
    lemma_shape(cfg);
    law_only_fallbacks_saved(cfg, at);
    assert(all[1] == grandchild_steps(cfg)[0]);
    if i > 2 {
        let j = at - root_at(cfg);
        assert(all[root_at(cfg) + j] == moving_steps(cfg)[j]);
        if j < 19 {
            assert(moving_steps(cfg)[j] == r[j]);
        }
    }
}

/// Where the command of a container runs, it was put into namespaces of its own, waited
/// for its release and got its hostname; then the mounts of the host were parted from its
/// own, the configured root file system was bound onto itself and entered, and made the
/// root; the old root was left and detached, and /proc mounted. All of this was done, in
/// this order.
pub proof fn law_entered_in_order(
    cfg: ContainerConfigView,
    answers: spec_fn(int) -> ReplyView,
    n: nat,
)
    requires
        middle_run(cfg, answers, n).0 matches MiddleCourse::Ask(m) && m.op() is Exec,
    ensures
        done_in_order(middle_run(cfg, answers, n).1, entry(cfg)),
{
    lemma_exec_stage(cfg, answers, n);
    let history = middle_run(cfg, answers, n).1;
    let steps = child_steps(cfg);
    let w = choose|w: Seq<int>| fits(history, steps, steps.len() as int, 4, w);
    let v = Seq::new(
        12,
        |i: int|
            if i == 0 {
                2
            } else {
                w[entry_at(cfg, i)]
            },
    );
    assert forall|i: int| 0 <= i < 12 implies 0 <= #[trigger] v[i] < history.len()
        && history[v[i]].0 == entry(cfg)[i] && history[v[i]].1 is Done by {
        if i > 0 {
            lemma_entry_step(cfg, i);
        }
    }
    assert forall|i: int, j: int| 0 <= i < j < 12 implies v[i] < v[j] by {
        lemma_entry_step(cfg, j);
        if i > 0 {
            lemma_entry_step(cfg, i);
            assert(entry_at(cfg, i) < entry_at(cfg, j));
        }
    }
    assert(places(history, entry(cfg), v));
}

proof fn lemma_exec_stage(cfg: ContainerConfigView, answers: spec_fn(int) -> ReplyView, n: nat)
    requires
        middle_run(cfg, answers, n).0 matches MiddleCourse::Ask(m) && m.op() is Exec,
    ensures
        middle_run(cfg, answers, n).0->Ask_0.stage is Exec,
        middle_paced(cfg, middle_run(cfg, answers, n).0, middle_run(cfg, answers, n).1),
{
    lemma_middle_paced(cfg, answers, n);
    let m = middle_run(cfg, answers, n).0->Ask_0;
    match m.stage {
        MiddleStageView::Part(run) => {
            assert(run.steps[run.at].op is Close);
        },
        MiddleStageView::Setup(run) => {
            lemma_child_op(cfg, run.at);
        },
        _ => {},
    }
}

/// The directory of the host that became the root of a container is the configured one:
/// it was bound onto itself, entered, and then made the root.
pub proof fn law_root_is_the_rootfs(
    cfg: ContainerConfigView,
    answers: spec_fn(int) -> ReplyView,
    n: nat,
)
    requires
        middle_run(cfg, answers, n).0 matches MiddleCourse::Ask(m) && m.op() is Exec,
    ensures
        ({
            let history = middle_run(cfg, answers, n).1;
            exists|a: int, b: int, c: int|
                {
                    &&& 0 <= a < b < c < history.len()
                    &&& #[trigger] history[a] == (
                        OpView::Mount {
                            source: Some(cfg.rootfs),
                            target: cfg.rootfs,
                            fstype: None,
                            kind: MountKind::Bind,
                        },
                        ReplyView::Done,
                    )
                    &&& #[trigger] history[b] == (OpView::ChangeDir(cfg.rootfs), ReplyView::Done)
                    &&& #[trigger] history[c] == (
                        OpView::PivotRoot { new_root: "."@, put_old: ".oldroot"@ },
                        ReplyView::Done,
                    )
                }
        }),
{
    law_entered_in_order(cfg, answers, n);
    let history = middle_run(cfg, answers, n).1;
    let w = choose|w: Seq<int>| places(history, entry(cfg), w);
    let (a, b, c) = (w[4], w[5], w[7]);
    assert(entry(cfg).len() == 12);
    assert(history[a].0 == entry(cfg)[4]);
    assert(history[b].0 == entry(cfg)[5]);
    assert(history[c].0 == entry(cfg)[7]);
    assert(0 <= a < b < c < history.len());
}

/// Every volume of a container was mounted, from its path on the host onto its path below
/// the root file system, when the container was released and before it moved into that
/// root.
pub proof fn law_volumes_before_the_move(
    cfg: ContainerConfigView,
    answers: spec_fn(int) -> ReplyView,
    n: nat,
    k: int,
)
    requires
        middle_run(cfg, answers, n).0 matches MiddleCourse::Ask(m) && m.op() is Exec,
        0 <= k < cfg.volumes.len(),
    ensures
        ({
            let target = volume_target(cfg.rootfs, cfg.volumes[k].container_path);
            done_in_order(
                middle_run(cfg, answers, n).1,
                seq![
                    OpView::AwaitRelease,
                    OpView::MakeDirs(target),
                    OpView::Mount {
                        source: Some(cfg.volumes[k].host_path),
                        target,
                        fstype: None,
                        kind: MountKind::Bind,
                    },
                    OpView::PivotRoot { new_root: "."@, put_old: ".oldroot"@ },
                ],
            )
        }),
{
    lemma_exec_stage(cfg, answers, n);
    let history = middle_run(cfg, answers, n).1;
    let steps = child_steps(cfg);
    let target = volume_target(cfg.rootfs, cfg.volumes[k].container_path);
    let ops = seq![
        OpView::AwaitRelease,
        OpView::MakeDirs(target),
        OpView::Mount {
            source: Some(cfg.volumes[k].host_path),
            target,
            fstype: None,
            kind: MountKind::Bind,
        },
        OpView::PivotRoot { new_root: "."@, put_old: ".oldroot"@ },
    ];
    let w = choose|w: Seq<int>| fits(history, steps, steps.len() as int, 4, w);
    lemma_shape(cfg);
    law_volumes_closed(cfg.rootfs, cfg.volumes);
    lemma_volume_dir(cfg.rootfs, cfg.volumes, k);
    let i = 3 + 2 * k;
    lemma_entry_step(cfg, 1);
    lemma_entry_step(cfg, 7);
    law_only_fallbacks_saved(cfg, i);
    law_only_fallbacks_saved(cfg, i + 1);
    assert(steps[3 + 2 * k] == volumes_steps(cfg.rootfs, cfg.volumes)[2 * k]);
    assert(steps[3 + (2 * k + 1)] == volumes_steps(cfg.rootfs, cfg.volumes)[2 * k + 1]);
    let at = entry_at(cfg, 7);
    assert(1 < i < i + 1 < at);
    let v = seq![w[1], w[i], w[i + 1], w[at]];
    assert(unskippable(steps, 1) && unskippable(steps, i) && unskippable(steps, i + 1)
        && unskippable(steps, at));
    assert(entry(cfg)[1] is AwaitRelease);
    assert(w[1] < w[i] < w[i + 1] < w[at]);
    assert(places(history, ops, v));
}

proof fn lemma_volume_dir(rootfs: Seq<char>, list: Seq<crate::config::VolumeView>, k: int)
    requires
        0 <= k < list.len(),
    ensures
        volumes_steps(rootfs, list)[2 * k].op == OpView::MakeDirs(
            volume_target(rootfs, list[k].container_path),
        ),
    decreases list.len(),
{
    law_volumes_closed(rootfs, list);
    law_volumes_closed(rootfs, list.drop_last());
    let less = volumes_steps(rootfs, list.drop_last());
    let own = crate::rootfs::volume_steps(rootfs, list.last());
    assert(volumes_steps(rootfs, list) == less + own);
    if k < list.len() - 1 {
        lemma_volume_dir(rootfs, list.drop_last(), k);
        assert(volumes_steps(rootfs, list)[2 * k] == less[2 * k]);
    } else {
        assert(volumes_steps(rootfs, list)[2 * k] == own[0]);
    }
}

/// If the configuration asks for it, every dangerous capability leaves the bounding, the
/// ambient, the effective and the permitted set, or is seen not to be there, once the
/// container has moved into its root; then the inheritable set is cleared, and the
/// filter is installed last.
pub proof fn law_hardened_at_last(
    cfg: ContainerConfigView,
    answers: spec_fn(int) -> ReplyView,
    n: nat,
    set: CapSet,
    capability: Capability,
)
    requires
        middle_run(cfg, answers, n).0 matches MiddleCourse::Ask(m) && m.op() is Exec,
    ensures
        ({
            let history = middle_run(cfg, answers, n).1;
            let moved = OpView::PivotRoot { new_root: "."@, put_old: ".oldroot"@ };
            let dropped = OpView::DropCapability { set, capability };
            let lacking = OpView::LacksCapability { set, capability };
            let cleared = OpView::ClearCapabilities(CapSet::Inheritable);
            &&& cfg.drop_caps ==> done_in_order(history, seq![moved, cleared])
            &&& cfg.drop_caps && !(set is Inheritable) ==> {
                ||| done_in_order(history, seq![dropped])
                ||| done_in_order(history, seq![lacking])
            }
            &&& cfg.seccomp ==> done_in_order(history, seq![moved, OpView::InstallFilter])
            &&& cfg.seccomp && cfg.drop_caps ==> done_in_order(
                history,
                seq![moved, cleared, OpView::InstallFilter],
            )
        }),
{
    lemma_exec_stage(cfg, answers, n);
    let history = middle_run(cfg, answers, n).1;
    let steps = child_steps(cfg);
    let h = hardening_steps(cfg);
    let from = hardening_at(cfg);
    let moved = OpView::PivotRoot { new_root: "."@, put_old: ".oldroot"@ };
    let cleared = OpView::ClearCapabilities(CapSet::Inheritable);
    let w = choose|w: Seq<int>| fits(history, steps, steps.len() as int, 4, w);
    lemma_shape(cfg);
    lemma_entry_step(cfg, 7);
    let a = entry_at(cfg, 7);
    assert(entry(cfg)[7] == moved);
    assert(unskippable(steps, a));
    if cfg.drop_caps {
        law_every_set(0, 0);
        law_only_fallbacks_saved(cfg, from + 72);
        assert(steps[from + 72] == h[72]);
        assert(h[72] == drop_plan()[72]);
        assert(unskippable(steps, from + 72));
        assert(places(history, seq![moved, cleared], seq![w[a], w[from + 72]]));
        if !(set is Inheritable) {
            lemma_capability_gone(cfg, answers, n, set, capability);
        }
    }
    if cfg.seccomp {
        let last = h.len() - 1;
        law_only_fallbacks_saved(cfg, from + last);
        assert(steps[from + last] == h[last]);
        assert(h[last].op is InstallFilter);
        assert(unskippable(steps, from + last));
        assert(places(history, seq![moved, OpView::InstallFilter], seq![w[a], w[from + last]]));
        if cfg.drop_caps {
            assert(last == 73);
            assert(places(
                history,
                seq![moved, cleared, OpView::InstallFilter],
                seq![w[a], w[from + 72], w[from + last]],
            ));
        }
    }
}

/// Where `capability` stands in the list of those that are dropped.
spec fn rank(capability: Capability) -> int {
    match capability {
        Capability::SysAdmin => 0,
        Capability::SysModule => 1,
        Capability::SysRawio => 2,
        Capability::SysBoot => 3,
        Capability::SysTime => 4,
        Capability::NetAdmin => 5,
        Capability::NetRaw => 6,
        Capability::Mknod => 7,
        Capability::SysPtrace => 8,
    }
}

proof fn lemma_capability_gone(
    cfg: ContainerConfigView,
    answers: spec_fn(int) -> ReplyView,
    n: nat,
    set: CapSet,
    capability: Capability,
)
    requires
        middle_run(cfg, answers, n).0 matches MiddleCourse::Ask(m) && m.stage is Exec,
        cfg.drop_caps,
        !(set is Inheritable),
    ensures
        ({
            let history = middle_run(cfg, answers, n).1;
            ||| done_in_order(history, seq![OpView::DropCapability { set, capability }])
            ||| done_in_order(history, seq![OpView::LacksCapability { set, capability }])
        }),
{
    crate::guarantees::law_isolated(cfg, answers, n);
    let history = middle_run(cfg, answers, n).1;
    let c = crate::capabilities::dangerous()[rank(capability)];
    assert(c == capability);
    assert(crate::guarantees::gone(history, set, capability));
    let dropped = drop_step(set, capability).op;
    let lacking = check_step(set, capability).op;
    if crate::guarantees::did(history, dropped) {
        let k = choose|k: int|
            0 <= k < history.len() && (#[trigger] history[k]).0 == dropped && history[k].1 is Done;
        assert(places(history, seq![dropped], seq![k]));
    } else {
        let k = choose|k: int|
            0 <= k < history.len() && (#[trigger] history[k]).0 == lacking && history[k].1 is Done;
        assert(places(history, seq![lacking], seq![k]));
    }
}

// Nothing else is done.

/// Whether the process between the runtime and the container `cfg`, or the container
/// process, has reason to ask for `op`.
pub open spec fn of_the_setup(cfg: ContainerConfigView, op: OpView) -> bool {
    match op {
        OpView::Close { pipe, end } => !(pipe is Release && end is Read),
        OpView::Unshare(list) => list == seq![
            Namespace::Pid,
            Namespace::Mount,
            Namespace::Uts,
            Namespace::Ipc,
            Namespace::Net,
        ],
        OpView::Fork => true,
        OpView::SendPid(_) => true,
        OpView::Wait(_) => true,
        OpView::Complain(_) => true,
        OpView::AwaitRelease => true,
        OpView::SetHostname(name) => name == cfg.hostname,
        OpView::MakeDirs(path) => {
            ||| path == ".oldroot"@ || path == "/proc"@ || path == "/dev"@
            ||| exists|k: int|
                0 <= k < cfg.volumes.len() && path == volume_target(
                    cfg.rootfs,
                    (#[trigger] cfg.volumes[k]).container_path,
                )
        },
        OpView::Mount { source, target, fstype, kind } => {
            ||| source is None && target == "/"@ && fstype is None && kind is Private
            ||| source == Some(cfg.rootfs) && target == cfg.rootfs && fstype is None && kind is Bind
            ||| source == Some("proc"@) && target == "/proc"@ && fstype == Some("proc"@)
                && kind is Plain
            ||| source == Some("devtmpfs"@) && target == "/dev"@ && fstype == Some("devtmpfs"@)
                && kind is Plain
            ||| source == Some("tmpfs"@) && target == "/dev"@ && fstype == Some("tmpfs"@)
                && kind is Plain
            ||| exists|k: int|
                0 <= k < cfg.volumes.len() && source == Some(
                    (#[trigger] cfg.volumes[k]).host_path,
                ) && target == volume_target(cfg.rootfs, cfg.volumes[k].container_path)
                    && fstype is None && kind is Bind
        },
        OpView::ChangeDir(path) => path == cfg.rootfs || path == "/"@,
        OpView::PivotRoot { new_root, put_old } => new_root == "."@ && put_old == ".oldroot"@,
        OpView::Detach(path) => path == "/.oldroot"@,
        OpView::RemoveDir(path) => path == "/.oldroot"@,
        OpView::MakeDevice { path, dev, mode } => {
            &&& mode == 438
            &&& {
                ||| path == "/dev/null"@ && dev == 259
                ||| path == "/dev/zero"@ && dev == 261
                ||| path == "/dev/full"@ && dev == 263
                ||| path == "/dev/random"@ && dev == 264
                ||| path == "/dev/urandom"@ && dev == 265
                ||| path == "/dev/tty"@ && dev == 1280
            }
        },
        OpView::DropCapability { .. } => cfg.drop_caps,
        OpView::LacksCapability { .. } => cfg.drop_caps,
        OpView::ClearCapabilities(set) => cfg.drop_caps && set is Inheritable,
        OpView::InstallFilter => cfg.seccomp,
        OpView::Exec { command, env } => command == cfg.command && env == cfg.env,
        _ => false,
    }
}

proof fn lemma_rootfs_op(cfg: ContainerConfigView, i: int)
    requires
        0 <= i < 19,
    ensures
        of_the_setup(cfg, rootfs_steps(cfg.rootfs)[i].op),
        !(rootfs_steps(cfg.rootfs)[i].op is Exec),
{
    crate::rootfs::law_small_device(1, 3);
    crate::rootfs::law_small_device(1, 5);
    crate::rootfs::law_small_device(1, 7);
    crate::rootfs::law_small_device(1, 8);
    crate::rootfs::law_small_device(1, 9);
    crate::rootfs::law_small_device(5, 0);
}

proof fn lemma_child_op(cfg: ContainerConfigView, i: int)
    requires
        0 <= i < child_steps(cfg).len(),
    ensures
        of_the_setup(cfg, child_steps(cfg)[i].op),
        !(child_steps(cfg)[i].op is Exec),
{
    lemma_shape(cfg);
    law_volumes_closed(cfg.rootfs, cfg.volumes);
    let all = child_steps(cfg);
    let at = root_at(cfg);
    let from = hardening_at(cfg);
    if i < 3 {
        assert(all[0] == close_step(Pipe::Pid, PipeEnd::Write));
    } else if i < at {
        let j = i - 3;
        assert(all[3 + j] == volumes_steps(cfg.rootfs, cfg.volumes)[j]);
        let k = j / 2;
        lemma_volume_dir(cfg.rootfs, cfg.volumes, k);
        assert(j == 2 * k || j == 2 * k + 1);
        assert(0 <= k < cfg.volumes.len());
        let v = cfg.volumes[k];
        assert(v == cfg.volumes[k]);
    } else if i < from {
        let j = i - at;
        assert(all[at + j] == moving_steps(cfg)[j]);
        if j < 19 {
            assert(moving_steps(cfg)[j] == rootfs_steps(cfg.rootfs)[j]);
            lemma_rootfs_op(cfg, j);
        }
    } else {
        let j = i - from;
        let h = hardening_steps(cfg);
        assert(all[from + j] == h[j]);
        if cfg.drop_caps {
            law_every_set(0, 0);
            if j < 73 {
                assert(h[j] == drop_plan()[j]);
            }
            if j < 72 {
                law_drops_and_looks(j);
            }
        }
    }
}

/// Neither the process between the runtime and a container nor the container process
/// asks for anything but what its configuration calls for; and what is run is the
/// command of the configuration, in its environment.
pub proof fn law_nothing_but_the_setup(
    cfg: ContainerConfigView,
    answers: spec_fn(int) -> ReplyView,
    n: nat,
)
    ensures
        middle_run(cfg, answers, n).0 matches MiddleCourse::Ask(m) ==> of_the_setup(cfg, m.op()),
{
    lemma_middle_paced(cfg, answers, n);
    if let MiddleCourse::Ask(m) = middle_run(cfg, answers, n).0 {
        match m.stage {
            MiddleStageView::Part(run) => {
                assert(run.steps[0].op == (OpView::Close {
                    pipe: Pipe::Release,
                    end: PipeEnd::Write,
                }));
            },
            MiddleStageView::Setup(run) => {
                lemma_child_op(cfg, run.at);
            },
            _ => {},
        }
    }
}

// The command is reached.

proof fn lemma_setup_goes_through(
    cfg: ContainerConfigView,
    answers: spec_fn(int) -> ReplyView,
    n: nat,
    m: MiddleView,
)
    requires
        middle_run(cfg, answers, n).0 == MiddleCourse::Ask(m),
        m.cfg == cfg,
        m.wf(),
        m.stage is Setup,
        forall|i: int| i >= n ==> (#[trigger] answers(i)) is Done,
        !(cfg.command.len() > 0 && cfg.command[0].contains('\0')),
    ensures
        exists|k: nat|
            (#[trigger] middle_run(cfg, answers, k)).0 matches MiddleCourse::Ask(x) && x.op()
                == (OpView::Exec { command: cfg.command, env: cfg.env }),
    decreases m.stage->Setup_0.steps.len() - m.stage->Setup_0.at,
{
    let run = m.stage->Setup_0;
    let i = n as int;
    assert(answers(i) is Done);
    assert(middle_run(cfg, answers, n + 1).0 == m.next(answers(i)));
    if let MiddleCourse::Ask(x) = m.next(answers(i)) {
        if x.stage is Setup {
            lemma_setup_goes_through(cfg, answers, n + 1, x);
        } else {
            assert(x.op() == (OpView::Exec { command: cfg.command, env: cfg.env }));
        }
    }
}

/// Where the host does all that it is asked, and the container process is the new one,
/// its command is run, in the environment of its configuration.
pub proof fn law_command_is_run(cfg: ContainerConfigView, answers: spec_fn(int) -> ReplyView)
    requires
        answers(3) is Child,
        forall|i: int| i != 3 ==> (#[trigger] answers(i)) is Done,
        !(cfg.command.len() > 0 && cfg.command[0].contains('\0')),
    ensures
        exists|k: nat|
            (#[trigger] middle_run(cfg, answers, k)).0 matches MiddleCourse::Ask(x) && x.op()
                == (OpView::Exec { command: cfg.command, env: cfg.env }),
{
    reveal_with_fuel(middle_run, 5);
    assert(answers(0) is Done && answers(1) is Done && answers(2) is Done);
    let there = middle_run(cfg, answers, 4).0;
    assert(there == MiddleView::start(cfg).setting_up(crate::plan::place(child_steps(cfg), 0)));
    lemma_setup_goes_through(cfg, answers, 4, there->Ask_0);
}

/// The process between the runtime and the container tells the runtime the pid that it
/// got from the fork, waits for that process, and exits as it did: with its code, or with
/// 128 and the signal that ended it.
pub proof fn law_between(
    cfg: ContainerConfigView,
    answers: spec_fn(int) -> ReplyView,
    pid: i32,
)
    requires
        answers(2) is Done,
        answers(3) == ReplyView::Pid(pid),
    ensures
        middle_run(cfg, answers, 4).0 matches MiddleCourse::Ask(m) && m.op() == OpView::SendPid(
            pid,
        ),
        middle_run(cfg, answers, 5).0 matches MiddleCourse::Ask(m) && m.op() == OpView::Wait(pid),
        middle_run(cfg, answers, 6).0 == MiddleCourse::Exit(
            match answers(5) {
                ReplyView::Status(WaitStatus::Exited(code)) => code,
                ReplyView::Status(WaitStatus::Signaled(signal)) => (128 + signal) as i32,
                _ => 1,
            },
        ),
{
    reveal_with_fuel(middle_run, 7);
}

/// A container that cannot be set apart from the host, or cannot be forked, is told of
/// with the reason, and the process exits with 127.
pub proof fn law_not_apart(cfg: ContainerConfigView, answers: spec_fn(int) -> ReplyView)
    ensures
        !(answers(2) is Done) ==> {
            &&& middle_run(cfg, answers, 3).0 matches MiddleCourse::Ask(m) && m.op()
                == OpView::Complain("mincontainer: unshare failed: "@ + answers(2).reason())
            &&& middle_run(cfg, answers, 4).0 == MiddleCourse::Exit(127)
        },
        answers(2) is Done && !(answers(3) is Pid) && !(answers(3) is Child) ==> {
            &&& middle_run(cfg, answers, 4).0 matches MiddleCourse::Ask(m) && m.op()
                == OpView::Complain("mincontainer: fork failed: "@ + answers(3).reason())
            &&& middle_run(cfg, answers, 5).0 == MiddleCourse::Exit(127)
        },
{
    reveal_with_fuel(middle_run, 6);
}

/// A container process whose command cannot be run tells why and exits with 127.
pub proof fn law_exec_failure_is_told(
    cfg: ContainerConfigView,
    answers: spec_fn(int) -> ReplyView,
    n: nat,
)
    requires
        middle_run(cfg, answers, n).0 matches MiddleCourse::Ask(m) && m.op() is Exec,
    ensures
        middle_run(cfg, answers, n + 1).0 matches MiddleCourse::Ask(m) && m.op()
            == OpView::Complain(
            "mincontainer: container setup failed: "@ + ("syscall "@ + "execvpe"@ + " failed: "@
                + answers(n as int).reason()),
        ),
        middle_run(cfg, answers, n + 2).0 == MiddleCourse::Exit(127),
{
    reveal_with_fuel(middle_run, 3);
    lemma_exec_stage(cfg, answers, n);
}

/// Whether the process tells at `n` that the setup of the container failed for the reason
/// `why`, and then exits with 127.
pub open spec fn gives_up(
    cfg: ContainerConfigView,
    answers: spec_fn(int) -> ReplyView,
    n: nat,
    why: Seq<char>,
) -> bool {
    &&& middle_run(cfg, answers, n).0 matches MiddleCourse::Ask(m) && m.op() == OpView::Complain(
        "mincontainer: container setup failed: "@ + why,
    )
    &&& middle_run(cfg, answers, n + 1).0 == MiddleCourse::Exit(127)
}

/// What is told when the operation of the setup that is asked for now fails with `why`:
/// the container does not go on without it, and the words name it.
pub proof fn law_each_failure_is_named(
    cfg: ContainerConfigView,
    answers: spec_fn(int) -> ReplyView,
    n: nat,
    why: Seq<char>,
)
    requires
        middle_run(cfg, answers, n).0 is Ask,
        n >= 4,
        answers(n as int) == ReplyView::Failed(why),
    ensures
        ({
            let next = n + 1;
            match middle_run(cfg, answers, n).0->Ask_0.op() {
                OpView::AwaitRelease => gives_up(cfg, answers, next, "io error: "@ + why),
                OpView::SetHostname(_) => gives_up(
                    cfg,
                    answers,
                    next,
                    "syscall "@ + "sethostname"@ + " failed: "@ + why,
                ),
                OpView::MakeDirs(path) => {
                    ||| path == ".oldroot"@ && gives_up(
                        cfg,
                        answers,
                        next,
                        "filesystem error: "@ + ("mkdir .oldroot"@ + ": "@ + why),
                    )
                    ||| gives_up(
                        cfg,
                        answers,
                        next,
                        "filesystem error: "@ + ("mkdir "@ + path + ": "@ + why),
                    )
                    ||| path == "/proc"@ || path == "/dev"@
                },
                OpView::Mount { source, target, fstype, kind } => {
                    ||| kind is Private && gives_up(
                        cfg,
                        answers,
                        next,
                        "syscall "@ + "mount(/ private)"@ + " failed: "@ + why,
                    )
                    ||| kind is Bind && target == cfg.rootfs && gives_up(
                        cfg,
                        answers,
                        next,
                        "syscall "@ + "mount(bind rootfs)"@ + " failed: "@ + why,
                    )
                    ||| kind is Bind && gives_up(
                        cfg,
                        answers,
                        next,
                        "syscall "@ + "mount(volume bind)"@ + " failed: "@ + why,
                    )
                    ||| fstype == Some("proc"@) && gives_up(
                        cfg,
                        answers,
                        next,
                        "syscall "@ + "mount(/proc)"@ + " failed: "@ + why,
                    )
                    ||| fstype == Some("tmpfs"@) && gives_up(
                        cfg,
                        answers,
                        next,
                        "syscall "@ + "mount(/dev tmpfs)"@ + " failed: "@ + why,
                    )
                    ||| fstype == Some("devtmpfs"@) && {
                        &&& middle_run(cfg, answers, next).0 matches MiddleCourse::Ask(m)
                        &&& m.op() == OpView::Mount {
                            source: Some("tmpfs"@),
                            target: "/dev"@,
                            fstype: Some("tmpfs"@),
                            kind: MountKind::Plain,
                        }
                    }
                },
                OpView::ChangeDir(path) => {
                    ||| path == cfg.rootfs && gives_up(
                        cfg,
                        answers,
                        next,
                        "syscall "@ + "chdir(rootfs)"@ + " failed: "@ + why,
                    )
                    ||| path == "/"@ && gives_up(
                        cfg,
                        answers,
                        next,
                        "syscall "@ + "chdir(/) post-pivot"@ + " failed: "@ + why,
                    )
                    ||| path == "/"@ && gives_up(
                        cfg,
                        answers,
                        next,
                        "syscall "@ + "chdir(/)"@ + " failed: "@ + why,
                    )
                },
                OpView::PivotRoot { .. } => gives_up(
                    cfg,
                    answers,
                    next,
                    "syscall "@ + "pivot_root"@ + " failed: "@ + why,
                ),
                OpView::Detach(_) => gives_up(
                    cfg,
                    answers,
                    next,
                    "syscall "@ + "umount(.oldroot)"@ + " failed: "@ + why,
                ),
                OpView::LacksCapability { .. } => gives_up(
                    cfg,
                    answers,
                    next,
                    "config error: "@ + ("drop dangerous caps"@ + ": "@ + why),
                ),
                OpView::ClearCapabilities(_) => gives_up(
                    cfg,
                    answers,
                    next,
                    "config error: "@ + ("clear inheritable caps"@ + ": "@ + why),
                ),
                OpView::InstallFilter => gives_up(
                    cfg,
                    answers,
                    next,
                    "seccomp error: "@ + ("apply filter"@ + ": "@ + why),
                ),
                _ => true,
            }
        }),
{
    lemma_middle_paced(cfg, answers, n);
    let m = middle_run(cfg, answers, n).0->Ask_0;
    assert(middle_run(cfg, answers, n + 1).0 == m.next(answers(n as int)));
    if let MiddleStageView::Setup(run) = m.stage {
        lemma_named(cfg, run.at);
        let step = run.steps[run.at];
        if !(step.on_failure is Ignore) {
            let e = crate::plan::failure(step, answers(n as int));
            assert(m.next(answers(n as int)) == m.failed(e));
            assert(middle_run(cfg, answers, n + 2).0 == m.failed(e)->Ask_0.next(
                answers(n as int + 1),
            ));
            assert(gives_up(cfg, answers, n + 1, e.message()));
        } else if step.op matches OpView::Mount { .. } {
            assert(run.next(answers(n as int)) == crate::plan::place(run.steps, run.at + 1));
        }
    } else if let MiddleStageView::Part(run) = m.stage {
        assert(run.at < 2);
        lemma_history_length(cfg, answers, n);
    }
}

proof fn lemma_history_length(
    cfg: ContainerConfigView,
    answers: spec_fn(int) -> ReplyView,
    n: nat,
)
    ensures
        middle_run(cfg, answers, n).0 is Ask ==> middle_run(cfg, answers, n).1.len() == n,
    decreases n,
{
    if n > 0 {
        lemma_history_length(cfg, answers, (n - 1) as nat);
    }
}

/// What the step at `i` of the setup says of its failure.
proof fn lemma_named(cfg: ContainerConfigView, i: int)
    requires
        0 <= i < child_steps(cfg).len(),
    ensures
        ({
            let step = child_steps(cfg)[i];
            let f = step.on_failure;
            match step.op {
                OpView::AwaitRelease => f is Io,
                OpView::SetHostname(_) => f == OnFailureView::Syscall("sethostname"@),
                OpView::MakeDirs(path) => {
                    ||| path == ".oldroot"@ && f == OnFailureView::Filesystem("mkdir .oldroot"@)
                    ||| f == OnFailureView::Filesystem("mkdir "@ + path)
                    ||| path == "/proc"@ || path == "/dev"@
                },
                OpView::Mount { source, target, fstype, kind } => {
                    ||| kind is Private && f == OnFailureView::Syscall("mount(/ private)"@)
                    ||| kind is Bind && target == cfg.rootfs && f == OnFailureView::Syscall(
                        "mount(bind rootfs)"@,
                    )
                    ||| kind is Bind && f == OnFailureView::Syscall("mount(volume bind)"@)
                    ||| fstype == Some("proc"@) && f == OnFailureView::Syscall("mount(/proc)"@)
                    ||| fstype == Some("tmpfs"@) && f == OnFailureView::Syscall(
                        "mount(/dev tmpfs)"@,
                    )
                    ||| fstype == Some("devtmpfs"@) && f is Ignore && i + 1 < child_steps(
                        cfg,
                    ).len() && child_steps(cfg)[i + 1].op == OpView::Mount {
                        source: Some("tmpfs"@),
                        target: "/dev"@,
                        fstype: Some("tmpfs"@),
                        kind: MountKind::Plain,
                    }
                },
                OpView::ChangeDir(path) => {
                    ||| path == cfg.rootfs && f == OnFailureView::Syscall("chdir(rootfs)"@)
                    ||| path == "/"@ && f == OnFailureView::Syscall("chdir(/) post-pivot"@)
                    ||| path == "/"@ && f == OnFailureView::Syscall("chdir(/)"@)
                },
                OpView::PivotRoot { .. } => f == OnFailureView::Syscall("pivot_root"@),
                OpView::Detach(_) => f == OnFailureView::Syscall("umount(.oldroot)"@),
                OpView::LacksCapability { .. } => f == OnFailureView::Config(
                    "drop dangerous caps"@,
                ),
                OpView::ClearCapabilities(_) => f == OnFailureView::Config(
                    "clear inheritable caps"@,
                ),
                OpView::InstallFilter => f == OnFailureView::Seccomp("apply filter"@),
                _ => true,
            }
        }),
{
    lemma_shape(cfg);
    law_volumes_closed(cfg.rootfs, cfg.volumes);
    let all = child_steps(cfg);
    let at = root_at(cfg);
    let from = hardening_at(cfg);
    if i < 3 {
        assert(all[0] == close_step(Pipe::Pid, PipeEnd::Write));
    } else if i < at {
        let j = i - 3;
        assert(all[3 + j] == volumes_steps(cfg.rootfs, cfg.volumes)[j]);
        lemma_volume_step(cfg.rootfs, cfg.volumes, j);
    } else if i < from {
        let j = i - at;
        let r = rootfs_steps(cfg.rootfs);
        assert(all[at + j] == moving_steps(cfg)[j]);
        if j < 19 {
            assert(moving_steps(cfg)[j] == r[j]);
        }
        if j == 11 {
            assert(all[at + 12] == moving_steps(cfg)[12]);
            assert(moving_steps(cfg)[12] == r[12]);
        }
    } else {
        let j = i - from;
        let h = hardening_steps(cfg);
        assert(all[from + j] == h[j]);
        if cfg.drop_caps {
            law_every_set(0, 0);
            if j < 73 {
                assert(h[j] == drop_plan()[j]);
            }
            if j < 72 {
                law_drops_and_looks(j);
                lemma_looks(j);
            }
        }
    }
}

proof fn lemma_looks(i: int)
    requires
        0 <= i < 72,
    ensures
        drop_plan()[i].op is LacksCapability ==> drop_plan()[i].on_failure
            == OnFailureView::Config("drop dangerous caps"@),
        drop_plan()[i].op is DropCapability || drop_plan()[i].op is LacksCapability,
{
    let pair = i / 2;
    let k = pair / 4;
    let s = pair % 4;
    assert(pair == 4 * k + s && i == 2 * pair + i % 2);
    law_every_set(k, s);
}

proof fn lemma_volume_step(rootfs: Seq<char>, list: Seq<crate::config::VolumeView>, i: int)
    requires
        0 <= i < volumes_steps(rootfs, list).len(),
    ensures
        ({
            let step = volumes_steps(rootfs, list)[i];
            match step.op {
                OpView::MakeDirs(path) => step.on_failure == OnFailureView::Filesystem(
                    "mkdir "@ + path,
                ),
                OpView::Mount { kind, .. } => kind is Bind && step.on_failure
                    == OnFailureView::Syscall("mount(volume bind)"@),
                _ => false,
            }
        }),
    decreases list.len(),
{
    if list.len() > 0 {
        let less = volumes_steps(rootfs, list.drop_last());
        let own = crate::rootfs::volume_steps(rootfs, list.last());
        assert(volumes_steps(rootfs, list) == less + own);
        if i < less.len() {
            lemma_volume_step(rootfs, list.drop_last(), i);
            assert(volumes_steps(rootfs, list)[i] == less[i]);
        } else {
            assert(volumes_steps(rootfs, list)[i] == own[i - less.len()]);
        }
    }
}

/// The device nodes of a /dev that the kernel does not fill: where they stand, and which
/// device each is.
pub open spec fn nodes() -> Seq<(Seq<char>, u64)> {
    seq![
        ("/dev/null"@, 259),
        ("/dev/zero"@, 261),
        ("/dev/full"@, 263),
        ("/dev/random"@, 264),
        ("/dev/urandom"@, 265),
        ("/dev/tty"@, 1280),
    ]
}

proof fn lemma_only_devtmpfs(cfg: ContainerConfigView, i: int)
    requires
        0 <= i < child_steps(cfg).len(),
        child_steps(cfg)[i].op matches OpView::Mount { fstype, .. } && fstype == Some("devtmpfs"@),
    ensures
        i == root_at(cfg) + 11,
{
    lemma_named(cfg, i);
    lemma_shape(cfg);
    law_volumes_closed(cfg.rootfs, cfg.volumes);
    reveal_strlit("devtmpfs");
    reveal_strlit("tmpfs");
    reveal_strlit("proc");
    assert("devtmpfs"@.len() == 8 && "tmpfs"@.len() == 5 && "proc"@.len() == 4);
    let all = child_steps(cfg);
    let at = root_at(cfg);
    let from = hardening_at(cfg);
    if i < 3 {
        assert(all[0] == close_step(Pipe::Pid, PipeEnd::Write));
    } else if i < at {
        let j = i - 3;
        let k = j / 2;
        assert(all[3 + j] == volumes_steps(cfg.rootfs, cfg.volumes)[j]);
        lemma_volume_dir(cfg.rootfs, cfg.volumes, k);
        assert(j == 2 * k || j == 2 * k + 1);
    } else if i < from {
        let j = i - at;
        let r = rootfs_steps(cfg.rootfs);
        assert(all[at + j] == moving_steps(cfg)[j]);
        if j < 19 {
            assert(moving_steps(cfg)[j] == r[j]);
        }
    } else {
        let j = i - from;
        let h = hardening_steps(cfg);
        assert(all[from + j] == h[j]);
        if cfg.drop_caps {
            law_every_set(0, 0);
            if j < 73 {
                assert(h[j] == drop_plan()[j]);
            }
            if j < 72 {
                lemma_looks(j);
            }
        }
    }
}

/// Where the kernel does not fill /dev, an empty file system is mounted there, and each of
/// the six device nodes is asked for, for all to read and write. Where it does, none is.
pub proof fn law_device_nodes(
    cfg: ContainerConfigView,
    answers: spec_fn(int) -> ReplyView,
    n: nat,
    i: nat,
)
    requires
        middle_run(cfg, answers, n).0 matches MiddleCourse::Ask(m) && m.op() == (OpView::Mount {
            source: Some("devtmpfs"@),
            target: "/dev"@,
            fstype: Some("devtmpfs"@),
            kind: MountKind::Plain,
        }),
        i < 6,
    ensures
        answers(n as int) is Done ==> (middle_run(cfg, answers, n + 1).0 matches MiddleCourse::Ask(
            m,
        ) && m.op() == OpView::ChangeDir("/"@)),
        !(answers(n as int) is Done) && answers(n as int + 1) is Done ==> (middle_run(
            cfg,
            answers,
            n + 2 + i,
        ).0 matches MiddleCourse::Ask(m) && m.op() == (OpView::MakeDevice {
            path: nodes()[i as int].0,
            dev: nodes()[i as int].1,
            mode: 438,
        })),
{
    lemma_middle_paced(cfg, answers, n);
    lemma_shape(cfg);
    let m = middle_run(cfg, answers, n).0->Ask_0;
    let at = root_at(cfg) + 11;
    if let MiddleStageView::Setup(run) = m.stage {
        lemma_only_devtmpfs(cfg, run.at);
        assert forall|j: int| 11 <= j < 20 implies #[trigger] child_steps(cfg)[root_at(cfg) + j]
            == moving_steps(cfg)[j] by {};
        assert(moving_steps(cfg)[11] == rootfs_steps(cfg.rootfs)[11]);
        let next = m.next(answers(n as int));
        assert(middle_run(cfg, answers, n + 1).0 == next);
        if answers(n as int) is Done {
            assert(run.next(answers(n as int)) == crate::plan::place(run.steps, at + 8));
            assert(child_steps(cfg)[root_at(cfg) + 19] == moving_steps(cfg)[19]);
        } else if answers(n as int + 1) is Done {
            assert(run.next(answers(n as int)) == crate::plan::place(run.steps, at + 1));
            assert(child_steps(cfg)[root_at(cfg) + 12] == moving_steps(cfg)[12]);
            assert(moving_steps(cfg)[12] == rootfs_steps(cfg.rootfs)[12]);
            assert(middle_run(cfg, answers, n + 2).0 == next->Ask_0.next(answers(n as int + 1)));
            lemma_node(cfg, answers, n + 2, i);
        }
    } else if let MiddleStageView::Part(run) = m.stage {
        assert(run.steps[run.at].op is Close);
    }
}

proof fn lemma_node(
    cfg: ContainerConfigView,
    answers: spec_fn(int) -> ReplyView,
    n: nat,
    i: nat,
)
    requires
        middle_run(cfg, answers, n).0 == MiddleCourse::Ask(
            MiddleView {
                cfg,
                stage: MiddleStageView::Setup(
                    PlanRunView { steps: child_steps(cfg), at: root_at(cfg) + 13 },
                ),
            },
        ),
        i < 6,
    ensures
        middle_run(cfg, answers, n + i).0 matches MiddleCourse::Ask(m) && m.op() == (
        OpView::MakeDevice {
            path: nodes()[i as int].0,
            dev: nodes()[i as int].1,
            mode: 438,
        }) && m == (MiddleView {
            cfg,
            stage: MiddleStageView::Setup(
                PlanRunView { steps: child_steps(cfg), at: root_at(cfg) + 13 + i },
            ),
        }),
    decreases i,
{
    lemma_shape(cfg);
    crate::rootfs::law_small_device(1, 3);
    crate::rootfs::law_small_device(1, 5);
    crate::rootfs::law_small_device(1, 7);
    crate::rootfs::law_small_device(1, 8);
    crate::rootfs::law_small_device(1, 9);
    crate::rootfs::law_small_device(5, 0);
    let j = 13 + i as int;
    assert(child_steps(cfg)[root_at(cfg) + j] == moving_steps(cfg)[j]);
    assert(moving_steps(cfg)[j] == rootfs_steps(cfg.rootfs)[j]);
    if i > 0 {
        let k = (i - 1) as nat;
        lemma_node(cfg, answers, n, k);
        let before = middle_run(cfg, answers, n + k).0->Ask_0;
        let h = j - 1;
        assert(child_steps(cfg)[root_at(cfg) + h] == moving_steps(cfg)[h]);
        assert(moving_steps(cfg)[h] == rootfs_steps(cfg.rootfs)[h]);
        assert(middle_run(cfg, answers, n + i).0 == before.next(answers((n + k) as int)));
    }
}


// What need not succeed is asked for all the same.

/// Before the command of a container runs it was asked, whatever came of it, that the ends
/// of the pipes that are not the container's be closed, that the place of the old root be
/// removed, and that there be a /proc and a /dev to mount on.
pub proof fn law_also_asked(
    cfg: ContainerConfigView,
    answers: spec_fn(int) -> ReplyView,
    n: nat,
)
    requires
        middle_run(cfg, answers, n).0 matches MiddleCourse::Ask(m) && m.op() is Exec,
    ensures
        ({
            let history = middle_run(cfg, answers, n).1;
            &&& history.len() > 4
            &&& history[0].0 == (OpView::Close { pipe: Pipe::Release, end: PipeEnd::Write })
            &&& history[1].0 == (OpView::Close { pipe: Pipe::Pid, end: PipeEnd::Read })
            &&& asked(history, OpView::Close { pipe: Pipe::Pid, end: PipeEnd::Write })
            &&& asked(history, OpView::RemoveDir("/.oldroot"@))
            &&& asked(history, OpView::MakeDirs("/proc"@))
            &&& asked(history, OpView::MakeDirs("/dev"@))
        }),
{
    lemma_exec_stage(cfg, answers, n);
    lemma_first_closes(cfg, answers, n);
    let history = middle_run(cfg, answers, n).1;
    let steps = child_steps(cfg);
    let at = root_at(cfg);
    let r = rootfs_steps(cfg.rootfs);
    lemma_shape(cfg);
    let w = choose|w: Seq<int>| fits(history, steps, steps.len() as int, 4, w);
    law_only_fallbacks_saved(cfg, 0);
    law_only_fallbacks_saved(cfg, at + 7);
    law_only_fallbacks_saved(cfg, at + 8);
    law_only_fallbacks_saved(cfg, at + 10);
    assert(steps[0] == close_step(Pipe::Pid, PipeEnd::Write));
    assert(steps[at + 7] == moving_steps(cfg)[7] && moving_steps(cfg)[7] == r[7]);
    assert(steps[at + 8] == moving_steps(cfg)[8] && moving_steps(cfg)[8] == r[8]);
    assert(steps[at + 10] == moving_steps(cfg)[10] && moving_steps(cfg)[10] == r[10]);
    assert(unskippable(steps, 0) && unskippable(steps, at + 7) && unskippable(steps, at + 8)
        && unskippable(steps, at + 10));
    assert(history[w[0]].0 == steps[0].op);
    assert(history[w[at + 7]].0 == steps[at + 7].op);
    assert(history[w[at + 8]].0 == steps[at + 8].op);
    assert(history[w[at + 10]].0 == steps[at + 10].op);
}

proof fn lemma_first_closes(cfg: ContainerConfigView, answers: spec_fn(int) -> ReplyView, n: nat)
    ensures
        ({
            let history = middle_run(cfg, answers, n).1;
            &&& history.len() > 0 ==> history[0].0 == (OpView::Close {
                pipe: Pipe::Release,
                end: PipeEnd::Write,
            })
            &&& history.len() > 1 ==> history[1].0 == (OpView::Close {
                pipe: Pipe::Pid,
                end: PipeEnd::Read,
            })
        }),
    decreases n,
{
    if n > 0 {
        let m = (n - 1) as nat;
        lemma_first_closes(cfg, answers, m);
        lemma_middle_paced(cfg, answers, m);
        let before = middle_run(cfg, answers, m);
        if let MiddleCourse::Ask(x) = before.0 {
            if before.1.len() < 2 {
                if let MiddleStageView::Part(run) = x.stage {
                    assert(run.steps[0].op == (OpView::Close {
                        pipe: Pipe::Release,
                        end: PipeEnd::Write,
                    }));
                    assert(run.steps[1].op == (OpView::Close {
                        pipe: Pipe::Pid,
                        end: PipeEnd::Read,
                    }));
                } else {
                    lemma_history_length(cfg, answers, m);
                    lemma_early(cfg, answers, m);
                }
            }
        }
    }
}

proof fn lemma_early(cfg: ContainerConfigView, answers: spec_fn(int) -> ReplyView, n: nat)
    requires
        n < 2,
    ensures
        middle_run(cfg, answers, n).0 matches MiddleCourse::Ask(m) && m.stage is Part,
{
    reveal_with_fuel(middle_run, 3);
}


// A program whose name cannot be passed on.

proof fn lemma_setup_ends(
    cfg: ContainerConfigView,
    answers: spec_fn(int) -> ReplyView,
    n: nat,
    m: MiddleView,
)
    requires
        middle_run(cfg, answers, n).0 == MiddleCourse::Ask(m),
        m.cfg == cfg,
        m.wf(),
        m.stage is Setup,
        forall|i: int| i >= n ==> (#[trigger] answers(i)) is Done,
        cfg.command.len() > 0 && cfg.command[0].contains('\0'),
    ensures
        exists|k: nat|
            #[trigger] gives_up(cfg, answers, k, "config error: "@ + "command contains NUL"@),
    decreases m.stage->Setup_0.steps.len() - m.stage->Setup_0.at,
{
    let i = n as int;
    assert(answers(i) is Done);
    assert(middle_run(cfg, answers, n + 1).0 == m.next(answers(i)));
    if let MiddleCourse::Ask(x) = m.next(answers(i)) {
        if x.stage is Setup {
            lemma_setup_ends(cfg, answers, n + 1, x);
        } else {
            assert(x.stage is Complain);
            assert(middle_run(cfg, answers, n + 2).0 == x.next(answers(i + 1)));
            assert(gives_up(
                cfg,
                answers,
                n + 1,
                "config error: "@ + "command contains NUL"@,
            ));
        }
    }
}

/// A program whose name holds a NUL is not run, though all else was done: the container
/// process says so and exits with 127.
pub proof fn law_nul_is_refused(cfg: ContainerConfigView, answers: spec_fn(int) -> ReplyView)
    requires
        answers(3) is Child,
        forall|i: int| i != 3 ==> (#[trigger] answers(i)) is Done,
        cfg.command.len() > 0 && cfg.command[0].contains('\0'),
    ensures
        exists|k: nat|
            #[trigger] gives_up(cfg, answers, k, "config error: "@ + "command contains NUL"@),
{
    reveal_with_fuel(middle_run, 5);
    assert(answers(0) is Done && answers(1) is Done && answers(2) is Done);
    let there = middle_run(cfg, answers, 4).0;
    assert(there == MiddleView::start(cfg).setting_up(crate::plan::place(child_steps(cfg), 0)));
    lemma_setup_ends(cfg, answers, 4, there->Ask_0);
}

} // verus!
