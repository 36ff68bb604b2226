//! What holds of every run of a container, whatever the host answers.
//!
//! A history is the list of the operations that were asked of the host so far, each
//! with its answer.

use crate::capabilities::{
    check_step, dangerous, drop_plan, drop_step, law_drops_and_looks, law_every_set, left_sets,
    CapSet, Capability,
};
use crate::cgroups::{
    controllers_file, cpu_steps, delegation_steps, leaf_path, memory_steps, moves, pids_steps,
    wanted, write_step, CgroupCreationView, CreationCourse, CreationStageView, QuestionView,
};
use crate::config::{short, ContainerConfigView, Resources, VolumeView};
use crate::container::{
    arrival_steps, attach_steps, child_steps, clean_steps, close_step, exit_code,
    grandchild_steps, hardening_steps, moving_steps, namespaces, nanos, parent_steps, part_steps,
    prepare_steps, received, LaunchCourse, LaunchStageView, LaunchView, MetricsView, MiddleCourse,
    MiddleStageView, MiddleView, ProgressView, RecordView,
};
use crate::host::{OpView, Pipe, PipeEnd, ReplyView, WaitStatus};
use crate::network::{address, law_wiring_complete, network_of, setup_steps, NetworkView};
use crate::plan::{
    lemma_unskippable_after, must, place, unskippable, Course, OnFailureView, PlanRunView, StepView,
};
use crate::rootfs::{
    bind_mount, law_only_dev_skipped, law_volumes_closed, plain_mount, rootfs_steps,
    volume_steps, volume_target, volumes_steps,
};
use crate::scan::words;
use crate::state::{
    changed, container_dir, save_state_step, state_path, Change, ContainerStateView, UpdateCourse,
    UpdateStageView, UpdateView,
};
use crate::text::{decimal, signed_decimal};
use vstd::prelude::*;

verus! {

/// One operation that was asked of the host, and its answer.
pub type Event = (OpView, ReplyView);

/// Whether `op` was asked.
pub open spec fn asked(history: Seq<Event>, op: OpView) -> bool {
    exists|k: int| 0 <= k < history.len() && (#[trigger] history[k]).0 == op
}

/// Whether `op` was asked and done.
pub open spec fn did(history: Seq<Event>, op: OpView) -> bool {
    exists|k: int|
        0 <= k < history.len() && (#[trigger] history[k]).0 == op && history[k].1 is Done
}

/// Whether a plan that has come to position `at` has taken the step at `i`, which nothing
/// can save: it was asked, and done unless the plan goes on without it. Where it can save
/// the next step, and the plan cannot go on without that one, either of them was done.
pub open spec fn taken_at(
    history: Seq<Event>,
    steps: Seq<StepView>,
    at: int,
    i: int,
) -> bool {
    &&& asked(history, steps[i].op)
    &&& steps[i].on_failure is Ignore || did(history, steps[i].op)
    &&& i + 1 < at && i + 1 < steps.len() && steps[i].skip > 0 && !(steps[i
        + 1].on_failure is Ignore) ==> did(history, steps[i].op) || did(history, steps[i + 1].op)
}

/// Whether a plan has been followed up to position `at`.
pub open spec fn followed(history: Seq<Event>, steps: Seq<StepView>, at: int) -> bool {
    forall|i: int|
        0 <= i < at && i < steps.len() && #[trigger] unskippable(steps, i) ==> taken_at(
            history,
            steps,
            at,
            i,
        )
}

proof fn lemma_longer(history: Seq<Event>, event: Event, op: OpView)
    ensures
        asked(history, op) ==> asked(history.push(event), op),
        did(history, op) ==> did(history.push(event), op),
        asked(history.push(event), event.0),
        event.1 is Done ==> did(history.push(event), event.0),
{
    let longer = history.push(event);
    if asked(history, op) {
        let k = choose|k: int| 0 <= k < history.len() && (#[trigger] history[k]).0 == op;
        assert(longer[k] == history[k]);
    }
    if did(history, op) {
        let k = choose|k: int|
            0 <= k < history.len() && (#[trigger] history[k]).0 == op && history[k].1 is Done;
        assert(longer[k] == history[k]);
    }
    assert(longer[history.len() as int] == event);
}

proof fn lemma_still_followed(
    history: Seq<Event>,
    event: Event,
    steps: Seq<StepView>,
    at: int,
)
    requires
        followed(history, steps, at),
    ensures
        followed(history.push(event), steps, at),
{
    assert forall|i: int|
        0 <= i < at && i < steps.len() && #[trigger] unskippable(steps, i) implies taken_at(
        history.push(event),
        steps,
        at,
        i,
    ) by {
        lemma_longer(history, event, steps[i].op);
        lemma_longer(history, event, steps[i + 1].op);
    }
}

proof fn lemma_progress(history: Seq<Event>, run: PlanRunView, reply: ReplyView)
    requires
        run.wf(),
        followed(history, run.steps, run.at),
    ensures
        match run.next(reply) {
            Course::Ask(next) => next.steps == run.steps && next.wf() && followed(
                history.push((run.op(), reply)),
                run.steps,
                next.at,
            ),
            Course::Ended(Ok(_)) => followed(
                history.push((run.op(), reply)),
                run.steps,
                run.steps.len() as int,
            ),
            Course::Ended(Err(_)) => true,
        },
{
    let event = (run.op(), reply);
    let steps = run.steps;
    let at = run.at;
    lemma_still_followed(history, event, steps, at);
    lemma_longer(history, event, steps[at].op);
    let bound = match run.next(reply) {
        Course::Ask(next) => next.at,
        Course::Ended(_) => steps.len() as int,
    };
    if !(run.next(reply) matches Course::Ended(Err(_))) {
        assert forall|i: int|
            0 <= i < bound && i < steps.len() && #[trigger] unskippable(steps, i) implies taken_at(
            history.push(event),
            steps,
            bound,
            i,
        ) by {
            if i > at {
                assert(at + 1 + steps[at].skip <= i);
            }
        }
    }
}

// The container process and the process above it.

/// Where the middle process of the container `cfg` stands, and its history, when the
/// host has answered `n` operations, the one at position `i` with `answers(i)`.
pub open spec fn middle_run(
    cfg: ContainerConfigView,
    answers: spec_fn(int) -> ReplyView,
    n: nat,
) -> (MiddleCourse, Seq<Event>)
    decreases n,
{
    if n == 0 {
        (MiddleCourse::Ask(MiddleView::start(cfg)), Seq::empty())
    } else {
        let before = middle_run(cfg, answers, (n - 1) as nat);
        match before.0 {
            MiddleCourse::Ask(m) => (
                m.next(answers(n - 1)),
                before.1.push((m.op(), answers(n - 1))),
            ),
            MiddleCourse::Exit(_) => before,
        }
    }
}

spec fn middle_invariant(
    cfg: ContainerConfigView,
    course: MiddleCourse,
    history: Seq<Event>,
) -> bool {
    let apart = did(history, OpView::Unshare(namespaces()));
    match course {
        MiddleCourse::Exit(_) => true,
        MiddleCourse::Ask(m) => m.cfg == cfg && m.wf() && match m.stage {
            MiddleStageView::Part(run) => run.steps == part_steps(),
            MiddleStageView::Unshare(op) => op == OpView::Unshare(namespaces()),
            MiddleStageView::Fork(op) => op is Fork && apart,
            MiddleStageView::Setup(run) => {
                &&& run.steps == child_steps(cfg)
                &&& apart
                &&& followed(history, run.steps, run.at)
            },
            MiddleStageView::Exec(op) => {
                &&& op == OpView::Exec { command: cfg.command, env: cfg.env }
                &&& apart
                &&& followed(history, child_steps(cfg), child_steps(cfg).len() as int)
            },
            MiddleStageView::Report { op, pid } => op == OpView::SendPid(pid) && apart,
            MiddleStageView::Wait(op) => op is Wait && apart,
            MiddleStageView::Complain { op, code } => op is Complain && code == 127,
        },
    }
}

proof fn lemma_middle(cfg: ContainerConfigView, answers: spec_fn(int) -> ReplyView, n: nat)
    ensures
        middle_invariant(cfg, middle_run(cfg, answers, n).0, middle_run(cfg, answers, n).1),
    decreases n,
{
    if n > 0 {
        lemma_middle(cfg, answers, (n - 1) as nat);
        let before = middle_run(cfg, answers, (n - 1) as nat);
        let reply = answers(n - 1);
        if let MiddleCourse::Ask(m) = before.0 {
            let event = (m.op(), reply);
            lemma_longer(before.1, event, OpView::Unshare(namespaces()));
            match m.stage {
                MiddleStageView::Setup(run) => {
                    lemma_progress(before.1, run, reply);
                },
                _ => {},
            }
        }
    }
}

/// Where the command of a container runs: in namespaces of its own, after every step
/// of the setup that nothing can save, and those of them that the setup cannot go on
/// without were done.
pub proof fn law_set_up_before_exec(
    cfg: ContainerConfigView,
    answers: spec_fn(int) -> ReplyView,
    n: nat,
)
    requires
        middle_run(cfg, answers, n).0 matches MiddleCourse::Ask(m) && m.stage is Exec,
    ensures
        did(middle_run(cfg, answers, n).1, OpView::Unshare(namespaces())),
        followed(
            middle_run(cfg, answers, n).1,
            child_steps(cfg),
            child_steps(cfg).len() as int,
        ),
{
    lemma_middle(cfg, answers, n);
}

/// The position in the setup of the container process at which its root file system
/// begins to be its own.
pub open spec fn root_at(cfg: ContainerConfigView) -> int {
    3 + 2 * (cfg.volumes.len() as int)
}

/// The position in the setup of the container process at which its hardening begins.
pub open spec fn hardening_at(cfg: ContainerConfigView) -> int {
    root_at(cfg) + 20
}

/// Where the parts of the setup of the container process stand.
pub proof fn lemma_shape(cfg: ContainerConfigView)
    ensures
        child_steps(cfg).len() == hardening_at(cfg) + hardening_steps(cfg).len(),
        child_steps(cfg)[1].op is AwaitRelease,
        child_steps(cfg)[2] == must(
            OpView::SetHostname(cfg.hostname),
            OnFailureView::Syscall("sethostname"@),
        ),
        forall|i: int|
            0 <= i < 2 * cfg.volumes.len() ==> #[trigger] child_steps(cfg)[3 + i] == volumes_steps(
                cfg.rootfs,
                cfg.volumes,
            )[i],
        forall|i: int|
            0 <= i < 20 ==> #[trigger] child_steps(cfg)[root_at(cfg) + i] == moving_steps(cfg)[i],
        forall|i: int|
            0 <= i < hardening_steps(cfg).len() ==> #[trigger] child_steps(cfg)[hardening_at(cfg)
                + i] == hardening_steps(cfg)[i],
{
    law_volumes_closed(cfg.rootfs, cfg.volumes);
    let v = volumes_steps(cfg.rootfs, cfg.volumes);
    let all = child_steps(cfg);
    let g = grandchild_steps(cfg);
    let a = arrival_steps(cfg);
    let m = moving_steps(cfg);
    assert(a.len() == 2 + v.len());
    assert(m.len() == 20);
    assert forall|i: int| 0 <= i < g.len() implies all[1 + i] == #[trigger] g[i] by {}
    assert(g[0] == a[0]);
    assert(g[1] == a[1]);
    assert forall|i: int| 0 <= i < 2 * cfg.volumes.len() implies #[trigger] all[3 + i] == v[i] by {
        assert(g[2 + i] == a[2 + i]);
        assert(a[2 + i] == v[i]);
    }
    assert forall|i: int| 0 <= i < 20 implies #[trigger] all[root_at(cfg) + i] == m[i] by {
        assert(g[a.len() + i] == m[i]);
    }
    assert forall|i: int| 0 <= i < hardening_steps(cfg).len() implies #[trigger] all[hardening_at(
        cfg,
    ) + i] == hardening_steps(cfg)[i] by {
        assert(g[a.len() + 20 + i] == hardening_steps(cfg)[i]);
    }
}

/// Of all the setup of the container process only the fallback for /dev can be saved, and
/// the looks behind the drops of capabilities.
pub proof fn law_only_fallbacks_saved(cfg: ContainerConfigView, i: int)
    requires
        0 <= i <= child_steps(cfg).len(),
        !(root_at(cfg) + 11 < i < root_at(cfg) + 19),
        cfg.drop_caps && hardening_at(cfg) <= i < hardening_at(cfg) + 72 ==> (i - hardening_at(
            cfg,
        )) % 2 == 0,
    ensures
        unskippable(child_steps(cfg), i),
{
    lemma_shape(cfg);
    law_volumes_closed(cfg.rootfs, cfg.volumes);
    law_only_dev_skipped(cfg.rootfs, 0);
    let all = child_steps(cfg);
    let at = root_at(cfg);
    assert forall|k: int| 0 <= k < i implies k + 1 + (#[trigger] all[k]).skip <= i by {
        if k < 3 {
            assert(all[0] == close_step(Pipe::Pid, PipeEnd::Write));
            assert(all[1] == grandchild_steps(cfg)[0]);
        } else if k < at {
            assert(all[3 + (k - 3)] == volumes_steps(cfg.rootfs, cfg.volumes)[k - 3]);
        } else if k < at + 20 {
            let r = rootfs_steps(cfg.rootfs);
            assert(all[at + (k - at)] == moving_steps(cfg)[k - at]);
            if k < at + 19 {
                assert(moving_steps(cfg)[k - at] == r[k - at]);
                if k != at + 11 {
                    assert(r[k - at].skip == 0);
                } else {
                    assert(r[11].skip == 7);
                }
            } else {
                assert(moving_steps(cfg)[19].skip == 0);
            }
        } else {
            let h = hardening_steps(cfg);
            let j = k - hardening_at(cfg);
            assert(all[hardening_at(cfg) + j] == h[j]);
            if cfg.drop_caps {
                law_every_set(0, 0);
                if j < 73 {
                    assert(h[j] == drop_plan()[j]);
                }
                if j < 72 {
                    law_drops_and_looks(j);
                }
            }
        }
    }
}

/// Whether `capability` was taken out of `set`, or seen not to be in it.
pub open spec fn gone(history: Seq<Event>, set: CapSet, capability: Capability) -> bool {
    did(history, drop_step(set, capability).op) || did(history, check_step(set, capability).op)
}

/// Where the command of a container runs: once it was released, under the hostname of
/// the container, with its volumes mounted, in its own root file system from which the
/// old one is gone, and with a /proc and a /dev of its own. If the configuration asks for
/// it, every dangerous capability is gone from every set, the inheritable set is empty,
/// and the seccomp filter is installed.
pub proof fn law_isolated(cfg: ContainerConfigView, answers: spec_fn(int) -> ReplyView, n: nat)
    requires
        middle_run(cfg, answers, n).0 matches MiddleCourse::Ask(m) && m.stage is Exec,
    ensures
        ({
            let history = middle_run(cfg, answers, n).1;
            &&& did(history, OpView::AwaitRelease)
            &&& did(history, OpView::SetHostname(cfg.hostname))
            &&& forall|k: int|
                0 <= k < cfg.volumes.len() ==> did(
                    history,
                    bind_mount(
                        (#[trigger] cfg.volumes[k]).host_path,
                        volume_target(cfg.rootfs, cfg.volumes[k].container_path),
                    ),
                )
            &&& did(history, OpView::PivotRoot { new_root: "."@, put_old: ".oldroot"@ })
            &&& did(history, OpView::Detach("/.oldroot"@))
            &&& did(history, plain_mount("proc"@, "/proc"@))
            &&& did(history, plain_mount("devtmpfs"@, "/dev"@)) || did(
                history,
                plain_mount("tmpfs"@, "/dev"@),
            )
            &&& cfg.drop_caps ==> did(history, OpView::ClearCapabilities(CapSet::Inheritable))
            &&& cfg.drop_caps ==> forall|k: int|
                0 <= k < dangerous().len() ==> {
                    let capability = #[trigger] dangerous()[k];
                    &&& gone(history, CapSet::Bounding, capability)
                    &&& gone(history, CapSet::Ambient, capability)
                    &&& gone(history, CapSet::Effective, capability)
                    &&& gone(history, CapSet::Permitted, capability)
                }
            &&& cfg.seccomp ==> did(history, OpView::InstallFilter)
        }),
{
    law_set_up_before_exec(cfg, answers, n);
    let history = middle_run(cfg, answers, n).1;
    lemma_moved_in(cfg, history);
    lemma_hardened(cfg, history);
}

proof fn lemma_moved_in(cfg: ContainerConfigView, history: Seq<Event>)
    requires
        followed(history, child_steps(cfg), child_steps(cfg).len() as int),
    ensures
        did(history, OpView::AwaitRelease),
        did(history, OpView::SetHostname(cfg.hostname)),
        forall|k: int|
            0 <= k < cfg.volumes.len() ==> did(
                history,
                bind_mount(
                    (#[trigger] cfg.volumes[k]).host_path,
                    volume_target(cfg.rootfs, cfg.volumes[k].container_path),
                ),
            ),
        did(history, OpView::PivotRoot { new_root: "."@, put_old: ".oldroot"@ }),
        did(history, OpView::Detach("/.oldroot"@)),
        did(history, plain_mount("proc"@, "/proc"@)),
        did(history, plain_mount("devtmpfs"@, "/dev"@)) || did(
            history,
            plain_mount("tmpfs"@, "/dev"@),
        ),
{
    lemma_shape(cfg);
    law_volumes_closed(cfg.rootfs, cfg.volumes);
    let all = child_steps(cfg);
    let at = root_at(cfg);
    let r = rootfs_steps(cfg.rootfs);
    law_only_fallbacks_saved(cfg, 1);
    law_only_fallbacks_saved(cfg, 2);
    assert(all[1] == grandchild_steps(cfg)[0]);
    assert forall|k: int| 0 <= k < cfg.volumes.len() implies did(
        history,
        bind_mount(
            (#[trigger] cfg.volumes[k]).host_path,
            volume_target(cfg.rootfs, cfg.volumes[k].container_path),
        ),
    ) by {
        law_only_fallbacks_saved(cfg, 3 + (2 * k + 1));
        assert(all[3 + (2 * k + 1)] == volumes_steps(cfg.rootfs, cfg.volumes)[2 * k + 1]);
    }
    law_only_fallbacks_saved(cfg, at + 4);
    assert(all[at + 4] == moving_steps(cfg)[4]);
    assert(moving_steps(cfg)[4] == r[4]);
    law_only_fallbacks_saved(cfg, at + 6);
    assert(all[at + 6] == moving_steps(cfg)[6]);
    assert(moving_steps(cfg)[6] == r[6]);
    law_only_fallbacks_saved(cfg, at + 9);
    assert(all[at + 9] == moving_steps(cfg)[9]);
    assert(moving_steps(cfg)[9] == r[9]);
    law_only_fallbacks_saved(cfg, at + 11);
    assert(all[at + 11] == moving_steps(cfg)[11]);
    assert(moving_steps(cfg)[11] == r[11]);
    assert(all[at + 12] == moving_steps(cfg)[12]);
    assert(moving_steps(cfg)[12] == r[12]);
    assert(taken_at(history, all, all.len() as int, at + 11));
}

proof fn lemma_gone(cfg: ContainerConfigView, history: Seq<Event>, k: int, s: int)
    requires
        followed(history, child_steps(cfg), child_steps(cfg).len() as int),
        cfg.drop_caps,
        0 <= k < dangerous().len(),
        0 <= s < 4,
    ensures
        gone(history, left_sets()[s], dangerous()[k]),
{
    lemma_shape(cfg);
    law_every_set(k, s);
    let all = child_steps(cfg);
    let from = hardening_at(cfg);
    let h = hardening_steps(cfg);
    let j = 8 * k + 2 * s;
    assert(dangerous().len() == 9);
    law_only_fallbacks_saved(cfg, from + j);
    assert(all[from + j] == h[j]);
    assert(h[j] == drop_plan()[j]);
    assert(all[from + (j + 1)] == h[j + 1]);
    assert(h[j + 1] == drop_plan()[j + 1]);
    assert(taken_at(history, all, all.len() as int, from + j));
}

proof fn lemma_hardened(cfg: ContainerConfigView, history: Seq<Event>)
    requires
        followed(history, child_steps(cfg), child_steps(cfg).len() as int),
    ensures
        cfg.drop_caps ==> did(history, OpView::ClearCapabilities(CapSet::Inheritable)),
        cfg.drop_caps ==> forall|k: int|
            0 <= k < dangerous().len() ==> {
                let capability = #[trigger] dangerous()[k];
                &&& gone(history, CapSet::Bounding, capability)
                &&& gone(history, CapSet::Ambient, capability)
                &&& gone(history, CapSet::Effective, capability)
                &&& gone(history, CapSet::Permitted, capability)
            },
        cfg.seccomp ==> did(history, OpView::InstallFilter),
{
    lemma_shape(cfg);
    let all = child_steps(cfg);
    let from = hardening_at(cfg);
    let h = hardening_steps(cfg);
    if cfg.drop_caps {
        law_every_set(0, 0);
        law_only_fallbacks_saved(cfg, from + 72);
        assert(all[from + 72] == h[72]);
        assert(h[72] == drop_plan()[72]);
        assert forall|k: int| 0 <= k < dangerous().len() implies {
            let capability = #[trigger] dangerous()[k];
            &&& gone(history, CapSet::Bounding, capability)
            &&& gone(history, CapSet::Ambient, capability)
            &&& gone(history, CapSet::Effective, capability)
            &&& gone(history, CapSet::Permitted, capability)
        } by {
            lemma_gone(cfg, history, k, 0);
            lemma_gone(cfg, history, k, 1);
            lemma_gone(cfg, history, k, 2);
            lemma_gone(cfg, history, k, 3);
        }
    }
    if cfg.seccomp {
        let last = h.len() - 1;
        law_only_fallbacks_saved(cfg, from + last);
        assert(all[from + last] == h[last]);
        assert(h[last].op is InstallFilter);
    }
}

/// Whether `op` takes away what the setup of a root file system needs.
pub open spec fn is_hardening(op: OpView) -> bool {
    ||| op is DropCapability
    ||| op is LacksCapability
    ||| op is ClearCapabilities
    ||| op is InstallFilter
}

/// Volumes are mounted before the container moves into its root file system, while
/// their paths are still those of the host. Capabilities are dropped and the filter is
/// installed after all else, and the filter last of all.
pub proof fn law_order(cfg: ContainerConfigView)
    ensures
        child_steps(cfg)[root_at(cfg) + 4].op == (OpView::PivotRoot {
            new_root: "."@,
            put_old: ".oldroot"@,
        }),
        forall|k: int|
            0 <= k < cfg.volumes.len() ==> {
                &&& child_steps(cfg)[4 + 2 * k].op == bind_mount(
                    (#[trigger] cfg.volumes[k]).host_path,
                    volume_target(cfg.rootfs, cfg.volumes[k].container_path),
                )
                &&& 4 + 2 * k < root_at(cfg)
            },
        forall|i: int|
            0 <= i < child_steps(cfg).len() ==> (is_hardening((#[trigger] child_steps(cfg)[i]).op)
                <==> hardening_at(cfg) <= i),
        forall|i: int|
            0 <= i < child_steps(cfg).len() && (#[trigger] child_steps(cfg)[i]).op is InstallFilter
                ==> i == child_steps(cfg).len() - 1,
{
    lemma_shape(cfg);
    law_volumes_closed(cfg.rootfs, cfg.volumes);
    let all = child_steps(cfg);
    let at = root_at(cfg);
    let from = hardening_at(cfg);
    let r = rootfs_steps(cfg.rootfs);
    let v = volumes_steps(cfg.rootfs, cfg.volumes);
    let h = hardening_steps(cfg);
    assert(all[at + 4] == moving_steps(cfg)[4]);
    assert(moving_steps(cfg)[4] == r[4]);
    assert forall|k: int| 0 <= k < cfg.volumes.len() implies {
        &&& all[4 + 2 * k].op == bind_mount(
            (#[trigger] cfg.volumes[k]).host_path,
            volume_target(cfg.rootfs, cfg.volumes[k].container_path),
        )
        &&& 4 + 2 * k < at
    } by {
        assert(all[3 + (2 * k + 1)] == v[2 * k + 1]);
    }
    assert(cfg.drop_caps ==> drop_plan().len() == 73) by {
        law_every_set(0, 0);
    }
    assert forall|i: int| 0 <= i < all.len() implies {
        &&& (is_hardening((#[trigger] all[i]).op) <==> from <= i)
        &&& (all[i].op is InstallFilter ==> i == all.len() - 1)
    } by {
        if i < 3 {
            assert(all[0] == close_step(Pipe::Pid, PipeEnd::Write));
        } else if i < at {
            assert(all[3 + (i - 3)] == v[i - 3]);
            lemma_volume_ops(cfg.rootfs, cfg.volumes, i - 3);
        } else if i < from {
            let j = i - at;
            assert(all[at + j] == moving_steps(cfg)[j]);
            if j < 19 {
                assert(moving_steps(cfg)[j] == r[j]);
            }
        } else {
            let j = i - from;
            assert(all[from + j] == h[j]);
            if cfg.drop_caps && j < 73 {
                assert(h[j] == drop_plan()[j]);
                lemma_drop_ops(j);
            }
        }
    }
}

proof fn lemma_volume_ops(rootfs: Seq<char>, list: Seq<VolumeView>, i: int)
    requires
        0 <= i < 2 * list.len(),
    ensures
        volumes_steps(rootfs, list)[i].op is MakeDirs || volumes_steps(rootfs, list)[i].op is Mount,
    decreases list.len(),
{
    law_volumes_closed(rootfs, list);
    law_volumes_closed(rootfs, list.drop_last());
    let less = volumes_steps(rootfs, list.drop_last());
    if i < less.len() {
        lemma_volume_ops(rootfs, list.drop_last(), i);
        assert(volumes_steps(rootfs, list)[i] == less[i]);
    } else {
        let own = volume_steps(rootfs, list.last());
        assert(volumes_steps(rootfs, list)[i] == own[i - less.len()]);
    }
}

proof fn lemma_drop_ops(j: int)
    requires
        0 <= j < 73,
    ensures
        drop_plan()[j].op is DropCapability || drop_plan()[j].op is LacksCapability
            || drop_plan()[j].op is ClearCapabilities,
{
    law_every_set(0, 0);
    if j < 72 {
        law_drops_and_looks(j);
    }
}

/// The runtime sees the exit code of the container: the process between them exits
/// with the code of the container, or with 128 and the signal that ended it, and that
/// code is the one measured.
pub proof fn law_exit_code_relayed(m: MiddleView, status: WaitStatus)
    requires
        m.stage is Wait,
    ensures
        m.next(ReplyView::Status(status)) == MiddleCourse::Exit(exit_code(status, 1)),
        exit_code(WaitStatus::Exited(exit_code(status, 1)), (-1) as i32) == exit_code(status, 1),
        status matches WaitStatus::Exited(code) ==> exit_code(status, 1) == code,
        status matches WaitStatus::Signaled(signal) ==> exit_code(status, 1) == 128 + signal,
{
}

/// A process that cannot become a container, or cannot run its command, says so once
/// and exits with code 127.
pub proof fn law_failure_is_told(
    cfg: ContainerConfigView,
    answers: spec_fn(int) -> ReplyView,
    n: nat,
)
    requires
        middle_run(cfg, answers, n).0 matches MiddleCourse::Ask(m) && m.stage is Complain,
    ensures
        middle_run(cfg, answers, n).0 matches MiddleCourse::Ask(m) && m.op() is Complain && m.next(
            answers(n as int),
        ) == MiddleCourse::Exit(127),
{
    lemma_middle(cfg, answers, n);
}

// The process that runs the container.

/// Where the run of the container `cfg` stands, and its history, when the host has
/// answered `n` operations, the one at position `i` with `answers(i)`. A `record` of it
/// may be kept.
pub open spec fn launch_run(
    cfg: ContainerConfigView,
    index: u8,
    record: Option<RecordView>,
    answers: spec_fn(int) -> ReplyView,
    n: nat,
) -> (LaunchCourse, Seq<Event>)
    decreases n,
{
    if n == 0 {
        (LaunchCourse::Ask(LaunchView::start(cfg, index, record)), Seq::empty())
    } else {
        let before = launch_run(cfg, index, record, answers, (n - 1) as nat);
        match before.0 {
            LaunchCourse::Ask(l) => (
                l.next(answers(n - 1)),
                before.1.push((l.stage.op(), answers(n - 1))),
            ),
            _ => before,
        }
    }
}

/// Whether all that must be ready before the fork is: the limits are written and the
/// pipes are open.
pub open spec fn ready(cfg: ContainerConfigView, history: Seq<Event>) -> bool {
    let steps = prepare_steps(leaf_path(cfg.id), cfg.resources);
    followed(history, steps, steps.len() as int)
}

/// Whether the pid of the container came through the pipe, and was `pid`.
pub open spec fn learned(history: Seq<Event>, pid: i32) -> bool {
    pid > 0 && exists|k: int|
        0 <= k < history.len() && (#[trigger] history[k]).0 is ReceivePid && received(history[k].1)
            == pid
}

/// Whether the container process `pid` is in its cgroup, and in its network if it has
/// one.
pub open spec fn attached(
    cfg: ContainerConfigView,
    index: u8,
    pid: i32,
    history: Seq<Event>,
) -> bool {
    let steps = attach_steps(cfg, index, leaf_path(cfg.id), pid);
    learned(history, pid) && followed(history, steps, steps.len() as int)
}

/// Whether the record of a container, if it is kept, was asked for, and where it was
/// given, asked to be saved with the note that the container runs as `pid`.
pub open spec fn noted(record: Option<RecordView>, pid: i32, history: Seq<Event>) -> bool {
    record matches Some(r) ==> {
        let path = state_path(container_dir(r.home, r.id));
        exists|k: int|
            {
                &&& 0 <= k < history.len()
                &&& (#[trigger] history[k]).0 == OpView::LoadState(path)
                &&& history[k].1 matches ReplyView::State(state) ==> asked(
                    history,
                    OpView::SaveState { path, state: changed(state, Change::Running(pid), r.at) },
                )
            }
    }
}

/// Whether it came through the pipe that there is no container.
pub open spec fn refused(history: Seq<Event>) -> bool {
    exists|k: int|
        0 <= k < history.len() && (#[trigger] history[k]).0 is ReceivePid && received(history[k].1)
            <= 0
}

/// The network of the container `cfg`.
pub open spec fn network_for(cfg: ContainerConfigView, index: u8) -> Option<NetworkView> {
    if cfg.network {
        Some(network_of(short(cfg.id), index))
    } else {
        None
    }
}

/// What holds of the creation of a leaf at every stage.
pub open spec fn creation_invariant(c: CgroupCreationView) -> bool {
    match c.stage {
        CreationStageView::Ask { op, question } => match question {
            QuestionView::Controllers => op == OpView::ReadFile(controllers_file()),
            QuestionView::InitLeaf { .. } => op is MakeDirs,
            _ => op is ReadFile,
        },
        CreationStageView::Finish(run) => run.wf() && forall|i: int|
            0 <= i < run.steps.len() ==> (#[trigger] run.steps[i]).op is WriteFile
                || run.steps[i].op is MakeDirs,
    }
}

/// What holds of the note that the container `pid` runs, at every stage.
pub open spec fn note_invariant(
    record: RecordView,
    pid: i32,
    u: UpdateView,
    history: Seq<Event>,
) -> bool {
    let root = container_dir(record.home, record.id);
    &&& u.root == root
    &&& u.change == Change::Running(pid)
    &&& match u.stage {
        UpdateStageView::Load(op) => op == OpView::LoadState(state_path(root)),
        UpdateStageView::Save(run) => run.at == 0 && history.len() > 0 && exists|
            state: ContainerStateView,
        |
            {
                &&& history.last() == (
                    OpView::LoadState(state_path(root)),
                    ReplyView::State(state),
                )
                &&& run.steps == seq![
                    #[trigger] save_state_step(
                        root,
                        changed(state, Change::Running(pid), record.at),
                    ),
                ]
            },
    }
}

/// Whether a run has ended with the measurements `m` of a container that was attached,
/// and its cgroup and its network are removed.
pub open spec fn ended_attached(
    cfg: ContainerConfigView,
    index: u8,
    m: MetricsView,
    history: Seq<Event>,
) -> bool {
    let steps = clean_steps(network_for(cfg, index), leaf_path(cfg.id));
    &&& exists|pid: i32| #[trigger] attached(cfg, index, pid, history)
    &&& followed(history, steps, steps.len() as int)
    &&& m.container_ip == (if cfg.network {
        Some(address(index))
    } else {
        None
    })
}

/// Whether a run has ended with the measurements `m` though there was no container, and
/// its cgroup is removed.
pub open spec fn ended_refused(
    cfg: ContainerConfigView,
    m: MetricsView,
    history: Seq<Event>,
) -> bool {
    let steps = clean_steps(None, leaf_path(cfg.id));
    &&& refused(history)
    &&& followed(history, steps, steps.len() as int)
    &&& m.container_ip is None
}

/// What holds of a run once the pid of its container was asked for: the container is
/// attached and noted, or there is none.
pub open spec fn come(l: LaunchView, history: Seq<Event>) -> bool {
    let pid = l.progress.container;
    if pid > 0 {
        &&& l.progress.net == network_for(l.cfg, l.index)
        &&& attached(l.cfg, l.index, pid, history)
        &&& noted(l.record, pid, history)
    } else {
        &&& l.progress.net is None
        &&& refused(history)
    }
}

/// What holds of the run of the container `cfg` at every stage.
pub open spec fn launch_invariant(
    cfg: ContainerConfigView,
    index: u8,
    record: Option<RecordView>,
    course: LaunchCourse,
    history: Seq<Event>,
) -> bool {
    let leaf = leaf_path(cfg.id);
    match course {
        LaunchCourse::Middle(m) => m == MiddleView::start(cfg) && ready(cfg, history),
        LaunchCourse::Ended(Err(_)) => true,
        LaunchCourse::Ended(Ok(m)) => {
            &&& ready(cfg, history)
            &&& m.id == cfg.id
            &&& ended_attached(cfg, index, m, history) || ended_refused(cfg, m, history)
        },
        LaunchCourse::Ask(l) => {
            &&& l.cfg == cfg
            &&& l.index == index
            &&& l.record == record
            &&& l.cgroup == leaf
            &&& l.stage.wf()
            &&& stage_invariant(l, history)
        },
    }
}

/// What holds of a run at its stage.
pub open spec fn stage_invariant(l: LaunchView, history: Seq<Event>) -> bool {
    let pid = l.progress.container;
    match l.stage {
        LaunchStageView::Clock(op) => op is StartClock,
        LaunchStageView::Create(c) => c.leaf == l.cgroup && creation_invariant(c),
        LaunchStageView::Prepare(run) => {
            &&& run.steps == prepare_steps(l.cgroup, l.cfg.resources)
            &&& followed(history, run.steps, run.at)
        },
        LaunchStageView::Fork(op) => op is Fork && ready(l.cfg, history),
        LaunchStageView::Part(run) => run.steps == parent_steps() && ready(l.cfg, history),
        LaunchStageView::Learn(op) => op is ReceivePid && ready(l.cfg, history),
        LaunchStageView::Attach(run) => {
            &&& ready(l.cfg, history)
            &&& l.progress.net == network_for(l.cfg, l.index)
            &&& run.steps == attach_steps(l.cfg, l.index, l.cgroup, pid)
            &&& learned(history, pid)
            &&& followed(history, run.steps, run.at)
        },
        LaunchStageView::Note(u) => {
            &&& ready(l.cfg, history)
            &&& l.progress.net == network_for(l.cfg, l.index)
            &&& attached(l.cfg, l.index, pid, history)
            &&& l.record matches Some(record) && note_invariant(record, pid, u, history)
        },
        LaunchStageView::Clean(run) => {
            &&& ready(l.cfg, history)
            &&& come(l, history)
            &&& run.steps == clean_steps(l.progress.net, l.cgroup)
            &&& followed(history, run.steps, run.at)
        },
        LaunchStageView::Release(op) => {
            &&& op is Release
            &&& ready(l.cfg, history)
            &&& come(l, history)
            &&& pid > 0
        },
        LaunchStageView::Abandon(op) => {
            &&& op == close_step(Pipe::Release, PipeEnd::Write).op
            &&& ready(l.cfg, history)
            &&& come(l, history)
            &&& pid <= 0
        },
        LaunchStageView::Wait(op) => {
            &&& op is Wait
            &&& ready(l.cfg, history)
            &&& come(l, history)
        },
        _ => {
            &&& ready(l.cfg, history)
            &&& come(l, history)
            &&& l.stage.op() is ReadClock || l.stage.op() is ReadFile
        },
    }
}

proof fn lemma_creation(c: CgroupCreationView, reply: ReplyView)
    requires
        creation_invariant(c),
    ensures
        match c.next(reply) {
            CreationCourse::Ask(next) => next.leaf == c.leaf && creation_invariant(next),
            CreationCourse::Ended(Ok(leaf)) => leaf == c.leaf,
            CreationCourse::Ended(Err(_)) => true,
        },
{
    if let CreationStageView::Ask { question: QuestionView::Procs { want }, .. } = c.stage {
        let procs = match reply.text() {
            Some(t) => t,
            None => Seq::empty(),
        };
        let steps = delegation_steps(words(procs), want, c.leaf);
        assert forall|i: int| 0 <= i < steps.len() implies (#[trigger] steps[i]).op is WriteFile
            || steps[i].op is MakeDirs by {
            if i < words(procs).len() {
                assert(steps[i] == moves(words(procs))[i]);
            }
        }
    }
}

proof fn lemma_longer_learned(history: Seq<Event>, event: Event, pid: i32)
    ensures
        learned(history, pid) ==> learned(history.push(event), pid),
        event.0 is ReceivePid && received(event.1) == pid && pid > 0 ==> learned(
            history.push(event),
            pid,
        ),
{
    let longer = history.push(event);
    if learned(history, pid) {
        let k = choose|k: int|
            0 <= k < history.len() && (#[trigger] history[k]).0 is ReceivePid && received(
                history[k].1,
            ) == pid;
        assert(longer[k] == history[k]);
    }
    assert(longer[history.len() as int] == event);
}

proof fn lemma_still_attached(
    cfg: ContainerConfigView,
    index: u8,
    pid: i32,
    history: Seq<Event>,
    event: Event,
)
    ensures
        ready(cfg, history) ==> ready(cfg, history.push(event)),
        attached(cfg, index, pid, history) ==> attached(cfg, index, pid, history.push(event)),
{
    let leaf = leaf_path(cfg.id);
    if ready(cfg, history) {
        let steps = prepare_steps(leaf, cfg.resources);
        lemma_still_followed(history, event, steps, steps.len() as int);
    }
    if attached(cfg, index, pid, history) {
        let steps = attach_steps(cfg, index, leaf, pid);
        lemma_still_followed(history, event, steps, steps.len() as int);
        lemma_longer_learned(history, event, pid);
    }
}

proof fn lemma_still_noted(
    record: Option<RecordView>,
    pid: i32,
    history: Seq<Event>,
    event: Event,
)
    requires
        noted(record, pid, history),
    ensures
        noted(record, pid, history.push(event)),
{
    if let Some(r) = record {
        let longer = history.push(event);
        let path = state_path(container_dir(r.home, r.id));
        let k = choose|k: int|
            {
                &&& 0 <= k < history.len()
                &&& (#[trigger] history[k]).0 == OpView::LoadState(path)
                &&& history[k].1 matches ReplyView::State(state) ==> asked(
                    history,
                    OpView::SaveState { path, state: changed(state, Change::Running(pid), r.at) },
                )
            };
        assert(longer[k] == history[k]);
        if let ReplyView::State(state) = history[k].1 {
            lemma_longer(
                history,
                event,
                OpView::SaveState { path, state: changed(state, Change::Running(pid), r.at) },
            );
        }
    }
}

proof fn lemma_still_come(l: LaunchView, history: Seq<Event>, event: Event)
    requires
        come(l, history),
    ensures
        come(l, history.push(event)),
{
    let longer = history.push(event);
    if l.progress.container > 0 {
        lemma_still_attached(l.cfg, l.index, l.progress.container, history, event);
        lemma_still_noted(l.record, l.progress.container, history, event);
    } else {
        let k = choose|k: int|
            0 <= k < history.len() && (#[trigger] history[k]).0 is ReceivePid && received(
                history[k].1,
            ) <= 0;
        assert(longer[k] == history[k]);
    }
}

proof fn lemma_beginning(
    cfg: ContainerConfigView,
    index: u8,
    record: Option<RecordView>,
    l: LaunchView,
    history: Seq<Event>,
    reply: ReplyView,
)
    requires
        launch_invariant(cfg, index, record, LaunchCourse::Ask(l), history),
        l.stage is Clock || l.stage is Create || l.stage is Prepare,
    ensures
        launch_invariant(cfg, index, record, l.next(reply), history.push((l.stage.op(), reply))),
{
    let longer = history.push((l.stage.op(), reply));
    let steps = prepare_steps(leaf_path(cfg.id), cfg.resources);
    match l.stage {
        LaunchStageView::Create(c) => {
            lemma_creation(c, reply);
            assert(followed(longer, steps, 0));
            assert(steps.len() >= 2);
        },
        LaunchStageView::Prepare(run) => {
            lemma_progress(history, run, reply);
        },
        _ => {},
    }
}

proof fn lemma_learning(
    cfg: ContainerConfigView,
    index: u8,
    record: Option<RecordView>,
    l: LaunchView,
    history: Seq<Event>,
    reply: ReplyView,
)
    requires
        launch_invariant(cfg, index, record, LaunchCourse::Ask(l), history),
        l.stage is Fork || l.stage is Part || l.stage is Learn,
    ensures
        launch_invariant(cfg, index, record, l.next(reply), history.push((l.stage.op(), reply))),
{
    let event = (l.stage.op(), reply);
    let longer = history.push(event);
    let leaf = leaf_path(cfg.id);
    let pid = received(reply);
    lemma_still_attached(cfg, index, pid, history, event);
    if l.stage is Learn {
        lemma_longer_learned(history, event, pid);
        let steps = attach_steps(cfg, index, leaf, pid);
        assert(steps.len() > 0);
        assert(followed(longer, steps, 0));
        assert(longer[history.len() as int] == event);
    }
}

proof fn lemma_attaching(
    cfg: ContainerConfigView,
    index: u8,
    record: Option<RecordView>,
    l: LaunchView,
    history: Seq<Event>,
    reply: ReplyView,
)
    requires
        launch_invariant(cfg, index, record, LaunchCourse::Ask(l), history),
        l.stage is Attach || l.stage is Note,
    ensures
        launch_invariant(cfg, index, record, l.next(reply), history.push((l.stage.op(), reply))),
{
    let event = (l.stage.op(), reply);
    let longer = history.push(event);
    let pid = l.progress.container;
    lemma_still_attached(cfg, index, pid, history, event);
    match l.stage {
        LaunchStageView::Attach(run) => {
            lemma_progress(history, run, reply);
            lemma_longer_learned(history, event, pid);
        },
        LaunchStageView::Note(u) => {
            lemma_noting(l.record->0, pid, u, history, reply);
        },
        _ => {},
    }
}

proof fn lemma_noting(
    record: RecordView,
    pid: i32,
    u: UpdateView,
    history: Seq<Event>,
    reply: ReplyView,
)
    requires
        u.wf(),
        note_invariant(record, pid, u, history),
    ensures
        match u.next(reply, record.at) {
            UpdateCourse::Ask(next) => next.wf() && note_invariant(
                record,
                pid,
                next,
                history.push((u.op(), reply)),
            ),
            UpdateCourse::Ended(_) => noted(Some(record), pid, history.push((u.op(), reply))),
        },
{
    let event = (u.op(), reply);
    let longer = history.push(event);
    let root = container_dir(record.home, record.id);
    let path = state_path(root);
    assert(longer.last() == event);
    assert(longer[longer.len() - 1] == event);
    match u.stage {
        UpdateStageView::Load(_) => {
            if let ReplyView::State(state) = reply {
                let steps = seq![
                    save_state_step(root, changed(state, Change::Running(pid), record.at)),
                ];
                assert(place(steps, 0) is Ask);
            }
        },
        UpdateStageView::Save(run) => {
            let state = choose|state: ContainerStateView|
                {
                    &&& history.last() == (OpView::LoadState(path), ReplyView::State(state))
                    &&& run.steps == seq![
                        #[trigger] save_state_step(
                            root,
                            changed(state, Change::Running(pid), record.at),
                        ),
                    ]
                };
            let k = history.len() - 1;
            assert(longer[k] == history[k]);
            lemma_longer(history, event, event.0);
        },
    }
}

proof fn lemma_measuring(
    cfg: ContainerConfigView,
    index: u8,
    record: Option<RecordView>,
    l: LaunchView,
    history: Seq<Event>,
    reply: ReplyView,
)
    requires
        launch_invariant(cfg, index, record, LaunchCourse::Ask(l), history),
        !(l.stage is Clock || l.stage is Create || l.stage is Prepare),
        !(l.stage is Fork || l.stage is Part || l.stage is Learn),
        !(l.stage is Attach || l.stage is Note),
    ensures
        launch_invariant(cfg, index, record, l.next(reply), history.push((l.stage.op(), reply))),
{
    let event = (l.stage.op(), reply);
    let longer = history.push(event);
    lemma_still_attached(cfg, index, l.progress.container, history, event);
    lemma_still_come(l, history, event);
    let steps = clean_steps(l.progress.net, l.cgroup);
    match l.stage {
        LaunchStageView::Cpu(_) => {
            assert(followed(longer, steps, 0));
            assert(steps.len() > 0);
        },
        LaunchStageView::Clean(run) => {
            lemma_progress(history, run, reply);
            assert(run.steps[run.at].on_failure is Ignore);
        },
        _ => {},
    }
}

/// What holds of a run at every stage holds whatever the host answers.
pub proof fn lemma_launch_step(
    cfg: ContainerConfigView,
    index: u8,
    record: Option<RecordView>,
    l: LaunchView,
    history: Seq<Event>,
    reply: ReplyView,
)
    requires
        launch_invariant(cfg, index, record, LaunchCourse::Ask(l), history),
    ensures
        launch_invariant(cfg, index, record, l.next(reply), history.push((l.stage.op(), reply))),
{
    match l.stage {
        LaunchStageView::Clock(_)
        | LaunchStageView::Create(_)
        | LaunchStageView::Prepare(_) => {
            lemma_beginning(cfg, index, record, l, history, reply);
        },
        LaunchStageView::Fork(_)
        | LaunchStageView::Part(_)
        | LaunchStageView::Learn(_) => {
            lemma_learning(cfg, index, record, l, history, reply);
        },
        LaunchStageView::Attach(_)
        | LaunchStageView::Note(_) => {
            lemma_attaching(cfg, index, record, l, history, reply);
        },
        _ => {
            lemma_measuring(cfg, index, record, l, history, reply);
        },
    }
}

/// What holds of a run at every moment.
pub proof fn lemma_launch(
    cfg: ContainerConfigView,
    index: u8,
    record: Option<RecordView>,
    answers: spec_fn(int) -> ReplyView,
    n: nat,
)
    ensures
        launch_invariant(
            cfg,
            index,
            record,
            launch_run(cfg, index, record, answers, n).0,
            launch_run(cfg, index, record, answers, n).1,
        ),
    decreases n,
{
    if n > 0 {
        lemma_launch(cfg, index, record, answers, (n - 1) as nat);
        let before = launch_run(cfg, index, record, answers, (n - 1) as nat);
        if let LaunchCourse::Ask(l) = before.0 {
            lemma_launch_step(cfg, index, record, l, before.1, answers(n - 1));
        }
    }
}

/// Resource limits come first: where a process is forked, every limit that the
/// configuration sets has been written.
pub proof fn law_limited_before_fork(
    cfg: ContainerConfigView,
    index: u8,
    record: Option<RecordView>,
    answers: spec_fn(int) -> ReplyView,
    n: nat,
)
    requires
        match launch_run(cfg, index, record, answers, n).0 {
            LaunchCourse::Ask(l) => l.stage is Fork,
            LaunchCourse::Middle(_) => true,
            LaunchCourse::Ended(_) => false,
        },
    ensures
        ({
            let history = launch_run(cfg, index, record, answers, n).1;
            let leaf = leaf_path(cfg.id);
            let r = cfg.resources;
            &&& r.memory_max > 0 ==> did(
                history,
                write_step(leaf, "memory.max"@, decimal(r.memory_max as nat)).op,
            )
            &&& r.cpu_quota > 0 ==> did(
                history,
                write_step(
                    leaf,
                    "cpu.max"@,
                    decimal(r.cpu_quota as nat) + " "@ + decimal(r.cpu_period as nat),
                ).op,
            )
            &&& r.pids_max > 0 ==> did(
                history,
                write_step(leaf, "pids.max"@, decimal(r.pids_max as nat)).op,
            )
        }),
{
    lemma_launch(cfg, index, record, answers, n);
    let leaf = leaf_path(cfg.id);
    let r = cfg.resources;
    let steps = prepare_steps(leaf, r);
    let memory = memory_steps(leaf, r);
    let cpu = cpu_steps(leaf, r);
    assert forall|i: int| 0 <= i <= steps.len() implies #[trigger] unskippable(steps, i) by {
        assert(forall|k: int| 0 <= k < steps.len() ==> (#[trigger] steps[k]).skip == 0);
    }
    if r.memory_max > 0 {
        assert(unskippable(steps, 0));
        assert(steps[0] == memory[0]);
    }
    if r.cpu_quota > 0 {
        let i = memory.len() as int;
        assert(unskippable(steps, i));
        assert(steps[i] == cpu[0]);
    }
    if r.pids_max > 0 {
        let i = (memory.len() + cpu.len()) as int;
        assert(unskippable(steps, i));
        assert(steps[i] == pids_steps(leaf, r)[0]);
    }
}

/// Where a container is released, the pid that came through the pipe has been moved
/// into the cgroup of the container, and if it has a network it is wired up. If a record
/// of it is kept, it has been noted as running under that pid.
pub proof fn law_attached_before_release(
    cfg: ContainerConfigView,
    index: u8,
    record: Option<RecordView>,
    answers: spec_fn(int) -> ReplyView,
    n: nat,
)
    requires
        launch_run(cfg, index, record, answers, n).0 matches LaunchCourse::Ask(l)
            && l.stage is Release,
    ensures
        ({
            let history = launch_run(cfg, index, record, answers, n).1;
            exists|pid: i32|
                {
                    &&& pid > 0
                    &&& #[trigger] learned(history, pid)
                    &&& did(
                        history,
                        write_step(
                            leaf_path(cfg.id),
                            "cgroup.procs"@,
                            signed_decimal(pid as int),
                        ).op,
                    )
                    &&& cfg.network ==> wired(history, cfg, index, pid)
                    &&& noted(record, pid, history)
                }
        }),
{
    lemma_launch(cfg, index, record, answers, n);
    let history = launch_run(cfg, index, record, answers, n).1;
    let leaf = leaf_path(cfg.id);
    let pid = launch_run(cfg, index, record, answers, n).0->Ask_0.progress.container;
    let steps = attach_steps(cfg, index, leaf, pid);
    assert(unskippable(steps, 0));
    if cfg.network {
        let first = seq![write_step(leaf, "cgroup.procs"@, signed_decimal(pid as int))];
        let wiring = setup_steps(short(cfg.id), pid, index);
        law_wiring_complete(short(cfg.id), pid, index);
        assert forall|i: int| 4 <= i < 6 implies asked(history, (#[trigger] wiring[i]).op) by {
            assert(unskippable(wiring, i));
            lemma_unskippable_after(first, wiring, i);
            assert(steps == first + wiring);
            assert(unskippable(steps, 1 + i));
            assert(steps[1 + i] == wiring[i]);
        }
        assert forall|i: int| 7 <= i < 16 implies did(history, (#[trigger] wiring[i]).op) by {
            lemma_unskippable_after(first, wiring, i);
            assert(steps == first + wiring);
            assert(unskippable(steps, 1 + i));
            assert(steps[1 + i] == wiring[i]);
        }
    }
    assert(learned(history, pid));
}

/// Whether `op` attaches a process to a cgroup or a network, or lets it go on.
pub open spec fn lets_in(op: OpView) -> bool {
    op is WriteFile || op is Command || op is Release
}

/// Where no pid comes nothing is attached and nothing released. The run waits for the
/// process between it and the container all the same, removes the cgroup, and ends with
/// the exit code of that process.
pub proof fn law_no_pid_no_container(
    cfg: ContainerConfigView,
    index: u8,
    record: Option<RecordView>,
    answers: spec_fn(int) -> ReplyView,
    n: nat,
    status: WaitStatus,
)
    requires
        launch_run(cfg, index, record, answers, n).0 matches LaunchCourse::Ask(l)
            && l.stage is Learn,
        received(answers(n as int)) <= 0,
        answers(n as int + 3) == ReplyView::Status(status),
    ensures
        launch_run(cfg, index, record, answers, n + 9).0 matches LaunchCourse::Ended(Ok(m))
            && m.exit_code == exit_code(status, (-1) as i32) && m.container_ip is None
            && m.setup_nanos == nanos(answers(n as int + 1)) && m.wall_nanos == nanos(
            answers(n as int + 4),
        ),
        ({
            let before = launch_run(cfg, index, record, answers, n);
            let history = launch_run(cfg, index, record, answers, n + 9).1;
            &&& asked(history, OpView::RemoveDir(leaf_path(cfg.id)))
            &&& asked(history, OpView::Wait(before.0->Ask_0.progress.middle))
            &&& forall|k: int|
                before.1.len() <= k < history.len() ==> !lets_in((#[trigger] history[k]).0)
        }),
{
    lemma_launch(cfg, index, record, answers, n);
    let there = launch_run(cfg, index, record, answers, n);
    lemma_up_to_wait(cfg, index, record, answers, n, there.0->Ask_0);
    let waiting = launch_run(cfg, index, record, answers, n + 3);
    lemma_from_wait(cfg, index, record, answers, n + 3, waiting.0->Ask_0, status);
    let history = launch_run(cfg, index, record, answers, n + 9).1;
    let p = waiting.1.len() as int;
    assert(history[p].0 == OpView::Wait(there.0->Ask_0.progress.middle));
    assert forall|k: int| there.1.len() <= k < history.len() implies !lets_in(
        (#[trigger] history[k]).0,
    ) by {
        if k < p {
            assert(history[k] == waiting.1[k]);
        }
    }
    assert(history[history.len() - 1].0 == OpView::RemoveDir(leaf_path(cfg.id)));
}

#[verifier::rlimit(60)]
proof fn lemma_up_to_wait(
    cfg: ContainerConfigView,
    index: u8,
    record: Option<RecordView>,
    answers: spec_fn(int) -> ReplyView,
    n: nat,
    l: LaunchView,
)
    requires
        launch_run(cfg, index, record, answers, n).0 == LaunchCourse::Ask(l),
        l.stage == LaunchStageView::Learn(OpView::ReceivePid),
        received(answers(n as int)) <= 0,
    ensures
        ({
            let history = launch_run(cfg, index, record, answers, n).1;
            let then = launch_run(cfg, index, record, answers, n + 3);
            &&& then.0 == LaunchCourse::Ask(
                LaunchView {
                    progress: ProgressView {
                        container: 0,
                        net: None,
                        setup_nanos: nanos(answers(n as int + 1)),
                        ..l.progress
                    },
                    stage: LaunchStageView::Wait(OpView::Wait(l.progress.middle)),
                    ..l
                },
            )
            &&& then.1 == history.push((OpView::ReceivePid, answers(n as int))).push(
                (OpView::ReadClock, answers(n as int + 1)),
            ).push(
                (close_step(Pipe::Release, PipeEnd::Write).op, answers(n as int + 2)),
            )
        }),
{
    reveal_with_fuel(launch_run, 4);
}

proof fn lemma_from_wait(
    cfg: ContainerConfigView,
    index: u8,
    record: Option<RecordView>,
    answers: spec_fn(int) -> ReplyView,
    n: nat,
    l: LaunchView,
    status: WaitStatus,
)
    requires
        launch_run(cfg, index, record, answers, n).0 == LaunchCourse::Ask(l),
        l.stage is Wait,
        l.progress.net is None,
        answers(n as int) == ReplyView::Status(status),
    ensures
        launch_run(cfg, index, record, answers, n + 6).0 matches LaunchCourse::Ended(Ok(m))
            && m.exit_code == exit_code(status, (-1) as i32) && m.container_ip is None
            && m.setup_nanos == l.progress.setup_nanos && m.wall_nanos == nanos(
            answers(n as int + 1),
        ),
        ({
            let before = launch_run(cfg, index, record, answers, n).1;
            let history = launch_run(cfg, index, record, answers, n + 6).1;
            &&& history.len() > before.len()
            &&& forall|k: int| 0 <= k < before.len() ==> history[k] == #[trigger] before[k]
            &&& history[before.len() as int].0 == l.stage.op()
            &&& history.last().0 == OpView::RemoveDir(l.cgroup)
            &&& forall|k: int|
                before.len() < k < history.len() ==> !lets_in((#[trigger] history[k]).0)
        }),
{
    let h = launch_run(cfg, index, record, answers, n).1;
    let i = n as int;
    let ended = LaunchView {
        progress: ProgressView { exit_code: exit_code(status, (-1) as i32), ..l.progress },
        stage: LaunchStageView::WallClock(OpView::ReadClock),
        ..l
    };
    lemma_next(cfg, index, record, answers, n, l);
    assert(l.next(answers(i)) == LaunchCourse::Ask(ended));
    let timed = LaunchView {
        progress: ProgressView { wall_nanos: nanos(answers(i + 1)), ..ended.progress },
        stage: LaunchStageView::Peak(l.file("memory.peak"@)),
        ..l
    };
    lemma_next(cfg, index, record, answers, n + 1, ended);
    assert(ended.next(answers(i + 1)) == LaunchCourse::Ask(timed));
    lemma_next(cfg, index, record, answers, n + 2, timed);
    let three = launch_run(cfg, index, record, answers, n + 3);
    let w = three.0->Ask_0;
    lemma_last_reads(cfg, index, record, answers, n + 3, w);
    let end = launch_run(cfg, index, record, answers, n + 6);
    assert(three.1 == h.push((l.stage.op(), answers(i))).push(
        (OpView::ReadClock, answers(i + 1)),
    ).push((l.file("memory.peak"@), answers(i + 2))));
    assert forall|k: int| h.len() < k < end.1.len() implies !lets_in((#[trigger] end.1[k]).0) by {
        if k < three.1.len() {
            assert(end.1[k] == three.1[k]);
        }
    }
    assert forall|k: int| 0 <= k < h.len() implies end.1[k] == #[trigger] h[k] by {
        assert(three.1[k] == h[k]);
    }
    assert(end.1[h.len() as int] == three.1[h.len() as int]);
}

proof fn lemma_next(
    cfg: ContainerConfigView,
    index: u8,
    record: Option<RecordView>,
    answers: spec_fn(int) -> ReplyView,
    n: nat,
    l: LaunchView,
)
    requires
        launch_run(cfg, index, record, answers, n).0 == LaunchCourse::Ask(l),
    ensures
        launch_run(cfg, index, record, answers, n + 1) == (
            l.next(answers(n as int)),
            launch_run(cfg, index, record, answers, n).1.push(
                (l.stage.op(), answers(n as int)),
            ),
        ),
{
}

proof fn lemma_last_reads(
    cfg: ContainerConfigView,
    index: u8,
    record: Option<RecordView>,
    answers: spec_fn(int) -> ReplyView,
    n: nat,
    l: LaunchView,
)
    requires
        launch_run(cfg, index, record, answers, n).0 == LaunchCourse::Ask(l),
        l.stage is Current || l.stage is Cpu,
        l.stage.op() is ReadFile,
        l.progress.net is None,
    ensures
        launch_run(cfg, index, record, answers, n + 3).0 matches LaunchCourse::Ended(Ok(m))
            && m.exit_code == l.progress.exit_code && m.container_ip is None && m.setup_nanos
            == l.progress.setup_nanos && m.wall_nanos == l.progress.wall_nanos,
        ({
            let before = launch_run(cfg, index, record, answers, n).1;
            let history = launch_run(cfg, index, record, answers, n + 3).1;
            &&& history.len() > before.len()
            &&& forall|k: int| 0 <= k < before.len() ==> history[k] == #[trigger] before[k]
            &&& history.last().0 == OpView::RemoveDir(l.cgroup)
            &&& forall|k: int|
                before.len() <= k < history.len() ==> !lets_in((#[trigger] history[k]).0)
        }),
{
    reveal_with_fuel(launch_run, 4);
    let steps = clean_steps(None, l.cgroup);
    assert(steps.len() == 1);
}

/// Whether the container process `pid` was wired into the bridge, once its packets were
/// asked to be forwarded and the rule that translates their addresses asked for.
pub open spec fn wired(
    history: Seq<Event>,
    cfg: ContainerConfigView,
    index: u8,
    pid: i32,
) -> bool {
    let steps = setup_steps(short(cfg.id), pid, index);
    &&& asked(history, steps[4].op)
    &&& asked(history, steps[5].op)
    &&& forall|i: int| 7 <= i < 16 ==> did(history, (#[trigger] steps[i]).op)
}

/// Whether `op` moves the process that does it into another place than the host.
pub open spec fn leaves_host(op: OpView) -> bool {
    ||| op is Unshare
    ||| op is SetHostname
    ||| op is Mount
    ||| op is Detach
    ||| op is PivotRoot
    ||| op is ChangeDir
    ||| op is MakeDevice
    ||| op is DropCapability
    ||| op is ClearCapabilities
    ||| op is InstallFilter
    ||| op is Exec
}

pub proof fn lemma_prepare_ops(leaf: Seq<char>, r: Resources, i: int)
    requires
        0 <= i < prepare_steps(leaf, r).len(),
    ensures
        prepare_steps(leaf, r)[i].op is WriteFile || prepare_steps(leaf, r)[i].op is OpenPipe,
{
}

pub proof fn lemma_wiring_ops(short_id: Seq<char>, pid: i32, index: u8, i: int)
    requires
        0 <= i < setup_steps(short_id, pid, index).len(),
    ensures
        setup_steps(short_id, pid, index)[i].op is WriteFile || setup_steps(
            short_id,
            pid,
            index,
        )[i].op is Command,
{
}

/// The process that runs a container stays where it is: in the namespaces, the root
/// file system and with the rights that it has.
pub proof fn law_parent_stays(
    cfg: ContainerConfigView,
    index: u8,
    record: Option<RecordView>,
    answers: spec_fn(int) -> ReplyView,
    n: nat,
)
    ensures
        launch_run(cfg, index, record, answers, n).0 matches LaunchCourse::Ask(l) ==> !leaves_host(
            l.stage.op(),
        ),
{
    lemma_launch(cfg, index, record, answers, n);
    if let LaunchCourse::Ask(l) = launch_run(cfg, index, record, answers, n).0 {
        lemma_stays(l, launch_run(cfg, index, record, answers, n).1);
    }
}

proof fn lemma_stays(l: LaunchView, history: Seq<Event>)
    requires
        l.stage.wf(),
        l.cgroup == leaf_path(l.cfg.id),
        stage_invariant(l, history),
    ensures
        !leaves_host(l.stage.op()),
{
    match l.stage {
        LaunchStageView::Prepare(run) => {
            lemma_prepare_ops(l.cgroup, l.cfg.resources, run.at);
        },
        LaunchStageView::Attach(run) => {
            if run.at > 0 {
                lemma_wiring_ops(short(l.cfg.id), l.progress.container, l.index, run.at - 1);
            }
        },
        _ => {},
    }
}

/// A run that ends well has removed, as far as the host let it, the cgroup and the
/// network of its container. Its measurements are those of the container, with the
/// address that the container had. Where there was no container it had none.
pub proof fn law_nothing_left_behind(
    cfg: ContainerConfigView,
    index: u8,
    record: Option<RecordView>,
    answers: spec_fn(int) -> ReplyView,
    n: nat,
)
    requires
        launch_run(cfg, index, record, answers, n).0 matches LaunchCourse::Ended(Ok(_)),
    ensures
        launch_run(cfg, index, record, answers, n).0 matches LaunchCourse::Ended(Ok(m)) && {
            let history = launch_run(cfg, index, record, answers, n).1;
            &&& asked(history, OpView::RemoveDir(leaf_path(cfg.id)))
            &&& m.id == cfg.id
            &&& m.container_ip matches Some(ip) ==> cfg.network && ip == address(index)
            &&& cfg.network && !refused(history) ==> {
                &&& m.container_ip == Some(address(index))
                &&& asked(history, network_of(short(cfg.id), index).cleanup_step().op)
            }
        },
{
    lemma_launch(cfg, index, record, answers, n);
    let history = launch_run(cfg, index, record, answers, n).1;
    let leaf = leaf_path(cfg.id);
    let m = launch_run(cfg, index, record, answers, n).0->Ended_0->Ok_0;
    if ended_attached(cfg, index, m, history) {
        let steps = clean_steps(network_for(cfg, index), leaf);
        assert(unskippable(steps, 0));
        assert(unskippable(steps, steps.len() - 1));
    } else {
        let steps = clean_steps(None, leaf);
        assert(unskippable(steps, 0));
    }
}

// No run fails without a reason.

/// Whether the host did what it was asked, and answered as it should.
pub open spec fn served(event: Event) -> bool {
    match event.0 {
        OpView::Fork => event.1 is Pid || event.1 is Child,
        OpView::ReceivePid => received(event.1) > 0,
        OpView::Wait(_) => event.1 is Status,
        OpView::ReadClock => event.1 is Nanos,
        OpView::LoadState(_) => event.1 is State,
        OpView::ReadFile(path) => event.1.text() is Some && (path == controllers_file() ==> wanted(
            event.1.text()->0,
        ).len() > 0),
        _ => event.1 is Done,
    }
}

/// A run that fails has failed at its last operation, which the host did not do, or to
/// which it gave no fitting answer.
pub proof fn law_failure_has_a_reason(
    cfg: ContainerConfigView,
    index: u8,
    record: Option<RecordView>,
    answers: spec_fn(int) -> ReplyView,
    n: nat,
)
    requires
        launch_run(cfg, index, record, answers, n).0 matches LaunchCourse::Ended(Err(_)),
    ensures
        launch_run(cfg, index, record, answers, n).1.len() > 0,
        !served(launch_run(cfg, index, record, answers, n).1.last()),
    decreases n,
{
    let before = launch_run(cfg, index, record, answers, (n - 1) as nat);
    lemma_launch(cfg, index, record, answers, (n - 1) as nat);
    if let LaunchCourse::Ask(l) = before.0 {
        lemma_step_fails(cfg, index, record, l, before.1, answers(n - 1));
    } else {
        law_failure_has_a_reason(cfg, index, record, answers, (n - 1) as nat);
    }
}

proof fn lemma_step_fails(
    cfg: ContainerConfigView,
    index: u8,
    record: Option<RecordView>,
    l: LaunchView,
    history: Seq<Event>,
    reply: ReplyView,
)
    requires
        launch_invariant(cfg, index, record, LaunchCourse::Ask(l), history),
        l.next(reply) matches LaunchCourse::Ended(Err(_)),
    ensures
        !served((l.stage.op(), reply)),
{
    let leaf = leaf_path(cfg.id);
    match l.stage {
        LaunchStageView::Prepare(run) => {
            lemma_prepare_ops(leaf, cfg.resources, run.at);
        },
        LaunchStageView::Attach(run) => {
            if run.at > 0 {
                lemma_wiring_ops(short(cfg.id), l.progress.container, index, run.at - 1);
            }
        },
        _ => {},
    }
}

} // verus!
