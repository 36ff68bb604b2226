//! What the run of a container asks of the host, and where its measurements come from.

use crate::cgroups::{
    delegation_steps, leaf_path, moves, reading, usage, CgroupCreationView, CreationCourse,
    CreationStageView, QuestionView,
};
use crate::config::{is_random_uuid, short, ContainerConfigView};
use crate::container::{
    attach_steps, clean_steps, parent_steps, prepare_steps, LaunchCourse, LaunchStageView,
    LaunchView, MetricsView, MiddleView, RecordView,
};
use crate::error::RuntimeErrorView;
use crate::guarantees::{
    asked, attached, ended_attached, launch_invariant, launch_run, lemma_launch,
    lemma_launch_step, lemma_prepare_ops, lemma_wiring_ops, network_for, Event,
};
use crate::host::{OpView, Pipe, PipeEnd, ReplyView, WaitStatus};
use crate::network::{setup_steps, veth_name};
use crate::order::{
    done_in_order, fits, lemma_done_after, lemma_done_in_order, lemma_pace, lemma_pace_begins,
    lemma_pace_stays, paced,
};
use crate::plan::{unskippable, OnFailureView, PlanRunView};
use crate::scan::{lines, path_joined, trimmed, words};
use crate::state::{container_dir, state_path};
use crate::text::{decimal, parsed_u64, signed_decimal};
use vstd::prelude::*;

verus! {

// What is asked of the host.

/// The operation that runs `ip` with the arguments `args`.
pub open spec fn ip(args: Seq<Seq<char>>) -> OpView {
    OpView::Command { program: "ip"@, args }
}

/// The operation that runs `ip` with the arguments `args` in the network of the process
/// `pid`.
pub open spec fn ip_inside(pid: i32, args: Seq<Seq<char>>) -> OpView {
    OpView::Command {
        program: "nsenter"@,
        args: seq!["-t"@, signed_decimal(pid as int), "-n"@, "ip"@] + args,
    }
}

/// The operation that runs `iptables` on the rule by which what the containers send
/// leaves under the address of the host.
pub open spec fn nat_rule(verb: Seq<char>) -> OpView {
    OpView::Command {
        program: "iptables"@,
        args: seq![
            "-t"@,
            "nat"@,
            verb,
            "POSTROUTING"@,
            "-s"@,
            "10.66.0.0/24"@,
            "!"@,
            "-o"@,
            "mc0"@,
            "-j"@,
            "MASQUERADE"@,
        ],
    }
}

/// The operations that make the bridge.
pub open spec fn bridge_ops() -> Seq<OpView> {
    seq![
        ip(seq!["link"@, "show"@, "mc0"@]),
        ip(seq!["link"@, "add"@, "mc0"@, "type"@, "bridge"@]),
        ip(seq!["addr"@, "add"@, "10.66.0.1"@ + "/24"@, "dev"@, "mc0"@]),
        ip(seq!["link"@, "set"@, "mc0"@, "up"@]),
        OpView::WriteFile { path: "/proc/sys/net/ipv4/ip_forward"@, contents: "1"@ },
        nat_rule("-C"@),
        nat_rule("-A"@),
    ]
}

/// The operations that wire the process `pid` into the bridge: a pair of links is made,
/// the host's end is plugged into the bridge, and the other end becomes eth0 of the
/// process, with the address of its index.
pub open spec fn link_ops(cfg: ContainerConfigView, index: u8, pid: i32) -> Seq<OpView> {
    let here = veth_name("mch"@, short(cfg.id));
    let there = veth_name("mcp"@, short(cfg.id));
    seq![
        ip(seq!["link"@, "add"@, here, "type"@, "veth"@, "peer"@, "name"@, there]),
        ip(seq!["link"@, "set"@, here, "master"@, "mc0"@]),
        ip(seq!["link"@, "set"@, here, "up"@]),
        ip(seq!["link"@, "set"@, there, "netns"@, signed_decimal(pid as int)]),
        ip_inside(pid, seq!["link"@, "set"@, there, "name"@, "eth0"@]),
        ip_inside(
            pid,
            seq![
                "addr"@,
                "add"@,
                "10.66.0."@ + decimal((index + 2) as nat) + "/24"@,
                "dev"@,
                "eth0"@,
            ],
        ),
        ip_inside(pid, seq!["link"@, "set"@, "eth0"@, "up"@]),
        ip_inside(pid, seq!["link"@, "set"@, "lo"@, "up"@]),
        ip_inside(pid, seq!["route"@, "add"@, "default"@, "via"@, "10.66.0.1"@]),
    ]
}

/// Whether `contents` is to be written to `path` to limit the container `cfg`.
pub open spec fn limits(cfg: ContainerConfigView, path: Seq<char>, contents: Seq<char>) -> bool {
    let leaf = leaf_path(cfg.id);
    let r = cfg.resources;
    ||| path == path_joined(leaf, "memory.max"@) && r.memory_max > 0 && contents == decimal(
        r.memory_max as nat,
    )
    ||| path == path_joined(leaf, "memory.swap.max"@) && r.memory_max > 0 && contents == "0"@
    ||| path == path_joined(leaf, "cpu.max"@) && r.cpu_quota > 0 && contents == decimal(
        r.cpu_quota as nat,
    ) + " "@ + decimal(r.cpu_period as nat)
    ||| path == path_joined(leaf, "pids.max"@) && r.pids_max > 0 && contents == decimal(
        r.pids_max as nat,
    )
}

/// Whether the process that runs the container `cfg` has reason to ask for `op`, when it
/// forked the process `middle` and was told of the container process `pid`.
pub open spec fn of_the_run(
    cfg: ContainerConfigView,
    index: u8,
    record: Option<RecordView>,
    middle: i32,
    pid: i32,
    op: OpView,
) -> bool {
    let leaf = leaf_path(cfg.id);
    match op {
        OpView::StartClock => true,
        OpView::ReadClock => true,
        OpView::Fork => true,
        OpView::ReceivePid => true,
        OpView::Release => pid > 0,
        OpView::OpenPipe(_) => true,
        OpView::Close { pipe, end } => {
            ||| pipe is Release && end is Read
            ||| pipe is Pid && end is Write
            ||| pipe is Release && end is Write && pid <= 0
        },
        OpView::Wait(process) => process == middle,
        OpView::MakeDirs(path) => path == "/sys/fs/cgroup/mc.init"@ || path == leaf,
        OpView::ReadFile(path) => {
            ||| path == "/sys/fs/cgroup/cgroup.controllers"@
            ||| path == "/sys/fs/cgroup/cgroup.subtree_control"@
            ||| path == "/sys/fs/cgroup/cgroup.procs"@
            ||| path == path_joined(leaf, "memory.peak"@)
            ||| path == path_joined(leaf, "memory.current"@)
            ||| path == path_joined(leaf, "cpu.stat"@)
        },
        OpView::WriteFile { path, contents } => {
            ||| path == "/sys/fs/cgroup/mc.init/cgroup.procs"@
            ||| path == "/sys/fs/cgroup/cgroup.subtree_control"@
            ||| limits(cfg, path, contents)
            ||| path == path_joined(leaf, "cgroup.procs"@) && contents == signed_decimal(
                pid as int,
            ) && pid > 0
            ||| cfg.network && pid > 0 && path == "/proc/sys/net/ipv4/ip_forward"@ && contents
                == "1"@
        },
        OpView::Command { .. } => cfg.network && pid > 0 && {
            ||| exists|i: int| 0 <= i < 7 && op == #[trigger] bridge_ops()[i]
            ||| exists|i: int| 0 <= i < 9 && op == #[trigger] link_ops(cfg, index, pid)[i]
            ||| op == ip(seq!["link"@, "delete"@, veth_name("mch"@, short(cfg.id))])
        },
        OpView::RemoveDir(path) => path == leaf,
        OpView::LoadState(path) => record matches Some(r) && pid > 0 && path == state_path(
            container_dir(r.home, r.id),
        ),
        OpView::SaveState { path, .. } => record matches Some(r) && pid > 0 && path == state_path(
            container_dir(r.home, r.id),
        ),
        _ => false,
    }
}

/// What a step of the creation of a leaf says of its failure.
pub open spec fn creation_failure(op: OpView) -> OnFailureView {
    match op {
        OpView::MakeDirs(path) => OnFailureView::Cgroup("mkdir "@ + path),
        OpView::WriteFile { path, contents } => if path
            == "/sys/fs/cgroup/cgroup.subtree_control"@ {
            OnFailureView::Cgroup("enable "@ + contents)
        } else {
            OnFailureView::Ignore
        },
        _ => OnFailureView::Ignore,
    }
}

proof fn lemma_root_files()
    ensures
        "/sys/fs/cgroup"@.len() == 14,
        "/sys/fs/cgroup"@.last() == 'p',
        "/sys/fs/cgroup/mc.init"@.len() == 22,
        "/sys/fs/cgroup/mc.init/cgroup.procs"@.len() == 35,
        "/sys/fs/cgroup/cgroup.subtree_control"@.len() == 37,
        "/sys/fs/cgroup/cgroup.controllers"@.len() == 33,
        "/sys/fs/cgroup/cgroup.procs"@.len() == 27,
        "/proc/sys/net/ipv4/ip_forward"@.len() == 29,
{
    reveal_strlit("/sys/fs/cgroup");
    reveal_strlit("/sys/fs/cgroup/mc.init");
    reveal_strlit("/sys/fs/cgroup/mc.init/cgroup.procs");
    reveal_strlit("/sys/fs/cgroup/cgroup.subtree_control");
    reveal_strlit("/sys/fs/cgroup/cgroup.controllers");
    reveal_strlit("/sys/fs/cgroup/cgroup.procs");
    reveal_strlit("/proc/sys/net/ipv4/ip_forward");
}

/// What is known of the creation of a leaf at every stage.
pub open spec fn creation_known(c: CgroupCreationView) -> bool {
    match c.stage {
        CreationStageView::Ask { op, question } => match question {
            QuestionView::Controllers => op == OpView::ReadFile(
                "/sys/fs/cgroup/cgroup.controllers"@,
            ),
            QuestionView::Subtree { .. } => op == OpView::ReadFile(
                "/sys/fs/cgroup/cgroup.subtree_control"@,
            ),
            QuestionView::InitLeaf { .. } => op == OpView::MakeDirs("/sys/fs/cgroup/mc.init"@),
            QuestionView::Procs { .. } => op == OpView::ReadFile("/sys/fs/cgroup/cgroup.procs"@),
        },
        CreationStageView::Finish(run) => run.wf() && forall|i: int|
            0 <= i < run.steps.len() ==> match (#[trigger] run.steps[i]).op {
                OpView::MakeDirs(path) => path == c.leaf,
                OpView::WriteFile { path, .. } => path == "/sys/fs/cgroup/mc.init/cgroup.procs"@
                    || path == "/sys/fs/cgroup/cgroup.subtree_control"@,
                _ => false,
            } && run.steps[i].skip == 0 && (i == run.steps.len() - 1 ==> run.steps[i].op
                == OpView::MakeDirs(c.leaf)) && run.steps[i].on_failure == creation_failure(
                run.steps[i].op,
            ),
    }
}

proof fn lemma_creation_known(c: CgroupCreationView, reply: ReplyView)
    requires
        creation_known(c),
        c.stage.wf(),
    ensures
        c.next(reply) matches CreationCourse::Ask(next) ==> creation_known(next) && next.leaf
            == c.leaf,
        c.next(reply) matches CreationCourse::Ended(Ok(leaf)) ==> {
            &&& leaf == c.leaf
            &&& c.stage.op() == OpView::MakeDirs(leaf)
            &&& reply is Done
        },
{
    if let CreationStageView::Ask { question: QuestionView::Procs { want }, .. } = c.stage {
        let procs = match reply.text() {
            Some(t) => t,
            None => Seq::empty(),
        };
        let steps = delegation_steps(words(procs), want, c.leaf);
        assert forall|i: int| 0 <= i < steps.len() implies match (#[trigger] steps[i]).op {
            OpView::MakeDirs(path) => path == c.leaf,
            OpView::WriteFile { path, .. } => path == "/sys/fs/cgroup/mc.init/cgroup.procs"@
                || path == "/sys/fs/cgroup/cgroup.subtree_control"@,
            _ => false,
        } && steps[i].skip == 0 && (i == steps.len() - 1 ==> steps[i].op == OpView::MakeDirs(
            c.leaf,
        )) && steps[i].on_failure == creation_failure(steps[i].op) by {
            lemma_root_files();
            if i < words(procs).len() {
                assert(steps[i] == moves(words(procs))[i]);
            }
        }
    }
}

/// What is known of a run beyond what [`launch_invariant`] says of it.
pub open spec fn run_known(l: LaunchView) -> bool {
    match l.stage {
        LaunchStageView::Create(c) => creation_known(c),
        LaunchStageView::Wait(op) => op == OpView::Wait(l.progress.middle),
        LaunchStageView::SetupClock(op) => op is ReadClock,
        LaunchStageView::WallClock(op) => op is ReadClock,
        LaunchStageView::Peak(op) => op == OpView::ReadFile(path_joined(l.cgroup, "memory.peak"@)),
        LaunchStageView::Current(op) => op == OpView::ReadFile(
            path_joined(l.cgroup, "memory.current"@),
        ),
        LaunchStageView::Cpu(op) => op == OpView::ReadFile(path_joined(l.cgroup, "cpu.stat"@)),
        LaunchStageView::Attach(_) => l.progress.container > 0,
        LaunchStageView::Note(_) => l.progress.container > 0,
        _ => true,
    }
}

proof fn lemma_run_known(l: LaunchView, reply: ReplyView)
    requires
        run_known(l),
        l.stage.wf(),
    ensures
        l.next(reply) matches LaunchCourse::Ask(next) ==> run_known(next),
{
    if let LaunchStageView::Create(c) = l.stage {
        lemma_creation_known(c, reply);
    }
}

/// What holds of a run at every moment.
pub open spec fn run_sound(
    cfg: ContainerConfigView,
    index: u8,
    record: Option<RecordView>,
    course: LaunchCourse,
    history: Seq<Event>,
) -> bool {
    &&& launch_invariant(cfg, index, record, course, history)
    &&& course matches LaunchCourse::Ask(l) ==> run_known(l)
}

/// A run that goes on stays sound.
pub proof fn lemma_run_sound_step(
    cfg: ContainerConfigView,
    index: u8,
    record: Option<RecordView>,
    l: LaunchView,
    history: Seq<Event>,
    reply: ReplyView,
)
    requires
        run_sound(cfg, index, record, LaunchCourse::Ask(l), history),
    ensures
        run_sound(cfg, index, record, l.next(reply), history.push((l.stage.op(), reply))),
{
    lemma_launch_step(cfg, index, record, l, history, reply);
    lemma_run_known(l, reply);
}

/// A run is sound at every moment.
pub proof fn lemma_run_sound(
    cfg: ContainerConfigView,
    index: u8,
    record: Option<RecordView>,
    answers: spec_fn(int) -> ReplyView,
    n: nat,
)
    ensures
        run_sound(
            cfg,
            index,
            record,
            launch_run(cfg, index, record, answers, n).0,
            launch_run(cfg, index, record, answers, n).1,
        ),
    decreases n,
{
    if n > 0 {
        lemma_run_sound(cfg, index, record, answers, (n - 1) as nat);
        let before = launch_run(cfg, index, record, answers, (n - 1) as nat);
        if let LaunchCourse::Ask(l) = before.0 {
            lemma_run_sound_step(cfg, index, record, l, before.1, answers(n - 1));
        }
    } else {
        lemma_launch(cfg, index, record, answers, 0);
    }
}

proof fn lemma_prepare_op(cfg: ContainerConfigView, i: int)
    requires
        0 <= i < prepare_steps(leaf_path(cfg.id), cfg.resources).len(),
    ensures
        match prepare_steps(leaf_path(cfg.id), cfg.resources)[i].op {
            OpView::OpenPipe(_) => true,
            OpView::WriteFile { path, contents } => limits(cfg, path, contents),
            _ => false,
        },
{
}

proof fn lemma_attach_op(cfg: ContainerConfigView, index: u8, pid: i32, i: int)
    requires
        0 <= i < attach_steps(cfg, index, leaf_path(cfg.id), pid).len(),
    ensures
        ({
            let op = attach_steps(cfg, index, leaf_path(cfg.id), pid)[i].op;
            if i == 0 {
                op == (OpView::WriteFile {
                    path: path_joined(leaf_path(cfg.id), "cgroup.procs"@),
                    contents: signed_decimal(pid as int),
                })
            } else {
                &&& cfg.network
                &&& i <= 7 ==> op == bridge_ops()[i - 1]
                &&& i > 7 ==> i < 17 && op == link_ops(cfg, index, pid)[i - 8]
            }
        }),
{
    if i > 0 {
        let all = setup_steps(short(cfg.id), pid, index);
        assert(attach_steps(cfg, index, leaf_path(cfg.id), pid)[i] == all[i - 1]);
        lemma_wire_op(cfg, index, pid, i - 1);
    }
}

proof fn lemma_wire_op(cfg: ContainerConfigView, index: u8, pid: i32, i: int)
    requires
        0 <= i < 16,
    ensures
        i < 7 ==> setup_steps(short(cfg.id), pid, index)[i].op == bridge_ops()[i],
        i >= 7 ==> setup_steps(short(cfg.id), pid, index)[i].op == link_ops(cfg, index, pid)[i - 7],
        setup_steps(short(cfg.id), pid, index).len() == 16,
{
    let op = setup_steps(short(cfg.id), pid, index)[i].op;
    if i < 7 {
        if i != 4 {
            assert(op->Command_args =~= bridge_ops()[i]->Command_args);
        }
    } else {
        assert(op->Command_args =~= link_ops(cfg, index, pid)[i - 7]->Command_args);
    }
}

/// The process that runs a container asks for nothing but what the container needs: it
/// writes its limits, attaches its process and reads its files, makes and removes its
/// leaf, wires it, keeps its record, and waits for the process that it forked.
pub proof fn law_nothing_but_the_run(
    cfg: ContainerConfigView,
    index: u8,
    record: Option<RecordView>,
    answers: spec_fn(int) -> ReplyView,
    n: nat,
)
    ensures
        launch_run(cfg, index, record, answers, n).0 matches LaunchCourse::Ask(l) ==> of_the_run(
            cfg,
            index,
            record,
            l.progress.middle,
            l.progress.container,
            l.stage.op(),
        ),
{
    lemma_run_sound(cfg, index, record, answers, n);
    if let LaunchCourse::Ask(l) = launch_run(cfg, index, record, answers, n).0 {
        lemma_of_the_run(cfg, index, record, l, launch_run(cfg, index, record, answers, n).1);
    }
}

/// What is asked for at any stage of a sound run.
pub proof fn lemma_of_the_run(
    cfg: ContainerConfigView,
    index: u8,
    record: Option<RecordView>,
    l: LaunchView,
    history: Seq<Event>,
)
    requires
        run_sound(cfg, index, record, LaunchCourse::Ask(l), history),
    ensures
        of_the_run(
            cfg,
            index,
            record,
            l.progress.middle,
            l.progress.container,
            l.stage.op(),
        ),
{
    let pid = l.progress.container;
    match l.stage {
        LaunchStageView::Prepare(run) => {
            lemma_prepare_op(cfg, run.at);
        },
        LaunchStageView::Attach(run) => {
            lemma_attach_op(cfg, index, pid, run.at);
            if run.at > 0 && run.at <= 7 {
                let at = run.at - 1;
                assert(run.op() == bridge_ops()[at]);
            } else if run.at > 7 {
                let at = run.at - 8;
                assert(run.op() == link_ops(cfg, index, pid)[at]);
            }
        },
        LaunchStageView::Clean(run) => {
            if let Some(net) = l.progress.net {
                assert(run.steps[0] == net.cleanup_step());
                assert(run.steps.len() == 2);
                if run.at == 0 {
                    assert(run.op()->Command_args =~= ip(
                        seq!["link"@, "delete"@, veth_name("mch"@, short(cfg.id))],
                    )->Command_args);
                }
            }
        },
        LaunchStageView::Part(run) => {
            assert(run.steps == parent_steps());
        },
        _ => {},
    }
}

// What is done before the fork, and before the release.

/// Whether the leaf of the container `cfg` was made, and then the steps before `at` taken
/// that limit it and open the pipes.
pub open spec fn prepared(cfg: ContainerConfigView, history: Seq<Event>, at: int) -> bool {
    let leaf = leaf_path(cfg.id);
    exists|k: int|
        {
            &&& 0 <= k < history.len()
            &&& #[trigger] history[k] == (OpView::MakeDirs(leaf), ReplyView::Done)
            &&& paced(history, prepare_steps(leaf, cfg.resources), at, k + 1)
        }
}

spec fn all_prepared(cfg: ContainerConfigView, history: Seq<Event>) -> bool {
    prepared(cfg, history, prepare_steps(leaf_path(cfg.id), cfg.resources).len() as int)
}

spec fn all_attached(l: LaunchView, history: Seq<Event>) -> bool {
    let steps = attach_steps(l.cfg, l.index, l.cgroup, l.progress.container);
    l.progress.container > 0 ==> paced(history, steps, steps.len() as int, 0)
}

spec fn run_paced(l: LaunchView, history: Seq<Event>) -> bool {
    match l.stage {
        LaunchStageView::Clock(_) => true,
        LaunchStageView::Create(_) => true,
        LaunchStageView::Prepare(run) => prepared(l.cfg, history, run.at),
        LaunchStageView::Fork(_) => all_prepared(l.cfg, history),
        LaunchStageView::Part(_) => all_prepared(l.cfg, history),
        LaunchStageView::Learn(_) => all_prepared(l.cfg, history),
        LaunchStageView::Attach(run) => {
            &&& all_prepared(l.cfg, history)
            &&& paced(history, run.steps, run.at, 0)
        },
        _ => all_prepared(l.cfg, history) && all_attached(l, history),
    }
}

proof fn lemma_stays_prepared(
    cfg: ContainerConfigView,
    history: Seq<Event>,
    event: Event,
    at: int,
)
    ensures
        prepared(cfg, history, at) ==> prepared(cfg, history.push(event), at),
{
    if prepared(cfg, history, at) {
        let leaf = leaf_path(cfg.id);
        let steps = prepare_steps(leaf, cfg.resources);
        let k = choose|k: int|
            {
                &&& 0 <= k < history.len()
                &&& #[trigger] history[k] == (OpView::MakeDirs(leaf), ReplyView::Done)
                &&& paced(history, steps, at, k + 1)
            };
        lemma_pace_stays(history, event, steps, at, k + 1);
        assert(history.push(event)[k] == history[k]);
    }
}

proof fn lemma_run_paced(
    cfg: ContainerConfigView,
    index: u8,
    record: Option<RecordView>,
    l: LaunchView,
    history: Seq<Event>,
    reply: ReplyView,
)
    requires
        run_sound(cfg, index, record, LaunchCourse::Ask(l), history),
        run_paced(l, history),
    ensures
        l.next(reply) matches LaunchCourse::Ask(next) ==> run_paced(
            next,
            history.push((l.stage.op(), reply)),
        ),
{
    let event = (l.stage.op(), reply);
    let longer = history.push(event);
    let leaf = leaf_path(cfg.id);
    let steps = prepare_steps(leaf, cfg.resources);
    lemma_stays_prepared(cfg, history, event, steps.len() as int);
    let joining = attach_steps(cfg, index, leaf, l.progress.container);
    lemma_pace_stays(history, event, joining, joining.len() as int, 0);
    match l.stage {
        LaunchStageView::Create(c) => {
            lemma_creation_known(c, reply);
            if let CreationCourse::Ended(Ok(_)) = c.next(reply) {
                let k = history.len() as int;
                lemma_pace_begins(longer, steps, k + 1);
                assert(longer[k] == (OpView::MakeDirs(leaf), ReplyView::Done));
                assert(prepared(cfg, longer, 0));
            }
        },
        LaunchStageView::Prepare(run) => {
            let k = choose|k: int|
                {
                    &&& 0 <= k < history.len()
                    &&& #[trigger] history[k] == (OpView::MakeDirs(leaf), ReplyView::Done)
                    &&& paced(history, steps, run.at, k + 1)
                };
            lemma_pace(history, run, reply, k + 1);
            assert(longer[k] == history[k]);
        },
        LaunchStageView::Learn(_) => {
            if let LaunchCourse::Ask(next) = l.next(reply) {
                lemma_pace_begins(
                    longer,
                    attach_steps(cfg, index, leaf, next.progress.container),
                    0,
                );
            }
        },
        LaunchStageView::Attach(run) => {
            lemma_pace(history, run, reply, 0);
        },
        _ => {},
    }
}

proof fn lemma_run_paced_at(
    cfg: ContainerConfigView,
    index: u8,
    record: Option<RecordView>,
    answers: spec_fn(int) -> ReplyView,
    n: nat,
)
    ensures
        launch_run(cfg, index, record, answers, n).0 matches LaunchCourse::Ask(l) ==> run_paced(
            l,
            launch_run(cfg, index, record, answers, n).1,
        ),
    decreases n,
{
    if n > 0 {
        lemma_run_paced_at(cfg, index, record, answers, (n - 1) as nat);
        lemma_run_sound(cfg, index, record, answers, (n - 1) as nat);
        let before = launch_run(cfg, index, record, answers, (n - 1) as nat);
        if let LaunchCourse::Ask(l) = before.0 {
            lemma_run_paced(cfg, index, record, l, before.1, answers(n - 1));
        }
    }
}

/// What is written to limit the container `cfg`: a limit that is 0 is none.
pub open spec fn limit_ops(cfg: ContainerConfigView) -> Seq<OpView> {
    let leaf = leaf_path(cfg.id);
    let r = cfg.resources;
    (if r.memory_max > 0 {
        seq![
            OpView::WriteFile {
                path: path_joined(leaf, "memory.max"@),
                contents: decimal(r.memory_max as nat),
            },
        ]
    } else {
        Seq::empty()
    }) + (if r.cpu_quota > 0 {
        seq![
            OpView::WriteFile {
                path: path_joined(leaf, "cpu.max"@),
                contents: decimal(r.cpu_quota as nat) + " "@ + decimal(r.cpu_period as nat),
            },
        ]
    } else {
        Seq::empty()
    }) + (if r.pids_max > 0 {
        seq![
            OpView::WriteFile {
                path: path_joined(leaf, "pids.max"@),
                contents: decimal(r.pids_max as nat),
            },
        ]
    } else {
        Seq::empty()
    })
}

/// Where a process is forked, the leaf of the container was made, then every limit of the
/// configuration was written into it, then the two pipes were opened. All of this was
/// done, in this order. Where the memory is limited, it was also asked that there be no
/// swap.
pub proof fn law_limits_in_order(
    cfg: ContainerConfigView,
    index: u8,
    record: Option<RecordView>,
    answers: spec_fn(int) -> ReplyView,
    n: nat,
)
    requires
        launch_run(cfg, index, record, answers, n).0 matches LaunchCourse::Ask(l)
            && l.stage.op() is Fork,
    ensures
        done_in_order(
            launch_run(cfg, index, record, answers, n).1,
            seq![OpView::MakeDirs(leaf_path(cfg.id))] + (limit_ops(cfg) + seq![
                OpView::OpenPipe(Pipe::Release),
                OpView::OpenPipe(Pipe::Pid),
            ]),
        ),
        cfg.resources.memory_max > 0 ==> asked(
            launch_run(cfg, index, record, answers, n).1,
            OpView::WriteFile {
                path: path_joined(leaf_path(cfg.id), "memory.swap.max"@),
                contents: "0"@,
            },
        ),
{
    lemma_run_paced_at(cfg, index, record, answers, n);
    lemma_run_sound(cfg, index, record, answers, n);
    let history = launch_run(cfg, index, record, answers, n).1;
    let l = launch_run(cfg, index, record, answers, n).0->Ask_0;
    lemma_fork_stage(cfg, index, record, l, history);
    lemma_limits_in_order(cfg, history);
}

proof fn lemma_fork_stage(
    cfg: ContainerConfigView,
    index: u8,
    record: Option<RecordView>,
    l: LaunchView,
    history: Seq<Event>,
)
    requires
        run_sound(cfg, index, record, LaunchCourse::Ask(l), history),
    ensures
        l.stage.op() is Fork ==> l.stage is Fork,
        l.stage.op() is Release ==> l.stage is Release,
{
    match l.stage {
        LaunchStageView::Prepare(run) => {
            lemma_prepare_ops(l.cgroup, l.cfg.resources, run.at);
        },
        LaunchStageView::Attach(run) => {
            lemma_attach_op(cfg, index, l.progress.container, run.at);
            if run.at > 0 {
                lemma_wiring_ops(short(l.cfg.id), l.progress.container, l.index, run.at - 1);
            }
        },
        _ => {},
    }
}

proof fn lemma_limits_in_order(cfg: ContainerConfigView, history: Seq<Event>)
    requires
        all_prepared(cfg, history),
    ensures
        done_in_order(
            history,
            seq![OpView::MakeDirs(leaf_path(cfg.id))] + (limit_ops(cfg) + seq![
                OpView::OpenPipe(Pipe::Release),
                OpView::OpenPipe(Pipe::Pid),
            ]),
        ),
        cfg.resources.memory_max > 0 ==> asked(
            history,
            OpView::WriteFile {
                path: path_joined(leaf_path(cfg.id), "memory.swap.max"@),
                contents: "0"@,
            },
        ),
{
    let leaf = leaf_path(cfg.id);
    let r = cfg.resources;
    let steps = prepare_steps(leaf, r);
    let k = choose|k: int|
        {
            &&& 0 <= k < history.len()
            &&& #[trigger] history[k] == (OpView::MakeDirs(leaf), ReplyView::Done)
            &&& paced(history, steps, steps.len() as int, k + 1)
        };
    let ops = limit_ops(cfg) + seq![
        OpView::OpenPipe(Pipe::Release),
        OpView::OpenPipe(Pipe::Pid),
    ];
    let m: int = if r.memory_max > 0 {
        2
    } else {
        0
    };
    let c: int = if r.cpu_quota > 0 {
        1
    } else {
        0
    };
    let p: int = if r.pids_max > 0 {
        1
    } else {
        0
    };
    let chosen = (if r.memory_max > 0 {
        seq![0int]
    } else {
        Seq::empty()
    }) + (if r.cpu_quota > 0 {
        seq![m]
    } else {
        Seq::empty()
    }) + (if r.pids_max > 0 {
        seq![m + c]
    } else {
        Seq::empty()
    }) + seq![m + c + p, m + c + p + 1];
    assert forall|i: int| 0 <= i < steps.len() implies (#[trigger] steps[i]).skip == 0 by {};
    lemma_done_after(history, k, OpView::MakeDirs(leaf), steps, chosen, ops);
    if r.memory_max > 0 {
        let from = k + 1;
        let w = choose|w: Seq<int>| fits(history, steps, steps.len() as int, from, w);
        assert(unskippable(steps, 1));
        assert(history[w[1]].0 == steps[1].op);
    }
}

/// A limit that is 0 is not written: of what is asked for before the fork and after it,
/// nothing writes to its file.
pub proof fn law_no_limit_no_write(cfg: ContainerConfigView, path: Seq<char>, contents: Seq<char>)
    requires
        limits(cfg, path, contents),
    ensures
        path == path_joined(leaf_path(cfg.id), "memory.max"@) ==> cfg.resources.memory_max > 0
            && contents == decimal(cfg.resources.memory_max as nat),
        path == path_joined(leaf_path(cfg.id), "cpu.max"@) ==> cfg.resources.cpu_quota > 0
            && contents == decimal(cfg.resources.cpu_quota as nat) + " "@ + decimal(
            cfg.resources.cpu_period as nat,
        ),
        path == path_joined(leaf_path(cfg.id), "pids.max"@) ==> cfg.resources.pids_max > 0
            && contents == decimal(cfg.resources.pids_max as nat),
{
    lemma_files_differ(leaf_path(cfg.id));
}

/// Of what the run of a container with a random id writes, only its limits go to the files
/// that limit it.
pub proof fn lemma_leaf_writes(cfg: ContainerConfigView, path: Seq<char>)
    requires
        is_random_uuid(cfg.id),
        path == path_joined(leaf_path(cfg.id), "memory.max"@) || path == path_joined(
            leaf_path(cfg.id),
            "memory.swap.max"@,
        ) || path == path_joined(leaf_path(cfg.id), "cpu.max"@) || path == path_joined(
            leaf_path(cfg.id),
            "pids.max"@,
        ),
    ensures
        path != "/sys/fs/cgroup/mc.init/cgroup.procs"@,
        path != "/sys/fs/cgroup/cgroup.subtree_control"@,
        path != "/proc/sys/net/ipv4/ip_forward"@,
        path != path_joined(leaf_path(cfg.id), "cgroup.procs"@),
        path_joined(leaf_path(cfg.id), "memory.max"@).len() == 62,
        path_joined(leaf_path(cfg.id), "memory.swap.max"@).len() == 67,
        path_joined(leaf_path(cfg.id), "cpu.max"@).len() == 59,
        path_joined(leaf_path(cfg.id), "pids.max"@).len() == 60,
{
    lemma_paths(cfg);
    lemma_root_files();
}

/// The files of a leaf have different paths.
proof fn lemma_files_differ(leaf: Seq<char>)
    ensures
        path_joined(leaf, "memory.max"@) != path_joined(leaf, "memory.swap.max"@),
        path_joined(leaf, "memory.max"@) != path_joined(leaf, "cpu.max"@),
        path_joined(leaf, "memory.max"@) != path_joined(leaf, "pids.max"@),
        path_joined(leaf, "cpu.max"@) != path_joined(leaf, "memory.swap.max"@),
        path_joined(leaf, "cpu.max"@) != path_joined(leaf, "pids.max"@),
        path_joined(leaf, "pids.max"@) != path_joined(leaf, "memory.swap.max"@),
{
    reveal_strlit("memory.max");
    reveal_strlit("memory.swap.max");
    reveal_strlit("cpu.max");
    reveal_strlit("pids.max");
    assert("memory.max"@.len() == 10 && "memory.swap.max"@.len() == 15 && "cpu.max"@.len() == 7
        && "pids.max"@.len() == 8);
    lemma_joined_length(leaf, "memory.max"@);
    lemma_joined_length(leaf, "memory.swap.max"@);
    lemma_joined_length(leaf, "cpu.max"@);
    lemma_joined_length(leaf, "pids.max"@);
}

proof fn lemma_joined_length(dir: Seq<char>, file: Seq<char>)
    requires
        file.len() > 0,
        file[0] != '/',
    ensures
        path_joined(dir, file).len() == dir.len() + file.len() + (if dir.len() > 0 && dir.last()
            != '/' {
            1int
        } else {
            0int
        }),
{
    reveal_strlit("/");
}

/// Where a container is released, its pid came from the process that forked it; then its
/// process was put into its leaf and, if the configuration asks for a network, wired into
/// the bridge. All of this was done, in this order.
pub proof fn law_joined_in_order(
    cfg: ContainerConfigView,
    index: u8,
    record: Option<RecordView>,
    answers: spec_fn(int) -> ReplyView,
    n: nat,
)
    requires
        launch_run(cfg, index, record, answers, n).0 matches LaunchCourse::Ask(l)
            && l.stage.op() is Release,
    ensures
        ({
            let history = launch_run(cfg, index, record, answers, n).1;
            exists|pid: i32|
                {
                    &&& pid > 0
                    &&& #[trigger] came(history, pid)
                    &&& done_in_order(
                        history,
                        seq![
                            OpView::WriteFile {
                                path: path_joined(leaf_path(cfg.id), "cgroup.procs"@),
                                contents: signed_decimal(pid as int),
                            },
                        ] + (if cfg.network {
                            link_ops(cfg, index, pid)
                        } else {
                            Seq::empty()
                        }),
                    )
                }
        }),
{
    lemma_run_paced_at(cfg, index, record, answers, n);
    lemma_run_sound(cfg, index, record, answers, n);
    let history = launch_run(cfg, index, record, answers, n).1;
    let l = launch_run(cfg, index, record, answers, n).0->Ask_0;
    let pid = l.progress.container;
    lemma_fork_stage(cfg, index, record, l, history);
    lemma_joined_in_order(cfg, index, pid, history);
    assert(came(history, pid));
}

proof fn lemma_joined_in_order(
    cfg: ContainerConfigView,
    index: u8,
    pid: i32,
    history: Seq<Event>,
)
    requires
        paced(
            history,
            attach_steps(cfg, index, leaf_path(cfg.id), pid),
            attach_steps(cfg, index, leaf_path(cfg.id), pid).len() as int,
            0,
        ),
    ensures
        done_in_order(
            history,
            seq![
                OpView::WriteFile {
                    path: path_joined(leaf_path(cfg.id), "cgroup.procs"@),
                    contents: signed_decimal(pid as int),
                },
            ] + (if cfg.network {
                link_ops(cfg, index, pid)
            } else {
                Seq::empty()
            }),
        ),
{
    let steps = attach_steps(cfg, index, leaf_path(cfg.id), pid);
    let ops = seq![
        OpView::WriteFile {
            path: path_joined(leaf_path(cfg.id), "cgroup.procs"@),
            contents: signed_decimal(pid as int),
        },
    ] + (if cfg.network {
        link_ops(cfg, index, pid)
    } else {
        Seq::empty()
    });
    let chosen = Seq::new(
        ops.len(),
        |i: int|
            if i == 0 {
                0
            } else {
                i + 7
            },
    );
    assert forall|i: int| 0 <= i < chosen.len() implies {
        &&& 0 <= #[trigger] chosen[i] < steps.len()
        &&& unskippable(steps, chosen[i])
        &&& !(steps[chosen[i]].on_failure is Ignore)
        &&& steps[chosen[i]].op == ops[i]
    } by {
        let c = chosen[i];
        lemma_attach_length(cfg, index, pid);
        lemma_attach_op(cfg, index, pid, c);
        lemma_attach_skips(cfg, index, pid, c);
        if i > 0 {
            assert(ops[i] == link_ops(cfg, index, pid)[i - 1]);
        }
    }
    lemma_done_in_order(history, steps, 0, chosen, ops);
}

/// Whether `pid` came through the pipe.
pub open spec fn came(history: Seq<Event>, pid: i32) -> bool {
    exists|k: int|
        0 <= k < history.len() && #[trigger] history[k] == (
            OpView::ReceivePid,
            ReplyView::Pid(pid),
        )
}

proof fn lemma_attach_length(cfg: ContainerConfigView, index: u8, pid: i32)
    ensures
        attach_steps(cfg, index, leaf_path(cfg.id), pid).len() == (if cfg.network {
            17int
        } else {
            1int
        }),
{
}

proof fn lemma_attach_skips(cfg: ContainerConfigView, index: u8, pid: i32, i: int)
    requires
        0 <= i < attach_steps(cfg, index, leaf_path(cfg.id), pid).len(),
        i == 0 || i >= 8,
    ensures
        unskippable(attach_steps(cfg, index, leaf_path(cfg.id), pid), i),
        !(attach_steps(cfg, index, leaf_path(cfg.id), pid)[i].on_failure is Ignore),
{
    let steps = attach_steps(cfg, index, leaf_path(cfg.id), pid);
    let wiring = setup_steps(short(cfg.id), pid, index);
    if i > 0 {
        assert forall|k: int| 0 <= k < i implies k + 1 + (#[trigger] steps[k]).skip <= i by {
            if k > 0 {
                assert(steps[k] == wiring[k - 1]);
            }
        }
        assert(steps[i] == wiring[i - 1]);
    }
}

// Where the measurements come from.

/// The time that an answer tells, in nanoseconds; 0 where it tells none.
pub open spec fn time_in(reply: ReplyView) -> u64 {
    match reply {
        ReplyView::Nanos(n) => n,
        _ => 0,
    }
}

/// The number that the text of an answer holds, if there is one.
pub open spec fn number_in(reply: ReplyView) -> Option<u64> {
    match reply {
        ReplyView::Text(text) => parsed_u64(trimmed(text)),
        _ => None,
    }
}

/// The CPU time that the text of an answer tells, in microseconds; 0 where it tells none.
pub open spec fn cpu_in(reply: ReplyView) -> u64 {
    match reply {
        ReplyView::Text(text) => match usage(lines(text)) {
            Some(usec) => usec,
            None => 0,
        },
        _ => 0,
    }
}

/// The exit code that stands for the end of a process.
pub open spec fn code_in(status: WaitStatus) -> i32 {
    match status {
        WaitStatus::Exited(code) => code,
        WaitStatus::Signaled(signal) => (128 + signal) as i32,
        WaitStatus::Other => -1i32,
    }
}

/// Whether the process `middle` was forked.
pub open spec fn forked(history: Seq<Event>, middle: i32) -> bool {
    exists|k: int|
        0 <= k < history.len() && #[trigger] history[k] == (OpView::Fork, ReplyView::Pid(middle))
}

/// Whether the clock was started first of all, and not again.
pub open spec fn clock_started(history: Seq<Event>) -> bool {
    &&& history.len() > 0
    &&& history[0].0 is StartClock
    &&& forall|k: int| 0 < k < history.len() ==> !((#[trigger] history[k]).0 is StartClock)
}

/// Whether the clock was not read before `s`.
pub open spec fn no_clock(history: Seq<Event>, s: int) -> bool {
    forall|k: int| 0 <= k < s && k < history.len() ==> !((#[trigger] history[k]).0 is ReadClock)
}

/// Where the CPU time is asked for, if the clock is first read at `s`: behind the peak of
/// the memory, and behind its current size where no peak could be told.
pub open spec fn cpu_at(history: Seq<Event>, s: int) -> int {
    if number_in(history[s + 4].1) is Some {
        s + 5
    } else {
        s + 6
    }
}

/// The peak of the memory that the answers from `s` on tell: the peak; the current size
/// where none could be told; 0 where neither could.
pub open spec fn peak_in(history: Seq<Event>, s: int) -> u64 {
    match number_in(history[s + 4].1) {
        Some(bytes) => bytes,
        None => match number_in(history[s + 5].1) {
            Some(bytes) => bytes,
            None => 0,
        },
    }
}

/// Whether the measurements `m` of the container `cfg` are what the host told from `s`
/// on, where the clock that was started at the beginning was first read: the time of the
/// setup; then, once the container was released or given up and the forked process
/// `middle` was waited for, its exit code and the whole time; then the memory and the CPU
/// time of the container's leaf.
pub open spec fn measured_from(
    cfg: ContainerConfigView,
    m: MetricsView,
    history: Seq<Event>,
    middle: i32,
    s: int,
) -> bool {
    let leaf = leaf_path(cfg.id);
    let c = cpu_at(history, s);
    &&& 0 <= s && c < history.len()
    &&& clock_started(history)
    &&& no_clock(history, s)
    &&& forked(history, middle)
    &&& m.id == cfg.id
    &&& history[s].0 is ReadClock && m.setup_nanos == time_in(history[s].1)
    &&& history[s + 1].0 is Release || history[s + 1].0 == (OpView::Close {
        pipe: Pipe::Release,
        end: PipeEnd::Write,
    })
    &&& history[s + 2].0 == OpView::Wait(middle)
    &&& history[s + 2].1 matches ReplyView::Status(status) && m.exit_code == code_in(status)
    &&& history[s + 3].0 is ReadClock && m.wall_nanos == time_in(history[s + 3].1)
    &&& history[s + 4].0 == OpView::ReadFile(path_joined(leaf, "memory.peak"@))
    &&& number_in(history[s + 4].1) is None ==> history[s + 5].0 == OpView::ReadFile(
        path_joined(leaf, "memory.current"@),
    )
    &&& m.peak_mem_bytes == peak_in(history, s)
    &&& history[c].0 == OpView::ReadFile(path_joined(leaf, "cpu.stat"@))
    &&& m.cpu_usec == cpu_in(history[c].1)
}

spec fn counted(
    l: LaunchView,
    history: Seq<Event>,
    s: int,
    depth: int,
) -> bool {
    let leaf = l.cgroup;
    let p = l.progress;
    &&& 0 <= s
    &&& forked(history, p.middle)
    &&& no_clock(history, s)
    &&& s < history.len() && history[s].0 is ReadClock && p.setup_nanos == time_in(history[s].1)
    &&& depth >= 2 ==> s + 1 < history.len() && (history[s + 1].0 is Release || history[s + 1].0
        == (OpView::Close { pipe: Pipe::Release, end: PipeEnd::Write }))
    &&& depth >= 3 ==> {
        &&& s + 2 < history.len()
        &&& history[s + 2].0 == OpView::Wait(p.middle)
        &&& history[s + 2].1 matches ReplyView::Status(status) && p.exit_code == code_in(status)
    }
    &&& depth >= 4 ==> s + 3 < history.len() && history[s + 3].0 is ReadClock && p.wall_nanos
        == time_in(history[s + 3].1)
    &&& depth >= 5 ==> {
        &&& s + 4 < history.len()
        &&& history[s + 4].0 == OpView::ReadFile(path_joined(leaf, "memory.peak"@))
    }
    &&& depth >= 6 ==> {
        &&& cpu_at(history, s) <= history.len()
        &&& number_in(history[s + 4].1) is None ==> history[s + 5].0 == OpView::ReadFile(
            path_joined(leaf, "memory.current"@),
        )
        &&& p.peak_mem_bytes == peak_in(history, s)
    }
    &&& depth >= 7 ==> {
        let c = cpu_at(history, s);
        &&& c < history.len()
        &&& history[c].0 == OpView::ReadFile(path_joined(leaf, "cpu.stat"@))
        &&& p.cpu_usec == cpu_in(history[c].1)
    }
}

spec fn counted_so_far(l: LaunchView, history: Seq<Event>) -> bool {
    let n = history.len() as int;
    match l.stage {
        LaunchStageView::Clock(_) => no_clock(history, n),
        LaunchStageView::Create(_) => no_clock(history, n),
        LaunchStageView::Prepare(_) => no_clock(history, n),
        LaunchStageView::Fork(_) => no_clock(history, n),
        LaunchStageView::Release(_) => counted(l, history, n - 1, 1),
        LaunchStageView::Abandon(_) => counted(l, history, n - 1, 1),
        LaunchStageView::Wait(_) => counted(l, history, n - 2, 2),
        LaunchStageView::WallClock(_) => counted(l, history, n - 3, 3),
        LaunchStageView::Peak(_) => counted(l, history, n - 4, 4),
        LaunchStageView::Current(_) => counted(l, history, n - 5, 5) && number_in(
            history[n - 1].1,
        ) is None,
        LaunchStageView::Cpu(_) => exists|s: int|
            #[trigger] counted(l, history, s, 6) && cpu_at(history, s) == n,
        LaunchStageView::Clean(_) => exists|s: int| #[trigger] counted(l, history, s, 7),
        _ => no_clock(history, n) && forked(history, l.progress.middle),
    }
}

proof fn lemma_counted_stays(
    l: LaunchView,
    history: Seq<Event>,
    event: Event,
    s: int,
    depth: int,
)
    requires
        counted(l, history, s, depth),
    ensures
        counted(l, history.push(event), s, depth),
{
    let longer = history.push(event);
    assert(forall|k: int| 0 <= k < history.len() ==> #[trigger] longer[k] == history[k]);
    lemma_forked_stays(history, event, l.progress.middle);
}

proof fn lemma_forked_stays(history: Seq<Event>, event: Event, middle: i32)
    ensures
        forked(history, middle) ==> forked(history.push(event), middle),
{
    if forked(history, middle) {
        let k = choose|k: int|
            0 <= k < history.len() && #[trigger] history[k] == (
                OpView::Fork,
                ReplyView::Pid(middle),
            );
        assert(history.push(event)[k] == history[k]);
    }
}

proof fn lemma_no_clock_yet(
    cfg: ContainerConfigView,
    index: u8,
    record: Option<RecordView>,
    l: LaunchView,
    history: Seq<Event>,
)
    requires
        run_sound(cfg, index, record, LaunchCourse::Ask(l), history),
    ensures
        match l.stage {
            LaunchStageView::Clock(_) => true,
            LaunchStageView::Create(_) => true,
            LaunchStageView::Prepare(_) => true,
            LaunchStageView::Fork(_) => true,
            LaunchStageView::Part(_) => true,
            LaunchStageView::Learn(_) => true,
            LaunchStageView::Attach(_) => true,
            LaunchStageView::Note(_) => true,
            _ => false,
        } ==> !(l.stage.op() is ReadClock),
{
    match l.stage {
        LaunchStageView::Prepare(run) => {
            lemma_prepare_ops(l.cgroup, l.cfg.resources, run.at);
        },
        LaunchStageView::Attach(run) => {
            if run.at > 0 {
                lemma_wiring_ops(short(l.cfg.id), l.progress.container, l.index, run.at - 1);
            }
        },
        _ => {},
    }
}

proof fn lemma_counting_before(
    cfg: ContainerConfigView,
    index: u8,
    record: Option<RecordView>,
    l: LaunchView,
    history: Seq<Event>,
    reply: ReplyView,
)
    requires
        run_sound(cfg, index, record, LaunchCourse::Ask(l), history),
        counted_so_far(l, history),
        match l.stage {
            LaunchStageView::Clock(_) => true,
            LaunchStageView::Create(_) => true,
            LaunchStageView::Prepare(_) => true,
            LaunchStageView::Fork(_) => true,
            LaunchStageView::Part(_) => true,
            LaunchStageView::Learn(_) => true,
            LaunchStageView::Attach(_) => true,
            LaunchStageView::Note(_) => true,
            _ => false,
        },
    ensures
        l.next(reply) matches LaunchCourse::Ask(next) ==> counted_so_far(
            next,
            history.push((l.stage.op(), reply)),
        ),
        !(l.next(reply) matches LaunchCourse::Ended(Ok(_))),
{
    let event = (l.stage.op(), reply);
    let longer = history.push(event);
    lemma_no_clock_yet(cfg, index, record, l, history);
    lemma_forked_stays(history, event, l.progress.middle);
    assert(forall|k: int| 0 <= k < history.len() ==> #[trigger] longer[k] == history[k]);
    assert(longer[history.len() as int] == event);
    assert(no_clock(longer, longer.len() as int));
    if l.stage is Fork {
        if let ReplyView::Pid(middle) = reply {
            assert(longer[history.len() as int] == (OpView::Fork, ReplyView::Pid(middle)));
            assert(forked(longer, middle));
        }
    }
}

proof fn lemma_counting_after(
    cfg: ContainerConfigView,
    index: u8,
    record: Option<RecordView>,
    l: LaunchView,
    history: Seq<Event>,
    reply: ReplyView,
)
    requires
        run_sound(cfg, index, record, LaunchCourse::Ask(l), history),
        counted_so_far(l, history),
        match l.stage {
            LaunchStageView::SetupClock(_) => true,
            LaunchStageView::Release(_) => true,
            LaunchStageView::Abandon(_) => true,
            LaunchStageView::Wait(_) => true,
            LaunchStageView::WallClock(_) => true,
            LaunchStageView::Peak(_) => true,
            LaunchStageView::Current(_) => true,
            _ => false,
        },
    ensures
        l.next(reply) matches LaunchCourse::Ask(next) ==> counted_so_far(
            next,
            history.push((l.stage.op(), reply)),
        ),
        !(l.next(reply) matches LaunchCourse::Ended(Ok(_))),
{
    let event = (l.stage.op(), reply);
    let longer = history.push(event);
    let n = history.len() as int;
    lemma_forked_stays(history, event, l.progress.middle);
    assert(forall|k: int| 0 <= k < history.len() ==> #[trigger] longer[k] == history[k]);
    assert(longer[n] == event);
    assert(forall|s: int| s <= n ==> (no_clock(history, s) ==> #[trigger] no_clock(longer, s)));
    match l.stage {
        LaunchStageView::SetupClock(_) => {
            assert(no_clock(longer, n));
            assert(counted(l.next(reply)->Ask_0, longer, n, 1));
        },
        LaunchStageView::Peak(_) => {
            lemma_counted_stays(l, history, event, n - 4, 4);
            let next = l.next(reply)->Ask_0;
            assert(number_in(reply) == reading(reply.text()));
            if number_in(reply) is Some {
                assert(counted(next, longer, n - 4, 6) && cpu_at(longer, n - 4) == n + 1);
            }
        },
        LaunchStageView::Current(_) => {
            lemma_counted_stays(l, history, event, n - 5, 5);
            let next = l.next(reply)->Ask_0;
            assert(number_in(reply) == reading(reply.text()));
            assert(longer[n - 1] == history[n - 1]);
            assert(counted(next, longer, n - 5, 6) && cpu_at(longer, n - 5) == n + 1);
        },
        LaunchStageView::WallClock(_) => {
            lemma_counted_stays(l, history, event, n - 3, 3);
            assert(counted(l.next(reply)->Ask_0, longer, n - 3, 4));
        },
        LaunchStageView::Wait(_) => {
            lemma_counted_stays(l, history, event, n - 2, 2);
            if let LaunchCourse::Ask(next) = l.next(reply) {
                assert(counted(next, longer, n - 2, 3));
            }
        },
        _ => {
            lemma_counted_stays(l, history, event, n - 1, 1);
            assert(counted(l.next(reply)->Ask_0, longer, n - 1, 2));
        },
    }
}

proof fn lemma_counting_last(
    cfg: ContainerConfigView,
    index: u8,
    record: Option<RecordView>,
    l: LaunchView,
    history: Seq<Event>,
    reply: ReplyView,
)
    requires
        run_sound(cfg, index, record, LaunchCourse::Ask(l), history),
        counted_so_far(l, history),
        l.stage is Cpu || l.stage is Clean,
        clocked(l, history),
    ensures
        l.next(reply) matches LaunchCourse::Ask(next) ==> counted_so_far(
            next,
            history.push((l.stage.op(), reply)),
        ),
        l.next(reply) matches LaunchCourse::Ended(Ok(m)) ==> exists|s: int|
            #[trigger] measured_from(
                cfg,
                m,
                history.push((l.stage.op(), reply)),
                l.progress.middle,
                s,
            ),
{
    let event = (l.stage.op(), reply);
    let longer = history.push(event);
    let n = history.len() as int;
    lemma_clocked(cfg, index, record, l, history, reply);
    if l.stage is Cpu {
        let s = choose|s: int| #[trigger] counted(l, history, s, 6) && cpu_at(history, s) == n;
        lemma_counted_stays(l, history, event, s, 6);
        assert(longer[s + 4] == history[s + 4]);
        assert(longer[n] == event);
        let next = l.next(reply)->Ask_0;
        assert(counted(next, longer, s, 7));
    } else {
        let s = choose|s: int| #[trigger] counted(l, history, s, 7);
        lemma_counted_stays(l, history, event, s, 7);
        if let LaunchCourse::Ask(next) = l.next(reply) {
            assert(counted(next, longer, s, 7));
        }
        if let LaunchCourse::Ended(Ok(m)) = l.next(reply) {
            assert(measured_from(cfg, m, longer, l.progress.middle, s));
        }
    }
}

/// Whether the clock of a run was started first of all.
spec fn clocked(l: LaunchView, history: Seq<Event>) -> bool {
    if l.stage is Clock {
        history.len() == 0
    } else {
        clock_started(history)
    }
}

proof fn lemma_clocked(
    cfg: ContainerConfigView,
    index: u8,
    record: Option<RecordView>,
    l: LaunchView,
    history: Seq<Event>,
    reply: ReplyView,
)
    requires
        run_sound(cfg, index, record, LaunchCourse::Ask(l), history),
        clocked(l, history),
    ensures
        clock_started(history.push((l.stage.op(), reply))),
        l.next(reply) matches LaunchCourse::Ask(next) ==> !(next.stage is Clock),
{
    let longer = history.push((l.stage.op(), reply));
    assert(forall|k: int| 0 <= k < history.len() ==> #[trigger] longer[k] == history[k]);
    lemma_starts_clock(cfg, index, record, l, history);
}

proof fn lemma_starts_clock(
    cfg: ContainerConfigView,
    index: u8,
    record: Option<RecordView>,
    l: LaunchView,
    history: Seq<Event>,
)
    requires
        run_sound(cfg, index, record, LaunchCourse::Ask(l), history),
    ensures
        l.stage.op() is StartClock <==> l.stage is Clock,
{
    match l.stage {
        LaunchStageView::Prepare(run) => {
            lemma_prepare_ops(l.cgroup, l.cfg.resources, run.at);
        },
        LaunchStageView::Attach(run) => {
            if run.at > 0 {
                lemma_wiring_ops(short(l.cfg.id), l.progress.container, l.index, run.at - 1);
            }
        },
        LaunchStageView::Part(run) => {
            assert(run.steps == parent_steps());
        },
        _ => {},
    }
}

/// Whether a run has kept account of what the host told it so far.
pub closed spec fn kept_account(
    cfg: ContainerConfigView,
    course: LaunchCourse,
    history: Seq<Event>,
) -> bool {
    match course {
        LaunchCourse::Ask(l) => counted_so_far(l, history) && clocked(l, history),
        LaunchCourse::Middle(_) => true,
        LaunchCourse::Ended(Ok(m)) => exists|middle: i32, s: int|
            #[trigger] measured_from(cfg, m, history, middle, s),
        LaunchCourse::Ended(Err(_)) => true,
    }
}

/// A run that goes on keeps account.
pub proof fn lemma_kept_account_step(
    cfg: ContainerConfigView,
    index: u8,
    record: Option<RecordView>,
    l: LaunchView,
    history: Seq<Event>,
    reply: ReplyView,
)
    requires
        run_sound(cfg, index, record, LaunchCourse::Ask(l), history),
        kept_account(cfg, LaunchCourse::Ask(l), history),
    ensures
        kept_account(cfg, l.next(reply), history.push((l.stage.op(), reply))),
{
    lemma_clocked(cfg, index, record, l, history, reply);
    match l.stage {
        LaunchStageView::Cpu(_) => {
            lemma_counting_last(cfg, index, record, l, history, reply);
        },
        LaunchStageView::Clean(_) => {
            lemma_counting_last(cfg, index, record, l, history, reply);
        },
        LaunchStageView::SetupClock(_) => {
            lemma_counting_after(cfg, index, record, l, history, reply);
        },
        LaunchStageView::Release(_) => {
            lemma_counting_after(cfg, index, record, l, history, reply);
        },
        LaunchStageView::Abandon(_) => {
            lemma_counting_after(cfg, index, record, l, history, reply);
        },
        LaunchStageView::Wait(_) => {
            lemma_counting_after(cfg, index, record, l, history, reply);
        },
        LaunchStageView::WallClock(_) => {
            lemma_counting_after(cfg, index, record, l, history, reply);
        },
        LaunchStageView::Peak(_) => {
            lemma_counting_after(cfg, index, record, l, history, reply);
        },
        LaunchStageView::Current(_) => {
            lemma_counting_after(cfg, index, record, l, history, reply);
        },
        _ => {
            lemma_counting_before(cfg, index, record, l, history, reply);
        },
    }
}

/// A run that begins has been told nothing.
pub proof fn lemma_account_begins(
    cfg: ContainerConfigView,
    index: u8,
    record: Option<RecordView>,
)
    ensures
        kept_account(
            cfg,
            LaunchCourse::Ask(LaunchView::start(cfg, index, record)),
            Seq::empty(),
        ),
{
}

/// What a run that keeps account and has ended well returns.
pub proof fn lemma_account_ends(
    cfg: ContainerConfigView,
    m: MetricsView,
    history: Seq<Event>,
)
    requires
        kept_account(cfg, LaunchCourse::Ended(Ok(m)), history),
    ensures
        exists|middle: i32, s: int| #[trigger] measured_from(cfg, m, history, middle, s),
{
}

proof fn lemma_kept_account(
    cfg: ContainerConfigView,
    index: u8,
    record: Option<RecordView>,
    answers: spec_fn(int) -> ReplyView,
    n: nat,
)
    ensures
        kept_account(
            cfg,
            launch_run(cfg, index, record, answers, n).0,
            launch_run(cfg, index, record, answers, n).1,
        ),
    decreases n,
{
    if n > 0 {
        lemma_kept_account(cfg, index, record, answers, (n - 1) as nat);
        lemma_run_sound(cfg, index, record, answers, (n - 1) as nat);
        let before = launch_run(cfg, index, record, answers, (n - 1) as nat);
        if let LaunchCourse::Ask(l) = before.0 {
            lemma_kept_account_step(cfg, index, record, l, before.1, answers(n - 1));
        }
    }
}

/// The measurements that a run returns are what the host told it: the two times are what
/// the clock showed when it was read for the first and for the second time, the exit code
/// is that of the process that was forked and waited for, and the memory and the CPU time
/// are what the files of the container's own leaf said.
pub proof fn law_measured(
    cfg: ContainerConfigView,
    index: u8,
    record: Option<RecordView>,
    answers: spec_fn(int) -> ReplyView,
    n: nat,
)
    requires
        launch_run(cfg, index, record, answers, n).0 matches LaunchCourse::Ended(Ok(_)),
    ensures
        exists|middle: i32, s: int|
            #[trigger] measured_from(
                cfg,
                launch_run(cfg, index, record, answers, n).0->Ended_0->Ok_0,
                launch_run(cfg, index, record, answers, n).1,
                middle,
                s,
            ),
{
    lemma_kept_account(cfg, index, record, answers, n);
}

// How a run ends.

/// A run that ends well asked for the removal of the container's leaf at last. Where a
/// container came and has a network, the removal of its link was asked for, and its
/// address is told; otherwise none is.
pub proof fn law_leaves_nothing(
    cfg: ContainerConfigView,
    index: u8,
    record: Option<RecordView>,
    answers: spec_fn(int) -> ReplyView,
    n: nat,
)
    requires
        launch_run(cfg, index, record, answers, n).0 matches LaunchCourse::Ended(Ok(_)),
    ensures
        ({
            let m = launch_run(cfg, index, record, answers, n).0->Ended_0->Ok_0;
            let history = launch_run(cfg, index, record, answers, n).1;
            let unlinked = ip(seq!["link"@, "delete"@, veth_name("mch"@, short(cfg.id))]);
            &&& m.id == cfg.id
            &&& asked(history, OpView::RemoveDir(leaf_path(cfg.id)))
            &&& m.container_ip is Some <==> cfg.network && exists|pid: i32|
                pid > 0 && #[trigger] came(history, pid)
            &&& m.container_ip matches Some(address) ==> {
                &&& address == "10.66.0."@ + decimal((index + 2) as nat)
                &&& asked(history, unlinked)
            }
        }),
{
    lemma_launch(cfg, index, record, answers, n);
    lemma_one_pid(cfg, index, record, answers, n);
    let m = launch_run(cfg, index, record, answers, n).0->Ended_0->Ok_0;
    let history = launch_run(cfg, index, record, answers, n).1;
    let here = veth_name("mch"@, short(cfg.id));
    let leaf = leaf_path(cfg.id);
    if ended_attached(cfg, index, m, history) {
        let steps = clean_steps(network_for(cfg, index), leaf);
        let pid = choose|pid: i32| #[trigger] attached(cfg, index, pid, history);
        assert(came(history, pid));
        if cfg.network {
            assert(unskippable(steps, 0));
            assert(steps[0].op->Command_args =~= seq!["link"@, "delete"@, here]);
            assert(unskippable(steps, 1));
        } else {
            assert(unskippable(steps, 0));
        }
    } else {
        let steps = clean_steps(None, leaf);
        assert(unskippable(steps, 0));
    }
}

/// Whether the pid of the container was asked for once at most, at the last of the given
/// places.
spec fn asked_once(history: Seq<Event>) -> bool {
    forall|i: int, j: int|
        0 <= i < history.len() && 0 <= j < history.len() && (#[trigger] history[i]).0 is ReceivePid
            && (#[trigger] history[j]).0 is ReceivePid ==> i == j
}

spec fn not_asked(history: Seq<Event>) -> bool {
    forall|i: int| 0 <= i < history.len() ==> !((#[trigger] history[i]).0 is ReceivePid)
}

proof fn lemma_one_pid(
    cfg: ContainerConfigView,
    index: u8,
    record: Option<RecordView>,
    answers: spec_fn(int) -> ReplyView,
    n: nat,
)
    ensures
        ({
            let run = launch_run(cfg, index, record, answers, n);
            &&& asked_once(run.1)
            &&& run.0 matches LaunchCourse::Ask(l) ==> match l.stage {
                LaunchStageView::Clock(_) => not_asked(run.1),
                LaunchStageView::Create(_) => not_asked(run.1),
                LaunchStageView::Prepare(_) => not_asked(run.1),
                LaunchStageView::Fork(_) => not_asked(run.1),
                LaunchStageView::Part(_) => not_asked(run.1),
                LaunchStageView::Learn(_) => not_asked(run.1),
                _ => true,
            }
        }),
    decreases n,
{
    if n > 0 {
        lemma_one_pid(cfg, index, record, answers, (n - 1) as nat);
        lemma_run_sound(cfg, index, record, answers, (n - 1) as nat);
        let before = launch_run(cfg, index, record, answers, (n - 1) as nat);
        if let LaunchCourse::Ask(l) = before.0 {
            let longer = before.1.push((l.stage.op(), answers(n - 1)));
            assert(forall|k: int| 0 <= k < before.1.len() ==> #[trigger] longer[k] == before.1[k]);
            lemma_asks_pid(cfg, index, record, l, before.1);
        }
    }
}

proof fn lemma_asks_pid(
    cfg: ContainerConfigView,
    index: u8,
    record: Option<RecordView>,
    l: LaunchView,
    history: Seq<Event>,
)
    requires
        run_sound(cfg, index, record, LaunchCourse::Ask(l), history),
    ensures
        l.stage.op() is ReceivePid <==> l.stage is Learn,
{
    match l.stage {
        LaunchStageView::Prepare(run) => {
            lemma_prepare_ops(l.cgroup, l.cfg.resources, run.at);
        },
        LaunchStageView::Attach(run) => {
            if run.at > 0 {
                lemma_wiring_ops(short(l.cfg.id), l.progress.container, l.index, run.at - 1);
            }
        },
        LaunchStageView::Part(run) => {
            assert(run.steps == parent_steps());
        },
        _ => {},
    }
}

/// A run saves a state only where it notes that its container runs.
pub proof fn lemma_only_notes_save(
    cfg: ContainerConfigView,
    index: u8,
    record: Option<RecordView>,
    l: LaunchView,
    history: Seq<Event>,
)
    requires
        run_sound(cfg, index, record, LaunchCourse::Ask(l), history),
        l.stage.op() is SaveState,
    ensures
        l.stage matches LaunchStageView::Note(u) && u.stage is Save,
{
    match l.stage {
        LaunchStageView::Prepare(run) => {
            lemma_prepare_ops(l.cgroup, l.cfg.resources, run.at);
        },
        LaunchStageView::Attach(run) => {
            if run.at > 0 {
                lemma_wiring_ops(short(l.cfg.id), l.progress.container, l.index, run.at - 1);
            }
        },
        LaunchStageView::Part(run) => {
            assert(run.steps == parent_steps());
        },
        _ => {},
    }
}

/// The new process of the fork becomes the process between the runtime and the container;
/// the old one goes on; where there is no new one, the run ends with the reason.
pub proof fn law_fork(
    cfg: ContainerConfigView,
    index: u8,
    record: Option<RecordView>,
    answers: spec_fn(int) -> ReplyView,
    n: nat,
)
    requires
        launch_run(cfg, index, record, answers, n).0 matches LaunchCourse::Ask(l)
            && l.stage.op() is Fork,
    ensures
        match answers(n as int) {
            ReplyView::Child => launch_run(cfg, index, record, answers, n + 1).0
                == LaunchCourse::Middle(MiddleView::start(cfg)),
            ReplyView::Pid(_) => launch_run(cfg, index, record, answers, n + 1).0 is Ask,
            reply => launch_run(cfg, index, record, answers, n + 1).0 == LaunchCourse::Ended(
                Err(RuntimeErrorView::Syscall("fork"@, reply.reason())),
            ),
        },
{
    lemma_run_sound(cfg, index, record, answers, n);
    let history = launch_run(cfg, index, record, answers, n).1;
    let l = launch_run(cfg, index, record, answers, n).0->Ask_0;
    lemma_fork_stage(cfg, index, record, l, history);
    assert(launch_run(cfg, index, record, answers, n + 1).0 == l.next(answers(n as int)));
}

/// Whether the container can be run though `op` fails: swap need not be limited, nothing
/// that is closed or removed has to be, nothing that is only read has to be there, and
/// neither the record nor the rules of the bridge are needed.
pub open spec fn dispensable(cfg: ContainerConfigView, op: OpView) -> bool {
    match op {
        OpView::WriteFile { path, .. } => {
            ||| path == path_joined(leaf_path(cfg.id), "memory.swap.max"@)
            ||| path == "/sys/fs/cgroup/mc.init/cgroup.procs"@
            ||| path == "/proc/sys/net/ipv4/ip_forward"@
        },
        OpView::Command { program, args } => {
            ||| op == nat_rule("-C"@) || op == nat_rule("-A"@)
            ||| op == ip(seq!["link"@, "show"@, "mc0"@])
            ||| op == ip(seq!["link"@, "delete"@, veth_name("mch"@, short(cfg.id))])
        },
        OpView::MakeDirs(_) => false,
        OpView::OpenPipe(_) => false,
        OpView::Fork => false,
        OpView::Wait(_) => false,
        OpView::ReadFile(path) => path != "/sys/fs/cgroup/cgroup.controllers"@,
        _ => true,
    }
}

/// What is told when `op` fails with `why`.
pub open spec fn told_of(op: OpView, why: Seq<char>) -> RuntimeErrorView {
    match op {
        OpView::WriteFile { path, contents } => if path
            == "/sys/fs/cgroup/cgroup.subtree_control"@ {
            RuntimeErrorView::Cgroup("enable "@ + contents + ": "@ + why)
        } else {
            RuntimeErrorView::Cgroup(
                "write "@ + path + "=\""@ + contents + "\""@ + ": "@ + why,
            )
        },
        OpView::MakeDirs(path) => if path == "/sys/fs/cgroup/mc.init"@ {
            RuntimeErrorView::Cgroup("mkdir mc.init: "@ + why)
        } else {
            RuntimeErrorView::Cgroup("mkdir "@ + path + ": "@ + why)
        },
        OpView::ReadFile(_) => RuntimeErrorView::Cgroup("read cgroup.controllers: "@ + why),
        OpView::OpenPipe(_) => RuntimeErrorView::Io(why),
        OpView::Fork => RuntimeErrorView::Syscall("fork"@, why),
        OpView::Wait(_) => RuntimeErrorView::Syscall("waitpid"@, why),
        OpView::Command { program, .. } => RuntimeErrorView::Network(
            "spawn "@ + program + ": "@ + why,
        ),
        _ => RuntimeErrorView::Io(why),
    }
}

/// The paths that the run of a container with a random id touches are all different from
/// those of the root that it touches.
proof fn lemma_paths(cfg: ContainerConfigView)
    requires
        is_random_uuid(cfg.id),
    ensures
        leaf_path(cfg.id).len() == 51,
        leaf_path(cfg.id).last() != '/',
        path_joined(leaf_path(cfg.id), "memory.max"@).len() == 62,
        path_joined(leaf_path(cfg.id), "memory.swap.max"@).len() == 67,
        path_joined(leaf_path(cfg.id), "memory.peak"@).len() == 63,
        path_joined(leaf_path(cfg.id), "memory.current"@).len() == 66,
        path_joined(leaf_path(cfg.id), "cpu.max"@).len() == 59,
        path_joined(leaf_path(cfg.id), "cpu.stat"@).len() == 60,
        path_joined(leaf_path(cfg.id), "pids.max"@).len() == 60,
        path_joined(leaf_path(cfg.id), "cgroup.procs"@).len() == 64,
{
    lemma_root_files();
    reveal_strlit("/");
    let leaf = leaf_path(cfg.id);
    assert(cfg.id.len() == 36);
    assert(cfg.id[0] != '/' && cfg.id[35] != '/');
    assert(leaf == "/sys/fs/cgroup"@ + "/"@ + cfg.id);
    assert(leaf.last() == cfg.id[35]);
    reveal_strlit("memory.max");
    reveal_strlit("memory.swap.max");
    reveal_strlit("memory.peak");
    reveal_strlit("memory.current");
    reveal_strlit("cpu.max");
    reveal_strlit("cpu.stat");
    reveal_strlit("pids.max");
    reveal_strlit("cgroup.procs");
    lemma_joined_length(leaf, "memory.max"@);
    lemma_joined_length(leaf, "memory.swap.max"@);
    lemma_joined_length(leaf, "memory.peak"@);
    lemma_joined_length(leaf, "memory.current"@);
    lemma_joined_length(leaf, "cpu.max"@);
    lemma_joined_length(leaf, "cpu.stat"@);
    lemma_joined_length(leaf, "pids.max"@);
    lemma_joined_length(leaf, "cgroup.procs"@);
}

/// What the failure of any one operation of a run leads to: what can be dispensed with
/// does not end the run; any other failure does, and is told with its reason.
pub proof fn law_failure_told(
    cfg: ContainerConfigView,
    index: u8,
    record: Option<RecordView>,
    answers: spec_fn(int) -> ReplyView,
    n: nat,
    why: Seq<char>,
)
    requires
        is_random_uuid(cfg.id),
        launch_run(cfg, index, record, answers, n).0 is Ask,
        answers(n as int) == ReplyView::Failed(why),
    ensures
        ({
            let op = launch_run(cfg, index, record, answers, n).0->Ask_0.stage.op();
            let next = launch_run(cfg, index, record, answers, n + 1).0;
            if dispensable(cfg, op) {
                !(next matches LaunchCourse::Ended(Err(_)))
            } else {
                next == LaunchCourse::Ended(Err(told_of(op, why)))
            }
        }),
{
    lemma_run_sound(cfg, index, record, answers, n);
    let history = launch_run(cfg, index, record, answers, n).1;
    let l = launch_run(cfg, index, record, answers, n).0->Ask_0;
    let reply = answers(n as int);
    assert(launch_run(cfg, index, record, answers, n + 1).0 == l.next(reply));
    lemma_paths(cfg);
    lemma_root_files();
    match l.stage {
        LaunchStageView::Create(c) => {
            lemma_creation_failure(c, reply, why);
        },
        LaunchStageView::Prepare(run) => {
            lemma_prepare_failure(cfg, run.at);
        },
        LaunchStageView::Attach(run) => {
            lemma_attach_op(cfg, index, l.progress.container, run.at);
            lemma_attach_failure(cfg, index, l.progress.container, run.at);
        },
        LaunchStageView::Clean(run) => {
            lemma_clean_failure(cfg, index, l, history);
        },
        LaunchStageView::Part(run) => {
            assert(run.steps == parent_steps());
        },
        _ => {},
    }
}

proof fn lemma_clean_failure(
    cfg: ContainerConfigView,
    index: u8,
    l: LaunchView,
    history: Seq<Event>,
)
    requires
        run_sound(cfg, index, l.record, LaunchCourse::Ask(l), history),
        l.stage is Clean,
    ensures
        dispensable(cfg, l.stage.op()),
{
    let run = l.stage->Clean_0;
    if let Some(net) = l.progress.net {
        if run.at == 0 {
            assert(run.op()->Command_args =~= seq![
                "link"@,
                "delete"@,
                veth_name("mch"@, short(cfg.id)),
            ]);
        }
    }
}

proof fn lemma_creation_failure(c: CgroupCreationView, reply: ReplyView, why: Seq<char>)
    requires
        creation_known(c),
        c.stage.wf(),
        reply == ReplyView::Failed(why),
        c.leaf.len() == 51,
    ensures
        match c.stage.op() {
            OpView::MakeDirs(_) => c.next(reply) == CreationCourse::Ended(
                Err(told_of(c.stage.op(), why)),
            ),
            OpView::ReadFile(path) => if path == "/sys/fs/cgroup/cgroup.controllers"@ {
                c.next(reply) == CreationCourse::Ended(Err(told_of(c.stage.op(), why)))
            } else {
                !(c.next(reply) matches CreationCourse::Ended(_))
            },
            OpView::WriteFile { path, .. } => {
                &&& path == "/sys/fs/cgroup/mc.init/cgroup.procs"@ ==> !(c.next(
                    reply,
                ) matches CreationCourse::Ended(_))
                &&& path != "/sys/fs/cgroup/mc.init/cgroup.procs"@ ==> c.next(reply)
                    == CreationCourse::Ended(Err(told_of(c.stage.op(), why)))
                &&& path.len() == 35 || path.len() == 37
            },
            _ => false,
        },
{
    lemma_root_files();
    if let CreationStageView::Ask { question: QuestionView::Procs { want }, .. } = c.stage {
        assert(delegation_steps(words(Seq::empty()), want, c.leaf).len() > 0);
    }
}

proof fn lemma_prepare_failure(cfg: ContainerConfigView, i: int)
    requires
        0 <= i < prepare_steps(leaf_path(cfg.id), cfg.resources).len(),
        is_random_uuid(cfg.id),
    ensures
        ({
            let step = prepare_steps(leaf_path(cfg.id), cfg.resources)[i];
            match step.op {
                OpView::OpenPipe(_) => step.on_failure is Io,
                OpView::WriteFile { path, contents } => {
                    &&& path.len() > 50
                    &&& step.on_failure == if path == path_joined(
                        leaf_path(cfg.id),
                        "memory.swap.max"@,
                    ) {
                        OnFailureView::Ignore
                    } else {
                        OnFailureView::Cgroup("write "@ + path + "=\""@ + contents + "\""@)
                    }
                },
                _ => false,
            }
        }),
        i + 1 < prepare_steps(leaf_path(cfg.id), cfg.resources).len() || prepare_steps(
            leaf_path(cfg.id),
            cfg.resources,
        )[i].op is OpenPipe,
{
    lemma_paths(cfg);
}

proof fn lemma_attach_failure(cfg: ContainerConfigView, index: u8, pid: i32, i: int)
    requires
        0 <= i < attach_steps(cfg, index, leaf_path(cfg.id), pid).len(),
        is_random_uuid(cfg.id),
    ensures
        ({
            let step = attach_steps(cfg, index, leaf_path(cfg.id), pid)[i];
            match step.op {
                OpView::WriteFile { path, contents } => {
                    &&& i == 0 || i == 5
                    &&& i == 0 ==> step.on_failure == OnFailureView::Cgroup(
                        "write "@ + path + "=\""@ + contents + "\""@,
                    )
                    &&& i == 5 ==> step.on_failure is Ignore
                },
                OpView::Command { program, args } => {
                    &&& step.on_failure is Ignore <==> dispensable(cfg, step.op)
                    &&& step.on_failure is Ignore || step.on_failure is Command
                },
                _ => false,
            }
        }),
{
    let step = attach_steps(cfg, index, leaf_path(cfg.id), pid)[i];
    lemma_attach_op(cfg, index, pid, i);
    if i > 0 {
        assert(step == setup_steps(short(cfg.id), pid, index)[i - 1]);
        reveal_strlit("ip");
        reveal_strlit("nsenter");
        reveal_strlit("iptables");
        assert("ip"@.len() == 2 && "nsenter"@.len() == 7 && "iptables"@.len() == 8);
        assert(nat_rule("-C"@)->Command_args.len() == 11);
        assert(nat_rule("-A"@)->Command_args.len() == 11);
        assert(ip(seq!["link"@, "show"@, "mc0"@])->Command_args.len() == 3);
        assert(ip(
            seq!["link"@, "delete"@, veth_name("mch"@, short(cfg.id))],
        )->Command_args.len() == 3);
        let args = step.op->Command_args;
        if i <= 7 {
            assert(step.op == bridge_ops()[i - 1]);
            assert(2 <= i <= 4 ==> 4 <= args.len() <= 5);
        } else {
            assert(step.op == link_ops(cfg, index, pid)[i - 8]);
            assert(4 <= args.len() <= 9);
        }
    }
}


// The bridge.

/// Whether the operation behind the next answer is `op`.
pub open spec fn asks_next(
    cfg: ContainerConfigView,
    index: u8,
    record: Option<RecordView>,
    answers: spec_fn(int) -> ReplyView,
    n: nat,
    op: OpView,
) -> bool {
    launch_run(cfg, index, record, answers, n + 1).0 matches LaunchCourse::Ask(l) && l.stage.op()
        == op
}

/// How the bridge is made: where it is not there it is made, gets its address and is
/// brought up; whether it was there or not, packets are forwarded and the rule that
/// translates addresses is looked for, and appended exactly where it is not found; then
/// the container is linked to it.
pub proof fn law_bridge(
    cfg: ContainerConfigView,
    index: u8,
    record: Option<RecordView>,
    answers: spec_fn(int) -> ReplyView,
    n: nat,
)
    requires
        is_random_uuid(cfg.id),
        launch_run(cfg, index, record, answers, n).0 is Ask,
    ensures
        ({
            let l = launch_run(cfg, index, record, answers, n).0->Ask_0;
            let op = l.stage.op();
            let links = link_ops(cfg, index, l.progress.container);
            let done = answers(n as int) is Done;
            &&& op == bridge_ops()[0] ==> asks_next(
                cfg,
                index,
                record,
                answers,
                n,
                if done {
                    bridge_ops()[4]
                } else {
                    bridge_ops()[1]
                },
            )
            &&& op == bridge_ops()[4] ==> asks_next(
                cfg,
                index,
                record,
                answers,
                n,
                bridge_ops()[5],
            )
            &&& op == bridge_ops()[5] ==> asks_next(
                cfg,
                index,
                record,
                answers,
                n,
                if done {
                    links[0]
                } else {
                    bridge_ops()[6]
                },
            )
            &&& op == bridge_ops()[6] ==> asks_next(cfg, index, record, answers, n, links[0])
        }),
{
    lemma_run_sound(cfg, index, record, answers, n);
    let l = launch_run(cfg, index, record, answers, n).0->Ask_0;
    let history = launch_run(cfg, index, record, answers, n).1;
    let pid = l.progress.container;
    let op = l.stage.op();
    assert(launch_run(cfg, index, record, answers, n + 1).0 == l.next(answers(n as int)));
    if op == bridge_ops()[0] || op == bridge_ops()[4] || op == bridge_ops()[5] || op
        == bridge_ops()[6] {
        lemma_bridge_stage(cfg, index, record, l, history);
        let run = l.stage->Attach_0;
        lemma_attach_length(cfg, index, pid);
        lemma_attach_op(cfg, index, pid, 2);
        lemma_attach_op(cfg, index, pid, 5);
        lemma_attach_op(cfg, index, pid, 6);
        lemma_attach_op(cfg, index, pid, 7);
        lemma_attach_op(cfg, index, pid, 8);
        lemma_bridge_skips(cfg, index, pid, run.at);
    }
}

proof fn lemma_bridge_skips(cfg: ContainerConfigView, index: u8, pid: i32, i: int)
    requires
        i == 1 || i == 5 || i == 6 || i == 7,
        cfg.network,
    ensures
        ({
            let step = attach_steps(cfg, index, leaf_path(cfg.id), pid)[i];
            &&& step.on_failure is Ignore
            &&& step.skip == (if i == 1 {
                3int
            } else if i == 6 {
                1int
            } else {
                0int
            })
        }),
{
    assert(attach_steps(cfg, index, leaf_path(cfg.id), pid)[i] == setup_steps(
        short(cfg.id),
        pid,
        index,
    )[i - 1]);
}

/// The operations of the bridge are asked for only where the container is attached, each
/// at its place.
proof fn lemma_bridge_stage(
    cfg: ContainerConfigView,
    index: u8,
    record: Option<RecordView>,
    l: LaunchView,
    history: Seq<Event>,
)
    requires
        is_random_uuid(cfg.id),
        run_sound(cfg, index, record, LaunchCourse::Ask(l), history),
        l.stage.op() == bridge_ops()[0] || l.stage.op() == bridge_ops()[4] || l.stage.op()
            == bridge_ops()[5] || l.stage.op() == bridge_ops()[6],
    ensures
        l.stage is Attach,
        cfg.network,
        l.stage.op() == bridge_ops()[0] ==> l.stage->Attach_0.at == 1,
        l.stage.op() == bridge_ops()[4] ==> l.stage->Attach_0.at == 5,
        l.stage.op() == bridge_ops()[5] ==> l.stage->Attach_0.at == 6,
        l.stage.op() == bridge_ops()[6] ==> l.stage->Attach_0.at == 7,
{
    let op = l.stage.op();
    lemma_paths(cfg);
    lemma_root_files();
    reveal_strlit("ip");
    reveal_strlit("nsenter");
    reveal_strlit("iptables");
    reveal_strlit("-C");
    reveal_strlit("-A");
    reveal_strlit("show");
    reveal_strlit("delete");
    assert("ip"@.len() == 2 && "nsenter"@.len() == 7 && "iptables"@.len() == 8);
    assert("-C"@[1] == 'C' && "-A"@[1] == 'A');
    assert(nat_rule("-C"@)->Command_args[2] == "-C"@);
    assert(nat_rule("-A"@)->Command_args[2] == "-A"@);
    let show = ip(seq!["link"@, "show"@, "mc0"@]);
    let unlink = ip(seq!["link"@, "delete"@, veth_name("mch"@, short(cfg.id))]);
    assert(show->Command_args[1] == "show"@ && "show"@.len() == 4);
    assert(unlink->Command_args[1] == "delete"@ && "delete"@.len() == 6);
    match l.stage {
        LaunchStageView::Prepare(run) => {
            lemma_prepare_op(cfg, run.at);
        },
        LaunchStageView::Attach(run) => {
            let pid = l.progress.container;
            lemma_attach_op(cfg, index, pid, run.at);
            lemma_attach_failure(cfg, index, pid, run.at);
            if run.at > 7 {
                let args = op->Command_args;
                assert(op == link_ops(cfg, index, pid)[run.at - 8]);
                assert(4 <= args.len() <= 9);
            } else if 2 <= run.at <= 4 {
                let args = op->Command_args;
                assert(op == bridge_ops()[run.at - 1]);
                assert(4 <= args.len() <= 5);
            }
        },
        LaunchStageView::Clean(run) => {
            if let Some(net) = l.progress.net {
                if run.at == 0 {
                    assert(run.op()->Command_args =~= unlink->Command_args);
                    assert(op == unlink);
                }
            }
        },
        LaunchStageView::Create(c) => {
            if let CreationStageView::Finish(run) = c.stage {
                assert(run.op() == run.steps[run.at].op);
            }
        },
        LaunchStageView::Part(run) => {
            assert(run.steps == parent_steps());
        },
        _ => {},
    }
}


/// The process that forked closes the ends of the pipes that are not its own, and then
/// waits for the pid of the container to come.
pub proof fn law_parts_from_the_child(
    cfg: ContainerConfigView,
    index: u8,
    record: Option<RecordView>,
    answers: spec_fn(int) -> ReplyView,
    n: nat,
)
    requires
        launch_run(cfg, index, record, answers, n).0 matches LaunchCourse::Ask(l)
            && l.stage.op() is Fork,
        answers(n as int) is Pid,
    ensures
        asks_next(
            cfg,
            index,
            record,
            answers,
            n,
            OpView::Close { pipe: Pipe::Release, end: PipeEnd::Read },
        ),
        asks_next(
            cfg,
            index,
            record,
            answers,
            n + 1,
            OpView::Close { pipe: Pipe::Pid, end: PipeEnd::Write },
        ),
        asks_next(cfg, index, record, answers, n + 2, OpView::ReceivePid),
{
    lemma_run_sound(cfg, index, record, answers, n);
    let history = launch_run(cfg, index, record, answers, n).1;
    let l = launch_run(cfg, index, record, answers, n).0->Ask_0;
    lemma_fork_stage(cfg, index, record, l, history);
    assert(launch_run(cfg, index, record, answers, n + 1).0 == l.next(answers(n as int)));
    let a = l.next(answers(n as int))->Ask_0;
    lemma_parting(a, answers(n as int + 1), 0);
    assert(launch_run(cfg, index, record, answers, n + 2).0 == a.next(answers(n as int + 1)));
    let b = a.next(answers(n as int + 1))->Ask_0;
    lemma_parting(b, answers(n as int + 2), 1);
    assert(launch_run(cfg, index, record, answers, n + 3).0 == b.next(answers(n as int + 2)));
}

proof fn lemma_parting(l: LaunchView, reply: ReplyView, at: int)
    requires
        l.stage == LaunchStageView::Part(PlanRunView { steps: parent_steps(), at }),
        at == 0 || at == 1,
    ensures
        l.stage.op() == (if at == 0 {
            OpView::Close { pipe: Pipe::Release, end: PipeEnd::Read }
        } else {
            OpView::Close { pipe: Pipe::Pid, end: PipeEnd::Write }
        }),
        l.next(reply) matches LaunchCourse::Ask(next) && next.stage == (if at == 0 {
            LaunchStageView::Part(PlanRunView { steps: parent_steps(), at: 1 })
        } else {
            LaunchStageView::Learn(OpView::ReceivePid)
        }),
{
    let run = PlanRunView { steps: parent_steps(), at };
    assert(run.next(reply) == crate::plan::place(parent_steps(), at + 1));
}

} // verus!
